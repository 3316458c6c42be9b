//! Action sequences for gRPC fuzzing inputs: a compact serializable form
//! (`poor`), a resolved form checked against a protobuf descriptor pool
//! (`action`), and the stream bookkeeping over a sequence of actions
//! (`sequence`).
pub mod error;
pub mod poor;
pub mod proto;
pub mod action;
pub mod sequence;
pub mod grpc_input;
pub mod laws;
