# grpcrash

Fuzzing inputs for gRPC services, as sequences of actions: stream starts
and ends, messages on client streams, unary calls and delays.

An input is stored in a compact form (`poor`: method names, call ids and
encoded payloads) and resolved against a protobuf descriptor pool into
actions whose methods and payload types are known (`action`). The
`sequence` module keeps track of the streams of a sequence (each stream
started once, ended once, after its start) and changes sequences while
keeping them so; `grpc_input` holds an input with its resolution.

`src/` is verified with Verus. Calls into `prost-reflect` stand in
`src/proto.rs` behind trusted wrappers. Methods and payloads hold a handle on
their pool, so that a payload matches a method's request type only within
the same pool, as descriptors compare. `src/laws.rs` proves what the
operations keep: when the streams of a sequence are well formed, that adding
streams, messages and unary calls keeps them well formed (and that a unary
call keeps a sequence storable), that storing a
resolved sequence succeeds and keeps every action's kind, ids, methods and
payload messages (provided every message on a stream names a stream that
the stored actions start), and that resolving the stored form of a sequence
made of a pool succeeds and gives back the same actions, with payloads that
encode the same messages; and that a method found by name is found again by
its full name.

What the pool holds is named, not computed: `pool_services` (its services
and their methods) and `pool_decodings` (which byte strings decode as each
message type, and how they are encoded again). The contracts of the
resolving functions are exact over these names.

`app/` holds the command-line program and the serde, hashing and `libafl`
side of the types.
