//! The compact form of actions: plain names, ids and encoded payloads, as
//! they are stored and exchanged.
use crate::action::{poor_view, Action, CallId, Stream};
use std::collections::HashMap;
use vstd::prelude::*;

verus! {

/// The id of a call, as stored.
#[derive(Clone, Debug, Hash)]
pub struct PCallId(pub usize);

/// A unary method, by its full name.
#[derive(Clone, Debug, Hash)]
pub struct PCSUnary(pub String);

/// A client-streaming method, by its full name.
#[derive(Clone, Debug, Hash)]
pub struct PCStream(pub String);

/// A server-streaming method, by its full name, with the encoded request.
#[derive(Clone, Debug, Hash)]
pub struct PSStream {
    pub md: String,
    pub payload: Vec<u8>,
}

#[derive(Clone, Debug, Hash)]
pub enum PStreamType {
    Client(PCStream),
    Server(PSStream),
}

#[derive(Clone, Debug, Hash)]
pub struct PStream {
    pub ty: PStreamType,
    pub id: PCallId,
}

#[derive(Clone, Debug, Hash)]
pub enum PStreamAction {
    StreamStart(PStream),
    StreamEnd(PCallId),
}

#[derive(Clone, Debug, Hash)]
pub enum PMessageConnection {
    Stream(PCallId, PCStream),
    Unary(PCSUnary),
}

#[derive(Clone, Debug, Hash)]
pub struct PMessage {
    pub con: PMessageConnection,
    pub payload: Vec<u8>,
}

#[derive(Debug, Hash)]
pub enum PAction {
    Stream(PStreamAction),
    Message(PMessage),
    Delay(u64),
}

/// The mathematical content of a stored action: names as character
/// sequences and payloads as byte sequences.
pub enum PoorAction {
    StartClient { id: usize, method: Seq<char> },
    StartServer { id: usize, method: Seq<char>, payload: Seq<u8> },
    End { id: usize },
    StreamMessage { id: usize, method: Seq<char>, payload: Seq<u8> },
    UnaryMessage { method: Seq<char>, payload: Seq<u8> },
    Delay { delay: u64 },
}

impl View for PAction {
    type V = PoorAction;

    open spec fn view(&self) -> PoorAction {
        match self {
            PAction::Stream(PStreamAction::StreamStart(s)) => match s.ty {
                PStreamType::Client(c) => PoorAction::StartClient { id: s.id.0, method: c.0@ },
                PStreamType::Server(v) => PoorAction::StartServer {
                    id: s.id.0,
                    method: v.md@,
                    payload: v.payload@,
                },
            },
            PAction::Stream(PStreamAction::StreamEnd(id)) => PoorAction::End { id: id.0 },
            PAction::Message(m) => match m.con {
                PMessageConnection::Stream(id, c) => PoorAction::StreamMessage {
                    id: id.0,
                    method: c.0@,
                    payload: m.payload@,
                },
                PMessageConnection::Unary(u) => PoorAction::UnaryMessage {
                    method: u.0@,
                    payload: m.payload@,
                },
            },
            PAction::Delay(d) => PoorAction::Delay { delay: *d },
        }
    }
}

impl Clone for PAction {
    fn clone(&self) -> (r: PAction)
        ensures
            r@ == self@,
    {
        match self {
            PAction::Stream(PStreamAction::StreamStart(s)) => {
                let ty = match &s.ty {
                    PStreamType::Client(c) => PStreamType::Client(PCStream(c.0.clone())),
                    PStreamType::Server(v) => PStreamType::Server(
                        PSStream { md: v.md.clone(), payload: v.payload.clone() },
                    ),
                };
                PAction::Stream(PStreamAction::StreamStart(PStream { ty, id: PCallId(s.id.0) }))
            },
            PAction::Stream(PStreamAction::StreamEnd(id)) => PAction::Stream(
                PStreamAction::StreamEnd(PCallId(id.0)),
            ),
            PAction::Message(m) => {
                let con = match &m.con {
                    PMessageConnection::Stream(id, c) => PMessageConnection::Stream(
                        PCallId(id.0),
                        PCStream(c.0.clone()),
                    ),
                    PMessageConnection::Unary(u) => PMessageConnection::Unary(PCSUnary(u.0.clone())),
                };
                PAction::Message(PMessage { con, payload: m.payload.clone() })
            },
            PAction::Delay(d) => PAction::Delay(*d),
        }
    }
}

impl PCallId {
    /// The stored form of a call id.
    pub fn from_rich(id: &CallId) -> (r: PCallId)
        ensures
            r.0 == id.0,
    {
        PCallId(id.0)
    }
}

impl PAction {
    /// The stored form of a resolved action, given the streams of its
    /// sequence by id; a message on a stream must name one of them.
    pub fn from_rich(action: &Action, streams: &HashMap<usize, &Stream>) -> (r: PAction)
        requires
            poor_view(*action, streams@) is Ok,
        ensures
            r@ == poor_view(*action, streams@)->Ok_0,
    {
        match action.to_poor(streams) {
            Ok(p) => p,
            Err(_) => {
                proof {
                    assert(false);
                }
                PAction::Delay(0)
            },
        }
    }
}

} // verus!
