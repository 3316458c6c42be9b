//! Actions resolved against a descriptor pool: methods are known by their
//! streaming kinds and input types, payloads by their message type.
use crate::error::ActionError;
use crate::poor::{
    PAction, PCSUnary, PCStream, PCallId, PMessage, PMessageConnection, PSStream, PStream,
    PStreamAction, PStreamType, PoorAction,
};
use crate::proto::{
    decode_outcome, decode_payload, decode_safe, lookup_name, method_full_name, method_tuple, same_pool,
    pool_services, service_methods,
};
use prost_reflect::DescriptorPool;
use std::collections::HashMap;
use vstd::prelude::*;
use vstd::string::{StrSliceExecFns, StringExecFns};

verus! {

/// The id of a call (a stream) within an action sequence.
#[derive(Clone, Copy, Debug, PartialEq, Eq, Structural, PartialOrd, Ord, Hash)]
pub struct CallId(pub usize);

/// What the library reads of a method of a protobuf service.
#[derive(Clone, Debug)]
pub struct Method {
    /// The pool that the method and its request message type belong to.
    pub pool: DescriptorPool,
    /// The short name, e.g. `Call`.
    pub name: String,
    /// The full name, e.g. `pkg.Service.Call`.
    pub full_name: String,
    /// The full name of the request message type.
    pub input: String,
    pub client_streaming: bool,
    pub server_streaming: bool,
}

/// A request message: the pool of its type, its type's full name and its
/// encoding.
#[derive(Clone, Debug)]
pub struct Payload {
    pub pool: DescriptorPool,
    pub message_type: String,
    pub bytes: Vec<u8>,
}

/// A unary method.
#[derive(Clone, Debug)]
pub struct CSUnary(pub Method);

/// A client-streaming method.
#[derive(Clone, Debug)]
pub struct CStream(pub Method);

/// A server-streaming method with its request.
#[derive(Clone, Debug)]
pub struct SStream {
    pub md: Method,
    pub payload: Payload,
}

#[derive(Clone, Debug)]
pub enum StreamType {
    Client(CStream),
    Server(SStream),
}

#[derive(Clone, Debug)]
pub struct Stream {
    pub ty: StreamType,
    pub id: CallId,
}

#[derive(Clone, Debug)]
pub enum StreamAction {
    Start(Stream),
    End(CallId),
}

#[derive(Clone, Debug)]
pub enum MessageConnection {
    Stream(CallId),
    Unary(CSUnary),
}

#[derive(Clone, Debug)]
pub struct Message {
    pub con: MessageConnection,
    pub payload: Payload,
}

#[derive(Clone, Debug)]
pub enum Action {
    Stream(StreamAction),
    Message(Message),
    Delay(u64),
}

// ---------------------------------------------------------------------
// Method names
// ---------------------------------------------------------------------

/// The index of the last '.' among the first `n` characters of `s`.
pub open spec fn last_dot_in(s: Seq<char>, n: nat) -> Option<nat>
    decreases n,
{
    if n == 0 {
        None
    } else if s[n - 1] == '.' {
        Some((n - 1) as nat)
    } else {
        last_dot_in(s, (n - 1) as nat)
    }
}

/// `s` split at its last '.': the part before and the part after it.
pub open spec fn split_last_dot(s: Seq<char>) -> Option<(Seq<char>, Seq<char>)> {
    match last_dot_in(s, s.len()) {
        None => None,
        Some(k) => Some((s.subrange(0, k as int), s.subrange((k + 1) as int, s.len() as int))),
    }
}

/// `md` is a method that looking up `name` can give: `name` splits at its
/// last '.' into a service name and a method name; `md` has that method
/// name, and its full name is that of the method in the service as the
/// pool looks it up.
pub open spec fn resolves(md: Method, name: Seq<char>) -> bool {
    match split_last_dot(name) {
        None => false,
        Some((service, method)) => md.name@ == method && md.full_name@ == method_full_name(
            lookup_name(service),
            method,
        ),
    }
}

/// The first of the method tuples `ts`, from index `i` on, whose short
/// name is `name`.
pub open spec fn first_named_tuple(
    ts: Seq<(Seq<char>, Seq<char>, Seq<char>, bool, bool)>,
    name: Seq<char>,
    i: int,
) -> Option<(Seq<char>, Seq<char>, Seq<char>, bool, bool)>
    decreases ts.len() - i,
{
    if i < 0 || i >= ts.len() {
        None
    } else if ts[i].0 == name {
        Some(ts[i])
    } else {
        first_named_tuple(ts, name, i + 1)
    }
}

/// The method that looking up `full_name` in `pool` finds: `full_name`
/// splits at its last '.' into a service name and a method name; the
/// pool has the service (its full name being the service name without one
/// leading '.'); the method is the first of the service's methods with
/// that short name.
pub open spec fn pool_method(pool: DescriptorPool, full_name: Seq<char>) -> Option<
    (Seq<char>, Seq<char>, Seq<char>, bool, bool),
> {
    match split_last_dot(full_name) {
        None => None,
        Some((service, method)) => {
            let k = lookup_name(service);
            if pool_services(pool).contains_key(k) {
                first_named_tuple(pool_services(pool)[k], method, 0)
            } else {
                None
            }
        },
    }
}

/// The first method in `ms`, from index `i` on, whose short name is `name`.
pub open spec fn first_named_from(ms: Seq<Method>, name: Seq<char>, i: int) -> Option<Method>
    decreases ms.len() - i,
{
    if i < 0 || i >= ms.len() {
        None
    } else if ms[i].name@ == name {
        Some(ms[i])
    } else {
        first_named_from(ms, name, i + 1)
    }
}

/// Splits a full name at its last '.' into a service name and a method name.
pub fn split_full_name(full_name: &str) -> (r: Option<(&str, &str)>)
    ensures
        match split_last_dot(full_name@) {
            None => r is None,
            Some((service, method)) => r matches Some((s, m)) && s@ == service && m@ == method,
        },
{
    let len = full_name.unicode_len();
    let mut i = len;
    while i > 0
        invariant
            i <= len,
            len == full_name@.len(),
            last_dot_in(full_name@, len as nat) == last_dot_in(full_name@, i as nat),
        decreases i,
    {
        if full_name.get_char(i - 1) == '.' {
            let service = full_name.substring_char(0, i - 1);
            let method = full_name.substring_char(i, len);
            return Some((service, method));
        }
        i = i - 1;
    }
    None
}

/// The first of `methods` whose short name is `name`.
pub fn find_method(methods: Vec<Method>, name: &str) -> (r: Option<Method>)
    ensures
        r == first_named_from(methods@, name@, 0),
{
    let target = String::from_str(name);
    let mut i: usize = 0;
    while i < methods.len()
        invariant
            i <= methods@.len(),
            target@ == name@,
            first_named_from(methods@, name@, 0) == first_named_from(methods@, name@, i as int),
        decreases methods@.len() - i,
    {
        if methods[i].name == target {
            let mut methods = methods;
            let found = methods.swap_remove(i);
            return Some(found);
        }
        i = i + 1;
    }
    None
}

/// Looks up a method by its full name, `service.method`, in `pool`.
pub fn get_method_by_full_name(full_name: &str, pool: &DescriptorPool) -> (r: Option<Method>)
    ensures
        match pool_method(*pool, full_name@) {
            None => r is None,
            Some(t) => r matches Some(md) && method_tuple(md) == t,
        },
        r matches Some(md) ==> resolves(md, full_name@) && md.pool == *pool,
{
    let (service_name, method_name) = match split_full_name(full_name) {
        Some(parts) => parts,
        None => return None,
    };
    let methods = match service_methods(pool, service_name) {
        Some(methods) => methods,
        None => return None,
    };
    let ghost ms = methods@;
    let r = find_method(methods, method_name);
    proof {
        lemma_first_named_from(ms, method_name@, 0);
        lemma_first_named_tuple(ms, method_name@, 0);
        if r is Some {
            let md = r->Some_0;
            let j = choose|j: int| 0 <= j < ms.len() && ms[j] == md;
            assert(ms[j].full_name@ == method_full_name(lookup_name(service_name@), ms[j].name@));
            assert(ms[j].pool == *pool);
        }
    }
    r
}

/// What `first_named_from` finds is one of the sequence's elements, with
/// the name asked for.
proof fn lemma_first_named_from(ms: Seq<Method>, name: Seq<char>, i: int)
    ensures
        first_named_from(ms, name, i) matches Some(md) ==> md.name@ == name && exists|j: int|
            0 <= j < ms.len() && ms[j] == md,
    decreases ms.len() - i,
{
    if 0 <= i < ms.len() && ms[i].name@ != name {
        lemma_first_named_from(ms, name, i + 1);
    }
}

/// Finding a method by name among methods, or among their tuples, finds
/// the same.
proof fn lemma_first_named_tuple(ms: Seq<Method>, name: Seq<char>, i: int)
    ensures
        match first_named_tuple(ms.map_values(|m: Method| method_tuple(m)), name, i) {
            None => first_named_from(ms, name, i) is None,
            Some(t) => first_named_from(ms, name, i) matches Some(md) && method_tuple(md) == t,
        },
    decreases ms.len() - i,
{
    let ts = ms.map_values(|m: Method| method_tuple(m));
    if 0 <= i < ms.len() {
        assert(ts[i] == method_tuple(ms[i]));
        if ms[i].name@ != name {
            lemma_first_named_tuple(ms, name, i + 1);
        }
    }
}

// ---------------------------------------------------------------------
// Methods and streams
// ---------------------------------------------------------------------

/// The method of a stream.
pub open spec fn method_of(ty: StreamType) -> Method {
    match ty {
        StreamType::Client(c) => c.0,
        StreamType::Server(s) => s.md,
    }
}

impl CallId {
    pub fn from_poor(id: &PCallId) -> (r: CallId)
        ensures
            r.0 == id.0,
    {
        CallId(id.0)
    }

    pub fn to_poor(self) -> (r: PCallId)
        ensures
            r.0 == self.0,
    {
        PCallId(self.0)
    }
}

/// A unary method: one that streams neither way.
pub open spec fn csunary_result(md: Method) -> Result<CSUnary, ActionError> {
    if md.client_streaming || md.server_streaming {
        Err(ActionError::InvalidMethod)
    } else {
        Ok(CSUnary(md))
    }
}

/// A client-streaming method.
pub open spec fn cstream_result(md: Method) -> Result<CStream, ActionError> {
    if !md.client_streaming {
        Err(ActionError::InvalidMethod)
    } else {
        Ok(CStream(md))
    }
}

/// `payload` is of the request type of `md`: the same type, by its full
/// name, in the same pool.
pub open spec fn same_type(md: Method, payload: Payload) -> bool {
    md.input@ == payload.message_type@ && md.pool == payload.pool
}

/// Whether `payload` is of the request type of `md`.
pub fn input_matches(md: &Method, payload: &Payload) -> (r: bool)
    ensures
        r == same_type(*md, *payload),
{
    md.input == payload.message_type && same_pool(&md.pool, &payload.pool)
}

/// A server-streaming method with a request of the method's input type.
pub open spec fn sstream_result(md: Method, payload: Payload) -> Result<SStream, ActionError> {
    if !md.server_streaming {
        Err(ActionError::InvalidMethod)
    } else if !same_type(md, payload) {
        Err(ActionError::MessageCallDescriptorMismatch)
    } else {
        Ok(SStream { md, payload })
    }
}

impl CSUnary {
    /// A unary method: one that streams neither way.
    pub fn new(md: Method) -> (r: Result<CSUnary, ActionError>)
        ensures
            r == csunary_result(md),
    {
        if md.client_streaming || md.server_streaming {
            return Err(ActionError::InvalidMethod);
        }
        Ok(CSUnary(md))
    }

    /// The unary method that `unary` names in `proto`.
    pub fn from_poor(unary: &PCSUnary, proto: &DescriptorPool) -> (r: Result<CSUnary, ActionError>)
        ensures
            match pool_method(*proto, unary.0@) {
                None => r == Err::<CSUnary, ActionError>(ActionError::ProtoMismatch),
                Some(t) => if t.3 || t.4 {
                    r == Err::<CSUnary, ActionError>(ActionError::InvalidMethod)
                } else {
                    r matches Ok(u) && method_tuple(u.0) == t && u.0.pool == *proto
                },
            },
            r matches Ok(u) ==> resolves(u.0, unary.0@),
    {
        match get_method_by_full_name(unary.0.as_str(), proto) {
            Some(md) => Self::new(md),
            None => Err(ActionError::ProtoMismatch),
        }
    }

    pub fn to_poor(&self) -> (r: PCSUnary)
        ensures
            r.0@ == self.0.full_name@,
    {
        PCSUnary(self.0.full_name.clone())
    }
}

impl CStream {
    /// A client-streaming method.
    pub fn new(md: Method) -> (r: Result<CStream, ActionError>)
        ensures
            r == cstream_result(md),
    {
        if !md.client_streaming {
            return Err(ActionError::InvalidMethod);
        }
        Ok(CStream(md))
    }

    /// The client-streaming method that `stream` names in `proto`.
    pub fn from_poor(stream: &PCStream, proto: &DescriptorPool) -> (r: Result<CStream, ActionError>)
        ensures
            match pool_method(*proto, stream.0@) {
                None => r == Err::<CStream, ActionError>(ActionError::ProtoMismatch),
                Some(t) => if !t.3 {
                    r == Err::<CStream, ActionError>(ActionError::InvalidMethod)
                } else {
                    r matches Ok(c) && method_tuple(c.0) == t && c.0.pool == *proto
                },
            },
            r matches Ok(c) ==> resolves(c.0, stream.0@),
    {
        match get_method_by_full_name(stream.0.as_str(), proto) {
            Some(md) => Self::new(md),
            None => Err(ActionError::ProtoMismatch),
        }
    }

    pub fn to_poor(&self) -> (r: PCStream)
        ensures
            r.0@ == self.0.full_name@,
    {
        PCStream(self.0.full_name.clone())
    }
}

impl SStream {
    /// A server-streaming method with a request of the method's input type.
    pub fn new(md: Method, payload: Payload) -> (r: Result<SStream, ActionError>)
        ensures
            r == sstream_result(md, payload),
    {
        if !md.server_streaming {
            return Err(ActionError::InvalidMethod);
        }
        if !input_matches(&md, &payload) {
            return Err(ActionError::MessageCallDescriptorMismatch);
        }
        Ok(SStream { md, payload })
    }

    /// The server stream that `stream` describes: the method it names in
    /// `proto`, and its payload decoded as the method's input type.
    pub fn from_poor(stream: &PSStream, proto: &DescriptorPool) -> (r: Result<SStream, ActionError>)
        requires
            pool_method(*proto, stream.md@) matches Some(t) ==> decode_safe(
                *proto,
                t.2,
                stream.payload@,
            ),
        ensures
            match pool_method(*proto, stream.md@) {
                None => r == Err::<SStream, ActionError>(ActionError::ProtoMismatch),
                Some(t) => match decode_outcome(*proto, t.2, stream.payload@) {
                    None => r == Err::<SStream, ActionError>(ActionError::ProtoMismatch),
                    Some(encodings) => if !t.4 {
                        r == Err::<SStream, ActionError>(ActionError::InvalidMethod)
                    } else {
                        r matches Ok(s) && method_tuple(s.md) == t && s.md.pool == *proto
                            && s.payload.pool == *proto && s.payload.message_type@ == t.2
                            && encodings.contains(s.payload.bytes@)
                    },
                },
            },
            r matches Ok(s) ==> resolves(s.md, stream.md@),
    {
        let md = match get_method_by_full_name(stream.md.as_str(), proto) {
            Some(md) => md,
            None => return Err(ActionError::ProtoMismatch),
        };
        let payload = match decode_payload(proto, md.input.as_str(), stream.payload.as_slice()) {
            Some(payload) => payload,
            None => return Err(ActionError::ProtoMismatch),
        };
        Self::new(md, payload)
    }

    pub fn to_poor(&self) -> (r: PSStream)
        ensures
            r.md@ == self.md.full_name@,
            r.payload@ == self.payload.bytes@,
    {
        PSStream { md: self.md.full_name.clone(), payload: self.payload.bytes.clone() }
    }
}

impl StreamType {
    pub fn from_poor(stream: &PStreamType, proto: &DescriptorPool) -> (r: Result<
        StreamType,
        ActionError,
    >)
        requires
            resolve_safe(*proto, poor_start(*stream, 0)),
        ensures
            match resolve_outcome(*proto, poor_start(*stream, 0)) {
                Ok(_) => r matches Ok(ty) && resolved_as(
                    *proto,
                    Action::Stream(StreamAction::Start(Stream { ty, id: CallId(0) })),
                    poor_start(*stream, 0),
                ),
                Err(e) => r == Err::<StreamType, ActionError>(e),
            },
    {
        match stream {
            PStreamType::Client(stream) => match CStream::from_poor(stream, proto) {
                Ok(c) => Ok(StreamType::Client(c)),
                Err(e) => Err(e),
            },
            PStreamType::Server(stream) => match SStream::from_poor(stream, proto) {
                Ok(s) => Ok(StreamType::Server(s)),
                Err(e) => Err(e),
            },
        }
    }

    pub fn to_poor(&self) -> (r: PStreamType)
        ensures
            match (*self, r) {
                (StreamType::Client(c), PStreamType::Client(p)) => p.0@ == c.0.full_name@,
                (StreamType::Server(s), PStreamType::Server(p)) => p.md@ == s.md.full_name@
                    && p.payload@ == s.payload.bytes@,
                _ => false,
            },
    {
        match self {
            StreamType::Client(stream) => PStreamType::Client(stream.to_poor()),
            StreamType::Server(stream) => PStreamType::Server(stream.to_poor()),
        }
    }

    /// The method of the stream.
    pub fn method(&self) -> (r: &Method)
        ensures
            *r == method_of(*self),
    {
        match self {
            StreamType::Client(stream) => &stream.0,
            StreamType::Server(stream) => &stream.md,
        }
    }
}

// ---------------------------------------------------------------------
// Actions
// ---------------------------------------------------------------------

/// The stored form of a resolved action, given the streams of its sequence
/// by id: a message on a stream is stored with the name of that stream's
/// method, and fails where no stream has its id.
pub open spec fn poor_view(a: Action, streams: Map<usize, &Stream>) -> Result<PoorAction, ActionError> {
    match a {
        Action::Stream(StreamAction::Start(s)) => Ok(
            match s.ty {
                StreamType::Client(c) => PoorAction::StartClient { id: s.id.0, method: c.0.full_name@ },
                StreamType::Server(v) => PoorAction::StartServer {
                    id: s.id.0,
                    method: v.md.full_name@,
                    payload: v.payload.bytes@,
                },
            },
        ),
        Action::Stream(StreamAction::End(id)) => Ok(PoorAction::End { id: id.0 }),
        Action::Message(m) => match m.con {
            MessageConnection::Stream(id) => if streams.contains_key(id.0) {
                Ok(
                    PoorAction::StreamMessage {
                        id: id.0,
                        method: method_of(streams[id.0].ty).full_name@,
                        payload: m.payload.bytes@,
                    },
                )
            } else {
                Err(ActionError::InvalidStreamId)
            },
            MessageConnection::Unary(u) => Ok(
                PoorAction::UnaryMessage { method: u.0.full_name@, payload: m.payload.bytes@ },
            ),
        },
        Action::Delay(d) => Ok(PoorAction::Delay { delay: d }),
    }
}

/// The stored start of a stream of kind `ty` with id `id`.
pub open spec fn poor_start(ty: PStreamType, id: usize) -> PoorAction {
    PAction::Stream(PStreamAction::StreamStart(PStream { ty, id: PCallId(id) }))@
}

/// What resolving the stored action `p` in `pool` gives: success, or the
/// error, as each step finds it. A stored method name must be found in the
/// pool (else `ProtoMismatch`) and be of the right streaming kind (else
/// `InvalidMethod`); a payload must decode as the method's input type
/// (else `ProtoMismatch`). A server stream's payload is decoded before its
/// method's kind is checked; a message's payload after.
pub open spec fn resolve_outcome(pool: DescriptorPool, p: PoorAction) -> Result<(), ActionError> {
    match p {
        PoorAction::StartClient { method, .. } => match pool_method(pool, method) {
            None => Err(ActionError::ProtoMismatch),
            Some(t) => if !t.3 {
                Err(ActionError::InvalidMethod)
            } else {
                Ok(())
            },
        },
        PoorAction::StartServer { method, payload, .. } => match pool_method(pool, method) {
            None => Err(ActionError::ProtoMismatch),
            Some(t) => if decode_outcome(pool, t.2, payload) is None {
                Err(ActionError::ProtoMismatch)
            } else if !t.4 {
                Err(ActionError::InvalidMethod)
            } else {
                Ok(())
            },
        },
        PoorAction::StreamMessage { method, payload, .. } => match pool_method(pool, method) {
            None => Err(ActionError::ProtoMismatch),
            Some(t) => if !t.3 {
                Err(ActionError::InvalidMethod)
            } else if decode_outcome(pool, t.2, payload) is None {
                Err(ActionError::ProtoMismatch)
            } else {
                Ok(())
            },
        },
        PoorAction::UnaryMessage { method, payload } => match pool_method(pool, method) {
            None => Err(ActionError::ProtoMismatch),
            Some(t) => if t.3 || t.4 {
                Err(ActionError::InvalidMethod)
            } else if decode_outcome(pool, t.2, payload) is None {
                Err(ActionError::ProtoMismatch)
            } else {
                Ok(())
            },
        },
        PoorAction::End { .. } => Ok(()),
        PoorAction::Delay { .. } => Ok(()),
    }
}

/// Resolving the stored action `p` in `pool` returns at all: any payload
/// that is decoded decodes without a panic.
pub open spec fn resolve_safe(pool: DescriptorPool, p: PoorAction) -> bool {
    match p {
        PoorAction::StartServer { method, payload, .. } => match pool_method(pool, method) {
            Some(t) => decode_safe(pool, t.2, payload),
            None => true,
        },
        PoorAction::StreamMessage { method, payload, .. } => match pool_method(pool, method) {
            Some(t) => t.3 ==> decode_safe(pool, t.2, payload),
            None => true,
        },
        PoorAction::UnaryMessage { method, payload } => match pool_method(pool, method) {
            Some(t) => !t.3 && !t.4 ==> decode_safe(pool, t.2, payload),
            None => true,
        },
        _ => true,
    }
}

/// `bytes` is an encoding of the message that `stored` decodes to as the
/// type named `message_type`.
pub open spec fn encodes(
    pool: DescriptorPool,
    message_type: Seq<char>,
    stored: Seq<u8>,
    bytes: Seq<u8>,
) -> bool {
    match decode_outcome(pool, message_type, stored) {
        Some(encodings) => encodings.contains(bytes),
        None => false,
    }
}

/// `a` is the resolution in `pool` of the stored action `p`: the same kind
/// of action with the same ids and delay; each method is the one that
/// looking up the stored name in the pool finds, a method of that pool;
/// a payload has the input type of its method, in that pool (for a message on a stream, of the method the
/// stored message names), and its bytes are an encoding of the message
/// that the stored bytes decode to.
pub open spec fn resolved_as(pool: DescriptorPool, a: Action, p: PoorAction) -> bool {
    match p {
        PoorAction::StartClient { id, method } => match a {
            Action::Stream(StreamAction::Start(s)) => s.id.0 == id && match s.ty {
                StreamType::Client(c) => pool_method(pool, method) == Some(method_tuple(c.0))
                    && c.0.pool == pool,
                _ => false,
            },
            _ => false,
        },
        PoorAction::StartServer { id, method, payload } => match a {
            Action::Stream(StreamAction::Start(s)) => s.id.0 == id && match s.ty {
                StreamType::Server(v) => pool_method(pool, method) == Some(method_tuple(v.md))
                    && v.md.pool == pool && v.payload.pool == pool
                    && v.payload.message_type@ == v.md.input@ && encodes(
                    pool,
                    v.md.input@,
                    payload,
                    v.payload.bytes@,
                ),
                _ => false,
            },
            _ => false,
        },
        PoorAction::End { id } => a == Action::Stream(StreamAction::End(CallId(id))),
        PoorAction::StreamMessage { id, method, payload } => match a {
            Action::Message(m) => m.con == MessageConnection::Stream(CallId(id)) && match pool_method(
                pool,
                method,
            ) {
                Some(t) => m.payload.pool == pool && m.payload.message_type@ == t.2 && encodes(
                    pool,
                    t.2,
                    payload,
                    m.payload.bytes@,
                ),
                None => false,
            },
            _ => false,
        },
        PoorAction::UnaryMessage { method, payload } => match a {
            Action::Message(m) => match m.con {
                MessageConnection::Unary(u) => pool_method(pool, method) == Some(method_tuple(u.0))
                    && u.0.pool == pool && m.payload.pool == pool
                    && m.payload.message_type@ == u.0.input@ && encodes(
                    pool,
                    u.0.input@,
                    payload,
                    m.payload.bytes@,
                ),
                _ => false,
            },
            _ => false,
        },
        PoorAction::Delay { delay } => a == Action::Delay(delay),
    }
}

impl Stream {
    pub fn from_poor(stream: &PStream, proto: &DescriptorPool) -> (r: Result<Stream, ActionError>)
        requires
            resolve_safe(*proto, PAction::Stream(PStreamAction::StreamStart(*stream))@),
        ensures
            match resolve_outcome(*proto, PAction::Stream(PStreamAction::StreamStart(*stream))@) {
                Ok(_) => r matches Ok(s) && resolved_as(
                    *proto,
                    Action::Stream(StreamAction::Start(s)),
                    PAction::Stream(PStreamAction::StreamStart(*stream))@,
                ),
                Err(e) => r == Err::<Stream, ActionError>(e),
            },
    {
        match StreamType::from_poor(&stream.ty, proto) {
            Ok(ty) => Ok(Stream { ty, id: CallId::from_poor(&stream.id) }),
            Err(e) => Err(e),
        }
    }

    pub fn to_poor(&self) -> (r: PStream)
        ensures
            poor_view(Action::Stream(StreamAction::Start(*self)), Map::empty()) == Ok::<
                PoorAction,
                ActionError,
            >(PAction::Stream(PStreamAction::StreamStart(r))@),
    {
        PStream { ty: self.ty.to_poor(), id: self.id.to_poor() }
    }
}

impl StreamAction {
    pub fn from_poor(action: &PStreamAction, proto: &DescriptorPool) -> (r: Result<
        StreamAction,
        ActionError,
    >)
        requires
            resolve_safe(*proto, PAction::Stream(*action)@),
        ensures
            match resolve_outcome(*proto, PAction::Stream(*action)@) {
                Ok(_) => r matches Ok(a) && resolved_as(
                    *proto,
                    Action::Stream(a),
                    PAction::Stream(*action)@,
                ),
                Err(e) => r == Err::<StreamAction, ActionError>(e),
            },
    {
        match action {
            PStreamAction::StreamStart(stream) => match Stream::from_poor(stream, proto) {
                Ok(s) => Ok(StreamAction::Start(s)),
                Err(e) => Err(e),
            },
            PStreamAction::StreamEnd(id) => Ok(StreamAction::End(CallId::from_poor(id))),
        }
    }

    pub fn to_poor(&self) -> (r: PStreamAction)
        ensures
            poor_view(Action::Stream(*self), Map::empty()) == Ok::<PoorAction, ActionError>(
                PAction::Stream(r)@,
            ),
    {
        match self {
            StreamAction::Start(stream) => PStreamAction::StreamStart(stream.to_poor()),
            StreamAction::End(id) => PStreamAction::StreamEnd(id.to_poor()),
        }
    }
}

impl MessageConnection {
    /// The stored form of the connection; a stream connection is stored
    /// with the name of its stream's method, looked up in `streams`.
    pub fn to_poor(&self, streams: &HashMap<usize, &Stream>) -> (r: Result<
        PMessageConnection,
        ActionError,
    >)
        ensures
            match *self {
                MessageConnection::Stream(id) => if streams@.contains_key(id.0) {
                    r matches Ok(PMessageConnection::Stream(pid, pc)) && pid.0 == id.0 && pc.0@
                        == method_of(streams@[id.0].ty).full_name@
                } else {
                    r == Err::<PMessageConnection, ActionError>(ActionError::InvalidStreamId)
                },
                MessageConnection::Unary(u) => r matches Ok(PMessageConnection::Unary(pu)) && pu.0@
                    == u.0.full_name@,
            },
    {
        match self {
            MessageConnection::Stream(id) => {
                let stream = match streams.get(&id.0) {
                    Some(stream) => stream,
                    None => return Err(ActionError::InvalidStreamId),
                };
                Ok(
                    PMessageConnection::Stream(
                        id.to_poor(),
                        PCStream(stream.ty.method().full_name.clone()),
                    ),
                )
            },
            MessageConnection::Unary(unary) => Ok(PMessageConnection::Unary(unary.to_poor())),
        }
    }
}

impl Message {
    /// The message that `message` describes: its connection resolved in
    /// `proto`, its payload decoded as the input type of the connection's
    /// method.
    pub fn from_poor(message: &PMessage, proto: &DescriptorPool) -> (r: Result<Message, ActionError>)
        requires
            resolve_safe(*proto, PAction::Message(*message)@),
        ensures
            match resolve_outcome(*proto, PAction::Message(*message)@) {
                Ok(_) => r matches Ok(m) && resolved_as(
                    *proto,
                    Action::Message(m),
                    PAction::Message(*message)@,
                ),
                Err(e) => r == Err::<Message, ActionError>(e),
            },
    {
        let (con, input) = match &message.con {
            PMessageConnection::Stream(id, stream) => {
                let stream = match CStream::from_poor(stream, proto) {
                    Ok(stream) => stream,
                    Err(e) => return Err(e),
                };
                (MessageConnection::Stream(CallId::from_poor(id)), stream.0.input)
            },
            PMessageConnection::Unary(unary) => {
                let unary = match CSUnary::from_poor(unary, proto) {
                    Ok(unary) => unary,
                    Err(e) => return Err(e),
                };
                let input = unary.0.input.clone();
                (MessageConnection::Unary(unary), input)
            },
        };
        let payload = match decode_payload(proto, input.as_str(), message.payload.as_slice()) {
            Some(payload) => payload,
            None => return Err(ActionError::ProtoMismatch),
        };
        let m = Message { con, payload };
        Ok(m)
    }

    pub fn to_poor(&self, streams: &HashMap<usize, &Stream>) -> (r: Result<PMessage, ActionError>)
        ensures
            match poor_view(Action::Message(*self), streams@) {
                Ok(p) => r matches Ok(pm) && PAction::Message(pm)@ == p,
                Err(e) => r == Err::<PMessage, ActionError>(e),
            },
    {
        let con = match self.con.to_poor(streams) {
            Ok(con) => con,
            Err(e) => return Err(e),
        };
        Ok(PMessage { con, payload: self.payload.bytes.clone() })
    }
}

impl Action {
    /// The action that `action` describes, resolved in `proto`.
    pub fn from_poor(action: &PAction, proto: &DescriptorPool) -> (r: Result<Action, ActionError>)
        requires
            resolve_safe(*proto, action@),
        ensures
            match resolve_outcome(*proto, action@) {
                Ok(_) => r matches Ok(a) && resolved_as(*proto, a, action@),
                Err(e) => r == Err::<Action, ActionError>(e),
            },
    {
        match action {
            PAction::Stream(action) => match StreamAction::from_poor(action, proto) {
                Ok(a) => Ok(Action::Stream(a)),
                Err(e) => Err(e),
            },
            PAction::Message(message) => match Message::from_poor(message, proto) {
                Ok(m) => Ok(Action::Message(m)),
                Err(e) => Err(e),
            },
            PAction::Delay(delay) => Ok(Action::Delay(*delay)),
        }
    }

    /// The stored form of the action, given the streams of its sequence.
    pub fn to_poor(&self, streams: &HashMap<usize, &Stream>) -> (r: Result<PAction, ActionError>)
        ensures
            match poor_view(*self, streams@) {
                Ok(p) => r matches Ok(pa) && pa@ == p,
                Err(e) => r == Err::<PAction, ActionError>(e),
            },
    {
        match self {
            Action::Stream(action) => Ok(PAction::Stream(action.to_poor())),
            Action::Message(message) => match message.to_poor(streams) {
                Ok(m) => Ok(PAction::Message(m)),
                Err(e) => Err(e),
            },
            Action::Delay(delay) => Ok(PAction::Delay(*delay)),
        }
    }
}

// ---------------------------------------------------------------------
// Conversions
// ---------------------------------------------------------------------

impl From<CallId> for Action {
    /// The end of the stream with this id.
    fn from(id: CallId) -> (r: Action) {
        Action::Stream(StreamAction::End(id))
    }
}

impl vstd::std_specs::convert::FromSpecImpl<CallId> for Action {
    open spec fn obeys_from_spec() -> bool {
        true
    }

    open spec fn from_spec(id: CallId) -> Action {
        Action::Stream(StreamAction::End(id))
    }
}

impl From<usize> for CallId {
    fn from(value: usize) -> (r: CallId) {
        CallId(value)
    }
}

impl vstd::std_specs::convert::FromSpecImpl<usize> for CallId {
    open spec fn obeys_from_spec() -> bool {
        true
    }

    open spec fn from_spec(value: usize) -> CallId {
        CallId(value)
    }
}

impl From<CallId> for usize {
    fn from(value: CallId) -> (r: usize) {
        value.0
    }
}

impl vstd::std_specs::convert::FromSpecImpl<CallId> for usize {
    open spec fn obeys_from_spec() -> bool {
        true
    }

    open spec fn from_spec(value: CallId) -> usize {
        value.0
    }
}

impl From<Stream> for Action {
    /// The start of this stream.
    fn from(stream: Stream) -> (r: Action) {
        Action::Stream(StreamAction::Start(stream))
    }
}

impl vstd::std_specs::convert::FromSpecImpl<Stream> for Action {
    open spec fn obeys_from_spec() -> bool {
        true
    }

    open spec fn from_spec(stream: Stream) -> Action {
        Action::Stream(StreamAction::Start(stream))
    }
}

impl From<StreamAction> for Action {
    fn from(action: StreamAction) -> (r: Action) {
        Action::Stream(action)
    }
}

impl vstd::std_specs::convert::FromSpecImpl<StreamAction> for Action {
    open spec fn obeys_from_spec() -> bool {
        true
    }

    open spec fn from_spec(action: StreamAction) -> Action {
        Action::Stream(action)
    }
}

impl From<Message> for Action {
    fn from(message: Message) -> (r: Action) {
        Action::Message(message)
    }
}

impl vstd::std_specs::convert::FromSpecImpl<Message> for Action {
    open spec fn obeys_from_spec() -> bool {
        true
    }

    open spec fn from_spec(message: Message) -> Action {
        Action::Message(message)
    }
}

} // verus!
