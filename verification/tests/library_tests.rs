use grpcrash::action::{
    get_method_by_full_name, split_full_name, find_method, Action, CSUnary, CStream, CallId,
    Message, MessageConnection, Method, Payload, SStream, Stream, StreamAction, StreamType,
};
use grpcrash::error::{ActionError, ActionSequenceError};
use grpcrash::grpc_input::GrpcInput;
use grpcrash::poor::{
    PAction, PCSUnary, PCStream, PCallId, PMessage, PMessageConnection, PSStream, PStream,
    PStreamAction, PStreamType,
};
use grpcrash::sequence::{ActionSequence, StreamInterval, StreamsView};
use prost_reflect::prost_types::field_descriptor_proto::{Label, Type};
use prost_reflect::prost_types::{
    DescriptorProto, FieldDescriptorProto, FileDescriptorProto, MethodDescriptorProto,
    ServiceDescriptorProto,
};
use prost_reflect::DescriptorPool;
use std::collections::HashMap;

fn proto_method(name: &str, client: bool, server: bool) -> MethodDescriptorProto {
    MethodDescriptorProto {
        name: Some(name.to_string()),
        input_type: Some(".pkg.Req".to_string()),
        output_type: Some(".pkg.Req".to_string()),
        client_streaming: Some(client),
        server_streaming: Some(server),
        ..Default::default()
    }
}

/// A pool with package `pkg`, message `Req { int32 x = 1; }` and service
/// `Svc` with methods `Unary`, `Client`, `Server` and `Bidi`.
fn pool() -> DescriptorPool {
    let mut field = FieldDescriptorProto {
        name: Some("x".to_string()),
        number: Some(1),
        json_name: Some("x".to_string()),
        ..Default::default()
    };
    field.set_label(Label::Optional);
    field.set_type(Type::Int32);
    let req = DescriptorProto {
        name: Some("Req".to_string()),
        field: vec![field],
        ..Default::default()
    };
    let service = ServiceDescriptorProto {
        name: Some("Svc".to_string()),
        method: vec![
            proto_method("Unary", false, false),
            proto_method("Client", true, false),
            proto_method("Server", false, true),
            proto_method("Bidi", true, true),
        ],
        ..Default::default()
    };
    let file = FileDescriptorProto {
        name: Some("test.proto".to_string()),
        package: Some("pkg".to_string()),
        message_type: vec![req],
        service: vec![service],
        syntax: Some("proto3".to_string()),
        ..Default::default()
    };
    let mut pool = DescriptorPool::new();
    pool.add_file_descriptor_proto(file).unwrap();
    pool
}

/// A method of the global pool's handle, where no pool is looked into.
fn method(name: &str, client: bool, server: bool) -> Method {
    Method {
        pool: DescriptorPool::global(),
        name: name.to_string(),
        full_name: format!("pkg.Svc.{name}"),
        input: "pkg.Req".to_string(),
        client_streaming: client,
        server_streaming: server,
    }
}

fn payload(bytes: Vec<u8>) -> Payload {
    Payload { pool: DescriptorPool::global(), message_type: "pkg.Req".to_string(), bytes }
}

fn start_client(id: usize) -> Action {
    Action::Stream(StreamAction::Start(Stream {
        ty: StreamType::Client(CStream(method("Client", true, false))),
        id: CallId(id),
    }))
}

fn start_server(id: usize) -> Action {
    Action::Stream(StreamAction::Start(Stream {
        ty: StreamType::Server(SStream { md: method("Server", false, true), payload: payload(vec![]) }),
        id: CallId(id),
    }))
}

fn end(id: usize) -> Action {
    Action::Stream(StreamAction::End(CallId(id)))
}

fn stream_message(id: usize) -> Action {
    Action::Message(Message { con: MessageConnection::Stream(CallId(id)), payload: payload(vec![8, 1]) })
}

fn kinds(actions: &[Action]) -> Vec<String> {
    actions
        .iter()
        .map(|a| match a {
            Action::Stream(StreamAction::Start(s)) => format!("start {}", s.id.0),
            Action::Stream(StreamAction::End(id)) => format!("end {}", id.0),
            Action::Message(m) => match &m.con {
                MessageConnection::Stream(id) => format!("msg {}", id.0),
                MessageConnection::Unary(u) => format!("unary {}", u.0.name),
            },
            Action::Delay(d) => format!("delay {d}"),
        })
        .collect()
}

fn view_error(actions: &Vec<Action>) -> ActionSequenceError {
    match StreamsView::<&Vec<Action>>::new(actions) {
        Ok(_) => panic!("expected an error"),
        Err(e) => e,
    }
}

fn intervals_of(actions: &Vec<Action>) -> HashMap<usize, StreamInterval> {
    match StreamsView::<&Vec<Action>>::new(actions) {
        Ok(view) => view.intervals().clone(),
        Err(e) => panic!("unexpected error {e:?}"),
    }
}

// ---------------------------------------------------------------------
// Errors
// ---------------------------------------------------------------------

#[test]
fn error_text_is_the_variant_name() {
    assert_eq!(ActionError::InvalidMessageIdx.text(), "InvalidMessageIdx");
    assert_eq!(ActionError::MessageCallDescriptorMismatch.text(), "MessageCallDescriptorMismatch");
    assert_eq!(ActionError::MissingStreamEnd.text(), "MissingStreamEnd");
}

#[test]
fn sequence_error_text_gives_the_index() {
    let e = ActionSequenceError { kind: ActionError::MissingStreamEnd, index: 42 };
    assert_eq!(e.text(), "MissingStreamEnd at action index 42");
    let e = ActionSequenceError { kind: ActionError::ProtoMismatch, index: 0 };
    assert_eq!(e.text(), "ProtoMismatch at action index 0");
    let e = ActionSequenceError { kind: ActionError::DuplicateStreamEnd, index: 1234567 };
    assert_eq!(e.text(), "DuplicateStreamEnd at action index 1234567");
}

// ---------------------------------------------------------------------
// Method lookup
// ---------------------------------------------------------------------

#[test]
fn full_names_split_at_the_last_dot() {
    assert_eq!(split_full_name("pkg.Svc.Unary"), Some(("pkg.Svc", "Unary")));
    assert_eq!(split_full_name(".x"), Some(("", "x")));
    assert_eq!(split_full_name("a."), Some(("a", "")));
    assert_eq!(split_full_name("nodot"), None);
    assert_eq!(split_full_name(""), None);
}

#[test]
fn find_method_takes_the_first_with_the_name() {
    let mut second = method("Unary", true, true);
    second.input = "other".to_string();
    let methods = vec![method("Client", true, false), method("Unary", false, false), second];
    let found = find_method(methods, "Unary").unwrap();
    assert_eq!(found.input, "pkg.Req");
    assert!(!found.client_streaming);
    assert!(find_method(vec![method("Client", true, false)], "Unary").is_none());
}

#[test]
fn methods_are_found_in_the_pool() {
    let pool = pool();
    let md = get_method_by_full_name("pkg.Svc.Client", &pool).unwrap();
    assert_eq!(md.name, "Client");
    assert_eq!(md.full_name, "pkg.Svc.Client");
    assert_eq!(md.input, "pkg.Req");
    assert!(md.client_streaming);
    assert!(!md.server_streaming);
    let md = get_method_by_full_name(".pkg.Svc.Bidi", &pool).unwrap();
    assert_eq!(md.full_name, "pkg.Svc.Bidi");
    assert!(md.client_streaming && md.server_streaming);
    assert!(get_method_by_full_name("pkg.Svc.Nope", &pool).is_none());
    assert!(get_method_by_full_name("pkg.Other.Unary", &pool).is_none());
    assert!(get_method_by_full_name("Unary", &pool).is_none());
}

#[test]
fn method_kinds_are_checked() {
    assert!(CSUnary::new(method("Unary", false, false)).is_ok());
    assert_eq!(CSUnary::new(method("Client", true, false)).unwrap_err(), ActionError::InvalidMethod);
    assert_eq!(CSUnary::new(method("Server", false, true)).unwrap_err(), ActionError::InvalidMethod);
    assert!(CStream::new(method("Bidi", true, true)).is_ok());
    assert_eq!(CStream::new(method("Server", false, true)).unwrap_err(), ActionError::InvalidMethod);
    assert!(SStream::new(method("Server", false, true), payload(vec![])).is_ok());
    assert_eq!(
        SStream::new(method("Client", true, false), payload(vec![])).unwrap_err(),
        ActionError::InvalidMethod
    );
    let wrong = Payload { pool: DescriptorPool::global(), message_type: "pkg.Other".to_string(), bytes: vec![] };
    assert_eq!(
        SStream::new(method("Server", false, true), wrong).unwrap_err(),
        ActionError::MessageCallDescriptorMismatch
    );
}

#[test]
fn payloads_of_another_pool_do_not_match() {
    let other = pool();
    let pool = pool();
    let server = get_method_by_full_name("pkg.Svc.Server", &pool).unwrap();
    let here = Payload { pool: pool.clone(), message_type: "pkg.Req".to_string(), bytes: vec![] };
    assert!(SStream::new(server.clone(), here.clone()).is_ok());
    // the same type name, in a pool built apart with the same definitions
    let there = Payload { pool: other, message_type: "pkg.Req".to_string(), bytes: vec![] };
    assert_eq!(
        SStream::new(server, there.clone()).unwrap_err(),
        ActionError::MessageCallDescriptorMismatch
    );
    let unary = CSUnary::new(get_method_by_full_name("pkg.Svc.Unary", &pool).unwrap()).unwrap();
    let mut seq = ActionSequence { actions: vec![Action::Delay(1)], last_call_id: CallId(0) };
    assert_eq!(
        seq.add_unary(unary.clone(), there, 0).unwrap_err(),
        ActionError::MessageCallDescriptorMismatch
    );
    assert!(seq.add_unary(unary, here, 0).is_ok());
    assert_eq!(seq.len(), 2);
}

// ---------------------------------------------------------------------
// Resolving stored actions
// ---------------------------------------------------------------------

#[test]
fn stored_unary_call_resolves() {
    let pool = pool();
    let stored = PAction::Message(PMessage {
        con: PMessageConnection::Unary(PCSUnary("pkg.Svc.Unary".to_string())),
        payload: vec![8, 5],
    });
    match Action::from_poor(&stored, &pool).unwrap() {
        Action::Message(m) => {
            assert_eq!(m.payload.bytes, vec![8, 5]);
            assert_eq!(m.payload.message_type, "pkg.Req");
            match m.con {
                MessageConnection::Unary(u) => assert_eq!(u.0.full_name, "pkg.Svc.Unary"),
                _ => panic!("expected a unary message"),
            }
        }
        _ => panic!("expected a message"),
    }
}

#[test]
fn payloads_are_encoded_again_after_decoding() {
    let pool = pool();
    // field 1 given twice: the last value wins, and the message encodes once
    let stored = PAction::Stream(PStreamAction::StreamStart(PStream {
        ty: PStreamType::Server(PSStream { md: "pkg.Svc.Server".to_string(), payload: vec![8, 1, 8, 2] }),
        id: PCallId(4),
    }));
    match Action::from_poor(&stored, &pool).unwrap() {
        Action::Stream(StreamAction::Start(s)) => {
            assert_eq!(s.id, CallId(4));
            match s.ty {
                StreamType::Server(v) => assert_eq!(v.payload.bytes, vec![8, 2]),
                _ => panic!("expected a server stream"),
            }
        }
        _ => panic!("expected a stream start"),
    }
}

#[test]
fn stored_actions_that_do_not_resolve_are_errors() {
    let pool = pool();
    let unknown = PAction::Message(PMessage {
        con: PMessageConnection::Unary(PCSUnary("pkg.Svc.Nope".to_string())),
        payload: vec![],
    });
    assert_eq!(Action::from_poor(&unknown, &pool).unwrap_err(), ActionError::ProtoMismatch);
    let undecodable = PAction::Message(PMessage {
        con: PMessageConnection::Unary(PCSUnary("pkg.Svc.Unary".to_string())),
        payload: vec![0xff],
    });
    assert_eq!(Action::from_poor(&undecodable, &pool).unwrap_err(), ActionError::ProtoMismatch);
    let not_client = PAction::Message(PMessage {
        con: PMessageConnection::Stream(PCallId(1), PCStream("pkg.Svc.Unary".to_string())),
        payload: vec![],
    });
    assert_eq!(Action::from_poor(&not_client, &pool).unwrap_err(), ActionError::InvalidMethod);
    let not_server = PAction::Stream(PStreamAction::StreamStart(PStream {
        ty: PStreamType::Server(PSStream { md: "pkg.Svc.Client".to_string(), payload: vec![] }),
        id: PCallId(1),
    }));
    assert_eq!(Action::from_poor(&not_server, &pool).unwrap_err(), ActionError::InvalidMethod);
}

fn stored_sequence() -> Vec<PAction> {
    vec![
        PAction::Stream(PStreamAction::StreamStart(PStream {
            ty: PStreamType::Client(PCStream("pkg.Svc.Client".to_string())),
            id: PCallId(3),
        })),
        PAction::Message(PMessage {
            con: PMessageConnection::Stream(PCallId(3), PCStream("pkg.Svc.Bidi".to_string())),
            payload: vec![8, 9],
        }),
        PAction::Delay(10),
        PAction::Stream(PStreamAction::StreamEnd(PCallId(3))),
        PAction::Stream(PStreamAction::StreamStart(PStream {
            ty: PStreamType::Server(PSStream { md: "pkg.Svc.Server".to_string(), payload: vec![] }),
            id: PCallId(7),
        })),
        PAction::Message(PMessage {
            con: PMessageConnection::Unary(PCSUnary("pkg.Svc.Unary".to_string())),
            payload: vec![8, 1],
        }),
        PAction::Stream(PStreamAction::StreamEnd(PCallId(7))),
    ]
}

#[test]
fn resolved_sequence_takes_the_largest_stream_id() {
    let pool = pool();
    let seq = ActionSequence::from_poor(&stored_sequence(), &pool).unwrap();
    assert_eq!(seq.len(), 7);
    assert_eq!(seq.last_call_id, CallId(7));
    let empty = ActionSequence::from_poor(&[PAction::Delay(1)], &pool).unwrap();
    assert_eq!(empty.last_call_id, CallId(0));
}

#[test]
fn resolving_reports_the_index_of_the_failing_action() {
    let pool = pool();
    let mut stored = stored_sequence();
    stored[5] = PAction::Message(PMessage {
        con: PMessageConnection::Unary(PCSUnary("pkg.Svc.Nope".to_string())),
        payload: vec![],
    });
    let e = ActionSequence::from_poor(&stored, &pool).unwrap_err();
    assert_eq!(e, ActionSequenceError { kind: ActionError::ProtoMismatch, index: 5 });
    let mut stored = stored_sequence();
    stored.remove(6);
    let e = ActionSequence::from_poor(&stored, &pool).unwrap_err();
    assert_eq!(e, ActionSequenceError { kind: ActionError::MissingStreamEnd, index: 4 });
}

#[test]
fn storing_a_resolved_sequence_keeps_kinds_and_uses_stream_methods() {
    let pool = pool();
    let stored = stored_sequence();
    let seq = ActionSequence::from_poor(&stored, &pool).unwrap();
    let again = seq.gen_poor().unwrap();
    assert_eq!(again.len(), stored.len());
    match &again[1] {
        PAction::Message(PMessage { con: PMessageConnection::Stream(id, c), payload }) => {
            assert_eq!(id.0, 3);
            // the message is stored with its stream's method, not the one it named
            assert_eq!(c.0, "pkg.Svc.Client");
            assert_eq!(payload, &vec![8, 9]);
        }
        _ => panic!("expected a message on a stream"),
    }
    assert!(matches!(again[2], PAction::Delay(10)));
    assert!(matches!(&again[3], PAction::Stream(PStreamAction::StreamEnd(PCallId(3)))));
    match &again[4] {
        PAction::Stream(PStreamAction::StreamStart(PStream { ty: PStreamType::Server(s), id })) => {
            assert_eq!(id.0, 7);
            assert_eq!(s.md, "pkg.Svc.Server");
        }
        _ => panic!("expected a server stream start"),
    }
}

#[test]
fn resolving_the_stored_form_gives_the_sequence_back() {
    let pool = pool();
    let seq = ActionSequence::from_poor(&stored_sequence(), &pool).unwrap();
    let stored = seq.gen_poor().unwrap();
    let again = ActionSequence::from_poor(&stored, &pool).unwrap();
    assert_eq!(format!("{:?}", again.get()), format!("{:?}", seq.get()));
    assert_eq!(again.last_call_id, seq.last_call_id);
    assert_eq!(format!("{:?}", again.gen_poor().unwrap()), format!("{:?}", stored));
}

#[test]
fn action_errors_come_before_stream_faults() {
    let pool = pool();
    let mut stored = stored_sequence();
    stored.remove(6);
    stored[1] = PAction::Message(PMessage {
        con: PMessageConnection::Stream(PCallId(3), PCStream("pkg.Svc.Client".to_string())),
        payload: vec![0xff],
    });
    stored[5] = PAction::Message(PMessage {
        con: PMessageConnection::Unary(PCSUnary("pkg.Svc.Client".to_string())),
        payload: vec![],
    });
    let e = ActionSequence::from_poor(&stored, &pool).unwrap_err();
    assert_eq!(e, ActionSequenceError { kind: ActionError::ProtoMismatch, index: 1 });
    stored[1] = PAction::Delay(0);
    let e = ActionSequence::from_poor(&stored, &pool).unwrap_err();
    assert_eq!(e, ActionSequenceError { kind: ActionError::InvalidMethod, index: 5 });
}

#[test]
fn a_found_method_is_found_by_its_full_name() {
    let pool = pool();
    for name in ["Unary", "Client", "Server", "Bidi"] {
        let md = get_method_by_full_name(&format!(".pkg.Svc.{name}"), &pool).unwrap();
        let again = get_method_by_full_name(&md.full_name, &pool).unwrap();
        assert_eq!(format!("{:?}", again), format!("{:?}", md));
        assert_eq!(again.full_name, format!("pkg.Svc.{name}"));
    }
}

#[test]
fn storing_a_message_on_an_unknown_stream_fails() {
    let seq = ActionSequence {
        actions: vec![start_client(1), end(1), stream_message(5)],
        last_call_id: CallId(1),
    };
    assert_eq!(
        seq.gen_poor().unwrap_err(),
        ActionSequenceError { kind: ActionError::InvalidStreamId, index: 2 }
    );
}

#[test]
fn stored_form_of_one_action() {
    let a = start_client(2);
    let mut streams: HashMap<usize, &Stream> = HashMap::new();
    let s = match &a {
        Action::Stream(StreamAction::Start(s)) => s,
        _ => unreachable!(),
    };
    streams.insert(2, s);
    let p = PAction::from_rich(&stream_message(2), &streams);
    match p {
        PAction::Message(PMessage { con: PMessageConnection::Stream(id, c), .. }) => {
            assert_eq!(id.0, 2);
            assert_eq!(c.0, "pkg.Svc.Client");
        }
        _ => panic!("expected a message on a stream"),
    }
    assert_eq!(PCallId::from_rich(&CallId(9)).0, 9);
    assert_eq!(CallId::from_poor(&PCallId(6)), CallId(6));
    assert_eq!(CallId(6).to_poor().0, 6);
    assert_eq!(Action::from(CallId(3)).clone().into_end(), Some(3));
}

trait EndId {
    fn into_end(self) -> Option<usize>;
}

impl EndId for Action {
    fn into_end(self) -> Option<usize> {
        match self {
            Action::Stream(StreamAction::End(id)) => Some(usize::from(id)),
            _ => None,
        }
    }
}

// ---------------------------------------------------------------------
// Streams of a sequence
// ---------------------------------------------------------------------

#[test]
fn well_formed_streams_have_intervals() {
    let actions = vec![start_client(1), start_server(2), stream_message(1), end(2), Action::Delay(3), end(1)];
    let ivs = intervals_of(&actions);
    assert_eq!(ivs.len(), 2);
    assert_eq!(ivs[&1], StreamInterval { start: 0, end: 5 });
    assert_eq!(ivs[&2], StreamInterval { start: 1, end: 3 });
    let view = StreamsView::<&Vec<Action>>::new(&actions).unwrap();
    let streams = view.streams();
    assert_eq!(streams.len(), 2);
    assert_eq!(streams[&2].id, CallId(2));
}

#[test]
fn faults_in_streams_are_reported_at_their_index() {
    let dup_start = vec![start_client(1), start_client(1), end(1)];
    assert_eq!(view_error(&dup_start), ActionSequenceError { kind: ActionError::DuplicateStreamStart, index: 1 });
    let dup_end = vec![start_client(1), end(1), end(1)];
    assert_eq!(view_error(&dup_end), ActionSequenceError { kind: ActionError::DuplicateStreamEnd, index: 2 });
    let no_start = vec![Action::Delay(1), end(4)];
    assert_eq!(view_error(&no_start), ActionSequenceError { kind: ActionError::StreamEndWithoutStart, index: 1 });
    // the unended stream that starts first is reported
    let no_end = vec![start_client(9), start_client(2), start_client(5), end(5)];
    assert_eq!(view_error(&no_end), ActionSequenceError { kind: ActionError::MissingStreamEnd, index: 0 });
    // a stream may be restarted neither before nor after its end
    let restart = vec![start_client(1), end(1), start_client(1), end(1)];
    assert_eq!(view_error(&restart), ActionSequenceError { kind: ActionError::DuplicateStreamStart, index: 2 });
}

// ---------------------------------------------------------------------
// Changing a sequence
// ---------------------------------------------------------------------

fn base() -> ActionSequence {
    ActionSequence {
        actions: vec![Action::Delay(0), start_client(1), Action::Delay(1), end(1), Action::Delay(2)],
        last_call_id: CallId(1),
    }
}

#[test]
fn adding_a_client_stream_allocates_the_next_id() {
    let mut seq = base();
    seq.add_client_stream(method("Client", true, false), 0, 4).unwrap();
    assert_eq!(seq.last_call_id, CallId(2));
    assert_eq!(
        kinds(seq.get()),
        vec!["start 2", "delay 0", "start 1", "delay 1", "end 1", "end 2", "delay 2"]
    );
    let ivs = intervals_of(seq.get());
    assert_eq!(ivs[&2], StreamInterval { start: 0, end: 5 });
    assert_eq!(ivs[&1], StreamInterval { start: 2, end: 4 });
}

#[test]
fn adding_a_server_stream() {
    let mut seq = base();
    seq.add_server_stream(method("Server", false, true), payload(vec![8, 3]), 2, 3).unwrap();
    assert_eq!(seq.last_call_id, CallId(2));
    assert_eq!(
        kinds(seq.get()),
        vec!["delay 0", "start 1", "start 2", "delay 1", "end 2", "end 1", "delay 2"]
    );
    assert!(StreamsView::<&Vec<Action>>::new(seq.get()).is_ok());
}

#[test]
fn stream_errors_leave_the_sequence_unchanged() {
    let mut seq = base();
    assert_eq!(seq.add_client_stream(method("Unary", false, false), 0, 2).unwrap_err(), ActionError::InvalidMethod);
    assert_eq!(seq.last_call_id, CallId(1));
    assert_eq!(
        seq.add_server_stream(method("Server", false, true), Payload { pool: DescriptorPool::global(), message_type: "x".to_string(), bytes: vec![] }, 0, 2)
            .unwrap_err(),
        ActionError::MessageCallDescriptorMismatch
    );
    // the id is allocated before the interval is checked
    assert_eq!(seq.add_client_stream(method("Client", true, false), 3, 3).unwrap_err(), ActionError::InvalidStreamInterval);
    assert_eq!(seq.last_call_id, CallId(2));
    assert_eq!(seq.add_client_stream(method("Client", true, false), 1, 5).unwrap_err(), ActionError::InvalidStreamInterval);
    assert_eq!(seq.len(), 5);
    seq.last_call_id = CallId(usize::MAX);
    assert_eq!(seq.add_client_stream(method("Client", true, false), 0, 1).unwrap_err(), ActionError::NoCallIdsLeft);
    assert_eq!(seq.last_call_id, CallId(usize::MAX));
}

#[test]
fn adding_a_unary_call() {
    let mut seq = base();
    seq.add_unary(CSUnary(method("Unary", false, false)), payload(vec![]), 4).unwrap();
    assert_eq!(kinds(seq.get()), vec!["delay 0", "start 1", "delay 1", "end 1", "unary Unary", "delay 2"]);
    assert_eq!(
        seq.add_unary(CSUnary(method("Unary", false, false)), payload(vec![]), 6).unwrap_err(),
        ActionError::InvalidMessageIdx
    );
    let wrong = Payload { pool: DescriptorPool::global(), message_type: "x".to_string(), bytes: vec![] };
    assert_eq!(
        seq.add_unary(CSUnary(method("Unary", false, false)), wrong, 0).unwrap_err(),
        ActionError::MessageCallDescriptorMismatch
    );
    assert_eq!(seq.len(), 6);
    assert_eq!(intervals_of(seq.get())[&1], StreamInterval { start: 1, end: 3 });
}

#[test]
fn a_unary_call_keeps_the_sequence_storable() {
    let mut seq = base();
    let before = seq.gen_poor().unwrap();
    seq.add_unary(CSUnary(method("Unary", false, false)), payload(vec![8, 3]), 2).unwrap();
    let after = seq.gen_poor().unwrap();
    assert_eq!(after.len(), before.len() + 1);
    match &after[2] {
        PAction::Message(PMessage { con: PMessageConnection::Unary(u), payload }) => {
            assert_eq!(u.0, "pkg.Svc.Unary");
            assert_eq!(payload, &vec![8, 3]);
        }
        _ => panic!("expected a unary call"),
    }
    assert_eq!(format!("{:?}", &after[..2]), format!("{:?}", &before[..2]));
    assert_eq!(format!("{:?}", &after[3..]), format!("{:?}", &before[2..]));
}

#[test]
fn adding_a_message_to_a_stream() {
    let mut seq = base();
    {
        let view = seq.stream_list_mut().unwrap();
        let factory = view.into_message_factory(&CallId(1)).unwrap();
        factory.message(payload(vec![8, 7]), 3).unwrap();
    }
    assert_eq!(kinds(seq.get()), vec!["delay 0", "start 1", "delay 1", "msg 1", "end 1", "delay 2"]);
    let ivs = intervals_of(seq.get());
    assert_eq!(ivs[&1], StreamInterval { start: 1, end: 4 });
    {
        let view = seq.stream_list_mut().unwrap();
        assert!(view.into_message_factory(&CallId(8)).is_none());
    }
}

#[test]
fn message_errors_leave_the_sequence_unchanged() {
    let mut seq = base();
    for index in [1, 5] {
        let view = seq.stream_list_mut().unwrap();
        let factory = view.into_message_factory(&CallId(1)).unwrap();
        assert_eq!(factory.message(payload(vec![]), index).unwrap_err(), ActionError::InvalidMessageIdx);
    }
    {
        let view = seq.stream_list_mut().unwrap();
        let factory = view.into_message_factory(&CallId(1)).unwrap();
        let wrong = Payload { pool: DescriptorPool::global(), message_type: "x".to_string(), bytes: vec![] };
        assert_eq!(factory.message(wrong, 2).unwrap_err(), ActionError::MessageCallDescriptorMismatch);
    }
    let mut servers = ActionSequence { actions: vec![start_server(1), end(1)], last_call_id: CallId(1) };
    {
        let view = servers.stream_list_mut().unwrap();
        let factory = view.into_message_factory(&CallId(1)).unwrap();
        assert_eq!(factory.message(payload(vec![]), 1).unwrap_err(), ActionError::StreamIsNotClient);
    }
    assert_eq!(seq.len(), 5);
    assert_eq!(servers.len(), 2);
}

// ---------------------------------------------------------------------
// Inputs
// ---------------------------------------------------------------------

#[test]
fn inputs_resolve_once_and_store_the_resolution() {
    let pool = pool();
    let mut input = GrpcInput { rich: None, poor: stored_sequence() };
    assert_eq!(input.rich(&pool).unwrap().last_call_id, CallId(7));
    {
        let rich = input.rich_mut(&pool).unwrap();
        rich.get_mut().push(Action::Delay(99));
    }
    // the resolution is kept, so the change shows in the stored form
    assert_eq!(input.rich(&pool).unwrap().len(), 8);
    let poor = input.get_poor().unwrap();
    assert_eq!(poor.len(), 8);
    assert!(matches!(poor[7], PAction::Delay(99)));
}

#[test]
fn inputs_that_do_not_resolve_stay_unresolved() {
    let pool = pool();
    let mut input = GrpcInput { rich: None, poor: vec![PAction::Stream(PStreamAction::StreamEnd(PCallId(2)))] };
    assert_eq!(
        input.rich(&pool).unwrap_err(),
        ActionSequenceError { kind: ActionError::StreamEndWithoutStart, index: 0 }
    );
    assert!(input.rich.is_none());
    assert_eq!(input.get_poor().unwrap().len(), 1);
}

#[test]
fn a_changing_view_lists_its_streams() {
    let mut seq = base();
    let view = seq.stream_list_mut().unwrap();
    assert_eq!(view.intervals()[&1], StreamInterval { start: 1, end: 3 });
    let streams = view.streams();
    assert_eq!(streams.len(), 1);
    assert_eq!(streams[&1].id, CallId(1));
}

#[test]
fn a_view_of_a_sequence_with_faults_is_refused() {
    let mut seq = ActionSequence { actions: vec![end(3)], last_call_id: CallId(3) };
    assert!(seq.stream_list().is_err());
    assert_eq!(
        seq.stream_list_mut().unwrap_err(),
        ActionSequenceError { kind: ActionError::StreamEndWithoutStart, index: 0 }
    );
}
