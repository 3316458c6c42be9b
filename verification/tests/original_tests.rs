use grpcrash::action::{Action, CallId, StreamAction};
use grpcrash::error::ActionError;
use grpcrash::grpc_input::GrpcInput;
use grpcrash::poor::PAction;
use grpcrash::sequence::{ActionSequence, StreamsView};

#[test]
fn stream_end_without_start_is_an_error() {
    let actions = vec![Action::Stream(StreamAction::End(CallId(1)))];

    let error = StreamsView::<&Vec<Action>>::new(&actions).unwrap_err();
    assert!(matches!(error.kind, ActionError::StreamEndWithoutStart));
    assert_eq!(error.index, 0);
}

#[test]
fn serialization_uses_the_poor_schema_directly() {
    let input = GrpcInput {
        rich: None,
        poor: vec![PAction::Delay(7)],
    };

    let poor = input.get_poor().unwrap();
    assert!(matches!(poor.as_slice(), [PAction::Delay(7)]));
}

#[test]
fn invalid_rich_input_returns_a_serialization_error() {
    let input = GrpcInput {
        rich: Some(ActionSequence {
            actions: vec![Action::Stream(StreamAction::End(CallId(1)))],
            last_call_id: CallId(1),
        }),
        poor: Vec::new(),
    };

    assert!(input.get_poor().is_err());
}
