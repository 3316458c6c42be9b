use vstd::prelude::*;
use vstd::string::StringExecFns;

verus! {

/// What went wrong with an action or with an action sequence.
#[derive(Clone, Copy, Debug, PartialEq, Eq, Structural, Hash)]
pub enum ActionError {
    InvalidMessageIdx,
    InvalidStreamId,
    InvalidStreamInterval,
    StreamIsNotClient,
    MessageCallDescriptorMismatch,
    NoCallIdsLeft,
    InvalidMethod,
    ProtoMismatch,
    DuplicateStreamStart,
    DuplicateStreamEnd,
    StreamEndWithoutStart,
    MissingStreamEnd,
}

/// An error together with the index of the action it was found at.
#[derive(Clone, Copy, Debug, PartialEq, Eq, Structural, Hash)]
pub struct ActionSequenceError {
    pub kind: ActionError,
    pub index: usize,
}

/// The text that names an error kind: the name of its variant.
pub open spec fn error_name(e: ActionError) -> Seq<char> {
    match e {
        ActionError::InvalidMessageIdx => "InvalidMessageIdx"@,
        ActionError::InvalidStreamId => "InvalidStreamId"@,
        ActionError::InvalidStreamInterval => "InvalidStreamInterval"@,
        ActionError::StreamIsNotClient => "StreamIsNotClient"@,
        ActionError::MessageCallDescriptorMismatch => "MessageCallDescriptorMismatch"@,
        ActionError::NoCallIdsLeft => "NoCallIdsLeft"@,
        ActionError::InvalidMethod => "InvalidMethod"@,
        ActionError::ProtoMismatch => "ProtoMismatch"@,
        ActionError::DuplicateStreamStart => "DuplicateStreamStart"@,
        ActionError::DuplicateStreamEnd => "DuplicateStreamEnd"@,
        ActionError::StreamEndWithoutStart => "StreamEndWithoutStart"@,
        ActionError::MissingStreamEnd => "MissingStreamEnd"@,
    }
}

/// The decimal digit character for `d < 10`.
pub open spec fn digit_char(d: nat) -> char {
    "0123456789"@[d as int]
}

/// The decimal notation of `n`, without leading zeros.
pub open spec fn decimal(n: nat) -> Seq<char>
    decreases n,
{
    if n < 10 {
        seq![digit_char(n)]
    } else {
        decimal(n / 10).push(digit_char(n % 10))
    }
}

/// The text of an error found at an action index.
pub open spec fn sequence_error_text(e: ActionSequenceError) -> Seq<char> {
    error_name(e.kind) + " at action index "@ + decimal(e.index as nat)
}

/// Appends the decimal notation of `n` to `s`.
fn push_decimal(s: &mut String, n: usize)
    ensures
        final(s)@ == old(s)@ + decimal(n as nat),
    decreases n,
{
    let digits: &str = "0123456789";
    proof {
        reveal_strlit("0123456789");
    }
    if n >= 10 {
        push_decimal(s, n / 10);
    }
    let d: usize = n % 10;
    let c: &str = digits.substring_char(d, d + 1);
    assert(c@ =~= seq![digit_char(d as nat)]);
    s.append(c);
}

impl ActionError {
    /// The text of this error: the name of its variant.
    pub fn text(&self) -> (r: String)
        ensures
            r@ == error_name(*self),
    {
        let s: &str = match self {
            ActionError::InvalidMessageIdx => "InvalidMessageIdx",
            ActionError::InvalidStreamId => "InvalidStreamId",
            ActionError::InvalidStreamInterval => "InvalidStreamInterval",
            ActionError::StreamIsNotClient => "StreamIsNotClient",
            ActionError::MessageCallDescriptorMismatch => "MessageCallDescriptorMismatch",
            ActionError::NoCallIdsLeft => "NoCallIdsLeft",
            ActionError::InvalidMethod => "InvalidMethod",
            ActionError::ProtoMismatch => "ProtoMismatch",
            ActionError::DuplicateStreamStart => "DuplicateStreamStart",
            ActionError::DuplicateStreamEnd => "DuplicateStreamEnd",
            ActionError::StreamEndWithoutStart => "StreamEndWithoutStart",
            ActionError::MissingStreamEnd => "MissingStreamEnd",
        };
        String::from_str(s)
    }
}

impl ActionSequenceError {
    /// The text of this error: the error's name, then " at action index ",
    /// then the index in decimal.
    pub fn text(&self) -> (r: String)
        ensures
            r@ == sequence_error_text(*self),
    {
        let mut s = self.kind.text();
        s.append(" at action index ");
        push_decimal(&mut s, self.index);
        s
    }
}

} // verus!
