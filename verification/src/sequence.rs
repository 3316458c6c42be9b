//! Sequences of actions and the streams they open and close.
use crate::action::{
    Action, CSUnary, CStream, CallId, Message, MessageConnection, Method, Payload, SStream, Stream,
    StreamAction, StreamType,
};
use crate::error::{ActionError, ActionSequenceError};
use crate::poor::PoorAction;
use std::collections::HashMap;
use vstd::prelude::*;

verus! {

// ---------------------------------------------------------------------
// The stream structure of a sequence
// ---------------------------------------------------------------------

/// What an action does to the streams of its sequence.
pub enum StreamEvent {
    Start(usize),
    End(usize),
    Other,
}

pub open spec fn event(a: Action) -> StreamEvent {
    match a {
        Action::Stream(StreamAction::Start(s)) => StreamEvent::Start(s.id.0),
        Action::Stream(StreamAction::End(id)) => StreamEvent::End(id.0),
        _ => StreamEvent::Other,
    }
}

pub open spec fn poor_event(p: PoorAction) -> StreamEvent {
    match p {
        PoorAction::StartClient { id, .. } => StreamEvent::Start(id),
        PoorAction::StartServer { id, .. } => StreamEvent::Start(id),
        PoorAction::End { id } => StreamEvent::End(id),
        _ => StreamEvent::Other,
    }
}

pub open spec fn events(acts: Seq<Action>) -> Seq<StreamEvent> {
    acts.map_values(|a: Action| event(a))
}

/// Where a stream starts and ends: the indices of its start and end actions.
#[derive(Clone, Copy, Debug, PartialEq, Eq, Structural)]
pub struct StreamInterval {
    pub start: usize,
    pub end: usize,
}

/// What a scan has recorded of each stream id: the index of its start,
/// and that of its end once seen.
pub type Seen = Map<usize, (usize, Option<usize>)>;

/// One step of the scan: the event at index `i` seen with record `m`.
pub open spec fn scan_step(m: Seen, e: StreamEvent, i: usize) -> Result<
    Seen,
    ActionSequenceError,
> {
    match e {
        StreamEvent::Start(id) => if m.contains_key(id) {
            Err(ActionSequenceError { kind: ActionError::DuplicateStreamStart, index: i })
        } else {
            Ok(m.insert(id, (i, None)))
        },
        StreamEvent::End(id) => if !m.contains_key(id) {
            Err(ActionSequenceError { kind: ActionError::StreamEndWithoutStart, index: i })
        } else if m[id].1 is Some {
            Err(ActionSequenceError { kind: ActionError::DuplicateStreamEnd, index: i })
        } else {
            Ok(m.insert(id, (m[id].0, Some(i))))
        },
        StreamEvent::Other => Ok(m),
    }
}

/// The record after the first `n` events, or the first error among them.
pub open spec fn scan(evs: Seq<StreamEvent>, n: nat) -> Result<Seen, ActionSequenceError>
    decreases n,
{
    if n == 0 {
        Ok(Map::empty())
    } else {
        match scan(evs, (n - 1) as nat) {
            Err(e) => Err(e),
            Ok(m) => scan_step(m, evs[n - 1], (n - 1) as usize),
        }
    }
}

/// Index `j` starts a stream that `m` records as never ended.
pub open spec fn unended_at(evs: Seq<StreamEvent>, m: Seen, j: int) -> bool {
    match evs[j] {
        StreamEvent::Start(id) => m.contains_key(id) && m[id].1 is None,
        _ => false,
    }
}

/// The first index from `j` on that starts a stream never ended.
pub open spec fn first_unended_from(evs: Seq<StreamEvent>, m: Seen, j: int) -> Option<int>
    decreases evs.len() - j,
{
    if j < 0 || j >= evs.len() {
        None
    } else if unended_at(evs, m, j) {
        Some(j)
    } else {
        first_unended_from(evs, m, j + 1)
    }
}

/// The intervals of the streams that `m` records as ended.
pub open spec fn ended(m: Seen) -> Map<usize, StreamInterval> {
    Map::new(
        |id: usize| m.contains_key(id) && m[id].1 is Some,
        |id: usize| StreamInterval { start: m[id].0, end: m[id].1->0 },
    )
}

/// The streams of a sequence of events: the interval of each stream, or
/// the first fault in the sequence: a stream started twice, an end of a
/// stream not started, a stream ended twice (each at the index of the
/// offending event, the first in order), else a stream never ended (at
/// the smallest index that starts such a stream).
pub open spec fn intervals_result(evs: Seq<StreamEvent>) -> Result<
    Map<usize, StreamInterval>,
    ActionSequenceError,
> {
    match scan(evs, evs.len()) {
        Err(e) => Err(e),
        Ok(m) => match first_unended_from(evs, m, 0) {
            Some(j) => Err(ActionSequenceError { kind: ActionError::MissingStreamEnd, index: j as usize }),
            None => Ok(ended(m)),
        },
    }
}

/// The streams of a sequence of actions.
pub open spec fn view_result(acts: Seq<Action>) -> Result<
    Map<usize, StreamInterval>,
    ActionSequenceError,
> {
    intervals_result(events(acts))
}

/// Once the scan fails, it fails with the same error on every longer prefix.
proof fn lemma_scan_error_persists(evs: Seq<StreamEvent>, k: nat, n: nat)
    requires
        k <= n,
        scan(evs, k) is Err,
    ensures
        scan(evs, n) == scan(evs, k),
    decreases n - k,
{
    if k < n {
        lemma_scan_error_persists(evs, k, (n - 1) as nat);
    }
}

/// What a successful scan records: every recorded stream points at its own
/// start event, and at its own end event if it has one; every start and
/// end event among the events scanned is recorded.
pub proof fn lemma_scan_records(evs: Seq<StreamEvent>, n: nat)
    requires
        n <= evs.len(),
        n <= usize::MAX + 1,
        scan(evs, n) is Ok,
    ensures
        scan(evs, n) matches Ok(m) && (forall|id: usize|
            #[trigger] m.contains_key(id) ==> m[id].0 < n && evs[m[id].0 as int]
                == StreamEvent::Start(id) && (m[id].1 matches Some(e) ==> m[id].0 < e && e < n
                && evs[e as int] == StreamEvent::End(id))) && (forall|j: int|
            0 <= j < n ==> match #[trigger] evs[j] {
                StreamEvent::Start(id) => m.contains_key(id) && m[id].0 == j,
                StreamEvent::End(id) => m.contains_key(id) && m[id].1 == Some(j as usize),
                StreamEvent::Other => true,
            }),
    decreases n,
{
    if n > 0 {
        lemma_scan_records(evs, (n - 1) as nat);
    }
}

/// Scans `actions` for the interval of each stream.
fn scan_intervals(actions: &Vec<Action>) -> (r: Result<HashMap<usize, StreamInterval>, ActionSequenceError>)
    ensures
        match view_result(actions@) {
            Ok(m) => r matches Ok(h) && h@ == m,
            Err(e) => r == Err::<HashMap<usize, StreamInterval>, ActionSequenceError>(e),
        },
{
    let ghost evs = events(actions@);
    let n = actions.len();
    assert(evs.len() == n);
    let mut seen: HashMap<usize, (usize, Option<usize>)> = HashMap::new();
    let mut intervals: HashMap<usize, StreamInterval> = HashMap::new();
    let mut i: usize = 0;
    assert(intervals@ =~= ended(seen@));
    while i < n
        invariant
            n == actions@.len(),
            evs == events(actions@),
            evs.len() == n,
            i <= n,
            scan(evs, i as nat) == Ok::<Seen, ActionSequenceError>(seen@),
            intervals@ == ended(seen@),
        decreases n - i,
    {
        assert(evs[i as int] == event(actions@[i as int]));
        match &actions[i] {
            Action::Stream(StreamAction::Start(stream)) => {
                let id = stream.id.0;
                if seen.contains_key(&id) {
                    proof {
                        lemma_scan_error_persists(evs, (i + 1) as nat, n as nat);
                    }
                    return Err(
                        ActionSequenceError { kind: ActionError::DuplicateStreamStart, index: i },
                    );
                }
                seen.insert(id, (i, None));
                assert(intervals@ =~= ended(seen@));
            },
            Action::Stream(StreamAction::End(id)) => {
                let id = id.0;
                let (start, end) = match seen.get(&id) {
                    Some(entry) => *entry,
                    None => {
                        proof {
                            lemma_scan_error_persists(evs, (i + 1) as nat, n as nat);
                        }
                        return Err(
                            ActionSequenceError {
                                kind: ActionError::StreamEndWithoutStart,
                                index: i,
                            },
                        );
                    },
                };
                if end.is_some() {
                    proof {
                        lemma_scan_error_persists(evs, (i + 1) as nat, n as nat);
                    }
                    return Err(
                        ActionSequenceError { kind: ActionError::DuplicateStreamEnd, index: i },
                    );
                }
                seen.insert(id, (start, Some(i)));
                intervals.insert(id, StreamInterval { start, end: i });
                assert(intervals@ =~= ended(seen@));
            },
            _ => {},
        }
        i = i + 1;
    }
    let ghost m = seen@;
    let mut j: usize = 0;
    while j < n
        invariant
            n == actions@.len(),
            evs == events(actions@),
            evs.len() == n,
            scan(evs, n as nat) == Ok::<Seen, ActionSequenceError>(m),
            j <= n,
            seen@ == m,
            first_unended_from(evs, m, 0) == first_unended_from(evs, m, j as int),
        decreases n - j,
    {
        assert(evs[j as int] == event(actions@[j as int]));
        if let Action::Stream(StreamAction::Start(stream)) = &actions[j] {
            if let Some(entry) = seen.get(&stream.id.0) {
                if entry.1.is_none() {
                    return Err(ActionSequenceError { kind: ActionError::MissingStreamEnd, index: j });
                }
            }
        }
        j = j + 1;
    }
    Ok(intervals)
}

/// `first_unended_from` finds nothing from `j` on only where no index from
/// `j` on starts a stream never ended.
proof fn lemma_no_unended(evs: Seq<StreamEvent>, m: Seen, j: int)
    requires
        0 <= j,
        first_unended_from(evs, m, j) is None,
    ensures
        forall|k: int| j <= k < evs.len() ==> !unended_at(evs, m, k),
    decreases evs.len() - j,
{
    if j < evs.len() {
        lemma_no_unended(evs, m, j + 1);
    }
}

/// Where the streams of a sequence are well formed, each stream's interval
/// runs from the index of its start event to the later index of its end
/// event, and every start and end event belongs to the interval of its
/// stream.
pub proof fn lemma_intervals_describe_streams(evs: Seq<StreamEvent>)
    requires
        evs.len() <= usize::MAX,
        intervals_result(evs) is Ok,
    ensures
        intervals_result(evs) matches Ok(ivs) && (forall|id: usize|
            #[trigger] ivs.contains_key(id) ==> ivs[id].start < ivs[id].end && ivs[id].end
                < evs.len() && evs[ivs[id].start as int] == StreamEvent::Start(id)
                && evs[ivs[id].end as int] == StreamEvent::End(id)) && (forall|j: int|
            0 <= j < evs.len() ==> match #[trigger] evs[j] {
                StreamEvent::Start(id) => ivs.contains_key(id) && ivs[id].start == j,
                StreamEvent::End(id) => ivs.contains_key(id) && ivs[id].end == j,
                StreamEvent::Other => true,
            }),
{
    lemma_scan_records(evs, evs.len());
    let m = scan(evs, evs.len())->Ok_0;
    lemma_no_unended(evs, m, 0);
    assert forall|id: usize| #[trigger] m.contains_key(id) implies m[id].1 is Some by {
        assert(!unended_at(evs, m, m[id].0 as int));
    }
}

// ---------------------------------------------------------------------
// Views of the streams of a sequence
// ---------------------------------------------------------------------

/// The stream started at index `i`, if the action there starts one.
pub open spec fn stream_at(acts: Seq<Action>, i: int) -> Option<Stream> {
    match acts[i] {
        Action::Stream(StreamAction::Start(s)) => Some(s),
        _ => None,
    }
}

/// For each stream id of `ivs` whose interval starts at a start action,
/// the stream started there.
pub open spec fn streams_of<'a>(acts: Seq<Action>, ivs: Map<usize, StreamInterval>) -> Map<
    usize,
    &'a Stream,
> {
    Map::new(
        |id: usize| ivs.contains_key(id) && ivs[id].start < acts.len() && stream_at(
            acts,
            ivs[id].start as int,
        ) is Some,
        |id: usize| &stream_at(acts, ivs[id].start as int)->Some_0,
    )
}

/// The stream started at the beginning of `interval`, if any.
pub fn get_stream<'a>(actions: &'a Vec<Action>, interval: &StreamInterval) -> (r: Option<&'a Stream>)
    requires
        interval.start < actions@.len(),
    ensures
        match stream_at(actions@, interval.start as int) {
            Some(s) => r matches Some(t) && *t == s,
            None => r is None,
        },
{
    match &actions[interval.start] {
        Action::Stream(StreamAction::Start(stream)) => Some(stream),
        _ => None,
    }
}

/// The streams of a sequence of actions, by id.
#[derive(Debug)]
pub struct StreamsView<R> {
    pub intervals: HashMap<usize, StreamInterval>,
    pub actions: R,
}

impl<'a> StreamsView<&'a Vec<Action>> {
    /// The view holds the streams of its actions.
    pub open spec fn valid(self) -> bool {
        view_result(self.actions@) == Ok::<Map<usize, StreamInterval>, ActionSequenceError>(
            self.intervals@,
        )
    }

    /// The streams of `actions`, or the first fault in them.
    pub fn new(actions: &'a Vec<Action>) -> (r: Result<Self, ActionSequenceError>)
        ensures
            match view_result(actions@) {
                Ok(m) => r matches Ok(v) && v.intervals@ == m && v.actions == actions && v.valid(),
                Err(e) => r matches Err(e2) && e2 == e,
            },
    {
        match scan_intervals(actions) {
            Ok(intervals) => Ok(StreamsView { intervals, actions }),
            Err(e) => Err(e),
        }
    }

    pub fn intervals(&self) -> (r: &HashMap<usize, StreamInterval>)
        ensures
            r@ == self.intervals@,
    {
        &self.intervals
    }

    /// Each stream of the view, by id.
    pub fn streams(&self) -> (r: HashMap<usize, &'a Stream>)
        requires
            self.valid(),
        ensures
            r@ == streams_of(self.actions@, self.intervals@),
    {
        streams_in(self.actions, &self.intervals)
    }
}

/// Each stream of `actions`, by id, given their intervals.
fn streams_in<'a>(actions: &'a Vec<Action>, intervals: &HashMap<usize, StreamInterval>) -> (r: HashMap<
    usize,
    &'a Stream,
>)
    requires
        view_result(actions@) == Ok::<Map<usize, StreamInterval>, ActionSequenceError>(intervals@),
    ensures
        r@ == streams_of(actions@, intervals@),
{
    let ghost acts = actions@;
    let ghost ivs = intervals@;
    let n = actions.len();
    proof {
        assert(events(acts).len() == acts.len());
        lemma_intervals_describe_streams(events(acts));
    }
    let mut streams: HashMap<usize, &'a Stream> = HashMap::new();
    let mut j: usize = 0;
    while j < n
        invariant
            n == acts.len(),
            actions@ == acts,
            intervals@ == ivs,
            view_result(acts) == Ok::<Map<usize, StreamInterval>, ActionSequenceError>(ivs),
            events(acts).len() == acts.len(),
            forall|id: usize|
                #[trigger] ivs.contains_key(id) ==> ivs[id].start < acts.len() && events(
                    acts,
                )[ivs[id].start as int] == StreamEvent::Start(id),
            forall|k: int|
                0 <= k < acts.len() ==> match #[trigger] events(acts)[k] {
                    StreamEvent::Start(id) => ivs.contains_key(id) && ivs[id].start == k,
                    _ => true,
                },
            j <= n,
            streams@ == Map::new(
                |id: usize| ivs.contains_key(id) && ivs[id].start < j,
                |id: usize| &stream_at(acts, ivs[id].start as int)->Some_0,
            ),
        decreases n - j,
    {
        assert(events(acts)[j as int] == event(acts[j as int]));
        if let Action::Stream(StreamAction::Start(stream)) = &actions[j] {
            let id = stream.id.0;
            streams.insert(id, stream);
        }
        proof {
            assert forall|id: usize| #[trigger] ivs.contains_key(id) implies stream_at(
                acts,
                ivs[id].start as int,
            ) is Some by {
                assert(events(acts)[ivs[id].start as int] == event(acts[ivs[id].start as int]));
            }
        }
        assert(streams@ =~= Map::new(
            |id: usize| ivs.contains_key(id) && ivs[id].start < j + 1,
            |id: usize| &stream_at(acts, ivs[id].start as int)->Some_0,
        ));
        j = j + 1;
    }
    proof {
        assert forall|id: usize| #[trigger] ivs.contains_key(id) implies stream_at(
            acts,
            ivs[id].start as int,
        ) is Some by {
            assert(events(acts)[ivs[id].start as int] == event(acts[ivs[id].start as int]));
        }
    }
    assert(streams@ =~= streams_of(acts, ivs));
    streams
}

impl<'a> StreamsView<&'a mut Vec<Action>> {
    /// The view holds the streams of its actions.
    pub open spec fn valid(self) -> bool {
        view_result(self.actions@) == Ok::<Map<usize, StreamInterval>, ActionSequenceError>(
            self.intervals@,
        )
    }

    /// The streams of `actions`, or the first fault in them; the view
    /// holds on to `actions` for changing them.
    pub fn new(actions: &'a mut Vec<Action>) -> (r: Result<Self, ActionSequenceError>)
        ensures
            match view_result(old(actions)@) {
                Ok(m) => r matches Ok(v) && v.intervals@ == m && *v.actions == *old(actions)
                    && *final(v.actions) == *final(actions) && v.valid(),
                Err(e) => r matches Err(e2) && e2 == e && *final(actions) == *old(actions),
            },
    {
        match scan_intervals(actions) {
            Ok(intervals) => Ok(StreamsView { intervals, actions }),
            Err(e) => Err(e),
        }
    }

    pub fn intervals(&self) -> (r: &HashMap<usize, StreamInterval>)
        ensures
            r@ == self.intervals@,
    {
        &self.intervals
    }

    /// Each stream of the view, by id.
    pub fn streams(&self) -> (r: HashMap<usize, &Stream>)
        requires
            self.valid(),
        ensures
            r@ == streams_of(old(self.actions)@, self.intervals@),
    {
        streams_in(&*self.actions, &self.intervals)
    }

    /// A factory of messages on the stream with id `id`, if the view has it.
    pub fn into_message_factory(self, id: &CallId) -> (r: Option<
        StreamMessageFactory<&'a mut Vec<Action>>,
    >)
        ensures
            if self.intervals@.contains_key(id.0) {
                r matches Some(f) && f.interval == self.intervals@[id.0] && *f.actions
                    == *old(self.actions) && *final(f.actions) == *final(self.actions)
            } else {
                r is None && *final(self.actions) == *old(self.actions)
            },
    {
        let interval = match self.intervals.get(&id.0) {
            Some(interval) => *interval,
            None => return None,
        };
        Some(StreamMessageFactory { interval, actions: self.actions })
    }
}

/// Adds messages to one stream of a sequence.
#[derive(Debug)]
pub struct StreamMessageFactory<R> {
    pub interval: StreamInterval,
    pub actions: R,
}

/// What adding a message with `payload` at `index` to the stream whose
/// interval is `iv` makes of `acts`: the stream must be a client stream
/// whose method takes the payload's type, and the index must lie after
/// the stream's start and no later than its end.
pub open spec fn message_result(
    acts: Seq<Action>,
    iv: StreamInterval,
    payload: Payload,
    index: usize,
) -> Result<Seq<Action>, ActionError> {
    match stream_at(acts, iv.start as int) {
        None => Err(ActionError::InvalidStreamInterval),
        Some(s) => if !(s.ty is Client) {
            Err(ActionError::StreamIsNotClient)
        } else if !crate::action::same_type(crate::action::method_of(s.ty), payload) {
            Err(ActionError::MessageCallDescriptorMismatch)
        } else if iv.start >= index || iv.end < index {
            Err(ActionError::InvalidMessageIdx)
        } else {
            Ok(
                acts.insert(
                    index as int,
                    Action::Message(Message { con: MessageConnection::Stream(s.id), payload }),
                ),
            )
        },
    }
}

impl<'a> StreamMessageFactory<&'a mut Vec<Action>> {
    /// Adds a message with `payload` at `index` to the factory's stream.
    pub fn message(self, payload: Payload, index: usize) -> (r: Result<(), ActionError>)
        requires
            self.interval.start < old(self.actions)@.len(),
            self.interval.start < index <= self.interval.end ==> index <= old(self.actions)@.len(),
        ensures
            match message_result(old(self.actions)@, self.interval, payload, index) {
                Ok(acts) => r is Ok && final(self.actions)@ == acts,
                Err(e) => r == Err::<(), ActionError>(e) && *final(self.actions) == *old(self.actions),
            },
    {
        let mut this = self;
        let stream = match get_stream(this.actions, &this.interval) {
            Some(stream) => stream,
            None => return Err(ActionError::InvalidStreamInterval),
        };
        if !matches!(stream.ty, StreamType::Client(_)) {
            return Err(ActionError::StreamIsNotClient);
        }
        if !crate::action::input_matches(stream.ty.method(), &payload) {
            return Err(ActionError::MessageCallDescriptorMismatch);
        }
        if this.interval.start >= index || this.interval.end < index {
            return Err(ActionError::InvalidMessageIdx);
        }
        let stream_id = stream.id;
        this.actions.insert(
            index,
            Action::Message(Message { con: MessageConnection::Stream(stream_id), payload }),
        );
        Ok(())
    }
}

// ---------------------------------------------------------------------
// Action sequences
// ---------------------------------------------------------------------

/// A sequence of resolved actions, with the largest call id handed out so far.
#[derive(Clone, Debug)]
pub struct ActionSequence {
    pub actions: Vec<Action>,
    pub last_call_id: CallId,
}

/// The stream events of stored actions.
pub open spec fn poor_events(ps: Seq<crate::poor::PAction>) -> Seq<StreamEvent> {
    ps.map_values(|p: crate::poor::PAction| poor_event(p@))
}

/// `last` is the largest stream id of `ivs`, or 0 where there is none.
pub open spec fn is_last_id(ivs: Map<usize, StreamInterval>, last: usize) -> bool {
    &&& forall|id: usize| #[trigger] ivs.contains_key(id) ==> id <= last
    &&& (ivs.dom() =~= Set::empty() ==> last == 0)
    &&& (!(ivs.dom() =~= Set::empty()) ==> ivs.contains_key(last))
}

/// A resolved action has the stream event of the stored action it resolves.
pub proof fn lemma_resolved_event(pool: prost_reflect::DescriptorPool, a: Action, p: PoorAction)
    requires
        crate::action::resolved_as(pool, a, p),
    ensures
        event(a) == poor_event(p),
{
}

/// `seq` is the resolution in `pool` of the stored actions `poor`: each
/// action is the resolution of the stored one at its index, the streams
/// are well formed, and the last call id is the largest stream id.
pub open spec fn resolves_sequence(
    pool: prost_reflect::DescriptorPool,
    poor: Seq<crate::poor::PAction>,
    seq: ActionSequence,
) -> bool {
    &&& seq.actions@.len() == poor.len()
    &&& forall|i: int|
        0 <= i < poor.len() ==> crate::action::resolved_as(
            pool,
            #[trigger] seq.actions@[i],
            poor[i]@,
        )
    &&& view_result(seq.actions@) matches Ok(ivs) && is_last_id(ivs, seq.last_call_id.0)
        && intervals_result(poor_events(poor)) == Ok::<
        Map<usize, StreamInterval>,
        ActionSequenceError,
    >(ivs)
}

/// The first index from `i` on whose stored action does not resolve in
/// `pool`.
pub open spec fn first_unresolved_from(
    pool: prost_reflect::DescriptorPool,
    poor: Seq<crate::poor::PAction>,
    i: int,
) -> Option<int>
    decreases poor.len() - i,
{
    if i < 0 || i >= poor.len() {
        None
    } else if crate::action::resolve_outcome(pool, poor[i]@) is Err {
        Some(i)
    } else {
        first_unresolved_from(pool, poor, i + 1)
    }
}

/// What resolving the stored actions `poor` in `pool` gives: the error of
/// the first action that does not resolve, at its index; else the first
/// fault in the streams; else success.
pub open spec fn sequence_outcome(pool: prost_reflect::DescriptorPool, poor: Seq<crate::poor::PAction>) -> Result<
    (),
    ActionSequenceError,
> {
    match first_unresolved_from(pool, poor, 0) {
        Some(i) => Err(
            ActionSequenceError {
                kind: crate::action::resolve_outcome(pool, poor[i]@)->Err_0,
                index: i as usize,
            },
        ),
        None => match intervals_result(poor_events(poor)) {
            Err(e) => Err(e),
            Ok(_) => Ok(()),
        },
    }
}

/// The action at `i` resolves without a panic.
pub open spec fn resolve_safe_at(pool: prost_reflect::DescriptorPool, poor: Seq<crate::poor::PAction>, i: int) -> bool {
    crate::action::resolve_safe(pool, poor[i]@)
}

/// Resolving the stored actions `poor` in `pool` returns at all: every
/// action that is resolved (each up to the first that fails) resolves
/// without a panic.
pub open spec fn sequence_safe(pool: prost_reflect::DescriptorPool, poor: Seq<crate::poor::PAction>) -> bool {
    forall|i: int|
        0 <= i < poor.len() && (forall|j: int|
            0 <= j < i ==> crate::action::resolve_outcome(pool, #[trigger] poor[j]@) is Ok)
            ==> crate::action::resolve_safe(pool, #[trigger] poor[i]@)
}

impl ActionSequence {
    /// Resolves each stored action in `proto`, then checks the streams of
    /// the sequence; the last call id is the largest stream id.
    pub fn from_poor(poor: &[crate::poor::PAction], proto: &prost_reflect::DescriptorPool) -> (r:
        Result<ActionSequence, ActionSequenceError>)
        requires
            sequence_safe(*proto, poor@),
        ensures
            match sequence_outcome(*proto, poor@) {
                Ok(_) => r matches Ok(seq) && resolves_sequence(*proto, poor@, seq),
                Err(e) => r == Err::<ActionSequence, ActionSequenceError>(e),
            },
    {
        let mut actions: Vec<Action> = Vec::new();
        let n = poor.len();
        let mut i: usize = 0;
        while i < n
            invariant
                n == poor@.len(),
                i <= n,
                actions@.len() == i,
                sequence_safe(*proto, poor@),
                first_unresolved_from(*proto, poor@, 0) == first_unresolved_from(
                    *proto,
                    poor@,
                    i as int,
                ),
                forall|k: int|
                    0 <= k < i ==> crate::action::resolved_as(
                        *proto,
                        #[trigger] actions@[k],
                        poor@[k]@,
                    ),
                forall|k: int|
                    0 <= k < i ==> crate::action::resolve_outcome(*proto, #[trigger] poor@[k]@) is Ok,
            decreases n - i,
        {
            proof {
                assert(resolve_safe_at(*proto, poor@, i as int));
            }
            match Action::from_poor(&poor[i], proto) {
                Ok(action) => actions.push(action),
                Err(kind) => return Err(ActionSequenceError { kind, index: i }),
            }
            i = i + 1;
        }
        proof {
            assert forall|k: int| 0 <= k < n implies #[trigger] events(actions@)[k] == poor_events(
                poor@,
            )[k] by {
                lemma_resolved_event(*proto, actions@[k], poor@[k]@);
            }
            assert(events(actions@) =~= poor_events(poor@));
        }
        let view = match StreamsView::<&Vec<Action>>::new(&actions) {
            Ok(view) => view,
            Err(e) => return Err(e),
        };
        let ghost ivs = view.intervals@;
        proof {
            assert(events(actions@).len() == actions@.len());
            lemma_intervals_describe_streams(events(actions@));
        }
        let mut last: usize = 0;
        let mut found = false;
        let mut j: usize = 0;
        while j < n
            invariant
                n == actions@.len(),
                j <= n,
                view_result(actions@) == Ok::<Map<usize, StreamInterval>, ActionSequenceError>(ivs),
                events(actions@).len() == n,
                forall|id: usize|
                    #[trigger] ivs.contains_key(id) ==> ivs[id].start < n && events(
                        actions@,
                    )[ivs[id].start as int] == StreamEvent::Start(id),
                forall|k: int|
                    0 <= k < n ==> match #[trigger] events(actions@)[k] {
                        StreamEvent::Start(id) => ivs.contains_key(id) && ivs[id].start == k,
                        _ => true,
                    },
                forall|id: usize| #[trigger]
                    ivs.contains_key(id) && ivs[id].start < j ==> id <= last,
                found ==> ivs.contains_key(last) && ivs[last].start < j,
                !found ==> last == 0 && forall|id: usize| #[trigger]
                    ivs.contains_key(id) ==> ivs[id].start >= j,
            decreases n - j,
        {
            assert(events(actions@)[j as int] == event(actions@[j as int]));
            if let Action::Stream(StreamAction::Start(stream)) = &actions[j] {
                if !found || stream.id.0 > last {
                    last = stream.id.0;
                }
                found = true;
            }
            j = j + 1;
        }
        proof {
            if !found {
                assert(ivs.dom() =~= Set::empty());
            } else {
                assert(ivs.dom().contains(last));
            }
        }
        Ok(ActionSequence { actions, last_call_id: CallId(last) })
    }
}

/// The first index from `i` on whose action has no stored form.
pub open spec fn first_unstorable_from(acts: Seq<Action>, ss: Map<usize, &Stream>, i: int) -> Option<
    int,
>
    decreases acts.len() - i,
{
    if i < 0 || i >= acts.len() {
        None
    } else if crate::action::poor_view(acts[i], ss) is Err {
        Some(i)
    } else {
        first_unstorable_from(acts, ss, i + 1)
    }
}

/// The stored form of a sequence: its streams must be well formed, and
/// then each action is stored given the sequence's streams; the first
/// action that cannot be is the error.
pub open spec fn gen_poor_result(acts: Seq<Action>) -> Result<Seq<PoorAction>, ActionSequenceError> {
    match view_result(acts) {
        Err(e) => Err(e),
        Ok(ivs) => {
            let ss = streams_of(acts, ivs);
            match first_unstorable_from(acts, ss, 0) {
                Some(i) => Err(
                    ActionSequenceError {
                        kind: crate::action::poor_view(acts[i], ss)->Err_0,
                        index: i as usize,
                    },
                ),
                None => Ok(Seq::new(acts.len(), |i: int| crate::action::poor_view(acts[i], ss)->Ok_0)),
            }
        },
    }
}

/// The sequence with a stream's start action at `start` and its end
/// action at `end` (both indices into the sequence as it was), provided
/// `start < end < len`.
pub open spec fn add_stream_result(
    acts: Seq<Action>,
    start_action: Action,
    id: CallId,
    start: usize,
    end: usize,
) -> Result<Seq<Action>, ActionError> {
    if start >= acts.len() || end >= acts.len() || start >= end {
        Err(ActionError::InvalidStreamInterval)
    } else {
        Ok(
            acts.insert(end as int, Action::Stream(StreamAction::End(id))).insert(
                start as int,
                start_action,
            ),
        )
    }
}

impl ActionSequence {
    /// The stored form of the sequence.
    pub fn gen_poor(&self) -> (r: Result<Vec<crate::poor::PAction>, ActionSequenceError>)
        ensures
            match gen_poor_result(self.actions@) {
                Ok(ps) => r matches Ok(v) && v@.map_values(|p: crate::poor::PAction| p@) == ps,
                Err(e) => r == Err::<Vec<crate::poor::PAction>, ActionSequenceError>(e),
            },
    {
        let stream_list = match self.stream_list() {
            Ok(view) => view,
            Err(e) => return Err(e),
        };
        let streams = stream_list.streams();
        let ghost ss = streams@;
        let n = self.actions.len();
        let mut out: Vec<crate::poor::PAction> = Vec::new();
        let mut i: usize = 0;
        while i < n
            invariant
                n == self.actions@.len(),
                i <= n,
                streams@ == ss,
                view_result(self.actions@) matches Ok(ivs) && ss == streams_of(self.actions@, ivs),
                first_unstorable_from(self.actions@, ss, 0) == first_unstorable_from(
                    self.actions@,
                    ss,
                    i as int,
                ),
                out@.len() == i,
                forall|k: int|
                    0 <= k < i ==> crate::action::poor_view(self.actions@[k], ss) == Ok::<
                        PoorAction,
                        ActionError,
                    >(#[trigger] out@[k]@),
            decreases n - i,
        {
            match self.actions[i].to_poor(&streams) {
                Ok(p) => out.push(p),
                Err(kind) => return Err(ActionSequenceError { kind, index: i }),
            }
            i = i + 1;
        }
        assert(out@.map_values(|p: crate::poor::PAction| p@) =~= Seq::new(
            n as nat,
            |k: int| crate::action::poor_view(self.actions@[k], ss)->Ok_0,
        ));
        Ok(out)
    }

    pub fn len(&self) -> (r: usize)
        ensures
            r == self.actions@.len(),
    {
        self.actions.len()
    }

    pub fn get(&self) -> (r: &Vec<Action>)
        ensures
            *r == self.actions,
    {
        &self.actions
    }

    pub fn get_mut(&mut self) -> (r: &mut Vec<Action>)
        ensures
            *r == old(self).actions,
            final(self).actions == *final(r),
            final(self).last_call_id == old(self).last_call_id,
    {
        &mut self.actions
    }

    /// Hands out the next call id, if there is one.
    fn allocate_call_id(&mut self) -> (r: Option<CallId>)
        ensures
            final(self).actions == old(self).actions,
            if old(self).last_call_id.0 == usize::MAX {
                r is None && final(self).last_call_id == old(self).last_call_id
            } else {
                r == Some(CallId((old(self).last_call_id.0 + 1) as usize))
                    && final(self).last_call_id == r->0
            },
    {
        let next_call_id = match self.last_call_id.0.checked_add(1) {
            Some(next) => next,
            None => return None,
        };
        self.last_call_id = CallId(next_call_id);
        Some(self.last_call_id)
    }

    /// Adds a stream: `start_action` at `start` and its end at `end`.
    fn add_stream(&mut self, start_action: Action, id: CallId, start: usize, end: usize) -> (r: Result<
        (),
        ActionError,
    >)
        ensures
            final(self).last_call_id == old(self).last_call_id,
            match add_stream_result(old(self).actions@, start_action, id, start, end) {
                Ok(acts) => r is Ok && final(self).actions@ == acts,
                Err(e) => r == Err::<(), ActionError>(e) && final(self).actions == old(self).actions,
            },
    {
        if start >= self.len() || end >= self.len() || start >= end {
            return Err(ActionError::InvalidStreamInterval);
        }
        let actions = self.get_mut();
        actions.reserve(2);
        actions.insert(end, Action::from(id));
        actions.insert(start, start_action);
        Ok(())
    }

    pub fn stream_list(&self) -> (r: Result<StreamsView<&Vec<Action>>, ActionSequenceError>)
        ensures
            match view_result(self.actions@) {
                Ok(m) => r matches Ok(v) && v.intervals@ == m && *v.actions == self.actions
                    && v.valid(),
                Err(e) => r matches Err(e2) && e2 == e,
            },
    {
        StreamsView::<&Vec<Action>>::new(self.get())
    }

    pub fn stream_list_mut(&mut self) -> (r: Result<StreamsView<&mut Vec<Action>>, ActionSequenceError>)
        ensures
            final(self).last_call_id == old(self).last_call_id,
            match view_result(old(self).actions@) {
                Ok(m) => r matches Ok(v) && v.intervals@ == m && *v.actions == old(self).actions
                    && *final(v.actions) == final(self).actions && v.valid(),
                Err(e) => r matches Err(e2) && e2 == e && final(self).actions == old(self).actions,
            },
    {
        StreamsView::<&mut Vec<Action>>::new(self.get_mut())
    }
}

/// The start action of a new stream of kind `ty` with id `id`.
pub open spec fn start_of(ty: StreamType, id: CallId) -> Action {
    Action::Stream(StreamAction::Start(Stream { ty, id }))
}

/// What adding a unary message with `payload` at `index` makes of `acts`:
/// the payload must have the method's input type, and the index must lie
/// within the sequence.
pub open spec fn unary_result(acts: Seq<Action>, md: CSUnary, payload: Payload, index: usize) -> Result<
    Seq<Action>,
    ActionError,
> {
    if !crate::action::same_type(md.0, payload) {
        Err(ActionError::MessageCallDescriptorMismatch)
    } else if index >= acts.len() {
        Err(ActionError::InvalidMessageIdx)
    } else {
        Ok(
            acts.insert(
                index as int,
                Action::Message(Message { con: MessageConnection::Unary(md), payload }),
            ),
        )
    }
}

impl ActionSequence {
    /// Adds a server stream of method `md` with request `payload`, starting
    /// at `start` and ending at `end`, under a newly allocated call id.
    /// The call id is allocated before the interval is checked.
    pub fn add_server_stream(&mut self, md: Method, payload: Payload, start: usize, end: usize) -> (r:
        Result<(), ActionError>)
        ensures
            match crate::action::sstream_result(md, payload) {
                Err(e) => r == Err::<(), ActionError>(e) && *final(self) == *old(self),
                Ok(s) => if old(self).last_call_id.0 == usize::MAX {
                    r == Err::<(), ActionError>(ActionError::NoCallIdsLeft) && *final(self) == *old(
                        self,
                    )
                } else {
                    let id = CallId((old(self).last_call_id.0 + 1) as usize);
                    &&& final(self).last_call_id == id
                    &&& match add_stream_result(
                        old(self).actions@,
                        start_of(StreamType::Server(s), id),
                        id,
                        start,
                        end,
                    ) {
                        Ok(acts) => r is Ok && final(self).actions@ == acts,
                        Err(e) => r == Err::<(), ActionError>(e) && final(self).actions == old(
                            self,
                        ).actions,
                    }
                },
            },
    {
        let ty = match SStream::new(md, payload) {
            Ok(s) => StreamType::Server(s),
            Err(e) => return Err(e),
        };
        let id = match self.allocate_call_id() {
            Some(id) => id,
            None => return Err(ActionError::NoCallIdsLeft),
        };
        self.add_stream(Action::from(Stream { ty, id }), id, start, end)
    }

    /// Adds a client stream of method `md`, starting at `start` and ending
    /// at `end`, under a newly allocated call id. The call id is allocated
    /// before the interval is checked.
    pub fn add_client_stream(&mut self, md: Method, start: usize, end: usize) -> (r: Result<
        (),
        ActionError,
    >)
        ensures
            match crate::action::cstream_result(md) {
                Err(e) => r == Err::<(), ActionError>(e) && *final(self) == *old(self),
                Ok(c) => if old(self).last_call_id.0 == usize::MAX {
                    r == Err::<(), ActionError>(ActionError::NoCallIdsLeft) && *final(self) == *old(
                        self,
                    )
                } else {
                    let id = CallId((old(self).last_call_id.0 + 1) as usize);
                    &&& final(self).last_call_id == id
                    &&& match add_stream_result(
                        old(self).actions@,
                        start_of(StreamType::Client(c), id),
                        id,
                        start,
                        end,
                    ) {
                        Ok(acts) => r is Ok && final(self).actions@ == acts,
                        Err(e) => r == Err::<(), ActionError>(e) && final(self).actions == old(
                            self,
                        ).actions,
                    }
                },
            },
    {
        let ty = match CStream::new(md) {
            Ok(c) => StreamType::Client(c),
            Err(e) => return Err(e),
        };
        let id = match self.allocate_call_id() {
            Some(id) => id,
            None => return Err(ActionError::NoCallIdsLeft),
        };
        self.add_stream(Action::from(Stream { ty, id }), id, start, end)
    }

    /// Adds a unary call of method `md` with request `payload` at `index`.
    pub fn add_unary(&mut self, md: CSUnary, payload: Payload, index: usize) -> (r: Result<
        (),
        ActionError,
    >)
        ensures
            final(self).last_call_id == old(self).last_call_id,
            match unary_result(old(self).actions@, md, payload, index) {
                Ok(acts) => r is Ok && final(self).actions@ == acts,
                Err(e) => r == Err::<(), ActionError>(e) && final(self).actions == old(self).actions,
            },
    {
        if !crate::action::input_matches(&md.0, &payload) {
            return Err(ActionError::MessageCallDescriptorMismatch);
        }
        if index >= self.len() {
            return Err(ActionError::InvalidMessageIdx);
        }
        self.get_mut().insert(
            index,
            Action::from(Message { con: MessageConnection::Unary(md), payload }),
        );
        Ok(())
    }
}

} // verus!
