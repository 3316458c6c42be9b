//! What holds of the library as a whole: when a sequence's streams are
//! well formed and which fault is reported where they are not; when
//! adding streams, messages and unary calls succeeds and what it keeps;
//! when a stored action resolves; what storing a resolved sequence keeps
//! and what resolving a stored sequence gives back; and that a method
//! found by name is found again by its full name.
use crate::action::{
    csunary_result, cstream_result, encodes, resolve_outcome, method_of, pool_method, same_type, sstream_result, Action, CSUnary, CStream, CallId,
    Message, Method, MessageConnection, Payload, SStream, StreamAction, StreamType,
};
use crate::action::{last_dot_in, resolves, split_last_dot};
use crate::proto::{decode_outcome, lookup_name, method_tuple};
use crate::error::{ActionError, ActionSequenceError};
use crate::poor::{PAction, PoorAction};
use crate::sequence::{
    add_stream_result, event, events, first_unended_from, first_unresolved_from, first_unstorable_from, is_last_id, sequence_outcome, sequence_safe,
    gen_poor_result, intervals_result, lemma_intervals_describe_streams, lemma_resolved_event,
    lemma_scan_records, message_result, poor_event, poor_events, resolves_sequence, scan, start_of,
    stream_at, streams_of, unary_result, unended_at, view_result, ActionSequence, StreamEvent,
    StreamInterval,
};
use vstd::prelude::*;

verus! {

/// The streams of a sequence of events are well formed: no stream is
/// started twice or ended twice, every end follows a start of its stream,
/// and every start is followed by an end of its stream.
pub open spec fn well_formed_events(evs: Seq<StreamEvent>) -> bool {
    &&& forall|i: int, j: int|
        #![trigger evs[i], evs[j]]
        0 <= i < j < evs.len() && evs[i] is Start && evs[j] is Start ==> evs[i]->Start_0
            != evs[j]->Start_0
    &&& forall|i: int, j: int|
        #![trigger evs[i], evs[j]]
        0 <= i < j < evs.len() && evs[i] is End && evs[j] is End ==> evs[i]->End_0
            != evs[j]->End_0
    &&& forall|j: int|
        #![trigger evs[j]]
        0 <= j < evs.len() && evs[j] is End ==> exists|i: int|
            0 <= i < j && evs[i] == StreamEvent::Start(evs[j]->End_0)
    &&& forall|i: int|
        #![trigger evs[i]]
        0 <= i < evs.len() && evs[i] is Start ==> exists|j: int|
            i < j < evs.len() && evs[j] == StreamEvent::End(evs[i]->Start_0)
}

proof fn lemma_first_unended_none(evs: Seq<StreamEvent>, m: Map<usize, (usize, Option<usize>)>, j: int)
    requires
        0 <= j,
        forall|k: int| j <= k < evs.len() ==> !unended_at(evs, m, k),
    ensures
        first_unended_from(evs, m, j) is None,
    decreases evs.len() - j,
{
    if j < evs.len() {
        lemma_first_unended_none(evs, m, j + 1);
    }
}

/// On well formed events, no step of the scan fails.
proof fn lemma_scan_ok(evs: Seq<StreamEvent>, n: nat)
    requires
        evs.len() <= usize::MAX,
        n <= evs.len(),
        well_formed_events(evs),
    ensures
        scan(evs, n) is Ok,
    decreases n,
{
    if n > 0 {
        let k = (n - 1) as nat;
        lemma_scan_ok(evs, k);
        lemma_scan_records(evs, k);
        let m = scan(evs, k)->Ok_0;
        match evs[k as int] {
            StreamEvent::Start(id) => {
                if m.contains_key(id) {
                    let i = m[id].0 as int;
                    assert(evs[i] == StreamEvent::Start(id));
                    assert(evs[i] is Start && evs[k as int] is Start);
                }
            },
            StreamEvent::End(id) => {
                if !m.contains_key(id) {
                    assert(evs[k as int] is End);
                    let i = choose|i: int| 0 <= i < k && evs[i] == StreamEvent::Start(id);
                    assert(match evs[i] {
                        StreamEvent::Start(id) => m.contains_key(id) && m[id].0 == i,
                        StreamEvent::End(id) => m.contains_key(id) && m[id].1 == Some(i as usize),
                        StreamEvent::Other => true,
                    });
                } else if m[id].1 is Some {
                    let e = m[id].1->Some_0 as int;
                    assert(evs[e] == StreamEvent::End(id));
                    assert(evs[e] is End && evs[k as int] is End);
                }
            },
            StreamEvent::Other => {},
        }
    }
}

/// The streams of a sequence of events come out well formed (the scan
/// finds no fault) exactly where they are well formed in the sense of
/// `well_formed_events`.
pub proof fn lemma_intervals_ok_iff_well_formed(evs: Seq<StreamEvent>)
    requires
        evs.len() <= usize::MAX,
    ensures
        intervals_result(evs) is Ok <==> well_formed_events(evs),
{
    if intervals_result(evs) is Ok {
        lemma_intervals_describe_streams(evs);
        let ivs = intervals_result(evs)->Ok_0;
        assert forall|i: int, j: int|
            #![trigger evs[i], evs[j]]
            0 <= i < j < evs.len() && evs[i] is Start && evs[j] is Start implies evs[i]->Start_0
            != evs[j]->Start_0 by {
            assert(match evs[i] {
                StreamEvent::Start(id) => ivs.contains_key(id) && ivs[id].start == i,
                StreamEvent::End(id) => ivs.contains_key(id) && ivs[id].end == i,
                StreamEvent::Other => true,
            });
            assert(match evs[j] {
                StreamEvent::Start(id) => ivs.contains_key(id) && ivs[id].start == j,
                StreamEvent::End(id) => ivs.contains_key(id) && ivs[id].end == j,
                StreamEvent::Other => true,
            });
        }
        assert forall|i: int, j: int|
            #![trigger evs[i], evs[j]]
            0 <= i < j < evs.len() && evs[i] is End && evs[j] is End implies evs[i]->End_0
            != evs[j]->End_0 by {
            assert(match evs[i] {
                StreamEvent::Start(id) => ivs.contains_key(id) && ivs[id].start == i,
                StreamEvent::End(id) => ivs.contains_key(id) && ivs[id].end == i,
                StreamEvent::Other => true,
            });
            assert(match evs[j] {
                StreamEvent::Start(id) => ivs.contains_key(id) && ivs[id].start == j,
                StreamEvent::End(id) => ivs.contains_key(id) && ivs[id].end == j,
                StreamEvent::Other => true,
            });
        }
        assert forall|j: int|
            #![trigger evs[j]]
            0 <= j < evs.len() && evs[j] is End implies exists|i: int|
                0 <= i < j && evs[i] == StreamEvent::Start(evs[j]->End_0) by {
            let id = evs[j]->End_0;
            assert(ivs.contains_key(id) && ivs[id].end == j);
            assert(evs[ivs[id].start as int] == StreamEvent::Start(id));
        }
        assert forall|i: int|
            #![trigger evs[i]]
            0 <= i < evs.len() && evs[i] is Start implies exists|j: int|
                i < j < evs.len() && evs[j] == StreamEvent::End(evs[i]->Start_0) by {
            let id = evs[i]->Start_0;
            assert(ivs.contains_key(id) && ivs[id].start == i);
            assert(evs[ivs[id].end as int] == StreamEvent::End(id));
        }
    }
    if well_formed_events(evs) {
        lemma_scan_ok(evs, evs.len());
        lemma_scan_records(evs, evs.len());
        let m = scan(evs, evs.len())->Ok_0;
        assert forall|k: int| 0 <= k < evs.len() implies !unended_at(evs, m, k) by {
            if let StreamEvent::Start(id) = evs[k] {
                assert(evs[k] is Start);
                let e = choose|e: int| k < e < evs.len() && evs[e] == StreamEvent::End(id);
                assert(match evs[e] {
                    StreamEvent::Start(id) => m.contains_key(id) && m[id].0 == e,
                    StreamEvent::End(id) => m.contains_key(id) && m[id].1 == Some(e as usize),
                    StreamEvent::Other => true,
                });
            }
        }
        lemma_first_unended_none(evs, m, 0);
    }
}

/// An index of a sequence after an action is inserted at `at`.
pub open spec fn shifted(k: usize, at: usize) -> usize {
    if k >= at {
        (k + 1) as usize
    } else {
        k
    }
}

/// The intervals of streams after an action is inserted at `at`.
pub open spec fn shift_intervals(ivs: Map<usize, StreamInterval>, at: usize) -> Map<
    usize,
    StreamInterval,
> {
    Map::new(
        |id: usize| ivs.contains_key(id),
        |id: usize| StreamInterval { start: shifted(ivs[id].start, at), end: shifted(ivs[id].end, at) },
    )
}

/// Inserting an event that is neither a start nor an end into a sequence
/// whose streams are well formed keeps them well formed, each interval
/// shifted past the inserted event.
pub proof fn lemma_insert_other_event(evs: Seq<StreamEvent>, at: usize)
    requires
        evs.len() < usize::MAX,
        at <= evs.len(),
        intervals_result(evs) is Ok,
    ensures
        intervals_result(evs.insert(at as int, StreamEvent::Other)) == Ok::<
            Map<usize, StreamInterval>,
            ActionSequenceError,
        >(shift_intervals(intervals_result(evs)->Ok_0, at)),
{
    let ivs = intervals_result(evs)->Ok_0;
    let evs2 = evs.insert(at as int, StreamEvent::Other);
    evs.insert_ensures(at as int, StreamEvent::Other);
    let n = evs.len() as int;
    let a = at as int;
    // the index in `evs` of an index of `evs2` other than `at`
    let back = |k: int| if k < a { k } else { k - 1 };
    let fwd = |k: int| if k < a { k } else { k + 1 };
    assert forall|k: int| 0 <= k < n implies #[trigger] evs2[fwd(k)] == evs[k] by {
        if k >= a {
            assert(evs2[k + 1] == evs[k]);
        }
    }
    assert forall|k: int| 0 <= k < n + 1 && k != a implies #[trigger] evs2[k] == evs[back(k)] by {
        if k > a {
            assert(evs2[(k - 1) + 1] == evs[k - 1]);
        }
    }
    lemma_intervals_ok_iff_well_formed(evs);
    assert(well_formed_events(evs2)) by {
        assert forall|i: int, j: int|
            #![trigger evs2[i], evs2[j]]
            0 <= i < j < evs2.len() && evs2[i] is Start && evs2[j] is Start implies evs2[i]->Start_0
            != evs2[j]->Start_0 by {
            assert(evs2[i] == evs[back(i)] && evs2[j] == evs[back(j)]);
            assert(evs[back(i)] is Start && evs[back(j)] is Start);
        }
        assert forall|i: int, j: int|
            #![trigger evs2[i], evs2[j]]
            0 <= i < j < evs2.len() && evs2[i] is End && evs2[j] is End implies evs2[i]->End_0
            != evs2[j]->End_0 by {
            assert(evs2[i] == evs[back(i)] && evs2[j] == evs[back(j)]);
            assert(evs[back(i)] is End && evs[back(j)] is End);
        }
        assert forall|j: int|
            #![trigger evs2[j]]
            0 <= j < evs2.len() && evs2[j] is End implies exists|i: int|
                0 <= i < j && evs2[i] == StreamEvent::Start(evs2[j]->End_0) by {
            assert(evs2[j] == evs[back(j)]);
            assert(evs[back(j)] is End);
            let bj = back(j);
            let i0 = choose|i: int| #![trigger evs[i]] 0 <= i < bj && evs[i] == StreamEvent::Start(evs[bj]->End_0);
            assert(evs2[fwd(i0)] == evs[i0]);
        }
        assert forall|i: int|
            #![trigger evs2[i]]
            0 <= i < evs2.len() && evs2[i] is Start implies exists|j: int|
                i < j < evs2.len() && evs2[j] == StreamEvent::End(evs2[i]->Start_0) by {
            assert(evs2[i] == evs[back(i)]);
            assert(evs[back(i)] is Start);
            let bi = back(i);
            let j0 = choose|j: int| #![trigger evs[j]] bi < j < n && evs[j] == StreamEvent::End(evs[bi]->Start_0);
            assert(evs2[fwd(j0)] == evs[j0]);
        }
    }
    lemma_intervals_ok_iff_well_formed(evs2);
    lemma_intervals_describe_streams(evs);
    lemma_intervals_describe_streams(evs2);
    let ivs2 = intervals_result(evs2)->Ok_0;
    let expect = shift_intervals(ivs, at);
    assert forall|id: usize| #[trigger] ivs.contains_key(id) implies ivs2.contains_key(id)
        && ivs2[id] == expect[id] by {
        let s = ivs[id].start as int;
        let e = ivs[id].end as int;
        assert(evs2[fwd(s)] == evs[s]);
        assert(evs2[fwd(e)] == evs[e]);
        assert(match evs2[fwd(s)] {
            StreamEvent::Start(id) => ivs2.contains_key(id) && ivs2[id].start == fwd(s),
            StreamEvent::End(id) => ivs2.contains_key(id) && ivs2[id].end == fwd(s),
            StreamEvent::Other => true,
        });
        assert(match evs2[fwd(e)] {
            StreamEvent::Start(id) => ivs2.contains_key(id) && ivs2[id].start == fwd(e),
            StreamEvent::End(id) => ivs2.contains_key(id) && ivs2[id].end == fwd(e),
            StreamEvent::Other => true,
        });
    }
    assert forall|id: usize| #[trigger] ivs2.contains_key(id) implies ivs.contains_key(id) by {
        let s = ivs2[id].start as int;
        assert(evs2[s] == StreamEvent::Start(id));
        assert(s != a);
        assert(evs2[s] == evs[back(s)]);
        assert(match evs[back(s)] {
            StreamEvent::Start(id) => ivs.contains_key(id) && ivs[id].start == back(s),
            StreamEvent::End(id) => ivs.contains_key(id) && ivs[id].end == back(s),
            StreamEvent::Other => true,
        });
    }
    assert(ivs2 =~= expect);
}

/// No event of `evs` starts or ends the stream `id`.
pub open spec fn id_unused(evs: Seq<StreamEvent>, id: usize) -> bool {
    forall|k: int|
        0 <= k < evs.len() ==> #[trigger] evs[k] != StreamEvent::Start(id) && evs[k]
            != StreamEvent::End(id)
}

/// The intervals of streams after a new stream `id` is added with its end
/// inserted at `end` and then its start at `start`.
pub open spec fn add_interval(
    ivs: Map<usize, StreamInterval>,
    id: usize,
    start: usize,
    end: usize,
) -> Map<usize, StreamInterval> {
    shift_intervals(shift_intervals(ivs, end), start).insert(
        id,
        StreamInterval { start, end: (end + 1) as usize },
    )
}

/// Adding a stream whose id no event uses, its end inserted at `end` and
/// then its start at `start < end`, to a sequence whose streams are well
/// formed keeps them well formed: the new stream runs from `start` to
/// `end + 1`, and every other interval is shifted past the two inserted
/// events.
#[verifier::rlimit(50)]
pub proof fn lemma_insert_fresh_stream(evs: Seq<StreamEvent>, id: usize, start: usize, end: usize)
    requires
        evs.len() + 2 <= usize::MAX,
        start < end < evs.len(),
        intervals_result(evs) is Ok,
        id_unused(evs, id),
    ensures
        intervals_result(
            evs.insert(end as int, StreamEvent::End(id)).insert(
                start as int,
                StreamEvent::Start(id),
            ),
        ) == Ok::<Map<usize, StreamInterval>, ActionSequenceError>(
            add_interval(intervals_result(evs)->Ok_0, id, start, end),
        ),
{
    let ivs = intervals_result(evs)->Ok_0;
    let mid = evs.insert(end as int, StreamEvent::End(id));
    let evs2 = mid.insert(start as int, StreamEvent::Start(id));
    evs.insert_ensures(end as int, StreamEvent::End(id));
    mid.insert_ensures(start as int, StreamEvent::Start(id));
    let n = evs.len() as int;
    let s0 = start as int;
    let e0 = end as int;
    let fwd = |k: int|
        if k < s0 {
            k
        } else if k < e0 {
            k + 1
        } else {
            k + 2
        };
    let back = |k: int|
        if k < s0 {
            k
        } else if k <= e0 {
            k - 1
        } else {
            k - 2
        };
    assert(evs2.len() == n + 2);
    assert(evs2[s0] == StreamEvent::Start(id));
    assert(evs2[e0 + 1] == StreamEvent::End(id)) by {
        assert(mid[e0] == StreamEvent::End(id));
        assert(evs2[e0 + 1] == mid[e0]);
    }
    assert forall|k: int| 0 <= k < n implies #[trigger] evs2[fwd(k)] == evs[k] by {
        if k < s0 {
            assert(mid[k] == evs[k]);
        } else if k < e0 {
            assert(mid[k] == evs[k]);
            assert(evs2[k + 1] == mid[k]);
        } else {
            assert(mid[k + 1] == evs[k]);
            assert(evs2[(k + 1) + 1] == mid[k + 1]);
        }
    }
    assert forall|k: int| 0 <= k < n + 2 && k != s0 && k != e0 + 1 implies #[trigger] evs2[k]
        == evs[back(k)] by {
        assert(evs2[fwd(back(k))] == evs[back(k)]);
        assert(fwd(back(k)) == k);
    }
    lemma_intervals_ok_iff_well_formed(evs);
    assert(well_formed_events(evs2)) by {
        assert forall|i: int, j: int|
            #![trigger evs2[i], evs2[j]]
            0 <= i < j < evs2.len() && evs2[i] is Start && evs2[j] is Start implies evs2[i]->Start_0
            != evs2[j]->Start_0 by {
            if i == s0 {
                assert(j != e0 + 1);
                assert(evs2[j] == evs[back(j)]);
            } else if j == s0 {
                assert(i != e0 + 1);
                assert(evs2[i] == evs[back(i)]);
            } else {
                assert(i != e0 + 1 && j != e0 + 1);
                assert(evs2[i] == evs[back(i)] && evs2[j] == evs[back(j)]);
                assert(evs[back(i)] is Start && evs[back(j)] is Start);
            }
        }
        assert forall|i: int, j: int|
            #![trigger evs2[i], evs2[j]]
            0 <= i < j < evs2.len() && evs2[i] is End && evs2[j] is End implies evs2[i]->End_0
            != evs2[j]->End_0 by {
            if i == e0 + 1 {
                assert(j != s0);
                assert(evs2[j] == evs[back(j)]);
            } else if j == e0 + 1 {
                assert(i != s0);
                assert(evs2[i] == evs[back(i)]);
            } else {
                assert(i != s0 && j != s0);
                assert(evs2[i] == evs[back(i)] && evs2[j] == evs[back(j)]);
                assert(evs[back(i)] is End && evs[back(j)] is End);
            }
        }
        assert forall|j: int|
            #![trigger evs2[j]]
            0 <= j < evs2.len() && evs2[j] is End implies exists|i: int|
                0 <= i < j && evs2[i] == StreamEvent::Start(evs2[j]->End_0) by {
            if j == e0 + 1 {
                assert(evs2[s0] == StreamEvent::Start(id));
            } else {
                assert(j != s0);
                assert(evs2[j] == evs[back(j)]);
                assert(evs[back(j)] is End);
                let bj = back(j);
                let i0 = choose|i: int| #![trigger evs[i]] 0 <= i < bj && evs[i] == StreamEvent::Start(evs[bj]->End_0);
                assert(evs2[fwd(i0)] == evs[i0]);
            }
        }
        assert forall|i: int|
            #![trigger evs2[i]]
            0 <= i < evs2.len() && evs2[i] is Start implies exists|j: int|
                i < j < evs2.len() && evs2[j] == StreamEvent::End(evs2[i]->Start_0) by {
            if i == s0 {
                assert(evs2[e0 + 1] == StreamEvent::End(id));
            } else {
                assert(i != e0 + 1);
                assert(evs2[i] == evs[back(i)]);
                assert(evs[back(i)] is Start);
                let bi = back(i);
                let j0 = choose|j: int| #![trigger evs[j]] bi < j < n && evs[j] == StreamEvent::End(evs[bi]->Start_0);
                assert(evs2[fwd(j0)] == evs[j0]);
            }
        }
    }
    lemma_intervals_ok_iff_well_formed(evs2);
    lemma_intervals_describe_streams(evs);
    lemma_intervals_describe_streams(evs2);
    let ivs2 = intervals_result(evs2)->Ok_0;
    let expect = add_interval(ivs, id, start, end);
    assert(ivs2.contains_key(id) && ivs2[id] == expect[id]) by {
        assert(match evs2[s0] {
            StreamEvent::Start(id) => ivs2.contains_key(id) && ivs2[id].start == s0,
            StreamEvent::End(id) => ivs2.contains_key(id) && ivs2[id].end == s0,
            StreamEvent::Other => true,
        });
        assert(match evs2[e0 + 1] {
            StreamEvent::Start(id) => ivs2.contains_key(id) && ivs2[id].start == e0 + 1,
            StreamEvent::End(id) => ivs2.contains_key(id) && ivs2[id].end == e0 + 1,
            StreamEvent::Other => true,
        });
    }
    assert forall|x: usize| #[trigger] ivs.contains_key(x) implies ivs2.contains_key(x)
        && ivs2[x] == expect[x] by {
        let s = ivs[x].start as int;
        let e = ivs[x].end as int;
        assert(evs[s] == StreamEvent::Start(x));
        assert(x != id);
        assert(evs2[fwd(s)] == evs[s]);
        assert(evs2[fwd(e)] == evs[e]);
        assert(match evs2[fwd(s)] {
            StreamEvent::Start(id) => ivs2.contains_key(id) && ivs2[id].start == fwd(s),
            StreamEvent::End(id) => ivs2.contains_key(id) && ivs2[id].end == fwd(s),
            StreamEvent::Other => true,
        });
        assert(match evs2[fwd(e)] {
            StreamEvent::Start(id) => ivs2.contains_key(id) && ivs2[id].start == fwd(e),
            StreamEvent::End(id) => ivs2.contains_key(id) && ivs2[id].end == fwd(e),
            StreamEvent::Other => true,
        });
    }
    assert forall|x: usize| #[trigger] ivs2.contains_key(x) && x != id implies ivs.contains_key(x) by {
        let s = ivs2[x].start as int;
        assert(evs2[s] == StreamEvent::Start(x));
        assert(s != s0 && s != e0 + 1);
        assert(evs2[s] == evs[back(s)]);
        assert(match evs[back(s)] {
            StreamEvent::Start(id) => ivs.contains_key(id) && ivs[id].start == back(s),
            StreamEvent::End(id) => ivs.contains_key(id) && ivs[id].end == back(s),
            StreamEvent::Other => true,
        });
    }
    assert(ivs2 =~= expect);
}

/// The events of a sequence with an action inserted are its events with
/// the action's event inserted.
pub proof fn lemma_events_insert(acts: Seq<Action>, i: int, a: Action)
    requires
        0 <= i <= acts.len(),
    ensures
        events(acts.insert(i, a)) == events(acts).insert(i, event(a)),
{
    acts.insert_ensures(i, a);
    events(acts).insert_ensures(i, event(a));
    assert forall|k: int| 0 <= k < acts.len() + 1 implies #[trigger] events(acts.insert(i, a))[k]
        == events(acts).insert(i, event(a))[k] by {
        if k > i {
            assert(acts.insert(i, a)[(k - 1) + 1] == acts[k - 1]);
            assert(events(acts).insert(i, event(a))[(k - 1) + 1] == events(acts)[k - 1]);
        }
    }
    assert(events(acts.insert(i, a)) =~= events(acts).insert(i, event(a)));
}

/// Every stream id that the events of `acts` start or end is at most `last`.
pub open spec fn ids_at_most(acts: Seq<Action>, last: usize) -> bool {
    forall|k: int|
        0 <= k < acts.len() ==> match #[trigger] event(acts[k]) {
            StreamEvent::Start(x) => x <= last,
            StreamEvent::End(x) => x <= last,
            StreamEvent::Other => true,
        }
}

/// Adding a message to a stream of a sequence whose streams are well
/// formed keeps them well formed, each interval shifted past the message;
/// the message is on that stream and lies strictly inside its interval.
pub proof fn law_message_keeps_streams(acts: Seq<Action>, id: usize, payload: Payload, index: usize)
    requires
        acts.len() < usize::MAX,
        view_result(acts) matches Ok(ivs) && ivs.contains_key(id) && message_result(
            acts,
            ivs[id],
            payload,
            index,
        ) is Ok,
    ensures
        ({
            let ivs = view_result(acts)->Ok_0;
            let acts2 = message_result(acts, ivs[id], payload, index)->Ok_0;
            let ivs2 = shift_intervals(ivs, index);
            &&& view_result(acts2) == Ok::<Map<usize, StreamInterval>, ActionSequenceError>(ivs2)
            &&& ivs2[id].start < index < ivs2[id].end
            &&& acts2[index as int] matches Action::Message(m) && m.con == MessageConnection::Stream(
                CallId(id),
            )
        }),
{
    let ivs = view_result(acts)->Ok_0;
    assert(events(acts).len() == acts.len());
    lemma_intervals_describe_streams(events(acts));
    let st = ivs[id].start as int;
    assert(events(acts)[st] == event(acts[st]));
    let s = stream_at(acts, st)->Some_0;
    let msg = Action::Message(crate::action::Message { con: MessageConnection::Stream(s.id), payload });
    lemma_events_insert(acts, index as int, msg);
    lemma_insert_other_event(events(acts), index);
    acts.insert_ensures(index as int, msg);
}

/// Adding a unary call to a sequence whose streams are well formed keeps
/// them well formed, each interval shifted past the call.
pub proof fn law_unary_keeps_streams(acts: Seq<Action>, md: CSUnary, payload: Payload, index: usize)
    requires
        acts.len() < usize::MAX,
        view_result(acts) is Ok,
        unary_result(acts, md, payload, index) is Ok,
    ensures
        view_result(unary_result(acts, md, payload, index)->Ok_0) == Ok::<
            Map<usize, StreamInterval>,
            ActionSequenceError,
        >(shift_intervals(view_result(acts)->Ok_0, index)),
{
    let msg = Action::Message(crate::action::Message { con: MessageConnection::Unary(md), payload });
    assert(events(acts).len() == acts.len());
    lemma_events_insert(acts, index as int, msg);
    lemma_insert_other_event(events(acts), index);
}

/// Adding a unary call to a sequence that can be stored keeps it so: the
/// stored form gains the call's stored form at the same index, and every
/// other action is stored as before.
pub proof fn law_unary_keeps_stored_form(acts: Seq<Action>, md: CSUnary, payload: Payload, index: usize)
    requires
        acts.len() < usize::MAX,
        gen_poor_result(acts) is Ok,
        unary_result(acts, md, payload, index) is Ok,
    ensures
        gen_poor_result(unary_result(acts, md, payload, index)->Ok_0) == Ok::<
            Seq<PoorAction>,
            ActionSequenceError,
        >(
            gen_poor_result(acts)->Ok_0.insert(
                index as int,
                PoorAction::UnaryMessage { method: md.0.full_name@, payload: payload.bytes@ },
            ),
        ),
{
    let ivs = view_result(acts)->Ok_0;
    let msg = Action::Message(crate::action::Message { con: MessageConnection::Unary(md), payload });
    let acts2 = unary_result(acts, md, payload, index)->Ok_0;
    assert(acts2 == acts.insert(index as int, msg));
    law_unary_keeps_streams(acts, md, payload, index);
    let ivs2 = shift_intervals(ivs, index);
    assert(events(acts).len() == acts.len());
    lemma_intervals_describe_streams(events(acts));
    acts.insert_ensures(index as int, msg);
    let ss = streams_of(acts, ivs);
    let ss2 = streams_of(acts2, ivs2);
    assert forall|id: usize| #[trigger] ivs.contains_key(id) implies stream_at(
        acts2,
        ivs2[id].start as int,
    ) == stream_at(acts, ivs[id].start as int) && ivs2[id].start < acts2.len() by {
        let st = ivs[id].start as int;
        if st >= index {
            assert(acts2[st + 1] == acts[st]);
        } else {
            assert(acts2[st] == acts[st]);
        }
    }
    assert(ss2 =~= ss);
    lemma_storable_all_from(acts, ss);
    let ps = gen_poor_result(acts)->Ok_0;
    let unary = PoorAction::UnaryMessage { method: md.0.full_name@, payload: payload.bytes@ };
    assert forall|k: int| 0 <= k < acts2.len() implies crate::action::poor_view(
        #[trigger] acts2[k],
        ss2,
    ) == Ok::<PoorAction, ActionError>(ps.insert(index as int, unary)[k]) by {
        ps.insert_ensures(index as int, unary);
        if k < index {
            assert(acts2[k] == acts[k]);
        } else if k > index {
            assert(acts2[k] == acts[k - 1]);
        }
    }
    lemma_first_unstorable_none(acts2, ss2, 0);
    ps.insert_ensures(index as int, unary);
    assert(Seq::new(acts2.len(), |i: int| crate::action::poor_view(acts2[i], ss2)->Ok_0) =~= ps.insert(
        index as int,
        unary,
    ));
}

/// Every action of a sequence that can be stored has a stored form, and
/// the stored form lists them.
proof fn lemma_storable_all_from(acts: Seq<Action>, ss: Map<usize, &crate::action::Stream>)
    requires
        view_result(acts) matches Ok(ivs) && ss == streams_of(acts, ivs),
        gen_poor_result(acts) is Ok,
    ensures
        forall|k: int|
            0 <= k < acts.len() ==> crate::action::poor_view(#[trigger] acts[k], ss) == Ok::<
                PoorAction,
                ActionError,
            >(gen_poor_result(acts)->Ok_0[k]),
        gen_poor_result(acts)->Ok_0.len() == acts.len(),
{
    assert forall|k: int| 0 <= k < acts.len() implies crate::action::poor_view(
        #[trigger] acts[k],
        ss,
    ) == Ok::<PoorAction, ActionError>(gen_poor_result(acts)->Ok_0[k]) by {
        lemma_storable_all(acts, ss, 0, k);
    }
}

/// Adding a stream under the call id after `last`, to a sequence whose
/// streams are well formed and whose stream ids are all at most `last`,
/// keeps the streams well formed: the new stream runs from `start` to
/// `end + 1`, every other interval is shifted past the two inserted
/// actions, and every stream id is at most the new id.
pub proof fn law_add_stream_keeps_streams(
    acts: Seq<Action>,
    last: usize,
    ty: StreamType,
    start: usize,
    end: usize,
)
    requires
        acts.len() + 2 <= usize::MAX,
        last < usize::MAX,
        view_result(acts) is Ok,
        ids_at_most(acts, last),
        add_stream_result(acts, start_of(ty, CallId((last + 1) as usize)), CallId((last + 1) as usize), start, end) is Ok,
    ensures
        ({
            let id = (last + 1) as usize;
            let acts2 = add_stream_result(acts, start_of(ty, CallId(id)), CallId(id), start, end)->Ok_0;
            &&& view_result(acts2) == Ok::<Map<usize, StreamInterval>, ActionSequenceError>(
                add_interval(view_result(acts)->Ok_0, id, start, end),
            )
            &&& ids_at_most(acts2, id)
        }),
{
    let id = (last + 1) as usize;
    let end_action = Action::Stream(crate::action::StreamAction::End(CallId(id)));
    let start_action = start_of(ty, CallId(id));
    let mid = acts.insert(end as int, end_action);
    let acts2 = mid.insert(start as int, start_action);
    assert(events(acts).len() == acts.len());
    lemma_events_insert(acts, end as int, end_action);
    lemma_events_insert(mid, start as int, start_action);
    assert forall|k: int| 0 <= k < events(acts).len() implies #[trigger] events(acts)[k]
        != StreamEvent::Start(id) && events(acts)[k] != StreamEvent::End(id) by {
        assert(events(acts)[k] == event(acts[k]));
    }
    lemma_insert_fresh_stream(events(acts), id, start, end);
    acts.insert_ensures(end as int, end_action);
    mid.insert_ensures(start as int, start_action);
    assert forall|k: int| 0 <= k < acts2.len() implies match #[trigger] event(acts2[k]) {
        StreamEvent::Start(x) => x <= id,
        StreamEvent::End(x) => x <= id,
        StreamEvent::Other => true,
    } by {
        if k < start {
            assert(acts2[k] == mid[k]);
            assert(mid[k] == acts[k]);
        } else if k == start {
        } else if k <= end {
            assert(acts2[(k - 1) + 1] == mid[k - 1]);
            assert(mid[k - 1] == acts[k - 1]);
        } else if k == end + 1 {
            assert(acts2[(k - 1) + 1] == mid[k - 1]);
        } else {
            assert(acts2[(k - 1) + 1] == mid[k - 1]);
            assert(mid[(k - 2) + 1] == acts[k - 2]);
        }
    }
}

/// Every stream id of a sequence resolved from stored actions is at most
/// its last call id, so the next call id it allocates starts no stream
/// and ends none.
pub proof fn law_resolved_ids_at_most_last(
    pool: prost_reflect::DescriptorPool,
    poor: Seq<PAction>,
    seq: ActionSequence,
)
    requires
        resolves_sequence(pool, poor, seq),
    ensures
        ids_at_most(seq.actions@, seq.last_call_id.0),
{
    let acts = seq.actions@;
    let ivs = view_result(acts)->Ok_0;
    assert(acts.len() == seq.actions.len());
    assert(events(acts).len() == acts.len());
    lemma_intervals_describe_streams(events(acts));
    assert forall|k: int| 0 <= k < acts.len() implies match #[trigger] event(acts[k]) {
        StreamEvent::Start(x) => x <= seq.last_call_id.0,
        StreamEvent::End(x) => x <= seq.last_call_id.0,
        StreamEvent::Other => true,
    } by {
        assert(events(acts)[k] == event(acts[k]));
        assert(match events(acts)[k] {
            StreamEvent::Start(id) => ivs.contains_key(id) && ivs[id].start == k,
            StreamEvent::End(id) => ivs.contains_key(id) && ivs[id].end == k,
            StreamEvent::Other => true,
        });
    }
}

/// The kind of a stored action with its call ids and delay, without
/// names and payloads.
pub enum ActionKind {
    StartClient(usize),
    StartServer(usize),
    End(usize),
    StreamMessage(usize),
    UnaryMessage,
    Delay(u64),
}

pub open spec fn kind(p: PoorAction) -> ActionKind {
    match p {
        PoorAction::StartClient { id, .. } => ActionKind::StartClient(id),
        PoorAction::StartServer { id, .. } => ActionKind::StartServer(id),
        PoorAction::End { id } => ActionKind::End(id),
        PoorAction::StreamMessage { id, .. } => ActionKind::StreamMessage(id),
        PoorAction::UnaryMessage { .. } => ActionKind::UnaryMessage,
        PoorAction::Delay { delay } => ActionKind::Delay(delay),
    }
}

/// Every message on a stream among `poor` names a stream that `poor` starts.
pub open spec fn stream_messages_started(poor: Seq<PAction>) -> bool {
    forall|i: int|
        0 <= i < poor.len() ==> (#[trigger] poor[i]@ matches PoorAction::StreamMessage { id, .. }
            ==> exists|j: int| 0 <= j < poor.len() && poor_event(poor[j]@) == StreamEvent::Start(id))
}

proof fn lemma_first_unstorable_none(acts: Seq<Action>, ss: Map<usize, &crate::action::Stream>, i: int)
    requires
        0 <= i,
        forall|k: int| i <= k < acts.len() ==> crate::action::poor_view(#[trigger] acts[k], ss) is Ok,
    ensures
        first_unstorable_from(acts, ss, i) is None,
    decreases acts.len() - i,
{
    if i < acts.len() {
        lemma_first_unstorable_none(acts, ss, i + 1);
    }
}

/// The full name of the method that looking up `name` in `pool` finds.
pub open spec fn found_full_name(pool: prost_reflect::DescriptorPool, name: Seq<char>) -> Seq<char> {
    pool_method(pool, name)->Some_0.1
}

/// `bytes` is an encoding of the message that `stored` decodes to as the
/// input type of the method that looking up `name` in `pool` finds.
pub open spec fn reencodes(
    pool: prost_reflect::DescriptorPool,
    name: Seq<char>,
    stored: Seq<u8>,
    bytes: Seq<u8>,
) -> bool {
    encodes(pool, pool_method(pool, name)->Some_0.2, stored, bytes)
}

/// `q` is what storing the resolution of `p` in `pool` can give: the kind,
/// ids and delay of `p`; for a start or a unary call, the full name of the
/// method that looking up `p`'s name finds; for a payload, an encoding of
/// the message that `p`'s payload decodes to.
pub open spec fn stored_again(pool: prost_reflect::DescriptorPool, q: PoorAction, p: PoorAction) -> bool {
    &&& kind(q) == kind(p)
    &&& match (q, p) {
        (
            PoorAction::StartClient { method: a, .. },
            PoorAction::StartClient { method: b, .. },
        ) => a == found_full_name(pool, b),
        (
            PoorAction::StartServer { method: a, payload: x, .. },
            PoorAction::StartServer { method: b, payload: y, .. },
        ) => a == found_full_name(pool, b) && reencodes(pool, b, y, x),
        (
            PoorAction::StreamMessage { payload: x, .. },
            PoorAction::StreamMessage { method: b, payload: y, .. },
        ) => reencodes(pool, b, y, x),
        (
            PoorAction::UnaryMessage { method: a, payload: x },
            PoorAction::UnaryMessage { method: b, payload: y },
        ) => a == found_full_name(pool, b) && reencodes(pool, b, y, x),
        _ => true,
    }
}

/// The stream id and method name of a stored stream start.
pub open spec fn start_of_stream(q: PoorAction) -> Option<(usize, Seq<char>)> {
    match q {
        PoorAction::StartClient { id, method } => Some((id, method)),
        PoorAction::StartServer { id, method, .. } => Some((id, method)),
        _ => None,
    }
}

/// Storing a sequence resolved from stored actions succeeds, provided
/// every message on a stream names a stream that the actions start. Every
/// action keeps its kind, call ids and delay; starts and unary calls name
/// the full names of the methods found; payloads are encodings of the
/// messages that the stored payloads decode to; a message on a stream
/// names the method of the start of its stream.
pub proof fn law_store_after_resolve(
    pool: prost_reflect::DescriptorPool,
    poor: Seq<PAction>,
    seq: ActionSequence,
)
    requires
        resolves_sequence(pool, poor, seq),
        stream_messages_started(poor),
    ensures
        gen_poor_result(seq.actions@) matches Ok(ps) && ps.len() == poor.len() && (forall|i: int|
            0 <= i < poor.len() ==> stored_again(pool, #[trigger] ps[i], poor[i]@)) && (forall|
            i: int,
        |
            0 <= i < poor.len() ==> (#[trigger] ps[i] matches PoorAction::StreamMessage {
                id,
                method,
                ..
            } ==> exists|j: int| 0 <= j < poor.len() && start_of_stream(ps[j]) == Some((id, method)))),
{
    let acts = seq.actions@;
    let ivs = view_result(acts)->Ok_0;
    assert(acts.len() == seq.actions.len());
    assert(events(acts).len() == acts.len());
    lemma_intervals_describe_streams(events(acts));
    assert forall|k: int| 0 <= k < acts.len() implies #[trigger] events(acts)[k] == poor_events(
        poor,
    )[k] by {
        lemma_resolved_event(pool, acts[k], poor[k]@);
    }
    let ss = streams_of(acts, ivs);
    assert forall|x: usize| #[trigger] ivs.contains_key(x) implies ss.contains_key(x) by {
        assert(events(acts)[ivs[x].start as int] == event(acts[ivs[x].start as int]));
    }
    assert forall|k: int| 0 <= k < acts.len() implies crate::action::poor_view(
        #[trigger] acts[k],
        ss,
    ) is Ok && kind(crate::action::poor_view(acts[k], ss)->Ok_0) == kind(poor[k]@) by {
        if let PoorAction::StreamMessage { id, .. } = poor[k]@ {
            assert(poor[k]@ matches PoorAction::StreamMessage { id, .. });
            let j = choose|j: int|
                0 <= j < poor.len() && poor_event(poor[j]@) == StreamEvent::Start(id);
            assert(events(acts)[j] == poor_events(poor)[j]);
            assert(match events(acts)[j] {
                StreamEvent::Start(id) => ivs.contains_key(id) && ivs[id].start == j,
                StreamEvent::End(id) => ivs.contains_key(id) && ivs[id].end == j,
                StreamEvent::Other => true,
            });
        }
    }
    lemma_first_unstorable_none(acts, ss, 0);
    let ps = gen_poor_result(acts)->Ok_0;
    assert forall|i: int| 0 <= i < poor.len() implies stored_again(pool, #[trigger] ps[i], poor[i]@) by {
        assert(ps[i] == crate::action::poor_view(acts[i], ss)->Ok_0);
        assert(crate::action::resolved_as(pool, acts[i], poor[i]@));
    }
    assert forall|i: int| 0 <= i < poor.len() implies (#[trigger] ps[i] matches PoorAction::StreamMessage {
        id,
        method,
        ..
    } ==> exists|j: int| 0 <= j < poor.len() && start_of_stream(ps[j]) == Some((id, method))) by {
        assert(ps[i] == crate::action::poor_view(acts[i], ss)->Ok_0);
        if let PoorAction::StreamMessage { id, method, .. } = ps[i] {
            assert(crate::action::resolved_as(pool, acts[i], poor[i]@));
            assert(ss.contains_key(id));
            let j = ivs[id].start as int;
            assert(ps[j] == crate::action::poor_view(acts[j], ss)->Ok_0);
            assert(events(acts)[j] == event(acts[j]));
            assert(start_of_stream(ps[j]) == Some((id, method)));
        }
    }
}

/// `md` is a method of `pool`: it belongs to the pool, and looking up its
/// full name there finds it.
pub open spec fn from_pool(pool: prost_reflect::DescriptorPool, md: Method) -> bool {
    md.pool == pool && pool_method(pool, md.full_name@) == Some(method_tuple(md))
}

/// `payload` has the input type of `md` in `pool`, and its bytes decode as
/// that type.
pub open spec fn decodes_as_input(pool: prost_reflect::DescriptorPool, md: Method, payload: Payload) -> bool {
    payload.pool == pool && payload.message_type@ == md.input@ && decode_outcome(pool, md.input@, payload.bytes@) is Some
}

/// The action `a`, in a sequence whose streams by id are `streams`, is
/// made of `pool`: its methods are methods of the pool, of the streaming
/// kind that the action asks for, and its payload decodes as its method's
/// input type (for a message on a stream, that of the stream's method).
pub open spec fn action_from_pool(
    pool: prost_reflect::DescriptorPool,
    a: Action,
    streams: Map<usize, &crate::action::Stream>,
) -> bool {
    match a {
        Action::Stream(StreamAction::Start(s)) => match s.ty {
            StreamType::Client(c) => from_pool(pool, c.0) && c.0.client_streaming,
            StreamType::Server(v) => from_pool(pool, v.md) && v.md.server_streaming
                && decodes_as_input(pool, v.md, v.payload),
        },
        Action::Stream(StreamAction::End(_)) => true,
        Action::Message(m) => match m.con {
            MessageConnection::Stream(id) => streams.contains_key(id.0) && method_of(
                streams[id.0].ty,
            ).client_streaming && decodes_as_input(pool, method_of(streams[id.0].ty), m.payload),
            MessageConnection::Unary(u) => from_pool(pool, u.0) && !u.0.client_streaming
                && !u.0.server_streaming && decodes_as_input(pool, u.0, m.payload),
        },
        Action::Delay(_) => true,
    }
}

/// `b` agrees with `a` as a resolution of the stored form of `a` in `pool`
/// can: the same kind of action with the same ids and delay, methods of
/// the same pool with the same names, input types and streaming kinds,
/// payloads of the same type in the same pool whose bytes are an encoding of the message that `a`'s bytes
/// decode to.
pub open spec fn resolved_again(pool: prost_reflect::DescriptorPool, b: Action, a: Action) -> bool {
    match (a, b) {
        (Action::Stream(StreamAction::Start(s)), Action::Stream(StreamAction::Start(t))) => t.id
            == s.id && match (s.ty, t.ty) {
            (StreamType::Client(c), StreamType::Client(d)) => method_tuple(d.0) == method_tuple(c.0)
                && d.0.pool == c.0.pool,
            (StreamType::Server(v), StreamType::Server(w)) => method_tuple(w.md) == method_tuple(v.md)
                && w.md.pool == v.md.pool && w.payload.pool == v.payload.pool
                && w.payload.message_type@ == v.payload.message_type@ && encodes(
                pool,
                v.payload.message_type@,
                v.payload.bytes@,
                w.payload.bytes@,
            ),
            _ => false,
        },
        (Action::Stream(StreamAction::End(i)), Action::Stream(StreamAction::End(j))) => i == j,
        (Action::Message(m), Action::Message(n)) => (match (m.con, n.con) {
            (MessageConnection::Stream(i), MessageConnection::Stream(j)) => i == j,
            (MessageConnection::Unary(u), MessageConnection::Unary(v)) => method_tuple(v.0)
                == method_tuple(u.0) && v.0.pool == u.0.pool,
            _ => false,
        }) && n.payload.pool == m.payload.pool && n.payload.message_type@ == m.payload.message_type@ && encodes(
            pool,
            m.payload.message_type@,
            m.payload.bytes@,
            n.payload.bytes@,
        ),
        (Action::Delay(d), Action::Delay(e)) => d == e,
        _ => false,
    }
}

proof fn lemma_storable_all(acts: Seq<Action>, ss: Map<usize, &crate::action::Stream>, i: int, k: int)
    requires
        0 <= i <= k < acts.len(),
        first_unstorable_from(acts, ss, i) is None,
    ensures
        crate::action::poor_view(acts[k], ss) is Ok,
    decreases k - i,
{
    if i < k {
        lemma_storable_all(acts, ss, i + 1, k);
    }
}

proof fn lemma_first_unresolved_none(
    pool: prost_reflect::DescriptorPool,
    poor: Seq<PAction>,
    i: int,
)
    requires
        0 <= i,
        forall|k: int|
            i <= k < poor.len() ==> crate::action::resolve_outcome(pool, #[trigger] poor[k]@) is Ok,
    ensures
        first_unresolved_from(pool, poor, i) is None,
    decreases poor.len() - i,
{
    if i < poor.len() {
        lemma_first_unresolved_none(pool, poor, i + 1);
    }
}

/// Resolving the stored form of a sequence made of a pool succeeds, and
/// gives the sequence back: every action agrees with the one it was
/// stored from (the same kind, ids, delay and methods; payloads that are
/// encodings of the messages that the original payloads decode to), and
/// the last call id is the sequence's largest stream id.
pub proof fn law_resolve_after_store(
    pool: prost_reflect::DescriptorPool,
    seq: ActionSequence,
    poor: Seq<PAction>,
)
    requires
        gen_poor_result(seq.actions@) matches Ok(ps) && ps == poor.map_values(|p: PAction| p@),
        forall|k: int|
            0 <= k < seq.actions@.len() ==> action_from_pool(
                pool,
                #[trigger] seq.actions@[k],
                streams_of(seq.actions@, view_result(seq.actions@)->Ok_0),
            ),
    ensures
        sequence_safe(pool, poor),
        sequence_outcome(pool, poor) is Ok,
        forall|seq2: ActionSequence| #[trigger]
            resolves_sequence(pool, poor, seq2) ==> seq2.actions@.len() == seq.actions@.len()
                && (forall|k: int|
                0 <= k < seq.actions@.len() ==> resolved_again(
                    pool,
                    #[trigger] seq2.actions@[k],
                    seq.actions@[k],
                )) && is_last_id(view_result(seq.actions@)->Ok_0, seq2.last_call_id.0),
{
    let acts = seq.actions@;
    let ivs = view_result(acts)->Ok_0;
    let ss = streams_of(acts, ivs);
    let ps = gen_poor_result(acts)->Ok_0;
    assert(acts.len() == seq.actions.len());
    assert(events(acts).len() == acts.len());
    lemma_intervals_describe_streams(events(acts));
    assert(ps.len() == acts.len());
    assert(poor.len() == acts.len());
    assert forall|k: int| 0 <= k < acts.len() implies #[trigger] poor[k]@ == crate::action::poor_view(
        acts[k],
        ss,
    )->Ok_0 && crate::action::poor_view(acts[k], ss) is Ok by {
        lemma_storable_all(acts, ss, 0, k);
        assert(poor.map_values(|p: PAction| p@)[k] == poor[k]@);
        assert(ps[k] == poor[k]@);
    }
    assert forall|k: int| 0 <= k < acts.len() implies #[trigger] events(acts)[k] == poor_events(
        poor,
    )[k] && crate::action::resolve_outcome(pool, poor[k]@) is Ok && crate::action::resolve_safe(
        pool,
        poor[k]@,
    ) by {
        assert(poor[k]@ == crate::action::poor_view(acts[k], ss)->Ok_0);
        assert(action_from_pool(pool, acts[k], ss));
        if let Action::Message(m) = acts[k] {
            if let MessageConnection::Stream(id) = m.con {
                let j = ivs[id.0].start as int;
                assert(events(acts)[j] == event(acts[j]));
                assert(action_from_pool(pool, acts[j], ss));
            }
        }
    }
    assert(events(acts) =~= poor_events(poor));
    lemma_first_unresolved_none(pool, poor, 0);
    assert forall|seq2: ActionSequence| #[trigger]
        resolves_sequence(pool, poor, seq2) implies seq2.actions@.len() == acts.len() && (forall|
        k: int,
    |
        0 <= k < acts.len() ==> resolved_again(
            pool,
            #[trigger] seq2.actions@[k],
            acts[k],
        )) && is_last_id(ivs, seq2.last_call_id.0) by {
        assert forall|k: int| 0 <= k < acts.len() implies resolved_again(
            pool,
            #[trigger] seq2.actions@[k],
            acts[k],
        ) by {
            assert(poor[k]@ == crate::action::poor_view(acts[k], ss)->Ok_0);
            assert(crate::action::resolved_as(pool, seq2.actions@[k], poor[k]@));
            assert(action_from_pool(pool, acts[k], ss));
            if let Action::Message(m) = acts[k] {
                if let MessageConnection::Stream(id) = m.con {
                    let j = ivs[id.0].start as int;
                    assert(events(acts)[j] == event(acts[j]));
                    assert(action_from_pool(pool, acts[j], ss));
                }
            }
        }
    }
}

/// `s` holds no '.'.
pub open spec fn dotless(s: Seq<char>) -> bool {
    forall|i: int| 0 <= i < s.len() ==> s[i] != '.'
}

proof fn lemma_last_dot_of_join(k: Seq<char>, m: Seq<char>, n: nat)
    requires
        dotless(m),
        k.len() + 1 <= n <= k.len() + 1 + m.len(),
    ensures
        last_dot_in(k + "."@ + m, n) == Some(k.len()),
    decreases n,
{
    let s = k + "."@ + m;
    reveal_strlit(".");
    assert("."@.len() == 1 && "."@[0] == '.');
    assert(s.len() == k.len() + 1 + m.len());
    if n > k.len() + 1 {
        assert(s[n - 1] == m[n - 1 - k.len() - 1]);
        lemma_last_dot_of_join(k, m, (n - 1) as nat);
    } else {
        assert(s[n - 1] == '.');
    }
}

/// A method that looking up a name finds is found again by its own full
/// name, where that name splits back as it was made: the method's name
/// holds no '.', and the service's full name is not empty and does not
/// begin with '.'.
pub proof fn law_found_by_full_name(pool: prost_reflect::DescriptorPool, name: Seq<char>, md: Method)
    requires
        pool_method(pool, name) == Some(method_tuple(md)),
        resolves(md, name),
        dotless(md.name@),
        split_last_dot(name) matches Some((service, _)) && lookup_name(service).len() > 0
            && lookup_name(service)[0] != '.',
    ensures
        pool_method(pool, md.full_name@) == Some(method_tuple(md)),
{
    let (service, method) = split_last_dot(name)->Some_0;
    let k = lookup_name(service);
    let full = k + "."@ + md.name@;
    reveal_strlit(".");
    assert("."@.len() == 1 && "."@[0] == '.');
    assert(full.len() == k.len() + 1 + md.name@.len());
    assert(md.full_name@ == full);
    lemma_last_dot_of_join(k, md.name@, full.len());
    assert(full.subrange(0, k.len() as int) =~= k);
    assert(full.subrange(k.len() + 1int, full.len() as int) =~= md.name@);
    assert(lookup_name(k) == k);
}

// ---------------------------------------------------------------------
// When adding to a sequence succeeds
// ---------------------------------------------------------------------

/// Adding a message to the stream `id` of a sequence whose streams are
/// well formed: the action at the start of the stream's interval starts
/// that stream. The message is added exactly where the stream is a client
/// stream, the payload has the request type of the stream's method, and
/// the index lies after the start and no later than the end (any such
/// index, the one right after the start included); it is then inserted
/// at that index, on that stream. Otherwise the error says which of these
/// failed first.
pub proof fn law_message_succeeds_inside_interval(acts: Seq<Action>, id: usize, payload: Payload, index: usize)
    requires
        acts.len() <= usize::MAX,
        view_result(acts) matches Ok(ivs) && ivs.contains_key(id),
    ensures
        ({
            let iv = view_result(acts)->Ok_0[id];
            let r = message_result(acts, iv, payload, index);
            acts[iv.start as int] matches Action::Stream(StreamAction::Start(s)) && s.id.0 == id && iv.start
                < iv.end < acts.len() && (s.ty is Client && same_type(method_of(s.ty), payload)
                && iv.start < index <= iv.end ==> r == Ok::<Seq<Action>, ActionError>(
                acts.insert(
                    index as int,
                    Action::Message(Message { con: MessageConnection::Stream(CallId(id)), payload }),
                ),
            )) && (!(s.ty is Client) ==> r == Err::<Seq<Action>, ActionError>(
                ActionError::StreamIsNotClient,
            )) && (s.ty is Client && !same_type(method_of(s.ty), payload) ==> r == Err::<
                Seq<Action>,
                ActionError,
            >(ActionError::MessageCallDescriptorMismatch)) && (s.ty is Client && same_type(
                method_of(s.ty),
                payload,
            ) && !(iv.start < index <= iv.end) ==> r == Err::<Seq<Action>, ActionError>(
                ActionError::InvalidMessageIdx,
            ))
        }),
{
    let ivs = view_result(acts)->Ok_0;
    assert(events(acts).len() == acts.len());
    lemma_intervals_describe_streams(events(acts));
    let st = ivs[id].start as int;
    assert(events(acts)[st] == event(acts[st]));
}

/// Adding a unary call: where the payload has the request type of the
/// method, it succeeds at every index below the sequence's length,
/// whatever action stands there, and inserts the call at that index;
/// beyond the sequence it fails with `InvalidMessageIdx`. A payload of
/// another type fails with `MessageCallDescriptorMismatch`.
pub proof fn law_unary_succeeds_at_every_index(acts: Seq<Action>, md: CSUnary, payload: Payload, index: usize)
    ensures
        same_type(md.0, payload) && index < acts.len() ==> unary_result(acts, md, payload, index)
            == Ok::<Seq<Action>, ActionError>(
            acts.insert(
                index as int,
                Action::Message(Message { con: MessageConnection::Unary(md), payload }),
            ),
        ),
        same_type(md.0, payload) && index >= acts.len() ==> unary_result(acts, md, payload, index)
            == Err::<Seq<Action>, ActionError>(ActionError::InvalidMessageIdx),
        !same_type(md.0, payload) ==> unary_result(acts, md, payload, index) == Err::<
            Seq<Action>,
            ActionError,
        >(ActionError::MessageCallDescriptorMismatch),
{
}

/// Adding a stream: for every start action, of a client or a server
/// stream, whatever its request, the stream is added exactly where
/// `start < end < len`; its end is then inserted at `end` and its start at
/// `start` (into the sequence as it was), and otherwise the error is
/// `InvalidStreamInterval`.
pub proof fn law_add_stream_succeeds_inside_sequence(
    acts: Seq<Action>,
    start_action: Action,
    id: CallId,
    start: usize,
    end: usize,
)
    ensures
        start < end < acts.len() ==> add_stream_result(acts, start_action, id, start, end) == Ok::<
            Seq<Action>,
            ActionError,
        >(
            acts.insert(end as int, Action::Stream(StreamAction::End(id))).insert(
                start as int,
                start_action,
            ),
        ),
        !(start < end < acts.len()) ==> add_stream_result(acts, start_action, id, start, end)
            == Err::<Seq<Action>, ActionError>(ActionError::InvalidStreamInterval),
{
}

/// The kinds of a stream: a server stream is made of every
/// server-streaming method with a request of its input type, whatever the
/// request's bytes; a client stream of every client-streaming method; a
/// unary call of every method that streams neither way. Any other method
/// fails with `InvalidMethod`, and a server stream's request of another
/// type with `MessageCallDescriptorMismatch`.
pub proof fn law_stream_kinds(md: Method, payload: Payload)
    ensures
        md.server_streaming && same_type(md, payload) ==> sstream_result(md, payload) == Ok::<
            SStream,
            ActionError,
        >(SStream { md, payload }),
        !md.server_streaming ==> sstream_result(md, payload) == Err::<SStream, ActionError>(
            ActionError::InvalidMethod,
        ),
        md.server_streaming && !same_type(md, payload) ==> sstream_result(md, payload) == Err::<
            SStream,
            ActionError,
        >(ActionError::MessageCallDescriptorMismatch),
        md.client_streaming ==> cstream_result(md) == Ok::<CStream, ActionError>(CStream(md)),
        !md.client_streaming ==> cstream_result(md) == Err::<CStream, ActionError>(
            ActionError::InvalidMethod,
        ),
        !md.client_streaming && !md.server_streaming ==> csunary_result(md) == Ok::<
            CSUnary,
            ActionError,
        >(CSUnary(md)),
        md.client_streaming || md.server_streaming ==> csunary_result(md) == Err::<
            CSUnary,
            ActionError,
        >(ActionError::InvalidMethod),
{
}

proof fn lemma_first_unended_is_first(evs: Seq<StreamEvent>, m: Map<usize, (usize, Option<usize>)>, i: int)
    requires
        0 <= i,
    ensures
        first_unended_from(evs, m, i) matches Some(j) ==> i <= j < evs.len() && unended_at(evs, m, j)
            && forall|k: int| i <= k < j ==> !unended_at(evs, m, k),
    decreases evs.len() - i,
{
    if i < evs.len() && !unended_at(evs, m, i) {
        lemma_first_unended_is_first(evs, m, i + 1);
    }
}

/// The scan never reports a missing end: that is found after it.
proof fn lemma_scan_error_kind(evs: Seq<StreamEvent>, n: nat)
    requires
        n <= evs.len(),
    ensures
        scan(evs, n) matches Err(e) ==> e.kind != ActionError::MissingStreamEnd,
    decreases n,
{
    if n > 0 {
        lemma_scan_error_kind(evs, (n - 1) as nat);
    }
}

/// Where the fault of a sequence's streams is a missing end, its index
/// starts a stream that no event ends, and every stream started before it
/// is ended somewhere: it is the first start of a stream never ended.
pub proof fn law_missing_end_is_first_unended(evs: Seq<StreamEvent>)
    requires
        evs.len() <= usize::MAX,
        intervals_result(evs) matches Err(e) && e.kind == ActionError::MissingStreamEnd,
    ensures
        ({
            let j = intervals_result(evs)->Err_0.index as int;
            &&& 0 <= j < evs.len()
            &&& evs[j] matches StreamEvent::Start(x) && forall|k: int|
                0 <= k < evs.len() ==> #[trigger] evs[k] != StreamEvent::End(x)
            &&& forall|i: int|
                0 <= i < j && #[trigger] evs[i] is Start ==> exists|k: int|
                    0 <= k < evs.len() && evs[k] == StreamEvent::End(evs[i]->Start_0)
        }),
{
    lemma_scan_error_kind(evs, evs.len());
    lemma_scan_records(evs, evs.len());
    let m = scan(evs, evs.len())->Ok_0;
    lemma_first_unended_is_first(evs, m, 0);
    let j = first_unended_from(evs, m, 0)->Some_0;
    assert(intervals_result(evs)->Err_0.index as int == j);
    let x = evs[j]->Start_0;
    assert forall|k: int| 0 <= k < evs.len() implies #[trigger] evs[k] != StreamEvent::End(x) by {
        assert(match evs[k] {
            StreamEvent::Start(id) => m.contains_key(id) && m[id].0 == k,
            StreamEvent::End(id) => m.contains_key(id) && m[id].1 == Some(k as usize),
            StreamEvent::Other => true,
        });
    }
    assert forall|i: int| 0 <= i < j && #[trigger] evs[i] is Start implies exists|k: int|
        0 <= k < evs.len() && evs[k] == StreamEvent::End(evs[i]->Start_0) by {
        assert(!unended_at(evs, m, i));
        assert(match evs[i] {
            StreamEvent::Start(id) => m.contains_key(id) && m[id].0 == i,
            StreamEvent::End(id) => m.contains_key(id) && m[id].1 == Some(i as usize),
            StreamEvent::Other => true,
        });
        let y = evs[i]->Start_0;
        let e = m[y].1->Some_0 as int;
        assert(evs[e] == StreamEvent::End(y));
    }
}

/// The fault, if any, of the event at `k` given the events before it: a
/// start of a stream started before, an end of a stream not started
/// before, or an end of a stream ended before.
pub open spec fn fault_at(evs: Seq<StreamEvent>, k: int) -> Option<ActionError> {
    match evs[k] {
        StreamEvent::Start(x) => if exists|i: int| 0 <= i < k && evs[i] == StreamEvent::Start(x) {
            Some(ActionError::DuplicateStreamStart)
        } else {
            None
        },
        StreamEvent::End(x) => if !exists|i: int| 0 <= i < k && evs[i] == StreamEvent::Start(x) {
            Some(ActionError::StreamEndWithoutStart)
        } else if exists|i: int| 0 <= i < k && evs[i] == StreamEvent::End(x) {
            Some(ActionError::DuplicateStreamEnd)
        } else {
            None
        },
        StreamEvent::Other => None,
    }
}

proof fn lemma_scan_first_fault(evs: Seq<StreamEvent>, n: nat)
    requires
        n <= evs.len(),
        evs.len() <= usize::MAX,
    ensures
        scan(evs, n) is Ok ==> forall|k: int| 0 <= k < n ==> #[trigger] fault_at(evs, k) is None,
        scan(evs, n) matches Err(e) ==> e.index < n && fault_at(evs, e.index as int) == Some(e.kind)
            && forall|k: int| 0 <= k < e.index ==> #[trigger] fault_at(evs, k) is None,
    decreases n,
{
    if n > 0 {
        let k = (n - 1) as nat;
        lemma_scan_first_fault(evs, k);
        if scan(evs, k) is Ok {
            lemma_scan_records(evs, k);
            let m = scan(evs, k)->Ok_0;
            match evs[k as int] {
                StreamEvent::Start(x) => {
                    if m.contains_key(x) {
                        assert(evs[m[x].0 as int] == StreamEvent::Start(x));
                    } else {
                        assert forall|i: int| 0 <= i < k implies evs[i] != StreamEvent::Start(x) by {
                            assert(match evs[i] {
                                StreamEvent::Start(id) => m.contains_key(id) && m[id].0 == i,
                                StreamEvent::End(id) => m.contains_key(id) && m[id].1 == Some(i as usize),
                                StreamEvent::Other => true,
                            });
                        }
                    }
                },
                StreamEvent::End(x) => {
                    if m.contains_key(x) {
                        assert(evs[m[x].0 as int] == StreamEvent::Start(x));
                        if m[x].1 is Some {
                            assert(evs[m[x].1->Some_0 as int] == StreamEvent::End(x));
                        } else {
                            assert forall|i: int| 0 <= i < k implies evs[i] != StreamEvent::End(x) by {
                                assert(match evs[i] {
                                    StreamEvent::Start(id) => m.contains_key(id) && m[id].0 == i,
                                    StreamEvent::End(id) => m.contains_key(id) && m[id].1 == Some(i as usize),
                                    StreamEvent::Other => true,
                                });
                            }
                        }
                    } else {
                        assert forall|i: int| 0 <= i < k implies evs[i] != StreamEvent::Start(x) by {
                            assert(match evs[i] {
                                StreamEvent::Start(id) => m.contains_key(id) && m[id].0 == i,
                                StreamEvent::End(id) => m.contains_key(id) && m[id].1 == Some(i as usize),
                                StreamEvent::Other => true,
                            });
                        }
                    }
                },
                StreamEvent::Other => {},
            }
        }
    }
}

/// Where the streams of a sequence have a fault other than a missing end,
/// the error is at the first event with a fault given the events before
/// it, and names that fault; where any event has such a fault, that is
/// the error reported.
pub proof fn law_first_fault_is_reported(evs: Seq<StreamEvent>)
    requires
        evs.len() <= usize::MAX,
    ensures
        ({
            let r = intervals_result(evs);
            r is Err && r->Err_0.kind != ActionError::MissingStreamEnd ==> r->Err_0.index
                < evs.len() && fault_at(evs, r->Err_0.index as int) == Some(r->Err_0.kind)
                && forall|k: int| 0 <= k < r->Err_0.index ==> #[trigger] fault_at(evs, k) is None
        }),
        (exists|k: int| 0 <= k < evs.len() && #[trigger] fault_at(evs, k) is Some) ==> (
        intervals_result(evs) is Err && intervals_result(evs)->Err_0.kind
            != ActionError::MissingStreamEnd),
{
    lemma_scan_first_fault(evs, evs.len());
    lemma_scan_error_kind(evs, evs.len());
}

/// When a stored action resolves: an end or a delay always; a start of a
/// client stream where its method is found and streams from the client; a
/// start of a server stream where its method is found, streams from the
/// server and its request decodes as the method's input type, whatever
/// its bytes; a message on a stream where its method is found, streams
/// from the client and the payload decodes; a unary call where its method
/// is found, streams neither way and the payload decodes. A method that is
/// not found is a `ProtoMismatch`.
pub proof fn law_when_stored_actions_resolve(pool: prost_reflect::DescriptorPool, p: PoorAction)
    ensures
        (p is End || p is Delay) ==> resolve_outcome(pool, p) is Ok,
        p matches PoorAction::StartClient { method, .. } ==> (resolve_outcome(pool, p) is Ok <==> (
        pool_method(pool, method) matches Some(t) && t.3)),
        p matches PoorAction::StartServer { method, payload, .. } ==> (resolve_outcome(pool, p) is Ok
            <==> (pool_method(pool, method) matches Some(t) && t.4 && decode_outcome(
            pool,
            t.2,
            payload,
        ) is Some)),
        p matches PoorAction::StreamMessage { method, payload, .. } ==> (resolve_outcome(pool, p) is Ok
            <==> (pool_method(pool, method) matches Some(t) && t.3 && decode_outcome(
            pool,
            t.2,
            payload,
        ) is Some)),
        p matches PoorAction::UnaryMessage { method, payload } ==> (resolve_outcome(pool, p) is Ok
            <==> (pool_method(pool, method) matches Some(t) && !t.3 && !t.4 && decode_outcome(
            pool,
            t.2,
            payload,
        ) is Some)),
        match p {
            PoorAction::StartClient { method, .. } => pool_method(pool, method) is None,
            PoorAction::StartServer { method, .. } => pool_method(pool, method) is None,
            PoorAction::StreamMessage { method, .. } => pool_method(pool, method) is None,
            PoorAction::UnaryMessage { method, .. } => pool_method(pool, method) is None,
            _ => false,
        } ==> resolve_outcome(pool, p) == Err::<(), ActionError>(ActionError::ProtoMismatch),
{
}

} // verus!
