use vstd::prelude::*;

use crate::model::{EventModel, time_ordered};

verus! {

broadcast use vstd::seq_lib::group_to_multiset_ensures;

/// One stored event: its timestamp and one item per user field.
pub struct EventRecord {
    pub timestamp: u64,
    pub items: Vec<u64>,
}

impl View for EventRecord {
    type V = EventModel;

    open spec fn view(&self) -> EventModel {
        (self.timestamp, self.items@)
    }
}

/// The models of a sequence of stored events.
pub open spec fn events_view(v: Seq<EventRecord>) -> Seq<EventModel> {
    v.map_values(|e: EventRecord| e@)
}

/// `e` placed after every event of `s` whose timestamp is at most its own,
/// counting from the end: in a time-ordered `s`, after all of its ties.
pub open spec fn insert_by_time(s: Seq<EventModel>, e: EventModel) -> Seq<EventModel>
    decreases s.len(),
{
    if s.len() == 0 {
        seq![e]
    } else if s.last().0 <= e.0 {
        s.push(e)
    } else {
        insert_by_time(s.drop_last(), e).push(s.last())
    }
}

/// Stable insertion sort by timestamp: events with equal timestamps keep
/// the order in which they came.
pub open spec fn sort_by_time(s: Seq<EventModel>) -> Seq<EventModel>
    decreases s.len(),
{
    if s.len() == 0 {
        s
    } else {
        insert_by_time(sort_by_time(s.drop_last()), s.last())
    }
}

/// Inserting by time puts the event at the first place, from the end, after
/// an event that is not later.
pub proof fn lemma_insert_at(s: Seq<EventModel>, e: EventModel, j: int)
    requires
        0 <= j <= s.len(),
        j == 0 || s[j - 1].0 <= e.0,
        forall|i: int| j <= i < s.len() ==> s[i].0 > e.0,
    ensures
        insert_by_time(s, e) == s.insert(j, e),
    decreases s.len(),
{
    if s.len() == 0 {
        assert(s.insert(j, e) =~= seq![e]);
    } else if j == s.len() {
        assert(s.insert(j, e) =~= s.push(e));
    } else {
        lemma_insert_at(s.drop_last(), e, j);
        assert(s.insert(j, e) =~= s.drop_last().insert(j, e).push(s.last()));
    }
}

/// The place, counting from the end, after the last event that is not later than `e`.
pub proof fn slot_for(s: Seq<EventModel>, e: EventModel) -> (j: int)
    ensures
        0 <= j <= s.len(),
        j == 0 || s[j - 1].0 <= e.0,
        forall|i: int| j <= i < s.len() ==> s[i].0 > e.0,
    decreases s.len(),
{
    if s.len() == 0 || s.last().0 <= e.0 {
        s.len() as int
    } else {
        let j = slot_for(s.drop_last(), e);
        assert forall|i: int| j <= i < s.len() implies s[i].0 > e.0 by {
            if i < s.len() - 1 {
                assert(s[i] == s.drop_last()[i]);
            }
        }
        j
    }
}

/// Inserting by time keeps a sequence time-ordered and adds exactly the event.
pub proof fn lemma_insert_by_time(s: Seq<EventModel>, e: EventModel)
    requires
        time_ordered(s),
    ensures
        time_ordered(insert_by_time(s, e)),
        insert_by_time(s, e).to_multiset() == s.to_multiset().insert(e),
        insert_by_time(s, e).len() == s.len() + 1,
    decreases s.len(),
{
    let j = slot_for(s, e);
    lemma_insert_at(s, e, j);
    vstd::seq_lib::to_multiset_insert(s, j, e);
    let r = s.insert(j, e);
    assert forall|a: int, b: int| 0 <= a <= b < r.len() implies r[a].0 <= r[b].0 by {
        if a < j && b > j {
            assert(r[b] == s[b - 1]);
        } else if a == j && b > j {
            assert(r[b] == s[b - 1]);
        } else if a < j && b == j {
            assert(s[a].0 <= s[j - 1].0);
        }
    }
}

/// Sorting by time yields a time-ordered rearrangement of the events.
pub proof fn lemma_sort_by_time(s: Seq<EventModel>)
    ensures
        time_ordered(sort_by_time(s)),
        sort_by_time(s).to_multiset() == s.to_multiset(),
        sort_by_time(s).len() == s.len(),
    decreases s.len(),
{
    if s.len() > 0 {
        lemma_sort_by_time(s.drop_last());
        lemma_insert_by_time(sort_by_time(s.drop_last()), s.last());
        vstd::seq_lib::to_multiset_build(s.drop_last(), s.last());
        assert(s.drop_last().push(s.last()) == s);
    }
}

/// Orders events by timestamp, stably.
pub fn sort_events(v: Vec<EventRecord>) -> (r: Vec<EventRecord>)
    ensures
        events_view(r@) == sort_by_time(events_view(v@)),
{
    let ghost orig = events_view(v@);
    let mut rest = v;
    let mut out: Vec<EventRecord> = Vec::new();
    let ghost mut k: int = 0;
    while rest.len() > 0
        invariant
            0 <= k <= orig.len(),
            k + rest@.len() == orig.len(),
            events_view(rest@) == orig.skip(k),
            events_view(out@) == sort_by_time(orig.take(k)),
        decreases rest@.len(),
    {
        let ghost rest0 = rest@;
        let e = rest.remove(0);
        let mut j: usize = out.len();
        while j > 0 && out[j - 1].timestamp > e.timestamp
            invariant
                j <= out@.len(),
                forall|i: int| j <= i < out@.len() ==> out@[i].timestamp > e.timestamp,
            decreases j,
        {
            j = j - 1;
        }
        proof {
            let before = events_view(out@);
            assert(orig[k] == e@) by {
                assert(events_view(rest0)[0] == e@);
            }
            lemma_insert_at(before, e@, j as int);
            assert(orig.take(k + 1).drop_last() =~= orig.take(k));
            assert forall|i: int| 0 <= i < rest@.len() implies events_view(rest@)[i] == orig.skip(
                k + 1,
            )[i] by {
                assert(events_view(rest0)[i + 1] == orig.skip(k)[i + 1]);
            }
            assert(events_view(rest@) =~= orig.skip(k + 1));
        }
        let ghost out0 = out@;
        out.insert(j, e);
        proof {
            assert(events_view(out@) =~= events_view(out0).insert(j as int, e@));
        }
        proof {
            k = k + 1;
        }
    }
    proof {
        assert(orig.take(k) =~= orig);
    }
    out
}

} // verus!
