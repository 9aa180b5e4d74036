use vstd::prelude::*;

use crate::cons::{empty_store, finalized, lemma_finalized};
use crate::db::{has_events, is_max_timestamp, is_min_timestamp};
use crate::dict::{fields_check, lemma_interned};
use crate::model::{
    distinct, interned, lemma_item_parts, make_item, position_of, total_events, EventModel,
    StoreModel, FIELD_SPAN, MAX_LEXICON_SIZE,
};

verus! {

/// The distinct uuids among a sequence of inputs.
pub open spec fn input_uuids(evs: Seq<(Seq<u8>, u64, Seq<Seq<u8>>)>) -> Set<Seq<u8>> {
    Set::new(|u: Seq<u8>| exists|i: int| 0 <= i < evs.len() && (#[trigger] evs[i]).0 == u)
}

/// Adding a sequence of events that all succeed keeps the store well formed
/// and the fields as they were, adds one event each, and leaves one trail per
/// distinct uuid seen.
pub proof fn lemma_add_all_counts(m: StoreModel, evs: Seq<(Seq<u8>, u64, Seq<Seq<u8>>)>)
    requires
        m.wf(),
        forall|i: int| 0 <= i < evs.len() ==> (#[trigger] evs[i]).0.len() == 16,
        m.add_all(evs) is Ok,
    ensures
        m.add_all(evs)->Ok_0.wf(),
        m.add_all(evs)->Ok_0.fields == m.fields,
        total_events(m.add_all(evs)->Ok_0.trails) == total_events(m.trails) + evs.len(),
        m.add_all(evs)->Ok_0.uuids.to_set() == m.uuids.to_set().union(input_uuids(evs)),
        m.add_all(evs)->Ok_0.uuids.len() == m.add_all(evs)->Ok_0.uuids.to_set().len(),
    decreases evs.len(),
{
    if evs.len() == 0 {
        assert(input_uuids(evs) =~= Set::empty());
        assert(m.uuids.to_set().union(input_uuids(evs)) =~= m.uuids.to_set());
        assert(m.uuids.no_duplicates());
        m.uuids.unique_seq_to_set();
    } else {
        let e = evs[0];
        let rest = evs.drop_first();
        let m2 = m.added(e.0, e.1, e.2);
        m.lemma_added(e.0, e.1, e.2);
        assert forall|i: int| 0 <= i < rest.len() implies (#[trigger] rest[i]).0.len() == 16 by {
            assert(rest[i] == evs[i + 1]);
        }
        lemma_add_all_counts(m2, rest);
        if m.uuids.contains(e.0) {
            assert(m2.uuids.to_set() =~= m.uuids.to_set().insert(e.0));
        } else {
            m.uuids.lemma_push_to_set_commute(e.0);
            assert(m2.uuids.to_set() =~= m.uuids.to_set().insert(e.0));
        }
        assert(input_uuids(evs) =~= input_uuids(rest).insert(e.0)) by {
            assert forall|u: Seq<u8>| input_uuids(evs).contains(u) implies input_uuids(
                rest,
            ).insert(e.0).contains(u) by {
                let i = choose|i: int| 0 <= i < evs.len() && (#[trigger] evs[i]).0 == u;
                if i > 0 {
                    assert(rest[i - 1] == evs[i]);
                }
            }
            assert forall|u: Seq<u8>| input_uuids(rest).contains(u) implies input_uuids(
                evs,
            ).contains(u) by {
                let i = choose|i: int| 0 <= i < rest.len() && (#[trigger] rest[i]).0 == u;
                assert(evs[i + 1] == rest[i]);
            }
            assert(evs[0].0 == e.0);
        }
        assert(m2.uuids.to_set().union(input_uuids(rest)) =~= m.uuids.to_set().union(
            input_uuids(evs),
        ));
    }
}

/// Round trip: a store built from events, starting from valid field names,
/// and then finalized, has one trail per distinct uuid, every event, the
/// declared fields, and a trail id for each uuid whose uuid is that uuid.
pub proof fn lemma_round_trip(fields: Seq<Seq<u8>>, evs: Seq<(Seq<u8>, u64, Seq<Seq<u8>>)>)
    requires
        fields_check(fields) is None,
        forall|i: int| 0 <= i < evs.len() ==> (#[trigger] evs[i]).0.len() == 16,
        empty_store(fields).add_all(evs) is Ok,
    ensures
        finalized(empty_store(fields).add_all(evs)->Ok_0).wf(),
        finalized(empty_store(fields).add_all(evs)->Ok_0).fields == fields,
        finalized(empty_store(fields).add_all(evs)->Ok_0).trails.len() == input_uuids(evs).len(),
        total_events(finalized(empty_store(fields).add_all(evs)->Ok_0).trails) == evs.len(),
        forall|u: Seq<u8>|
            #![trigger input_uuids(evs).contains(u)]
            input_uuids(evs).contains(u) ==> {
                let db = finalized(empty_store(fields).add_all(evs)->Ok_0);
                &&& db.trail_id_of(u) is Some
                &&& db.uuid_of(db.trail_id_of(u)->Some_0 as int) == Some(u)
            },
{
    let m = empty_store(fields);
    assert forall|k: int| 0 <= k < m.lexicons.len() implies distinct(#[trigger] m.lexicons[k])
        && m.lexicons[k].len() <= MAX_LEXICON_SIZE by {}
    assert(m.wf());
    lemma_add_all_counts(m, evs);
    let r = m.add_all(evs)->Ok_0;
    lemma_finalized(r);
    assert(total_events(m.trails) == 0);
    assert(m.uuids.to_set().union(input_uuids(evs)) =~= input_uuids(evs));
    let db = finalized(r);
    assert forall|u: Seq<u8>| #![trigger input_uuids(evs).contains(u)] input_uuids(evs).contains(u) implies {
        &&& db.trail_id_of(u) is Some
        &&& db.uuid_of(db.trail_id_of(u)->Some_0 as int) == Some(u)
    } by {
        assert(r.uuids.to_set().contains(u));
        let p = position_of(db.uuids, u);
        assert(0 <= p < db.uuids.len() && db.uuids[p] == u);
        assert(db.uuids.len() <= 2147483648);
    }
}

/// Every trail id of a well-formed store leads to a uuid whose trail id is
/// that id.
pub proof fn lemma_trail_id_round_trip(db: StoreModel, t: int)
    requires
        db.wf(),
        0 <= t < db.trails.len(),
    ensures
        db.uuid_of(t) is Some,
        db.trail_id_of(db.uuid_of(t)->Some_0) == Some(t as u64),
{
    crate::dict::lemma_position_unique(db.uuids, t);
    assert(db.uuids.contains(db.uuids[t]));
}

/// Where every event of each trail of `f` stands in the same trail of `s`
/// and the other way round, both have the same timestamp bounds.
proof fn lemma_same_bounds(f: Seq<Seq<EventModel>>, s: Seq<Seq<EventModel>>, v: u64)
    requires
        f.len() == s.len(),
        forall|t: int| 0 <= t < s.len() ==> (#[trigger] f[t]).len() == s[t].len(),
        forall|t: int, j: int|
            0 <= t < f.len() && 0 <= j < f[t].len() ==> s[t].contains(#[trigger] f[t][j]),
        forall|t: int, j: int|
            0 <= t < s.len() && 0 <= j < s[t].len() ==> f[t].contains(#[trigger] s[t][j]),
    ensures
        is_min_timestamp(f, v) == is_min_timestamp(s, v),
        is_max_timestamp(f, v) == is_max_timestamp(s, v),
{
    assert(has_events(f) == has_events(s)) by {
        if has_events(f) {
            let t = choose|t: int| 0 <= t < f.len() && (#[trigger] f[t]).len() > 0;
            assert(s[t].len() > 0);
        }
        if has_events(s) {
            let t = choose|t: int| 0 <= t < s.len() && (#[trigger] s[t]).len() > 0;
            assert(f[t].len() > 0);
        }
    }
    if has_events(s) {
        lemma_one_way(f, s, v);
        lemma_one_way(s, f, v);
    }
}

/// Bounds carry over from `s` to `f` where every event of `s` stands in the
/// same trail of `f` and the other way round.
proof fn lemma_one_way(f: Seq<Seq<EventModel>>, s: Seq<Seq<EventModel>>, v: u64)
    requires
        f.len() == s.len(),
        has_events(f),
        has_events(s),
        forall|t: int, j: int|
            0 <= t < f.len() && 0 <= j < f[t].len() ==> s[t].contains(#[trigger] f[t][j]),
        forall|t: int, j: int|
            0 <= t < s.len() && 0 <= j < s[t].len() ==> f[t].contains(#[trigger] s[t][j]),
    ensures
        is_min_timestamp(s, v) ==> is_min_timestamp(f, v),
        is_max_timestamp(s, v) ==> is_max_timestamp(f, v),
{
    if is_min_timestamp(s, v) {
        let (t, j) = choose|t: int, j: int|
            0 <= t < s.len() && 0 <= j < s[t].len() && (#[trigger] s[t][j]).0 == v;
        assert(f[t].contains(s[t][j]));
        let k = choose|k: int| 0 <= k < f[t].len() && f[t][k] == s[t][j];
        assert(f[t][k].0 == v);
        assert forall|a: int, b: int| 0 <= a < f.len() && 0 <= b < f[a].len() implies v <= (
        #[trigger] f[a][b]).0 by {
            assert(s[a].contains(f[a][b]));
        }
    }
    if is_max_timestamp(s, v) {
        let (t, j) = choose|t: int, j: int|
            0 <= t < s.len() && 0 <= j < s[t].len() && (#[trigger] s[t][j]).0 == v;
        assert(f[t].contains(s[t][j]));
        let k = choose|k: int| 0 <= k < f[t].len() && f[t][k] == s[t][j];
        assert(f[t][k].0 == v);
        assert forall|a: int, b: int| 0 <= a < f.len() && 0 <= b < f[a].len() implies (
        #[trigger] f[a][b]).0 <= v by {
            assert(s[a].contains(f[a][b]));
        }
    }
}

/// Sorting each trail by time keeps the smallest and the largest timestamp
/// over all events: the bounds of the finalized store are those of the
/// events added.
pub proof fn lemma_bounds(m: StoreModel, v: u64)
    requires
        m.wf(),
    ensures
        is_min_timestamp(finalized(m).trails, v) == is_min_timestamp(m.trails, v),
        is_max_timestamp(finalized(m).trails, v) == is_max_timestamp(m.trails, v),
{
    lemma_finalized(m);
    let f = finalized(m).trails;
    let s = m.trails;
    assert forall|t: int| 0 <= t < s.len() implies (#[trigger] f[t]).len() == s[t].len() by {
        vstd::seq_lib::to_multiset_len(f[t]);
        vstd::seq_lib::to_multiset_len(s[t]);
    }
    assert forall|t: int, j: int| 0 <= t < f.len() && 0 <= j < f[t].len() implies s[t].contains(
        #[trigger] f[t][j],
    ) by {
        vstd::seq_lib::to_multiset_contains(f[t], f[t][j]);
        vstd::seq_lib::to_multiset_contains(s[t], f[t][j]);
    }
    assert forall|t: int, j: int| 0 <= t < s.len() && 0 <= j < s[t].len() implies f[t].contains(
        #[trigger] s[t][j],
    ) by {
        vstd::seq_lib::to_multiset_contains(f[t], s[t][j]);
        vstd::seq_lib::to_multiset_contains(s[t], s[t][j]);
    }
    lemma_same_bounds(f, s, v);
}

/// Dictionary stability: interning a value a second time changes nothing and
/// gives the same item; two different values of one field never share an
/// item.
pub proof fn lemma_dictionary_stable(lex: Seq<Seq<u8>>, field: int, a: Seq<u8>, b: Seq<u8>)
    requires
        distinct(lex),
        lex.len() + 2 <= MAX_LEXICON_SIZE,
        0 < field < FIELD_SPAN,
    ensures
        interned(interned(lex, a), a) == interned(lex, a),
        make_item(field, position_of(interned(interned(lex, a), a), a)) == make_item(
            field,
            position_of(interned(lex, a), a),
        ),
        a != b ==> make_item(field, position_of(interned(interned(lex, a), b), a)) != make_item(
            field,
            position_of(interned(interned(lex, a), b), b),
        ),
{
    lemma_interned(lex, a);
    let la = interned(lex, a);
    lemma_interned(la, a);
    lemma_interned(la, b);
    let lab = interned(la, b);
    assert(la.contains(a));
    let pa = position_of(la, a);
    assert(lab[pa] == a);
    crate::dict::lemma_position_unique(lab, pa);
    let pb = position_of(lab, b);
    if a != b {
        assert(pa != pb);
        lemma_item_parts(field, pa);
        lemma_item_parts(field, pb);
    }
}

/// Dictionary stability through `add`: in the event that an accepted add
/// records, a value the field's dictionary already holds keeps its code and
/// leaves the dictionary unchanged; a value new to the field gets the next
/// code and grows the dictionary by exactly that value. Either way the item
/// differs from the item of every other value of that field.
pub proof fn lemma_add_dictionary_stable(
    m: StoreModel,
    uuid: Seq<u8>,
    ts: u64,
    vals: Seq<Seq<u8>>,
    k: int,
)
    requires
        m.wf(),
        m.add_result(uuid, ts, vals) is Ok,
        0 <= k < vals.len(),
    ensures
        m.lexicons[k].contains(vals[k]) ==> m.added(uuid, ts, vals).lexicons[k] == m.lexicons[k]
            && StoreModel::items_of(m.interned_all(vals), vals)[k] == make_item(
            k + 1,
            position_of(m.lexicons[k], vals[k]),
        ),
        !m.lexicons[k].contains(vals[k]) ==> m.added(uuid, ts, vals).lexicons[k]
            == m.lexicons[k].push(vals[k]) && StoreModel::items_of(m.interned_all(vals), vals)[k]
            == make_item(k + 1, m.lexicons[k].len() as int),
        forall|p: int|
            0 <= p < m.lexicons[k].len() && m.lexicons[k][p] != vals[k] ==> StoreModel::items_of(
                m.interned_all(vals),
                vals,
            )[k] != make_item(k + 1, p),
{
    let lex = m.lexicons[k];
    lemma_interned(lex, vals[k]);
    let q = position_of(interned(lex, vals[k]), vals[k]);
    assert(m.interned_all(vals)[k] == interned(lex, vals[k]));
    assert forall|p: int| 0 <= p < lex.len() && lex[p] != vals[k] implies StoreModel::items_of(
        m.interned_all(vals),
        vals,
    )[k] != make_item(k + 1, p) by {
        assert(interned(lex, vals[k])[p] == lex[p]);
        lemma_item_parts(k + 1, q);
        lemma_item_parts(k + 1, p);
    }
}

} // verus!
