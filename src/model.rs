use vstd::prelude::*;

use crate::error::Error;

verus! {

/// Most fields a store may have, the time field included.
pub const MAX_NUM_FIELDS: u64 = 255;

/// Longest value, in bytes.
pub const MAX_VALUE_SIZE: u64 = 1048576;

/// Most distinct values that one field may hold.
pub const MAX_LEXICON_SIZE: u64 = 1099511627776;

/// Largest timestamp an event may carry.
pub const MAX_TIMESTAMP: u64 = 140737488355327;

/// Most distinct trails in one store.
pub const MAX_NUM_TRAILS: u64 = 2147483648;

/// Most events in one trail.
pub const MAX_TRAIL_LENGTH: u64 = 4294967296;

/// Longest path of a store, in bytes.
pub const MAX_PATH_SIZE: u64 = 2048;

/// Items pack the field index into their low eight bits.
pub const FIELD_SPAN: u64 = 256;

/// One event as the store holds it: a timestamp and one item per field.
pub type EventModel = (u64, Seq<u64>);

/// The logical content of a store under construction or finalized: the user
/// field names, one dictionary per field, the uuid of each trail (its index is
/// the trail id) and the events of each trail.
pub struct StoreModel {
    pub fields: Seq<Seq<u8>>,
    pub lexicons: Seq<Seq<Seq<u8>>>,
    pub uuids: Seq<Seq<u8>>,
    pub trails: Seq<Seq<EventModel>>,
}

/// The item that stands for value code `value` of field `field`.
pub open spec fn make_item(field: int, value: int) -> int {
    value * FIELD_SPAN + field
}

/// The field component of an item.
pub open spec fn item_field(item: u64) -> int {
    item as int % FIELD_SPAN as int
}

/// The value component of an item.
pub open spec fn item_value(item: u64) -> int {
    item as int / FIELD_SPAN as int
}

/// No element occurs twice.
pub open spec fn distinct(s: Seq<Seq<u8>>) -> bool {
    forall|i: int, j: int| 0 <= i < s.len() && 0 <= j < s.len() && i != j ==> s[i] != s[j]
}

/// The index at which `x` stands in `s` (meaningful where it stands there).
pub open spec fn position_of(s: Seq<Seq<u8>>, x: Seq<u8>) -> int {
    choose|i: int| 0 <= i < s.len() && s[i] == x
}

/// A dictionary after interning `v`: unchanged where it holds `v`, else `v` appended.
pub open spec fn interned(lex: Seq<Seq<u8>>, v: Seq<u8>) -> Seq<Seq<u8>> {
    if lex.contains(v) {
        lex
    } else {
        lex.push(v)
    }
}

/// A field name: non-empty, and not `time`, the name of field zero, which
/// every store reserves for the timestamps of its events.
pub open spec fn valid_field_name(name: Seq<u8>) -> bool {
    &&& 0 < name.len()
    &&& name != time_name()
}

/// The name of the field that every store has first: `time`.
pub open spec fn time_name() -> Seq<u8> {
    seq![116u8, 105u8, 109u8, 101u8]
}

/// Timestamps are non-decreasing along `s`.
pub open spec fn time_ordered(s: Seq<EventModel>) -> bool {
    forall|i: int, j: int| 0 <= i <= j < s.len() ==> s[i].0 <= s[j].0
}

/// Total number of events over all trails.
pub open spec fn total_events(trails: Seq<Seq<EventModel>>) -> nat
    decreases trails.len(),
{
    if trails.len() == 0 {
        0
    } else {
        total_events(trails.drop_last()) + trails.last().len()
    }
}

impl StoreModel {
    /// The event is well formed for these fields and dictionaries.
    pub open spec fn valid_event(self, e: EventModel) -> bool {
        &&& e.0 <= MAX_TIMESTAMP
        &&& e.1.len() == self.fields.len()
        &&& forall|k: int|
            0 <= k < e.1.len() ==> item_field(#[trigger] e.1[k]) == k + 1 && item_value(e.1[k])
                < self.lexicons[k].len()
    }

    /// The invariants that every store, built or finalized, keeps.
    pub open spec fn wf(self) -> bool {
        &&& self.fields.len() < MAX_NUM_FIELDS
        &&& self.lexicons.len() == self.fields.len()
        &&& distinct(self.fields)
        &&& forall|k: int| 0 <= k < self.fields.len() ==> valid_field_name(#[trigger] self.fields[k])
        &&& forall|k: int|
            0 <= k < self.lexicons.len() ==> distinct(#[trigger] self.lexicons[k])
                && self.lexicons[k].len() <= MAX_LEXICON_SIZE
        &&& self.uuids.len() == self.trails.len()
        &&& self.uuids.len() <= MAX_NUM_TRAILS
        &&& distinct(self.uuids)
        &&& forall|t: int| 0 <= t < self.uuids.len() ==> (#[trigger] self.uuids[t]).len() == 16
        &&& forall|t: int|
            0 <= t < self.trails.len() ==> (#[trigger] self.trails[t]).len() <= MAX_TRAIL_LENGTH
        &&& forall|t: int, j: int|
            0 <= t < self.trails.len() && 0 <= j < self.trails[t].len() ==> self.valid_event(
                #[trigger] self.trails[t][j],
            )
    }

    /// The dictionaries after interning one value per field.
    pub open spec fn interned_all(self, vals: Seq<Seq<u8>>) -> Seq<Seq<Seq<u8>>> {
        Seq::new(self.lexicons.len(), |k: int| interned(self.lexicons[k], vals[k]))
    }

    /// The items of an event with these values, against the given dictionaries.
    pub open spec fn items_of(lexicons: Seq<Seq<Seq<u8>>>, vals: Seq<Seq<u8>>) -> Seq<u64> {
        Seq::new(vals.len(), |k: int| make_item(k + 1, position_of(lexicons[k], vals[k])) as u64)
    }

    /// The store once an event is added, all limits having been met.
    pub open spec fn added(self, uuid: Seq<u8>, ts: u64, vals: Seq<Seq<u8>>) -> StoreModel {
        let lex = self.interned_all(vals);
        let ev = (ts, Self::items_of(lex, vals));
        if self.uuids.contains(uuid) {
            let t = position_of(self.uuids, uuid);
            StoreModel {
                fields: self.fields,
                lexicons: lex,
                uuids: self.uuids,
                trails: self.trails.update(t, self.trails[t].push(ev)),
            }
        } else {
            StoreModel {
                fields: self.fields,
                lexicons: lex,
                uuids: self.uuids.push(uuid),
                trails: self.trails.push(seq![ev]),
            }
        }
    }

    /// The outcome of adding an event: the first limit it breaks, checked in
    /// this order, or the store with the event added.
    pub open spec fn add_result(self, uuid: Seq<u8>, ts: u64, vals: Seq<Seq<u8>>) -> Result<
        StoreModel,
        Error,
    > {
        if vals.len() != self.fields.len() {
            Err(Error::UnknownField)
        } else if ts > MAX_TIMESTAMP {
            Err(Error::TimestampTooLarge)
        } else if exists|k: int| 0 <= k < vals.len() && (#[trigger] vals[k]).len() > MAX_VALUE_SIZE {
            Err(Error::ValueTooLong)
        } else if exists|k: int|
            0 <= k < vals.len() && !self.lexicons[k].contains(#[trigger] vals[k])
                && self.lexicons[k].len() >= MAX_LEXICON_SIZE {
            Err(Error::LexiconTooLarge)
        } else if !self.uuids.contains(uuid) && self.uuids.len() >= MAX_NUM_TRAILS {
            Err(Error::TooManyTrails)
        } else if self.uuids.contains(uuid) && self.trails[position_of(self.uuids, uuid)].len()
            >= MAX_TRAIL_LENGTH {
            Err(Error::TrailTooLong)
        } else {
            Ok(self.added(uuid, ts, vals))
        }
    }

    /// The values that an event's items stand for.
    pub open spec fn decoded(self, items: Seq<u64>) -> Seq<Seq<u8>> {
        Seq::new(items.len(), |k: int| self.lexicons[k][item_value(items[k])])
    }

    /// The events of trail `t`, each as uuid, timestamp and values.
    pub open spec fn trail_inputs(self, t: int) -> Seq<(Seq<u8>, u64, Seq<Seq<u8>>)> {
        self.trails[t].map_values(|e: EventModel| (self.uuids[t], e.0, self.decoded(e.1)))
    }

    /// The events of the trails from `t` on, in trail order.
    pub open spec fn inputs_from(self, t: int) -> Seq<(Seq<u8>, u64, Seq<Seq<u8>>)>
        decreases self.trails.len() - t,
    {
        if t < 0 || t >= self.trails.len() {
            Seq::empty()
        } else {
            self.trail_inputs(t) + self.inputs_from(t + 1)
        }
    }

    /// The outcome of adding the given events one after the other, stopping at
    /// the first that fails.
    pub open spec fn add_all(self, evs: Seq<(Seq<u8>, u64, Seq<Seq<u8>>)>) -> Result<
        StoreModel,
        Error,
    >
        decreases evs.len(),
    {
        if evs.len() == 0 {
            Ok(self)
        } else {
            match self.add_result(evs[0].0, evs[0].1, evs[0].2) {
                Ok(m) => m.add_all(evs.drop_first()),
                Err(e) => Err(e),
            }
        }
    }

    /// The store after adding the given events one after the other: all of
    /// them, or those before the first that fails.
    pub open spec fn add_all_state(self, evs: Seq<(Seq<u8>, u64, Seq<Seq<u8>>)>) -> StoreModel
        decreases evs.len(),
    {
        if evs.len() == 0 {
            self
        } else {
            match self.add_result(evs[0].0, evs[0].1, evs[0].2) {
                Ok(m) => m.add_all_state(evs.drop_first()),
                Err(_) => self,
            }
        }
    }

    /// Every trail is ordered by timestamp.
    pub open spec fn time_ordered(self) -> bool {
        forall|t: int| 0 <= t < self.trails.len() ==> time_ordered(#[trigger] self.trails[t])
    }
}

/// An item packs its field and value so that both can be read back.
pub proof fn lemma_item_parts(field: int, value: int)
    requires
        0 < field < FIELD_SPAN,
        0 <= value < MAX_LEXICON_SIZE,
    ensures
        0 <= make_item(field, value) < 0x1_0000_0000_0000,
        item_field(make_item(field, value) as u64) == field,
        item_value(make_item(field, value) as u64) == value,
{
    assert(0 <= value * 256 + field < 0x1_0000_0000_0000) by (nonlinear_arith)
        requires
            0 < field < 256,
            0 <= value < 1099511627776,
    ;
    let r = value * 256 + field;
    assert(r % 256 == field && r / 256 == value) by (nonlinear_arith)
        requires
            r == value * 256 + field,
            0 < field < 256,
    ;
}

/// Appending a trail adds its length to the total.
pub proof fn lemma_total_push(trails: Seq<Seq<EventModel>>, t: Seq<EventModel>)
    ensures
        total_events(trails.push(t)) == total_events(trails) + t.len(),
{
    assert(trails.push(t).drop_last() =~= trails);
}

/// Replacing a trail changes the total by the difference of the lengths.
pub proof fn lemma_total_update(trails: Seq<Seq<EventModel>>, i: int, t: Seq<EventModel>)
    requires
        0 <= i < trails.len(),
    ensures
        total_events(trails.update(i, t)) == total_events(trails) - trails[i].len() + t.len(),
    decreases trails.len(),
{
    if i < trails.len() - 1 {
        lemma_total_update(trails.drop_last(), i, t);
        assert(trails.update(i, t).drop_last() =~= trails.drop_last().update(i, t));
    } else {
        assert(trails.update(i, t).drop_last() =~= trails.drop_last());
    }
}

/// The total is at most the number of trails times the longest trail.
pub proof fn lemma_total_bound(trails: Seq<Seq<EventModel>>, bound: nat)
    requires
        forall|t: int| 0 <= t < trails.len() ==> (#[trigger] trails[t]).len() <= bound,
    ensures
        total_events(trails) <= trails.len() * bound,
    decreases trails.len(),
{
    if trails.len() > 0 {
        let d = trails.drop_last();
        assert forall|t: int| 0 <= t < d.len() implies (#[trigger] d[t]).len() <= bound by {
            assert(d[t] == trails[t]);
        }
        lemma_total_bound(d, bound);
        let n = trails.len();
        assert((n - 1) * bound + bound == n * bound) by (nonlinear_arith);
    }
}

/// A well-formed store holds fewer events than fit in a `u64`.
pub proof fn lemma_total_fits(m: StoreModel)
    requires
        m.wf(),
    ensures
        total_events(m.trails) <= 0x8000_0000_0000_0000,
{
    lemma_total_bound(m.trails, MAX_TRAIL_LENGTH as nat);
    assert(m.trails.len() * (MAX_TRAIL_LENGTH as nat) <= 0x8000_0000_0000_0000) by (nonlinear_arith)
        requires
            m.trails.len() <= 2147483648,
    ;
}

impl StoreModel {
    /// An event that all limits admit keeps the store well formed and adds one
    /// event to the total.
    pub proof fn lemma_added(self, uuid: Seq<u8>, ts: u64, vals: Seq<Seq<u8>>)
        requires
            self.wf(),
            uuid.len() == 16,
            self.add_result(uuid, ts, vals) is Ok,
        ensures
            self.added(uuid, ts, vals).wf(),
            total_events(self.added(uuid, ts, vals).trails) == total_events(self.trails) + 1,
    {
        let lex = self.interned_all(vals);
        let items = Self::items_of(lex, vals);
        let ev = (ts, items);
        let r = self.added(uuid, ts, vals);
        assert forall|k: int| 0 <= k < lex.len() implies distinct(#[trigger] lex[k]) && lex[k].len()
            <= MAX_LEXICON_SIZE && lex[k].len() >= self.lexicons[k].len() && 0 <= position_of(
            lex[k],
            vals[k],
        ) < lex[k].len() by {
            crate::dict::lemma_interned(self.lexicons[k], vals[k]);
            assert(vals[k].len() <= MAX_VALUE_SIZE);
        }
        assert forall|k: int| 0 <= k < items.len() implies item_field(#[trigger] items[k]) == k + 1
            && item_value(items[k]) < lex[k].len() by {
            lemma_item_parts(k + 1, position_of(lex[k], vals[k]));
        }
        assert(r.valid_event(ev));
        assert forall|t: int, j: int|
            0 <= t < self.trails.len() && 0 <= j < self.trails[t].len() implies r.valid_event(
            #[trigger] self.trails[t][j],
        ) by {
            assert(self.valid_event(self.trails[t][j]));
        }
        if self.uuids.contains(uuid) {
            let t = position_of(self.uuids, uuid);
            lemma_total_update(self.trails, t, self.trails[t].push(ev));
            assert forall|a: int, j: int|
                0 <= a < r.trails.len() && 0 <= j < r.trails[a].len() implies r.valid_event(
                #[trigger] r.trails[a][j],
            ) by {
                if a == t && j == self.trails[t].len() {
                } else {
                    assert(r.trails[a][j] == self.trails[a][j]);
                }
            }
        } else {
            lemma_total_push(self.trails, seq![ev]);
            assert forall|a: int, b: int|
                0 <= a < r.uuids.len() && 0 <= b < r.uuids.len() && a != b implies r.uuids[a]
                != r.uuids[b] by {
                if a < self.uuids.len() && b == self.uuids.len() {
                    assert(self.uuids.contains(self.uuids[a]));
                } else if b < self.uuids.len() && a == self.uuids.len() {
                    assert(self.uuids.contains(self.uuids[b]));
                }
            }
            assert forall|a: int, j: int|
                0 <= a < r.trails.len() && 0 <= j < r.trails[a].len() implies r.valid_event(
                #[trigger] r.trails[a][j],
            ) by {
                if a < self.trails.len() {
                    assert(r.trails[a][j] == self.trails[a][j]);
                }
            }
        }
    }
}

} // verus!
