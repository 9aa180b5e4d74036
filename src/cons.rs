use vstd::prelude::*;
use vstd::string::StringSliceAdditionalSpecFns;
use vstd::utf8::encode_utf8;

use crate::dict::{
    bytes_eq, find_value, fields_check, intern, item_for, lexicon_view, names_view,
    register_fields,
};
use crate::error::Error;
use crate::model::{
    distinct, interned, item_field, make_item, position_of, time_ordered, total_events, lemma_total_fits,
    EventModel, StoreModel,
    MAX_LEXICON_SIZE, MAX_NUM_TRAILS, MAX_PATH_SIZE, MAX_TIMESTAMP, MAX_TRAIL_LENGTH,
    MAX_VALUE_SIZE,
};
use crate::db::Db;
use crate::order::{events_view, lemma_sort_by_time, sort_by_time, sort_events, EventRecord};
use crate::{Timestamp, Uuid};

verus! {

/// The bytes of each field name.
pub open spec fn fields_view(f: Seq<String>) -> Seq<Seq<u8>> {
    f.map_values(|s: String| encode_utf8(s@))
}

/// The values of each dictionary.
pub open spec fn lexicons_view(l: Seq<Vec<Vec<u8>>>) -> Seq<Seq<Seq<u8>>> {
    l.map_values(|x: Vec<Vec<u8>>| lexicon_view(x@))
}

/// The bytes of each uuid.
pub open spec fn uuids_view(u: Seq<Uuid>) -> Seq<Seq<u8>> {
    u.map_values(|x: Uuid| x@)
}

/// The events of each trail.
pub open spec fn trails_view(t: Seq<Vec<EventRecord>>) -> Seq<Seq<(u64, Seq<u64>)>> {
    t.map_values(|x: Vec<EventRecord>| events_view(x@))
}

/// The bytes of each value.
pub open spec fn slices_view(v: Seq<&[u8]>) -> Seq<Seq<u8>> {
    v.map_values(|s: &[u8]| s@)
}

/// A store with the given fields and nothing else.
pub open spec fn empty_store(fields: Seq<Seq<u8>>) -> StoreModel {
    StoreModel {
        fields,
        lexicons: Seq::new(fields.len(), |k: int| Seq::<Seq<u8>>::empty()),
        uuids: Seq::empty(),
        trails: Seq::empty(),
    }
}

/// The store that a finished construction becomes: the same fields,
/// dictionaries and trail ids, each trail sorted stably by timestamp.
pub open spec fn finalized(m: StoreModel) -> StoreModel {
    StoreModel {
        fields: m.fields,
        lexicons: m.lexicons,
        uuids: m.uuids,
        trails: m.trails.map_values(|t: Seq<EventModel>| sort_by_time(t)),
    }
}

/// Trails of the same lengths hold the same number of events.
pub proof fn lemma_total_same_lengths(a: Seq<Seq<EventModel>>, b: Seq<Seq<EventModel>>)
    requires
        a.len() == b.len(),
        forall|t: int| 0 <= t < a.len() ==> (#[trigger] a[t]).len() == b[t].len(),
    ensures
        total_events(a) == total_events(b),
    decreases a.len(),
{
    if a.len() > 0 {
        lemma_total_same_lengths(a.drop_last(), b.drop_last());
    }
}

/// Finalizing keeps a store well formed, orders every trail by time, keeps
/// the events of each trail, and keeps the total.
pub proof fn lemma_finalized(m: StoreModel)
    requires
        m.wf(),
    ensures
        finalized(m).wf(),
        finalized(m).time_ordered(),
        total_events(finalized(m).trails) == total_events(m.trails),
        forall|t: int|
            0 <= t < m.trails.len() ==> (#[trigger] finalized(m).trails[t]).to_multiset()
                == m.trails[t].to_multiset(),
{
    let f = finalized(m);
    assert forall|t: int| 0 <= t < m.trails.len() implies (#[trigger] f.trails[t]).to_multiset()
        == m.trails[t].to_multiset() && f.trails[t].len() == m.trails[t].len() && time_ordered(
        f.trails[t],
    ) by {
        lemma_sort_by_time(m.trails[t]);
    }
    assert forall|t: int, j: int|
        0 <= t < f.trails.len() && 0 <= j < f.trails[t].len() implies f.valid_event(
        #[trigger] f.trails[t][j],
    ) by {
        let e = f.trails[t][j];
        vstd::seq_lib::to_multiset_contains(f.trails[t], e);
        vstd::seq_lib::to_multiset_contains(m.trails[t], e);
        assert(f.trails[t].contains(e));
        let k = choose|k: int| 0 <= k < m.trails[t].len() && m.trails[t][k] == e;
        assert(m.valid_event(m.trails[t][k]));
    }
    lemma_total_same_lengths(f.trails, m.trails);
}

/// Whether two uuids are equal.
pub fn uuid_eq(a: &Uuid, b: &Uuid) -> (r: bool)
    ensures
        r == (a@ == b@),
{
    bytes_eq(a.as_slice(), b.as_slice())
}

/// The trail id of `uuid` among `uuids`, if it is there.
pub fn find_uuid(uuids: &Vec<Uuid>, uuid: &Uuid) -> (r: Option<usize>)
    ensures
        match r {
            Some(i) => i < uuids@.len() && uuids@[i as int]@ == uuid@,
            None => !uuids_view(uuids@).contains(uuid@),
        },
{
    let mut i: usize = 0;
    while i < uuids.len()
        invariant
            i <= uuids@.len(),
            forall|j: int| 0 <= j < i ==> uuids@[j]@ != uuid@,
        decreases uuids@.len() - i,
    {
        if uuid_eq(&uuids[i], uuid) {
            return Some(i);
        }
        i = i + 1;
    }
    proof {
        if uuids_view(uuids@).contains(uuid@) {
            let j = choose|j: int| 0 <= j < uuids@.len() && uuids_view(uuids@)[j] == uuid@;
            assert(uuids@[j]@ != uuid@);
        }
    }
    None
}

/// A store under construction: events are added one at a time, in any
/// order, and the store is then finalized or discarded.
pub struct Constructor {
    path: String,
    fields: Vec<String>,
    lexicons: Vec<Vec<Vec<u8>>>,
    uuids: Vec<Uuid>,
    trails: Vec<Vec<EventRecord>>,
    num_events: u64,
}

impl View for Constructor {
    type V = StoreModel;

    closed spec fn view(&self) -> StoreModel {
        StoreModel {
            fields: fields_view(self.fields@),
            lexicons: lexicons_view(self.lexicons@),
            uuids: uuids_view(self.uuids@),
            trails: trails_view(self.trails@),
        }
    }
}

impl Constructor {
    /// The path the store is meant for.
    pub closed spec fn path(&self) -> Seq<char> {
        self.path@
    }

    /// The construction state is consistent.
    pub closed spec fn wf(&self) -> bool {
        &&& self@.wf()
        &&& self.num_events == total_events(self@.trails)
    }

    /// What the construction's invariants say of its model.
    pub proof fn lemma_view_wf(&self)
        requires
            self.wf(),
        ensures
            self@.wf(),
            self.num_events() == total_events(self@.trails),
    {
    }

    /// The number of events added so far.
    pub closed spec fn num_events(&self) -> nat {
        self.num_events as nat
    }

    /// Starts a store for `path` with the given user fields. The path must be
    /// shorter than the limit, then the field names must pass their checks.
    /// The store is built in memory: the path is kept with it, and nothing is
    /// written to it.
    pub fn new(path: &str, fields: &[&str]) -> (r: Result<Constructor, Error>)
        ensures
            path.spec_bytes().len() >= MAX_PATH_SIZE ==> r == Err::<Constructor, Error>(
                Error::PathTooLong,
            ),
            path.spec_bytes().len() < MAX_PATH_SIZE ==> match fields_check(names_view(fields@)) {
                Some(e) => r == Err::<Constructor, Error>(e),
                None => r matches Ok(c) && c.wf() && c@ == empty_store(names_view(fields@))
                    && c.path() == path@,
            },
    {
        if path.as_bytes().len() as u64 >= MAX_PATH_SIZE {
            return Err(Error::PathTooLong);
        }
        if let Some(e) = register_fields(fields) {
            return Err(e);
        }
        let ghost nv = names_view(fields@);
        let mut names: Vec<String> = Vec::new();
        let mut lexicons: Vec<Vec<Vec<u8>>> = Vec::new();
        let mut k: usize = 0;
        while k < fields.len()
            invariant
                k <= fields@.len(),
                names@.len() == k,
                lexicons@.len() == k,
                nv == names_view(fields@),
                forall|j: int| 0 <= j < k ==> encode_utf8((#[trigger] names@[j])@) == nv[j],
                forall|j: int| 0 <= j < k ==> (#[trigger] lexicons@[j])@.len() == 0,
            decreases fields@.len() - k,
        {
            names.push(fields[k].to_owned());
            lexicons.push(Vec::new());
            k = k + 1;
        }
        let c = Constructor {
            path: path.to_owned(),
            fields: names,
            lexicons,
            uuids: Vec::new(),
            trails: Vec::new(),
            num_events: 0,
        };
        assert(c@.fields =~= nv);
        assert forall|j: int| 0 <= j < nv.len() implies c@.lexicons[j] == empty_store(
            nv,
        ).lexicons[j] by {
            assert(lexicon_view(lexicons@[j]@) =~= Seq::<Seq<u8>>::empty());
        }
        assert(c@.lexicons =~= empty_store(nv).lexicons);
        assert(c@.uuids =~= Seq::<Seq<u8>>::empty());
        assert(c@.trails =~= Seq::<Seq<(u64, Seq<u64>)>>::empty());
        Ok(c)
    }

    /// Adds one event: a uuid, a timestamp and one value per user field.
    /// On an error the constructor is left as it was.
    pub fn add(&mut self, uuid: &Uuid, timestamp: Timestamp, values: &[&str]) -> (r: Result<
        (),
        Error,
    >)
        requires
            old(self).wf(),
        ensures
            final(self).wf(),
            final(self).path() == old(self).path(),
            match old(self)@.add_result(uuid@, timestamp, names_view(values@)) {
                Ok(m) => r is Ok && final(self)@ == m,
                Err(e) => r == Err::<(), Error>(e) && final(self)@ == old(self)@,
            },
    {
        let mut vals: Vec<&[u8]> = Vec::new();
        let mut k: usize = 0;
        while k < values.len()
            invariant
                k <= values@.len(),
                vals@.len() == k,
                forall|j: int| 0 <= j < k ==> (#[trigger] vals@[j])@ == values@[j].spec_bytes(),
            decreases values@.len() - k,
        {
            vals.push(values[k].as_bytes());
            k = k + 1;
        }
        assert(slices_view(vals@) =~= names_view(values@));
        self.add_bytes(uuid, timestamp, &vals)
    }

    /// Adds one event whose values are given as bytes.
    #[verifier::loop_isolation(false)]
    fn add_bytes(&mut self, uuid: &Uuid, ts: u64, vals: &Vec<&[u8]>) -> (r: Result<(), Error>)
        requires
            old(self).wf(),
        ensures
            final(self).wf(),
            final(self).path == old(self).path,
            match old(self)@.add_result(uuid@, ts, slices_view(vals@)) {
                Ok(m) => r is Ok && final(self)@ == m,
                Err(e) => r == Err::<(), Error>(e) && final(self)@ == old(self)@,
            },
    {
        let ghost m = self@;
        let ghost vs = slices_view(vals@);
        let n = self.fields.len();
        if vals.len() != n {
            return Err(Error::UnknownField);
        }
        if ts > MAX_TIMESTAMP {
            return Err(Error::TimestampTooLarge);
        }
        let mut k: usize = 0;
        while k < n
            invariant
                k <= n,
                forall|j: int| 0 <= j < k ==> (#[trigger] vs[j]).len() <= MAX_VALUE_SIZE,
            decreases n - k,
        {
            if vals[k].len() as u64 > MAX_VALUE_SIZE {
                assert(vs[k as int].len() > MAX_VALUE_SIZE);
                return Err(Error::ValueTooLong);
            }
            k = k + 1;
        }
        k = 0;
        while k < n
            invariant
                k <= n,
                forall|j: int|
                    0 <= j < k ==> m.lexicons[j].contains(#[trigger] vs[j])
                        || m.lexicons[j].len() < MAX_LEXICON_SIZE,
            decreases n - k,
        {
            assert(m.lexicons[k as int] == lexicon_view(self.lexicons@[k as int]@));
            if self.lexicons[k].len() as u64 >= MAX_LEXICON_SIZE {
                match find_value(&self.lexicons[k], vals[k]) {
                    None => {
                        assert(!m.lexicons[k as int].contains(vs[k as int]));
                        return Err(Error::LexiconTooLarge);
                    },
                    Some(i) => {
                        assert(m.lexicons[k as int][i as int] == vs[k as int]);
                    },
                }
            }
            k = k + 1;
        }
        let found = find_uuid(&self.uuids, uuid);
        match found {
            Some(t) => {
                proof {
                    assert(m.uuids[t as int] == uuid@);
                    crate::dict::lemma_position_unique(m.uuids, t as int);
                }
                if self.trails[t].len() as u64 >= MAX_TRAIL_LENGTH {
                    return Err(Error::TrailTooLong);
                }
            },
            None => {
                if self.uuids.len() as u64 >= MAX_NUM_TRAILS {
                    return Err(Error::TooManyTrails);
                }
            },
        }
        assert(m.add_result(uuid@, ts, vs) == Ok::<StoreModel, Error>(m.added(uuid@, ts, vs)));
        proof {
            m.lemma_added(uuid@, ts, vs);
            lemma_total_fits(m);
        }
        let ghost lex = m.interned_all(vs);
        assert(forall|j: int|
            0 <= j < n ==> m.lexicons[j].contains(#[trigger] vs[j]) || m.lexicons[j].len()
                < MAX_LEXICON_SIZE);
        let mut items: Vec<u64> = Vec::new();
        k = 0;
        while k < n
            invariant
                k <= n,
                self.lexicons@.len() == n,
                self.fields == old(self).fields,
                self.uuids == old(self).uuids,
                self.trails == old(self).trails,
                self.num_events == old(self).num_events,
                self.path == old(self).path,
                forall|j: int|
                    0 <= j < k ==> lexicons_view(self.lexicons@)[j] == #[trigger] lex[j],
                forall|j: int|
                    k <= j < n ==> lexicons_view(self.lexicons@)[j] == #[trigger] m.lexicons[j],
                items@.len() == k,
                forall|j: int|
                    0 <= j < k ==> #[trigger] items@[j] == make_item(
                        j + 1,
                        position_of(lex[j], vs[j]),
                    ),
            decreases n - k,
        {
            proof {
                assert(lexicon_view(self.lexicons@[k as int]@) == m.lexicons[k as int]);
                assert(vs[k as int] == vals@[k as int]@);
                assert(m.lexicons[k as int].contains(vs[k as int]) || m.lexicons[k as int].len()
                    < MAX_LEXICON_SIZE);
            }
            let code = intern(&mut self.lexicons[k], vals[k]);
            let item = item_for(k as u64 + 1, code);
            items.push(item);
            proof {
                assert(lexicons_view(self.lexicons@)[k as int] == lex[k as int]);
            }
            k = k + 1;
        }
        assert(lexicons_view(self.lexicons@) =~= lex);
        assert(items@ =~= StoreModel::items_of(lex, vs));
        let ev = EventRecord { timestamp: ts, items };
        match found {
            Some(t) => {
                let ghost tr0 = self.trails@[t as int];
                self.trails[t].push(ev);
                assert(events_view(self.trails@[t as int]@) =~= events_view(tr0@).push(ev@));
                assert(trails_view(self.trails@) =~= m.trails.update(
                    t as int,
                    m.trails[t as int].push(ev@),
                ));
            },
            None => {
                self.uuids.push(*uuid);
                let mut tr: Vec<EventRecord> = Vec::new();
                tr.push(ev);
                self.trails.push(tr);
                assert(events_view(tr@) =~= seq![ev@]);
                assert(uuids_view(self.uuids@) =~= m.uuids.push(uuid@));
                assert(trails_view(self.trails@) =~= m.trails.push(seq![ev@]));
            },
        }
        self.num_events = self.num_events + 1;
        assert(self@ =~= m.added(uuid@, ts, vs));
        Ok(())
    }
}


impl Constructor {
    /// Ends the construction and yields the store: each trail sorted stably by
    /// timestamp, the dictionaries and trail ids as they were built.
    pub fn finalize(self) -> (db: Db)
        requires
            self.wf(),
        ensures
            db.wf(),
            db@ == finalized(self@),
    {
        let ghost m = self@;
        proof {
            lemma_finalized(m);
        }
        let Constructor { path: _, fields, lexicons, uuids, trails, num_events } = self;
        let mut rest = trails;
        let mut sorted: Vec<Vec<EventRecord>> = Vec::new();
        let n = rest.len();
        let mut i: usize = 0;
        while i < n
            invariant
                i <= n,
                n == rest@.len(),
                n == m.trails.len(),
                sorted@.len() == i,
                forall|j: int| 0 <= j < i ==> events_view((#[trigger] sorted@[j])@) == sort_by_time(
                    m.trails[j],
                ),
                forall|j: int| i <= j < n ==> events_view((#[trigger] rest@[j])@) == m.trails[j],
            decreases n - i,
        {
            let mut t: Vec<EventRecord> = Vec::new();
            std::mem::swap(&mut rest[i], &mut t);
            assert(events_view(t@) == m.trails[i as int]);
            sorted.push(sort_events(t));
            i = i + 1;
        }
        assert(trails_view(sorted@) =~= finalized(m).trails);
        Db::from_parts(fields, lexicons, uuids, sorted, num_events)
    }

    /// Ends the construction without building a store; every event added is
    /// discarded.
    pub fn close(self) {
    }
}


impl Constructor {
    /// Whether this construction has the same user fields as `db`, in the
    /// same order.
    fn same_fields(&self, db: &Db) -> (r: bool)
        requires
            self.wf(),
            db.wf(),
        ensures
            r == (self@.fields == db@.fields),
    {
        proof {
            db.lemma_view_wf();
        }
        if db.num_fields() != self.fields.len() as u64 + 1 {
            return false;
        }
        let n = self.fields.len();
        let mut k: usize = 0;
        while k < n
            invariant
                k <= n,
                n == self@.fields.len(),
                n == db@.fields.len(),
                db.wf(),
                db@.fields.len() < 255,
                forall|j: int| 0 <= j < k ==> self@.fields[j] == db@.fields[j],
            decreases n - k,
        {
            let name = db.get_field_name(k as u32 + 1).unwrap();
            let mine = self.fields[k].as_str();
            if !bytes_eq(mine.as_bytes(), name.as_bytes()) {
                return false;
            }
            k = k + 1;
        }
        assert(self@.fields =~= db@.fields);
        true
    }

    /// Adds every event of a finalized store with the same fields, trail by
    /// trail in id order and each trail in its stored order, as `add` would.
    /// Stops at the first event that a limit refuses, keeping the events
    /// added before it.
    #[verifier::loop_isolation(false)]
    pub fn append(&mut self, db: &Db) -> (r: Result<(), Error>)
        requires
            old(self).wf(),
            db.wf(),
        ensures
            final(self).wf(),
            final(self).path() == old(self).path(),
            old(self)@.fields != db@.fields ==> r == Err::<(), Error>(Error::AppendFieldsMismatch)
                && final(self)@ == old(self)@,
            old(self)@.fields == db@.fields ==> match old(self)@.add_all(db@.inputs_from(0)) {
                Ok(m) => r is Ok && final(self)@ == m,
                Err(e) => r == Err::<(), Error>(e),
            },
            old(self)@.fields == db@.fields ==> final(self)@ == old(self)@.add_all_state(
                db@.inputs_from(0),
            ),
    {
        if !self.same_fields(db) {
            return Err(Error::AppendFieldsMismatch);
        }
        proof {
            db.lemma_view_wf();
        }
        let ghost d = db@;
        let ghost goal = self@.add_all(d.inputs_from(0));
        let ghost goal_state = self@.add_all_state(d.inputs_from(0));
        let n = db.num_trails();
        let mut cur = db.cursor();
        let mut t: u64 = 0;
        while t < n
            invariant
                t <= n,
                n == d.trails.len(),
                self.wf(),
                self.path == old(self).path,
                self@.fields == d.fields,
                cur.wf(),
                cur.store() == d,
                goal == self@.add_all(d.inputs_from(t as int)),
                goal_state == self@.add_all_state(d.inputs_from(t as int)),
            decreases n - t,
        {
            let uuid = db.get_uuid(t).unwrap();
            cur.get_trail(t).unwrap();
            let len = cur.len();
            proof {
                assert(d.inputs_from(t as int) == d.trail_inputs(t as int) + d.inputs_from(
                    t + 1,
                ));
                assert(d.trail_inputs(t as int).skip(0) =~= d.trail_inputs(t as int));
            }
            let mut j: u64 = 0;
            while j < len
                invariant
                    j <= len,
                    len == d.trails[t as int].len(),
                    self.wf(),
                    self.path == old(self).path,
                    self@.fields == d.fields,
                    cur.wf(),
                    cur.store() == d,
                    cur.trail() == Some(t as int),
                    cur.remaining() == d.trails[t as int].skip(j as int),
                    goal == self@.add_all(
                        d.trail_inputs(t as int).skip(j as int) + d.inputs_from(t + 1),
                    ),
                    goal_state == self@.add_all_state(
                        d.trail_inputs(t as int).skip(j as int) + d.inputs_from(t + 1),
                    ),
                decreases len - j,
            {
                let e = cur.next().unwrap();
                assert(e@ == d.trails[t as int][j as int]);
                assert(d.valid_event(e@));
                let mut vals: Vec<&[u8]> = Vec::new();
                let mut k: usize = 0;
                while k < e.items.len()
                    invariant
                        k <= e.items@.len(),
                        e.items@.len() == d.fields.len(),
                        vals@.len() == k,
                        forall|i: int|
                            0 <= i < k ==> (#[trigger] vals@[i])@ == d.decoded(e.items@)[i],
                    decreases e.items@.len() - k,
                {
                    assert(item_field(e.items@[k as int]) == k + 1);
                    let v = db.get_item_value(e.items[k]).unwrap();
                    vals.push(v);
                    k = k + 1;
                }
                let ghost rest = d.trail_inputs(t as int).skip(j as int) + d.inputs_from(t + 1);
                proof {
                    assert(slices_view(vals@) =~= d.decoded(e.items@));
                    assert(rest[0] == (d.uuids[t as int], e.timestamp, d.decoded(e.items@)));
                    assert(rest.drop_first() =~= d.trail_inputs(t as int).skip(j + 1)
                        + d.inputs_from(t + 1));
                }
                let added = self.add_bytes(uuid, e.timestamp, &vals);
                if let Err(er) = added {
                    return Err(er);
                }
                j = j + 1;
            }
            proof {
                assert(d.trail_inputs(t as int).skip(j as int) + d.inputs_from(t + 1)
                    =~= d.inputs_from(t + 1));
            }
            t = t + 1;
        }
        proof {
            assert(d.inputs_from(t as int) =~= Seq::empty());
        }
        Ok(())
    }
}

} // verus!
