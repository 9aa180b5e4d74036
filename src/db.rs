use vstd::prelude::*;
use vstd::string::StringSliceAdditionalSpecFns;

use crate::cons::{fields_view, find_uuid, lexicons_view, trails_view, uuids_view};
use crate::dict::{field_of, lexicon_view, value_of};
use crate::error::Error;
use crate::model::{
    item_field, item_value, position_of, time_ordered, total_events, EventModel, StoreModel,
};
use crate::order::{events_view, EventRecord};
use crate::{Field, Item, Timestamp, TrailId, Uuid, Version};

verus! {

/// The format version of the stores this library builds.
pub const FORMAT_VERSION: u64 = 1;

/// Some trail holds an event.
pub open spec fn has_events(trails: Seq<Seq<EventModel>>) -> bool {
    exists|t: int| 0 <= t < trails.len() && (#[trigger] trails[t]).len() > 0
}

/// `v` is the smallest timestamp of all events, or zero where there are none.
pub open spec fn is_min_timestamp(trails: Seq<Seq<EventModel>>, v: u64) -> bool {
    if has_events(trails) {
        &&& exists|t: int, j: int|
            0 <= t < trails.len() && 0 <= j < trails[t].len() && (#[trigger] trails[t][j]).0 == v
        &&& forall|t: int, j: int|
            0 <= t < trails.len() && 0 <= j < trails[t].len() ==> v <= (#[trigger] trails[t][j]).0
    } else {
        v == 0
    }
}

/// `v` is the largest timestamp of all events, or zero where there are none.
pub open spec fn is_max_timestamp(trails: Seq<Seq<EventModel>>, v: u64) -> bool {
    if has_events(trails) {
        &&& exists|t: int, j: int|
            0 <= t < trails.len() && 0 <= j < trails[t].len() && (#[trigger] trails[t][j]).0 == v
        &&& forall|t: int, j: int|
            0 <= t < trails.len() && 0 <= j < trails[t].len() ==> (#[trigger] trails[t][j]).0 <= v
    } else {
        v == 0
    }
}

/// The smallest and the largest timestamp over all events.
pub fn timestamp_bounds(trails: &Vec<Vec<EventRecord>>) -> (r: (u64, u64))
    ensures
        is_min_timestamp(trails_view(trails@), r.0),
        is_max_timestamp(trails_view(trails@), r.1),
{
    let ghost tv = trails_view(trails@);
    let mut any = false;
    let mut lo: u64 = 0;
    let mut hi: u64 = 0;
    let ghost mut lo_at: (int, int) = (0, 0);
    let ghost mut hi_at: (int, int) = (0, 0);
    let mut i: usize = 0;
    while i < trails.len()
        invariant
            i <= trails@.len(),
            tv == trails_view(trails@),
            !any ==> lo == 0 && hi == 0,
            !any ==> forall|t: int| 0 <= t < i ==> (#[trigger] tv[t]).len() == 0,
            any ==> 0 <= lo_at.0 < i && 0 <= lo_at.1 < tv[lo_at.0].len() && tv[lo_at.0][lo_at.1].0
                == lo,
            any ==> 0 <= hi_at.0 < i && 0 <= hi_at.1 < tv[hi_at.0].len() && tv[hi_at.0][hi_at.1].0
                == hi,
            forall|t: int, j: int|
                0 <= t < i && 0 <= j < tv[t].len() ==> lo <= (#[trigger] tv[t][j]).0 <= hi,
        decreases trails@.len() - i,
    {
        let mut j: usize = 0;
        while j < trails[i].len()
            invariant
                i < trails@.len(),
                j <= trails@[i as int]@.len(),
                tv == trails_view(trails@),
                !any ==> lo == 0 && hi == 0 && j == 0,
                !any ==> forall|t: int| 0 <= t < i ==> (#[trigger] tv[t]).len() == 0,
                any ==> (0 <= lo_at.0 < i && 0 <= lo_at.1 < tv[lo_at.0].len()) || (lo_at.0 == i
                    && 0 <= lo_at.1 < j),
                any ==> (0 <= hi_at.0 < i && 0 <= hi_at.1 < tv[hi_at.0].len()) || (hi_at.0 == i
                    && 0 <= hi_at.1 < j),
                any ==> tv[lo_at.0][lo_at.1].0 == lo && tv[hi_at.0][hi_at.1].0 == hi,
                forall|t: int, k: int|
                    0 <= t < i && 0 <= k < tv[t].len() ==> lo <= (#[trigger] tv[t][k]).0 <= hi,
                forall|k: int| 0 <= k < j ==> lo <= (#[trigger] tv[i as int][k]).0 <= hi,
            decreases trails@[i as int]@.len() - j,
        {
            let ts = trails[i][j].timestamp;
            assert(tv[i as int][j as int].0 == ts);
            if !any || ts < lo {
                lo = ts;
                proof {
                    lo_at = (i as int, j as int);
                }
            }
            if !any || ts > hi {
                hi = ts;
                proof {
                    hi_at = (i as int, j as int);
                }
            }
            any = true;
            j = j + 1;
        }
        i = i + 1;
    }
    proof {
        if has_events(tv) {
            let t = choose|t: int| 0 <= t < tv.len() && (#[trigger] tv[t]).len() > 0;
            assert(any);
            assert(tv[lo_at.0][lo_at.1].0 == lo);
            assert(tv[hi_at.0][hi_at.1].0 == hi);
        }
    }
    (lo, hi)
}

/// A finalized, read-only store.
pub struct Db {
    fields: Vec<String>,
    lexicons: Vec<Vec<Vec<u8>>>,
    uuids: Vec<Uuid>,
    trails: Vec<Vec<EventRecord>>,
    num_events: u64,
    min_timestamp: u64,
    max_timestamp: u64,
}

impl View for Db {
    type V = StoreModel;

    closed spec fn view(&self) -> StoreModel {
        StoreModel {
            fields: fields_view(self.fields@),
            lexicons: lexicons_view(self.lexicons@),
            uuids: uuids_view(self.uuids@),
            trails: trails_view(self.trails@),
        }
    }
}

/// One event read from a store; its items borrow the store.
pub struct Event<'a> {
    pub timestamp: Timestamp,
    pub items: &'a [Item],
}

impl<'a> View for Event<'a> {
    type V = EventModel;

    open spec fn view(&self) -> EventModel {
        (self.timestamp, self.items@)
    }
}

impl<'a> Event<'a> {
    /// A copy of the event that does not borrow the store.
    pub fn to_owned(&self) -> (r: EventRecord)
        ensures
            r@ == self@,
    {
        EventRecord { timestamp: self.timestamp, items: vstd::slice::slice_to_vec(self.items) }
    }
}

impl Db {
    /// The store's invariants: a well-formed model whose trails are ordered by
    /// time, with its event count and timestamp bounds kept exactly.
    pub closed spec fn wf(&self) -> bool {
        &&& self@.wf()
        &&& self@.time_ordered()
        &&& self.num_events == total_events(self@.trails)
        &&& is_min_timestamp(self@.trails, self.min_timestamp)
        &&& is_max_timestamp(self@.trails, self.max_timestamp)
    }

    /// What the store's invariants say of its model.
    pub proof fn lemma_view_wf(&self)
        requires
            self.wf(),
        ensures
            self@.wf(),
            self@.time_ordered(),
    {
    }

    /// Builds a store from the parts of a finished construction.
    pub(crate) fn from_parts(
        fields: Vec<String>,
        lexicons: Vec<Vec<Vec<u8>>>,
        uuids: Vec<Uuid>,
        trails: Vec<Vec<EventRecord>>,
        num_events: u64,
    ) -> (r: Db)
        requires
            (StoreModel {
                fields: fields_view(fields@),
                lexicons: lexicons_view(lexicons@),
                uuids: uuids_view(uuids@),
                trails: trails_view(trails@),
            }).wf(),
            (StoreModel {
                fields: fields_view(fields@),
                lexicons: lexicons_view(lexicons@),
                uuids: uuids_view(uuids@),
                trails: trails_view(trails@),
            }).time_ordered(),
            num_events == total_events(trails_view(trails@)),
        ensures
            r.wf(),
            r@ == (StoreModel {
                fields: fields_view(fields@),
                lexicons: lexicons_view(lexicons@),
                uuids: uuids_view(uuids@),
                trails: trails_view(trails@),
            }),
    {
        let (min_timestamp, max_timestamp) = timestamp_bounds(&trails);
        Db { fields, lexicons, uuids, trails, num_events, min_timestamp, max_timestamp }
    }

    /// Number of trails.
    pub fn num_trails(&self) -> (r: u64)
        requires
            self.wf(),
        ensures
            r == self@.trails.len(),
    {
        self.uuids.len() as u64
    }

    /// Number of events over all trails.
    pub fn num_events(&self) -> (r: u64)
        requires
            self.wf(),
        ensures
            r == total_events(self@.trails),
    {
        self.num_events
    }

    /// Number of fields, the time field included.
    pub fn num_fields(&self) -> (r: u64)
        requires
            self.wf(),
        ensures
            r == self@.fields.len() + 1,
    {
        self.fields.len() as u64 + 1
    }

    /// The smallest timestamp of all events, zero where there are none.
    pub fn min_timestamp(&self) -> (r: Timestamp)
        requires
            self.wf(),
        ensures
            is_min_timestamp(self@.trails, r),
    {
        self.min_timestamp
    }

    /// The largest timestamp of all events, zero where there are none.
    pub fn max_timestamp(&self) -> (r: Timestamp)
        requires
            self.wf(),
        ensures
            is_max_timestamp(self@.trails, r),
    {
        self.max_timestamp
    }

    /// The format version of the store.
    pub fn version(&self) -> (r: Version)
        ensures
            r == FORMAT_VERSION,
    {
        FORMAT_VERSION
    }

    /// A hint that the store is about to be read; the store is held in
    /// memory, so it has no effect.
    pub fn will_need(&self) {
    }

    /// A hint that the store will not be read for a while; it has no effect.
    pub fn dont_need(&self) {
    }

    /// Releases the store.
    pub fn close(self) {
    }

    /// The trail id of `uuid`, if the store holds it.
    pub fn get_trail_id(&self, uuid: &Uuid) -> (r: Option<TrailId>)
        requires
            self.wf(),
        ensures
            r == self@.trail_id_of(uuid@),
    {
        match find_uuid(&self.uuids, uuid) {
            Some(i) => {
                proof {
                    assert(self@.uuids[i as int] == uuid@);
                    crate::dict::lemma_position_unique(self@.uuids, i as int);
                }
                Some(i as u64)
            },
            None => None,
        }
    }

    /// The uuid of trail `trail_id`, if there is such a trail.
    pub fn get_uuid(&self, trail_id: TrailId) -> (r: Option<&Uuid>)
        requires
            self.wf(),
        ensures
            match r {
                Some(u) => self@.uuid_of(trail_id as int) == Some(u@),
                None => self@.uuid_of(trail_id as int) is None,
            },
    {
        if trail_id < self.uuids.len() as u64 {
            Some(&self.uuids[trail_id as usize])
        } else {
            None
        }
    }

    /// The name of a field: `time` for field zero, then the user fields.
    pub fn get_field_name(&self, field: Field) -> (r: Result<&str, Error>)
        requires
            self.wf(),
        ensures
            field == 0 ==> (r matches Ok(s) && s@ == "time"@),
            0 < field <= self@.fields.len() ==> (r matches Ok(s) && s.spec_bytes()
                == self@.fields[field - 1]),
            field > self@.fields.len() ==> r == Err::<&str, Error>(Error::UnknownField),
    {
        if field == 0 {
            let s = "time";
            proof {
                reveal_strlit("time");
            }
            Ok(s)
        } else if (field as usize) <= self.fields.len() {
            Ok(self.fields[field as usize - 1].as_str())
        } else {
            Err(Error::UnknownField)
        }
    }

    /// The value an item stands for.
    pub fn get_item_value(&self, item: Item) -> (r: Result<&[u8], Error>)
        requires
            self.wf(),
        ensures
            match self@.resolve(item) {
                Some(v) => r matches Ok(b) && b@ == v,
                None => r == Err::<&[u8], Error>(Error::UnknownField),
            },
    {
        let field = field_of(item);
        let value = value_of(item);
        if field == 0 || field as usize > self.lexicons.len() {
            return Err(Error::UnknownField);
        }
        let lex = &self.lexicons[field as usize - 1];
        if value >= lex.len() as u64 {
            return Err(Error::UnknownField);
        }
        assert(lexicon_view(lex@)[value as int] == lex@[value as int]@);
        Ok(lex[value as usize].as_slice())
    }

    /// A new cursor over this store, not yet positioned at any trail.
    pub fn cursor(&self) -> (r: Cursor)
        requires
            self.wf(),
        ensures
            r.wf(),
            r.store() == self@,
            r.trail() is None,
            r.remaining() == Seq::<EventModel>::empty(),
    {
        Cursor { db: self, trail: None, pos: 0 }
    }

    /// The trail `trail_id`, ready to be read from its first event; `None`
    /// where there is no such trail.
    pub fn get_trail(&self, trail_id: TrailId) -> (r: Option<Trail>)
        requires
            self.wf(),
        ensures
            trail_id < self@.trails.len() <==> r is Some,
            r matches Some(t) ==> t.wf() && t.spec_id() == trail_id && t.store() == self@ && t.remaining()
                == self@.trails[trail_id as int],
    {
        let mut cursor = self.cursor();
        if cursor.get_trail(trail_id).is_err() {
            return None;
        }
        Some(Trail { id: trail_id, cursor })
    }

    /// The ids of the trails that a walk with `iter` hands out, in the order
    /// it hands them out: every id from zero up to the number of trails, each
    /// once, after which the walk has ended.
    pub fn trail_ids(&self) -> (r: Vec<TrailId>)
        requires
            self.wf(),
        ensures
            r@ == Seq::new(self@.trails.len(), |i: int| i as u64),
    {
        let mut it = self.iter();
        let mut ids: Vec<TrailId> = Vec::new();
        loop
            invariant
                it.wf(),
                it.store() == self@,
                ids@ == Seq::new(it.next_id() as nat, |i: int| i as u64),
            decreases self@.trails.len() - it.next_id(),
        {
            match it.next() {
                Some(t) => {
                    ids.push(t.id);
                    assert(ids@ =~= Seq::new(it.next_id() as nat, |i: int| i as u64));
                },
                None => {
                    assert(it.next_id() == self@.trails.len());
                    return ids;
                },
            }
        }
    }

    /// All trails, in ascending id order.
    pub fn iter(&self) -> (r: DbIter)
        requires
            self.wf(),
        ensures
            r.wf(),
            r.store() == self@,
            r.next_id() == 0,
    {
        DbIter { pos: 0, db: self }
    }
}

impl StoreModel {
    /// The trail id of a uuid, if the store holds it.
    pub open spec fn trail_id_of(self, uuid: Seq<u8>) -> Option<u64> {
        if self.uuids.contains(uuid) {
            Some(position_of(self.uuids, uuid) as u64)
        } else {
            None
        }
    }

    /// The uuid of a trail id, if there is such a trail.
    pub open spec fn uuid_of(self, t: int) -> Option<Seq<u8>> {
        if 0 <= t < self.uuids.len() {
            Some(self.uuids[t])
        } else {
            None
        }
    }

    /// The value an item stands for, if its field and its value are known.
    pub open spec fn resolve(self, item: u64) -> Option<Seq<u8>> {
        let f = item_field(item);
        let v = item_value(item);
        if 1 <= f <= self.lexicons.len() && 0 <= v < self.lexicons[f - 1].len() {
            Some(self.lexicons[f - 1][v])
        } else {
            None
        }
    }
}

/// A scanning handle over one trail at a time of a store.
pub struct Cursor<'a> {
    db: &'a Db,
    trail: Option<usize>,
    pos: usize,
}

impl<'a> Cursor<'a> {
    /// The store the cursor reads.
    pub closed spec fn store(&self) -> StoreModel {
        self.db@
    }

    /// The trail the cursor is positioned at, if any.
    pub closed spec fn trail(&self) -> Option<int> {
        match self.trail {
            Some(t) => Some(t as int),
            None => None,
        }
    }

    /// The events that the cursor has yet to yield.
    pub closed spec fn remaining(&self) -> Seq<EventModel> {
        match self.trail {
            Some(t) => self.db@.trails[t as int].skip(self.pos as int),
            None => Seq::empty(),
        }
    }

    /// The cursor reads a consistent store, within the trail it is at.
    pub closed spec fn wf(&self) -> bool {
        &&& self.db.wf()
        &&& match self.trail {
            Some(t) => t < self.db@.trails.len() && self.pos <= self.db@.trails[t as int].len(),
            None => self.pos == 0,
        }
    }

    /// The events still to be read come in non-decreasing timestamp order.
    pub proof fn lemma_remaining_ordered(&self)
        requires
            self.wf(),
        ensures
            time_ordered(self.remaining()),
    {
        if let Some(t) = self.trail {
            let tr = self.db@.trails[t as int];
            assert(time_ordered(tr));
            let rem = tr.skip(self.pos as int);
            assert forall|i: int, j: int| 0 <= i <= j < rem.len() implies rem[i].0 <= rem[j].0 by {
                assert(rem[i] == tr[i + self.pos]);
                assert(rem[j] == tr[j + self.pos]);
            }
        }
    }

    /// Positions the cursor at the start of trail `trail_id`, whatever it
    /// read before.
    pub fn get_trail(&mut self, trail_id: TrailId) -> (r: Result<(), Error>)
        requires
            old(self).wf(),
        ensures
            final(self).wf(),
            final(self).store() == old(self).store(),
            trail_id < old(self).store().trails.len() ==> r is Ok && final(self).trail() == Some(
                trail_id as int,
            ) && final(self).remaining() == old(self).store().trails[trail_id as int],
            trail_id >= old(self).store().trails.len() ==> r == Err::<(), Error>(
                Error::InvalidTrailId,
            ) && final(self).trail() == old(self).trail() && final(self).remaining() == old(self).remaining(),
    {
        if trail_id < self.db.uuids.len() as u64 {
            self.trail = Some(trail_id as usize);
            self.pos = 0;
            assert(self.db@.trails[trail_id as int].skip(0) =~= self.db@.trails[trail_id as int]);
            Ok(())
        } else {
            Err(Error::InvalidTrailId)
        }
    }

    /// Number of events in the trail the cursor is at; zero where it is at none.
    pub fn len(&self) -> (r: u64)
        requires
            self.wf(),
        ensures
            r == match self.trail() {
                Some(t) => self.store().trails[t].len() as int,
                None => 0,
            },
    {
        match self.trail {
            Some(t) => self.db.trails[t].len() as u64,
            None => 0,
        }
    }

    /// The next event of the trail, in timestamp order; `None` once the trail
    /// is exhausted or where the cursor is at no trail.
    pub fn next(&mut self) -> (r: Option<Event<'a>>)
        requires
            old(self).wf(),
        ensures
            final(self).wf(),
            final(self).store() == old(self).store(),
            final(self).trail() == old(self).trail(),
            old(self).remaining().len() == 0 ==> r is None && final(self).remaining() == old(self).remaining(),
            old(self).remaining().len() > 0 ==> (r matches Some(e) && e@ == old(self).remaining()[0]
                && final(self).remaining() == old(self).remaining().drop_first()),
            r matches Some(e) ==> forall|i: int|
                0 <= i < final(self).remaining().len() ==> e.timestamp <= (#[trigger] final(self).remaining()[i]).0,
    {
        proof {
            self.lemma_remaining_ordered();
        }
        let db: &'a Db = self.db;
        match self.trail {
            None => None,
            Some(t) => {
                if self.pos < db.trails[t].len() {
                    let ghost rem0 = self.remaining();
                    let rec = &db.trails[t][self.pos];
                    assert(db@.trails[t as int][self.pos as int] == rec@);
                    let e = Event { timestamp: rec.timestamp, items: rec.items.as_slice() };
                    self.pos = self.pos + 1;
                    assert(self.remaining() =~= rem0.drop_first());
                    Some(e)
                } else {
                    None
                }
            },
        }
    }
}

/// One trail of a store, read event by event.
pub struct Trail<'a> {
    pub id: TrailId,
    cursor: Cursor<'a>,
}

impl<'a> Trail<'a> {
    /// The trail's id.
    pub closed spec fn spec_id(&self) -> u64 {
        self.id
    }

    /// The trail's id.
    pub fn id(&self) -> (r: TrailId)
        ensures
            r == self.spec_id(),
    {
        self.id
    }

    /// The events still to be read come in non-decreasing timestamp order.
    pub proof fn lemma_remaining_ordered(&self)
        requires
            self.wf(),
        ensures
            time_ordered(self.remaining()),
    {
        self.cursor.lemma_remaining_ordered();
    }

    /// The store the trail belongs to.
    pub closed spec fn store(&self) -> StoreModel {
        self.cursor.store()
    }

    /// The events that have yet to be read.
    pub closed spec fn remaining(&self) -> Seq<EventModel> {
        self.cursor.remaining()
    }

    /// The trail's cursor is at the trail's id.
    pub closed spec fn wf(&self) -> bool {
        &&& self.cursor.wf()
        &&& self.cursor.trail() == Some(self.id as int)
    }

    /// The next event of the trail, in timestamp order.
    pub fn next(&mut self) -> (r: Option<Event<'a>>)
        requires
            old(self).wf(),
        ensures
            final(self).wf(),
            final(self).spec_id() == old(self).spec_id(),
            final(self).store() == old(self).store(),
            old(self).remaining().len() == 0 ==> r is None && final(self).remaining() == old(self).remaining(),
            old(self).remaining().len() > 0 ==> (r matches Some(e) && e@ == old(self).remaining()[0]
                && final(self).remaining() == old(self).remaining().drop_first()),
            r matches Some(e) ==> forall|i: int|
                0 <= i < final(self).remaining().len() ==> e.timestamp <= (#[trigger] final(self).remaining()[i]).0,
    {
        proof {
            self.lemma_remaining_ordered();
        }
        self.cursor.next()
    }
}

/// Walks the trails of a store in ascending id order.
pub struct DbIter<'a> {
    pos: u64,
    db: &'a Db,
}

impl<'a> DbIter<'a> {
    /// The store walked.
    pub closed spec fn store(&self) -> StoreModel {
        self.db@
    }

    /// The id of the trail that comes next.
    pub closed spec fn next_id(&self) -> int {
        self.pos as int
    }

    /// The walk is over a consistent store and has not gone past its end.
    pub closed spec fn wf(&self) -> bool {
        &&& self.db.wf()
        &&& self.pos <= self.db@.trails.len()
    }

    /// The next trail, or `None` once every trail has been handed out.
    pub fn next(&mut self) -> (r: Option<Trail<'a>>)
        requires
            old(self).wf(),
        ensures
            final(self).wf(),
            final(self).store() == old(self).store(),
            old(self).next_id() < old(self).store().trails.len() ==> (r matches Some(t) && t.wf()
                && t.spec_id() == old(self).next_id() && t.store() == old(self).store() && t.remaining()
                == old(self).store().trails[old(self).next_id()] && final(self).next_id() == old(
                self).next_id() + 1),
            old(self).next_id() >= old(self).store().trails.len() ==> r is None && final(self).next_id() == old(self).next_id(),
    {
        let db: &'a Db = self.db;
        let id = self.pos;
        if id < db.uuids.len() as u64 {
            match db.get_trail(id) {
                Some(t) => {
                    self.pos = id + 1;
                    Some(t)
                },
                None => None,
            }
        } else {
            None
        }
    }
}

} // verus!
