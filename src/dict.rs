use vstd::prelude::*;

use vstd::string::StringSliceAdditionalSpecFns;

use crate::error::Error;
use crate::model::{
    distinct, interned, item_field, item_value, make_item, position_of, time_name,
    valid_field_name, FIELD_SPAN, MAX_LEXICON_SIZE, MAX_NUM_FIELDS,
};

verus! {

/// The values of a dictionary, as byte strings.
pub open spec fn lexicon_view(l: Seq<Vec<u8>>) -> Seq<Seq<u8>> {
    l.map_values(|v: Vec<u8>| v@)
}

/// Whether two byte strings are equal.
pub fn bytes_eq(a: &[u8], b: &[u8]) -> (r: bool)
    ensures
        r == (a@ == b@),
{
    if a.len() != b.len() {
        return false;
    }
    let mut i: usize = 0;
    while i < a.len()
        invariant
            a@.len() == b@.len(),
            i <= a@.len(),
            forall|j: int| 0 <= j < i ==> a@[j] == b@[j],
        decreases a@.len() - i,
    {
        if a[i] != b[i] {
            return false;
        }
        i = i + 1;
    }
    assert(a@ =~= b@);
    true
}

/// The code of `v` in a dictionary, if the dictionary holds it.
pub fn find_value(lex: &Vec<Vec<u8>>, v: &[u8]) -> (r: Option<usize>)
    ensures
        match r {
            Some(i) => i < lex@.len() && lex@[i as int]@ == v@,
            None => !lexicon_view(lex@).contains(v@),
        },
{
    let mut i: usize = 0;
    while i < lex.len()
        invariant
            i <= lex@.len(),
            forall|j: int| 0 <= j < i ==> lex@[j]@ != v@,
        decreases lex@.len() - i,
    {
        if bytes_eq(lex[i].as_slice(), v) {
            return Some(i);
        }
        i = i + 1;
    }
    proof {
        if lexicon_view(lex@).contains(v@) {
            let j = choose|j: int| 0 <= j < lex@.len() && lexicon_view(lex@)[j] == v@;
            assert(lex@[j]@ != v@);
        }
    }
    None
}

/// In a dictionary without repeats, the value at index `i` stands at `i` alone.
pub proof fn lemma_position_unique(s: Seq<Seq<u8>>, i: int)
    requires
        distinct(s),
        0 <= i < s.len(),
    ensures
        position_of(s, s[i]) == i,
{
    let p = position_of(s, s[i]);
    assert(0 <= p < s.len() && s[p] == s[i]);
}

/// Interning keeps a dictionary free of repeats and places the value.
pub proof fn lemma_interned(lex: Seq<Seq<u8>>, v: Seq<u8>)
    requires
        distinct(lex),
    ensures
        distinct(interned(lex, v)),
        interned(lex, v).contains(v),
        0 <= position_of(interned(lex, v), v) < interned(lex, v).len(),
        interned(lex, v)[position_of(interned(lex, v), v)] == v,
        lex.contains(v) ==> position_of(interned(lex, v), v) < lex.len(),
        !lex.contains(v) ==> position_of(interned(lex, v), v) == lex.len(),
        interned(lex, v).len() <= lex.len() + 1,
{
    let r = interned(lex, v);
    if lex.contains(v) {
        let i = choose|i: int| 0 <= i < lex.len() && lex[i] == v;
        lemma_position_unique(lex, i);
    } else {
        assert(r[lex.len() as int] == v);
        assert forall|i: int, j: int| 0 <= i < r.len() && 0 <= j < r.len() && i != j implies r[i]
            != r[j] by {
            if i < lex.len() && j == lex.len() {
                assert(lex.contains(lex[i]));
            } else if j < lex.len() && i == lex.len() {
                assert(lex.contains(lex[j]));
            }
        }
        lemma_position_unique(r, lex.len() as int);
    }
}

/// Interns `v`: its existing code where the dictionary holds it, else a new
/// code, the next one.
pub fn intern(lex: &mut Vec<Vec<u8>>, v: &[u8]) -> (code: u64)
    requires
        distinct(lexicon_view(old(lex)@)),
        old(lex)@.len() <= MAX_LEXICON_SIZE,
        lexicon_view(old(lex)@).contains(v@) || old(lex)@.len() < MAX_LEXICON_SIZE,
    ensures
        lexicon_view(final(lex)@) == interned(lexicon_view(old(lex)@), v@),
        code == position_of(lexicon_view(final(lex)@), v@),
        code < MAX_LEXICON_SIZE,
        final(lex)@.len() <= MAX_LEXICON_SIZE,
{
    let ghost l0 = lexicon_view(lex@);
    proof {
        lemma_interned(l0, v@);
    }
    match find_value(lex, v) {
        Some(i) => {
            proof {
                assert(l0[i as int] == v@);
                lemma_position_unique(l0, i as int);
            }
            i as u64
        },
        None => {
            let n = lex.len();
            lex.push(vstd::slice::slice_to_vec(v));
            assert(lexicon_view(lex@) =~= l0.push(v@));
            n as u64
        },
    }
}

/// The item for code `value` of field `field`.
pub fn item_for(field: u64, value: u64) -> (r: u64)
    requires
        0 < field < FIELD_SPAN,
        value < MAX_LEXICON_SIZE,
    ensures
        r == make_item(field as int, value as int),
        item_field(r) == field,
        item_value(r) == value,
{
    let r = value * FIELD_SPAN + field;
    assert(item_field(r) == field && item_value(r) == value) by (nonlinear_arith)
        requires
            r == value * 256 + field,
            0 < field < 256,
    ;
    r
}

/// The field index of an item.
pub fn field_of(item: u64) -> (r: u64)
    ensures
        r == item_field(item),
        r < FIELD_SPAN,
{
    item % FIELD_SPAN
}

/// The value code of an item.
pub fn value_of(item: u64) -> (r: u64)
    ensures
        r == item_value(item),
{
    item / FIELD_SPAN
}

/// The bytes of every name.
pub open spec fn names_view(names: Seq<&str>) -> Seq<Seq<u8>> {
    names.map_values(|s: &str| s.spec_bytes())
}

/// Why a list of field names is refused, if it is: too many of them, then
/// one that is not a valid name, then one that comes twice.
pub open spec fn fields_check(names: Seq<Seq<u8>>) -> Option<Error> {
    if names.len() >= MAX_NUM_FIELDS {
        Some(Error::TooManyFields)
    } else if exists|k: int| 0 <= k < names.len() && !valid_field_name(#[trigger] names[k]) {
        Some(Error::InvalidFieldname)
    } else if !distinct(names) {
        Some(Error::DuplicateFields)
    } else {
        None
    }
}

/// Whether a byte string is a valid field name.
pub fn is_valid_field_name(name: &[u8]) -> (r: bool)
    ensures
        r == valid_field_name(name@),
{
    if name.len() == 0 {
        return false;
    }
    if name.len() == 4 && name[0] == 116 && name[1] == 105 && name[2] == 109 && name[3] == 101 {
        assert(name@ =~= time_name());
        return false;
    }
    assert(name@ != time_name()) by {
        if name@ == time_name() {
            assert(name@[0] == 116 && name@[1] == 105 && name@[2] == 109 && name@[3] == 101);
        }
    }
    true
}

/// Checks the field names of a new store: `None` where they are fine, else
/// the error that refuses them.
pub fn register_fields(names: &[&str]) -> (r: Option<Error>)
    ensures
        r == fields_check(names_view(names@)),
{
    let ghost nv = names_view(names@);
    if names.len() as u64 >= MAX_NUM_FIELDS {
        return Some(Error::TooManyFields);
    }
    let mut k: usize = 0;
    while k < names.len()
        invariant
            k <= names@.len(),
            nv == names_view(names@),
            names@.len() < MAX_NUM_FIELDS,
            forall|j: int| 0 <= j < k ==> valid_field_name(#[trigger] nv[j]),
        decreases names@.len() - k,
    {
        if !is_valid_field_name(names[k].as_bytes()) {
            assert(names@[k as int].spec_bytes() == nv[k as int]);
            assert(!valid_field_name(nv[k as int]));
            assert(exists|x: int| 0 <= x < nv.len() && !valid_field_name(#[trigger] nv[x]));
            assert(nv.len() < MAX_NUM_FIELDS);
            assert(fields_check(nv) == Some(Error::InvalidFieldname));
            return Some(Error::InvalidFieldname);
        }
        k = k + 1;
    }
    let mut i: usize = 0;
    while i < names.len()
        invariant
            i <= names@.len(),
            nv == names_view(names@),
            names@.len() < MAX_NUM_FIELDS,
            forall|a: int, b: int| 0 <= a < i && 0 <= b < names@.len() && a != b ==> nv[a] != nv[b],
            forall|j: int| 0 <= j < names@.len() ==> valid_field_name(#[trigger] nv[j]),
        decreases names@.len() - i,
    {
        let mut j: usize = 0;
        while j < names.len()
            invariant
                i < names@.len(),
                j <= names@.len(),
                nv == names_view(names@),
                names@.len() < MAX_NUM_FIELDS,
                forall|a: int, b: int|
                    0 <= a < i && 0 <= b < names@.len() && a != b ==> nv[a] != nv[b],
                forall|b: int| 0 <= b < j && b != i ==> nv[i as int] != nv[b],
                forall|x: int| 0 <= x < names@.len() ==> valid_field_name(#[trigger] nv[x]),
            decreases names@.len() - j,
        {
            if j != i && bytes_eq(names[i].as_bytes(), names[j].as_bytes()) {
                assert(nv[i as int] == nv[j as int]);
                assert(!distinct(nv));
                assert(forall|x: int| 0 <= x < nv.len() ==> valid_field_name(#[trigger] nv[x]));
                return Some(Error::DuplicateFields);
            }
            j = j + 1;
        }
        i = i + 1;
    }
    None
}

} // verus!
