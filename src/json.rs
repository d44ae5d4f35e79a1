//! The JSON values that the protocol reads and writes.

use vstd::prelude::*;

verus! {

/// A number that is neither a non-negative nor a negative 64-bit integer; it is
/// carried through unread.
#[verifier::external_type_specification]
#[verifier::external_body]
pub struct ExNumber(serde_json::Number);

/// A JSON value. Integers are held exactly; other numbers are carried opaque.
/// An object is its list of members. Objects parsed from text come from
/// serde_json's map: their keys are sorted, and of duplicate keys only the
/// last is kept.
#[derive(Debug, PartialEq)]
pub enum Json {
    Null,
    Bool(bool),
    UInt(u64),
    Int(i64),
    Float(serde_json::Number),
    Str(String),
    Array(Vec<Json>),
    Object(Vec<(String, Json)>),
}

/// The value of the last member named `key`, if any.
pub open spec fn member(fields: Seq<(String, Json)>, key: Seq<char>) -> Option<Json>
    decreases fields.len(),
{
    if fields.len() == 0 {
        None
    } else {
        match member(fields.drop_first(), key) {
            Some(v) => Some(v),
            None => if fields[0].0@ == key {
                Some(fields[0].1)
            } else {
                None
            },
        }
    }
}

impl Json {
    pub open spec fn is_str_of(self, s: Seq<char>) -> bool {
        self matches Json::Str(t) && t@ == s
    }
}

} // verus!

verus! {

/// Whether `k` is one of `names`.
pub open spec fn named(names: Seq<String>, k: Seq<char>) -> bool {
    exists|i: int| 0 <= i < names.len() && #[trigger] names[i]@ == k
}

/// Whether no two of `names` are equal.
pub open spec fn distinct_names(names: Seq<String>) -> bool {
    forall|i: int, j: int| 0 <= i < names.len() && 0 <= j < names.len() && i != j ==> names[i]@ != names[j]@
}

/// The index of the first of `names` equal to `k`.
fn position(names: &Vec<String>, k: &String) -> (r: Option<usize>)
    ensures
        r matches Some(i) ==> i < names.len() && names@[i as int]@ == k@,
        r is None ==> !named(names@, k@),
{
    let mut i: usize = 0;
    while i < names.len()
        invariant
            i <= names.len(),
            forall|j: int| 0 <= j < i ==> names@[j]@ != k@,
        decreases names.len() - i,
    {
        if names[i] == *k {
            return Some(i);
        }
        i = i + 1;
    }
    None
}

/// Splits the members of an object by name: for each of `names`, the value of
/// the last member so named; and whether some member bears none of the names.
pub fn take_members(fields: Vec<(String, Json)>, names: &Vec<String>) -> (r: (Vec<Option<Json>>, bool))
    requires
        distinct_names(names@),
    ensures
        r.0.len() == names.len(),
        forall|i: int| 0 <= i < names.len() ==> r.0@[i] == member(fields@, #[trigger] names@[i]@),
        r.1 == exists|j: int| 0 <= j < fields.len() && !named(names@, #[trigger] fields@[j].0@),
{
    let ghost s = fields@;
    let mut fields = fields;
    let mut slots: Vec<Option<Json>> = Vec::new();
    let mut k: usize = 0;
    while k < names.len()
        invariant
            k <= names.len(),
            slots.len() == k,
            forall|i: int| 0 <= i < k ==> slots@[i] is None,
        decreases names.len() - k,
    {
        slots.push(None);
        k = k + 1;
    }
    let mut unknown = false;
    while fields.len() > 0
        invariant
            fields@ == s.take(fields.len() as int),
            fields.len() <= s.len(),
            slots.len() == names.len(),
            distinct_names(names@),
            forall|i: int| 0 <= i < names.len() ==> slots@[i] == member(s.skip(fields.len() as int), #[trigger] names@[i]@),
            unknown == exists|j: int| fields.len() <= j < s.len() && !named(names@, #[trigger] s[j].0@),
        decreases fields.len(),
    {
        let ghost n = (fields.len() - 1) as int;
        let (key, value) = fields.pop().unwrap();
        assert(s.skip(n).drop_first() =~= s.skip(n + 1));
        assert(s.skip(n)[0] == s[n]);
        assert(fields@ =~= s.take(n));
        match position(names, &key) {
            Some(i) => {
                if slots[i].is_none() {
                    slots.set(i, Some(value));
                }
            },
            None => {
                unknown = true;
            },
        }
        assert(forall|i: int| 0 <= i < names.len() ==> slots@[i] == member(s.skip(n), #[trigger] names@[i]@));
        assert(unknown == exists|j: int| n <= j < s.len() && !named(names@, #[trigger] s[j].0@)) by {
            if !named(names@, s[n].0@) {
                assert(n <= n < s.len() && !named(names@, s[n].0@));
            }
        }
    }
    assert(s.skip(0) =~= s);
    (slots, unknown)
}

} // verus!
