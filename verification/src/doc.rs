//! The metadata document: a dynamically-shaped tree of plain values, as a
//! build tool's structured output parses into. The launcher never assumes a
//! shape; every field access is fallible and answered by `record_get`.

use vstd::prelude::*;

verus! {

/// One node of a metadata document.
pub enum Doc {
    Null,
    Bool(bool),
    Int(i64),
    Text(String),
    List(Vec<Doc>),
    Record(Vec<(String, Doc)>),
}

/// The value of the first field named `key` in a record's field list.
pub open spec fn spec_lookup(fields: Seq<(String, Doc)>, key: Seq<char>) -> Option<Doc>
    decreases fields.len(),
{
    if fields.len() == 0 {
        None
    } else if fields[0].0@ == key {
        Some(fields[0].1)
    } else {
        spec_lookup(fields.drop_first(), key)
    }
}

/// Looks up the first field named `key` in a record's field list.
pub fn record_get<'a>(fields: &'a Vec<(String, Doc)>, key: &String) -> (r: Option<&'a Doc>)
    ensures
        match r {
            Some(d) => spec_lookup(fields@, key@) == Some(*d),
            None => spec_lookup(fields@, key@) is None,
        },
{
    let mut i: usize = 0;
    proof {
        assert(fields@.skip(0) =~= fields@);
    }
    while i < fields.len()
        invariant
            0 <= i <= fields@.len(),
            spec_lookup(fields@, key@) == spec_lookup(fields@.skip(i as int), key@),
        decreases fields@.len() - i,
    {
        proof {
            assert(fields@.skip(i as int)[0] == fields@[i as int]);
            assert(fields@.skip(i as int).drop_first() =~= fields@.skip(i as int + 1));
        }
        if fields[i].0 == *key {
            return Some(&fields[i].1);
        }
        i = i + 1;
    }
    None
}

} // verus!
