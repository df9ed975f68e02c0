//! The raw, semi-typed shape of a remote row before normalization. The
//! remote store is schema-flexible: any column may be blank or hold an
//! unexpected shape on any row, so every value here is looked up by key
//! and checked for its expected shape, field by field.

use vstd::prelude::*;

use crate::strings::str_eq_str;

verus! {

/// One key/value pair of a raw record's fields payload.
pub struct RawEntry {
    pub key: String,
    pub value: RawValue,
}

/// A semi-typed value as the remote store's decoder hands it over.
pub enum RawValue {
    Str(String),
    Int(i64),
    Bool(bool),
    List(Vec<RawValue>),
    Obj(Vec<RawEntry>),
}

/// A raw row of the remote store: the store-assigned id and the sparse
/// fields payload.
pub struct RawRecord {
    pub id: String,
    pub fields: Vec<RawEntry>,
}

/// The value under the first entry whose key is `key`, if any.
pub open spec fn spec_lookup(entries: Seq<RawEntry>, key: Seq<char>) -> Option<RawValue>
    decreases entries.len(),
{
    if entries.len() == 0 {
        None
    } else if entries[0].key@ == key {
        Some(entries[0].value)
    } else {
        spec_lookup(entries.skip(1), key)
    }
}

/// Finds the first entry under `key`, `None` when the key is absent.
pub fn lookup<'a>(entries: &'a Vec<RawEntry>, key: &str) -> (r: Option<&'a RawValue>)
    ensures
        match r {
            Some(v) => spec_lookup(entries@, key@) == Some(*v),
            None => spec_lookup(entries@, key@) is None,
        },
{
    let mut i: usize = 0;
    proof {
        assert(entries@.skip(0) =~= entries@);
    }
    while i < entries.len()
        invariant
            i <= entries@.len(),
            spec_lookup(entries@, key@) == spec_lookup(entries@.skip(i as int), key@),
        decreases entries@.len() - i,
    {
        proof {
            assert(entries@.skip(i as int)[0] == entries@[i as int]);
        }
        if str_eq_str(entries[i].key.as_str(), key) {
            return Some(&entries[i].value);
        }
        proof {
            assert(entries@.skip(i as int).skip(1) =~= entries@.skip(i + 1));
        }
        i = i + 1;
    }
    None
}

} // verus!
