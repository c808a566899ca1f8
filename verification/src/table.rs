//! The parsed configuration table the crate consumes: a key/value table with
//! string, list-of-string and boolean values.  Reading the on-disk syntax is
//! a collaborator's job; the collaborator hands the table over in this shape,
//! with anything the model does not read collapsed to `Other`.

use vstd::prelude::*;

verus! {

/// An element of a configured list: a string, or any other value, which the
/// model reads as the empty string.
pub enum ListItem {
    Text(String),
    Other,
}

/// The value bound to one key inside a section.
pub enum FieldValue {
    Text(String),
    List(Vec<ListItem>),
    Truth(bool),
    Other,
}

/// One top-level value of the configuration table: a section (an inner
/// key/value table), or any other value, which supplies no fields at all.
pub enum TopValue {
    Section(Vec<(String, FieldValue)>),
    Other,
}

/// The whole parsed configuration table: top-level keys in source order.
pub struct ConfigTable {
    pub entries: Vec<(String, TopValue)>,
}

/// First-match lookup in an association list, by the character sequence of
/// the key.
pub open spec fn assoc_lookup<T>(pairs: Seq<(String, T)>, key: Seq<char>) -> Option<T>
    decreases pairs.len(),
{
    if pairs.len() == 0 {
        None
    } else if pairs[0].0@ == key {
        Some(pairs[0].1)
    } else {
        assoc_lookup(pairs.skip(1), key)
    }
}

/// A prefix without a match leaves the lookup to the remainder.
pub proof fn lemma_assoc_lookup_skip<T>(pairs: Seq<(String, T)>, key: Seq<char>, i: int)
    requires
        0 <= i <= pairs.len(),
        forall|j: int| 0 <= j < i ==> pairs[j].0@ != key,
    ensures
        assoc_lookup(pairs, key) == assoc_lookup(pairs.skip(i), key),
    decreases i,
{
    if i > 0 {
        lemma_assoc_lookup_skip(pairs, key, i - 1);
        assert(pairs.skip(i - 1).len() > 0);
        assert(pairs.skip(i - 1)[0] == pairs[i - 1]);
        assert(pairs.skip(i - 1).skip(1) =~= pairs.skip(i));
    } else {
        assert(pairs.skip(0) =~= pairs);
    }
}

/// First-match lookup, executable form.
pub fn assoc_get<'a, T>(pairs: &'a Vec<(String, T)>, key: &str) -> (r: Option<&'a T>)
    ensures
        match r {
            Some(v) => assoc_lookup(pairs@, key@) == Some(*v),
            None => assoc_lookup(pairs@, key@) is None,
        },
{
    let k = key.to_owned();
    let mut i: usize = 0;
    while i < pairs.len()
        invariant
            i <= pairs@.len(),
            k@ == key@,
            forall|j: int| 0 <= j < i ==> pairs@[j].0@ != key@,
        decreases pairs@.len() - i,
    {
        let p = &pairs[i];
        if p.0 == k {
            proof {
                lemma_assoc_lookup_skip(pairs@, key@, i as int);
                assert(pairs@.skip(i as int)[0] == pairs@[i as int]);
            }
            return Some(&p.1);
        }
        i = i + 1;
    }
    proof {
        lemma_assoc_lookup_skip(pairs@, key@, pairs@.len() as int);
        assert(pairs@.skip(pairs@.len() as int).len() == 0);
    }
    None
}

} // verus!
