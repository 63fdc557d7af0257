//! Validation of an application's prefixed environment variables against the
//! list of variables that it requires.

use vstd::prelude::*;
use crate::names::{lemma_take_one_more, texts, NameSet};

pub mod constants;
pub mod controller;
pub mod environment;
pub mod guarantees;
pub mod names;
pub mod server;
pub mod text;

verus! {

/// The names of `required_collection` that are not in `provided_collection`.
pub fn find_missing(required_collection: &NameSet, provided_collection: &NameSet) -> (missing:
    NameSet)
    ensures
        missing@ == required_collection@.difference(provided_collection@),
{
    let required = required_collection.names();
    let ghost list = texts(required@);
    let mut missing = NameSet::new();
    let mut i: usize = 0;
    while i < required.len()
        invariant
            i <= required@.len(),
            list == texts(required@),
            list.to_set() == required_collection@,
            missing@ == list.take(i as int).to_set().difference(provided_collection@),
        decreases required@.len() - i,
    {
        proof {
            lemma_take_one_more(list, i as int);
        }
        if !provided_collection.contains(required[i].as_str()) {
            missing.insert(required[i].clone());
        }
        assert(missing@ =~= list.take(i + 1).to_set().difference(provided_collection@));
        i = i + 1;
    }
    assert(list.take(i as int) =~= list);
    missing
}

} // verus!
