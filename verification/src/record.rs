//! The records that are grouped.

use vstd::prelude::*;

verus! {

/// One person: a name and five categorical attributes.
#[derive(Debug, Clone)]
pub struct Badger {
    pub name: String,
    pub gender: String,
    pub discipline: String,
    pub seniority: String,
    pub client: String,
    pub team: String,
}

} // verus!
