//! Resolution of `(target, service, user)` credential identities against an
//! attribute-keyed secret store.
use vstd::prelude::*;

pub mod attributes;
pub mod credential;
pub mod error;
pub mod laws;
pub mod secret_service;
pub mod store;

use crate::attributes::AttrMap;

verus! {

/// A map of the given attributes, or an empty one where there are none.
pub fn internalize(config: Option<&AttrMap>) -> (r: AttrMap)
    requires
        config matches Some(c) ==> c.wf(),
    ensures
        r.wf(),
        r@ == match config {
            Some(c) => c@,
            None => Map::empty(),
        },
{
    match config {
        Some(c) => c.duplicate(),
        None => AttrMap::new(),
    }
}

} // verus!
