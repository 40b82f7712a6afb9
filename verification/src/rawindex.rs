//! The raw per-index metadata the search engine reports for a live index.

use vstd::prelude::*;

verus! {

/// One entry of the live catalog, as the search engine reports it. The
/// library consumes only the `index` field — the raw index name; the other
/// fields are carried for the operator's benefit.
#[derive(Debug)]
pub struct RawIndex {
    pub health: String,
    pub status: String,
    pub index: String,
    pub pri: String,
    pub rep: String,
    pub store_size: String,
    pub pri_store_size: String,
}

} // verus!
