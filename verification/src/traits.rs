//! The capability an index family declares: its own base name.

use vstd::prelude::*;

verus! {

/// A named index family: a type of payload associated with the indices that
/// share one base name. A family declares that name; decoding one catalog
/// record into the payload type is the transport's responsibility and
/// happens outside the library.
pub trait ElasticIndex {
    /// The declared base name, as a specification value.
    spec fn spec_name() -> Seq<char>;

    /// The declared base name of the family.
    fn family_name() -> (r: String)
        ensures
            r@ == Self::spec_name(),
    ;
}

} // verus!
