//! The routes and payloads of the search-engine REST interface, as far as
//! they are computed from plain values: building a URI for a resource,
//! and joining identifiers into the comma-separated form the interface
//! expects. Performing the network call itself happens outside the library.

use vstd::prelude::*;
use crate::digits::{append_decimal, dec_digits};
use crate::index::{canonical_seq, Index};
use crate::sorting::views_of;

verus! {

/// The comma-separated canonical texts of a sequence of identifiers.
pub open spec fn spec_joined(ids: Seq<crate::index::IdView>) -> Seq<char>
    decreases ids.len(),
{
    if ids.len() == 0 {
        Seq::empty()
    } else if ids.len() == 1 {
        canonical_seq(ids[0])
    } else {
        spec_joined(ids.drop_last()) + seq![','] + canonical_seq(ids.last())
    }
}

/// The URI of a resource on the given host and port:
/// `http://host:port/resource`.
pub open spec fn route_seq(host: Seq<char>, port: int, resource: Seq<char>) -> Seq<char> {
    "http://"@ + host + seq![':'] + dec_digits(port) + seq!['/'] + resource
}

/// Joins identifiers into their comma-separated canonical texts.
pub fn join_indices(indices: &Vec<Index>) -> (r: String)
    requires
        forall|j: int| 0 <= j < indices@.len() ==> (#[trigger] indices@[j]).wf(),
    ensures
        r@ == spec_joined(views_of(indices@)),
{
    let ghost ids = views_of(indices@);
    let mut out = String::new();
    let mut j: usize = 0;
    while j < indices.len()
        invariant
            0 <= j <= indices@.len(),
            ids == views_of(indices@),
            forall|t: int| 0 <= t < indices@.len() ==> (#[trigger] indices@[t]).wf(),
            out@ == spec_joined(ids.subrange(0, j as int)),
        decreases indices@.len() - j,
    {
        if j > 0 {
            out.append(",");
        }
        let piece = indices[j].canonical_string();
        out.append(piece.as_str());
        proof {
            reveal_strlit(",");
            let sub = ids.subrange(0, j + 1);
            assert(sub.drop_last() =~= ids.subrange(0, j as int));
            assert(sub.last() == ids[j as int]);
            if j == 0 {
                assert(out@ =~= spec_joined(sub));
            } else {
                assert(out@ =~= spec_joined(sub));
            }
        }
        j += 1;
    }
    proof {
        assert(ids.subrange(0, j as int) =~= ids);
    }
    out
}

/// Builds the URI of a resource on the given host and port.
pub fn build_route(host: &str, port: u16, resource: &str) -> (r: String)
    ensures
        r@ == route_seq(host@, port as int, resource@),
{
    let mut out = String::from_str("http://");
    out.append(host);
    out.append(":");
    append_decimal(&mut out, port as u32);
    out.append("/");
    out.append(resource);
    proof {
        reveal_strlit(":");
        reveal_strlit("/");
        assert(out@ =~= route_seq(host@, port as int, resource@));
    }
    out
}

/// Computes the routes for basic operations over indices: listing the live
/// catalog, searching a set of indices, and deleting a set of indices.
#[derive(Debug)]
pub struct Elasticrud {
    pub host: String,
    pub port: u16,
}

impl Elasticrud {
    /// Builds an instance from a host name and port number.
    pub fn new(host: &str, port: u16) -> (r: Elasticrud)
        ensures
            r.host@ == host@,
            r.port == port,
    {
        Elasticrud { host: host.to_owned(), port }
    }

    /// The URI of the given resource on this host and port.
    fn get_route(&self, resource: &str) -> (r: String)
        ensures
            r@ == route_seq(self.host@, self.port as int, resource@),
    {
        build_route(self.host.as_str(), self.port, resource)
    }

    /// The route that lists the live catalog, one entry per index.
    pub fn indices_route(&self) -> (r: String)
        ensures
            r@ == route_seq(self.host@, self.port as int, "_cat/indices?format=json"@),
    {
        self.get_route("_cat/indices?format=json")
    }

    /// The route that searches the given indices.
    pub fn search_route(&self, indices: &Vec<Index>) -> (r: String)
        requires
            forall|j: int| 0 <= j < indices@.len() ==> (#[trigger] indices@[j]).wf(),
        ensures
            r@ == route_seq(
                self.host@,
                self.port as int,
                spec_joined(views_of(indices@)) + "/_search"@,
            ),
    {
        let mut joined = join_indices(indices);
        joined.append("/_search");
        self.get_route(joined.as_str())
    }

    /// The route that deletes the given indices.
    pub fn delete_route(&self, indices: &Vec<Index>) -> (r: String)
        requires
            forall|j: int| 0 <= j < indices@.len() ==> (#[trigger] indices@[j]).wf(),
        ensures
            r@ == route_seq(self.host@, self.port as int, spec_joined(views_of(indices@))),
    {
        let joined = join_indices(indices);
        self.get_route(joined.as_str())
    }
}

} // verus!
