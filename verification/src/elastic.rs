//! A second client shape over the same routes, kept for compatibility with
//! callers that still construct it by this name.

use vstd::prelude::*;
use crate::elasticrud::{build_route, join_indices, route_seq, spec_joined};
use crate::index::Index;
use crate::sorting::views_of;

verus! {

/// Computes the routes of the basic cleanup operations from a host name and
/// port number.
#[derive(Debug)]
pub struct Elasticleaner {
    pub host: String,
    pub port: u16,
}

impl Elasticleaner {
    /// Builds an instance from a host name and port number.
    pub fn new(host: &str, port: u16) -> (r: Elasticleaner)
        ensures
            r.host@ == host@,
            r.port == port,
    {
        Elasticleaner { host: host.to_owned(), port }
    }

    /// The URI of the given resource on this host and port.
    fn get_route(&self, resource: &str) -> (r: String)
        ensures
            r@ == route_seq(self.host@, self.port as int, resource@),
    {
        build_route(self.host.as_str(), self.port, resource)
    }

    /// The route that lists the live catalog.
    pub fn indices_route(&self) -> (r: String)
        ensures
            r@ == route_seq(self.host@, self.port as int, "_cat/indices?format=json"@),
    {
        self.get_route("_cat/indices?format=json")
    }

    /// The route that retrieves the data held by the given indices.
    pub fn data_route(&self, indices: &Vec<Index>) -> (r: String)
        requires
            forall|j: int| 0 <= j < indices@.len() ==> (#[trigger] indices@[j]).wf(),
        ensures
            r@ == route_seq(
                self.host@,
                self.port as int,
                spec_joined(views_of(indices@)) + "/_search"@,
            ),
    {
        let mut joined = join_indices(indices);
        joined.append("/_search");
        self.get_route(joined.as_str())
    }

    /// The route that deletes the given indices.
    pub fn delete_route(&self, indices: &Vec<Index>) -> (r: String)
        requires
            forall|j: int| 0 <= j < indices@.len() ==> (#[trigger] indices@[j]).wf(),
        ensures
            r@ == route_seq(self.host@, self.port as int, spec_joined(views_of(indices@))),
    {
        let joined = join_indices(indices);
        self.get_route(joined.as_str())
    }
}

} // verus!
