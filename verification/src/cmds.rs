//! The command surface behind the command line: query, process, delete.
//! Each command computes its result from a catalog snapshot and plain
//! values; printing the result and talking to the transport happen outside
//! the library.

use vstd::prelude::*;
use crate::cmdprocessor::{
    opt_int, opt_name_view, spec_clamp, spec_listing, spec_query_names, spec_sorted_ids,
    CmdProcessor, DeletePlan,
};
use crate::errors::EcError;
use crate::index::{str_eq, Index};
use crate::indices::Deprecate;
use crate::sorting::views_of;
use crate::traits::ElasticIndex;

verus! {

/// Provides the command methods of the command line, delegating the work
/// to the processor.
pub struct Cmds {
    pub processor: CmdProcessor,
}

impl Cmds {
    /// Wraps a processor.
    pub fn new(cproc: CmdProcessor) -> (r: Cmds)
        ensures
            r.processor == cproc,
    {
        Cmds { processor: cproc }
    }

    /// The query command: the unique base names of the matching
    /// identifiers when `names_only` is set, and their sorted canonical
    /// listing otherwise.
    pub fn query(
        &self,
        catalog: &Vec<String>,
        name: Option<String>,
        start: Option<i32>,
        end: Option<i32>,
        names_only: bool,
        today: i64,
    ) -> (r: Vec<String>)
        requires
            0 <= today,
        ensures
            names_only ==> r.deep_view() == spec_query_names(
                catalog.deep_view(),
                opt_name_view(name),
                opt_int(start),
                opt_int(end),
                today as int,
            ),
            !names_only ==> r.deep_view() == spec_listing(
                catalog.deep_view(),
                opt_name_view(name),
                opt_int(start),
                opt_int(end),
                today as int,
            ),
    {
        if names_only {
            self.processor.query_names(catalog, name, start, end, today)
        } else {
            self.processor.query(catalog, name, start, end, today)
        }
    }

    /// The process command: resolves the given name against the known
    /// typed families and selects that family's sorted identifiers. An
    /// unrecognized name is a reported failure, not a crash.
    pub fn process(
        &self,
        catalog: &Vec<String>,
        name: String,
        start: Option<i32>,
        end: Option<i32>,
        today: i64,
    ) -> (r: Result<Vec<Index>, EcError>)
        requires
            0 <= today,
        ensures
            name@ == Deprecate::spec_name() ==> r is Ok && views_of(r->Ok_0@) == spec_sorted_ids(
                catalog.deep_view(),
                Option::Some(name@),
                opt_int(start),
                opt_int(end),
                today as int,
            ),
            name@ != Deprecate::spec_name() ==> r is Err && r->Err_0 is ParseError,
    {
        let fam = Deprecate::family_name();
        if str_eq(name.as_str(), fam.as_str()) {
            Ok(self.processor.get::<Deprecate>(catalog, start, end, today))
        } else {
            let mut m = String::from_str("Unrecognized index: ");
            m.append(name.as_str());
            Err(EcError::ParseError(m))
        }
    }

    /// The delete command: computes the delete plan for a base name, the
    /// boundary clamped to the configured retention floor. The plan is to
    /// be executed exactly when this is no dry run.
    pub fn delete(
        &self,
        catalog: &Vec<String>,
        name: String,
        start: Option<i32>,
        end: i32,
        dry_run: bool,
        today: i64,
    ) -> (r: DeletePlan)
        requires
            0 <= today,
            self.processor.config.wf(),
        ensures
            r.execute == !dry_run,
            views_of(r.indices@) == spec_sorted_ids(
                catalog.deep_view(),
                Option::Some(name@),
                opt_int(start),
                Option::Some(spec_clamp(end as int, self.processor.config.min_days as int)),
                today as int,
            ),
            forall|j: int| 0 <= j < r.indices@.len() ==> (#[trigger] r.indices@[j]@).wf(),
    {
        self.processor.delete(catalog, name, start, end, dry_run, today)
    }
}

} // verus!
