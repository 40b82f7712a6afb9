//! The query, filter and delete-set engine over the live catalog.
//!
//! Raw catalog strings are parsed into identifiers — entries that fail to
//! parse are silently discarded, a deliberate policy for noisy catalogs —
//! then filtered by base name and by age against a reference day number,
//! sorted, deduplicated by name, or clamped against the retention floor.

use vstd::prelude::*;
use vstd::relations::sorted_by;
use vstd::seq_lib::to_multiset_contains;
use crate::config::Config;
use crate::dates::Date;
use crate::elasticrud::Elasticrud;
use crate::index::{canonical_seq, id_le_fn, lemma_id_le_total_ordering, str_eq, IdView, Index};
use crate::indexparser::{lemma_parses_wf, spec_parsed_id, spec_parses, IndexParser};
use crate::sorting::{lemma_sorted_views_unique, sort_indices, views_of};
use crate::traits::ElasticIndex;

verus! {

/// The age in days of a date, measured at the given reference day number:
/// the reference day minus the date's own day number.
pub open spec fn age_of(d: Date, today: int) -> int {
    today - d.spec_day_number()
}

/// The name filter as a specification value.
pub open spec fn opt_name_view(o: Option<String>) -> Option<Seq<char>> {
    match o {
        Option::Some(s) => Option::Some(s@),
        Option::None => Option::None,
    }
}

/// An optional day bound as a specification value.
pub open spec fn opt_int(o: Option<i32>) -> Option<int> {
    match o {
        Option::Some(v) => Option::Some(v as int),
        Option::None => Option::None,
    }
}

/// True when an identifier matches the criteria: the exact name when a name
/// is given; an age of at most `start` days when `start` is given, the
/// inclusive newer edge; an age of strictly more than `end` days when `end`
/// is given, the exclusive older edge. With no criteria given, everything
/// matches.
pub open spec fn matches_criteria(
    v: IdView,
    name: Option<Seq<char>>,
    start: Option<int>,
    end: Option<int>,
    today: int,
) -> bool {
    &&& (name is Some ==> v.name == name->0)
    &&& (start is Some ==> age_of(v.date, today) <= start->0)
    &&& (end is Some ==> age_of(v.date, today) > end->0)
}

/// The identifiers selected from a catalog: every entry that parses —
/// entries that do not are silently discarded — and matches the criteria,
/// in catalog order.
pub open spec fn spec_selected(
    catalog: Seq<Seq<char>>,
    name: Option<Seq<char>>,
    start: Option<int>,
    end: Option<int>,
    today: int,
) -> Seq<IdView>
    decreases catalog.len(),
{
    if catalog.len() == 0 {
        Seq::empty()
    } else {
        let rest = spec_selected(catalog.drop_last(), name, start, end, today);
        let s = catalog.last();
        if spec_parses(s) && matches_criteria(spec_parsed_id(s), name, start, end, today) {
            rest.push(spec_parsed_id(s))
        } else {
            rest
        }
    }
}

/// The selection, sorted ascending in the identifier total order.
pub open spec fn spec_sorted_ids(
    catalog: Seq<Seq<char>>,
    name: Option<Seq<char>>,
    start: Option<int>,
    end: Option<int>,
    today: int,
) -> Seq<IdView> {
    spec_selected(catalog, name, start, end, today).sort_by(id_le_fn())
}

/// The sorted listing: the canonical text of every selected identifier, in
/// sorted order.
pub open spec fn spec_listing(
    catalog: Seq<Seq<char>>,
    name: Option<Seq<char>>,
    start: Option<int>,
    end: Option<int>,
    today: int,
) -> Seq<Seq<char>> {
    spec_sorted_ids(catalog, name, start, end, today).map_values(|v: IdView| canonical_seq(v))
}

/// The names of a sequence of identifiers, in order.
pub open spec fn spec_names(ids: Seq<IdView>) -> Seq<Seq<char>> {
    ids.map_values(|v: IdView| v.name)
}

/// First-occurrence deduplication: keeps each name the first time it
/// appears and drops every later repetition.
pub open spec fn spec_dedup(s: Seq<Seq<char>>) -> Seq<Seq<char>>
    decreases s.len(),
{
    if s.len() == 0 {
        Seq::empty()
    } else {
        let rest = spec_dedup(s.drop_last());
        if s.drop_last().contains(s.last()) {
            rest
        } else {
            rest.push(s.last())
        }
    }
}

/// The unique names among the selected identifiers, each kept at its first
/// occurrence.
pub open spec fn spec_query_names(
    catalog: Seq<Seq<char>>,
    name: Option<Seq<char>>,
    start: Option<int>,
    end: Option<int>,
    today: int,
) -> Seq<Seq<char>> {
    spec_dedup(spec_names(spec_selected(catalog, name, start, end, today)))
}

/// The retention guard: the requested deletion boundary when it lies beyond
/// the minimum, and the minimum otherwise.
pub open spec fn spec_clamp(requested_end: int, minimum_days: int) -> int {
    if requested_end > minimum_days {
        requested_end
    } else {
        minimum_days
    }
}

/// Deduplication is correct: the result holds no duplicates, and it holds
/// exactly the names the input holds.
pub proof fn lemma_dedup_names(s: Seq<Seq<char>>)
    ensures
        spec_dedup(s).no_duplicates(),
        forall|x: Seq<char>| spec_dedup(s).contains(x) <==> s.contains(x),
    decreases s.len(),
{
    if s.len() > 0 {
        let rest = s.drop_last();
        lemma_dedup_names(rest);
        assert forall|x: Seq<char>| s.contains(x) implies rest.contains(x) || x == s.last() by {
            let i = choose|i: int| 0 <= i < s.len() && s[i] == x;
            if i < s.len() - 1 {
                assert(rest[i] == x);
            }
        }
        assert forall|x: Seq<char>| rest.contains(x) implies s.contains(x) by {
            let i = choose|i: int| 0 <= i < rest.len() && rest[i] == x;
            assert(s[i] == x);
        }
        assert(s.contains(s.last())) by {
            assert(s[s.len() - 1] == s.last());
        }
        let d = spec_dedup(s);
        let dr = spec_dedup(rest);
        if !rest.contains(s.last()) {
            assert(d == dr.push(s.last()));
            assert forall|x: Seq<char>| d.contains(x) implies s.contains(x) by {
                let i = choose|i: int| 0 <= i < d.len() && d[i] == x;
                if i < d.len() - 1 {
                    assert(dr[i] == x);
                }
            }
            assert forall|x: Seq<char>| s.contains(x) implies d.contains(x) by {
                if x == s.last() {
                    assert(d[d.len() - 1] == x);
                } else {
                    assert(rest.contains(x));
                    let i = choose|i: int| 0 <= i < dr.len() && dr[i] == x;
                    assert(d[i] == x);
                }
            }
            assert(d.no_duplicates()) by {
                assert forall|i: int, j: int| 0 <= i < j < d.len() implies d[i] != d[j] by {
                    if j < d.len() - 1 {
                        assert(dr[i] != dr[j]);
                    } else {
                        assert(d[i] == dr[i]);
                        if d[i] == s.last() {
                            assert(dr.contains(s.last()));
                        }
                    }
                }
            }
        } else {
            assert(d == dr);
            assert forall|x: Seq<char>| s.contains(x) implies d.contains(x) by {
                if x == s.last() {
                    assert(rest.contains(x));
                }
            }
        }
    }
}

/// Every selected identifier is well formed: its date is a valid calendar
/// date and its name is non-empty.
pub proof fn lemma_selected_wf(
    catalog: Seq<Seq<char>>,
    name: Option<Seq<char>>,
    start: Option<int>,
    end: Option<int>,
    today: int,
)
    ensures
        forall|j: int|
            0 <= j < spec_selected(catalog, name, start, end, today).len() ==> (
            #[trigger] spec_selected(catalog, name, start, end, today)[j]).wf(),
    decreases catalog.len(),
{
    let sel = spec_selected(catalog, name, start, end, today);
    if catalog.len() > 0 {
        let rest = spec_selected(catalog.drop_last(), name, start, end, today);
        lemma_selected_wf(catalog.drop_last(), name, start, end, today);
        let s = catalog.last();
        if spec_parses(s) {
            lemma_parses_wf(s);
        }
        assert forall|j: int| 0 <= j < sel.len() implies (#[trigger] sel[j]).wf() by {
            if spec_parses(s) && matches_criteria(spec_parsed_id(s), name, start, end, today) {
                assert(sel == rest.push(spec_parsed_id(s)));
                if j < rest.len() {
                    assert(sel[j] == rest[j]);
                }
            } else {
                assert(sel == rest);
            }
        }
    }
}

/// The retention guard's laws: clamping is idempotent, its result never
/// falls below the minimum, and a request strictly beyond the minimum
/// passes through unchanged.
pub proof fn lemma_clamp_laws(x: int, m: int)
    ensures
        spec_clamp(spec_clamp(x, m), m) == spec_clamp(x, m),
        spec_clamp(x, m) >= m,
        spec_clamp(x, m) >= x,
        spec_clamp(m + 1, m) == m + 1,
{
}

/// The retention guard: clamps a requested deletion boundary to the
/// configured minimum, so a deletion can never target indices newer than
/// `minimum_days` old.
pub fn clamp(requested_end: i32, minimum_days: i32) -> (r: i32)
    ensures
        r == spec_clamp(requested_end as int, minimum_days as int),
        r >= minimum_days,
        r >= requested_end,
{
    if requested_end > minimum_days {
        requested_end
    } else {
        minimum_days
    }
}

/// The computed outcome of a delete request: the identifiers that fall in
/// the deletion window after clamping, and whether the transport's delete
/// operation is to be invoked. On a dry run it never is.
pub struct DeletePlan {
    pub indices: Vec<Index>,
    pub execute: bool,
}

/// Executes the engine's commands over a catalog snapshot: filtering,
/// sorted listing, unique names, typed-family selection, and delete-set
/// computation under the retention guard.
pub struct CmdProcessor {
    pub config: Config,
    pub ec: Elasticrud,
}

impl CmdProcessor {
    /// Builds a processor from a configuration.
    pub fn new(config: Config) -> (r: CmdProcessor)
        ensures
            r.config == config,
            r.ec.host@ == config.host@,
            r.ec.port == config.port,
    {
        let ec = Elasticrud::new(config.host.as_str(), config.port);
        CmdProcessor { config, ec }
    }

    /// Selects identifiers from a catalog snapshot: parses every entry,
    /// silently discarding the entries that fail to parse, then keeps the
    /// identifiers that match the optional name and the optional age
    /// window, `start` being the inclusive newer edge and `end` the
    /// exclusive older edge, both measured against the given reference day
    /// number. The engine applies both bounds as given and does not
    /// validate their ordering: a window whose edges cross selects
    /// nothing.
    pub fn get_indices(
        &self,
        catalog: &Vec<String>,
        name: Option<String>,
        start: Option<i32>,
        end: Option<i32>,
        today: i64,
    ) -> (r: Vec<Index>)
        requires
            0 <= today,
        ensures
            views_of(r@) == spec_selected(
                catalog.deep_view(),
                opt_name_view(name),
                opt_int(start),
                opt_int(end),
                today as int,
            ),
            forall|j: int| 0 <= j < r@.len() ==> (#[trigger] r@[j]@).wf(),
    {
        let ghost dv = catalog.deep_view();
        let ghost nv = opt_name_view(name);
        let ghost sv = opt_int(start);
        let ghost ev = opt_int(end);
        let mut out: Vec<Index> = Vec::new();
        let mut j: usize = 0;
        while j < catalog.len()
            invariant
                0 <= j <= catalog@.len(),
                0 <= today,
                dv == catalog.deep_view(),
                nv == opt_name_view(name),
                sv == opt_int(start),
                ev == opt_int(end),
                views_of(out@) == spec_selected(
                    dv.subrange(0, j as int),
                    nv,
                    sv,
                    ev,
                    today as int,
                ),
                forall|t: int| 0 <= t < out@.len() ==> (#[trigger] out@[t]@).wf(),
            decreases catalog@.len() - j,
        {
            let ghost prev = views_of(out@);
            let entry: &String = &catalog[j];
            proof {
                assert(dv[j as int] == catalog@[j as int]@);
            }
            match IndexParser::parse(entry.as_str()) {
                Ok(ix) => {
                    let own = crate::dates::exec_day_number(
                        ix.date.year,
                        ix.date.month,
                        ix.date.day,
                    );
                    let age: i64 = today - own as i64;
                    let keep_name: bool = match &name {
                        Some(n) => n.eq(&ix.name),
                        None => true,
                    };
                    let keep_start: bool = match start {
                        Some(s) => age <= s as i64,
                        None => true,
                    };
                    let keep_end: bool = match end {
                        Some(e) => age > e as i64,
                        None => true,
                    };
                    proof {
                        assert(age == age_of(ix.date, today as int));
                        assert((keep_name && keep_start && keep_end) == matches_criteria(
                            ix@,
                            nv,
                            sv,
                            ev,
                            today as int,
                        ));
                    }
                    if keep_name && keep_start && keep_end {
                        out.push(ix);
                        proof {
                            assert(views_of(out@) =~= prev.push(ix@));
                        }
                    }
                },
                Err(_) => {},
            }
            proof {
                let sub1 = dv.subrange(0, j + 1);
                assert(sub1.drop_last() =~= dv.subrange(0, j as int));
                assert(sub1.last() == dv[j as int]);
                assert(views_of(out@) == spec_selected(sub1, nv, sv, ev, today as int));
            }
            j += 1;
        }
        proof {
            assert(dv.subrange(0, j as int) =~= dv);
        }
        out
    }

    /// Selects and sorts: the identifiers matching the criteria, ascending
    /// in the identifier total order.
    fn selected_sorted(
        &self,
        catalog: &Vec<String>,
        name: Option<String>,
        start: Option<i32>,
        end: Option<i32>,
        today: i64,
    ) -> (r: Vec<Index>)
        requires
            0 <= today,
        ensures
            views_of(r@) == spec_sorted_ids(
                catalog.deep_view(),
                opt_name_view(name),
                opt_int(start),
                opt_int(end),
                today as int,
            ),
            forall|j: int| 0 <= j < r@.len() ==> (#[trigger] r@[j]@).wf(),
    {
        let ghost dv = catalog.deep_view();
        let ghost nv = opt_name_view(name);
        let ghost sv = opt_int(start);
        let ghost ev = opt_int(end);
        let ids = self.get_indices(catalog, name, start, end, today);
        let ghost sel = spec_selected(dv, nv, sv, ev, today as int);
        let sorted = sort_indices(ids);
        proof {
            lemma_id_le_total_ordering();
            sel.lemma_sort_by_ensures(id_le_fn());
            lemma_sorted_views_unique(views_of(sorted@), sel.sort_by(id_le_fn()));
            lemma_selected_wf(dv, nv, sv, ev, today as int);
            assert forall|j: int| 0 <= j < sorted@.len() implies (#[trigger] sorted@[j]@).wf() by {
                let vs = views_of(sorted@);
                assert(vs[j] == sorted@[j]@);
                assert(vs.contains(vs[j]));
                to_multiset_contains(vs, vs[j]);
                to_multiset_contains(sel, vs[j]);
                assert(sel.contains(vs[j]));
                let t = choose|t: int| 0 <= t < sel.len() && sel[t] == vs[j];
                assert(sel[t].wf());
            }
        }
        sorted
    }

    /// The unique base names among the identifiers matching the criteria,
    /// each kept at its first occurrence. The result holds no duplicate
    /// name, and it holds a name exactly when some matching identifier
    /// carries it.
    pub fn query_names(
        &self,
        catalog: &Vec<String>,
        name: Option<String>,
        start: Option<i32>,
        end: Option<i32>,
        today: i64,
    ) -> (r: Vec<String>)
        requires
            0 <= today,
        ensures
            r.deep_view() == spec_query_names(
                catalog.deep_view(),
                opt_name_view(name),
                opt_int(start),
                opt_int(end),
                today as int,
            ),
            r.deep_view().no_duplicates(),
            forall|x: Seq<char>|
                r.deep_view().contains(x) <==> spec_names(
                    spec_selected(
                        catalog.deep_view(),
                        opt_name_view(name),
                        opt_int(start),
                        opt_int(end),
                        today as int,
                    ),
                ).contains(x),
    {
        let ghost dv = catalog.deep_view();
        let ghost nv = opt_name_view(name);
        let ghost sv = opt_int(start);
        let ghost ev = opt_int(end);
        let ids = self.get_indices(catalog, name, start, end, today);
        let ghost names = spec_names(views_of(ids@));
        let mut out: Vec<String> = Vec::new();
        let mut j: usize = 0;
        while j < ids.len()
            invariant
                0 <= j <= ids@.len(),
                names == spec_names(views_of(ids@)),
                out.deep_view() == spec_dedup(names.subrange(0, j as int)),
            decreases ids@.len() - j,
        {
            proof {
                assert(names[j as int] == ids@[j as int]@.name);
            }
            let present = contains_str(&out, ids[j].name());
            proof {
                let prefix = names.subrange(0, j as int);
                lemma_dedup_names(prefix);
                assert(out.deep_view().contains(names[j as int]) == prefix.contains(
                    names[j as int],
                ));
            }
            if !present {
                let ghost before = out.deep_view();
                let n = ids[j].name.clone();
                out.push(n);
                proof {
                    assert(out.deep_view() =~= before.push(names[j as int]));
                }
            }
            proof {
                let sub1 = names.subrange(0, j + 1);
                assert(sub1.drop_last() =~= names.subrange(0, j as int));
                assert(sub1.last() == names[j as int]);
                assert(out.deep_view() == spec_dedup(sub1));
            }
            j += 1;
        }
        proof {
            assert(names.subrange(0, j as int) =~= names);
            lemma_dedup_names(names);
        }
        out
    }

    /// The sorted listing of the identifiers matching the criteria: the
    /// canonical text of each, ascending in the identifier total order.
    pub fn query(
        &self,
        catalog: &Vec<String>,
        name: Option<String>,
        start: Option<i32>,
        end: Option<i32>,
        today: i64,
    ) -> (r: Vec<String>)
        requires
            0 <= today,
        ensures
            r.deep_view() == spec_listing(
                catalog.deep_view(),
                opt_name_view(name),
                opt_int(start),
                opt_int(end),
                today as int,
            ),
    {
        let ghost dv = catalog.deep_view();
        let ghost nv = opt_name_view(name);
        let ghost sv = opt_int(start);
        let ghost ev = opt_int(end);
        let ids = self.selected_sorted(catalog, name, start, end, today);
        let ghost listing = spec_listing(dv, nv, sv, ev, today as int);
        let mut out: Vec<String> = Vec::new();
        let mut j: usize = 0;
        while j < ids.len()
            invariant
                0 <= j <= ids@.len(),
                views_of(ids@) == spec_sorted_ids(dv, nv, sv, ev, today as int),
                forall|t: int| 0 <= t < ids@.len() ==> (#[trigger] ids@[t]@).wf(),
                listing == spec_listing(dv, nv, sv, ev, today as int),
                out.deep_view() == listing.subrange(0, j as int),
            decreases ids@.len() - j,
        {
            let ghost before = out.deep_view();
            proof {
                assert((ids@[j as int]@).wf());
                assert(before.len() == j);
                assert(out@.len() == j);
            }
            let piece = ids[j].canonical_string();
            let ghost pv = piece@;
            out.push(piece);
            proof {
                assert(views_of(ids@)[j as int] == ids@[j as int]@);
                assert(listing[j as int] == canonical_seq(ids@[j as int]@));
                assert(out@.len() == j + 1);
                assert forall|t: int| 0 <= t < j + 1 implies out.deep_view()[t] == listing.subrange(
                    0,
                    j + 1,
                )[t] by {
                    if t < j {
                        assert(out.deep_view()[t] == before[t]);
                        assert(before[t] == listing[t]);
                    } else {
                        assert(out.deep_view()[t] == pv);
                    }
                }
                assert(out.deep_view() =~= listing.subrange(0, j + 1));
            }
            j += 1;
        }
        proof {
            assert(listing.subrange(0, j as int) =~= listing);
        }
        out
    }

    /// The sorted identifiers of one typed family: those whose name is the
    /// family's declared name and whose age falls in the optional window.
    pub fn get<I: ElasticIndex>(
        &self,
        catalog: &Vec<String>,
        start: Option<i32>,
        end: Option<i32>,
        today: i64,
    ) -> (r: Vec<Index>)
        requires
            0 <= today,
        ensures
            views_of(r@) == spec_sorted_ids(
                catalog.deep_view(),
                Option::Some(I::spec_name()),
                opt_int(start),
                opt_int(end),
                today as int,
            ),
            forall|j: int| 0 <= j < r@.len() ==> (#[trigger] r@[j]@).wf(),
    {
        let fam = I::family_name();
        self.selected_sorted(catalog, Some(fam), start, end, today)
    }

    /// Computes the delete set for a base name: the deletion boundary is
    /// first clamped to the configured minimum retention days, and the
    /// matching identifiers are selected with the clamped boundary as the
    /// exclusive older edge and sorted. The plan's delete operation is to
    /// be performed exactly when this is no dry run: a dry run only reports
    /// and never reaches the transport.
    pub fn delete(
        &self,
        catalog: &Vec<String>,
        name: String,
        start: Option<i32>,
        end: i32,
        dry_run: bool,
        today: i64,
    ) -> (r: DeletePlan)
        requires
            0 <= today,
            self.config.wf(),
        ensures
            r.execute == !dry_run,
            views_of(r.indices@) == spec_sorted_ids(
                catalog.deep_view(),
                Option::Some(name@),
                opt_int(start),
                Option::Some(spec_clamp(end as int, self.config.min_days as int)),
                today as int,
            ),
            forall|j: int| 0 <= j < r.indices@.len() ==> (#[trigger] r.indices@[j]@).wf(),
    {
        let floor: i32 = self.config.min_days as i32;
        let end_new = clamp(end, floor);
        let ids = self.selected_sorted(catalog, Some(name), start, Some(end_new), today);
        DeletePlan { indices: ids, execute: !dry_run }
    }
}

/// True when the vector holds a string equal to the given one.
fn contains_str(v: &Vec<String>, s: &str) -> (r: bool)
    ensures
        r == v.deep_view().contains(s@),
{
    let mut k: usize = 0;
    while k < v.len()
        invariant
            0 <= k <= v@.len(),
            forall|t: int| 0 <= t < k ==> v@[t]@ != s@,
        decreases v@.len() - k,
    {
        if str_eq(v[k].as_str(), s) {
            proof {
                assert(v.deep_view()[k as int] == s@);
            }
            return true;
        }
        k += 1;
    }
    proof {
        assert forall|t: int| 0 <= t < v.deep_view().len() implies v.deep_view()[t] != s@ by {
            assert(v.deep_view()[t] == v@[t]@);
        }
    }
    false
}

} // verus!
