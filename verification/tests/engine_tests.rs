//! Tests of the filter, sort, dedup and retention engine, the canonical
//! round trip, and the route computation.

use elasticlean::cmdprocessor::{clamp, CmdProcessor};
use elasticlean::cmds::Cmds;
use elasticlean::config::Config;
use elasticlean::dates::{exec_day_number, today_day_number, Date};
use elasticlean::elastic::Elasticleaner;
use elasticlean::elasticrud::Elasticrud;
use elasticlean::errors::EcError;
use elasticlean::index::Index;
use elasticlean::indexparser::IndexParser;
use elasticlean::indices::Deprecate;

fn processor() -> CmdProcessor {
    CmdProcessor::new(Config::new("localhost", "9200", "60"))
}

fn day(y: u32, m: u32, d: u32) -> i64 {
    exec_day_number(y, m, d) as i64
}

#[test]
fn round_trip_preserves_identifier() {
    let cases = vec![
        Index::new("foo", 2018, 2, 4),
        Index::new("foo-1.2.3", 2020, 12, 31),
        Index::new("a-b-c", 2000, 1, 1),
        Index::new("x", 2016, 2, 29),
    ];
    for id in cases {
        let text = id.canonical_string();
        assert_eq!(IndexParser::parse(&text), Ok(id));
    }
}

#[test]
fn canonical_text_is_zero_padded() {
    let id = Index::new("idx", 987, 3, 7);
    assert_eq!(id.canonical_string(), "idx-0987.03.07");
}

#[test]
fn parse_rejects_inputs_without_date() {
    assert!(IndexParser::parse("no-date-here").is_err());
    assert!(IndexParser::parse("").is_err());
    assert!(IndexParser::parse("-2018.02.04").is_err());
    assert!(IndexParser::parse("foo-2018.02.045").is_err());
}

#[test]
fn parse_rejects_invalid_calendar_day() {
    let r = IndexParser::parse("foo-2018.02.30");
    match r {
        Err(EcError::ParseError(msg)) => assert!(msg.contains("foo-2018.02.30")),
        _ => panic!("expected a parse failure"),
    }
    assert!(IndexParser::parse("foo-2100.02.29").is_err());
    assert_eq!(
        IndexParser::parse("foo-2016.02.29"),
        Ok(Index::new("foo", 2016, 2, 29))
    );
}

#[test]
fn parse_failure_messages_name_distinct_causes() {
    let month = IndexParser::parse("foo-2018.13.22");
    let day = IndexParser::parse("foo-2018.11.32");
    let none = IndexParser::parse("no-date-here");
    let feb = IndexParser::parse("foo-2018.02.30");
    let msgs: Vec<String> = vec![month, day, none, feb]
        .into_iter()
        .map(|r| match r {
            Err(EcError::ParseError(m)) => m,
            _ => panic!("expected a parse failure"),
        })
        .collect();
    assert!(msgs[0] != msgs[1] && msgs[0] != msgs[2] && msgs[0] != msgs[3]);
    assert!(msgs[1] != msgs[2] && msgs[1] != msgs[3] && msgs[2] != msgs[3]);
}

#[test]
fn from_strs_rejects_bad_components() {
    assert!(Index::from_strs("foo", "20x8", "02", "04").is_err());
    assert!(Index::from_strs("foo", "2018", "13", "04").is_err());
    assert!(Index::from_strs("foo", "2018", "02", "30").is_err());
    assert!(Index::from_strs("foo", "", "02", "04").is_err());
}

#[test]
fn query_sorts_by_name_then_date() {
    let p = processor();
    let catalog = vec![
        "b-2020.01.01".to_string(),
        "a-2020.01.01".to_string(),
        "a-2019.01.01".to_string(),
    ];
    let r = p.query(&catalog, None, None, None, day(2020, 6, 1));
    assert_eq!(
        r,
        vec![
            "a-2019.01.01".to_string(),
            "a-2020.01.01".to_string(),
            "b-2020.01.01".to_string(),
        ]
    );
}

#[test]
fn query_silently_discards_unparseable_entries() {
    let p = processor();
    let catalog = vec![
        ".kibana".to_string(),
        "foo-2020.01.01".to_string(),
        "not an index".to_string(),
    ];
    let r = p.query(&catalog, None, None, None, day(2020, 6, 1));
    assert_eq!(r, vec!["foo-2020.01.01".to_string()]);
}

#[test]
fn name_filter_matches_exactly() {
    let p = processor();
    let catalog = vec![
        "foo-2020.01.01".to_string(),
        "foobar-2020.01.02".to_string(),
        "foo-2020.01.03".to_string(),
    ];
    let r = p.get_indices(
        &catalog,
        Some("foo".to_string()),
        None,
        None,
        day(2020, 6, 1),
    );
    assert_eq!(r.len(), 2);
    assert!(r.iter().all(|i| i.name() == "foo"));
}

#[test]
fn age_filter_start_edge_is_inclusive() {
    let p = processor();
    // Fixed "today": 2020-01-11. The identifier dated 2020-01-06 is 5 days
    // old.
    let today = day(2020, 1, 11);
    let catalog = vec!["x-2020.01.06".to_string()];
    let kept = p.get_indices(&catalog, None, Some(5), None, today);
    assert_eq!(kept.len(), 1);
    let dropped = p.get_indices(&catalog, None, Some(4), None, today);
    assert_eq!(dropped.len(), 0);
}

#[test]
fn age_filter_end_edge_is_exclusive() {
    let p = processor();
    let today = day(2020, 1, 11);
    // Ages: x is 5 days old, y is 6 days old.
    let catalog = vec!["x-2020.01.06".to_string(), "y-2020.01.05".to_string()];
    let r = p.get_indices(&catalog, None, None, Some(5), today);
    assert_eq!(r.len(), 1);
    assert_eq!(r[0].name(), "y");
}

#[test]
fn clamp_enforces_the_floor() {
    assert_eq!(clamp(10, 60), 60);
    assert_eq!(clamp(60, 60), 60);
    assert_eq!(clamp(61, 60), 61);
    assert_eq!(clamp(-5, 60), 60);
    assert!(clamp(123, 60) >= 60);
}

#[test]
fn clamp_is_idempotent() {
    for x in [-10, 0, 59, 60, 61, 1000] {
        assert_eq!(clamp(clamp(x, 60), 60), clamp(x, 60));
    }
}

#[test]
fn query_names_deduplicates() {
    let p = processor();
    let catalog = vec![
        "foo-2018.01.01".to_string(),
        "bar-2018.01.02".to_string(),
        ".kibana".to_string(),
        "foo-2019.05.05".to_string(),
    ];
    let names = p.query_names(&catalog, None, None, None, day(2020, 6, 1));
    assert_eq!(names.len(), 2);
    assert!(names.contains(&"foo".to_string()));
    assert!(names.contains(&"bar".to_string()));
    for (i, a) in names.iter().enumerate() {
        for (j, b) in names.iter().enumerate() {
            if i != j {
                assert_ne!(a, b);
            }
        }
    }
}

#[test]
fn delete_respects_dry_run() {
    let p = processor();
    let catalog = vec!["foo-2010.01.01".to_string(), "foo-2010.01.02".to_string()];
    // A substitute transport that records every delete request.
    let mut delete_calls: Vec<String> = Vec::new();
    let plan = p.delete(
        &catalog,
        "foo".to_string(),
        None,
        90,
        true,
        day(2020, 6, 1),
    );
    assert_eq!(plan.indices.len(), 2);
    assert!(!plan.execute);
    if plan.execute {
        delete_calls.push("delete".to_string());
    }
    assert!(delete_calls.is_empty());
}

#[test]
fn delete_executes_when_not_dry_run() {
    let p = processor();
    let catalog = vec!["foo-2010.01.01".to_string()];
    let mut delete_calls: Vec<String> = Vec::new();
    let plan = p.delete(
        &catalog,
        "foo".to_string(),
        None,
        90,
        false,
        day(2020, 6, 1),
    );
    assert!(plan.execute);
    if plan.execute {
        delete_calls.push("delete".to_string());
    }
    assert_eq!(delete_calls.len(), 1);
}

#[test]
fn delete_boundary_is_clamped_to_the_floor() {
    let p = processor();
    let today = day(2020, 1, 31);
    // Ages: old is 100 days, mid is 45 days, new is 10 days. The floor is
    // 60 days, so a requested boundary of 30 is clamped to 60: only the
    // identifier older than 60 days may be deleted.
    let catalog = vec![
        "foo-2019.10.23".to_string(),
        "foo-2019.12.17".to_string(),
        "foo-2020.01.21".to_string(),
    ];
    let plan = p.delete(&catalog, "foo".to_string(), None, 30, true, today);
    assert_eq!(plan.indices.len(), 1);
    assert_eq!(plan.indices[0].canonical_string(), "foo-2019.10.23");
}

#[test]
fn cmds_query_names_only_switch() {
    let c = Cmds::new(processor());
    let catalog = vec!["foo-2018.01.01".to_string(), "foo-2018.01.02".to_string()];
    let names = c.query(&catalog, None, None, None, true, day(2020, 6, 1));
    assert_eq!(names, vec!["foo".to_string()]);
    let listing = c.query(&catalog, None, None, None, false, day(2020, 6, 1));
    assert_eq!(
        listing,
        vec!["foo-2018.01.01".to_string(), "foo-2018.01.02".to_string()]
    );
}

#[test]
fn cmds_process_resolves_known_family() {
    let c = Cmds::new(processor());
    let catalog = vec![
        "deprecate-2018.01.02".to_string(),
        "deprecate-2018.01.01".to_string(),
        "other-2018.01.01".to_string(),
    ];
    let r = c
        .process(&catalog, "deprecate".to_string(), None, None, day(2020, 6, 1))
        .unwrap();
    assert_eq!(r.len(), 2);
    assert_eq!(r[0].canonical_string(), "deprecate-2018.01.01");
    assert_eq!(r[1].canonical_string(), "deprecate-2018.01.02");
}

#[test]
fn cmds_process_rejects_unknown_family() {
    let c = Cmds::new(processor());
    let catalog = vec!["deprecate-2018.01.01".to_string()];
    let r = c.process(&catalog, "unknown".to_string(), None, None, day(2020, 6, 1));
    match r {
        Err(EcError::ParseError(msg)) => assert!(msg.contains("unknown")),
        _ => panic!("expected an unrecognized-index failure"),
    }
}

#[test]
fn age_is_computed_against_the_clock() {
    // Relies on the system clock lying between the two dates.
    let old = Index::new("foo", 2018, 2, 4);
    assert!(old.days() > 0);
    let future = Index::new("foo", 9999, 12, 31);
    assert!(future.days() < 0);
    assert!(today_day_number() > day(2020, 1, 1));
}

#[test]
fn routes_are_built_from_host_port_and_resource() {
    let ec = Elasticrud::new("localhost", 9200);
    assert_eq!(
        ec.indices_route(),
        "http://localhost:9200/_cat/indices?format=json"
    );
    let ids = vec![Index::new("foo", 2018, 2, 4), Index::new("bar", 2019, 3, 5)];
    assert_eq!(
        ec.delete_route(&ids),
        "http://localhost:9200/foo-2018.02.04,bar-2019.03.05"
    );
    assert_eq!(
        ec.search_route(&ids),
        "http://localhost:9200/foo-2018.02.04,bar-2019.03.05/_search"
    );
}

#[test]
fn legacy_routes_match() {
    let ec = Elasticleaner::new("example.org", 80);
    assert_eq!(
        ec.indices_route(),
        "http://example.org:80/_cat/indices?format=json"
    );
    let ids = vec![Index::new("foo", 2018, 2, 4)];
    assert_eq!(ec.data_route(&ids), "http://example.org:80/foo-2018.02.04/_search");
    assert_eq!(ec.delete_route(&ids), "http://example.org:80/foo-2018.02.04");
}

#[test]
fn deprecate_describe_renders_levels() {
    let d = Deprecate {
        callee: "render".to_string(),
        location: "site".to_string(),
        role: "artist".to_string(),
        show: Some("show1".to_string()),
        sequence: Some("sq10".to_string()),
        shot: Some("0010".to_string()),
        label: "old-api".to_string(),
        callstack: "a\nb".to_string(),
        message: "stop using this".to_string(),
        user: "jdoe".to_string(),
    };
    let expected = "user: jdoe\nlevel: show1.sq10.0010\nrole: artist\nlocation: site\n\nmessage:\nstop using this\n\ncallstack:\na\nb\n";
    assert_eq!(d.describe(), expected);
}

#[test]
fn sort_puts_prefix_names_first() {
    let p = processor();
    let catalog = vec!["ab-2020.01.01".to_string(), "a-2020.01.01".to_string()];
    let r = p.query(&catalog, None, None, None, day(2020, 6, 1));
    assert_eq!(
        r,
        vec!["a-2020.01.01".to_string(), "ab-2020.01.01".to_string()]
    );
}

#[test]
fn day_arithmetic_respects_leap_years() {
    let leap = Index::new("x", 2016, 2, 28);
    assert_eq!(leap.days_since(&Date::new(2016, 3, 1)), 2);
    let common = Index::new("x", 2018, 2, 28);
    assert_eq!(common.days_since(&Date::new(2018, 3, 1)), 1);
    let century = Index::new("x", 2100, 2, 28);
    assert_eq!(century.days_since(&Date::new(2100, 3, 1)), 1);
    let quadricentennial = Index::new("x", 2000, 2, 28);
    assert_eq!(quadricentennial.days_since(&Date::new(2000, 3, 1)), 2);
}

#[test]
fn day_arithmetic_crosses_year_boundaries() {
    let id = Index::new("x", 2019, 12, 31);
    assert_eq!(id.days_since(&Date::new(2020, 1, 1)), 1);
    assert_eq!(id.days_since(&Date::new(2021, 1, 1)), 367);
}

#[test]
fn default_index_is_the_first_day_of_2000() {
    let d = Index::default();
    assert_eq!(d.name(), "");
    assert_eq!(d.date(), &Date::new(2000, 1, 1));
}
