//! Tests of the identifier entity, its parser, and the configuration.

use elasticlean::config::Config;
use elasticlean::dates::Date;
use elasticlean::index::Index;
use elasticlean::indexparser::IndexParser;

#[test]
fn can_new_up_config() {
    let nc = Config::new("foo", "16", "5");
    let expect = Config {
        host: "foo".to_string(),
        port: 16,
        min_days: 5,
    };

    assert_eq!(nc, expect);
}

#[test]
fn index_new() {
    let id = Index::new("foo", 2018, 2, 4);
    let expected = Index {
        name: "foo".to_string(),
        date: Date::new(2018, 2, 4),
    };
    assert_eq!(id, expected);
}

#[test]
fn index_from_str() {
    let id = Index::from_str("foo-2018.02.04");
    let expected = Index {
        name: "foo".to_string(),
        date: Date::new(2018, 2, 4),
    };
    assert_eq!(id, Ok(expected));
}

#[test]
fn index_from_str3() {
    let id = Index::from_str("foo-1.2.3-2018.02.04");
    let expected = Index {
        name: "foo-1.2.3".to_string(),
        date: Date::new(2018, 2, 4),
    };
    assert_eq!(id, Ok(expected));
}

#[test]
fn index_from_strs() {
    let id = Index::from_strs("foo", "2018", "02", "04");
    let expected = Index {
        name: "foo".to_string(),
        date: Date::new(2018, 2, 4),
    };
    assert_eq!(id, Ok(expected));
}

#[test]
fn index_display() {
    let id = Index::from_strs("foo", "2018", "02", "04").unwrap();
    let idstr = id.canonical_string();
    let expected = "foo-2018.02.04".to_string();
    assert_eq!(idstr, expected);
}

#[test]
fn index_name() {
    let id = Index::from_strs("foo", "2018", "02", "04").unwrap();
    let name = id.name();
    let expected = "foo";
    assert_eq!(name, expected);
}

#[test]
fn index_date() {
    let id = Index::from_strs("foo", "2018", "02", "04").unwrap();
    let date = id.date();
    let expected = Date::new(2018, 2, 4);
    assert_eq!(date, &expected);
}

#[test]
fn index_days_since() {
    let id = Index::from_strs("foo", "2018", "02", "03").unwrap();
    let fd = Date::new(2018, 2, 4);
    let days = id.days_since(&fd);
    assert_eq!(days, 1);
}

#[test]
fn index_days_since2() {
    let id = Index::from_strs("foo", "2018", "02", "05").unwrap();
    let fd = Date::new(2018, 2, 4);
    let days = id.days_since(&fd);
    assert_eq!(days, -1);
}

#[test]
fn index_lt() {
    let id = Index::from_str("foo-2018.02.05");
    let id2 = Index::from_str("foo-2018.02.04");
    assert!(id > id2);
}

#[test]
fn index_eq() {
    let id = Index::from_str("foo-2018.02.05");
    let id2 = Index::from_str("foo-2018.02.05");
    assert_eq!(id, id2);
}

#[test]
fn index_ne() {
    let id = Index::from_str("foo-2018.02.05");
    let id2 = Index::from_str("foo-2017.02.05");
    assert_ne!(id, id2);
}

#[test]
fn index_ne2() {
    let id = Index::from_str("foo-2018.02.05");
    let id2 = Index::from_str("bar-2018.02.05");
    assert_ne!(id, id2);
}

#[test]
fn can_parse_index_from_str() {
    let id = IndexParser::parse("foo-2018.02.22");
    let expected = Index {
        name: "foo".to_string(),
        date: Date::new(2018, 2, 22),
    };
    assert_eq!(id, Ok(expected));
}

#[test]
fn can_parse_index_with_version_and_date() {
    let id = IndexParser::parse("foo-1.2.3-2018.02.22");
    let expected = Index {
        name: "foo-1.2.3".to_string(),
        date: Date::new(2018, 2, 22),
    };
    assert_eq!(id, Ok(expected));
}

#[test]
fn out_of_range_month_produces_error() {
    let id = IndexParser::parse("foo-2018.13.22");
    assert!(id.is_err());
}

#[test]
fn out_of_range_day_produces_error() {
    let id = IndexParser::parse("foo-2018.11.32");
    assert!(id.is_err());
}
