//! The strict parser for dated index names.
//!
//! A catalog string parses when it ends in a date segment `-YYYY.MM.DD`
//! whose month lies in 01 to 12, whose day lies in 01 to 31 and is valid for
//! the month and year; everything before that trailing segment — including
//! any earlier hyphen-delimited version tokens — is the base name, which
//! must be non-empty. Each way an input can fail is reported as a distinct
//! parse-failure message carrying the offending input.

use vstd::prelude::*;
use vstd::arithmetic::div_mod::{lemma_div_denominator, lemma_fundamental_div_mod};
use crate::dates::{days_in_month, exec_days_in_month, Date};
use crate::digits::{char_digit, digit_char, four_digit_val, is_digit_char, two_digit_val};
use crate::errors::EcError;
use crate::index::{canonical_seq, IdView, Index};

verus! {

/// True when the string ends in a well-shaped date segment `-YYYY.MM.DD`
/// preceded by a non-empty base: digits in the digit places, the right
/// punctuation in between.
pub open spec fn has_date_suffix(s: Seq<char>) -> bool {
    let n = s.len() as int;
    &&& n >= 12
    &&& s[n - 11] == '-'
    &&& is_digit_char(s[n - 10])
    &&& is_digit_char(s[n - 9])
    &&& is_digit_char(s[n - 8])
    &&& is_digit_char(s[n - 7])
    &&& s[n - 6] == '.'
    &&& is_digit_char(s[n - 5])
    &&& is_digit_char(s[n - 4])
    &&& s[n - 3] == '.'
    &&& is_digit_char(s[n - 2])
    &&& is_digit_char(s[n - 1])
}

/// The year the trailing date segment denotes.
pub open spec fn suffix_year(s: Seq<char>) -> int {
    four_digit_val(s, s.len() - 10)
}

/// The month the trailing date segment denotes.
pub open spec fn suffix_month(s: Seq<char>) -> int {
    two_digit_val(s, s.len() - 5)
}

/// The day the trailing date segment denotes.
pub open spec fn suffix_day(s: Seq<char>) -> int {
    two_digit_val(s, s.len() - 2)
}

/// True when the string parses as a dated index name: a well-shaped
/// trailing date segment, a month in 1 to 12, a day in 1 to 31 that is also
/// valid for the month and year.
pub open spec fn spec_parses(s: Seq<char>) -> bool {
    &&& has_date_suffix(s)
    &&& 1 <= suffix_month(s) <= 12
    &&& 1 <= suffix_day(s) <= 31
    &&& suffix_day(s) <= days_in_month(suffix_year(s), suffix_month(s))
}

/// The identifier a parsing string denotes: the base before the trailing
/// date segment, and the date the segment carries.
pub open spec fn spec_parsed_id(s: Seq<char>) -> IdView {
    IdView {
        name: s.subrange(0, s.len() - 11),
        date: Date {
            year: suffix_year(s) as u32,
            month: suffix_month(s) as u32,
            day: suffix_day(s) as u32,
        },
    }
}

/// A dataless struct providing the parsing entry point for dated index
/// names.
pub struct IndexParser;

/// Builds a parse-failure value whose message names the failure cause and
/// carries the offending input.
fn parse_failure(cause: &str, input: &str) -> (r: EcError)
    ensures
        r is ParseError,
{
    let mut m = String::from_str(cause);
    m.append(input);
    EcError::ParseError(m)
}

impl IndexParser {
    /// Parses a dated index name of the form `name-YYYY.MM.DD`. Returns the
    /// identifier exactly when the input parses, and otherwise a parse
    /// failure naming the cause: no trailing date segment, a month outside
    /// 01 to 12, a day outside 01 to 31, or a day invalid for the given
    /// month and year.
    pub fn parse(input: &str) -> (r: Result<Index, EcError>)
        ensures
            r is Ok <==> spec_parses(input@),
            r is Ok ==> r->Ok_0@ == spec_parsed_id(input@),
            r is Ok ==> r->Ok_0.wf() && r->Ok_0@.name.len() > 0,
            r is Err ==> r->Err_0 is ParseError,
    {
        let n = input.unicode_len();
        if n < 12 {
            return Err(parse_failure("no trailing date segment: ", input));
        }
        if input.get_char(n - 11) != '-' || input.get_char(n - 6) != '.' || input.get_char(n - 3)
            != '.' {
            return Err(parse_failure("no trailing date segment: ", input));
        }
        let y0 = char_digit(input.get_char(n - 10));
        let y1 = char_digit(input.get_char(n - 9));
        let y2 = char_digit(input.get_char(n - 8));
        let y3 = char_digit(input.get_char(n - 7));
        let m0 = char_digit(input.get_char(n - 5));
        let m1 = char_digit(input.get_char(n - 4));
        let d0 = char_digit(input.get_char(n - 2));
        let d1 = char_digit(input.get_char(n - 1));
        match (y0, y1, y2, y3, m0, m1, d0, d1) {
            (
                Some(y0),
                Some(y1),
                Some(y2),
                Some(y3),
                Some(m0),
                Some(m1),
                Some(d0),
                Some(d1),
            ) => {
                let year: u32 = ((y0 * 10 + y1) * 10 + y2) * 10 + y3;
                let month: u32 = m0 * 10 + m1;
                let day: u32 = d0 * 10 + d1;
                if month < 1 || month > 12 {
                    return Err(parse_failure("month out of range in: ", input));
                }
                if day < 1 || day > 31 {
                    return Err(parse_failure("day out of range in: ", input));
                }
                if day > exec_days_in_month(year, month) {
                    return Err(parse_failure("day invalid for month and year in: ", input));
                }
                let base = input.substring_char(0, n - 11);
                Ok(Index { name: base.to_owned(), date: Date { year, month, day } })
            },
            _ => Err(parse_failure("no trailing date segment: ", input)),
        }
    }
}

/// Whatever parses denotes a well-formed identifier: a non-empty name and a
/// valid calendar date whose year fits in four digits.
pub proof fn lemma_parses_wf(s: Seq<char>)
    requires
        spec_parses(s),
    ensures
        spec_parsed_id(s).wf(),
{
    let n = s.len() as int;
    assert(0 <= suffix_year(s) <= 9999);
    assert(spec_parsed_id(s).name.len() == n - 11);
}

/// The digits of a four-digit number denote that number.
proof fn lemma_four_digit_decomposition(y: int)
    requires
        0 <= y <= 9999,
    ensures
        1000 * (y / 1000) + 100 * (y / 100 % 10) + 10 * (y / 10 % 10) + (y % 10) == y,
        0 <= y / 1000 <= 9,
        0 <= y / 100 % 10 <= 9,
        0 <= y / 10 % 10 <= 9,
        0 <= y % 10 <= 9,
{
    lemma_fundamental_div_mod(y, 10);
    lemma_fundamental_div_mod(y / 10, 10);
    lemma_fundamental_div_mod(y / 100, 10);
    lemma_div_denominator(y, 10, 10);
    lemma_div_denominator(y, 100, 10);
}

/// The digits of a two-digit number denote that number.
proof fn lemma_two_digit_decomposition(m: int)
    requires
        0 <= m <= 99,
    ensures
        10 * (m / 10) + m % 10 == m,
        0 <= m / 10 <= 9,
        0 <= m % 10 <= 9,
{
    lemma_fundamental_div_mod(m, 10);
}

/// Round trip: a well-formed identifier with a non-empty name, written in
/// its canonical text `name-YYYY.MM.DD`, parses back to exactly itself.
pub proof fn lemma_parse_canonical_round_trip(v: IdView)
    requires
        v.name.len() > 0,
        v.date.wf(),
    ensures
        spec_parses(canonical_seq(v)),
        spec_parsed_id(canonical_seq(v)) == v,
{
    let s = canonical_seq(v);
    let n = s.len() as int;
    let y = v.date.year as int;
    let m = v.date.month as int;
    let d = v.date.day as int;
    lemma_four_digit_decomposition(y);
    lemma_two_digit_decomposition(m);
    lemma_two_digit_decomposition(d);
    assert(n == v.name.len() + 11);
    assert(s[n - 11] == '-');
    assert(s[n - 10] == digit_char(y / 1000));
    assert(s[n - 6] == '.');
    assert(s[n - 3] == '.');
    assert(forall|k: int| 0 <= k <= 9 ==> is_digit_char(#[trigger] digit_char(k)));
    assert(forall|k: int| 0 <= k <= 9 ==> crate::digits::digit_val(#[trigger] digit_char(k))
        == k);
    assert(suffix_year(s) == y);
    assert(suffix_month(s) == m);
    assert(suffix_day(s) == d);
    assert(spec_parsed_id(s).name =~= v.name);
    assert(spec_parsed_id(s).date == v.date);
    assert(spec_parsed_id(s) =~= v);
}

} // verus!
