//! The dated index identifier: a base name together with a calendar date,
//! written canonically as `name-YYYY.MM.DD`.

use vstd::prelude::*;
use crate::dates::{date_le, Date, exec_day_number, today_day_number, valid_ymd};
use crate::digits::{all_digits, digit_char, digit_str, digits_val, parse_u32};
use crate::errors::EcError;
use crate::indexparser::{spec_parses, spec_parsed_id, IndexParser};

verus! {

/// The mathematical value of an identifier: its name as a character
/// sequence, and its date.
#[verifier::ext_equal]
pub ghost struct IdView {
    pub name: Seq<char>,
    pub date: Date,
}

impl IdView {
    /// A well-formed identifier value: a non-empty name and a valid date.
    pub open spec fn wf(self) -> bool {
        self.date.wf() && self.name.len() > 0
    }
}

/// A dated index identifier of the form `name-YYYY.MM.DD`. The name is
/// everything before the trailing date segment and may itself contain
/// hyphens; the date is a valid calendar date. Values are immutable once
/// constructed.
#[derive(Debug, PartialEq, Eq, PartialOrd, Ord)]
pub struct Index {
    pub name: String,
    pub date: Date,
}

impl View for Index {
    type V = IdView;

    open spec fn view(&self) -> IdView {
        IdView { name: self.name@, date: self.date }
    }
}

/// Strict lexicographic order on character sequences, by code point.
pub open spec fn lex_lt(a: Seq<char>, b: Seq<char>) -> bool
    decreases a.len(),
{
    if b.len() == 0 {
        false
    } else if a.len() == 0 {
        true
    } else if (a[0] as u32) < (b[0] as u32) {
        true
    } else if a[0] == b[0] {
        lex_lt(a.drop_first(), b.drop_first())
    } else {
        false
    }
}

/// The identifier total order: by name lexicographically, then by date
/// ascending when the names are equal.
pub open spec fn id_le(a: IdView, b: IdView) -> bool {
    lex_lt(a.name, b.name) || (a.name == b.name && date_le(a.date, b.date))
}

/// The identifier order as a relation value, as the sorting lemmas expect it.
pub open spec fn id_le_fn() -> spec_fn(IdView, IdView) -> bool {
    |a: IdView, b: IdView| id_le(a, b)
}

/// Lexicographic order never holds in both directions at once.
pub proof fn lemma_lex_lt_asym(a: Seq<char>, b: Seq<char>)
    requires
        lex_lt(a, b),
    ensures
        !lex_lt(b, a),
        a != b,
    decreases a.len(),
{
    if a.len() != 0 && b.len() != 0 && a[0] == b[0] {
        lemma_lex_lt_asym(a.drop_first(), b.drop_first());
        assert(a != b) by {
            assert(a.drop_first() != b.drop_first());
        }
    } else {
        assert(a.len() < b.len() || (a[0] as u32) < (b[0] as u32));
        if a == b {
            assert(false);
        }
    }
}

/// Distinct characters have distinct code points.
proof fn lemma_char_cast_distinct(a: char, b: char)
    requires
        a != b,
    ensures
        (a as u32) != (b as u32),
{
    vstd::utf8::char_u32_cast(a, a as u32);
    vstd::utf8::char_u32_cast(b, b as u32);
}

/// Two character sequences are ordered one way, the other way, or equal.
pub proof fn lemma_lex_lt_connected(a: Seq<char>, b: Seq<char>)
    ensures
        lex_lt(a, b) || lex_lt(b, a) || a == b,
    decreases a.len(),
{
    if a.len() == 0 && b.len() == 0 {
        assert(a =~= b);
    } else if a.len() != 0 && b.len() != 0 {
        if a[0] == b[0] {
            lemma_lex_lt_connected(a.drop_first(), b.drop_first());
            if a.drop_first() == b.drop_first() {
                assert(a.drop_first().len() == b.drop_first().len());
                assert(a.len() == b.len());
                assert forall|i: int| 0 <= i < a.len() implies a[i] == b[i] by {
                    if i > 0 {
                        assert(a[i] == a.drop_first()[i - 1]);
                        assert(b[i] == b.drop_first()[i - 1]);
                    }
                }
                assert(a =~= b);
            }
        } else {
            lemma_char_cast_distinct(a[0], b[0]);
        }
    }
}

/// Lexicographic order is transitive.
pub proof fn lemma_lex_lt_trans(a: Seq<char>, b: Seq<char>, c: Seq<char>)
    requires
        lex_lt(a, b),
        lex_lt(b, c),
    ensures
        lex_lt(a, c),
    decreases a.len(),
{
    if b.len() != 0 && c.len() != 0 && a.len() != 0 {
        if a[0] == b[0] && b[0] == c[0] {
            lemma_lex_lt_trans(a.drop_first(), b.drop_first(), c.drop_first());
        }
    }
}

/// Any two identifiers are comparable in the identifier order.
pub proof fn lemma_id_le_connected(a: IdView, b: IdView)
    ensures
        id_le(a, b) || id_le(b, a),
{
    lemma_lex_lt_connected(a.name, b.name);
}

/// The identifier order is transitive.
pub proof fn lemma_id_le_trans(a: IdView, b: IdView, c: IdView)
    requires
        id_le(a, b),
        id_le(b, c),
    ensures
        id_le(a, c),
{
    if lex_lt(a.name, b.name) && lex_lt(b.name, c.name) {
        lemma_lex_lt_trans(a.name, b.name, c.name);
    }
}

/// The identifier order is a total order: reflexive, transitive,
/// antisymmetric, and any two identifiers are comparable.
pub proof fn lemma_id_le_total_ordering()
    ensures
        vstd::relations::total_ordering(id_le_fn()),
{
    let leq = id_le_fn();
    assert forall|a: IdView, b: IdView| #[trigger] leq(a, b) && #[trigger] leq(b, a) implies a
        == b by {
        if lex_lt(a.name, b.name) {
            lemma_lex_lt_asym(a.name, b.name);
        }
        if lex_lt(b.name, a.name) {
            lemma_lex_lt_asym(b.name, a.name);
        }
        assert(a =~= b);
    }
    assert forall|a: IdView, b: IdView, c: IdView|
        #![trigger leq(a, b), leq(b, c)]
        leq(a, b) && leq(b, c) implies leq(a, c) by {
        if lex_lt(a.name, b.name) && lex_lt(b.name, c.name) {
            lemma_lex_lt_trans(a.name, b.name, c.name);
        }
    }
    assert forall|a: IdView, b: IdView| !(#[trigger] leq(a, b)) implies leq(b, a) by {
        lemma_lex_lt_connected(a.name, b.name);
        if lex_lt(b.name, a.name) {
            lemma_lex_lt_asym(b.name, a.name);
        }
    }
}

/// The canonical ten characters `YYYY.MM.DD` of a date.
pub open spec fn date_seq(d: Date) -> Seq<char> {
    let y = d.year as int;
    let m = d.month as int;
    let dd = d.day as int;
    seq![
        digit_char(y / 1000),
        digit_char(y / 100 % 10),
        digit_char(y / 10 % 10),
        digit_char(y % 10),
        '.',
        digit_char(m / 10),
        digit_char(m % 10),
        '.',
        digit_char(dd / 10),
        digit_char(dd % 10),
    ]
}

/// The canonical text of an identifier: `name-YYYY.MM.DD`. This is the form
/// the parser accepts and the formatter produces.
pub open spec fn canonical_seq(v: IdView) -> Seq<char> {
    v.name + seq!['-'] + date_seq(v.date)
}

/// Appends a two-digit zero-padded number.
fn append_two_digits(s: &mut String, v: u32)
    requires
        v <= 99,
    ensures
        final(s)@ =~= old(s)@ + seq![digit_char(v as int / 10), digit_char(v as int % 10)],
{
    s.append(digit_str(v / 10));
    s.append(digit_str(v % 10));
}

/// Appends a four-digit zero-padded number.
fn append_four_digits(s: &mut String, v: u32)
    requires
        v <= 9999,
    ensures
        final(s)@ =~= old(s)@ + seq![
            digit_char(v as int / 1000),
            digit_char(v as int / 100 % 10),
            digit_char(v as int / 10 % 10),
            digit_char(v as int % 10),
        ],
{
    s.append(digit_str(v / 1000));
    s.append(digit_str(v / 100 % 10));
    s.append(digit_str(v / 10 % 10));
    s.append(digit_str(v % 10));
}

impl Index {
    /// A well-formed identifier: its date is a valid calendar date.
    pub open spec fn wf(self) -> bool {
        self.date.wf()
    }

    /// Builds an identifier from a base name and the components of a valid
    /// calendar date.
    pub fn new(name: &str, year: u32, month: u32, day: u32) -> (r: Index)
        requires
            valid_ymd(year as int, month as int, day as int),
        ensures
            r@.name == name@,
            r.date == (Date { year, month, day }),
            r.wf(),
    {
        Index { name: name.to_owned(), date: Date::new(year, month, day) }
    }

    /// Parses an identifier from its canonical text.
    pub fn from_str(name: &str) -> (r: Result<Index, EcError>)
        ensures
            r is Ok <==> spec_parses(name@),
            r is Ok ==> r->Ok_0@ == spec_parsed_id(name@) && r->Ok_0.wf() && r->Ok_0@.name.len()
                > 0,
            r is Err ==> r->Err_0 is ParseError,
    {
        IndexParser::parse(name)
    }

    /// Builds an identifier from a base name and date components given as
    /// digit strings. Rejects a component that is not a run of digits, and
    /// components that do not form a valid calendar date.
    pub fn from_strs(name: &str, year: &str, month: &str, day: &str) -> (r: Result<Index, EcError>)
        ensures
            r is Ok <==> (all_digits(year@) && all_digits(month@) && all_digits(day@) && valid_ymd(
                digits_val(year@),
                digits_val(month@),
                digits_val(day@),
            )),
            r is Ok ==> r->Ok_0@.name == name@ && r->Ok_0.date == (Date {
                year: digits_val(year@) as u32,
                month: digits_val(month@) as u32,
                day: digits_val(day@) as u32,
            }) && r->Ok_0.wf(),
            r is Err ==> r->Err_0 is ParseError,
    {
        let y = parse_u32(year);
        let m = parse_u32(month);
        let d = parse_u32(day);
        match (y, m, d) {
            (Some(y), Some(m), Some(d)) => {
                match Date::try_new(y, m, d) {
                    Some(date) => Ok(Index { name: name.to_owned(), date }),
                    None => Err(EcError::ParseError(build_component_message(name))),
                }
            },
            _ => Err(EcError::ParseError(build_component_message(name))),
        }
    }

    /// The base name of the identifier.
    pub fn name(&self) -> (r: &str)
        ensures
            r@ == self@.name,
    {
        self.name.as_str()
    }

    /// The date of the identifier.
    pub fn date(&self) -> (r: &Date)
        ensures
            *r == self.date,
    {
        &self.date
    }

    /// The age of the identifier in whole days, measured against the current
    /// UTC date. The value depends on the clock at the moment of the call:
    /// it equals `days_since` applied to whatever the current date is, and
    /// is never smaller than the negated day number of the identifier's own
    /// date.
    pub fn days(&self) -> (r: i64)
        requires
            self.date.wf(),
        ensures
            r >= -self.date.spec_day_number(),
    {
        let today = today_day_number();
        let own = exec_day_number(self.date.year, self.date.month, self.date.day);
        today - own as i64
    }

    /// The number of days from this identifier's date to the given date;
    /// negative when the identifier's date lies after it.
    pub fn days_since(&self, from_date: &Date) -> (r: i64)
        requires
            self.date.wf(),
            from_date.wf(),
        ensures
            r == from_date.spec_day_number() - self.date.spec_day_number(),
    {
        let from = exec_day_number(from_date.year, from_date.month, from_date.day);
        let own = exec_day_number(self.date.year, self.date.month, self.date.day);
        from as i64 - own as i64
    }

    /// The canonical text of the identifier, `name-YYYY.MM.DD`.
    pub fn canonical_string(&self) -> (r: String)
        requires
            self.wf(),
        ensures
            r@ == canonical_seq(self@),
    {
        let mut out = self.name.clone();
        out.append("-");
        append_four_digits(&mut out, self.date.year);
        out.append(".");
        append_two_digits(&mut out, self.date.month);
        out.append(".");
        append_two_digits(&mut out, self.date.day);
        proof {
            reveal_strlit("-");
            reveal_strlit(".");
            assert(out@ =~= canonical_seq(self@));
        }
        out
    }
}

/// Strict lexicographic comparison of two strings; mirrors `lex_lt`.
pub fn str_lt(a: &str, b: &str) -> (r: bool)
    ensures
        r == lex_lt(a@, b@),
{
    let na = a.unicode_len();
    let nb = b.unicode_len();
    let mut i: usize = 0;
    proof {
        assert(a@.skip(0) =~= a@);
        assert(b@.skip(0) =~= b@);
    }
    loop
        invariant
            0 <= i <= na == a@.len(),
            i <= nb == b@.len(),
            lex_lt(a@, b@) == lex_lt(a@.skip(i as int), b@.skip(i as int)),
        decreases na - i,
    {
        if i >= na || i >= nb {
            return i < nb;
        }
        let ca = a.get_char(i);
        let cb = b.get_char(i);
        if (ca as u32) < (cb as u32) {
            return true;
        }
        if ca != cb {
            return false;
        }
        proof {
            assert(a@.skip(i as int).drop_first() =~= a@.skip(i + 1));
            assert(b@.skip(i as int).drop_first() =~= b@.skip(i + 1));
        }
        i += 1;
    }
}

/// Equality of two strings as character sequences.
pub fn str_eq(a: &str, b: &str) -> (r: bool)
    ensures
        r == (a@ == b@),
{
    let na = a.unicode_len();
    let nb = b.unicode_len();
    if na != nb {
        return false;
    }
    let mut i: usize = 0;
    while i < na
        invariant
            0 <= i <= na == a@.len(),
            na == nb == b@.len(),
            forall|j: int| 0 <= j < i ==> a@[j] == b@[j],
        decreases na - i,
    {
        if a.get_char(i) != b.get_char(i) {
            return false;
        }
        i += 1;
    }
    proof {
        assert(a@ =~= b@);
    }
    true
}

/// Comparison of two identifiers in the identifier total order; mirrors
/// `id_le`.
pub fn index_le(a: &Index, b: &Index) -> (r: bool)
    ensures
        r == id_le(a@, b@),
{
    if str_lt(a.name.as_str(), b.name.as_str()) {
        true
    } else if a.name == b.name {
        let x = &a.date;
        let y = &b.date;
        if x.year != y.year {
            x.year < y.year
        } else if x.month != y.month {
            x.month < y.month
        } else {
            x.day <= y.day
        }
    } else {
        false
    }
}

/// The message of the error reported when date components are rejected.
fn build_component_message(name: &str) -> (r: String)
{
    let mut m = String::from_str("invalid date components for index: ");
    m.append(name);
    m
}

impl Default for Index {
    /// The default identifier: an empty name and the first day of year 2000.
    fn default() -> (r: Index)
        ensures
            r@.name =~= Seq::<char>::empty(),
            r.date == (Date { year: 2000, month: 1, day: 1 }),
            r.wf(),
    {
        Index { name: String::new(), date: Date { year: 2000, month: 1, day: 1 } }
    }
}

} // verus!
