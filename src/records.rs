//! The records that the service's TXT answers hold, and their parsers.

use chrono::Datelike;
use vstd::prelude::*;
use vstd::string::*;

use crate::query::hex_char;
use crate::text::{parse_number, parse_u32, split, split_text, split_words, trim, trim_text, words};

verus! {

/// An Autonomous System number, which is (currently) 32 bits wide.
pub type AsNumber = u32;

/// A calendar date.
#[derive(Clone, Copy, Debug, PartialEq, Eq, PartialOrd, Ord, Hash, Structural)]
pub struct Date {
    pub year: i32,
    pub month: u32,
    pub day: u32,
}

pub open spec fn is_leap_year(y: int) -> bool {
    (y % 4 == 0 && y % 100 != 0) || y % 400 == 0
}

pub open spec fn days_in_month(y: int, m: int) -> int {
    if m == 2 {
        if is_leap_year(y) {
            29
        } else {
            28
        }
    } else if m == 4 || m == 6 || m == 9 || m == 11 {
        30
    } else {
        31
    }
}

impl Date {
    /// The date exists in the proleptic Gregorian calendar, within the years
    /// that chrono's `NaiveDate` covers.
    pub open spec fn is_valid(self) -> bool {
        &&& -262143 <= self.year <= 262142
        &&& 1 <= self.month <= 12
        &&& 1 <= self.day <= days_in_month(self.year as int, self.month as int)
    }
}

/// The last `width` decimal digits of `n`, with leading zeros.
pub open spec fn padded_decimal(n: nat, width: nat) -> Seq<char>
    decreases width,
{
    if width == 0 {
        Seq::empty()
    } else {
        padded_decimal(n / 10, (width - 1) as nat).push(hex_char(n % 10))
    }
}

/// `YYYY-MM-DD`.
pub open spec fn iso_date(d: Date) -> Seq<char> {
    padded_decimal(d.year as nat, 4) + seq!['-'] + padded_decimal(d.month as nat, 2) + seq!['-']
        + padded_decimal(d.day as nat, 2)
}

/// What chrono's `NaiveDate::parse_from_str(s, "%Y-%m-%d")` makes of `s`.
pub uninterp spec fn date_of(s: Seq<char>) -> Option<Date>;

/// How chrono's `NaiveDate` writes the date `d`.
pub uninterp spec fn date_text(d: Date) -> Seq<char>;

/// Reads a `YYYY-MM-DD` date; `None` where chrono does not read one.
///
/// Relies on chrono's `NaiveDate::parse_from_str` with the pattern
/// `%Y-%m-%d`, whose result depends on the text alone and is always a date
/// that exists.
#[verifier::external_body]
pub fn parse_date(s: &str) -> (r: Option<Date>)
    ensures
        r == date_of(s@),
        r matches Some(d) ==> d.is_valid(),
{
    chrono::NaiveDate::parse_from_str(s, "%Y-%m-%d").ok().map(
        |d| Date { year: d.year(), month: d.month(), day: d.day() },
    )
}

/// Writes a date as chrono does.
///
/// Relies on chrono's `NaiveDate::from_ymd_opt`, to rebuild the date, and on
/// the `Display` of `NaiveDate`: the text depends on the date alone, and is
/// `YYYY-MM-DD` for a year from 0 to 9999 (a date outside chrono's range gives
/// the empty text).
#[verifier::external_body]
pub(crate) fn date_string(d: Date) -> (r: String)
    ensures
        r@ == date_text(d),
        d.is_valid() && 0 <= d.year <= 9999 ==> r@ == iso_date(d),
{
    match chrono::NaiveDate::from_ymd_opt(d.year, d.month, d.day) {
        Some(n) => n.to_string(),
        None => String::new(),
    }
}

/// What the service knows of one Autonomous System.
#[derive(Clone, Debug, PartialEq, Eq, PartialOrd, Ord)]
pub struct CymruASN {
    pub as_number: AsNumber,
    pub country_code: String,
    pub registry: String,
    pub allocated: Option<Date>,
    pub as_name: String,
    /// Seconds since the Unix epoch after which the record is stale.
    pub expires: u64,
}

pub ghost struct CymruASNView {
    pub as_number: u32,
    pub country_code: Seq<char>,
    pub registry: Seq<char>,
    pub allocated: Option<Date>,
    pub as_name: Seq<char>,
    pub expires: u64,
}

impl View for CymruASN {
    type V = CymruASNView;

    open spec fn view(&self) -> CymruASNView {
        CymruASNView {
            as_number: self.as_number,
            country_code: self.country_code@,
            registry: self.registry@,
            allocated: self.allocated,
            as_name: self.as_name@,
            expires: self.expires,
        }
    }
}

/// One origin of a BGP prefix, as the service announces it.
#[derive(Clone, Debug, PartialEq, Eq, PartialOrd, Ord)]
pub struct CymruOrigin {
    pub as_number: AsNumber,
    pub bgp_prefix: String,
    pub country_code: String,
    pub registry: String,
    pub allocated: Option<Date>,
    /// Seconds since the Unix epoch after which the record is stale.
    pub expires: u64,
}

pub ghost struct CymruOriginView {
    pub as_number: u32,
    pub bgp_prefix: Seq<char>,
    pub country_code: Seq<char>,
    pub registry: Seq<char>,
    pub allocated: Option<Date>,
    pub expires: u64,
}

impl View for CymruOrigin {
    type V = CymruOriginView;

    open spec fn view(&self) -> CymruOriginView {
        CymruOriginView {
            as_number: self.as_number,
            bgp_prefix: self.bgp_prefix@,
            country_code: self.country_code@,
            registry: self.registry@,
            allocated: self.allocated,
            expires: self.expires,
        }
    }
}

pub open spec fn trim_each(s: Seq<Seq<char>>) -> Seq<Seq<char>> {
    s.map_values(|f: Seq<char>| trim(f))
}

/// The fields of a row: the pieces between `|`, trimmed.
pub open spec fn row_fields(row: Seq<char>) -> Seq<Seq<char>> {
    trim_each(split(row, '|'))
}

/// The AS-information record that `row` holds, if it is well formed:
/// AS number, country code, registry, allocation date, AS name.
pub open spec fn asn_row(row: Seq<char>, expires: u64) -> Option<CymruASNView> {
    let f = row_fields(row);
    match parse_u32(f[0]) {
        Some(n) => if f.len() >= 5 {
            Some(
                CymruASNView {
                    as_number: n,
                    country_code: f[1],
                    registry: f[2],
                    allocated: date_of(f[3]),
                    as_name: f[4],
                    expires,
                },
            )
        } else {
            None
        },
        None => None,
    }
}

pub open spec fn option_seq<A>(o: Option<A>) -> Seq<A> {
    match o {
        Some(a) => seq![a],
        None => Seq::empty(),
    }
}

/// The AS-information records of `rows`, in order, malformed rows left out.
pub open spec fn asn_rows(rows: Seq<Seq<char>>, expires: u64) -> Seq<CymruASNView>
    decreases rows.len(),
{
    if rows.len() == 0 {
        Seq::empty()
    } else {
        asn_rows(rows.drop_last(), expires) + option_seq(asn_row(rows.last(), expires))
    }
}

/// One origin record for each token of `tokens` that is an AS number, in
/// order, each with the rest of the row's fields `f`.
pub open spec fn origin_tokens(
    tokens: Seq<Seq<char>>,
    f: Seq<Seq<char>>,
    expires: u64,
) -> Seq<CymruOriginView>
    decreases tokens.len(),
{
    if tokens.len() == 0 {
        Seq::empty()
    } else {
        let p = origin_tokens(tokens.drop_last(), f, expires);
        match parse_u32(tokens.last()) {
            Some(n) => p.push(
                CymruOriginView {
                    as_number: n,
                    bgp_prefix: f[1],
                    country_code: f[2],
                    registry: f[3],
                    allocated: date_of(f[4]),
                    expires,
                },
            ),
            None => p,
        }
    }
}

/// The origin records of `row`: AS numbers separated by white space, BGP
/// prefix, country code, registry, allocation date.
pub open spec fn origin_row(row: Seq<char>, expires: u64) -> Seq<CymruOriginView> {
    let f = row_fields(row);
    if f.len() >= 5 {
        origin_tokens(words(f[0]), f, expires)
    } else {
        Seq::empty()
    }
}

/// The origin records of `rows`, in order.
pub open spec fn origin_rows(rows: Seq<Seq<char>>, expires: u64) -> Seq<CymruOriginView>
    decreases rows.len(),
{
    if rows.len() == 0 {
        Seq::empty()
    } else {
        origin_rows(rows.drop_last(), expires) + origin_row(rows.last(), expires)
    }
}

pub open spec fn asn_views(v: Seq<CymruASN>) -> Seq<CymruASNView> {
    v.map_values(|a: CymruASN| a@)
}

pub open spec fn origin_views(v: Seq<CymruOrigin>) -> Seq<CymruOriginView> {
    v.map_values(|o: CymruOrigin| o@)
}

pub open spec fn texts(v: Seq<String>) -> Seq<Seq<char>> {
    v.map_values(|s: String| s@)
}

fn trim_all<'a>(parts: &Vec<&'a str>) -> (r: Vec<&'a str>)
    ensures
        r@.map_values(|x: &str| x@) == trim_each(parts@.map_values(|x: &str| x@)),
{
    let mut r: Vec<&'a str> = Vec::new();
    let mut i: usize = 0;
    while i < parts.len()
        invariant
            i <= parts.len(),
            r@.map_values(|x: &str| x@) =~= trim_each(parts@.map_values(|x: &str| x@)).take(
                i as int,
            ),
        decreases parts.len() - i,
    {
        let t = trim_text(parts[i]);
        let ghost old_r = r@;
        r.push(t);
        assert(r@ == old_r.push(t));
        assert(r@.map_values(|x: &str| x@) =~= old_r.map_values(|x: &str| x@).push(t@));
        i += 1;
    }
    r
}

fn fields_of<'a>(row: &'a str) -> (r: Vec<&'a str>)
    ensures
        r@.map_values(|x: &str| x@) == row_fields(row@),
{
    let parts = split_text(row, '|');
    trim_all(&parts)
}

fn asn_record(row: &str, expires: u64) -> (r: Option<CymruASN>)
    ensures
        option_seq(r).map_values(|a: CymruASN| a@) == option_seq(asn_row(row@, expires)),
{
    let f = fields_of(row);
    proof {
        crate::text::lemma_split_nonempty(row@, '|');
        assert(f@.map_values(|x: &str| x@).len() == f@.len());
    }
    match parse_number(f[0]) {
        Some(n) => {
            if f.len() >= 5 {
                let r = CymruASN {
                    as_number: n,
                    country_code: f[1].to_owned(),
                    registry: f[2].to_owned(),
                    allocated: parse_date(f[3]),
                    as_name: f[4].to_owned(),
                    expires,
                };
                assert(option_seq(Some(r)).map_values(|a: CymruASN| a@) =~= seq![r@]);
                Some(r)
            } else {
                assert(option_seq(None::<CymruASN>).map_values(|a: CymruASN| a@) =~= Seq::empty());
                None
            }
        },
        None => {
            assert(option_seq(None::<CymruASN>).map_values(|a: CymruASN| a@) =~= Seq::empty());
            None
        },
    }
}

/// Parses AS-information rows; rows that are not well formed are left out.
pub fn parse_cymru_asn(records: Vec<String>, cache_until: u64) -> (r: Vec<CymruASN>)
    ensures
        asn_views(r@) == asn_rows(texts(records@), cache_until),
{
    let mut r: Vec<CymruASN> = Vec::new();
    let mut i: usize = 0;
    assert(texts(records@).take(0) =~= Seq::<Seq<char>>::empty());
    while i < records.len()
        invariant
            i <= records.len(),
            asn_views(r@) =~= asn_rows(texts(records@).take(i as int), cache_until),
        decreases records.len() - i,
    {
        let ghost before = r@;
        assert(texts(records@).take(i + 1).drop_last() =~= texts(records@).take(i as int));
        let rec = asn_record(records[i].as_str(), cache_until);
        match rec {
            Some(a) => {
                r.push(a);
                assert(asn_views(r@) =~= asn_views(before) + option_seq(Some(a)).map_values(
                    |a: CymruASN| a@,
                ));
            },
            None => {},
        }
        i += 1;
    }
    assert(texts(records@).take(records.len() as int) =~= texts(records@));
    r
}

fn origin_records(row: &str, expires: u64, out: &mut Vec<CymruOrigin>)
    ensures
        origin_views(final(out)@) == origin_views(old(out)@) + origin_row(row@, expires),
{
    let ghost start = out@;
    let f = fields_of(row);
    let ghost fv = f@.map_values(|x: &str| x@);
    if f.len() < 5 {
        assert(origin_views(start) + origin_row(row@, expires) =~= origin_views(start));
        return;
    }
    let tokens = split_words(f[0]);
    let ghost tv = tokens@.map_values(|x: &str| x@);
    let mut j: usize = 0;
    assert(tv.take(0) =~= Seq::<Seq<char>>::empty());
    assert(origin_views(start) + origin_tokens(tv.take(0), fv, expires) =~= origin_views(start));
    while j < tokens.len()
        invariant
            j <= tokens.len(),
            f.len() >= 5,
            fv == f@.map_values(|x: &str| x@),
            tv == tokens@.map_values(|x: &str| x@),
            origin_views(out@) =~= origin_views(start) + origin_tokens(tv.take(j as int), fv, expires),
        decreases tokens.len() - j,
    {
        let ghost before = out@;
        assert(tv.take(j + 1).drop_last() =~= tv.take(j as int));
        match parse_number(tokens[j]) {
            Some(n) => {
                let o = CymruOrigin {
                    as_number: n,
                    bgp_prefix: f[1].to_owned(),
                    country_code: f[2].to_owned(),
                    registry: f[3].to_owned(),
                    allocated: parse_date(f[4]),
                    expires,
                };
                out.push(o);
                assert(origin_views(out@) =~= origin_views(before).push(o@));
            },
            None => {},
        }
        j += 1;
    }
    assert(tv.take(tokens.len() as int) =~= tv);
}

/// Parses origin rows; each AS number of a row gives one record, and tokens
/// or rows that are not well formed are left out.
pub fn parse_cymru_origin(records: Vec<String>, cache_until: u64) -> (r: Vec<CymruOrigin>)
    ensures
        origin_views(r@) == origin_rows(texts(records@), cache_until),
{
    let mut r: Vec<CymruOrigin> = Vec::new();
    let mut i: usize = 0;
    assert(texts(records@).take(0) =~= Seq::<Seq<char>>::empty());
    assert(origin_views(r@) =~= Seq::<CymruOriginView>::empty());
    while i < records.len()
        invariant
            i <= records.len(),
            origin_views(r@) =~= origin_rows(texts(records@).take(i as int), cache_until),
        decreases records.len() - i,
    {
        assert(texts(records@).take(i + 1).drop_last() =~= texts(records@).take(i as int));
        origin_records(records[i].as_str(), cache_until, &mut r);
        i += 1;
    }
    assert(texts(records@).take(records.len() as int) =~= texts(records@));
    r
}

} // verus!
