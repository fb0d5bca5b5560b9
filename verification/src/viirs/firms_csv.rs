//! Rows of a NASA FIRMS VIIRS active-fire CSV: header lookup, field
//! extraction, acquisition date and time, and the row-by-row record of what
//! each detection holds as text.
use vstd::prelude::*;
use chrono::{Datelike, TimeZone};
use crate::text::{
    ascii_lower, ascii_lower_chars, chars_eq_str, chars_of, digit_value, is_ascii_digit,
    is_unicode_whitespace, owned, string_from_chars, trim_chars, trim_end, trim_start, trim_str,
    trimmed, chars_views, label_views,
};

verus! {

#[verifier::external_type_specification]
#[verifier::external_body]
pub struct ExCsvError(csv::Error);

#[verifier::external_type_specification]
#[verifier::external_body]
pub struct ExChronoParseError(chrono::ParseError);

/// The header row that `csv::Reader` (with `Trim::All`) reads from `text`, each field
/// trimmed, or `None` where it reports an error.
pub uninterp spec fn csv_header_fields(text: Seq<char>) -> Option<Seq<Seq<char>>>;

/// The data rows that `csv::Reader` (with `Trim::All`) yields from `text` before its
/// first error, each field trimmed, and whether such an error ended the reading.
pub uninterp spec fn csv_record_fields(text: Seq<char>) -> (Seq<Seq<Seq<char>>>, bool);

/// The year, month and day that `chrono::NaiveDate::parse_from_str` reads from `text`
/// with `format`, or `None` where it reports an error.
pub uninterp spec fn chrono_date_ymd(text: Seq<char>, format: Seq<char>) -> Option<(i32, u32, u32)>;

pub open spec fn record_views(r: Seq<Vec<String>>) -> Seq<Seq<Seq<char>>> {
    r.map_values(|v: Vec<String>| label_views(v@))
}

/// Builds a `csv::ReaderBuilder` with `Trim::All` over `text` and calls `headers`.
/// The claim: whether it fails, and the fields it returns, depend on `text` alone.
#[verifier::external_body]
fn read_csv_headers(text: &str) -> (res: Result<Vec<String>, csv::Error>)
    ensures
        res is Ok <==> csv_header_fields(text@) is Some,
        res matches Ok(h) ==> label_views(h@) == csv_header_fields(text@)->0,
{
    let mut reader = csv::ReaderBuilder::new().trim(csv::Trim::All).from_reader(text.as_bytes());
    reader.headers().map(|h| h.iter().map(String::from).collect())
}

/// Builds a `csv::ReaderBuilder` with `Trim::All` over `text` and collects what
/// `records` yields up to its first error, which it hands back. The claim: the rows
/// read and whether an error stopped the reading depend on `text` alone.
#[verifier::external_body]
fn read_csv_records(text: &str) -> (res: (Vec<Vec<String>>, Option<csv::Error>))
    ensures
        record_views(res.0@) == csv_record_fields(text@).0,
        res.1 is Some <==> csv_record_fields(text@).1,
{
    let mut reader = csv::ReaderBuilder::new().trim(csv::Trim::All).from_reader(text.as_bytes());
    let mut records = Vec::new();
    for record in reader.records() {
        match record {
            Ok(r) => records.push(r.iter().map(String::from).collect()),
            Err(e) => return (records, Some(e)),
        }
    }
    (records, None)
}

/// Whether `year` is a leap year of the proleptic Gregorian calendar.
pub open spec fn is_leap_year(year: int) -> bool {
    (year % 4 == 0 && year % 100 != 0) || year % 400 == 0
}

/// The number of days of `month` in `year`.
pub open spec fn days_in_month(year: int, month: int) -> int {
    if month == 2 {
        if is_leap_year(year) {
            29
        } else {
            28
        }
    } else if month == 4 || month == 6 || month == 9 || month == 11 {
        30
    } else {
        31
    }
}

/// A calendar date that `chrono::NaiveDate` can hold: its year lies within
/// chrono's range (-262143 through 262142), its month in 1 through 12, and its
/// day within the month.
pub open spec fn valid_calendar_date(year: i32, month: u32, day: u32) -> bool {
    &&& -262143 <= year <= 262142
    &&& 1 <= month <= 12
    &&& 1 <= day <= days_in_month(year as int, month as int)
}

/// Calls `chrono::NaiveDate::parse_from_str(text, format)` and hands back the date's
/// year, month and day. The claim: the outcome depends on `text` and `format` alone,
/// and a date it hands back is one `NaiveDate` can hold.
#[verifier::external_body]
fn parse_date_ymd(text: &str, format: &str) -> (res: Result<(i32, u32, u32), chrono::ParseError>)
    ensures
        res is Ok <==> chrono_date_ymd(text@, format@) is Some,
        res matches Ok(d) ==> d == chrono_date_ymd(text@, format@)->0,
        res matches Ok(d) ==> valid_calendar_date(d.0, d.1, d.2),
{
    chrono::NaiveDate::parse_from_str(text, format).map(|d| (d.year(), d.month(), d.day()))
}

/// The number of leap years from year 1 through `y`, shifted by a constant for
/// `y` below 1 (floor division keeps differences right across year 0).
pub open spec fn leap_years_through(y: int) -> int {
    y / 4 - y / 100 + y / 400
}

/// The number of days from 1970-01-01 to the first day of `year`.
pub open spec fn days_before_year(year: int) -> int {
    365 * (year - 1970) + leap_years_through(year - 1) - leap_years_through(1969)
}

/// The number of days of `year` before the first day of `month`.
pub open spec fn days_before_month(year: int, month: int) -> int {
    let common: int = if month == 1 {
        0
    } else if month == 2 {
        31
    } else if month == 3 {
        59
    } else if month == 4 {
        90
    } else if month == 5 {
        120
    } else if month == 6 {
        151
    } else if month == 7 {
        181
    } else if month == 8 {
        212
    } else if month == 9 {
        243
    } else if month == 10 {
        273
    } else if month == 11 {
        304
    } else {
        334
    };
    if month > 2 && is_leap_year(year) {
        common + 1
    } else {
        common
    }
}

/// The Unix timestamp of a UTC date and time of day: the days since
/// 1970-01-01 times 86400, plus the seconds since midnight.
pub open spec fn unix_seconds(year: int, month: int, day: int, hour: int, minute: int, second: int) -> int {
    (days_before_year(year) + days_before_month(year, month) + day - 1) * 86400 + hour * 3600
        + minute * 60 + second
}

/// `unix_seconds` of arguments of the types chrono takes.
pub open spec fn utc_seconds(year: i32, month: u32, day: u32, hour: u32, minute: u32, second: u32) -> int {
    unix_seconds(year as int, month as int, day as int, hour as int, minute as int, second as int)
}

/// A time of day of whole seconds: hour below 24, minute and second below 60.
pub open spec fn valid_clock_time(hour: u32, minute: u32, second: u32) -> bool {
    hour < 24 && minute < 60 && second < 60
}

/// Calls `chrono::Utc.with_ymd_and_hms`, keeps the result only when it is a single
/// instant, and hands back its `timestamp`. The claim, as chrono's source has it:
/// the call builds an instant exactly when the date is one `NaiveDate` can hold and
/// the hour is below 24 and the minute and second below 60 (UTC has a single
/// offset, so every such time is a single instant), and `timestamp` counts the days
/// since 1970-01-01 times 86400 plus the seconds since midnight.
#[verifier::external_body]
fn utc_timestamp(year: i32, month: u32, day: u32, hour: u32, minute: u32, second: u32) -> (res:
    Option<i64>)
    ensures
        res is Some <==> (valid_calendar_date(year, month, day) && valid_clock_time(hour, minute, second)),
        res matches Some(t) ==> t == utc_seconds(year, month, day, hour, minute, second),
{
    chrono::Utc.with_ymd_and_hms(year, month, day, hour, minute, second).single().map(
        |t| t.timestamp(),
    )
}

/// An acquisition time that is not `HHMM` (or fewer digits) of a valid clock time.
#[derive(Debug)]
pub struct InvalidAcqTime {
    /// The text of the field as found.
    pub raw: String,
}

pub open spec fn all_digits(s: Seq<char>) -> bool {
    forall|i: int| 0 <= i < s.len() ==> is_ascii_digit(#[trigger] s[i])
}

/// `d` left-padded with `0` to four characters.
pub open spec fn pad4(d: Seq<char>) -> Seq<char> {
    Seq::new((4 - d.len()) as nat, |i: int| '0') + d
}

/// The number written by the two digits of `p` at `at` and `at + 1`.
pub open spec fn two_digits(p: Seq<char>, at: int) -> int {
    digit_value(p[at]) * 10 + digit_value(p[at + 1])
}

/// The FIRMS acquisition time in `HHMM` form: the trimmed field must be one to
/// four ASCII digits; it is left-padded with zeros to four, and must then read
/// as an hour up to 23 and a minute up to 59.
pub open spec fn spec_normalize_acq_time(raw: Seq<char>) -> Option<Seq<char>> {
    let d = trimmed(raw);
    if d.len() == 0 || d.len() > 4 || !all_digits(d) {
        None
    } else {
        let p = pad4(d);
        if two_digits(p, 0) > 23 || two_digits(p, 2) > 59 {
            None
        } else {
            Some(p)
        }
    }
}

/// A well-formed `HHMM` time.
pub open spec fn is_hhmm(p: Seq<char>) -> bool {
    &&& p.len() == 4
    &&& all_digits(p)
    &&& two_digits(p, 0) <= 23
    &&& two_digits(p, 2) <= 59
}

fn is_digit_char(c: char) -> (b: bool)
    ensures
        b == is_ascii_digit(c),
{
    '0' <= c && c <= '9'
}

fn digit_of(c: char) -> (v: u32)
    requires
        is_ascii_digit(c),
    ensures
        v == digit_value(c),
        v <= 9,
{
    (c as u32) - 48
}

/// Normalizes a FIRMS `acq_time` field to `HHMM`.
pub fn normalize_acquisition_time(raw: &str) -> (res: Result<String, InvalidAcqTime>)
    ensures
        match spec_normalize_acq_time(raw@) {
            Some(p) => res matches Ok(s) && s@ == p,
            None => res matches Err(e) && e.raw@ == raw@,
        },
{
    let d = trim_str(raw);
    if d.len() == 0 || d.len() > 4 {
        return Err(InvalidAcqTime { raw: owned(raw) });
    }
    let mut i: usize = 0;
    while i < d.len()
        invariant
            i <= d.len(),
            d@ == trimmed(raw@),
            0 < d.len() <= 4,
            forall|j: int| 0 <= j < i ==> is_ascii_digit(d@[j]),
        decreases d.len() - i,
    {
        if !is_digit_char(d[i]) {
            assert(!is_ascii_digit(d@[i as int]));
            assert(!all_digits(d@));
            return Err(InvalidAcqTime { raw: owned(raw) });
        }
        i = i + 1;
    }
    let mut p: Vec<char> = Vec::new();
    let pad = 4 - d.len();
    let mut k: usize = 0;
    while k < pad
        invariant
            k <= pad,
            pad == 4 - d.len(),
            p@ == Seq::new(k as nat, |i: int| '0'),
        decreases pad - k,
    {
        p.push('0');
        k = k + 1;
        assert(p@ =~= Seq::new(k as nat, |i: int| '0'));
    }
    let mut j: usize = 0;
    while j < d.len()
        invariant
            j <= d.len(),
            p@ == Seq::new(pad as nat, |i: int| '0') + d@.subrange(0, j as int),
        decreases d.len() - j,
    {
        p.push(d[j]);
        j = j + 1;
        assert(p@ =~= Seq::new(pad as nat, |i: int| '0') + d@.subrange(0, j as int));
    }
    assert(d@.subrange(0, d.len() as int) =~= d@);
    assert(p@ =~= pad4(d@));
    assert(all_digits(p@));
    let hour = digit_of(p[0]) * 10 + digit_of(p[1]);
    let minute = digit_of(p[2]) * 10 + digit_of(p[3]);
    if hour > 23 || minute > 59 {
        return Err(InvalidAcqTime { raw: owned(raw) });
    }
    Ok(string_from_chars(&p))
}

/// Every normalized time is a well-formed `HHMM`, and normalizing it again
/// changes nothing.
pub proof fn lemma_acq_time_normal_form(raw: Seq<char>)
    ensures
        spec_normalize_acq_time(raw) matches Some(p) ==> is_hhmm(p) && spec_normalize_acq_time(p)
            == Some(p),
{
    if let Some(p) = spec_normalize_acq_time(raw) {
        let d = trimmed(raw);
        assert(p == pad4(d));
        assert(all_digits(p)) by {
            assert forall|i: int| 0 <= i < p.len() implies is_ascii_digit(#[trigger] p[i]) by {
                if i >= 4 - d.len() {
                    assert(p[i] == d[i - (4 - d.len())]);
                }
            }
        }
        assert(!is_unicode_whitespace(p[0]));
        assert(!is_unicode_whitespace(p[3]));
        assert(trim_start(p) == p);
        assert(trim_end(p) == p);
        assert(trimmed(p) == p);
        assert(pad4(p) =~= p);
    }
}

/// The key under which a header is looked up: trimmed and lower-cased.
pub open spec fn header_key(h: Seq<char>) -> Seq<char> {
    ascii_lower(trimmed(h))
}

pub open spec fn header_keys(headers: Seq<Seq<char>>) -> Seq<Seq<char>> {
    headers.map_values(|h: Seq<char>| header_key(h))
}

/// The column of `name`: the last one whose key is `name`.
pub open spec fn column_of(keys: Seq<Seq<char>>, name: Seq<char>) -> Option<int>
    decreases keys.len(),
{
    if keys.len() == 0 {
        None
    } else if keys.last() == name {
        Some(keys.len() - 1)
    } else {
        column_of(keys.drop_last(), name)
    }
}

/// The trimmed value of column `name` in `record`, if the column exists, the
/// record reaches it, and the value is not blank.
pub open spec fn field_value(headers: Seq<Seq<char>>, record: Seq<Seq<char>>, name: Seq<char>) -> Option<
    Seq<char>,
> {
    match column_of(header_keys(headers), name) {
        Some(i) => if i < record.len() && trimmed(record[i]).len() > 0 {
            Some(trimmed(record[i]))
        } else {
            None
        },
        None => None,
    }
}

/// The first of the four columns every FIRMS CSV needs that the header lacks.
pub open spec fn spec_missing_column(headers: Seq<Seq<char>>) -> Option<Seq<char>> {
    let keys = header_keys(headers);
    if column_of(keys, "latitude"@) is None {
        Some("latitude"@)
    } else if column_of(keys, "longitude"@) is None {
        Some("longitude"@)
    } else if column_of(keys, "acq_date"@) is None {
        Some("acq_date"@)
    } else if column_of(keys, "acq_time"@) is None {
        Some("acq_time"@)
    } else {
        None
    }
}

/// The lookup key of each header, in column order.
pub fn lookup_keys(headers: &Vec<String>) -> (keys: Vec<Vec<char>>)
    ensures
        chars_views(keys@) == header_keys(label_views(headers@)),
{
    let mut keys: Vec<Vec<char>> = Vec::new();
    let mut i: usize = 0;
    while i < headers.len()
        invariant
            i <= headers.len(),
            chars_views(keys@) == header_keys(label_views(headers@)).subrange(0, i as int),
        decreases headers.len() - i,
    {
        let t = trim_str(headers[i].as_str());
        let k = ascii_lower_chars(&t);
        let ghost before = keys@;
        keys.push(k);
        assert(chars_views(keys@) =~= chars_views(before).push(k@));
        i = i + 1;
        assert(chars_views(keys@) =~= header_keys(label_views(headers@)).subrange(0, i as int));
    }
    assert(header_keys(label_views(headers@)).subrange(0, i as int) =~= header_keys(
        label_views(headers@),
    ));
    keys
}

fn column_position(keys: &Vec<Vec<char>>, name: &str) -> (pos: Option<usize>)
    ensures
        match pos {
            Some(p) => column_of(chars_views(keys@), name@) == Some(p as int),
            None => column_of(chars_views(keys@), name@) is None,
        },
{
    let ghost kv = chars_views(keys@);
    let mut pos: Option<usize> = None;
    let mut j: usize = 0;
    while j < keys.len()
        invariant
            j <= keys.len(),
            kv == chars_views(keys@),
            match pos {
                Some(p) => column_of(kv.subrange(0, j as int), name@) == Some(p as int),
                None => column_of(kv.subrange(0, j as int), name@) is None,
            },
        decreases keys.len() - j,
    {
        assert(kv.subrange(0, j + 1).drop_last() =~= kv.subrange(0, j as int));
        if chars_eq_str(&keys[j], name) {
            pos = Some(j);
        }
        j = j + 1;
    }
    assert(kv.subrange(0, j as int) =~= kv);
    pos
}

/// The first required column the header lacks, if any.
pub fn required_column_missing(headers: &Vec<String>) -> (missing: Option<String>)
    ensures
        match spec_missing_column(label_views(headers@)) {
            Some(c) => missing matches Some(m) && m@ == c,
            None => missing is None,
        },
{
    let keys = lookup_keys(headers);
    if column_position(&keys, "latitude").is_none() {
        Some(owned("latitude"))
    } else if column_position(&keys, "longitude").is_none() {
        Some(owned("longitude"))
    } else if column_position(&keys, "acq_date").is_none() {
        Some(owned("acq_date"))
    } else if column_position(&keys, "acq_time").is_none() {
        Some(owned("acq_time"))
    } else {
        None
    }
}

pub open spec fn opt_chars(o: Option<Vec<char>>) -> Option<Seq<char>> {
    match o {
        Some(c) => Some(c@),
        None => None,
    }
}

pub open spec fn opt_string(o: Option<String>) -> Option<Seq<char>> {
    match o {
        Some(s) => Some(s@),
        None => None,
    }
}

/// The trimmed, non-blank value of column `name` in `record`.
pub fn field(
    headers: &Vec<String>,
    keys: &Vec<Vec<char>>,
    record: &Vec<String>,
    name: &str,
) -> (f: Option<Vec<char>>)
    requires
        chars_views(keys@) == header_keys(label_views(headers@)),
    ensures
        opt_chars(f) == field_value(label_views(headers@), label_views(record@), name@),
{
    match column_position(keys, name) {
        Some(i) => {
            if i < record.len() {
                let t = trim_str(record[i].as_str());
                if t.len() > 0 {
                    return Some(t);
                }
            }
            None
        },
        None => None,
    }
}

/// The value of column `name` as an owned string, if present and not blank.
pub fn optional_string(
    headers: &Vec<String>,
    keys: &Vec<Vec<char>>,
    record: &Vec<String>,
    name: &str,
) -> (f: Option<String>)
    requires
        chars_views(keys@) == header_keys(label_views(headers@)),
    ensures
        opt_string(f) == field_value(label_views(headers@), label_views(record@), name@),
{
    match field(headers, keys, record, name) {
        Some(cs) => Some(string_from_chars(&cs)),
        None => None,
    }
}

fn string_or(o: Option<String>, default: &str) -> (s: String)
    ensures
        s@ == match opt_string(o) {
            Some(v) => v,
            None => default@,
        },
{
    match o {
        Some(s) => s,
        None => owned(default),
    }
}

/// The calendar date of a detection.
#[derive(Debug, Clone, Copy, PartialEq, Eq, Structural)]
pub struct FirmsDate {
    pub year: i32,
    pub month: u32,
    pub day: u32,
}

/// Why the `acq_date` field of a row gives no date.
#[derive(Debug)]
pub enum DateFieldError {
    /// The field is absent or blank.
    Missing,
    /// The field does not read as `YYYY-MM-DD`; it carries the text and chrono's error.
    Invalid { raw: String, error: chrono::ParseError },
}

/// One data row of a FIRMS CSV, as text: each value still to be read as a
/// number is kept as the trimmed field (absent where blank).
#[derive(Debug)]
pub struct FirmsRow {
    /// The header and the value of each column, in column order.
    pub raw: Vec<(String, String)>,
    pub latitude: Option<String>,
    pub longitude: Option<String>,
    pub acq_date: Result<FirmsDate, DateFieldError>,
    pub acq_time: Result<String, InvalidAcqTime>,
    /// The Unix timestamp of the acquisition, when date and time are both valid.
    pub acq_timestamp: Option<i64>,
    pub bright_ti4: Option<String>,
    pub bright_ti5: Option<String>,
    pub scan: Option<String>,
    pub track: Option<String>,
    pub frp: Option<String>,
    pub satellite: String,
    pub instrument: String,
    pub confidence: String,
    pub version: String,
    pub day_night: Option<String>,
    pub source: String,
}

pub open spec fn or_default(o: Option<Seq<char>>, default: Seq<char>) -> Seq<char> {
    match o {
        Some(v) => v,
        None => default,
    }
}

/// The pairs of header and value, up to the shorter of the two rows.
pub open spec fn raw_pairs_match(raw: Seq<(String, String)>, headers: Seq<Seq<char>>, record: Seq<Seq<char>>) -> bool {
    &&& raw.len() == if headers.len() <= record.len() {
        headers.len()
    } else {
        record.len()
    }
    &&& forall|i: int| 0 <= i < raw.len() ==> (#[trigger] raw[i]).0@ == headers[i] && raw[i].1@ == record[i]
}

/// The date format of the `acq_date` column.
pub open spec fn date_format() -> Seq<char> {
    "%Y-%m-%d"@
}

/// What the `acq_date` field of a row gives.
pub open spec fn acq_date_matches(
    got: Result<FirmsDate, DateFieldError>,
    field: Option<Seq<char>>,
) -> bool {
    match field {
        None => got matches Err(DateFieldError::Missing),
        Some(t) => match chrono_date_ymd(t, date_format()) {
            Some((y, m, d)) => got == Ok::<FirmsDate, DateFieldError>(
                FirmsDate { year: y, month: m, day: d },
            ),
            None => got matches Err(DateFieldError::Invalid { raw, .. }) && raw@ == t,
        },
    }
}

/// What the `acq_time` field of a row gives; a missing field reads as empty.
pub open spec fn acq_time_matches(got: Result<String, InvalidAcqTime>, field: Option<Seq<char>>) -> bool {
    let text = or_default(field, Seq::empty());
    match spec_normalize_acq_time(text) {
        Some(p) => got matches Ok(s) && s@ == p,
        None => got matches Err(e) && e.raw@ == text,
    }
}

/// The Unix timestamp of a date and `HHMM` time, at second zero, when both are valid.
pub open spec fn acq_timestamp_of(date: Result<FirmsDate, DateFieldError>, time: Result<String, InvalidAcqTime>) -> Option<int> {
    match (date, time) {
        (Ok(d), Ok(t)) => Some(
            unix_seconds(
                d.year as int,
                d.month as int,
                d.day as int,
                two_digits(t@, 0),
                two_digits(t@, 2),
                0,
            ),
        ),
        _ => None,
    }
}

/// An optional timestamp as an integer.
pub open spec fn opt_int(o: Option<i64>) -> Option<int> {
    match o {
        Some(t) => Some(t as int),
        None => None,
    }
}

/// What a row built from `record` under `headers` holds.
pub open spec fn row_matches(
    row: FirmsRow,
    headers: Seq<Seq<char>>,
    record: Seq<Seq<char>>,
    source: Seq<char>,
) -> bool {
    &&& raw_pairs_match(row.raw@, headers, record)
    &&& opt_string(row.latitude) == field_value(headers, record, "latitude"@)
    &&& opt_string(row.longitude) == field_value(headers, record, "longitude"@)
    &&& acq_date_matches(row.acq_date, field_value(headers, record, "acq_date"@))
    &&& acq_time_matches(row.acq_time, field_value(headers, record, "acq_time"@))
    &&& opt_int(row.acq_timestamp) == acq_timestamp_of(row.acq_date, row.acq_time)
    &&& row.acq_date matches Ok(d) ==> valid_calendar_date(d.year, d.month, d.day)
    &&& opt_string(row.bright_ti4) == field_value(headers, record, "bright_ti4"@)
    &&& opt_string(row.bright_ti5) == field_value(headers, record, "bright_ti5"@)
    &&& opt_string(row.scan) == field_value(headers, record, "scan"@)
    &&& opt_string(row.track) == field_value(headers, record, "track"@)
    &&& opt_string(row.frp) == field_value(headers, record, "frp"@)
    &&& row.satellite@ == or_default(field_value(headers, record, "satellite"@), "unknown"@)
    &&& row.instrument@ == or_default(field_value(headers, record, "instrument"@), "VIIRS"@)
    &&& row.confidence@ == or_default(field_value(headers, record, "confidence"@), "unknown"@)
    &&& row.version@ == or_default(field_value(headers, record, "version"@), "unknown"@)
    &&& opt_string(row.day_night) == field_value(headers, record, "daynight"@)
    &&& row.source@ == source
}

proof fn lemma_column_of_last_match(keys: Seq<Seq<char>>, name: Seq<char>, j: int)
    requires
        0 <= j < keys.len(),
        keys[j] == name,
        forall|k: int| j < k < keys.len() ==> keys[k] != name,
    ensures
        column_of(keys, name) == Some(j),
    decreases keys.len(),
{
    if j < keys.len() - 1 {
        assert(keys.last() != name);
        let rest = keys.drop_last();
        assert forall|k: int| j < k < rest.len() implies rest[k] != name by {
            assert(rest[k] == keys[k]);
        }
        lemma_column_of_last_match(rest, name, j);
    }
}

/// The trimmed value of a cell, or nothing where it is blank.
pub open spec fn cell_value(cell: Seq<char>) -> Option<Seq<char>> {
    if trimmed(cell).len() > 0 {
        Some(trimmed(cell))
    } else {
        None
    }
}

/// Each field of a row comes from the column carrying that field's own header:
/// where column `j` is the last whose trimmed, lower-cased header is a field's
/// name, and the record reaches it, the field holds that cell's trimmed value
/// when it is not blank and nothing otherwise (the text fields fall back to
/// their defaults instead); the row carries the source it was read for.
pub proof fn lemma_row_fields_come_from_their_own_columns(
    row: FirmsRow,
    headers: Seq<Seq<char>>,
    record: Seq<Seq<char>>,
    source: Seq<char>,
    j: int,
)
    requires
        row_matches(row, headers, record, source),
        0 <= j < headers.len(),
        j < record.len(),
        forall|k: int|
            j < k < headers.len() ==> ascii_lower(trimmed(headers[k])) != ascii_lower(trimmed(headers[j])),
    ensures
        ({
            let name = ascii_lower(trimmed(headers[j]));
            let v = cell_value(record[j]);
            &&& name == "latitude"@ ==> opt_string(row.latitude) == v
            &&& name == "longitude"@ ==> opt_string(row.longitude) == v
            &&& name == "bright_ti4"@ ==> opt_string(row.bright_ti4) == v
            &&& name == "bright_ti5"@ ==> opt_string(row.bright_ti5) == v
            &&& name == "scan"@ ==> opt_string(row.scan) == v
            &&& name == "track"@ ==> opt_string(row.track) == v
            &&& name == "frp"@ ==> opt_string(row.frp) == v
            &&& name == "daynight"@ ==> opt_string(row.day_night) == v
            &&& name == "satellite"@ ==> row.satellite@ == or_default(v, "unknown"@)
            &&& name == "instrument"@ ==> row.instrument@ == or_default(v, "VIIRS"@)
            &&& name == "confidence"@ ==> row.confidence@ == or_default(v, "unknown"@)
            &&& name == "version"@ ==> row.version@ == or_default(v, "unknown"@)
        }),
        row.source@ == source,
{
    let keys = header_keys(headers);
    let name = ascii_lower(trimmed(headers[j]));
    assert forall|k: int| j < k < keys.len() implies keys[k] != name by {
        assert(keys[k] == ascii_lower(trimmed(headers[k])));
    }
    lemma_column_of_last_match(keys, name, j);
    assert(field_value(headers, record, name) == cell_value(record[j]));
}

fn raw_pairs(headers: &Vec<String>, record: &Vec<String>) -> (raw: Vec<(String, String)>)
    ensures
        raw_pairs_match(raw@, label_views(headers@), label_views(record@)),
{
    let n = if headers.len() <= record.len() {
        headers.len()
    } else {
        record.len()
    };
    let mut raw: Vec<(String, String)> = Vec::new();
    let mut i: usize = 0;
    while i < n
        invariant
            i <= n,
            n <= headers.len(),
            n <= record.len(),
            raw.len() == i,
            forall|j: int|
                0 <= j < i ==> (#[trigger] raw@[j]).0@ == headers@[j]@ && raw@[j].1@ == record@[j]@,
        decreases n - i,
    {
        let h = headers[i].clone();
        let v = record[i].clone();
        raw.push((h, v));
        i = i + 1;
    }
    raw
}

fn acquisition_timestamp(date: &Result<FirmsDate, DateFieldError>, time: &Result<String, InvalidAcqTime>) -> (ts: Option<i64>)
    requires
        date matches Ok(d) ==> valid_calendar_date(d.year, d.month, d.day),
        time matches Ok(t) ==> is_hhmm(t@),
    ensures
        opt_int(ts) == acq_timestamp_of(*date, *time),
{
    match (date, time) {
        (Ok(d), Ok(t)) => {
            let cs = chars_of(t.as_str());
            let hour = digit_of(cs[0]) * 10 + digit_of(cs[1]);
            let minute = digit_of(cs[2]) * 10 + digit_of(cs[3]);
            utc_timestamp(d.year, d.month, d.day, hour, minute, 0)
        },
        _ => None,
    }
}

fn read_acq_date(text: Option<Vec<char>>) -> (res: Result<FirmsDate, DateFieldError>)
    ensures
        acq_date_matches(res, opt_chars(text)),
        res matches Ok(d) ==> valid_calendar_date(d.year, d.month, d.day),
{
    match text {
        None => Err(DateFieldError::Missing),
        Some(cs) => {
            let raw = string_from_chars(&cs);
            match parse_date_ymd(raw.as_str(), "%Y-%m-%d") {
                Ok((year, month, day)) => Ok(FirmsDate { year, month, day }),
                Err(error) => Err(DateFieldError::Invalid { raw, error }),
            }
        },
    }
}

/// Builds the row for `record` under `headers`, tagged with `source`.
fn firms_row(headers: &Vec<String>, keys: &Vec<Vec<char>>, record: &Vec<String>, source: &str) -> (row: FirmsRow)
    requires
        chars_views(keys@) == header_keys(label_views(headers@)),
    ensures
        row_matches(row, label_views(headers@), label_views(record@), source@),
{
    let ghost h = label_views(headers@);
    let ghost r = label_views(record@);
    let raw = raw_pairs(headers, record);
    let latitude = optional_string(headers, keys, record, "latitude");
    let longitude = optional_string(headers, keys, record, "longitude");
    let acq_date = read_acq_date(field(headers, keys, record, "acq_date"));
    let time_field = optional_string(headers, keys, record, "acq_time");
    let time_text = string_or(time_field, "");
    let acq_time = normalize_acquisition_time(time_text.as_str());
    proof {
        reveal_strlit("");
        assert(""@ =~= Seq::<char>::empty());
        lemma_acq_time_normal_form(time_text@);
    }
    let acq_timestamp = acquisition_timestamp(&acq_date, &acq_time);
    let row = FirmsRow {
        raw,
        latitude,
        longitude,
        acq_date,
        acq_time,
        acq_timestamp,
        bright_ti4: optional_string(headers, keys, record, "bright_ti4"),
        bright_ti5: optional_string(headers, keys, record, "bright_ti5"),
        scan: optional_string(headers, keys, record, "scan"),
        track: optional_string(headers, keys, record, "track"),
        frp: optional_string(headers, keys, record, "frp"),
        satellite: string_or(optional_string(headers, keys, record, "satellite"), "unknown"),
        instrument: string_or(optional_string(headers, keys, record, "instrument"), "VIIRS"),
        confidence: string_or(optional_string(headers, keys, record, "confidence"), "unknown"),
        version: string_or(optional_string(headers, keys, record, "version"), "unknown"),
        day_night: optional_string(headers, keys, record, "daynight"),
        source: owned(source),
    };
    row
}

/// The rows of a FIRMS CSV body, one per record, in order.
pub fn firms_rows(headers: &Vec<String>, records: &Vec<Vec<String>>, source: &str) -> (rows: Vec<FirmsRow>)
    ensures
        rows.len() == records.len(),
        forall|i: int|
            0 <= i < rows.len() ==> row_matches(
                #[trigger] rows@[i],
                label_views(headers@),
                label_views(records@[i]@),
                source@,
            ),
{
    let keys = lookup_keys(headers);
    let mut rows: Vec<FirmsRow> = Vec::new();
    let mut i: usize = 0;
    while i < records.len()
        invariant
            i <= records.len(),
            chars_views(keys@) == header_keys(label_views(headers@)),
            rows.len() == i,
            forall|j: int|
                0 <= j < i ==> row_matches(
                    #[trigger] rows@[j],
                    label_views(headers@),
                    label_views(records@[j]@),
                    source@,
                ),
        decreases records.len() - i,
    {
        let row = firms_row(headers, &keys, &records[i], source);
        rows.push(row);
        i = i + 1;
    }
    rows
}

/// What keeps a row from becoming a detection, in the order the fields are read.
#[derive(Debug, Clone, Copy, PartialEq, Eq, Structural)]
pub enum RowProblem {
    /// The latitude is missing or does not read as a number.
    Latitude,
    /// The longitude is missing or does not read as a number.
    Longitude,
    /// The acquisition date is missing or invalid.
    AcqDate,
    /// The acquisition time is invalid.
    AcqTime,
}

/// Why the rows of a FIRMS CSV yield no detections.
#[derive(Debug, Clone, Copy, PartialEq, Eq, Structural)]
pub enum RowsFailure {
    /// The row at `index` is the first that cannot become a detection.
    BadRow { index: usize, problem: RowProblem },
    /// Every row read is sound, but the reader stopped on an error.
    ReadError,
}

/// The first problem of a row, if any; `coords_ok` says whether its latitude
/// and its longitude are present and read as numbers.
pub open spec fn row_problem(row: FirmsRow, coords_ok: (bool, bool)) -> Option<RowProblem> {
    if !coords_ok.0 {
        Some(RowProblem::Latitude)
    } else if !coords_ok.1 {
        Some(RowProblem::Longitude)
    } else if row.acq_date is Err {
        Some(RowProblem::AcqDate)
    } else if row.acq_time is Err {
        Some(RowProblem::AcqTime)
    } else {
        None
    }
}

/// Whether none of the first `n` rows has a problem.
pub open spec fn rows_sound(rows: Seq<FirmsRow>, coords_ok: Seq<(bool, bool)>, n: int) -> bool {
    forall|j: int| 0 <= j < n ==> (#[trigger] row_problem(rows[j], coords_ok[j])) is None
}

/// Decides whether the rows of a FIRMS CSV become detections: the first row
/// with a problem fails the whole CSV; failing that, a read error does.
pub fn rows_failure(rows: &Vec<FirmsRow>, coords_ok: &Vec<(bool, bool)>, read_failed: bool) -> (res:
    Option<RowsFailure>)
    requires
        coords_ok.len() == rows.len(),
    ensures
        match res {
            Some(RowsFailure::BadRow { index, problem }) => {
                &&& index < rows.len()
                &&& row_problem(rows@[index as int], coords_ok@[index as int]) == Some(problem)
                &&& rows_sound(rows@, coords_ok@, index as int)
            },
            Some(RowsFailure::ReadError) => read_failed && rows_sound(rows@, coords_ok@, rows.len() as int),
            None => !read_failed && rows_sound(rows@, coords_ok@, rows.len() as int),
        },
{
    let mut i: usize = 0;
    while i < rows.len()
        invariant
            i <= rows.len(),
            coords_ok.len() == rows.len(),
            rows_sound(rows@, coords_ok@, i as int),
        decreases rows.len() - i,
    {
        let (lat_ok, lon_ok) = coords_ok[i];
        let row = &rows[i];
        let problem = if !lat_ok {
            Some(RowProblem::Latitude)
        } else if !lon_ok {
            Some(RowProblem::Longitude)
        } else if row.acq_date.is_err() {
            Some(RowProblem::AcqDate)
        } else if row.acq_time.is_err() {
            Some(RowProblem::AcqTime)
        } else {
            None
        };
        assert(problem == row_problem(rows@[i as int], coords_ok@[i as int]));
        match problem {
            Some(p) => {
                return Some(RowsFailure::BadRow { index: i, problem: p });
            },
            None => {},
        }
        i = i + 1;
    }
    if read_failed {
        Some(RowsFailure::ReadError)
    } else {
        None
    }
}

/// Why a FIRMS CSV yields no rows at all.
#[derive(Debug)]
pub enum FirmsCsvError {
    /// The CSV reader failed on the header row.
    Csv(csv::Error),
    /// The header lacks a required column; it carries the column's name.
    MissingColumn(String),
}

/// The rows of a FIRMS CSV, and the reader's error if one cut the body short.
#[derive(Debug)]
pub struct FirmsTable {
    pub rows: Vec<FirmsRow>,
    pub read_error: Option<csv::Error>,
}

/// Reads a FIRMS CSV into rows: the header must read and hold `latitude`,
/// `longitude`, `acq_date` and `acq_time` (matched trimmed and case-blind);
/// then one row per record read before the reader's first error, if any.
pub fn parse_firms_rows(csv_text: &str, source: &str) -> (res: Result<FirmsTable, FirmsCsvError>)
    ensures
        match csv_header_fields(csv_text@) {
            None => res matches Err(FirmsCsvError::Csv(_)),
            Some(h) => match spec_missing_column(h) {
                Some(c) => res matches Err(FirmsCsvError::MissingColumn(m)) && m@ == c,
                None => res matches Ok(table) && {
                    let records = csv_record_fields(csv_text@).0;
                    &&& table.rows.len() == records.len()
                    &&& forall|i: int|
                        0 <= i < records.len() ==> row_matches(
                            #[trigger] table.rows@[i],
                            h,
                            records[i],
                            source@,
                        )
                    &&& table.read_error is Some <==> csv_record_fields(csv_text@).1
                },
            },
        },
{
    let headers = match read_csv_headers(csv_text) {
        Ok(h) => h,
        Err(e) => {
            return Err(FirmsCsvError::Csv(e));
        },
    };
    match required_column_missing(&headers) {
        Some(c) => {
            return Err(FirmsCsvError::MissingColumn(c));
        },
        None => {},
    }
    let (records, read_error) = read_csv_records(csv_text);
    let rows = firms_rows(&headers, &records, source);
    proof {
        assert forall|i: int| 0 <= i < records@.len() implies label_views(records@[i]@)
            == csv_record_fields(csv_text@).0[i] by {
            assert(record_views(records@)[i] == label_views(records@[i]@));
        }
    }
    Ok(FirmsTable { rows, read_error })
}

} // verus!
