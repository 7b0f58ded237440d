//! Calendar values carried by a bank record, held as plain fields.
//!
//! The export writes two date columns: the operation date-time in the
//! `%d.%m.%Y %H:%M:%S` format and the document date in the `%d.%m.%Y`
//! format. Parsing either format, including calendar validity, is done
//! by chrono; the values the library works with are the plain fields
//! extracted from chrono's result.

use chrono::Datelike;
use chrono::Timelike;
use vstd::prelude::*;

verus! {

/// The date and time at which a transaction was executed. This is the
/// primary ordering key of a statement.
#[derive(Clone, Copy, PartialEq, Eq, Structural, Debug)]
pub struct OperationDate {
    pub year: i32,
    pub month: u32,
    pub day: u32,
    pub hour: u32,
    pub minute: u32,
    pub second: u32,
}

/// The date (no time of day) of the paper document behind a transaction.
#[derive(Clone, Copy, PartialEq, Eq, Structural, Debug)]
pub struct DocumentDate {
    pub year: i32,
    pub month: u32,
    pub day: u32,
}

/// What parsing a text as an operation date-time yields: the calendar
/// fields of `chrono::NaiveDateTime::parse_from_str(s, "%d.%m.%Y %H:%M:%S")`,
/// or `None` where chrono rejects the text. The result depends on the
/// characters alone.
pub uninterp spec fn operation_date_of(s: Seq<char>) -> Option<OperationDate>;

/// What parsing a text as a document date yields: the calendar fields of
/// `chrono::NaiveDate::parse_from_str(s, "%d.%m.%Y")`, or `None` where
/// chrono rejects the text. The result depends on the characters alone.
pub uninterp spec fn document_date_of(s: Seq<char>) -> Option<DocumentDate>;

/// Relies on `chrono::NaiveDateTime::parse_from_str` with the fixed
/// `%d.%m.%Y %H:%M:%S` format: deterministic in `s`, `Ok` exactly when
/// the text matches the format and names a valid calendar date-time.
#[verifier::external_body]
pub(crate) fn parse_operation_date(s: &str) -> (r: Option<OperationDate>)
    ensures
        r == operation_date_of(s@),
{
    match chrono::NaiveDateTime::parse_from_str(s, "%d.%m.%Y %H:%M:%S") {
        Ok(d) => Some(OperationDate {
            year: d.year(), month: d.month(), day: d.day(),
            hour: d.hour(), minute: d.minute(), second: d.second(),
        }),
        Err(_) => None,
    }
}

/// Relies on `chrono::NaiveDate::parse_from_str` with the fixed
/// `%d.%m.%Y` format: deterministic in `s`, `Ok` exactly when the text
/// matches the format and names a valid calendar date.
#[verifier::external_body]
pub(crate) fn parse_document_date(s: &str) -> (r: Option<DocumentDate>)
    ensures
        r == document_date_of(s@),
{
    match chrono::NaiveDate::parse_from_str(s, "%d.%m.%Y") {
        Ok(d) => Some(DocumentDate { year: d.year(), month: d.month(), day: d.day() }),
        Err(_) => None,
    }
}

/// `a` is at or before `b` in time: the calendar fields compared
/// lexicographically, most significant first.
pub open spec fn date_le(a: OperationDate, b: OperationDate) -> bool {
    if a.year != b.year {
        a.year < b.year
    } else if a.month != b.month {
        a.month < b.month
    } else if a.day != b.day {
        a.day < b.day
    } else if a.hour != b.hour {
        a.hour < b.hour
    } else if a.minute != b.minute {
        a.minute < b.minute
    } else {
        a.second <= b.second
    }
}

/// Decides `date_le` on two operation dates.
pub fn date_le_exec(a: &OperationDate, b: &OperationDate) -> (r: bool)
    ensures
        r == date_le(*a, *b),
{
    if a.year != b.year {
        a.year < b.year
    } else if a.month != b.month {
        a.month < b.month
    } else if a.day != b.day {
        a.day < b.day
    } else if a.hour != b.hour {
        a.hour < b.hour
    } else if a.minute != b.minute {
        a.minute < b.minute
    } else {
        a.second <= b.second
    }
}

/// `date_le` is total: of two operation dates, one is at or before the other.
pub proof fn lemma_date_le_total(a: OperationDate, b: OperationDate)
    ensures
        date_le(a, b) || date_le(b, a),
{
}

/// `date_le` is transitive.
pub proof fn lemma_date_le_trans(a: OperationDate, b: OperationDate, c: OperationDate)
    ensures
        date_le(a, b) && date_le(b, c) ==> date_le(a, c),
{
}

} // verus!
