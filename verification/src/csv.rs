//! Decoding, tokenizing and mapping of the export.
//!
//! The export is windows-1251 encoded, semicolon-delimited text with
//! standard CSV double-quote escaping. Rows may differ in field count
//! ("flexible" tokenizing); exactly one leading header row is
//! discarded. Physical rows are numbered from 1 at the header, so the
//! first data row is row 2; a failing data row is reported under the
//! physical row where it starts.

use vstd::prelude::*;
use vstd::string::*;

use crate::amount::amount_of_text;
use crate::amount::parse_amount;
use crate::dates::document_date_of;
use crate::dates::operation_date_of;
use crate::dates::parse_document_date;
use crate::dates::parse_operation_date;
use crate::record::records_equal;
use crate::record::sort_by_date;
use crate::record::sorted_by_date;
use crate::record::DboRecord;
use crate::record::DboStatement;
use crate::record::RecordView;

verus! {

/// The Unicode scalar that the windows-1251 table assigns to byte `b`.
pub uninterp spec fn win1251_char(b: u8) -> char;

/// The decoded text of the raw export: one Unicode scalar per byte.
pub open spec fn decoded_text(bytes: Seq<u8>) -> Seq<char> {
    bytes.map_values(|b: u8| win1251_char(b))
}

/// Relies on encoding_rs's `WINDOWS_1251` decoder
/// (`decode_without_bom_handling`): windows-1251 is a single-byte
/// encoding, so each byte decodes to exactly one scalar — an unmapped
/// byte to the replacement character rather than an error — and ASCII
/// bytes decode to themselves.
#[verifier::external_body]
fn decode_windows1251(bytes: &[u8]) -> (r: Vec<char>)
    ensures
        r@.len() == bytes@.len(),
        forall|i: int| 0 <= i < bytes@.len() ==> r@[i] == win1251_char(bytes@[i]),
        forall|i: int|
            0 <= i < bytes@.len() && bytes@[i] < 128 ==> r@[i] == bytes@[i] as char,
{
    let (text, _) = encoding_rs::WINDOWS_1251.decode_without_bom_handling(bytes);
    text.chars().collect()
}

/// Relies on `String`'s `FromIterator<char>` impl: collects exactly
/// the given characters, in order.
#[verifier::external_body]
fn chars_to_string(v: &Vec<char>) -> (r: String)
    ensures
        r@ == v@,
{
    v.iter().collect()
}

/// One tokenized row: its fields in order and the 1-based physical
/// row number at which it starts in the decoded text.
pub struct CsvRow {
    pub line: usize,
    pub fields: Vec<Vec<char>>,
}

/// The mathematical value of a tokenized row.
pub struct RowView {
    pub line: int,
    pub fields: Seq<Seq<char>>,
}

impl View for CsvRow {
    type V = RowView;

    open spec fn view(&self) -> RowView {
        RowView { line: self.line as int, fields: self.fields@.map_values(|f: Vec<char>| f@) }
    }
}

/// Where the tokenizer stands within a field.
#[derive(Clone, Copy, PartialEq, Eq, Structural, Debug)]
pub enum TokMode {
    /// In an unquoted field (possibly empty so far).
    Unquoted,
    /// Between an opening quote and its closing quote.
    Quoted,
    /// Just past a closing quote; only a doubled quote, a delimiter or
    /// a row end may follow.
    QuoteDone,
    /// Just past a carriage-return row end; a following line feed
    /// belongs to the same row end.
    CrSeen,
}

/// The whole tokenizer state between two characters.
pub struct TokState {
    /// Rows already finished.
    pub rows: Seq<RowView>,
    /// Fields already finished of the row under construction.
    pub row_fields: Seq<Seq<char>>,
    /// The field under construction.
    pub field: Seq<char>,
    /// Whether the row under construction has consumed any character.
    pub started: bool,
    /// The 1-based physical line at the reading position.
    pub line: int,
    /// The physical line at which the row under construction started.
    pub row_line: int,
    pub mode: TokMode,
}

pub open spec fn tok_init() -> TokState {
    TokState {
        rows: Seq::empty(),
        row_fields: Seq::empty(),
        field: Seq::empty(),
        started: false,
        line: 1,
        row_line: 1,
        mode: TokMode::Unquoted,
    }
}

/// Ends the row under construction: a row that consumed no character
/// (a blank line) yields nothing but still advances the line count.
pub open spec fn tok_end_row(st: TokState) -> TokState {
    TokState {
        rows: if st.started {
            st.rows.push(RowView { line: st.row_line, fields: st.row_fields.push(st.field) })
        } else {
            st.rows
        },
        row_fields: Seq::empty(),
        field: Seq::empty(),
        started: false,
        line: st.line + 1,
        row_line: st.line + 1,
        mode: TokMode::Unquoted,
    }
}

/// One character outside quotes: a semicolon ends the field, a quote
/// at the start of a field opens quoting (elsewhere it is literal),
/// a line end closes the row, anything else extends the field.
pub open spec fn tok_step_unquoted(st: TokState, c: char) -> TokState {
    if c == ';' {
        TokState {
            row_fields: st.row_fields.push(st.field),
            field: Seq::empty(),
            started: true,
            ..st
        }
    } else if c == '"' && st.field.len() == 0 {
        TokState { mode: TokMode::Quoted, started: true, ..st }
    } else if c == '\n' {
        tok_end_row(st)
    } else if c == '\r' {
        TokState { mode: TokMode::CrSeen, ..tok_end_row(st) }
    } else {
        TokState { field: st.field.push(c), started: true, ..st }
    }
}

/// One character of the decoded text; `None` stands for a structural
/// tokenizing error (a stray character after a closing quote).
pub open spec fn tok_step(st: TokState, c: char) -> Option<TokState> {
    match st.mode {
        TokMode::Unquoted => Some(tok_step_unquoted(st, c)),
        TokMode::Quoted => if c == '"' {
            Some(TokState { mode: TokMode::QuoteDone, ..st })
        } else {
            Some(
                TokState {
                    field: st.field.push(c),
                    line: if c == '\n' {
                        st.line + 1
                    } else {
                        st.line
                    },
                    ..st
                },
            )
        },
        TokMode::QuoteDone => if c == '"' {
            Some(TokState { field: st.field.push('"'), mode: TokMode::Quoted, ..st })
        } else if c == ';' {
            Some(
                TokState {
                    row_fields: st.row_fields.push(st.field),
                    field: Seq::empty(),
                    mode: TokMode::Unquoted,
                    ..st
                },
            )
        } else if c == '\n' {
            Some(tok_end_row(st))
        } else if c == '\r' {
            Some(TokState { mode: TokMode::CrSeen, ..tok_end_row(st) })
        } else {
            None
        },
        TokMode::CrSeen => if c == '\n' {
            Some(TokState { mode: TokMode::Unquoted, ..st })
        } else {
            Some(tok_step_unquoted(TokState { mode: TokMode::Unquoted, ..st }, c))
        },
    }
}

/// The end of the text: an open quoted field is a structural error;
/// a row under construction is closed.
pub open spec fn tok_finish(st: TokState) -> Option<Seq<RowView>> {
    if st.mode == TokMode::Quoted {
        None
    } else {
        Some(tok_end_row(st).rows)
    }
}

/// Runs the tokenizer over `text` from position `i` in state `st`.
pub open spec fn tokenize_from(st: TokState, text: Seq<char>, i: int) -> Option<Seq<RowView>>
    decreases text.len() - i,
{
    if i < 0 || i >= text.len() {
        tok_finish(st)
    } else {
        match tok_step(st, text[i]) {
            None => None,
            Some(st2) => tokenize_from(st2, text, i + 1),
        }
    }
}

/// The rows of the decoded text: fields split at semicolons with
/// standard double-quote escaping, rows split at line ends (LF, CRLF
/// or lone CR), blank lines skipped, each row tagged with the 1-based
/// physical line where it starts. `None` on a structural error.
pub open spec fn tokenize_text(text: Seq<char>) -> Option<Seq<RowView>> {
    tokenize_from(tok_init(), text, 0)
}

/// Tokenizes the decoded text, yielding exactly the rows that
/// [`tokenize_text`] states, or reporting its structural error.
#[verifier::loop_isolation(false)]
fn tokenize(text: &Vec<char>) -> (r: Option<Vec<CsvRow>>)
    requires
        text@.len() < usize::MAX,
    ensures
        match r {
            Some(rows) => tokenize_text(text@) == Some(
                rows@.map_values(|x: CsvRow| x@),
            ),
            None => tokenize_text(text@) is None,
        },
{
    let n = text.len();
    let mut rows: Vec<CsvRow> = Vec::new();
    let mut row_fields: Vec<Vec<char>> = Vec::new();
    let mut field: Vec<char> = Vec::new();
    let mut started: bool = false;
    let mut line: usize = 1;
    let mut row_line: usize = 1;
    let mut mode: TokMode = TokMode::Unquoted;
    let mut i: usize = 0;
    proof {
        assert(rows@.map_values(|x: CsvRow| x@) =~= Seq::<RowView>::empty());
        assert(row_fields@.map_values(|f: Vec<char>| f@) =~= Seq::<Seq<char>>::empty());
    }
    while i < n
        invariant
            0 <= i <= n,
            1 <= line <= i + 1,
            1 <= row_line <= line,
            tokenize_from(
                TokState {
                    rows: rows@.map_values(|x: CsvRow| x@),
                    row_fields: row_fields@.map_values(|f: Vec<char>| f@),
                    field: field@,
                    started: started,
                    line: line as int,
                    row_line: row_line as int,
                    mode: mode,
                },
                text@,
                i as int,
            ) == tokenize_text(text@),
        decreases n - i,
    {
        let ghost st = TokState {
            rows: rows@.map_values(|x: CsvRow| x@),
            row_fields: row_fields@.map_values(|f: Vec<char>| f@),
            field: field@,
            started: started,
            line: line as int,
            row_line: row_line as int,
            mode: mode,
        };
        let c = text[i];
        let mut effective_mode = mode;
        if mode == TokMode::CrSeen {
            if c == '\n' {
                mode = TokMode::Unquoted;
                i = i + 1;
                proof {
                    assert(tok_step(st, c) == Some(TokState { mode: TokMode::Unquoted, ..st }));
                }
                continue ;
            }
            mode = TokMode::Unquoted;
            effective_mode = TokMode::Unquoted;
        }
        let ghost st1 = TokState { mode: effective_mode, ..st };
        match effective_mode {
            TokMode::Unquoted => {
                if c == ';' {
                    row_fields.push(field);
                    proof {
                        assert(row_fields@.map_values(|f: Vec<char>| f@) =~= st1.row_fields.push(
                            st1.field,
                        ));
                    }
                    field = Vec::new();
                    started = true;
                } else if c == '"' && field.len() == 0 {
                    mode = TokMode::Quoted;
                    started = true;
                } else if c == '\n' || c == '\r' {
                    if started {
                        row_fields.push(field);
                        field = Vec::new();
                        proof {
                            assert(row_fields@.map_values(|f: Vec<char>| f@) =~= st1.row_fields
                                .push(st1.field));
                        }
                        rows.push(CsvRow { line: row_line, fields: row_fields });
                        row_fields = Vec::new();
                    } else {
                        row_fields = Vec::new();
                        field = Vec::new();
                    }
                    started = false;
                    line = line + 1;
                    row_line = line;
                    mode = if c == '\r' {
                        TokMode::CrSeen
                    } else {
                        TokMode::Unquoted
                    };
                    proof {
                        let te = tok_end_row(st1);
                        assert(rows@.map_values(|x: CsvRow| x@) =~= te.rows);
                        assert(row_fields@.map_values(|f: Vec<char>| f@) =~= te.row_fields);
                        assert(field@ =~= te.field);
                    }
                } else {
                    field.push(c);
                    started = true;
                }
            },
            TokMode::Quoted => {
                if c == '"' {
                    mode = TokMode::QuoteDone;
                } else {
                    field.push(c);
                    if c == '\n' {
                        line = line + 1;
                    }
                }
            },
            TokMode::QuoteDone => {
                if c == '"' {
                    field.push('"');
                    mode = TokMode::Quoted;
                } else if c == ';' {
                    row_fields.push(field);
                    proof {
                        assert(row_fields@.map_values(|f: Vec<char>| f@) =~= st1.row_fields.push(
                            st1.field,
                        ));
                    }
                    field = Vec::new();
                    mode = TokMode::Unquoted;
                } else if c == '\n' || c == '\r' {
                    if started {
                        row_fields.push(field);
                        field = Vec::new();
                        proof {
                            assert(row_fields@.map_values(|f: Vec<char>| f@) =~= st1.row_fields
                                .push(st1.field));
                        }
                        rows.push(CsvRow { line: row_line, fields: row_fields });
                        row_fields = Vec::new();
                    } else {
                        row_fields = Vec::new();
                        field = Vec::new();
                    }
                    started = false;
                    line = line + 1;
                    row_line = line;
                    mode = if c == '\r' {
                        TokMode::CrSeen
                    } else {
                        TokMode::Unquoted
                    };
                    proof {
                        let te = tok_end_row(st1);
                        assert(rows@.map_values(|x: CsvRow| x@) =~= te.rows);
                        assert(row_fields@.map_values(|f: Vec<char>| f@) =~= te.row_fields);
                        assert(field@ =~= te.field);
                    }
                } else {
                    return None;
                }
            },
            TokMode::CrSeen => {
                // unreachable: the mode was rewritten above
                proof {
                    assert(false);
                }
            },
        }
        proof {
            let st2 = TokState {
                rows: rows@.map_values(|x: CsvRow| x@),
                row_fields: row_fields@.map_values(|f: Vec<char>| f@),
                field: field@,
                started: started,
                line: line as int,
                row_line: row_line as int,
                mode: mode,
            };
            assert(tok_step(st, c) == Some(st2));
        }
        i = i + 1;
    }
    let ghost st_fin = TokState {
        rows: rows@.map_values(|x: CsvRow| x@),
        row_fields: row_fields@.map_values(|f: Vec<char>| f@),
        field: field@,
        started: started,
        line: line as int,
        row_line: row_line as int,
        mode: mode,
    };
    proof {
        assert(tokenize_text(text@) == tok_finish(st_fin));
    }
    if mode == TokMode::Quoted {
        return None;
    }
    if started {
        row_fields.push(field);
        proof {
            assert(row_fields@.map_values(|f: Vec<char>| f@) =~= st_fin.row_fields.push(
                st_fin.field,
            ));
        }
        rows.push(CsvRow { line: row_line, fields: row_fields });
    }
    proof {
        assert(rows@.map_values(|x: CsvRow| x@) =~= tok_end_row(st_fin).rows);
    }
    Some(rows)
}

/// Why a parse failed.
#[derive(Debug)]
pub enum DboCsvError {
    /// The rows or fields themselves could not be tokenized (malformed
    /// quoting); not tied to one data row.
    Read { message: String },
    /// One data row could not be mapped to a record. `row_number` is
    /// the 1-based physical row, counting the header as row 1, so the
    /// first data row is row 2.
    InvalidRecord { row_number: usize, message: String },
}

/// The mathematical value of a parse failure.
pub enum ErrorView {
    Read { message: Seq<char> },
    InvalidRecord { row_number: int, message: Seq<char> },
}

impl View for DboCsvError {
    type V = ErrorView;

    open spec fn view(&self) -> ErrorView {
        match self {
            DboCsvError::Read { message } => ErrorView::Read { message: message@ },
            DboCsvError::InvalidRecord { row_number, message } => ErrorView::InvalidRecord {
                row_number: *row_number as int,
                message: message@,
            },
        }
    }
}

/// The diagnostic for a row shorter than the schema: names the first
/// absent logical field, the one at position `i`.
pub open spec fn missing_message(i: int) -> Seq<char> {
    if i == 0 {
        "missing field: party_tax_id"@
    } else if i == 1 {
        "missing field: party_bank_id"@
    } else if i == 2 {
        "missing field: party_account"@
    } else if i == 3 {
        "missing field: currency"@
    } else if i == 4 {
        "missing field: operation_date"@
    } else if i == 5 {
        "missing field: operation_code"@
    } else if i == 6 {
        "missing field: counterparty_bank_id"@
    } else if i == 7 {
        "missing field: payment_provider"@
    } else if i == 8 {
        "missing field: counterparty_account"@
    } else if i == 9 {
        "missing field: counterparty_tax_id"@
    } else if i == 10 {
        "missing field: counterparty_name"@
    } else if i == 11 {
        "missing field: document_number"@
    } else if i == 12 {
        "missing field: document_date"@
    } else if i == 13 {
        "missing field: debit"@
    } else if i == 14 {
        "missing field: credit"@
    } else if i == 15 {
        "missing field: payment_purpose"@
    } else {
        "missing field: coverage"@
    }
}

pub open spec fn operation_date_message(s: Seq<char>) -> Seq<char> {
    "invalid operation date format [column 5]: expected format %d.%m.%Y %H:%M:%S, the date was "@
        + s
}

pub open spec fn document_date_message(s: Seq<char>) -> Seq<char> {
    "invalid document date format [column 13]: expected format %d.%m.%Y, the date was "@ + s
}

pub open spec fn debit_message(s: Seq<char>) -> Seq<char> {
    "invalid debit amount: "@ + s
}

pub open spec fn credit_message(s: Seq<char>) -> Seq<char> {
    "invalid credit amount: "@ + s
}

pub open spec fn coverage_message(s: Seq<char>) -> Seq<char> {
    "invalid coverage amount: "@ + s
}

/// Maps one data row to a record, reading the fixed schema in column
/// order and stopping at the first failure: a column the row lacks, a
/// date column that does not match its format, or a decimal column
/// that does not parse. Debit and credit may be empty ("absent");
/// coverage is required.
pub open spec fn map_row(row: RowView) -> Result<RecordView, Seq<char>> {
    let f = row.fields;
    if f.len() <= 0 {
        Err(missing_message(0))
    } else if f.len() <= 1 {
        Err(missing_message(1))
    } else if f.len() <= 2 {
        Err(missing_message(2))
    } else if f.len() <= 3 {
        Err(missing_message(3))
    } else if f.len() <= 4 {
        Err(missing_message(4))
    } else if operation_date_of(f[4]) is None {
        Err(operation_date_message(f[4]))
    } else if f.len() <= 5 {
        Err(missing_message(5))
    } else if f.len() <= 6 {
        Err(missing_message(6))
    } else if f.len() <= 7 {
        Err(missing_message(7))
    } else if f.len() <= 8 {
        Err(missing_message(8))
    } else if f.len() <= 9 {
        Err(missing_message(9))
    } else if f.len() <= 10 {
        Err(missing_message(10))
    } else if f.len() <= 11 {
        Err(missing_message(11))
    } else if f.len() <= 12 {
        Err(missing_message(12))
    } else if document_date_of(f[12]) is None {
        Err(document_date_message(f[12]))
    } else if f.len() <= 13 {
        Err(missing_message(13))
    } else if f[13].len() > 0 && amount_of_text(f[13]) is None {
        Err(debit_message(f[13]))
    } else if f.len() <= 14 {
        Err(missing_message(14))
    } else if f[14].len() > 0 && amount_of_text(f[14]) is None {
        Err(credit_message(f[14]))
    } else if f.len() <= 15 {
        Err(missing_message(15))
    } else if f.len() <= 16 {
        Err(missing_message(16))
    } else if amount_of_text(f[16]) is None {
        Err(coverage_message(f[16]))
    } else {
        Ok(
            RecordView {
                party_tax_id: f[0],
                party_bank_id: f[1],
                party_account: f[2],
                currency: f[3],
                operation_date: operation_date_of(f[4])->Some_0,
                operation_code: f[5],
                counterparty_bank_id: f[6],
                payment_provider: f[7],
                counterparty_account: f[8],
                counterparty_tax_id: f[9],
                counterparty_name: f[10],
                document_number: f[11],
                document_date: document_date_of(f[12])->Some_0,
                debit: if f[13].len() == 0 {
                    None
                } else {
                    amount_of_text(f[13])
                },
                credit: if f[14].len() == 0 {
                    None
                } else {
                    amount_of_text(f[14])
                },
                payment_purpose: f[15],
                coverage: amount_of_text(f[16])->Some_0,
            },
        )
    }
}

/// A row whose operation date column is present but malformed fails
/// with the operation-date diagnostic, whatever the rest of the row.
pub proof fn lemma_bad_operation_date(row: RowView)
    requires
        row.fields.len() > 4,
        operation_date_of(row.fields[4]) is None,
    ensures
        map_row(row) == Err::<RecordView, Seq<char>>(operation_date_message(row.fields[4])),
{
}

/// Builds the message `prefix + text` for a field diagnostic.
fn field_message(prefix: &str, text: &Vec<char>) -> (r: String)
    ensures
        r@ == prefix@ + text@,
{
    let t = chars_to_string(text);
    let s = String::from_str(prefix);
    s.concat(t.as_str())
}

/// Maps one tokenized data row to a record, or yields the diagnostic
/// message that [`map_row`] states for it.
fn map_record(row: &CsvRow) -> (r: Result<DboRecord, String>)
    ensures
        match r {
            Ok(rec) => map_row(row@) == Ok::<RecordView, Seq<char>>(rec@),
            Err(m) => map_row(row@) == Err::<RecordView, Seq<char>>(m@),
        },
{
    let f = &row.fields;
    if f.len() <= 0 {
        return Err(String::from_str("missing field: party_tax_id"));
    }
    if f.len() <= 1 {
        return Err(String::from_str("missing field: party_bank_id"));
    }
    if f.len() <= 2 {
        return Err(String::from_str("missing field: party_account"));
    }
    if f.len() <= 3 {
        return Err(String::from_str("missing field: currency"));
    }
    if f.len() <= 4 {
        return Err(String::from_str("missing field: operation_date"));
    }
    let date_text = chars_to_string(&f[4]);
    let operation_date = match parse_operation_date(date_text.as_str()) {
        Some(d) => d,
        None => {
            return Err(
                field_message(
                    "invalid operation date format [column 5]: expected format %d.%m.%Y %H:%M:%S, the date was ",
                    &f[4],
                ),
            );
        },
    };
    if f.len() <= 5 {
        return Err(String::from_str("missing field: operation_code"));
    }
    if f.len() <= 6 {
        return Err(String::from_str("missing field: counterparty_bank_id"));
    }
    if f.len() <= 7 {
        return Err(String::from_str("missing field: payment_provider"));
    }
    if f.len() <= 8 {
        return Err(String::from_str("missing field: counterparty_account"));
    }
    if f.len() <= 9 {
        return Err(String::from_str("missing field: counterparty_tax_id"));
    }
    if f.len() <= 10 {
        return Err(String::from_str("missing field: counterparty_name"));
    }
    if f.len() <= 11 {
        return Err(String::from_str("missing field: document_number"));
    }
    if f.len() <= 12 {
        return Err(String::from_str("missing field: document_date"));
    }
    let doc_text = chars_to_string(&f[12]);
    let document_date = match parse_document_date(doc_text.as_str()) {
        Some(d) => d,
        None => {
            return Err(
                field_message(
                    "invalid document date format [column 13]: expected format %d.%m.%Y, the date was ",
                    &f[12],
                ),
            );
        },
    };
    if f.len() <= 13 {
        return Err(String::from_str("missing field: debit"));
    }
    let debit = if f[13].len() == 0 {
        None
    } else {
        match parse_amount(&f[13]) {
            Some(a) => Some(a),
            None => {
                return Err(field_message("invalid debit amount: ", &f[13]));
            },
        }
    };
    if f.len() <= 14 {
        return Err(String::from_str("missing field: credit"));
    }
    let credit = if f[14].len() == 0 {
        None
    } else {
        match parse_amount(&f[14]) {
            Some(a) => Some(a),
            None => {
                return Err(field_message("invalid credit amount: ", &f[14]));
            },
        }
    };
    if f.len() <= 15 {
        return Err(String::from_str("missing field: payment_purpose"));
    }
    if f.len() <= 16 {
        return Err(String::from_str("missing field: coverage"));
    }
    let coverage = match parse_amount(&f[16]) {
        Some(a) => a,
        None => {
            return Err(field_message("invalid coverage amount: ", &f[16]));
        },
    };
    let rec = DboRecord {
        party_tax_id: chars_to_string(&f[0]),
        party_bank_id: chars_to_string(&f[1]),
        party_account: chars_to_string(&f[2]),
        currency: chars_to_string(&f[3]),
        operation_date,
        operation_code: chars_to_string(&f[5]),
        counterparty_bank_id: chars_to_string(&f[6]),
        payment_provider: chars_to_string(&f[7]),
        counterparty_account: chars_to_string(&f[8]),
        counterparty_tax_id: chars_to_string(&f[9]),
        counterparty_name: chars_to_string(&f[10]),
        document_number: chars_to_string(&f[11]),
        document_date,
        debit,
        credit,
        payment_purpose: chars_to_string(&f[15]),
        coverage,
    };
    Ok(rec)
}

/// Maps the data rows in order, stopping at the first failing row:
/// its physical row number and diagnostic become the whole parse's
/// error.
pub open spec fn map_rows(rows: Seq<RowView>) -> Result<Seq<RecordView>, ErrorView>
    decreases rows.len(),
{
    if rows.len() == 0 {
        Ok(Seq::empty())
    } else {
        match map_rows(rows.drop_last()) {
            Err(e) => Err(e),
            Ok(recs) => match map_row(rows.last()) {
                Err(m) => Err(
                    ErrorView::InvalidRecord { row_number: rows.last().line, message: m },
                ),
                Ok(rec) => Ok(recs.push(rec)),
            },
        }
    }
}

/// The rows left after discarding the single header row.
pub open spec fn data_rows(rows: Seq<RowView>) -> Seq<RowView> {
    if rows.len() == 0 {
        rows
    } else {
        rows.drop_first()
    }
}

/// What parsing an export comes to: decode the bytes, tokenize the
/// text, discard the header row, map every data row, and sort the
/// records by operation date (stable).
pub open spec fn statement_of_bytes(bytes: Seq<u8>) -> Result<Seq<RecordView>, ErrorView> {
    match tokenize_text(decoded_text(bytes)) {
        None => Err(ErrorView::Read { message: "failed to read record: malformed quoting"@ }),
        Some(rows) => match map_rows(data_rows(rows)) {
            Err(e) => Err(e),
            Ok(recs) => Ok(sort_by_date(recs)),
        },
    }
}

/// A prefix of cleanly mapping rows followed by a failing row pins the
/// whole mapping down to that row's error.
proof fn lemma_map_rows_first_err(s: Seq<RowView>, k: int, recs: Seq<RecordView>, m: Seq<char>)
    requires
        0 <= k < s.len(),
        map_rows(s.take(k)) == Ok::<Seq<RecordView>, ErrorView>(recs),
        map_row(s[k]) == Err::<RecordView, Seq<char>>(m),
    ensures
        map_rows(s) == Err::<Seq<RecordView>, ErrorView>(
            ErrorView::InvalidRecord { row_number: s[k].line, message: m },
        ),
    decreases s.len(),
{
    if k == s.len() - 1 {
        assert(s.drop_last() =~= s.take(k));
        assert(s.last() == s[k]);
    } else {
        assert(s.drop_last().take(k) =~= s.take(k));
        assert(s.drop_last()[k] == s[k]);
        lemma_map_rows_first_err(s.drop_last(), k, recs, m);
    }
}

/// Rows that all map cleanly yield one record each, in row order.
pub proof fn lemma_map_rows_all_ok(s: Seq<RowView>)
    requires
        forall|j: int| 0 <= j < s.len() ==> map_row(#[trigger] s[j]) is Ok,
    ensures
        map_rows(s) is Ok,
        map_rows(s)->Ok_0.len() == s.len(),
        forall|j: int|
            0 <= j < s.len() ==> map_rows(s)->Ok_0[j] == map_row(#[trigger] s[j])->Ok_0,
    decreases s.len(),
{
    if s.len() > 0 {
        assert(forall|j: int|
            0 <= j < s.drop_last().len() ==> #[trigger] s.drop_last()[j] == s[j]);
        lemma_map_rows_all_ok(s.drop_last());
        assert forall|j: int| 0 <= j < s.len() implies map_rows(s)->Ok_0[j] == map_row(
            #[trigger] s[j],
        )->Ok_0 by {
            if j < s.len() - 1 {
                assert(map_rows(s)->Ok_0[j] == map_rows(s.drop_last())->Ok_0[j]);
                assert(s.drop_last()[j] == s[j]);
            } else {
                assert(s.last() == s[j]);
            }
        }
    }
}

/// A mapping that succeeds made one record from each row.
pub proof fn lemma_map_rows_len(s: Seq<RowView>)
    requires
        map_rows(s) is Ok,
    ensures
        map_rows(s)->Ok_0.len() == s.len(),
    decreases s.len(),
{
    if s.len() > 0 {
        lemma_map_rows_len(s.drop_last());
    }
}

/// A data row with a malformed operation date fails the whole parse
/// when every earlier data row maps cleanly: the error names the
/// physical row where that data row stands and carries the
/// operation-date diagnostic.
pub proof fn lemma_first_invalid_operation_date(rows: Seq<RowView>, k: int)
    requires
        0 <= k < rows.len(),
        forall|j: int| 0 <= j < k ==> map_row(#[trigger] rows[j]) is Ok,
        rows[k].fields.len() > 4,
        operation_date_of(rows[k].fields[4]) is None,
    ensures
        map_rows(rows) == Err::<Seq<RecordView>, ErrorView>(
            ErrorView::InvalidRecord {
                row_number: rows[k].line,
                message: operation_date_message(rows[k].fields[4]),
            },
        ),
{
    assert(forall|j: int| 0 <= j < k ==> #[trigger] rows.take(k)[j] == rows[j]);
    lemma_map_rows_all_ok(rows.take(k));
    lemma_bad_operation_date(rows[k]);
    lemma_map_rows_first_err(
        rows,
        k,
        map_rows(rows.take(k))->Ok_0,
        operation_date_message(rows[k].fields[4]),
    );
}

/// The row-number arithmetic of the diagnostic, over data-row
/// positions: when the first failing data row is the `k`-th (1-based,
/// the header excluded) and it fails on a malformed operation date,
/// the whole parse fails reporting row number `k + 1`, since the
/// header counts as physical row 1. The one premise beyond that: the
/// failing row starts at physical row `k + 1`, which holds of every
/// export without a blank line or a quoted line break above it; for
/// other inputs the report names the physical row where the failing
/// row starts.
pub proof fn lemma_invalid_date_row_number(rows: Seq<RowView>, k: int)
    requires
        1 <= k < rows.len(),
        rows[k].line == k + 1,
        forall|j: int| 1 <= j < k ==> map_row(#[trigger] rows[j]) is Ok,
        rows[k].fields.len() > 4,
        operation_date_of(rows[k].fields[4]) is None,
    ensures
        map_rows(data_rows(rows)) == Err::<Seq<RecordView>, ErrorView>(
            ErrorView::InvalidRecord {
                row_number: k + 1,
                message: operation_date_message(rows[k].fields[4]),
            },
        ),
{
    let d = data_rows(rows);
    assert(forall|j: int| 0 <= j < d.len() ==> #[trigger] d[j] == rows[j + 1]);
    assert(forall|j: int| 0 <= j < k - 1 ==> map_row(#[trigger] d[j]) is Ok);
    lemma_first_invalid_operation_date(d, k - 1);
}

/// The statement of a well-formed export holds exactly one record per
/// data row: its count equals the number of rows after the header.
pub proof fn lemma_statement_count(bytes: Seq<u8>, rows: Seq<RowView>, recs: Seq<RecordView>)
    requires
        tokenize_text(decoded_text(bytes)) == Some(rows),
        statement_of_bytes(bytes) == Ok::<Seq<RecordView>, ErrorView>(recs),
    ensures
        recs.len() == data_rows(rows).len(),
{
    lemma_map_rows_len(data_rows(rows));
    crate::record::lemma_sort_by_date_sorted(map_rows(data_rows(rows))->Ok_0);
}

/// Iterating a parsed statement yields operation dates in
/// non-decreasing order.
pub proof fn lemma_statement_sorted(bytes: Seq<u8>, recs: Seq<RecordView>)
    requires
        statement_of_bytes(bytes) == Ok::<Seq<RecordView>, ErrorView>(recs),
    ensures
        sorted_by_date(recs),
{
    let rows = tokenize_text(decoded_text(bytes))->Some_0;
    crate::record::lemma_sort_by_date_sorted(map_rows(data_rows(rows))->Ok_0);
}

/// Parsing the same bytes twice yields record sequences equal
/// element-wise under the narrow record equality.
pub proof fn lemma_parse_repeatable(bytes: Seq<u8>, first: Seq<RecordView>, second: Seq<RecordView>)
    requires
        statement_of_bytes(bytes) == Ok::<Seq<RecordView>, ErrorView>(first),
        statement_of_bytes(bytes) == Ok::<Seq<RecordView>, ErrorView>(second),
    ensures
        first.len() == second.len(),
        forall|i: int| 0 <= i < first.len() ==> records_equal(first[i], second[i]),
{
}

/// Parses one whole export: windows-1251 bytes in, a statement sorted
/// by operation date out, or the first diagnostic. The error reports
/// the 1-based physical row (the header is row 1, so the first data
/// row is row 2) and a message naming the failing field; a tokenizing
/// failure is reported as a read error not tied to one row. The
/// export must be strictly shorter than `usize::MAX` bytes, so that
/// the row counter fits the machine.
#[verifier::loop_isolation(false)]
pub fn deserialize_statement(data: &[u8]) -> (r: Result<DboStatement, DboCsvError>)
    requires
        data@.len() < usize::MAX,
    ensures
        match r {
            Ok(st) => statement_of_bytes(data@) == Ok::<Seq<RecordView>, ErrorView>(st@),
            Err(e) => statement_of_bytes(data@) == Err::<Seq<RecordView>, ErrorView>(e@),
        },
{
    let text = decode_windows1251(data);
    proof {
        assert(text@ =~= decoded_text(data@));
    }
    let rows = match tokenize(&text) {
        Some(rows) => rows,
        None => {
            return Err(
                DboCsvError::Read {
                    message: String::from_str("failed to read record: malformed quoting"),
                },
            );
        },
    };
    let ghost rowviews = rows@.map_values(|x: CsvRow| x@);
    let ghost drows = data_rows(rowviews);
    let mut records: Vec<DboRecord> = Vec::new();
    let mut i: usize = 1;
    proof {
        assert(drows.take(0) =~= Seq::<RowView>::empty());
        assert(records@.map_values(|x: DboRecord| x@) =~= Seq::<RecordView>::empty());
    }
    while i < rows.len()
        invariant
            1 <= i,
            i <= rows@.len() || i == 1,
            records@.len() == i - 1,
            map_rows(drows.take(i - 1)) == Ok::<Seq<RecordView>, ErrorView>(
                records@.map_values(|x: DboRecord| x@),
            ),
        decreases rows@.len() - i,
    {
        let row = &rows[i];
        proof {
            assert(row@ == rowviews[i as int]);
            assert(drows[i - 1] == rowviews[i as int]);
        }
        match map_record(row) {
            Ok(rec) => {
                let ghost prev = records@.map_values(|x: DboRecord| x@);
                records.push(rec);
                proof {
                    assert(drows.take(i as int).drop_last() =~= drows.take(i - 1));
                    assert(drows.take(i as int).last() == row@);
                    assert(records@.map_values(|x: DboRecord| x@) =~= prev.push(rec@));
                }
            },
            Err(m) => {
                proof {
                    lemma_map_rows_first_err(
                        drows,
                        i - 1,
                        records@.map_values(|x: DboRecord| x@),
                        m@,
                    );
                }
                return Err(DboCsvError::InvalidRecord { row_number: row.line, message: m });
            },
        }
        i = i + 1;
    }
    proof {
        assert(drows.take(i - 1) =~= drows);
    }
    let st = DboStatement::new(records);
    Ok(st)
}

} // verus!

