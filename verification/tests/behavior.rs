// Behavior of the parser on edge inputs: empty exports, ordering,
// encoding, quoting, field errors, and repeated parses.

use dbo_csv::amount::Amount;
use dbo_csv::csv::DboCsvError;
use dbo_csv::dates::OperationDate;

fn header() -> &'static str {
    "h1;h2;h3;h4;h5;h6;h7;h8;h9;h10;h11;h12;h13;h14;h15;h16;h17\n"
}

fn row_with(operation_date: &str, debit: &str, credit: &str, purpose: &str, coverage: &str) -> String {
    format!(
        "7701234567;044525225;40702810900000001234;RUB;{operation_date};01;044525593;bank;40802810800000005678;7812345678;Some Company LLC;125;17.01.2024;{debit};{credit};{purpose};{coverage}\n"
    )
}

fn expect_invalid(content: &str) -> (usize, String) {
    match dbo_csv::deserialize_statement(content.as_bytes()) {
        Err(DboCsvError::InvalidRecord {
            row_number,
            message,
        }) => (row_number, message),
        Err(DboCsvError::Read { message }) => {
            panic!("expected a row-scoped error, got a read error: {message}")
        }
        Ok(_) => panic!("expected an error, the parse succeeded"),
    }
}

#[test]
fn header_only_yields_empty_statement() {
    let statement = dbo_csv::deserialize_statement(header().as_bytes()).unwrap();
    assert_eq!(statement.len(), 0);
    assert!(statement.is_empty());
}

#[test]
fn zero_bytes_yield_empty_statement() {
    let statement = dbo_csv::deserialize_statement(&[]).unwrap();
    assert_eq!(statement.len(), 0);
    assert!(statement.is_empty());
}

#[test]
fn records_are_sorted_by_operation_date() {
    let mut content = String::from(header());
    content.push_str(&row_with("05.03.2024 14:20:00", "", "", "third", "3.00"));
    content.push_str(&row_with("18.01.2024 12:36:00", "", "", "first", "1.00"));
    content.push_str(&row_with("05.02.2024 15:18:00", "", "", "second", "2.00"));
    let statement = dbo_csv::deserialize_statement(content.as_bytes()).unwrap();
    let records = statement.iter();
    assert_eq!(records.len(), 3);
    assert_eq!(records[0].payment_purpose, "first");
    assert_eq!(records[1].payment_purpose, "second");
    assert_eq!(records[2].payment_purpose, "third");
    assert_eq!(records[0].coverage, Amount { negative: false, mantissa: 1, scale: 0 });
}

#[test]
fn equal_dates_keep_file_order() {
    let mut content = String::from(header());
    content.push_str(&row_with("05.03.2024 14:20:00", "", "", "late", "9.00"));
    content.push_str(&row_with("18.01.2024 12:36:00", "", "", "a", "1.00"));
    content.push_str(&row_with("18.01.2024 12:36:00", "", "", "b", "2.00"));
    content.push_str(&row_with("18.01.2024 12:36:00", "", "", "c", "3.00"));
    let statement = dbo_csv::deserialize_statement(content.as_bytes()).unwrap();
    let records = statement.iter();
    assert_eq!(records[0].payment_purpose, "a");
    assert_eq!(records[1].payment_purpose, "b");
    assert_eq!(records[2].payment_purpose, "c");
    assert_eq!(records[3].payment_purpose, "late");
}

#[test]
fn windows_1251_text_is_decoded() {
    // "Оплата" in windows-1251 inside the payment purpose column
    let mut bytes = Vec::new();
    bytes.extend_from_slice(header().as_bytes());
    bytes.extend_from_slice(b"1;2;3;RUB;18.01.2024 12:36:00;01;4;5;6;7;8;9;17.01.2024;;;");
    bytes.extend_from_slice(&[0xCE, 0xEF, 0xEB, 0xE0, 0xF2, 0xE0]);
    bytes.extend_from_slice(b";10.00\n");
    let statement = dbo_csv::deserialize_statement(&bytes).unwrap();
    assert_eq!(statement.len(), 1);
    assert_eq!(statement.iter()[0].payment_purpose, "Оплата");
}

#[test]
fn quoted_field_keeps_delimiter_and_quote() {
    let mut content = String::from(header());
    content.push_str(&row_with(
        "18.01.2024 12:36:00",
        "",
        "",
        "\"services; including \"\"extras\"\"\"",
        "10.00",
    ));
    let statement = dbo_csv::deserialize_statement(content.as_bytes()).unwrap();
    assert_eq!(statement.len(), 1);
    assert_eq!(
        statement.iter()[0].payment_purpose,
        "services; including \"extras\""
    );
}

#[test]
fn unterminated_quote_is_a_read_error() {
    let mut content = String::from(header());
    content.push_str("1;2;\"unterminated\n");
    match dbo_csv::deserialize_statement(content.as_bytes()) {
        Err(DboCsvError::Read { message }) => {
            assert!(message.contains("malformed quoting"));
        }
        _ => panic!("expected a read error"),
    }
}

#[test]
fn stray_character_after_closing_quote_is_a_read_error() {
    let mut content = String::from(header());
    content.push_str("1;\"a\"b;3\n");
    assert!(matches!(
        dbo_csv::deserialize_statement(content.as_bytes()),
        Err(DboCsvError::Read { .. })
    ));
}

#[test]
fn short_row_names_the_missing_field() {
    let mut content = String::from(header());
    content.push_str("1;2;3;RUB;18.01.2024 12:36:00;01;4;5;6;7;8;9;17.01.2024;;;purpose\n");
    let (row_number, message) = expect_invalid(&content);
    assert_eq!(row_number, 2);
    assert_eq!(message, "missing field: coverage");
}

#[test]
fn empty_row_of_fields_names_the_first_missing_field() {
    let mut content = String::from(header());
    content.push_str(&row_with("18.01.2024 12:36:00", "", "", "p", "1.00"));
    content.push_str("x\n");
    let (row_number, message) = expect_invalid(&content);
    assert_eq!(row_number, 3);
    assert_eq!(message, "missing field: party_bank_id");
}

#[test]
fn invalid_document_date_is_reported() {
    let mut content = String::from(header());
    content.push_str(
        "1;2;3;RUB;18.01.2024 12:36:00;01;4;5;6;7;8;9;not a date;;;purpose;1.00\n",
    );
    let (row_number, message) = expect_invalid(&content);
    assert_eq!(row_number, 2);
    assert!(message.contains("invalid document date format"));
    assert!(message.contains("not a date"));
}

#[test]
fn calendar_validity_is_enforced() {
    // February has no 31st day: the text matches the format shape but
    // names no real date
    let mut content = String::from(header());
    content.push_str(&row_with("31.02.2024 10:00:00", "", "", "p", "1.00"));
    let (row_number, message) = expect_invalid(&content);
    assert_eq!(row_number, 2);
    assert!(message.contains("invalid operation date format"));
    assert!(message.contains("31.02.2024 10:00:00"));
}

#[test]
fn empty_debit_and_credit_are_absent() {
    let mut content = String::from(header());
    content.push_str(&row_with("18.01.2024 12:36:00", "", "", "p", "1.00"));
    let statement = dbo_csv::deserialize_statement(content.as_bytes()).unwrap();
    let record = &statement.iter()[0];
    assert!(record.debit.is_none());
    assert!(record.credit.is_none());
}

#[test]
fn present_amounts_are_parsed_and_normalized() {
    let mut content = String::from(header());
    content.push_str(&row_with("18.01.2024 12:36:00", "12.50", "0.00", "p", "3302.00"));
    let statement = dbo_csv::deserialize_statement(content.as_bytes()).unwrap();
    let record = &statement.iter()[0];
    assert_eq!(record.debit, Some(Amount { negative: false, mantissa: 125, scale: 1 }));
    assert_eq!(record.credit, Some(Amount { negative: false, mantissa: 0, scale: 0 }));
    assert_eq!(record.coverage, Amount { negative: false, mantissa: 3302, scale: 0 });
    assert_eq!(
        record.operation_date,
        OperationDate { year: 2024, month: 1, day: 18, hour: 12, minute: 36, second: 0 }
    );
}

#[test]
fn malformed_debit_is_reported() {
    let mut content = String::from(header());
    content.push_str(&row_with("18.01.2024 12:36:00", "12,50", "", "p", "1.00"));
    let (row_number, message) = expect_invalid(&content);
    assert_eq!(row_number, 2);
    assert_eq!(message, "invalid debit amount: 12,50");
}

#[test]
fn malformed_coverage_is_reported() {
    let mut content = String::from(header());
    content.push_str(&row_with("18.01.2024 12:36:00", "", "", "p", "abc"));
    let (row_number, message) = expect_invalid(&content);
    assert_eq!(row_number, 2);
    assert_eq!(message, "invalid coverage amount: abc");
}

#[test]
fn crlf_line_ends_count_as_one_row_each() {
    let mut content = String::from("h1;h2;h3;h4;h5;h6;h7;h8;h9;h10;h11;h12;h13;h14;h15;h16;h17\r\n");
    content.push_str(&row_with("18.01.2024 12:36:00", "", "", "p", "1.00").replace('\n', "\r\n"));
    content.push_str(&row_with("bad", "", "", "p", "2.00").replace('\n', "\r\n"));
    let (row_number, message) = expect_invalid(&content);
    assert_eq!(row_number, 3);
    assert!(message.contains("invalid operation date format"));
}

#[test]
fn parsing_twice_gives_equal_records() {
    let mut content = String::from(header());
    content.push_str(&row_with("05.03.2024 14:20:00", "", "", "x", "3.00"));
    content.push_str(&row_with("18.01.2024 12:36:00", "", "", "y", "1.00"));
    let first = dbo_csv::deserialize_statement(content.as_bytes()).unwrap();
    let second = dbo_csv::deserialize_statement(content.as_bytes()).unwrap();
    assert_eq!(first.len(), second.len());
    assert_eq!(first.iter(), second.iter());
}
