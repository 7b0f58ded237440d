// Test import of statements from the DBOsoft csv format.

use chrono::Datelike;
use chrono::Timelike;
use dbo_csv::amount::Amount;
use dbo_csv::csv::DboCsvError;
use dbo_csv::dates::OperationDate;
use dbo_csv::record::DboRecord;

fn test_record(date: &str, amount: f64) -> DboRecord {
    let income_date = chrono::NaiveDateTime::parse_from_str(date, "%d.%m.%Y %H:%M:%S").unwrap();
    let operation_date = OperationDate {
        year: income_date.year(),
        month: income_date.month(),
        day: income_date.day(),
        hour: income_date.hour(),
        minute: income_date.minute(),
        second: income_date.second(),
    };
    assert_eq!(amount.fract(), 0.0);
    let amount = Amount {
        negative: false,
        mantissa: amount as u128,
        scale: 0,
    };
    DboRecord::from_date_and_amount(operation_date, amount)
}

fn header() -> &'static str {
    "h1;h2;h3;h4;h5;h6;h7;h8;h9;h10;h11;h12;h13;h14;h15;h16;h17\n"
}

fn data_row(operation_date: &str, coverage: &str) -> String {
    format!(
        "7701234567;044525225;40702810900000001234;RUB;{operation_date};01;044525593;bank;40802810800000005678;7812345678;Some Company LLC;125;17.01.2024;;;payment for services;{coverage}\n"
    )
}

#[test]
fn import_all_from_csv() {
    let mut content = String::from(header());
    content.push_str(&data_row("18.01.2024 12:36:00", "3302.00"));
    content.push_str(&data_row("05.02.2024 15:18:00", "265654.00"));
    content.push_str(&data_row("05.03.2024 14:20:00", "269359.00"));
    content.push_str(&data_row("05.04.2024 14:11:00", "275674.00"));
    let statement = dbo_csv::deserialize_statement(content.as_bytes()).unwrap();

    assert_eq!(4, statement.len());
    let records: Vec<_> = statement.iter().clone();
    assert_eq!(
        records,
        &[
            test_record("18.01.2024 12:36:00", 3302.00),
            test_record("05.02.2024 15:18:00", 265654.00),
            test_record("05.03.2024 14:20:00", 269359.00),
            test_record("05.04.2024 14:11:00", 275674.00),
        ]
    );
}

#[test]
fn fail_parsing_invalid_date() {
    let mut content = String::from(header());
    content.push_str(&data_row("18.01.2024 12:36:00", "3302.00"));
    content.push_str(&data_row("wrong date here", "265654.00"));
    content.push_str(&data_row("05.03.2024 14:20:00", "269359.00"));
    let statement = dbo_csv::deserialize_statement(content.as_bytes());
    assert!(statement.is_err());
    let error = statement.err().unwrap();
    match error {
        DboCsvError::InvalidRecord {
            row_number,
            message,
        } => {
            assert_eq!(
                row_number, 3,
                "wrong row number. incorrect date format is in row 3"
            );
            assert!(
                message.contains("invalid operation date format"),
                "{}",
                format!("error message should inform about invalid date, but it says: {message}")
            );
        }
        DboCsvError::Read { message } => {
            panic!("expected a row-scoped error, got a read error: {message}")
        }
    }
}
