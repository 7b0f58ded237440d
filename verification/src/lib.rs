//! Parser for the DBOsoft bank statement export: a semicolon-delimited,
//! windows-1251 encoded CSV file of transaction records.
//!
//! The pipeline decodes the bytes, tokenizes rows and fields, maps each
//! data row to a typed record, and collects the records into a statement
//! ordered by operation date.

pub mod amount;
pub mod csv;
pub mod dates;
pub mod record;

pub use csv::deserialize_statement;
pub use csv::DboCsvError;
pub use record::DboRecord;
pub use record::DboStatement;
