//! The library's error type and the messages it prints.
use vstd::prelude::*;
use vstd::string::*;

use crate::text::{decimal, push_decimal};

verus! {

broadcast use vstd::string::group_string_axioms;

/// `std::io::Error`, carried through unchanged.
#[verifier::external_type_specification]
#[verifier::external_body]
pub struct ExIoError(std::io::Error);

/// `rusqlite::Error`, carried through unchanged.
#[verifier::external_type_specification]
#[verifier::external_body]
pub struct ExSqliteError(rusqlite::Error);

/// `serde_json::Error`, carried through unchanged.
#[verifier::external_type_specification]
#[verifier::external_body]
pub struct ExJsonError(serde_json::Error);

/// `reqwest::Error`, carried through unchanged.
#[verifier::external_type_specification]
#[verifier::external_body]
pub struct ExHttpError(reqwest::Error);

/// Everything that can go wrong while reading decks, cards and deck sources.
#[derive(Debug)]
pub enum AppError {
    Io(std::io::Error),
    Sqlite(rusqlite::Error),
    Json(serde_json::Error),
    Http(reqwest::Error),
    InvalidDeckLine { line_number: usize },
    InvalidQuantity { line_number: usize },
    InvalidSourceDeckFormat(String),
    MissingCardLookup,
    MissingCardRoles,
    StaleCardLookup,
    CommanderValidationFailed,
}

/// The message of an error that the library raises itself; `None` for the
/// errors that come from the file system, the database, JSON or HTTP, whose
/// text those crates write.
pub open spec fn own_message(error: AppError) -> Option<Seq<char>> {
    match error {
        AppError::InvalidDeckLine { line_number } => Some(
            "line "@ + decimal(line_number as nat) + " is in the wrong format"@,
        ),
        AppError::InvalidQuantity { line_number } => Some(
            "line "@ + decimal(line_number as nat) + " has an invalid quantity"@,
        ),
        AppError::InvalidSourceDeckFormat(message) => Some(message@),
        AppError::MissingCardLookup => Some(
            "card_lookup table is missing; run sync before analyze"@,
        ),
        AppError::MissingCardRoles => Some("card_roles table is missing; run sync before analyze"@),
        AppError::StaleCardLookup => Some(
            "card_lookup table is missing color identity data; run sync before analyze"@,
        ),
        AppError::CommanderValidationFailed => Some("commander validation failed"@),
        _ => None,
    }
}

/// The text that `std::io::Error`'s `Display` writes.
#[verifier::external_body]
fn io_error_text(error: &std::io::Error) -> String {
    format!("{}", error)
}

/// The text that `rusqlite::Error`'s `Display` writes.
#[verifier::external_body]
fn sqlite_error_text(error: &rusqlite::Error) -> String {
    format!("{}", error)
}

/// The text that `serde_json::Error`'s `Display` writes.
#[verifier::external_body]
fn json_error_text(error: &serde_json::Error) -> String {
    format!("{}", error)
}

/// The text that `reqwest::Error`'s `Display` writes.
#[verifier::external_body]
fn http_error_text(error: &reqwest::Error) -> String {
    format!("{}", error)
}

impl AppError {
    /// The message shown to the user for this error.
    pub fn message(&self) -> (r: String)
        ensures
            own_message(*self) matches Some(text) ==> r@ == text,
    {
        match self {
            AppError::Io(error) => io_error_text(error),
            AppError::Sqlite(error) => sqlite_error_text(error),
            AppError::Json(error) => json_error_text(error),
            AppError::Http(error) => http_error_text(error),
            AppError::InvalidDeckLine { line_number } => {
                let mut r = "line ".to_string();
                push_decimal(&mut r, *line_number);
                r.append(" is in the wrong format");
                r
            },
            AppError::InvalidQuantity { line_number } => {
                let mut r = "line ".to_string();
                push_decimal(&mut r, *line_number);
                r.append(" has an invalid quantity");
                r
            },
            AppError::InvalidSourceDeckFormat(message) => message.clone(),
            AppError::MissingCardLookup => {
                "card_lookup table is missing; run sync before analyze".to_string()
            },
            AppError::MissingCardRoles => {
                "card_roles table is missing; run sync before analyze".to_string()
            },
            AppError::StaleCardLookup => {
                "card_lookup table is missing color identity data; run sync before analyze".to_string()
            },
            AppError::CommanderValidationFailed => "commander validation failed".to_string(),
        }
    }
}

impl From<std::io::Error> for AppError {
    fn from(error: std::io::Error) -> Self {
        AppError::Io(error)
    }
}

impl vstd::std_specs::convert::FromSpecImpl<std::io::Error> for AppError {
    open spec fn obeys_from_spec() -> bool {
        true
    }

    open spec fn from_spec(error: std::io::Error) -> Self {
        AppError::Io(error)
    }
}

impl From<rusqlite::Error> for AppError {
    fn from(error: rusqlite::Error) -> Self {
        AppError::Sqlite(error)
    }
}

impl vstd::std_specs::convert::FromSpecImpl<rusqlite::Error> for AppError {
    open spec fn obeys_from_spec() -> bool {
        true
    }

    open spec fn from_spec(error: rusqlite::Error) -> Self {
        AppError::Sqlite(error)
    }
}

impl From<serde_json::Error> for AppError {
    fn from(error: serde_json::Error) -> Self {
        AppError::Json(error)
    }
}

impl vstd::std_specs::convert::FromSpecImpl<serde_json::Error> for AppError {
    open spec fn obeys_from_spec() -> bool {
        true
    }

    open spec fn from_spec(error: serde_json::Error) -> Self {
        AppError::Json(error)
    }
}

impl From<reqwest::Error> for AppError {
    fn from(error: reqwest::Error) -> Self {
        AppError::Http(error)
    }
}

impl vstd::std_specs::convert::FromSpecImpl<reqwest::Error> for AppError {
    open spec fn obeys_from_spec() -> bool {
        true
    }

    open spec fn from_spec(error: reqwest::Error) -> Self {
        AppError::Http(error)
    }
}

} // verus!
