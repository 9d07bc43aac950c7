//! The error that relational drivers report.

use vstd::prelude::*;
use crate::text::{chars_of, has_prefix, has_prefix_chars, str_is};

verus! {

/// The broad class of a database error.
#[derive(Debug, Clone, Copy, PartialEq, Eq, Structural)]
pub enum ErrorCategory {
    SyntaxError,
    PermissionDenied,
    IntegrityConstraintViolation,
    UniqueKeyViolation,
    ConnectionFailure,
    ConnectionLost,
    AuthenticationFailed,
    ExecutionCanceled,
    TransactionAborted,
    Unknown,
}

/// A database error with the server's diagnostic fields where it gave them.
#[derive(Debug, Clone, PartialEq, Eq)]
pub struct DatabaseError {
    pub message: String,
    pub sql_state: Option<String>,
    pub position: Option<usize>,
    pub severity: Option<String>,
    pub detail: Option<String>,
    pub category: ErrorCategory,
}

/// An error that carries only a message: no diagnostics, category unknown.
pub open spec fn plain_error(message: String) -> DatabaseError {
    DatabaseError {
        message,
        sql_state: None,
        position: None,
        severity: None,
        detail: None,
        category: ErrorCategory::Unknown,
    }
}

impl DatabaseError {
    pub fn new(message: String) -> (e: Self)
        ensures
            e == plain_error(message),
    {
        DatabaseError {
            message,
            sql_state: None,
            position: None,
            severity: None,
            detail: None,
            category: ErrorCategory::Unknown,
        }
    }

    /// The text shown for the error: its message.
    pub fn to_string(&self) -> (s: String)
        ensures
            s@ == self.message@,
    {
        self.message.clone()
    }
}

/// The category of a SQLSTATE code: a few exact codes first, then the
/// code's class (its first two characters).
pub open spec fn category_of(code: Seq<char>) -> ErrorCategory {
    if code == "57014"@ {
        ErrorCategory::ExecutionCanceled
    } else if code == "57P01"@ {
        ErrorCategory::ConnectionLost
    } else if code == "25P02"@ {
        ErrorCategory::TransactionAborted
    } else if code == "42501"@ {
        ErrorCategory::PermissionDenied
    } else if has_prefix(code, "42"@) {
        ErrorCategory::SyntaxError
    } else if code == "23505"@ {
        ErrorCategory::UniqueKeyViolation
    } else if has_prefix(code, "23"@) {
        ErrorCategory::IntegrityConstraintViolation
    } else if has_prefix(code, "28"@) {
        ErrorCategory::AuthenticationFailed
    } else if has_prefix(code, "08"@) {
        ErrorCategory::ConnectionFailure
    } else {
        ErrorCategory::Unknown
    }
}

fn starts_with_text(code: &str, prefix: &str) -> (b: bool)
    ensures
        b == has_prefix(code@, prefix@),
{
    let c = chars_of(code);
    let p = chars_of(prefix);
    has_prefix_chars(&c, &p)
}

pub fn category_for_sql_state(code: &str) -> (c: ErrorCategory)
    ensures
        c == category_of(code@),
{
    if str_is(code, "57014") {
        ErrorCategory::ExecutionCanceled
    } else if str_is(code, "57P01") {
        ErrorCategory::ConnectionLost
    } else if str_is(code, "25P02") {
        ErrorCategory::TransactionAborted
    } else if str_is(code, "42501") {
        ErrorCategory::PermissionDenied
    } else if starts_with_text(code, "42") {
        ErrorCategory::SyntaxError
    } else if str_is(code, "23505") {
        ErrorCategory::UniqueKeyViolation
    } else if starts_with_text(code, "23") {
        ErrorCategory::IntegrityConstraintViolation
    } else if starts_with_text(code, "28") {
        ErrorCategory::AuthenticationFailed
    } else if starts_with_text(code, "08") {
        ErrorCategory::ConnectionFailure
    } else {
        ErrorCategory::Unknown
    }
}

/// The error for a failure that the server described: its diagnostics kept,
/// the category read from the SQLSTATE code (unknown without one).
pub fn server_error(
    message: String,
    sql_state: Option<String>,
    position: Option<usize>,
    severity: Option<String>,
    detail: Option<String>,
) -> (e: DatabaseError)
    ensures
        e.message == message,
        e.sql_state == sql_state,
        e.position == position,
        e.severity == severity,
        e.detail == detail,
        e.category == match sql_state {
            Some(c) => category_of(c@),
            None => ErrorCategory::Unknown,
        },
{
    let category = match &sql_state {
        Some(c) => category_for_sql_state(c.as_str()),
        None => ErrorCategory::Unknown,
    };
    DatabaseError { message, sql_state, position, severity, detail, category }
}

impl From<String> for DatabaseError {
    fn from(message: String) -> (e: Self) {
        DatabaseError::new(message)
    }
}

impl vstd::std_specs::convert::FromSpecImpl<String> for DatabaseError {
    open spec fn obeys_from_spec() -> bool {
        true
    }

    open spec fn from_spec(message: String) -> Self {
        plain_error(message)
    }
}

} // verus!
