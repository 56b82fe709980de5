//! Errors of the database connection layer.

use vstd::prelude::*;
use crate::text::{concat2, owned};

verus! {

/// Why a database connection could not be had.
#[derive(Debug)]
pub enum DatabaseError {
    ConnectionError(String),
    PoolError(String),
    ConfigurationError(String),
}

/// The text a database error is reported with.
pub open spec fn database_error_text(e: DatabaseError) -> Seq<char> {
    match e {
        DatabaseError::ConnectionError(m) => "Connection error: "@ + m@,
        DatabaseError::PoolError(m) => "Pool error: "@ + m@,
        DatabaseError::ConfigurationError(m) => "Configuration error: "@ + m@,
    }
}

impl DatabaseError {
    /// The error's message, prefixed by its kind.
    pub fn message(&self) -> (r: String)
        ensures
            r@ == database_error_text(*self),
    {
        match self {
            DatabaseError::ConnectionError(m) => concat2("Connection error: ", m.as_str()),
            DatabaseError::PoolError(m) => concat2("Pool error: ", m.as_str()),
            DatabaseError::ConfigurationError(m) => concat2("Configuration error: ", m.as_str()),
        }
    }

    /// The error when the database address is not configured.
    pub fn missing_database_url() -> (e: Self)
        ensures
            e matches DatabaseError::ConfigurationError(m) && m@ == "DATABASE_URL not set"@,
    {
        DatabaseError::ConfigurationError(owned("DATABASE_URL not set"))
    }
}

} // verus!
