//! The error that the REST endpoints answer with: a machine-readable code,
//! the HTTP status it maps to, and a human-readable message.

use vstd::prelude::*;

verus! {

/// What went wrong, as reported in the `code` field of an error body.
#[derive(Debug, Clone, Copy, PartialEq, Eq, Structural)]
pub enum RestApiErrorCode {
    InvalidInput,
    NotFound,
    Database,
    Unauthorized,
}

/// The `code` string of an error body.
pub open spec fn code_text(code: RestApiErrorCode) -> Seq<char> {
    match code {
        RestApiErrorCode::InvalidInput => "invalid_input"@,
        RestApiErrorCode::NotFound => "not_found"@,
        RestApiErrorCode::Database => "database"@,
        RestApiErrorCode::Unauthorized => "unauthorized"@,
    }
}

/// The HTTP status that an error of this code is answered with.
pub open spec fn code_status(code: RestApiErrorCode) -> u16 {
    match code {
        RestApiErrorCode::InvalidInput => 400,
        RestApiErrorCode::NotFound => 404,
        RestApiErrorCode::Database => 500,
        RestApiErrorCode::Unauthorized => 401,
    }
}

impl RestApiErrorCode {
    /// The `code` string, as the type's `Display` writes it.
    pub fn to_string(&self) -> (r: String)
        ensures
            r@ == code_text(*self),
    {
        match self {
            RestApiErrorCode::InvalidInput => String::from_str("invalid_input"),
            RestApiErrorCode::NotFound => String::from_str("not_found"),
            RestApiErrorCode::Database => String::from_str("database"),
            RestApiErrorCode::Unauthorized => String::from_str("unauthorized"),
        }
    }

    pub fn status_code(&self) -> (r: u16)
        ensures
            r == code_status(*self),
    {
        match self {
            RestApiErrorCode::InvalidInput => 400,
            RestApiErrorCode::NotFound => 404,
            RestApiErrorCode::Database => 500,
            RestApiErrorCode::Unauthorized => 401,
        }
    }
}

/// An error answer of the REST API.
#[derive(Debug)]
pub struct RestApiError {
    pub code: RestApiErrorCode,
    pub message: String,
}

impl RestApiError {
    pub fn new(code: RestApiErrorCode, message: &str) -> (r: Self)
        ensures
            r.code == code,
            r.message@ == message@,
    {
        RestApiError { code, message: String::from_str(message) }
    }

    /// The answer for an ID or alias that names no entity.
    pub fn not_found() -> (r: Self)
        ensures
            r.code == RestApiErrorCode::NotFound,
            r.message@ == "Entity with requested ID doesn't exist."@,
    {
        Self::new(RestApiErrorCode::NotFound, "Entity with requested ID doesn't exist.")
    }

    /// The answer when a query against the store failed.
    pub fn database() -> (r: Self)
        ensures
            r.code == RestApiErrorCode::Database,
            r.message@ == "Database query failed. Contact BTC Map team to resolve."@,
    {
        Self::new(
            RestApiErrorCode::Database,
            "Database query failed. Contact BTC Map team to resolve.",
        )
    }

    /// The answer for a request whose input breaks a rule.
    pub fn invalid_input(message: &str) -> (r: Self)
        ensures
            r.code == RestApiErrorCode::InvalidInput,
            r.message@ == message@,
    {
        Self::new(RestApiErrorCode::InvalidInput, message)
    }

    /// The answer for a request that carries no valid credentials.
    pub fn unauthorized() -> (r: Self)
        ensures
            r.code == RestApiErrorCode::Unauthorized,
            r.message@ == "Unauthorized"@,
    {
        Self::new(RestApiErrorCode::Unauthorized, "Unauthorized")
    }

    /// The answer for query parameters that could not be read; `detail` is
    /// the deserializer's message when that is what failed.
    pub fn invalid_query(detail: Option<&str>) -> (r: Self)
        ensures
            r.code == RestApiErrorCode::InvalidInput,
            detail matches Some(d) ==> r.message@ == "Invalid query parameters: "@ + d@,
            detail is None ==> r.message@ == "Invalid query parameters"@,
    {
        match detail {
            Some(d) => {
                let mut m = String::from_str("Invalid query parameters: ");
                m.append(d);
                RestApiError { code: RestApiErrorCode::InvalidInput, message: m }
            },
            None => Self::new(RestApiErrorCode::InvalidInput, "Invalid query parameters"),
        }
    }

    /// The answer when looking an entity up failed: not found when the
    /// query returned no rows, a database error otherwise.
    pub fn lookup_failed(no_rows: bool) -> (r: Self)
        ensures
            no_rows ==> r.code == RestApiErrorCode::NotFound,
            no_rows ==> r.message@ == "Entity with requested ID doesn't exist."@,
            !no_rows ==> r.code == RestApiErrorCode::Database,
            !no_rows ==> r.message@ == "Database query failed. Contact BTC Map team to resolve."@,
    {
        if no_rows {
            Self::not_found()
        } else {
            Self::database()
        }
    }

    /// The HTTP status of this answer.
    pub fn status_code(&self) -> (r: u16)
        ensures
            r == code_status(self.code),
    {
        self.code.status_code()
    }

    /// `"<code>: <message>"`, as the type's `Display` writes it.
    pub fn to_string(&self) -> (r: String)
        ensures
            r@ == code_text(self.code) + ": "@ + self.message@,
    {
        let mut s = self.code.to_string();
        s.append(": ");
        s.append(self.message.as_str());
        s
    }
}

} // verus!
