//! The library's error type.
use crate::protocol::{push_signed_decimal, signed_decimal_text};
use vstd::prelude::*;

verus! {

#[verifier::external_type_specification]
#[verifier::external_body]
pub struct ExIoError(std::io::Error);

#[verifier::external_type_specification]
#[verifier::external_body]
pub struct ExUtf8Error(std::str::Utf8Error);

#[verifier::external_type_specification]
#[verifier::external_body]
pub struct ExParseIntError(std::num::ParseIntError);

#[verifier::external_type_specification]
#[verifier::external_body]
pub struct ExSqlError(rusqlite::Error);

#[derive(Debug)]
pub enum AnidbError {
    /// A read, write or network failure.
    Io(std::io::Error),
    /// Bytes that should be text are not UTF-8.
    Utf8Error(std::str::Utf8Error),
    /// A field that should be an integer is not one.
    ParseIntError(std::num::ParseIntError),
    /// A short fixed diagnostic.
    StaticError(&'static str),
    /// The server answered with a status that is not the expected success.
    ErrorCode(i32, String),
    /// A well-formed reply that breaks what the protocol expects.
    Error(String),
    /// A failure of the cache's storage.
    SqliteError(rusqlite::Error),
    /// The server knows no file with the given fingerprint.
    NoSuchFile,
    /// The fingerprint matches several files.
    AmbiguousMatch,
}

pub type Result<T> = core::result::Result<T, AnidbError>;

impl AnidbError {
    /// A message for people: the underlying error's own text for the wrapped
    /// errors, and a fixed or composed text for the library's own.
    pub fn message(&self) -> (r: String)
        ensures
            self matches AnidbError::StaticError(s) ==> r@ == s@,
            self matches AnidbError::Error(s) ==> r@ == s@,
            self matches AnidbError::ErrorCode(c, d) ==> r@ == "Error "@ + signed_decimal_text(
                *c as int,
            ) + " - "@ + d@,
            self is NoSuchFile ==> r@ == "No such file"@,
            self is AmbiguousMatch ==> r@ == "Found multiple files"@,
    {
        match self {
            AnidbError::Io(e) => e.to_string(),
            AnidbError::Utf8Error(e) => e.to_string(),
            AnidbError::ParseIntError(e) => e.to_string(),
            AnidbError::StaticError(s) => String::from_str(s),
            AnidbError::ErrorCode(c, d) => {
                let mut m = String::from_str("Error ");
                push_signed_decimal(&mut m, *c);
                m.append(" - ");
                m.append(d.as_str());
                m
            },
            AnidbError::Error(s) => s.clone(),
            AnidbError::SqliteError(e) => e.to_string(),
            AnidbError::NoSuchFile => String::from_str("No such file"),
            AnidbError::AmbiguousMatch => String::from_str("Found multiple files"),
        }
    }
}

} // verus!
