//! The two error kinds of the library: schema or input text that cannot be
//! understood at all, and a mismatch between a message or byte sequence and
//! the compiled schema at one field or tag.

use vstd::prelude::*;

verus! {

/// Library errors.
#[derive(Debug, PartialEq)]
pub enum Error {
    /// The schema document (or input text) is malformed.
    ParseError(String),
    /// A message or byte sequence does not fit the compiled schema.
    EncodeError {
        /// Description of the mismatch.
        error_msg: String,
        /// Keyword (field name or tag) where the mismatch occurred, if known.
        error_pos: Option<String>,
    },
}

/// The mathematical model of an [`Error`].
#[verifier::ext_equal]
pub enum ErrorView {
    ParseError(Seq<char>),
    EncodeError { error_msg: Seq<char>, error_pos: Option<Seq<char>> },
}

impl View for Error {
    type V = ErrorView;

    open spec fn view(&self) -> ErrorView {
        match self {
            Error::ParseError(msg) => ErrorView::ParseError(msg@),
            Error::EncodeError { error_msg, error_pos } => ErrorView::EncodeError {
                error_msg: error_msg@,
                error_pos: match error_pos {
                    Some(p) => Some(p@),
                    None => None,
                },
            },
        }
    }
}

/// Model of a [`Error::ParseError`] with the given description.
pub open spec fn parse_err(msg: Seq<char>) -> ErrorView {
    ErrorView::ParseError(msg)
}

/// Model of a [`Error::EncodeError`] with no position.
pub open spec fn enc_err(msg: Seq<char>) -> ErrorView {
    ErrorView::EncodeError { error_msg: msg, error_pos: None }
}

/// Model of a [`Error::EncodeError`] at the given position.
pub open spec fn enc_err_at(msg: Seq<char>, pos: Seq<char>) -> ErrorView {
    ErrorView::EncodeError { error_msg: msg, error_pos: Some(pos) }
}

/// Builds a [`Error::ParseError`] from a literal description.
pub fn mk_parse_err(msg: &str) -> (r: Error)
    ensures
        r@ == parse_err(msg@),
{
    Error::ParseError(msg.to_owned())
}

/// Builds a [`Error::EncodeError`] with no position.
pub fn mk_enc_err(msg: &str) -> (r: Error)
    ensures
        r@ == enc_err(msg@),
{
    Error::EncodeError { error_msg: msg.to_owned(), error_pos: None }
}

/// Builds a [`Error::EncodeError`] at the given position.
pub fn mk_enc_err_at(msg: &str, pos: String) -> (r: Error)
    ensures
        r@ == enc_err_at(msg@, pos@),
{
    Error::EncodeError { error_msg: msg.to_owned(), error_pos: Some(pos) }
}

} // verus!
