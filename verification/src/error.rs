//! The errors that parsing and configuration report.

use crate::text::{chars_of, decimal, push_decimal, string_of};
use vstd::prelude::*;

verus! {

/// `std::io::Error`, carried through as it is: the library looks at
/// nothing inside it.
#[verifier::external_type_specification]
#[verifier::external_body]
pub struct ExIoError(std::io::Error);

/// What can go wrong around and inside a parse.
#[derive(Debug)]
pub enum OrgError {
    /// Reading the input failed; the library itself never raises this.
    IoError(std::io::Error),
    /// The text cannot be parsed; with the number of the line at fault, if known.
    ParseError(Option<usize>, String),
    /// Anything else.
    Unexpected(String),
}

/// An error as plain data. Of an I/O error nothing but its kind is modelled.
pub enum OrgErrorView {
    IoError,
    ParseError(Option<nat>, Seq<char>),
    Unexpected(Seq<char>),
}

impl View for OrgError {
    type V = OrgErrorView;

    open spec fn view(&self) -> OrgErrorView {
        match self {
            OrgError::IoError(_) => OrgErrorView::IoError,
            OrgError::ParseError(line, msg) => OrgErrorView::ParseError(
                match line {
                    Some(n) => Some(*n as nat),
                    None => None,
                },
                msg@,
            ),
            OrgError::Unexpected(msg) => OrgErrorView::Unexpected(msg@),
        }
    }
}

impl OrgErrorView {
    /// The text that describes the error to a reader; `None` for an I/O
    /// error, whose text comes from the operating system.
    pub open spec fn message(self) -> Option<Seq<char>> {
        match self {
            OrgErrorView::IoError => None,
            OrgErrorView::ParseError(Some(line), msg) => Some(
                "error parsing line: "@ + decimal(line) + seq!['\n'] + msg,
            ),
            OrgErrorView::ParseError(None, msg) => Some("error parsing line:\n"@ + msg),
            OrgErrorView::Unexpected(msg) => Some("unexpected error:\n"@ + msg),
        }
    }
}

impl OrgError {
    /// A parse error at line `line_num`.
    pub fn parse_error(line_num: usize, msg: &'static str) -> (e: OrgError)
        ensures
            e@ == OrgErrorView::ParseError(Some(line_num as nat), msg@),
    {
        OrgError::ParseError(Some(line_num), msg.to_owned())
    }

    /// An error of no particular kind.
    pub fn unexpected(msg: &str) -> (e: Self)
        ensures
            e@ == OrgErrorView::Unexpected(msg@),
    {
        OrgError::Unexpected(msg.to_owned())
    }

    /// The text that describes the error to a reader.
    pub fn message(&self) -> (s: String)
        ensures
            self@.message() matches Some(m) ==> s@ == m,
    {
        match self {
            OrgError::IoError(io_error) => io_error.to_string(),
            OrgError::ParseError(Some(line), msg) => {
                let mut out = chars_of("error parsing line: ");
                push_decimal(*line, &mut out);
                out.push('\n');
                let mut s = string_of(out.as_slice());
                s.append(msg.as_str());
                s
            },
            OrgError::ParseError(None, msg) => {
                let mut s = "error parsing line:\n".to_owned();
                s.append(msg.as_str());
                s
            },
            OrgError::Unexpected(msg) => {
                let mut s = "unexpected error:\n".to_owned();
                s.append(msg.as_str());
                s
            },
        }
    }
}

impl From<std::io::Error> for OrgError {
    fn from(error: std::io::Error) -> (e: OrgError) {
        OrgError::IoError(error)
    }
}

impl vstd::std_specs::convert::FromSpecImpl<std::io::Error> for OrgError {
    open spec fn obeys_from_spec() -> bool {
        true
    }

    open spec fn from_spec(error: std::io::Error) -> OrgError {
        OrgError::IoError(error)
    }
}

} // verus!
