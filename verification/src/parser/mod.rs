//! Reader, codecs and header parser, together with the error type they share.

use vstd::prelude::*;
use vstd::string::StringSliceAdditionalSpecFns;
use vstd::utf8::encode_utf8;

pub mod decode;
pub mod frame;
pub mod headers;
pub mod reader;
pub mod text;

pub use headers::Headers;
pub use reader::Reader;

verus! {

/// Everything that can go wrong while decoding a log.
#[derive(Debug, Clone, PartialEq, Eq)]
pub enum ParseError {
    /// The data ended in the middle of an item.
    UnexpectedEof,
    /// A structural rule of the format was violated.
    Corrupted,
    /// A header line holds bytes that are not UTF-8.
    HeaderInvalidUtf8,
    /// A header line has no `:` between name and value.
    HeaderMissingColon,
    /// A known header whose value could not be understood.
    InvalidHeader { header: String, value: String },
    /// A `Field` header naming an unknown frame kind or property.
    UnknownHeader(String),
    /// A header that is required was never seen.
    MissingHeader(String),
}

/// Mathematical value of a [`ParseError`]: every text is the sequence of its
/// bytes in UTF-8.
pub enum ParseErrorView {
    UnexpectedEof,
    Corrupted,
    HeaderInvalidUtf8,
    HeaderMissingColon,
    InvalidHeader { header: Seq<u8>, value: Seq<u8> },
    UnknownHeader(Seq<u8>),
    MissingHeader(Seq<u8>),
}

impl View for ParseError {
    type V = ParseErrorView;

    open spec fn view(&self) -> ParseErrorView {
        match self {
            ParseError::UnexpectedEof => ParseErrorView::UnexpectedEof,
            ParseError::Corrupted => ParseErrorView::Corrupted,
            ParseError::HeaderInvalidUtf8 => ParseErrorView::HeaderInvalidUtf8,
            ParseError::HeaderMissingColon => ParseErrorView::HeaderMissingColon,
            ParseError::InvalidHeader { header, value } => ParseErrorView::InvalidHeader {
                header: encode_utf8(header@),
                value: encode_utf8(value@),
            },
            ParseError::UnknownHeader(name) => ParseErrorView::UnknownHeader(encode_utf8(name@)),
            ParseError::MissingHeader(name) => ParseErrorView::MissingHeader(encode_utf8(name@)),
        }
    }
}

impl ParseError {
    /// The error for a known header whose value could not be understood.
    pub fn invalid_header(header: &str, value: &str) -> (error: ParseError)
        ensures
            error@ == (ParseErrorView::InvalidHeader {
                header: header.spec_bytes(),
                value: value.spec_bytes(),
            }),
    {
        ParseError::InvalidHeader { header: header.to_owned(), value: value.to_owned() }
    }

    /// The error for a `Field` header of an unknown kind or property.
    pub fn unknown_header(header: &str) -> (error: ParseError)
        ensures
            error@ == ParseErrorView::UnknownHeader(header.spec_bytes()),
    {
        ParseError::UnknownHeader(header.to_owned())
    }

    /// The error for a required header that was never seen.
    pub fn missing_header(header: &str) -> (error: ParseError)
        ensures
            error@ == ParseErrorView::MissingHeader(header.spec_bytes()),
    {
        ParseError::MissingHeader(header.to_owned())
    }
}

pub type ParseResult<T> = Result<T, ParseError>;

} // verus!
