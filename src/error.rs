//! The errors that scanning and writing report.
use vstd::prelude::*;

verus! {

/// Why a source file could not be turned into a `FileDomain`.
#[derive(Debug, PartialEq, Eq)]
pub enum ParserError {
    /// The path does not end in the `.cairo` extension.
    InvalidFileExtension,
    /// A type token that is neither a known primitive nor a well-formed map;
    /// holds the token.
    UnknownType(String),
    /// The line after an event marker is not of the shape `fn Name(args)`;
    /// holds the line.
    MalformedSignature(String),
    /// An event argument without the `": "` separator; holds the argument.
    MissingArgumentSeparator(String),
}

/// The abstract value of a `ParserError`: its kind and the text it holds.
pub enum ErrorView {
    InvalidFileExtension,
    UnknownType(Seq<char>),
    MalformedSignature(Seq<char>),
    MissingArgumentSeparator(Seq<char>),
}

pub open spec fn error_view(e: ParserError) -> ErrorView {
    match e {
        ParserError::InvalidFileExtension => ErrorView::InvalidFileExtension,
        ParserError::UnknownType(t) => ErrorView::UnknownType(t@),
        ParserError::MalformedSignature(l) => ErrorView::MalformedSignature(l@),
        ParserError::MissingArgumentSeparator(a) => ErrorView::MissingArgumentSeparator(a@),
    }
}

/// Why a generated file could not be written out.
#[derive(Debug, Clone, Copy, PartialEq, Eq)]
pub enum WriterError {
    FailedToCreateFile,
    FailedToWriteContent,
}

} // verus!
