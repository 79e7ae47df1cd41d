//! The library's error type.
use vstd::prelude::*;
use crate::text::{decimal, push_decimal};

verus! {

/// Everything that can go wrong reading, checking or writing a manifest.
#[derive(Debug, Clone, PartialEq)]
pub enum Error {
    /// The manifest is not well-formed TOML for its schema; the payload is
    /// the decoder's message.
    ManifestSyntax(String),
    /// The manifest could not be written as TOML; the payload is the
    /// encoder's message.
    ManifestSerialize(String),
    /// The manifest declares a `format` this crate does not read.
    UnsupportedFormat(u32),
    /// The manifest decodes but breaks a rule of its own.
    Invalid(String),
}

/// What an [`Error`] holds, with its text as a sequence of characters.
pub enum ErrorModel {
    ManifestSyntax(Seq<char>),
    ManifestSerialize(Seq<char>),
    UnsupportedFormat(u32),
    Invalid(Seq<char>),
}

impl View for Error {
    type V = ErrorModel;

    open spec fn view(&self) -> ErrorModel {
        match self {
            Error::ManifestSyntax(m) => ErrorModel::ManifestSyntax(m@),
            Error::ManifestSerialize(m) => ErrorModel::ManifestSerialize(m@),
            Error::UnsupportedFormat(f) => ErrorModel::UnsupportedFormat(*f),
            Error::Invalid(m) => ErrorModel::Invalid(m@),
        }
    }
}

/// The human-readable text of an error.
pub open spec fn error_message(e: ErrorModel) -> Seq<char> {
    match e {
        ErrorModel::ManifestSyntax(m) => "manifest syntax error: "@ + m,
        ErrorModel::ManifestSerialize(m) => "manifest serialization error: "@ + m,
        ErrorModel::UnsupportedFormat(f) => "unsupported manifest format "@ + decimal(f as nat),
        ErrorModel::Invalid(m) => "invalid manifest: "@ + m,
    }
}

impl Error {
    /// The human-readable text of this error.
    pub fn message(&self) -> (r: String)
        ensures
            r@ == error_message(self@),
    {
        match self {
            Error::ManifestSyntax(m) => {
                let mut r = String::from_str("manifest syntax error: ");
                r.append(m.as_str());
                r
            },
            Error::ManifestSerialize(m) => {
                let mut r = String::from_str("manifest serialization error: ");
                r.append(m.as_str());
                r
            },
            Error::UnsupportedFormat(f) => {
                let mut r = String::from_str("unsupported manifest format ");
                push_decimal(&mut r, *f as u64);
                r
            },
            Error::Invalid(m) => {
                let mut r = String::from_str("invalid manifest: ");
                r.append(m.as_str());
                r
            },
        }
    }
}

} // verus!
