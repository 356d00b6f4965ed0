//! The library's error type.
use vstd::prelude::*;

verus! {

/// `reqwest::Error`, carried by [`CrossrefError::Http`].
#[verifier::external_type_specification]
#[verifier::external_body]
pub struct ExReqwestError(reqwest::Error);

/// `std::io::Error`, carried by [`CrossrefError::Io`].
#[verifier::external_type_specification]
#[verifier::external_body]
pub struct ExIoError(std::io::Error);

/// `serde_json::Error`, carried by [`CrossrefError::Json`].
#[verifier::external_type_specification]
#[verifier::external_body]
pub struct ExJsonError(serde_json::Error);

#[derive(Debug)]
pub enum CrossrefError {
    /// HTTP request failed.
    Http(reqwest::Error),
    /// Crossref API error.
    Api(String),
    /// The Crossref API returned a response our code could not decode.
    /// Typically caused by missing or unexpected fields in unusual entry types
    /// (datasets, book chapters, components) that the API returned alongside
    /// standard journal articles.
    Parse(String),
    /// Invalid user input — the error message contains actionable guidance.
    Usage(String),
    /// Configuration error.
    Config(String),
    /// Cache error.
    Cache(String),
    /// BibTeX error.
    Bibtex(String),
    /// IO error.
    Io(std::io::Error),
    /// JSON error.
    Json(serde_json::Error),
    /// Unpaywall error.
    Unpaywall(String),
    /// PDF download error.
    PdfDownload(String),
    /// Builder error.
    Builder(String),
}

/// The library's result type.
pub type Result<T> = std::result::Result<T, CrossrefError>;

} // verus!
