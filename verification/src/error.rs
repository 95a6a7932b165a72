use vstd::prelude::*;

verus! {

/// Spec-level shape of a connector error; string payloads are
/// character sequences.
pub enum ErrorView {
    UnknownResource(Seq<char>),
    MissingRequiredOption(Seq<char>),
    ApiKeyNotFound,
    UnsupportedColumnType(Seq<char>),
    InvalidTimestampFormat(Seq<char>),
    JsonDecodeError(Seq<char>),
    TransientFetchError(Seq<char>),
    FatalFetchError(Seq<char>),
    FetchRetriesExhausted,
}

/// Errors surfaced by the connector.
///
/// Scan-open failures (`UnknownResource`, `MissingRequiredOption`,
/// `ApiKeyNotFound`) abort `begin_scan`; `InvalidTimestampFormat` and
/// `JsonDecodeError` are item- or column-level and recovered from
/// during projection; fetch errors classify one page-fetch attempt,
/// and `FetchRetriesExhausted` reports that every allowed attempt for
/// one page failed with a transient error.
#[derive(Debug, PartialEq, Eq)]
pub enum OrbFdwError {
    UnknownResource(String),
    MissingRequiredOption(String),
    ApiKeyNotFound,
    UnsupportedColumnType(String),
    InvalidTimestampFormat(String),
    JsonDecodeError(String),
    TransientFetchError(String),
    FatalFetchError(String),
    FetchRetriesExhausted,
}

impl View for OrbFdwError {
    type V = ErrorView;

    open spec fn view(&self) -> ErrorView {
        match self {
            OrbFdwError::UnknownResource(s) => ErrorView::UnknownResource(s@),
            OrbFdwError::MissingRequiredOption(s) => ErrorView::MissingRequiredOption(s@),
            OrbFdwError::ApiKeyNotFound => ErrorView::ApiKeyNotFound,
            OrbFdwError::UnsupportedColumnType(s) => ErrorView::UnsupportedColumnType(s@),
            OrbFdwError::InvalidTimestampFormat(s) => ErrorView::InvalidTimestampFormat(s@),
            OrbFdwError::JsonDecodeError(s) => ErrorView::JsonDecodeError(s@),
            OrbFdwError::TransientFetchError(s) => ErrorView::TransientFetchError(s@),
            OrbFdwError::FatalFetchError(s) => ErrorView::FatalFetchError(s@),
            OrbFdwError::FetchRetriesExhausted => ErrorView::FetchRetriesExhausted,
        }
    }
}

} // verus!
