//! The library's error type. Failures of outside collaborators (the key
//! engine, the store, the transport) are carried as plain text so that the
//! daemon core can state exactly which error every function returns.

use vstd::prelude::*;
use vstd::string::StringExecFns;

verus! {

/// Every failure the secret store distinguishes.
#[derive(Debug, Clone, PartialEq, Eq)]
pub enum SvenError {
    /// The key engine reported an error.
    GpgError(String),
    /// The durable store reported an error.
    DbError(String),
    /// No usable key with ultimate trust exists.
    NoGpgKeys,
    /// No key has been selected yet.
    NoKeySelected,
    /// The key engine could not be reached at all.
    GpgNotAvailable(String),
    /// A file or socket operation failed.
    IoError(String),
    /// A path, marker or protocol line was not as expected.
    ConfigError(String),
    /// A request to the persistence worker could not be delivered.
    ChannelSendError(String),
}

/// The mathematical shape of an error: its detail text as a sequence.
pub enum ErrorView {
    GpgError(Seq<char>),
    DbError(Seq<char>),
    NoGpgKeys,
    NoKeySelected,
    GpgNotAvailable(Seq<char>),
    IoError(Seq<char>),
    ConfigError(Seq<char>),
    ChannelSendError(Seq<char>),
}

impl View for SvenError {
    type V = ErrorView;

    open spec fn view(&self) -> ErrorView {
        match self {
            SvenError::GpgError(m) => ErrorView::GpgError(m@),
            SvenError::DbError(m) => ErrorView::DbError(m@),
            SvenError::NoGpgKeys => ErrorView::NoGpgKeys,
            SvenError::NoKeySelected => ErrorView::NoKeySelected,
            SvenError::GpgNotAvailable(m) => ErrorView::GpgNotAvailable(m@),
            SvenError::IoError(m) => ErrorView::IoError(m@),
            SvenError::ConfigError(m) => ErrorView::ConfigError(m@),
            SvenError::ChannelSendError(m) => ErrorView::ChannelSendError(m@),
        }
    }
}

/// The one-line description of an error.
pub open spec fn message_sp(e: ErrorView) -> Seq<char> {
    match e {
        ErrorView::GpgError(m) => "GPG error: "@ + m,
        ErrorView::DbError(m) => "Database error: "@ + m,
        ErrorView::NoGpgKeys => "No GPG keys with ultimate trust found"@,
        ErrorView::NoKeySelected => "GPG key not selected"@,
        ErrorView::GpgNotAvailable(m) => "GPG not available: "@ + m,
        ErrorView::IoError(m) => "IO error: "@ + m,
        ErrorView::ConfigError(m) => "Config error: "@ + m,
        ErrorView::ChannelSendError(m) => "Channel send error: "@ + m,
    }
}

impl SvenError {
    /// The one-line description of this error.
    pub fn message(&self) -> (r: String)
        ensures
            r@ == message_sp(self@),
    {
        match self {
            SvenError::GpgError(m) => {
                let mut s = String::from_str("GPG error: ");
                s.append(m.as_str());
                s
            },
            SvenError::DbError(m) => {
                let mut s = String::from_str("Database error: ");
                s.append(m.as_str());
                s
            },
            SvenError::NoGpgKeys => String::from_str("No GPG keys with ultimate trust found"),
            SvenError::NoKeySelected => String::from_str("GPG key not selected"),
            SvenError::GpgNotAvailable(m) => {
                let mut s = String::from_str("GPG not available: ");
                s.append(m.as_str());
                s
            },
            SvenError::IoError(m) => {
                let mut s = String::from_str("IO error: ");
                s.append(m.as_str());
                s
            },
            SvenError::ConfigError(m) => {
                let mut s = String::from_str("Config error: ");
                s.append(m.as_str());
                s
            },
            SvenError::ChannelSendError(m) => {
                let mut s = String::from_str("Channel send error: ");
                s.append(m.as_str());
                s
            },
        }
    }
}

} // verus!
