//! The failures that the HTTP layer reports, each with its status code.

use vstd::prelude::*;
use crate::domain::hash::hex_encode;
use crate::storage::error::StorageError;

verus! {

/// A failure as it is reported over HTTP.
#[derive(Debug)]
pub enum ApiError {
    NotFound(String),
    BadRequest(String),
    Internal(String),
    /// The byte range asked for cannot be served.
    InvalidRange,
}

/// The mathematical content of an `ApiError`.
pub enum ApiErrorView {
    NotFound(Seq<char>),
    BadRequest(Seq<char>),
    Internal(Seq<char>),
    InvalidRange,
}

impl View for ApiError {
    type V = ApiErrorView;

    open spec fn view(&self) -> ApiErrorView {
        match *self {
            ApiError::NotFound(msg) => ApiErrorView::NotFound(msg@),
            ApiError::BadRequest(msg) => ApiErrorView::BadRequest(msg@),
            ApiError::Internal(msg) => ApiErrorView::Internal(msg@),
            ApiError::InvalidRange => ApiErrorView::InvalidRange,
        }
    }
}

impl ApiErrorView {
    /// The HTTP status code of the failure.
    pub open spec fn status_code(self) -> u16 {
        match self {
            ApiErrorView::NotFound(_) => 404,
            ApiErrorView::BadRequest(_) => 400,
            ApiErrorView::Internal(_) => 500,
            ApiErrorView::InvalidRange => 416,
        }
    }

    /// The message of the failure.
    pub open spec fn text(self) -> Seq<char> {
        match self {
            ApiErrorView::NotFound(msg) => msg,
            ApiErrorView::BadRequest(msg) => msg,
            ApiErrorView::Internal(msg) => msg,
            ApiErrorView::InvalidRange => "invalid byte range"@,
        }
    }
}

/// How a failure of the storage layer is reported over HTTP: an unknown
/// track is not found, a track without valid file and a malformed identity
/// are bad requests, and everything else is an internal error of which
/// nothing is told.
pub open spec fn api_error_of(e: StorageError) -> ApiErrorView {
    match e {
        StorageError::TrackNotFound(id) => ApiErrorView::NotFound(
            "track "@ + hex_encode(id@) + " not found"@,
        ),
        StorageError::InvalidTrackFile { track } => ApiErrorView::BadRequest(
            "track "@ + hex_encode(track@) + " has no valid files"@,
        ),
        StorageError::InvalidTrackId => ApiErrorView::BadRequest("invalid track id"@),
        StorageError::Database(_) => ApiErrorView::Internal("internal server error"@),
        StorageError::Fs(_) => ApiErrorView::Internal("internal server error"@),
        StorageError::Internal(_) => ApiErrorView::Internal("internal server error"@),
    }
}

impl ApiError {
    /// The HTTP status code of the failure.
    pub fn status_code(&self) -> (code: u16)
        ensures
            code == self@.status_code(),
    {
        match self {
            ApiError::NotFound(_) => 404,
            ApiError::BadRequest(_) => 400,
            ApiError::Internal(_) => 500,
            ApiError::InvalidRange => 416,
        }
    }

    /// The message of the failure.
    pub fn to_text(&self) -> (text: String)
        ensures
            text@ == self@.text(),
    {
        match self {
            ApiError::NotFound(msg) => msg.clone(),
            ApiError::BadRequest(msg) => msg.clone(),
            ApiError::Internal(msg) => msg.clone(),
            ApiError::InvalidRange => String::from_str("invalid byte range"),
        }
    }
}

impl From<StorageError> for ApiError {
    fn from(err: StorageError) -> (r: ApiError)
        ensures
            r@ == api_error_of(err),
    {
        match err {
            StorageError::TrackNotFound(id) => {
                let hex = id.to_hex();
                ApiError::NotFound(
                    String::from_str("track ").concat(hex.as_str()).concat(" not found"),
                )
            },
            StorageError::InvalidTrackFile { track } => {
                let hex = track.to_hex();
                ApiError::BadRequest(
                    String::from_str("track ").concat(hex.as_str()).concat(" has no valid files"),
                )
            },
            StorageError::InvalidTrackId => ApiError::BadRequest(String::from_str("invalid track id")),
            StorageError::Database(_) => ApiError::Internal(String::from_str("internal server error")),
            StorageError::Fs(_) => ApiError::Internal(String::from_str("internal server error")),
            StorageError::Internal(_) => ApiError::Internal(String::from_str("internal server error")),
        }
    }
}

impl vstd::std_specs::convert::FromSpecImpl<StorageError> for ApiError {
    open spec fn obeys_from_spec() -> bool {
        false
    }

    open spec fn from_spec(err: StorageError) -> ApiError {
        choose|r: ApiError| r@ == api_error_of(err)
    }
}

} // verus!
