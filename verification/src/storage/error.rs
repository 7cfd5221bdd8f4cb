//! What can go wrong in the storage layer.

use vstd::prelude::*;
use crate::domain::hash::{hex_encode, TrackId};

verus! {

/// A failure of a storage operation.
#[derive(Debug)]
pub enum StorageError {
    /// The persistent store failed; the text is its report.
    Database(String),
    /// The catalog holds no location of this track.
    TrackNotFound(TrackId),
    /// The catalog holds locations of this track, none of which is a
    /// plausible music file on disk.
    InvalidTrackFile { track: TrackId },
    /// The file system failed; the text is its report.
    Fs(String),
    /// A text that should spell a track identity does not.
    InvalidTrackId,
    /// An invariant of the program was violated; the text says which.
    Internal(String),
}

/// The message of a `StorageError`, as text.
pub open spec fn storage_error_text(e: StorageError) -> Seq<char> {
    match e {
        StorageError::Database(msg) => "database error: "@ + msg@,
        StorageError::TrackNotFound(id) => "track "@ + hex_encode(id@) + " not found"@,
        StorageError::InvalidTrackFile { track } => "track "@ + hex_encode(track@)
            + " has no valid music files"@,
        StorageError::Fs(msg) => "filesystem error: "@ + msg@,
        StorageError::InvalidTrackId => "invalid track id"@,
        StorageError::Internal(msg) => "internal error: "@ + msg@,
    }
}

impl StorageError {
    /// The message shown to a user.
    pub fn to_text(&self) -> (text: String)
        ensures
            text@ == storage_error_text(*self),
    {
        match self {
            StorageError::Database(msg) => {
                String::from_str("database error: ").concat(msg.as_str())
            },
            StorageError::TrackNotFound(id) => {
                let hex = id.to_hex();
                String::from_str("track ").concat(hex.as_str()).concat(" not found")
            },
            StorageError::InvalidTrackFile { track } => {
                let hex = track.to_hex();
                String::from_str("track ").concat(hex.as_str()).concat(" has no valid music files")
            },
            StorageError::Fs(msg) => String::from_str("filesystem error: ").concat(msg.as_str()),
            StorageError::InvalidTrackId => String::from_str("invalid track id"),
            StorageError::Internal(msg) => String::from_str("internal error: ").concat(
                msg.as_str(),
            ),
        }
    }
}

} // verus!
