//! A catalog of a music collection that knows its tracks by their contents.
//!
//! A track is identified by the digest of the bytes of its file
//! ([`domain::hash`]), so that a file that was renamed, moved or copied is
//! still the same track. The catalog ([`storage::operations`]) records at
//! which paths each track was seen; [`storage::reconcile`] compares what a
//! scan of the file system found with what the catalog holds, and the
//! catalog takes in what is new, looks tracks up, searches its paths and
//! forgets whole subtrees. The HTTP layer ([`http`]) answers requests for
//! tracks and streams them, whole or by byte range.
//!
//! Everything here computes on values: the catalog is a value whose tables
//! can be taken out and put back, a scan is a list of observed files, and
//! what the file system knows of a path is a [`storage::fs::FileProbe`].
//! Reading directories, files, the clock and sockets, and keeping the
//! tables in a database, is left to the program that uses the library.

pub mod cli;
pub mod config;
pub mod domain;
pub mod http;
pub mod path;
pub mod public_endpoint;
pub mod sequences;
pub mod storage;
pub mod text;
