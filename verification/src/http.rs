//! The HTTP layer: what is answered to a request, given the catalog and what
//! the file system reported. Listening on sockets and reading files is the
//! caller's part.

pub mod error;
pub mod mime;
pub mod range;
pub mod request;
pub mod response;
pub mod server;
