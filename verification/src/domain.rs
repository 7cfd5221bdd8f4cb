//! The values the catalog is about: track identities and track metadata.

pub mod hash;
pub mod track;
