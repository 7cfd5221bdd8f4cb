//! Tracks and what is known about them besides their bytes.

use vstd::prelude::*;
use crate::domain::hash::TrackId;

verus! {

/// Where the artwork of a track can be found.
#[derive(Debug)]
pub struct ArtworkRef(pub String);

impl View for ArtworkRef {
    type V = Seq<char>;

    open spec fn view(&self) -> Seq<char> {
        self.0@
    }
}

impl Clone for ArtworkRef {
    fn clone(&self) -> (r: ArtworkRef)
        ensures
            r == *self,
    {
        ArtworkRef(self.0.clone())
    }
}

/// Descriptive data of a track. A track has at most one; title and artist
/// are always present in it.
#[derive(Debug)]
pub struct TrackMetadata {
    pub artist: String,
    pub title: String,
    pub year: Option<u32>,
    pub label: Option<String>,
    pub artwork: Option<ArtworkRef>,
}

/// The mathematical content of a `TrackMetadata`.
pub struct MetadataView {
    pub artist: Seq<char>,
    pub title: Seq<char>,
    pub year: Option<u32>,
    pub label: Option<Seq<char>>,
    pub artwork: Option<Seq<char>>,
}

/// The text of an optional string.
pub open spec fn opt_text(s: Option<String>) -> Option<Seq<char>> {
    match s {
        Some(t) => Some(t@),
        None => None,
    }
}

/// The text of an optional artwork reference.
pub open spec fn opt_artwork(a: Option<ArtworkRef>) -> Option<Seq<char>> {
    match a {
        Some(t) => Some(t@),
        None => None,
    }
}

impl View for TrackMetadata {
    type V = MetadataView;

    open spec fn view(&self) -> MetadataView {
        MetadataView {
            artist: self.artist@,
            title: self.title@,
            year: self.year,
            label: opt_text(self.label),
            artwork: opt_artwork(self.artwork),
        }
    }
}

/// The content of optional metadata.
pub open spec fn opt_metadata(m: Option<TrackMetadata>) -> Option<MetadataView> {
    match m {
        Some(data) => Some(data@),
        None => None,
    }
}

/// A copy of an optional string.
pub fn clone_opt_string(s: &Option<String>) -> (r: Option<String>)
    ensures
        r == *s,
{
    match s {
        Some(t) => Some(t.clone()),
        None => None,
    }
}

/// A copy of an optional artwork reference.
pub fn clone_opt_artwork(a: &Option<ArtworkRef>) -> (r: Option<ArtworkRef>)
    ensures
        r == *a,
{
    match a {
        Some(t) => Some(t.clone()),
        None => None,
    }
}

impl Clone for TrackMetadata {
    fn clone(&self) -> (r: TrackMetadata)
        ensures
            r == *self,
    {
        TrackMetadata {
            artist: self.artist.clone(),
            title: self.title.clone(),
            year: self.year,
            label: clone_opt_string(&self.label),
            artwork: clone_opt_artwork(&self.artwork),
        }
    }
}

/// A music track: an identity and its metadata.
#[derive(Debug)]
pub struct Track {
    pub id: TrackId,
    pub metadata: TrackMetadata,
}

} // verus!
