//! The commands of the program, and how metadata is shown.

use vstd::prelude::*;
use crate::domain::track::{ArtworkRef, MetadataView, opt_text, TrackMetadata};
use crate::storage::operations::metadata::{MetadataUpdate, UpdateView};
use crate::text::{decimal, decimal_string};

verus! {

/// What the program is asked to do.
#[derive(Debug)]
pub enum Commands {
    /// Show how the library differs from the catalog.
    Status,
    /// Take new files into the catalog.
    Update,
    /// Serve the library over HTTP.
    Serve,
    /// List the tracks.
    List {
        /// Show also the locations that are in the catalog and not on disk.
        show_unavailable: bool,
    },
    /// Find a track.
    Find {
        /// Artist, title or part of the file name.
        track: String,
    },
    /// Remove a path, and what lies below it, from the catalog.
    Forget { path: String },
    /// Print the address of a track for a code or a tag.
    Url { track_id: String },
    /// Show or change the metadata of a track.
    Metadata {
        track_id: String,
        title: Option<String>,
        artist: Option<String>,
        year: Option<u32>,
        label: Option<String>,
        artwork: Option<String>,
        /// Replace values that are there.
        overwrite: bool,
    },
}

/// The command line: where the configuration is, and a command.
#[derive(Debug)]
pub struct Cli {
    /// Path of the configuration file.
    pub config: String,
    pub command: Commands,
}

impl Commands {
    /// The change of metadata that the options of a command ask for.
    pub fn to_metadata_update(
        title: Option<String>,
        artist: Option<String>,
        year: Option<u32>,
        label: Option<String>,
        artwork: Option<String>,
    ) -> (update: MetadataUpdate)
        ensures
            update@ == (UpdateView {
                title: opt_text(title),
                artist: opt_text(artist),
                year,
                label: opt_text(label),
                artwork: opt_text(artwork),
            }),
    {
        MetadataUpdate {
            title,
            artist,
            year,
            label,
            artwork: match artwork {
                Some(a) => Some(ArtworkRef(a)),
                None => None,
            },
        }
    }
}

/// Metadata as it is shown: one line each for title and artist, and one for
/// each of year, label and artwork that is known.
pub open spec fn pretty(m: MetadataView) -> Seq<char> {
    "Title : "@ + m.title + "\nArtist: "@ + m.artist + (match m.year {
        Some(year) => "\nYear  : "@ + decimal(year as nat),
        None => Seq::empty(),
    }) + (match m.label {
        Some(label) => "\nLabel : "@ + label,
        None => Seq::empty(),
    }) + (match m.artwork {
        Some(artwork) => "\nArtwork: "@ + artwork,
        None => Seq::empty(),
    })
}

/// Shows metadata as text.
pub fn pretty_metadata(m: TrackMetadata) -> (text: String)
    ensures
        text@ == pretty(m@),
{
    let mut text = String::from_str("Title : ").concat(m.title.as_str()).concat("\nArtist: ").concat(
        m.artist.as_str(),
    );
    let ghost head = text@;
    if let Some(year) = m.year {
        text = text.concat("\nYear  : ").concat(decimal_string(year as u64).as_str());
    } else {
        assert(text@ =~= head + Seq::<char>::empty());
    }
    let ghost with_year = text@;
    if let Some(label) = m.label {
        text = text.concat("\nLabel : ").concat(label.as_str());
    } else {
        assert(text@ =~= with_year + Seq::<char>::empty());
    }
    let ghost with_label = text@;
    if let Some(artwork) = m.artwork {
        text = text.concat("\nArtwork: ").concat(artwork.0.as_str());
    } else {
        assert(text@ =~= with_label + Seq::<char>::empty());
    }
    assert(text@ =~= pretty(m@));
    text
}

} // verus!
