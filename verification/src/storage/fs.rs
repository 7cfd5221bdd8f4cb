//! What the file system holds: observed music files and the checks made on
//! paths. Walking directories and reading files is left to the caller; this
//! module decides what counts.

use vstd::prelude::*;
use crate::domain::hash::{blake3_digest, TrackId};
use crate::path::{extension, extension_of, is_under, lies_under_any};
use crate::sequences::{lemma_filter_empty, lemma_filter_step};
use crate::text::{ascii_lowercase, chars_of, spells, to_ascii_lowercase};

verus! {

/// `ext` is one of the recognised audio extensions, in lower case.
pub open spec fn is_music_extension(ext: Seq<char>) -> bool {
    ext == "mp3"@ || ext == "flac"@ || ext == "wav"@ || ext == "m4a"@ || ext == "ogg"@ || ext
        == "aac"@
}

/// `path` has a recognised audio extension, in any case.
pub open spec fn is_music_path(path: Seq<char>) -> bool {
    match extension_of(path) {
        Some(ext) => is_music_extension(ascii_lowercase(ext)),
        None => false,
    }
}

/// Whether `ext`, already in lower case, is a recognised audio extension.
pub fn is_music_ext(ext: &Vec<char>) -> (r: bool)
    ensures
        r == is_music_extension(ext@),
{
    spells(ext, "mp3") || spells(ext, "flac") || spells(ext, "wav") || spells(ext, "m4a")
        || spells(ext, "ogg") || spells(ext, "aac")
}

/// Whether `path` names a music file, going by its extension alone.
pub fn is_music_file(path: &str) -> (r: bool)
    ensures
        r == is_music_path(path@),
{
    let p = chars_of(path);
    match extension(&p) {
        Some(ext) => {
            let lower = to_ascii_lowercase(&ext);
            is_music_ext(&lower)
        },
        None => false,
    }
}

/// What the file system reported when a path was looked at.
#[derive(Debug, Clone, Copy, PartialEq, Eq, Structural)]
pub struct FileProbe {
    /// Something exists at the path and its attributes could be read.
    pub exists: bool,
    /// It is a regular file.
    pub is_file: bool,
    /// Its size in bytes.
    pub len: u64,
    /// It could be opened for reading.
    pub readable: bool,
}

impl FileProbe {
    /// The report for a path at which nothing was found.
    pub fn missing() -> (p: FileProbe)
        ensures
            p == (FileProbe { exists: false, is_file: false, len: 0, readable: false }),
    {
        FileProbe { exists: false, is_file: false, len: 0, readable: false }
    }

    /// The report for a readable regular file of `len` bytes.
    pub fn file(len: u64) -> (p: FileProbe)
        ensures
            p == (FileProbe { exists: true, is_file: true, len, readable: true }),
    {
        FileProbe { exists: true, is_file: true, len, readable: true }
    }
}

/// `path`, looked at with result `probe`, is plausibly a playable music
/// file: a readable regular file that is not empty and has an audio
/// extension.
pub open spec fn is_plausible_audio_file(path: Seq<char>, probe: FileProbe) -> bool {
    probe.exists && probe.is_file && is_music_path(path) && probe.len > 0 && probe.readable
}

/// Best-effort check that `path` points to a playable music file, given what
/// the file system reported for it. Nothing is decoded.
pub fn is_valid_music_path(path: &str, probe: &FileProbe) -> (r: bool)
    ensures
        r == is_plausible_audio_file(path@, *probe),
{
    if !probe.exists {
        return false;
    }
    if !probe.is_file {
        return false;
    }
    if !is_music_file(path) {
        return false;
    }
    if probe.len == 0 {
        return false;
    }
    probe.readable
}

/// A music file seen at some place: what it is, and where.
#[derive(Debug, Hash)]
pub struct ObservedFile {
    pub track_id: TrackId,
    pub path: String,
}

/// A location as mathematics: the bytes of an identity and the text of a path.
pub type Place = (Seq<u8>, Seq<char>);

impl View for ObservedFile {
    type V = Place;

    open spec fn view(&self) -> Place {
        (self.track_id@, self.path@)
    }
}

impl Clone for ObservedFile {
    fn clone(&self) -> (r: ObservedFile)
        ensures
            r == *self,
    {
        ObservedFile { track_id: self.track_id, path: self.path.clone() }
    }
}

impl PartialEq for ObservedFile {
    fn eq(&self, other: &ObservedFile) -> (r: bool) {
        self.track_id == other.track_id && self.path == other.path
    }
}

impl Eq for ObservedFile {}

impl vstd::std_specs::cmp::PartialEqSpecImpl for ObservedFile {
    open spec fn obeys_eq_spec() -> bool {
        true
    }

    open spec fn eq_spec(&self, other: &ObservedFile) -> bool {
        self@ == other@
    }
}

impl ObservedFile {
    /// The observation of identity `id` at `path`.
    pub fn new(id: TrackId, path: String) -> (f: ObservedFile)
        ensures
            f.track_id == id,
            f.path == path,
    {
        ObservedFile { track_id: id, path }
    }

    /// The observation of a file at `path` whose bytes are `contents`.
    pub fn of_contents(path: String, contents: &[u8]) -> (f: ObservedFile)
        ensures
            f.track_id@ == blake3_digest(contents@),
            f.path == path,
    {
        ObservedFile { track_id: TrackId::from_bytes(contents), path }
    }
}

/// The locations of a sequence of observed files.
pub open spec fn locations(files: Seq<ObservedFile>) -> Seq<Place> {
    files.map_values(|f: ObservedFile| f@)
}

/// What the file system held at one moment.
#[derive(Debug)]
pub struct FsSnapshot {
    /// When the observation was made, in seconds since the Unix epoch.
    pub observed_at: i64,
    pub files: Vec<ObservedFile>,
}

/// A path found by a walk is taken into a snapshot: it has an audio
/// extension and lies under none of the ignored subtrees.
pub open spec fn is_scanned(path: Seq<char>, ignored: Seq<String>) -> bool {
    is_music_path(path) && !exists|i: int|
        0 <= i < ignored.len() && is_under(path, (#[trigger] ignored[i])@)
}

/// Whether a walk should leave out `path` and all below it.
pub fn is_ignored(path: &str, ignored_dirs: &Vec<String>) -> (r: bool)
    ensures
        r == exists|i: int|
            0 <= i < ignored_dirs@.len() && is_under(path@, (#[trigger] ignored_dirs@[i])@),
{
    lies_under_any(path, ignored_dirs)
}

/// Of the paths a walk found, those that are taken into a snapshot, in the
/// order in which they were found.
pub fn select_music_files(walked: &Vec<String>, ignored_dirs: &Vec<String>) -> (kept: Vec<String>)
    ensures
        kept@.map_values(|p: String| p@) == walked@.map_values(|p: String| p@).filter(
            |p: Seq<char>| is_scanned(p, ignored_dirs@),
        ),
{
    let mut kept: Vec<String> = Vec::new();
    let ghost texts = walked@.map_values(|p: String| p@);
    let ghost pred = |p: Seq<char>| is_scanned(p, ignored_dirs@);
    let mut i: usize = 0;
    proof {
        lemma_filter_empty(texts, pred);
        assert(kept@.map_values(|p: String| p@) =~= Seq::<Seq<char>>::empty());
    }
    while i < walked.len()
        invariant
            i <= walked.len(),
            texts == walked@.map_values(|p: String| p@),
            pred == |p: Seq<char>| is_scanned(p, ignored_dirs@),
            kept@.map_values(|p: String| p@) == texts.take(i as int).filter(pred),
        decreases walked.len() - i,
    {
        let path = &walked[i];
        let keep = is_music_file(path.as_str()) && !is_ignored(path.as_str(), ignored_dirs);
        proof {
            lemma_filter_step(texts, pred, i as int);
            assert(keep == pred(texts[i as int]));
        }
        if keep {
            let ghost before = kept@.map_values(|p: String| p@);
            kept.push(path.clone());
            assert(kept@.map_values(|p: String| p@) =~= before.push(texts[i as int]));
        }
        i += 1;
    }
    assert(texts.take(walked@.len() as int) =~= texts);
    kept
}

} // verus!
