//! Looking a track up.

use vstd::prelude::*;
use crate::domain::hash::{hex_encode, TrackId};
use crate::domain::track::{opt_metadata, TrackMetadata};
use crate::storage::catalog::{
    distinct_metadata, has_metadata, lemma_stored_paths_empty, lemma_stored_paths_step,
    metadata_index, rows_of, stored_paths,
};
use crate::storage::error::StorageError;
use crate::storage::fs::{FileProbe, is_plausible_audio_file, is_valid_music_path};
use crate::storage::operations::Storage;
use crate::text::texts;

verus! {

/// The path at position `i` of `paths` was looked at, and is plausibly a
/// playable music file.
pub open spec fn valid_at(paths: Seq<Seq<char>>, probes: Seq<FileProbe>, i: int) -> bool {
    0 <= i < paths.len() && i < probes.len() && is_plausible_audio_file(paths[i], probes[i])
}

/// Position `i` is the first at which `valid_at` holds.
pub open spec fn first_valid_at(paths: Seq<Seq<char>>, probes: Seq<FileProbe>, i: int) -> bool {
    valid_at(paths, probes, i) && forall|j: int| 0 <= j < i ==> !valid_at(paths, probes, j)
}

/// The first position at which `valid_at` holds, if there is one.
pub open spec fn first_valid(paths: Seq<Seq<char>>, probes: Seq<FileProbe>) -> Option<int> {
    if exists|i: int| valid_at(paths, probes, i) {
        Some(choose|i: int| first_valid_at(paths, probes, i))
    } else {
        None
    }
}

/// `first_valid` is the position that `first_valid_at` singles out.
pub proof fn lemma_first_valid(paths: Seq<Seq<char>>, probes: Seq<FileProbe>, i: int)
    requires
        first_valid_at(paths, probes, i),
    ensures
        first_valid(paths, probes) == Some(i),
{
    let j = choose|j: int| first_valid_at(paths, probes, j);
    assert(first_valid_at(paths, probes, j));
    if j < i {
        assert(!valid_at(paths, probes, j));
    } else if i < j {
        assert(!valid_at(paths, probes, i));
    }
}

/// In front of a position at which `valid_at` holds, or at it, stands the
/// first such position.
proof fn lemma_has_first_valid(paths: Seq<Seq<char>>, probes: Seq<FileProbe>, i: int)
    requires
        valid_at(paths, probes, i),
    ensures
        exists|j: int| first_valid_at(paths, probes, j),
    decreases i,
{
    if exists|j: int| 0 <= j < i && valid_at(paths, probes, j) {
        let j = choose|j: int| 0 <= j < i && valid_at(paths, probes, j);
        lemma_has_first_valid(paths, probes, j);
    } else {
        assert(first_valid_at(paths, probes, i));
    }
}

/// Where there is a first valid position, it is one: `valid_at` holds at
/// it and at none in front of it.
pub proof fn lemma_first_valid_is_first(paths: Seq<Seq<char>>, probes: Seq<FileProbe>)
    requires
        first_valid(paths, probes) is Some,
    ensures
        first_valid_at(paths, probes, first_valid(paths, probes)->Some_0),
{
    let i = choose|i: int| valid_at(paths, probes, i);
    lemma_has_first_valid(paths, probes, i);
}

/// What a lookup of a track finds, given the paths that the catalog holds
/// for it and what the file system reported for them.
pub enum Lookup {
    /// The catalog holds no location of the track.
    Unknown,
    /// None of the locations is plausibly a playable music file.
    NoValidFile,
    /// The location at this position is the first that is.
    Found { index: int },
}

/// The outcome of a lookup.
pub open spec fn lookup_of(paths: Seq<Seq<char>>, probes: Seq<FileProbe>) -> Lookup {
    if paths.len() == 0 {
        Lookup::Unknown
    } else {
        match first_valid(paths, probes) {
            Some(index) => Lookup::Found { index },
            None => Lookup::NoValidFile,
        }
    }
}

/// What a lookup finds, in full: a track without locations is unknown; a
/// track with a location that is plausibly a playable music file resolves
/// to the first such location, whatever stands in front of it; and a track
/// none of whose locations is one has no valid file.
pub proof fn lemma_lookup_filters_by_validity(paths: Seq<Seq<char>>, probes: Seq<FileProbe>)
    ensures
        lookup_of(paths, probes) is Unknown <==> paths.len() == 0,
        lookup_of(paths, probes) is NoValidFile <==> paths.len() > 0 && forall|i: int|
            !valid_at(paths, probes, i),
        lookup_of(paths, probes) is Found <==> exists|i: int| valid_at(paths, probes, i),
        lookup_of(paths, probes) matches Lookup::Found { index } ==> first_valid_at(
            paths,
            probes,
            index,
        ),
{
    if first_valid(paths, probes) is Some {
        lemma_first_valid_is_first(paths, probes);
    }
}

impl Storage {
    /// The paths that the catalog holds for a track, in the order of the
    /// rows.
    pub fn track_paths(&self, track_id: &TrackId) -> (paths: Vec<String>)
        ensures
            texts(paths@) == stored_paths(self@.files, hex_encode(track_id@)),
    {
        let hex = track_id.to_hex();
        let ghost rows = rows_of(self.files@);
        let ghost id = hex_encode(track_id@);
        let mut paths: Vec<String> = Vec::new();
        let mut i: usize = 0;
        proof {
            lemma_stored_paths_empty(rows, id);
            assert(texts(paths@) =~= Seq::<Seq<char>>::empty());
        }
        while i < self.files.len()
            invariant
                i <= self.files.len(),
                rows == rows_of(self.files@),
                hex@ == id,
                texts(paths@) == stored_paths(rows.take(i as int), id),
            decreases self.files.len() - i,
        {
            let row = &self.files[i];
            proof {
                lemma_stored_paths_step(rows, id, i as int);
                assert(rows[i as int] == row@);
            }
            if row.track_id == hex {
                let ghost before = texts(paths@);
                paths.push(row.path.clone());
                assert(texts(paths@) =~= before.push(row.path@));
            }
            i += 1;
        }
        proof {
            assert(rows.take(rows.len() as int) =~= rows);
        }
        paths
    }

    /// The metadata of a track, if it has some.
    pub fn get_track_metadata(&self, track_id: &TrackId) -> (r: Option<TrackMetadata>)
        ensures
            opt_metadata(r) == self@.metadata_of(hex_encode(track_id@)),
    {
        proof {
            use_type_invariant(self);
        }
        let hex = track_id.to_hex();
        let mut i: usize = 0;
        while i < self.metadata.len()
            invariant
                i <= self.metadata.len(),
                distinct_metadata(self.metadata@),
                hex@ == hex_encode(track_id@),
                forall|j: int| 0 <= j < i ==> (#[trigger] self.metadata@[j]).track_id@ != hex@,
            decreases self.metadata.len() - i,
        {
            if self.metadata[i].track_id == hex {
                proof {
                    assert(has_metadata(self.metadata@, hex@));
                    assert(metadata_index(self.metadata@, hex@) == i);
                }
                return Some(self.metadata[i].metadata.clone());
            }
            i += 1;
        }
        None
    }

    /// Looks a track up, and says at which position of `track_paths` the
    /// location stands that `get_track` returns.
    pub fn locate_track(&self, track_id: TrackId, probes: &Vec<FileProbe>) -> (r: Result<
        (usize, String, Option<TrackMetadata>),
        StorageError,
    >)
        ensures
            ({
                let hex = hex_encode(track_id@);
                let paths = stored_paths(self@.files, hex);
                match lookup_of(paths, probes@) {
                    Lookup::Unknown => r matches Err(StorageError::TrackNotFound(id)) && id
                        == track_id,
                    Lookup::NoValidFile => r matches Err(StorageError::InvalidTrackFile { track })
                        && track == track_id,
                    Lookup::Found { index } => {
                        &&& r matches Ok((at, path, metadata))
                        &&& at == index
                        &&& at < probes@.len()
                        &&& path@ == paths[index]
                        &&& opt_metadata(metadata) == self@.metadata_of(hex)
                    },
                }
            }),
    {
        let paths = self.track_paths(&track_id);
        if paths.len() == 0 {
            return Err(StorageError::TrackNotFound(track_id));
        }
        let metadata = self.get_track_metadata(&track_id);
        let ghost stored = texts(paths@);
        let mut i: usize = 0;
        while i < paths.len()
            invariant
                i <= paths.len(),
                stored == texts(paths@),
                stored == stored_paths(self@.files, hex_encode(track_id@)),
                opt_metadata(metadata) == self@.metadata_of(hex_encode(track_id@)),
                forall|j: int| 0 <= j < i ==> !valid_at(stored, probes@, j),
            decreases paths.len() - i,
        {
            proof {
                assert(stored[i as int] == paths@[i as int]@);
            }
            if i < probes.len() && is_valid_music_path(paths[i].as_str(), &probes[i]) {
                proof {
                    lemma_first_valid(stored, probes@, i as int);
                }
                return Ok((i, paths[i].clone(), metadata));
            }
            i += 1;
        }
        assert(stored.len() == paths@.len());
        Err(StorageError::InvalidTrackFile { track: track_id })
    }

    /// Looks a track up: a location that is plausibly a playable music file,
    /// and the track's metadata.
    ///
    /// `probes` holds what the file system reported for each path of
    /// `track_paths`, position by position; a path without a report counts
    /// as missing. The first path that passes is returned. A track without
    /// any location is not found; one with locations none of which passes has
    /// no valid file.
    pub fn get_track(&self, track_id: TrackId, probes: &Vec<FileProbe>) -> (r: Result<
        (TrackId, String, Option<TrackMetadata>),
        StorageError,
    >)
        ensures
            ({
                let hex = hex_encode(track_id@);
                let paths = stored_paths(self@.files, hex);
                match lookup_of(paths, probes@) {
                    Lookup::Unknown => r matches Err(StorageError::TrackNotFound(id)) && id
                        == track_id,
                    Lookup::NoValidFile => r matches Err(StorageError::InvalidTrackFile { track })
                        && track == track_id,
                    Lookup::Found { index } => {
                        &&& r matches Ok((id, path, metadata))
                        &&& id == track_id
                        &&& path@ == paths[index]
                        &&& opt_metadata(metadata) == self@.metadata_of(hex)
                    },
                }
            }),
    {
        match self.locate_track(track_id, probes) {
            Ok((_, path, metadata)) => Ok((track_id, path, metadata)),
            Err(e) => Err(e),
        }
    }
}

} // verus!
