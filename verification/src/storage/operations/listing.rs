//! Listing the tracks of the catalog.

use vstd::prelude::*;
use crate::domain::hash::{is_identity_text, TrackId};
use crate::storage::catalog::decoded;
use crate::storage::error::StorageError;
use crate::storage::fs::{FsSnapshot, locations, Place};
use crate::storage::operations::Storage;
use crate::storage::reconcile::{
    distinct_ids, id_listed, id_occurs, paths_for, paths_of, paths_shared, paths_without,
    with_ids_of,
};
use crate::text::{distinct_texts, text_set};

verus! {

/// One track of a listing: the locations that the catalog holds for it,
/// parted by whether the file system has them.
#[derive(Debug)]
pub struct TrackListEntry {
    pub track_id: TrackId,
    /// Locations of the catalog that the file system has.
    pub available_files: Vec<String>,
    /// Locations of the catalog that the file system lacks.
    pub unavailable_files: Vec<String>,
}

/// Some entry of `entries` is about identity `id`.
pub open spec fn is_listed(entries: Seq<TrackListEntry>, id: Seq<u8>) -> bool {
    exists|k: int| 0 <= k < entries.len() && (#[trigger] entries[k]).track_id@ == id
}

/// `entry` parts the locations that `stored` holds for its track by
/// whether `seen` has them, and names each once.
pub open spec fn parts_track(entry: TrackListEntry, stored: Seq<Place>, seen: Seq<Place>) -> bool {
    let id = entry.track_id@;
    &&& text_set(entry.available_files@) == paths_of(stored, id).intersect(paths_of(seen, id))
    &&& text_set(entry.unavailable_files@) == paths_of(stored, id).difference(paths_of(seen, id))
    &&& distinct_texts(entry.available_files@)
    &&& distinct_texts(entry.unavailable_files@)
}

/// `entries` lists the tracks of `stored`, each once, and parts the
/// locations of each by whether `seen` has them.
pub open spec fn is_listing(entries: Seq<TrackListEntry>, stored: Seq<Place>, seen: Seq<Place>) -> bool {
    &&& forall|a: int, b: int|
        0 <= a < b < entries.len() ==> (#[trigger] entries[a]).track_id@ != (#[trigger] entries[b]).track_id@
    &&& forall|id: Seq<u8>| #[trigger]
        is_listed(entries, id) <==> exists|p: Seq<char>| stored.contains((id, p))
    &&& forall|k: int| 0 <= k < entries.len() ==> parts_track(#[trigger] entries[k], stored, seen)
}

impl Storage {
    /// Lists the tracks of the catalog, each with its locations parted into
    /// those that a snapshot of the file system has and those that it
    /// lacks. The catalog is not changed. Fails as `scan_db` does.
    pub fn list_tracks(&self, fs: &FsSnapshot) -> (r: Result<Vec<TrackListEntry>, StorageError>)
        ensures
            r is Ok <==> forall|i: int|
                0 <= i < self@.files.len() ==> is_identity_text((#[trigger] self@.files[i]).0),
            r matches Ok(entries) ==> is_listing(
                entries@,
                decoded(self@.files),
                locations(fs.files@),
            ),
            r matches Err(e) ==> e is Internal,
    {
        let db = match self.scan_db() {
            Ok(db) => db,
            Err(e) => {
                return Err(e);
            },
        };
        let ghost stored = locations(db.files@);
        let ghost seen = locations(fs.files@);
        let ids = with_ids_of(Vec::new(), &db.files);
        let mut entries: Vec<TrackListEntry> = Vec::new();
        let mut i: usize = 0;
        while i < ids.len()
            invariant
                i <= ids.len(),
                distinct_ids(ids@),
                stored == locations(db.files@),
                seen == locations(fs.files@),
                entries@.len() == i,
                forall|k: int| 0 <= k < i ==> (#[trigger] entries@[k]).track_id@ == ids@[k]@,
                forall|k: int| 0 <= k < i ==> parts_track(#[trigger] entries@[k], stored, seen),
            decreases ids.len() - i,
        {
            let id = ids[i];
            let held = paths_for(&db.files, &id);
            let present = paths_for(&fs.files, &id);
            let available = paths_shared(&held, &present);
            let unavailable = paths_without(&held, &present);
            entries.push(
                TrackListEntry {
                    track_id: id,
                    available_files: available,
                    unavailable_files: unavailable,
                },
            );
            i += 1;
        }
        proof {
            assert forall|id: Seq<u8>| #[trigger]
                is_listed(entries@, id) <==> exists|p: Seq<char>| stored.contains((id, p)) by {
                if is_listed(entries@, id) {
                    let k = choose|k: int|
                        0 <= k < entries@.len() && (#[trigger] entries@[k]).track_id@ == id;
                    assert(ids@[k]@ == id);
                    assert(id_listed(ids@, id));
                    assert(id_occurs(db.files@, id));
                    let j = choose|j: int|
                        0 <= j < db.files@.len() && (#[trigger] db.files@[j]).track_id@ == id;
                    assert(stored[j] == (id, db.files@[j].path@));
                    assert(stored.contains((id, db.files@[j].path@)));
                }
                if exists|p: Seq<char>| stored.contains((id, p)) {
                    let p = choose|p: Seq<char>| stored.contains((id, p));
                    let j = choose|j: int| 0 <= j < stored.len() && stored[j] == (id, p);
                    assert(db.files@[j].track_id@ == id);
                    assert(id_occurs(db.files@, id));
                    assert(id_listed(ids@, id));
                    let k = choose|k: int| 0 <= k < ids@.len() && (#[trigger] ids@[k])@ == id;
                    assert(entries@[k].track_id@ == id);
                }
            }
            assert forall|a: int, b: int| 0 <= a < b < entries@.len() implies (#[trigger] entries@[a]).track_id@
                != (#[trigger] entries@[b]).track_id@ by {
                assert(ids@[a]@ != ids@[b]@);
            }
        }
        Ok(entries)
    }
}

} // verus!
