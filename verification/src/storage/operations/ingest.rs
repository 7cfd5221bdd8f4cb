//! Taking locations into the catalog.

use vstd::prelude::*;
use crate::domain::hash::{hex_encode, is_identity_text, lemma_hex_round_trip, TrackId};
use crate::storage::catalog::{
    contains_row, decoded, FileRow, has_track, insert_rows, lemma_insert_rows_holds, MetadataRow,
    Row, rows_for, rows_for_files, rows_of,
};
use crate::storage::error::StorageError;
use crate::storage::fs::{FsSnapshot, locations, ObservedFile, Place};
use crate::storage::operations::Storage;
use crate::storage::reconcile::{
    ChangeView, Diff, diff_of, DiffEntry, distinct_entries, entries_map, entry_index, has_entry,
    paths_of,
};
use crate::text::{distinct_texts, text_set};

verus! {

/// `(id, path)` is a location that `diff` shows as gained.
pub open spec fn is_gained(diff: Map<Seq<u8>, ChangeView>, place: Place) -> bool {
    diff.contains_key(place.0) && diff[place.0].new_locations().contains(place.1)
}

/// One of the first `upto` entries shows `place` as gained.
spec fn gained_by(entries: Seq<DiffEntry>, upto: int, place: Place) -> bool {
    exists|e: int|
        0 <= e < upto && (#[trigger] entries[e]).id@ == place.0
            && entries[e].change@.new_locations().contains(place.1)
}

impl Storage {
    /// Records locations. A location that the catalog already has is left
    /// as it is; the others are appended in the order given. One entry is
    /// added to the ledger, with the time `now`.
    ///
    /// Returns the number of locations that were new.
    pub fn insert_tracks(&mut self, tracks_with_files: &Vec<(TrackId, String)>, now: i64) -> (inserted: usize)
        ensures
            final(self)@.files == insert_rows(old(self)@.files, rows_for(tracks_with_files@)),
            final(self)@.metadata == old(self)@.metadata,
            final(self)@.updates == old(self)@.updates.push(now),
            inserted == final(self)@.files.len() - old(self)@.files.len(),
            final(self)@.wf(),
            final(self).spec_source() == old(self).spec_source(),
    {
        proof {
            use_type_invariant(&*self);
        }
        let ghost files0 = rows_of(self.files@);
        let ghost items = rows_for(tracks_with_files@);
        let mut files: Vec<FileRow> = Vec::new();
        let mut metadata: Vec<MetadataRow> = Vec::new();
        let mut updates: Vec<i64> = Vec::new();
        core::mem::swap(&mut self.metadata, &mut metadata);
        core::mem::swap(&mut self.files, &mut files);
        core::mem::swap(&mut self.updates, &mut updates);
        let mut inserted: usize = 0;
        let mut i: usize = 0;
        while i < tracks_with_files.len()
            invariant
                i <= tracks_with_files.len(),
                items == rows_for(tracks_with_files@),
                rows_of(files@).no_duplicates(),
                forall|k: int|
                    0 <= k < metadata@.len() ==> has_track(
                        rows_of(files@),
                        (#[trigger] metadata@[k]).track_id@,
                    ),
                rows_of(files@) == insert_rows(files0, items.take(i as int)),
                rows_of(files@).len() == files0.len() + inserted,
                inserted <= i,
            decreases tracks_with_files.len() - i,
        {
            let id = tracks_with_files[i].0.to_hex();
            let path = &tracks_with_files[i].1;
            proof {
                assert(items.take(i + 1).drop_last() =~= items.take(i as int));
                assert(items.take(i + 1).last() == (id@, path@));
            }
            if !contains_row(&files, &id, path) {
                let ghost before = rows_of(files@);
                files.push(FileRow { track_id: id, path: path.clone() });
                proof {
                    assert(rows_of(files@) =~= before.push((id@, path@)));
                    assert forall|k: int| 0 <= k < metadata@.len() implies has_track(
                        rows_of(files@),
                        (#[trigger] metadata@[k]).track_id@,
                    ) by {
                        let m = choose|m: int|
                            0 <= m < before.len() && (#[trigger] before[m]).0 == metadata@[k].track_id@;
                        assert(rows_of(files@)[m].0 == metadata@[k].track_id@);
                    }
                }
                inserted += 1;
            }
            i += 1;
        }
        updates.push(now);
        self.files = files;
        self.metadata = metadata;
        self.updates = updates;
        proof {
            assert(items.take(items.len() as int) =~= items);
            self.lemma_wf();
        }
        inserted
    }

    /// Records every location that `diff` shows as gained, with one entry in
    /// the ledger for the time `observed_at`. Locations that `diff` shows as
    /// lost stay in the catalog.
    ///
    /// Returns the gained locations, each once.
    pub fn update_db_with_diff(&mut self, diff: &Diff, observed_at: i64) -> (new_files: Vec<ObservedFile>)
        ensures
            locations(new_files@).no_duplicates(),
            forall|place: Place| #[trigger]
                locations(new_files@).contains(place) <==> is_gained(diff@, place),
            final(self)@.files == insert_rows(old(self)@.files, rows_for_files(new_files@)),
            final(self)@.metadata == old(self)@.metadata,
            final(self)@.updates == old(self)@.updates.push(observed_at),
            final(self)@.wf(),
            final(self).spec_source() == old(self).spec_source(),
    {
        let entries = diff.entries();
        let mut new_files: Vec<ObservedFile> = Vec::new();
        let mut items: Vec<(TrackId, String)> = Vec::new();
        let mut i: usize = 0;
        while i < entries.len()
            invariant
                i <= entries.len(),
                distinct_entries(entries@),
                diff@ == entries_map(entries@),
                rows_for(items@) == rows_for_files(new_files@),
                locations(new_files@).no_duplicates(),
                forall|k: int|
                    0 <= k < new_files@.len() ==> gained_by(
                        entries@,
                        i as int,
                        #[trigger] locations(new_files@)[k],
                    ),
                forall|e: int, p: Seq<char>|
                    0 <= e < i && (#[trigger] entries@[e]).change@.new_locations().contains(p)
                        ==> #[trigger] locations(new_files@).contains((entries@[e].id@, p)),
            decreases entries.len() - i,
        {
            let entry = &entries[i];
            let gained = entry.change.new_locations();
            let ghost base = new_files@;
            let mut j: usize = 0;
            while j < gained.len()
                invariant
                    j <= gained.len(),
                    i < entries.len(),
                    entry == &entries@[i as int],
                    distinct_entries(entries@),
                    distinct_texts(gained@),
                    text_set(gained@) == entry.change@.new_locations(),
                    rows_for(items@) == rows_for_files(new_files@),
                    locations(new_files@).no_duplicates(),
                    new_files@.len() == base.len() + j,
                    forall|k: int| 0 <= k < base.len() ==> new_files@[k] == base[k],
                    forall|k: int|
                        0 <= k < j ==> (#[trigger] locations(new_files@)[base.len() + k]) == (
                            entry.id@,
                            gained@[k]@,
                        ),
                    forall|k: int|
                        0 <= k < base.len() ==> gained_by(
                            entries@,
                            i as int,
                            #[trigger] locations(base)[k],
                        ),
                decreases gained.len() - j,
            {
                let ghost f0 = new_files@;
                let ghost t0 = items@;
                new_files.push(ObservedFile::new(entry.id, gained[j].clone()));
                items.push((entry.id, gained[j].clone()));
                proof {
                    let added = (entry.id@, gained@[j as int]@);
                    assert(locations(new_files@) =~= locations(f0).push(added));
                    assert(rows_for(items@) =~= rows_for(t0).push(
                        (hex_encode(entry.id@), gained@[j as int]@),
                    ));
                    assert(rows_for_files(new_files@) =~= rows_for_files(f0).push(
                        (hex_encode(entry.id@), gained@[j as int]@),
                    ));
                    assert forall|a: int, b: int|
                        0 <= a < b < new_files@.len() implies locations(new_files@)[a] != locations(
                        new_files@,
                    )[b] by {
                        if b < f0.len() {
                            assert(locations(f0)[a] != locations(f0)[b]);
                        } else if a < base.len() {
                            assert(locations(new_files@)[a] == locations(base)[a]);
                            let place = locations(base)[a];
                            let e = choose|e: int|
                                0 <= e < i && (#[trigger] entries@[e]).id@ == place.0
                                    && entries@[e].change@.new_locations().contains(place.1);
                            assert(entries@[e].id@ != entries@[i as int].id@);
                        } else {
                            let k = a - base.len();
                            assert(locations(new_files@)[base.len() + k] == (entry.id@, gained@[k]@));
                            assert(gained@[k]@ != gained@[j as int]@);
                        }
                    }
                    assert forall|k: int| 0 <= k < j + 1 implies (#[trigger] locations(
                        new_files@,
                    )[base.len() + k]) == (entry.id@, gained@[k]@) by {
                        if k < j {
                            assert(locations(new_files@)[base.len() + k] == locations(f0)[base.len()
                                + k]);
                        }
                    }
                }
                j += 1;
            }
            proof {
                assert forall|k: int| 0 <= k < new_files@.len() implies gained_by(
                    entries@,
                    i + 1,
                    #[trigger] locations(new_files@)[k],
                ) by {
                    if k < base.len() {
                        assert(locations(new_files@)[k] == locations(base)[k]);
                        let place = locations(base)[k];
                        let e = choose|e: int|
                            0 <= e < i && (#[trigger] entries@[e]).id@ == place.0
                                && entries@[e].change@.new_locations().contains(place.1);
                        assert(entries@[e].id@ == locations(new_files@)[k].0);
                    } else {
                        let q = k - base.len();
                        assert(locations(new_files@)[base.len() + q] == (entry.id@, gained@[q]@));
                        assert(text_set(gained@).contains(gained@[q]@));
                        assert(entries@[i as int].id@ == locations(new_files@)[k].0);
                    }
                }
                assert forall|e: int, p: Seq<char>|
                    0 <= e < i + 1 && (#[trigger] entries@[e]).change@.new_locations().contains(
                        p,
                    ) implies #[trigger] locations(new_files@).contains((entries@[e].id@, p)) by {
                    if e < i {
                        assert(locations(base).contains((entries@[e].id@, p)));
                        let k = choose|k: int|
                            0 <= k < base.len() && locations(base)[k] == (entries@[e].id@, p);
                        assert(locations(new_files@)[k] == (entries@[e].id@, p));
                    } else {
                        assert(text_set(gained@).contains(p));
                        let q = choose|q: int| 0 <= q < gained@.len() && (#[trigger] gained@[q])@ == p;
                        assert(locations(new_files@)[base.len() + q] == (entry.id@, gained@[q]@));
                    }
                }
            }
            i += 1;
        }
        proof {
            assert forall|place: Place| #[trigger]
                locations(new_files@).contains(place) <==> is_gained(diff@, place) by {
                if locations(new_files@).contains(place) {
                    let k = choose|k: int|
                        0 <= k < new_files@.len() && locations(new_files@)[k] == place;
                    assert(gained_by(entries@, entries@.len() as int, locations(new_files@)[k]));
                    let e = choose|e: int|
                        0 <= e < entries@.len() && (#[trigger] entries@[e]).id@ == place.0
                            && entries@[e].change@.new_locations().contains(place.1);
                    assert(has_entry(entries@, place.0));
                    let z = entry_index(entries@, place.0);
                    assert(z == e) by {
                        if z < e {
                            assert(entries@[z].id@ != entries@[e].id@);
                        } else if e < z {
                            assert(entries@[e].id@ != entries@[z].id@);
                        }
                    }
                }
                if is_gained(diff@, place) {
                    let z = entry_index(entries@, place.0);
                    assert(entries@[z].change@.new_locations().contains(place.1));
                    assert(locations(new_files@).contains((entries@[z].id@, place.1)));
                }
            }
        }
        self.insert_tracks(&items, observed_at);
        new_files
    }

    /// Takes into the catalog what a snapshot of the file system shows as
    /// new.
    ///
    /// The snapshot is compared with the catalog, and every location that
    /// the file system has and the catalog lacks is recorded, with one entry
    /// in the ledger for the time of the snapshot. Locations that have
    /// vanished from the file system stay in the catalog. Returns the
    /// locations recorded. Where the catalog cannot be read, nothing is
    /// changed.
    pub fn update_db_with_new_files(&mut self, fs: FsSnapshot) -> (r: Result<
        Vec<ObservedFile>,
        StorageError,
    >)
        ensures
            r is Ok <==> forall|i: int|
                0 <= i < old(self)@.files.len() ==> is_identity_text(
                    (#[trigger] old(self)@.files[i]).0,
                ),
            r matches Ok(new_files) ==> {
                &&& locations(new_files@).no_duplicates()
                &&& forall|place: Place| #[trigger]
                    locations(new_files@).contains(place) <==> is_gained(
                        diff_of(locations(fs.files@), decoded(old(self)@.files)),
                        place,
                    )
                &&& final(self)@.files == insert_rows(old(self)@.files, rows_for_files(new_files@))
                &&& final(self)@.metadata == old(self)@.metadata
                &&& final(self)@.updates == old(self)@.updates.push(fs.observed_at)
            },
            r matches Err(e) ==> e is Internal && final(self)@ == old(self)@,
            final(self).spec_source() == old(self).spec_source(),
    {
        let status = self.status(fs);
        match status {
            Ok((seen, _, d)) => Ok(self.update_db_with_diff(&d, seen.observed_at)),
            Err(e) => Err(e),
        }
    }
}

/// Taking in what is new settles the catalog: once the locations that a
/// snapshot of the file system shows as gained are recorded, the same
/// snapshot shows nothing as gained.
pub proof fn lemma_update_converges(
    fs: Seq<ObservedFile>,
    files: Seq<Row>,
    new_files: Seq<ObservedFile>,
)
    requires
        forall|place: Place| #[trigger]
            locations(new_files).contains(place) <==> is_gained(
                diff_of(locations(fs), decoded(files)),
                place,
            ),
    ensures
        forall|place: Place|
            !is_gained(
                diff_of(locations(fs), decoded(insert_rows(files, rows_for_files(new_files)))),
                place,
            ),
{
    let before = decoded(files);
    let later = insert_rows(files, rows_for_files(new_files));
    let after = decoded(later);
    lemma_insert_rows_holds(files, rows_for_files(new_files));
    assert forall|place: Place| !is_gained(diff_of(locations(fs), after), place) by {
        let (id, p) = place;
        if is_gained(diff_of(locations(fs), after), place) {
            assert(paths_of(locations(fs), id).contains(p));
            assert(!paths_of(after, id).contains(p));
            let k = choose|k: int| 0 <= k < fs.len() && locations(fs)[k] == place;
            assert(fs[k].track_id@ == id);
            assert(id.len() == 32);
            if before.contains(place) {
                let j = choose|j: int| 0 <= j < before.len() && before[j] == place;
                assert(later.contains(files[j]));
                let m = choose|m: int| 0 <= m < later.len() && later[m] == files[j];
                assert(after[m] == place);
            } else {
                assert(!paths_of(before, id).contains(p));
                assert(paths_of(locations(fs), id) != paths_of(before, id));
                assert(is_gained(diff_of(locations(fs), before), place));
                assert(locations(new_files).contains(place));
                let j = choose|j: int| 0 <= j < new_files.len() && locations(new_files)[j] == place;
                let row = rows_for_files(new_files)[j];
                assert(row == (hex_encode(id), p));
                assert(later.contains(row));
                let m = choose|m: int| 0 <= m < later.len() && later[m] == row;
                lemma_hex_round_trip(id);
                assert(after[m] == place);
            }
        }
    }
}

} // verus!
