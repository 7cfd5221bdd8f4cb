//! The catalog and its operations.
//!
//! A `Storage` is the catalog as a value: the table of locations, the table
//! of metadata and the ledger of updates. Every operation is a transition of
//! that value; keeping it on disk, scanning directories and looking at files
//! is the caller's part, who hands in what was found.

use vstd::prelude::*;
use crate::config::LibrarySource;
use crate::domain::hash::{hex_decode, is_identity_text, TrackId};
use crate::domain::track::MetadataView;
use crate::storage::catalog::{
    decoded, distinct_metadata, has_track, latest, metadata_index, metadata_map, rows_of,
};
use crate::storage::error::StorageError;
use crate::storage::fs::{FsSnapshot, locations, ObservedFile};
use crate::storage::reconcile::diff_of;

pub mod forget;
pub mod ingest;
pub mod listing;
pub mod lookup;
pub mod metadata;
pub mod restore;
pub mod search;

pub use crate::storage::catalog::{CatalogView, FileRow, MetadataRow, Row};
pub use crate::storage::operations::forget::ForgetReport;
pub use crate::storage::operations::listing::TrackListEntry;
pub use crate::storage::operations::metadata::{MetadataUpdate, UpdateView};
pub use crate::storage::reconcile::{diff, DBSnapshot, Diff, DiffEntry, TrackChange};

verus! {

/// The catalog, with the library roots it is meant to be compared with.
#[derive(Debug)]
pub struct Storage {
    files: Vec<FileRow>,
    metadata: Vec<MetadataRow>,
    updates: Vec<i64>,
    source: LibrarySource,
}

impl View for Storage {
    type V = CatalogView;

    closed spec fn view(&self) -> CatalogView {
        CatalogView {
            files: rows_of(self.files@),
            metadata: metadata_map(self.metadata@),
            updates: self.updates@,
        }
    }
}

impl Storage {
    #[verifier::type_invariant]
    spec fn well_formed(&self) -> bool {
        &&& rows_of(self.files@).no_duplicates()
        &&& distinct_metadata(self.metadata@)
        &&& forall|i: int|
            0 <= i < self.metadata@.len() ==> has_track(
                rows_of(self.files@),
                (#[trigger] self.metadata@[i]).track_id@,
            )
    }

    /// The library roots this catalog is compared with.
    pub closed spec fn spec_source(&self) -> LibrarySource {
        self.source
    }

    /// An empty catalog for the given library roots.
    pub fn new(lib_config: LibrarySource) -> (s: Storage)
        ensures
            s@.files == Seq::<Row>::empty(),
            s@.metadata == Map::<Seq<char>, MetadataView>::empty(),
            s@.updates == Seq::<i64>::empty(),
            s@.wf(),
            s.spec_source() == lib_config,
    {
        let s = Storage {
            files: Vec::new(),
            metadata: Vec::new(),
            updates: Vec::new(),
            source: lib_config,
        };
        proof {
            assert(s@.files =~= Seq::<Row>::empty());
            assert(s@.metadata =~= Map::<Seq<char>, MetadataView>::empty());
        }
        s
    }

    /// The library roots this catalog is compared with.
    pub fn source(&self) -> (r: &LibrarySource)
        ensures
            *r == self.spec_source(),
    {
        &self.source
    }

    /// The table of locations.
    pub fn file_rows(&self) -> (r: &Vec<FileRow>)
        ensures
            rows_of(r@) == self@.files,
            self@.wf(),
    {
        proof {
            use_type_invariant(self);
            self.lemma_wf();
        }
        &self.files
    }

    /// The table of metadata.
    pub fn metadata_rows(&self) -> (r: &Vec<MetadataRow>)
        ensures
            metadata_map(r@) == self@.metadata,
            distinct_metadata(r@),
    {
        proof {
            use_type_invariant(self);
        }
        &self.metadata
    }

    /// The ledger of updates, oldest first.
    pub fn updates(&self) -> (r: &Vec<i64>)
        ensures
            r@ == self@.updates,
    {
        &self.updates
    }

    /// The invariant of the fields, said of the view.
    proof fn lemma_wf(&self)
        requires
            self.well_formed(),
        ensures
            self@.wf(),
    {
        assert forall|id: Seq<char>| #[trigger] self@.metadata.contains_key(id) implies has_track(
            self@.files,
            id,
        ) by {
            let i = metadata_index(self.metadata@, id);
            assert(has_track(rows_of(self.files@), self.metadata@[i].track_id@));
        }
    }

    /// When the catalog was last changed; 0 if it never was.
    pub fn updated_at(&self) -> (t: i64)
        ensures
            t == self@.updated_at(),
    {
        latest(&self.updates)
    }

    /// Reads the whole table of locations.
    ///
    /// Succeeds when every row carries the textual form of an identity, and
    /// then gives the rows in their order, each with its identity read. One
    /// row that does not is a fault of the catalog.
    pub fn scan_db(&self) -> (r: Result<DBSnapshot, StorageError>)
        ensures
            r is Ok <==> forall|i: int|
                0 <= i < self@.files.len() ==> is_identity_text((#[trigger] self@.files[i]).0),
            r matches Ok(snapshot) ==> locations(snapshot.files@) == decoded(self@.files)
                && snapshot.updated_at == self@.updated_at(),
            r matches Err(e) ==> e is Internal,
    {
        let mut files: Vec<ObservedFile> = Vec::new();
        let mut i: usize = 0;
        let ghost rows = self@.files;
        while i < self.files.len()
            invariant
                i <= self.files.len(),
                rows == rows_of(self.files@),
                rows == self@.files,
                forall|j: int| 0 <= j < i ==> is_identity_text((#[trigger] rows[j]).0),
                files@.len() == i,
                locations(files@) == decoded(rows.take(i as int)),
            decreases self.files.len() - i,
        {
            let row = &self.files[i];
            assert(rows[i as int] == row@);
            match TrackId::from_hex(row.track_id.as_str()) {
                Ok(id) => {
                    let ghost before = files@;
                    files.push(ObservedFile::new(id, row.path.clone()));
                    proof {
                        assert(files@[i as int]@ == (hex_decode(rows[i as int].0), rows[i as int].1));
                        assert forall|k: int| 0 <= k < i + 1 implies locations(files@)[k] == decoded(
                            rows.take(i + 1),
                        )[k] by {
                            if k < i {
                                assert(locations(before)[k] == decoded(rows.take(i as int))[k]);
                            }
                        }
                        assert(locations(files@) =~= decoded(rows.take(i + 1)));
                    }
                },
                Err(_) => {
                    assert(!is_identity_text(self@.files[i as int].0));
                    return Err(StorageError::Internal(String::from_str("Failed to parse track id")));
                },
            }
            i += 1;
        }
        proof {
            assert(rows.take(rows.len() as int) =~= rows);
        }
        Ok(DBSnapshot { updated_at: latest(&self.updates), files })
    }

    /// Compares the catalog with a snapshot of the file system.
    ///
    /// Gives back the snapshot, what the catalog holds, and the difference
    /// between the two. The catalog is not changed. Fails as `scan_db` does.
    pub fn status(&self, fs: FsSnapshot) -> (r: Result<(FsSnapshot, DBSnapshot, Diff), StorageError>)
        ensures
            r is Ok <==> forall|i: int|
                0 <= i < self@.files.len() ==> is_identity_text((#[trigger] self@.files[i]).0),
            r matches Ok((seen, db, d)) ==> {
                &&& seen == fs
                &&& locations(db.files@) == decoded(self@.files)
                &&& db.updated_at == self@.updated_at()
                &&& d@ == diff_of(locations(fs.files@), decoded(self@.files))
            },
            r matches Err(e) ==> e is Internal,
    {
        match self.scan_db() {
            Ok(db) => {
                let d = diff(&fs, &db);
                Ok((fs, db, d))
            },
            Err(e) => Err(e),
        }
    }
}

} // verus!
