//! The catalog as mathematics: its tables, and what inserting into them
//! and reading from them means.

use vstd::prelude::*;
use crate::domain::hash::{hex_decode, hex_encode, TrackId};
use crate::domain::track::{MetadataView, TrackMetadata};
use crate::storage::fs::{ObservedFile, Place};

verus! {

/// A row of the table of locations, as mathematics: the text of an identity
/// and the text of a path.
pub type Row = (Seq<char>, Seq<char>);

/// A row of the table of locations.
#[derive(Debug)]
pub struct FileRow {
    /// The identity, in its textual form.
    pub track_id: String,
    pub path: String,
}

impl View for FileRow {
    type V = Row;

    open spec fn view(&self) -> Row {
        (self.track_id@, self.path@)
    }
}

/// A row of the table of metadata.
#[derive(Debug)]
pub struct MetadataRow {
    /// The identity, in its textual form.
    pub track_id: String,
    pub metadata: TrackMetadata,
}

/// The rows of a list of file rows.
pub open spec fn rows_of(files: Seq<FileRow>) -> Seq<Row> {
    files.map_values(|r: FileRow| r@)
}

/// Some row of `files` is about identity `id`.
pub open spec fn has_track(files: Seq<Row>, id: Seq<char>) -> bool {
    exists|i: int| 0 <= i < files.len() && (#[trigger] files[i]).0 == id
}

/// The paths that `files` holds for identity `id`, in the order of the rows.
pub open spec fn stored_paths(files: Seq<Row>, id: Seq<char>) -> Seq<Seq<char>> {
    files.filter(|r: Row| r.0 == id).map_values(|r: Row| r.1)
}

/// `files` after each row of `rows` was inserted in turn, a row that is
/// already there being left out.
pub open spec fn insert_rows(files: Seq<Row>, rows: Seq<Row>) -> Seq<Row>
    decreases rows.len(),
{
    if rows.len() == 0 {
        files
    } else {
        let before = insert_rows(files, rows.drop_last());
        if before.contains(rows.last()) {
            before
        } else {
            before.push(rows.last())
        }
    }
}

/// The rows that a list of locations stands for: identities in their
/// textual form.
pub open spec fn rows_for(items: Seq<(TrackId, String)>) -> Seq<Row> {
    items.map_values(|t: (TrackId, String)| (hex_encode(t.0@), t.1@))
}

/// The rows that a list of observed files stands for.
pub open spec fn rows_for_files(files: Seq<ObservedFile>) -> Seq<Row> {
    files.map_values(|f: ObservedFile| (hex_encode(f.track_id@), f.path@))
}

/// The locations that rows stand for, each identity read from its textual
/// form.
pub open spec fn decoded(rows: Seq<Row>) -> Seq<Place> {
    rows.map_values(|row: Row| (hex_decode(row.0), row.1))
}

/// Some row of `rows` is about identity `id`.
pub open spec fn has_metadata(rows: Seq<MetadataRow>, id: Seq<char>) -> bool {
    exists|i: int| 0 <= i < rows.len() && (#[trigger] rows[i]).track_id@ == id
}

/// The position of a row about identity `id`.
pub open spec fn metadata_index(rows: Seq<MetadataRow>, id: Seq<char>) -> int {
    choose|i: int| 0 <= i < rows.len() && (#[trigger] rows[i]).track_id@ == id
}

/// No two rows are about the same identity.
pub open spec fn distinct_metadata(rows: Seq<MetadataRow>) -> bool {
    forall|i: int, j: int|
        0 <= i < j < rows.len() ==> (#[trigger] rows[i]).track_id@ != (#[trigger] rows[j]).track_id@
}

/// The table of metadata as a map from identity texts.
pub open spec fn metadata_map(rows: Seq<MetadataRow>) -> Map<Seq<char>, MetadataView> {
    Map::new(
        |id: Seq<char>| has_metadata(rows, id),
        |id: Seq<char>| rows[metadata_index(rows, id)].metadata@,
    )
}

/// The latest entry of the ledger; 0 for an empty ledger.
pub open spec fn latest_update(updates: Seq<i64>) -> i64
    decreases updates.len(),
{
    if updates.len() == 0 {
        0
    } else if updates.len() == 1 {
        updates[0]
    } else {
        let rest = latest_update(updates.drop_last());
        if updates.last() > rest {
            updates.last()
        } else {
            rest
        }
    }
}

/// The catalog as mathematics.
pub struct CatalogView {
    /// The table of locations, in the order in which the rows came.
    pub files: Seq<Row>,
    /// The metadata of each identity that has some.
    pub metadata: Map<Seq<char>, MetadataView>,
    /// The ledger: the time of each change, oldest first.
    pub updates: Seq<i64>,
}

impl CatalogView {
    /// No location is recorded twice, and metadata is kept only for
    /// identities that have a location.
    pub open spec fn wf(self) -> bool {
        &&& self.files.no_duplicates()
        &&& forall|id: Seq<char>| #[trigger] self.metadata.contains_key(id) ==> has_track(self.files, id)
    }

    /// When the catalog was last changed.
    pub open spec fn updated_at(self) -> i64 {
        latest_update(self.updates)
    }

    /// The metadata of identity `id`, if it has some.
    pub open spec fn metadata_of(self, id: Seq<char>) -> Option<MetadataView> {
        if self.metadata.contains_key(id) {
            Some(self.metadata[id])
        } else {
            None
        }
    }
}

/// Whether `files` has the row `(id, path)`.
pub(crate) fn contains_row(files: &Vec<FileRow>, id: &String, path: &String) -> (r: bool)
    ensures
        r == rows_of(files@).contains((id@, path@)),
{
    let mut i: usize = 0;
    while i < files.len()
        invariant
            i <= files.len(),
            forall|j: int| 0 <= j < i ==> (#[trigger] rows_of(files@)[j]) != (id@, path@),
        decreases files.len() - i,
    {
        if files[i].track_id == *id && files[i].path == *path {
            assert(rows_of(files@)[i as int] == (id@, path@));
            return true;
        }
        i += 1;
    }
    false
}

/// Whether `files` has a row about identity `id`.
pub(crate) fn contains_track(files: &Vec<FileRow>, id: &String) -> (r: bool)
    ensures
        r == has_track(rows_of(files@), id@),
{
    let mut i: usize = 0;
    while i < files.len()
        invariant
            i <= files.len(),
            forall|j: int| 0 <= j < i ==> (#[trigger] rows_of(files@)[j]).0 != id@,
        decreases files.len() - i,
    {
        if files[i].track_id == *id {
            assert(rows_of(files@)[i as int].0 == id@);
            return true;
        }
        i += 1;
    }
    false
}

/// Whether `rows` has a row about identity `id`.
pub(crate) fn contains_metadata(rows: &Vec<MetadataRow>, id: &String) -> (r: bool)
    ensures
        r == has_metadata(rows@, id@),
{
    let mut i: usize = 0;
    while i < rows.len()
        invariant
            i <= rows.len(),
            forall|j: int| 0 <= j < i ==> (#[trigger] rows@[j]).track_id@ != id@,
        decreases rows.len() - i,
    {
        if rows[i].track_id == *id {
            return true;
        }
        i += 1;
    }
    false
}

/// The latest entry of a ledger.
pub(crate) fn latest(updates: &Vec<i64>) -> (r: i64)
    ensures
        r == latest_update(updates@),
{
    if updates.len() == 0 {
        return 0;
    }
    let mut best: i64 = updates[0];
    let mut i: usize = 1;
    assert(updates@.take(1).len() == 1);
    while i < updates.len()
        invariant
            1 <= i <= updates.len(),
            best == latest_update(updates@.take(i as int)),
        decreases updates.len() - i,
    {
        proof {
            assert(updates@.take(i + 1).drop_last() =~= updates@.take(i as int));
        }
        if updates[i] > best {
            best = updates[i];
        }
        i += 1;
    }
    assert(updates@.take(updates@.len() as int) =~= updates@);
    best
}

/// The time of the catalog does not go back: an entry for a time that is
/// not before the epoch leaves the catalog at that time or at a later one
/// than before.
pub proof fn lemma_updated_at_grows(updates: Seq<i64>, now: i64)
    requires
        now >= 0,
    ensures
        latest_update(updates.push(now)) >= latest_update(updates),
        latest_update(updates.push(now)) >= now,
{
    let more = updates.push(now);
    assert(more.drop_last() =~= updates);
    assert(more.last() == now);
}

/// Inserting what is there changes nothing: after a list of rows was
/// inserted, inserting it once more leaves the table as it is, so no
/// location is ever recorded twice.
pub proof fn lemma_insert_rows_idempotent(files: Seq<Row>, rows: Seq<Row>)
    ensures
        insert_rows(insert_rows(files, rows), rows) == insert_rows(files, rows),
{
    let once = insert_rows(files, rows);
    lemma_insert_rows_holds(files, rows);
    lemma_insert_present_rows(once, rows, rows.len() as int);
    assert(rows.take(rows.len() as int) =~= rows);
}

/// Inserting keeps a table free of duplicates: each location is recorded at
/// most once.
pub proof fn lemma_insert_rows_distinct(files: Seq<Row>, rows: Seq<Row>)
    requires
        files.no_duplicates(),
    ensures
        insert_rows(files, rows).no_duplicates(),
    decreases rows.len(),
{
    if rows.len() > 0 {
        lemma_insert_rows_distinct(files, rows.drop_last());
    }
}

/// After rows were inserted, the table holds each of them, and what it held
/// before.
pub proof fn lemma_insert_rows_holds(files: Seq<Row>, rows: Seq<Row>)
    ensures
        forall|i: int| 0 <= i < rows.len() ==> insert_rows(files, rows).contains(#[trigger] rows[i]),
        forall|i: int| 0 <= i < files.len() ==> insert_rows(files, rows).contains(#[trigger] files[i]),
    decreases rows.len(),
{
    if rows.len() == 0 {
        assert forall|i: int| 0 <= i < files.len() implies insert_rows(files, rows).contains(
            #[trigger] files[i],
        ) by {
            assert(insert_rows(files, rows)[i] == files[i]);
        }
    } else {
        let before = insert_rows(files, rows.drop_last());
        let after = insert_rows(files, rows);
        lemma_insert_rows_holds(files, rows.drop_last());
        assert forall|x: Row| before.contains(x) implies after.contains(x) by {
            let k = choose|k: int| 0 <= k < before.len() && before[k] == x;
            assert(after[k] == x);
        }
        assert(after.contains(rows.last())) by {
            if !before.contains(rows.last()) {
                assert(after[before.len() as int] == rows.last());
            }
        }
        assert forall|i: int| 0 <= i < rows.len() implies after.contains(#[trigger] rows[i]) by {
            if i < rows.len() - 1 {
                assert(rows.drop_last()[i] == rows[i]);
            }
        }
    }
}

/// Inserting rows that a table holds leaves the table as it is.
pub proof fn lemma_insert_present_rows(files: Seq<Row>, rows: Seq<Row>, n: int)
    requires
        0 <= n <= rows.len(),
        forall|i: int| 0 <= i < rows.len() ==> files.contains(#[trigger] rows[i]),
    ensures
        insert_rows(files, rows.take(n)) == files,
    decreases n,
{
    if n > 0 {
        lemma_insert_present_rows(files, rows, n - 1);
        assert(rows.take(n).drop_last() =~= rows.take(n - 1));
        assert(rows.take(n).last() == rows[n - 1]);
    }
}

/// No rows hold no paths.
pub proof fn lemma_stored_paths_empty(files: Seq<Row>, id: Seq<char>)
    ensures
        stored_paths(files.take(0), id) == Seq::<Seq<char>>::empty(),
{
    reveal(Seq::filter);
    assert(files.take(0) =~= Seq::<Row>::empty());
    assert(stored_paths(files.take(0), id) =~= Seq::<Seq<char>>::empty());
}

/// One row more adds its path to the paths of its identity, and to no
/// others.
pub proof fn lemma_stored_paths_step(files: Seq<Row>, id: Seq<char>, i: int)
    requires
        0 <= i < files.len(),
    ensures
        stored_paths(files.take(i + 1), id) == if files[i].0 == id {
            stored_paths(files.take(i), id).push(files[i].1)
        } else {
            stored_paths(files.take(i), id)
        },
{
    reveal(Seq::filter);
    let more = files.take(i + 1);
    assert(more.drop_last() =~= files.take(i));
    assert(more.last() == files[i]);
    if files[i].0 == id {
        assert(stored_paths(more, id) =~= stored_paths(files.take(i), id).push(files[i].1));
    } else {
        assert(stored_paths(more, id) =~= stored_paths(files.take(i), id));
    }
}

} // verus!
