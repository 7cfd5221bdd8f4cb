//! Bringing a catalog back from its tables.

use vstd::prelude::*;
use crate::config::LibrarySource;
use crate::storage::catalog::{
    CatalogView, contains_metadata, contains_row, contains_track, distinct_metadata, FileRow,
    has_metadata, has_track, insert_rows, metadata_index, metadata_map, MetadataRow, Row, rows_of,
};
use crate::storage::operations::Storage;

verus! {

/// Row `i` is the first of `rows` about identity `id`.
pub open spec fn first_about(rows: Seq<MetadataRow>, id: Seq<char>, i: int) -> bool {
    &&& 0 <= i < rows.len()
    &&& rows[i].track_id@ == id
    &&& forall|j: int| 0 <= j < i ==> (#[trigger] rows[j]).track_id@ != id
}

/// `row` has identity and content of the first row of `rows` about its
/// identity, which stands in front of position `upto`.
spec fn first_copied_before(rows: Seq<MetadataRow>, upto: int, row: MetadataRow) -> bool {
    exists|q: int| #[trigger]
        first_about(rows, row.track_id@, q) && q < upto && rows[q].metadata@ == row.metadata@
}

impl Storage {
    /// A catalog with the given tables, as they were kept somewhere.
    ///
    /// The rows are taken in their order. A location that occurs again is
    /// left out, as is metadata of a track without location and a second
    /// row of metadata for one track; so tables that a catalog gave out come
    /// back as they are.
    pub fn restore(
        files: Vec<FileRow>,
        metadata: Vec<MetadataRow>,
        updates: Vec<i64>,
        lib_config: LibrarySource,
    ) -> (s: Storage)
        ensures
            s@.files == insert_rows(Seq::<Row>::empty(), rows_of(files@)),
            forall|id: Seq<char>| #[trigger]
                s@.metadata.contains_key(id) <==> has_metadata(metadata@, id) && has_track(
                    s@.files,
                    id,
                ),
            forall|id: Seq<char>, i: int|
                s@.metadata.contains_key(id) && #[trigger] first_about(metadata@, id, i)
                    ==> s@.metadata[id] == metadata@[i].metadata@,
            s@.updates == updates@,
            s@.wf(),
            s.spec_source() == lib_config,
    {
        let ghost given = rows_of(files@);
        let ghost all_files = files@;
        let mut kept: Vec<FileRow> = Vec::new();
        assert(rows_of(kept@) =~= Seq::<Row>::empty());
        assert(given.take(0) =~= Seq::<Row>::empty());
        for row in it: files.into_iter()
            invariant
                it.seq() == all_files,
                given == rows_of(all_files),
                rows_of(kept@).no_duplicates(),
                rows_of(kept@) == insert_rows(Seq::<Row>::empty(), given.take(it.index())),
        {
            let ghost i = it.index();
            proof {
                assert(given.take(i + 1).drop_last() =~= given.take(i as int));
                assert(given.take(i + 1).last() == row@);
            }
            if !contains_row(&kept, &row.track_id, &row.path) {
                let ghost before = rows_of(kept@);
                kept.push(row);
                assert(rows_of(kept@) =~= before.push(given[i as int]));
            }
        }
        assert(given.take(given.len() as int) =~= given);
        let ghost rows = rows_of(kept@);
        let ghost all_metadata = metadata@;
        let mut data: Vec<MetadataRow> = Vec::new();
        for row in it: metadata.into_iter()
            invariant
                it.seq() == all_metadata,
                rows == rows_of(kept@),
                distinct_metadata(data@),
                forall|k: int|
                    0 <= k < data@.len() ==> has_track(rows, (#[trigger] data@[k]).track_id@)
                        && first_copied_before(all_metadata, it.index(), data@[k]),
                forall|q: int|
                    0 <= q < it.index() && has_track(rows, (#[trigger] all_metadata[q]).track_id@)
                        ==> has_metadata(data@, all_metadata[q].track_id@),
        {
            let ghost m = it.index();
            let ghost d0 = data@;
            let known = contains_metadata(&data, &row.track_id);
            if contains_track(&kept, &row.track_id) && !known {
                data.push(row);
                proof {
                    let added = data@[d0.len() as int];
                    assert(added.track_id@ == all_metadata[m as int].track_id@);
                    assert(first_about(all_metadata, added.track_id@, m as int)) by {
                        assert forall|j: int| 0 <= j < m implies (#[trigger] all_metadata[j]).track_id@
                            != added.track_id@ by {
                            if all_metadata[j].track_id@ == added.track_id@ {
                                assert(has_metadata(d0, all_metadata[j].track_id@));
                            }
                        }
                    }
                    assert forall|k: int| 0 <= k < data@.len() implies has_track(
                        rows,
                        (#[trigger] data@[k]).track_id@,
                    ) && first_copied_before(all_metadata, m + 1, data@[k]) by {
                        if k < d0.len() {
                            assert(data@[k] == d0[k]);
                            let q = choose|q: int| #[trigger]
                                first_about(all_metadata, d0[k].track_id@, q) && q < m
                                    && all_metadata[q].metadata@ == d0[k].metadata@;
                            assert(first_about(all_metadata, data@[k].track_id@, q));
                        } else {
                            assert(first_about(all_metadata, data@[k].track_id@, m as int));
                        }
                    }
                }
            } else {
                proof {
                    assert forall|k: int| 0 <= k < data@.len() implies first_copied_before(
                        all_metadata,
                        m + 1,
                        #[trigger] data@[k],
                    ) by {
                        let q = choose|q: int| #[trigger]
                            first_about(all_metadata, d0[k].track_id@, q) && q < m
                                && all_metadata[q].metadata@ == d0[k].metadata@;
                        assert(first_about(all_metadata, data@[k].track_id@, q));
                    }
                }
            }
            proof {
                assert forall|q: int|
                    0 <= q < m + 1 && has_track(rows, (#[trigger] all_metadata[q]).track_id@) implies has_metadata(
                    data@,
                    all_metadata[q].track_id@,
                ) by {
                    if has_metadata(d0, all_metadata[q].track_id@) {
                        let k = choose|k: int|
                            0 <= k < d0.len() && (#[trigger] d0[k]).track_id@ == all_metadata[q].track_id@;
                        assert(data@[k].track_id@ == all_metadata[q].track_id@);
                    } else {
                        assert(q == m);
                        assert(data@[d0.len() as int].track_id@ == all_metadata[q].track_id@);
                    }
                }
            }
        }
        let s = Storage { files: kept, metadata: data, updates, source: lib_config };
        proof {
            s.lemma_wf();
            assert forall|id: Seq<char>| #[trigger]
                s@.metadata.contains_key(id) <==> has_metadata(all_metadata, id) && has_track(
                    s@.files,
                    id,
                ) by {
                if has_metadata(data@, id) {
                    let k = choose|k: int| 0 <= k < data@.len() && (#[trigger] data@[k]).track_id@ == id;
                    let q = choose|q: int| #[trigger]
                        first_about(all_metadata, data@[k].track_id@, q) && q < all_metadata.len()
                            && all_metadata[q].metadata@ == data@[k].metadata@;
                    assert(all_metadata[q].track_id@ == id);
                }
                if has_metadata(all_metadata, id) && has_track(rows, id) {
                    let q = choose|q: int|
                        0 <= q < all_metadata.len() && (#[trigger] all_metadata[q]).track_id@ == id;
                    assert(has_metadata(data@, all_metadata[q].track_id@));
                }
            }
            assert forall|id: Seq<char>, i: int|
                s@.metadata.contains_key(id) && #[trigger] first_about(
                    all_metadata,
                    id,
                    i,
                ) implies s@.metadata[id] == all_metadata[i].metadata@ by {
                let k = metadata_index(data@, id);
                let q = choose|q: int| #[trigger]
                    first_about(all_metadata, data@[k].track_id@, q) && q < all_metadata.len()
                        && all_metadata[q].metadata@ == data@[k].metadata@;
                assert(q == i) by {
                    if q < i {
                        assert(all_metadata[q].track_id@ != id);
                    } else if i < q {
                        assert(all_metadata[i].track_id@ != id);
                    }
                }
            }
        }
        s
    }
}

/// Rows that are all different come back as they are.
pub proof fn lemma_distinct_rows_come_back(rows: Seq<Row>)
    requires
        rows.no_duplicates(),
    ensures
        insert_rows(Seq::<Row>::empty(), rows) == rows,
    decreases rows.len(),
{
    if rows.len() > 0 {
        let rest = rows.drop_last();
        assert(rest.no_duplicates()) by {
            assert forall|i: int, j: int| 0 <= i < rest.len() && 0 <= j < rest.len() && i != j implies rest[i]
                != rest[j] by {
                assert(rest[i] == rows[i] && rest[j] == rows[j]);
            }
        }
        lemma_distinct_rows_come_back(rest);
        assert(!rest.contains(rows.last())) by {
            if rest.contains(rows.last()) {
                let k = choose|k: int| 0 <= k < rest.len() && rest[k] == rows.last();
                assert(rows[k] == rows[rows.len() - 1]);
            }
        }
        assert(rest.push(rows.last()) =~= rows);
    } else {
        assert(rows =~= Seq::<Row>::empty());
    }
}

/// The tables of a catalog come back as the catalog they were: where the
/// locations are all different, the metadata is about different tracks, and
/// each of them has a location, what `restore` makes of the tables holds
/// exactly their rows.
pub proof fn lemma_restore_of_tables(
    files: Seq<FileRow>,
    metadata: Seq<MetadataRow>,
    restored: CatalogView,
)
    requires
        rows_of(files).no_duplicates(),
        distinct_metadata(metadata),
        forall|i: int|
            0 <= i < metadata.len() ==> has_track(rows_of(files), (#[trigger] metadata[i]).track_id@),
        restored.files == insert_rows(Seq::<Row>::empty(), rows_of(files)),
        forall|id: Seq<char>| #[trigger]
            restored.metadata.contains_key(id) <==> has_metadata(metadata, id) && has_track(
                restored.files,
                id,
            ),
        forall|id: Seq<char>, i: int|
            restored.metadata.contains_key(id) && #[trigger] first_about(metadata, id, i)
                ==> restored.metadata[id] == metadata[i].metadata@,
    ensures
        restored.files == rows_of(files),
        restored.metadata == metadata_map(metadata),
{
    lemma_distinct_rows_come_back(rows_of(files));
    assert forall|id: Seq<char>| #[trigger]
        restored.metadata.contains_key(id) <==> metadata_map(metadata).contains_key(id) by {
        if has_metadata(metadata, id) {
            let i = choose|i: int| 0 <= i < metadata.len() && (#[trigger] metadata[i]).track_id@ == id;
            assert(has_track(rows_of(files), metadata[i].track_id@));
        }
    }
    assert forall|id: Seq<char>| #[trigger]
        restored.metadata.contains_key(id) implies restored.metadata[id] == metadata_map(
        metadata,
    )[id] by {
        let i = metadata_index(metadata, id);
        assert(first_about(metadata, id, i)) by {
            assert forall|j: int| 0 <= j < i implies (#[trigger] metadata[j]).track_id@ != id by {
                assert(metadata[j].track_id@ != metadata[i].track_id@);
            }
        }
    }
    assert(restored.metadata =~= metadata_map(metadata));
}

} // verus!
