//! Forgetting a subtree.

use vstd::prelude::*;
use crate::path::{is_under, lies_under};
use crate::sequences::{lemma_filter_empty, lemma_filter_keeps_distinct, lemma_filter_step};
use crate::storage::catalog::{
    contains_track, distinct_metadata, FileRow, has_metadata, has_track, metadata_index,
    metadata_map, MetadataRow, Row, rows_of,
};
use crate::storage::operations::Storage;
use crate::text::{chars_of, contains_string, distinct_texts, text_set};

verus! {

/// The rows that forgetting `subtree` removes: those whose path is `subtree`
/// or lies below it.
pub open spec fn forgotten(files: Seq<Row>, subtree: Seq<char>) -> Seq<Row> {
    files.filter(|r: Row| is_under(r.1, subtree))
}

/// The rows that forgetting `subtree` leaves.
pub open spec fn remembered(files: Seq<Row>, subtree: Seq<char>) -> Seq<Row> {
    files.filter(|r: Row| !is_under(r.1, subtree))
}

/// The identities that `rows` are about.
pub open spec fn track_ids(rows: Seq<Row>) -> Set<Seq<char>> {
    Set::new(|id: Seq<char>| has_track(rows, id))
}

/// What a forgetting did.
#[derive(Debug, Clone, Copy, PartialEq, Eq, Structural)]
pub struct ForgetReport {
    /// Locations removed.
    pub removed_files: usize,
    /// Tracks that lost a location.
    pub affected_tracks: usize,
    /// Tracks that lost their last location, and are gone.
    pub removed_tracks: usize,
}

/// `row` stands in `rows` in front of position `upto`.
spec fn occurs_before(rows: Seq<Row>, upto: int, row: Row) -> bool {
    exists|m: int| 0 <= m < upto && rows[m] == row
}

/// `row` has identity and content of a row that stands in `rows` in front
/// of position `upto`.
spec fn copied_before(rows: Seq<MetadataRow>, upto: int, row: MetadataRow) -> bool {
    exists|q: int|
        0 <= q < upto && rows[q].track_id@ == row.track_id@ && rows[q].metadata@ == row.metadata@
}

impl Storage {
    /// Forgets every location that is `subtree` or lies below it.
    ///
    /// The other locations stay, in their order. A track that loses its last
    /// location is gone, and its metadata with it. One entry is added to the
    /// ledger, with the time `now`. The report counts the locations removed,
    /// the tracks that lost a location, and those of them that are gone.
    pub fn forget_path(&mut self, subtree: &str, now: i64) -> (report: ForgetReport)
        ensures
            final(self)@.files == remembered(old(self)@.files, subtree@),
            final(self)@.metadata == old(self)@.metadata.restrict(track_ids(final(self)@.files)),
            final(self)@.updates == old(self)@.updates.push(now),
            final(self)@.wf(),
            final(self).spec_source() == old(self).spec_source(),
            report.removed_files == forgotten(old(self)@.files, subtree@).len(),
            track_ids(forgotten(old(self)@.files, subtree@)).finite(),
            report.affected_tracks == track_ids(forgotten(old(self)@.files, subtree@)).len(),
            report.removed_tracks == track_ids(forgotten(old(self)@.files, subtree@)).difference(
                track_ids(final(self)@.files),
            ).len(),
    {
        proof {
            use_type_invariant(&*self);
        }
        let ghost rows0 = rows_of(self.files@);
        let ghost meta0 = self.metadata@;
        let ghost under = |r: Row| is_under(r.1, subtree@);
        let ghost apart = |r: Row| !is_under(r.1, subtree@);
        let mut files: Vec<FileRow> = Vec::new();
        let mut metadata: Vec<MetadataRow> = Vec::new();
        let mut updates: Vec<i64> = Vec::new();
        core::mem::swap(&mut self.metadata, &mut metadata);
        core::mem::swap(&mut self.files, &mut files);
        core::mem::swap(&mut self.updates, &mut updates);
        let target = chars_of(subtree);

        // Part the rows, and note which tracks lose one.
        let mut kept: Vec<FileRow> = Vec::new();
        let mut affected: Vec<String> = Vec::new();
        let mut removed_files: usize = 0;
        let ghost given = files@;
        let count = files.len();
        proof {
            lemma_filter_empty(rows0, under);
            lemma_filter_empty(rows0, apart);
            assert(rows_of(kept@) =~= Seq::<Row>::empty());
            assert(text_set(affected@) =~= track_ids(Seq::<Row>::empty()));
        }
        for row in it: files.into_iter()
            invariant
                it.seq() == given,
                given.len() == count,
                rows0 == rows_of(given),
                rows0.no_duplicates(),
                target@ == subtree@,
                under == |r: Row| is_under(r.1, subtree@),
                apart == |r: Row| !is_under(r.1, subtree@),
                rows_of(kept@) == rows0.take(it.index()).filter(apart),
                removed_files == rows0.take(it.index()).filter(under).len(),
                removed_files <= it.index(),
                distinct_texts(affected@),
                text_set(affected@) == track_ids(rows0.take(it.index()).filter(under)),
                forall|k: int|
                    0 <= k < kept@.len() ==> occurs_before(
                        rows0,
                        it.index(),
                        #[trigger] rows_of(kept@)[k],
                    ),
        {
            let ghost i = it.index();
            let path = chars_of(row.path.as_str());
            let gone = lies_under(&path, &target);
            proof {
                lemma_filter_step(rows0, under, i as int);
                lemma_filter_step(rows0, apart, i as int);
                assert(rows0[i as int] == row@);
                assert(gone == under(rows0[i as int]));
                assert(!gone == apart(rows0[i as int]));
            }
            if gone {
                removed_files += 1;
                let ghost before = rows0.take(i as int).filter(under);
                let ghost after = rows0.take(i + 1).filter(under);
                let ghost a0 = affected@;
                let known = contains_string(&affected, &row.track_id);
                if !known {
                    affected.push(row.track_id.clone());
                }
                proof {
                    assert(after == before.push(rows0[i as int]));
                    assert forall|id: Seq<char>| #[trigger]
                        text_set(affected@).contains(id) <==> has_track(after, id) by {
                        if has_track(after, id) {
                            let m = choose|m: int| 0 <= m < after.len() && (#[trigger] after[m]).0 == id;
                            if m < before.len() {
                                assert(before[m].0 == id);
                                assert(track_ids(before).contains(id));
                            }
                        }
                        if has_track(before, id) {
                            let m = choose|m: int| 0 <= m < before.len() && (#[trigger] before[m]).0 == id;
                            assert(after[m].0 == id);
                        }
                        if text_set(a0).contains(id) {
                            assert(track_ids(before).contains(id));
                            let k = choose|k: int| 0 <= k < a0.len() && (#[trigger] a0[k])@ == id;
                            assert(affected@[k]@ == id);
                        }
                        if text_set(affected@).contains(id) {
                            let k = choose|k: int|
                                0 <= k < affected@.len() && (#[trigger] affected@[k])@ == id;
                            if k < a0.len() {
                                assert(a0[k]@ == id);
                            } else {
                                assert(after[before.len() as int].0 == id);
                            }
                        }
                        if !known {
                            assert(affected@[a0.len() as int]@ == row.track_id@);
                        }
                        if id == row.track_id@ {
                            assert(after[before.len() as int].0 == id);
                        }
                    }
                    assert(text_set(affected@) =~= track_ids(after));
                }
            } else {
                let ghost k0 = rows_of(kept@);
                kept.push(row);
                proof {
                    assert(rows_of(kept@) =~= k0.push(rows0[i as int]));
                    assert forall|k: int| 0 <= k < kept@.len() implies occurs_before(
                        rows0,
                        i + 1,
                        #[trigger] rows_of(kept@)[k],
                    ) by {
                        if k < k0.len() {
                            assert(rows_of(kept@)[k] == k0[k]);
                            let m = choose|m: int| 0 <= m < i && rows0[m] == k0[k];
                            assert(rows0[m] == rows_of(kept@)[k]);
                        } else {
                            assert(rows0[i as int] == rows_of(kept@)[k]);
                        }
                    }
                }
            }
        }
        let ghost gone_rows = forgotten(rows0, subtree@);
        let ghost left_rows = remembered(rows0, subtree@);
        proof {
            assert(rows0.take(rows0.len() as int) =~= rows0);
            assert(rows_of(kept@) == left_rows);
            assert(left_rows.no_duplicates()) by {
                assert forall|a: int, b: int|
                    0 <= a < left_rows.len() && 0 <= b < left_rows.len() && a != b implies left_rows[a]
                    != left_rows[b] by {
                    lemma_filter_keeps_distinct(rows0, apart, a, b);
                }
            }
        }

        // Count the tracks that have no location left.
        let mut removed_tracks: usize = 0;
        let ghost mut lost: Seq<Seq<char>> = Seq::empty();
        let mut j: usize = 0;
        while j < affected.len()
            invariant
                j <= affected.len(),
                distinct_texts(affected@),
                rows_of(kept@) == left_rows,
                removed_tracks == lost.len(),
                removed_tracks <= j,
                lost.no_duplicates(),
                forall|id: Seq<char>| #[trigger]
                    lost.contains(id) <==> text_set(affected@.take(j as int)).contains(id) && !has_track(
                        left_rows,
                        id,
                    ),
            decreases affected.len() - j,
        {
            let id = &affected[j];
            let stays = contains_track(&kept, id);
            let ghost lost0 = lost;
            if !stays {
                removed_tracks += 1;
                proof {
                    assert(!lost0.contains(id@)) by {
                        if text_set(affected@.take(j as int)).contains(id@) {
                            let k = choose|k: int|
                                0 <= k < affected@.take(j as int).len() && (#[trigger] affected@.take(
                                    j as int,
                                )[k])@ == id@;
                            assert(affected@[k]@ == affected@[j as int]@);
                        }
                    }
                    lost = lost0.push(id@);
                    assert(lost[lost0.len() as int] == id@);
                }
            }
            proof {
                let t0 = affected@.take(j as int);
                let t1 = affected@.take(j + 1);
                assert(t1[j as int] == affected@[j as int]);
                assert forall|x: Seq<char>| #[trigger]
                    lost.contains(x) <==> text_set(t1).contains(x) && !has_track(left_rows, x) by {
                    if text_set(t1).contains(x) {
                        let k = choose|k: int| 0 <= k < t1.len() && (#[trigger] t1[k])@ == x;
                        if k < j {
                            assert(t0[k]@ == x);
                        }
                    }
                    if text_set(t0).contains(x) {
                        let k = choose|k: int| 0 <= k < t0.len() && (#[trigger] t0[k])@ == x;
                        assert(t1[k]@ == x);
                    }
                    if lost0.contains(x) {
                        let k = choose|k: int| 0 <= k < lost0.len() && lost0[k] == x;
                        assert(lost[k] == x);
                    }
                    if lost.contains(x) {
                        let k = choose|k: int| 0 <= k < lost.len() && lost[k] == x;
                        if k < lost0.len() {
                            assert(lost0[k] == x);
                        }
                    }
                }
            }
            j += 1;
        }

        // Metadata goes with its track.
        let mut new_metadata: Vec<MetadataRow> = Vec::new();
        for row in it: metadata.into_iter()
            invariant
                it.seq() == meta0,
                distinct_metadata(meta0),
                rows_of(kept@) == left_rows,
                distinct_metadata(new_metadata@),
                forall|k: int|
                    0 <= k < new_metadata@.len() ==> has_track(
                        left_rows,
                        (#[trigger] new_metadata@[k]).track_id@,
                    ) && copied_before(meta0, it.index(), new_metadata@[k]),
                forall|q: int|
                    0 <= q < it.index() && has_track(left_rows, (#[trigger] meta0[q]).track_id@)
                        ==> has_metadata(new_metadata@, meta0[q].track_id@),
        {
            let ghost m = it.index();
            let ghost n0 = new_metadata@;
            let stays = contains_track(&kept, &row.track_id);
            if stays {
                new_metadata.push(row);
                proof {
                    let added = new_metadata@[n0.len() as int];
                    assert(added.track_id@ == meta0[m as int].track_id@);
                    assert(added.metadata@ == meta0[m as int].metadata@);
                    assert forall|k: int| 0 <= k < n0.len() implies (#[trigger] n0[k]).track_id@
                        != added.track_id@ by {
                        let q = choose|q: int|
                            0 <= q < m && meta0[q].track_id@ == n0[k].track_id@ && meta0[q].metadata@
                                == n0[k].metadata@;
                        assert(meta0[q].track_id@ != meta0[m as int].track_id@);
                    }
                    assert forall|k: int| 0 <= k < new_metadata@.len() implies has_track(
                        left_rows,
                        (#[trigger] new_metadata@[k]).track_id@,
                    ) && copied_before(meta0, m + 1, new_metadata@[k]) by {
                        if k < n0.len() {
                            assert(new_metadata@[k] == n0[k]);
                            let q = choose|q: int|
                                0 <= q < m && meta0[q].track_id@ == n0[k].track_id@
                                    && meta0[q].metadata@ == n0[k].metadata@;
                            assert(meta0[q].track_id@ == new_metadata@[k].track_id@);
                        } else {
                            assert(meta0[m as int].track_id@ == new_metadata@[k].track_id@);
                        }
                    }
                }
            } else {
                proof {
                    assert forall|k: int| 0 <= k < new_metadata@.len() implies copied_before(
                        meta0,
                        m + 1,
                        #[trigger] new_metadata@[k],
                    ) by {
                        let q = choose|q: int|
                            0 <= q < m && meta0[q].track_id@ == n0[k].track_id@ && meta0[q].metadata@
                                == n0[k].metadata@;
                        assert(meta0[q].track_id@ == new_metadata@[k].track_id@);
                    }
                }
            }
            proof {
                assert forall|q: int|
                    0 <= q < m + 1 && has_track(left_rows, (#[trigger] meta0[q]).track_id@) implies has_metadata(
                    new_metadata@,
                    meta0[q].track_id@,
                ) by {
                    if q < m {
                        let k = choose|k: int|
                            0 <= k < n0.len() && (#[trigger] n0[k]).track_id@ == meta0[q].track_id@;
                        assert(new_metadata@[k].track_id@ == meta0[q].track_id@);
                    } else {
                        assert(new_metadata@[n0.len() as int].track_id@ == meta0[q].track_id@);
                    }
                }
            }
        }
        updates.push(now);
        proof {
            // the counts
            let affected_ids = affected@.map_values(|s: String| s@);
            assert(affected_ids.no_duplicates());
            affected_ids.unique_seq_to_set();
            assert(affected_ids.to_set() =~= track_ids(gone_rows)) by {
                assert forall|x: Seq<char>| affected_ids.to_set().contains(x) <==> track_ids(
                    gone_rows,
                ).contains(x) by {
                    if affected_ids.contains(x) {
                        let k = choose|k: int| 0 <= k < affected_ids.len() && affected_ids[k] == x;
                        assert(affected@[k]@ == x);
                        assert(text_set(affected@).contains(x));
                    }
                    if text_set(affected@).contains(x) {
                        let k = choose|k: int| 0 <= k < affected@.len() && (#[trigger] affected@[k])@ == x;
                        assert(affected_ids[k] == x);
                    }
                }
            }
            lost.unique_seq_to_set();
            assert(affected@.take(affected@.len() as int) =~= affected@);
            assert(lost.to_set() =~= track_ids(gone_rows).difference(track_ids(left_rows)));
            // the metadata
            let new_map = metadata_map(new_metadata@);
            let goal = metadata_map(meta0).restrict(track_ids(left_rows));
            assert forall|x: Seq<char>| #[trigger] new_map.dom().contains(x) <==> goal.dom().contains(
                x,
            ) by {
                if has_metadata(new_metadata@, x) {
                    let k = choose|k: int|
                        0 <= k < new_metadata@.len() && (#[trigger] new_metadata@[k]).track_id@ == x;
                    let q = choose|q: int|
                        0 <= q < meta0.len() && meta0[q].track_id@ == new_metadata@[k].track_id@
                            && meta0[q].metadata@ == new_metadata@[k].metadata@;
                    assert(has_metadata(meta0, x));
                }
                if has_metadata(meta0, x) && has_track(left_rows, x) {
                    let q = choose|q: int| 0 <= q < meta0.len() && (#[trigger] meta0[q]).track_id@ == x;
                    assert(has_metadata(new_metadata@, meta0[q].track_id@));
                }
            }
            assert forall|x: Seq<char>| #[trigger] new_map.dom().contains(x) implies new_map[x]
                == goal[x] by {
                let k = metadata_index(new_metadata@, x);
                let q = choose|q: int|
                    0 <= q < meta0.len() && meta0[q].track_id@ == new_metadata@[k].track_id@
                        && meta0[q].metadata@ == new_metadata@[k].metadata@;
                assert(metadata_index(meta0, x) == q) by {
                    let z = metadata_index(meta0, x);
                    assert(meta0[z].track_id@ == x);
                    if z != q {
                        if z < q {
                            assert(meta0[z].track_id@ != meta0[q].track_id@);
                        } else {
                            assert(meta0[q].track_id@ != meta0[z].track_id@);
                        }
                    }
                }
            }
            assert(new_map =~= goal);
        }
        self.files = kept;
        self.metadata = new_metadata;
        self.updates = updates;
        proof {
            self.lemma_wf();
        }
        ForgetReport { removed_files, affected_tracks: affected.len(), removed_tracks }
    }
}

/// What was forgotten is gone and nothing else: no row that is left lies
/// under the subtree, and every row that does not lie under it is left.
pub proof fn lemma_forgotten_and_remembered(files: Seq<Row>, subtree: Seq<char>)
    ensures
        forall|row: Row| #[trigger]
            remembered(files, subtree).contains(row) <==> files.contains(row) && !is_under(
                row.1,
                subtree,
            ),
        forall|row: Row| #[trigger]
            forgotten(files, subtree).contains(row) <==> files.contains(row) && is_under(
                row.1,
                subtree,
            ),
        remembered(files, subtree).len() + forgotten(files, subtree).len() == files.len(),
    decreases files.len(),
{
    reveal(Seq::filter);
    if files.len() > 0 {
        let rest = files.drop_last();
        let last = files.last();
        lemma_forgotten_and_remembered(rest, subtree);
        assert(files.drop_last() == rest);
        if is_under(last.1, subtree) {
            assert(forgotten(files, subtree).drop_last() =~= forgotten(rest, subtree));
            assert(remembered(files, subtree) == remembered(rest, subtree));
        } else {
            assert(remembered(files, subtree).drop_last() =~= remembered(rest, subtree));
            assert(forgotten(files, subtree) == forgotten(rest, subtree));
        }
        assert forall|row: Row| #[trigger]
            remembered(files, subtree).contains(row) <==> files.contains(row) && !is_under(
                row.1,
                subtree,
            ) by {
            lemma_contains_after_push(rest, files, row);
            lemma_contains_after_push(remembered(rest, subtree), remembered(files, subtree), row);
        }
        assert forall|row: Row| #[trigger]
            forgotten(files, subtree).contains(row) <==> files.contains(row) && is_under(
                row.1,
                subtree,
            ) by {
            lemma_contains_after_push(rest, files, row);
            lemma_contains_after_push(forgotten(rest, subtree), forgotten(files, subtree), row);
        }
    }
}

/// A sequence that is another one, or another one with one element more
/// at its end, contains what the other contains, and that element.
proof fn lemma_contains_after_push(before: Seq<Row>, after: Seq<Row>, row: Row)
    requires
        after == before || (after.len() > 0 && after.drop_last() == before),
    ensures
        after.contains(row) <==> before.contains(row) || (after != before && after.last() == row),
{
    if after.len() > 0 && after.drop_last() == before {
        if after.contains(row) {
            let k = choose|k: int| 0 <= k < after.len() && after[k] == row;
            if k < before.len() {
                assert(before[k] == row);
            }
        }
        if before.contains(row) {
            let k = choose|k: int| 0 <= k < before.len() && before[k] == row;
            assert(after[k] == row);
        }
        if after.last() == row {
            assert(after[after.len() - 1] == row);
        }
        if after == before {
            assert(after.len() == before.len());
        }
    }
}

} // verus!
