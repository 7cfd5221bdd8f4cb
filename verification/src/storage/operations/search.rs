//! Searching the paths of the catalog.

use vstd::prelude::*;
use crate::domain::hash::{hex_decode, is_identity_text, TrackId};
use crate::storage::catalog::{decoded, Row, rows_of};
use crate::storage::fs::Place;
use crate::storage::operations::Storage;
use crate::text::{contains_chars, contains_text, normalize, normalized};

verus! {

/// A search for `query` finds the row: the normalized path holds the
/// normalized query, and the row carries the textual form of an identity.
pub open spec fn is_found(row: Row, query: Seq<char>) -> bool {
    contains_text(normalized(row.1), normalized(query)) && is_identity_text(row.0)
}

/// The rows that a search for `query` finds, in their order.
pub open spec fn found_rows(files: Seq<Row>, query: Seq<char>) -> Seq<Row> {
    files.filter(|row: Row| is_found(row, query))
}

/// A list of identities with paths, as locations.
pub open spec fn places(items: Seq<(TrackId, String)>) -> Seq<Place> {
    items.map_values(|t: (TrackId, String)| (t.0@, t.1@))
}

impl Storage {
    /// Searches the paths of the catalog for `query`.
    ///
    /// A row is found when its path holds the query, both taken in lower
    /// case and without spaces, hyphens, underscores and full stops. The rows
    /// found are returned in their order, with their identities read. A row
    /// whose identity cannot be read is passed over.
    pub fn find_files(&self, query: &str) -> (found: Vec<(TrackId, String)>)
        ensures
            places(found@) == decoded(found_rows(self@.files, query@)),
    {
        let ghost rows = rows_of(self.files@);
        let wanted = normalize(query);
        let mut found: Vec<(TrackId, String)> = Vec::new();
        let mut i: usize = 0;
        proof {
            lemma_found_rows_empty(rows, query@);
            assert(places(found@) =~= decoded(Seq::<Row>::empty()));
        }
        while i < self.files.len()
            invariant
                i <= self.files.len(),
                rows == rows_of(self.files@),
                wanted@ == normalized(query@),
                places(found@) == decoded(found_rows(rows.take(i as int), query@)),
            decreases self.files.len() - i,
        {
            let row = &self.files[i];
            proof {
                lemma_found_rows_step(rows, query@, i as int);
                assert(rows[i as int] == row@);
            }
            let path = normalize(row.path.as_str());
            if contains_chars(&path, &wanted) {
                match TrackId::from_hex(row.track_id.as_str()) {
                    Ok(id) => {
                        let ghost before = places(found@);
                        found.push((id, row.path.clone()));
                        proof {
                            let earlier = found_rows(rows.take(i as int), query@);
                            assert(places(found@) =~= before.push((id@, row.path@)));
                            assert(decoded(earlier.push(rows[i as int])) =~= decoded(earlier).push(
                                (hex_decode(rows[i as int].0), rows[i as int].1),
                            ));
                        }
                    },
                    Err(_) => {},
                }
            }
            i += 1;
        }
        proof {
            assert(rows.take(rows.len() as int) =~= rows);
        }
        found
    }
}

/// A search of no rows finds none.
pub proof fn lemma_found_rows_empty(files: Seq<Row>, query: Seq<char>)
    ensures
        found_rows(files.take(0), query) == Seq::<Row>::empty(),
{
    reveal(Seq::filter);
    assert(files.take(0) =~= Seq::<Row>::empty());
}

/// One row more is found or is not, and changes nothing else.
pub proof fn lemma_found_rows_step(files: Seq<Row>, query: Seq<char>, i: int)
    requires
        0 <= i < files.len(),
    ensures
        found_rows(files.take(i + 1), query) == if is_found(files[i], query) {
            found_rows(files.take(i), query).push(files[i])
        } else {
            found_rows(files.take(i), query)
        },
{
    reveal(Seq::filter);
    let more = files.take(i + 1);
    assert(more.drop_last() =~= files.take(i));
    assert(more.last() == files[i]);
}

} // verus!
