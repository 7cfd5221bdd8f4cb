//! Changing the metadata of a track.

use vstd::prelude::*;
use crate::domain::hash::{hex_encode, TrackId};
use crate::domain::track::{
    ArtworkRef, clone_opt_artwork, clone_opt_string, MetadataView, opt_artwork, opt_text,
    TrackMetadata,
};
use crate::storage::catalog::{
    contains_track, distinct_metadata, has_metadata, has_track, metadata_index, metadata_map,
    MetadataRow, rows_of,
};
use crate::storage::error::StorageError;
use crate::storage::operations::Storage;

verus! {

/// A change to the metadata of a track: a value for each field that is to
/// be set.
#[derive(Debug)]
pub struct MetadataUpdate {
    pub title: Option<String>,
    pub artist: Option<String>,
    pub year: Option<u32>,
    pub label: Option<String>,
    pub artwork: Option<ArtworkRef>,
}

/// The mathematical content of a `MetadataUpdate`.
pub struct UpdateView {
    pub title: Option<Seq<char>>,
    pub artist: Option<Seq<char>>,
    pub year: Option<u32>,
    pub label: Option<Seq<char>>,
    pub artwork: Option<Seq<char>>,
}

impl View for MetadataUpdate {
    type V = UpdateView;

    open spec fn view(&self) -> UpdateView {
        UpdateView {
            title: opt_text(self.title),
            artist: opt_text(self.artist),
            year: self.year,
            label: opt_text(self.label),
            artwork: opt_artwork(self.artwork),
        }
    }
}

impl UpdateView {
    /// The update names no field.
    pub open spec fn is_empty(self) -> bool {
        self.title is None && self.artist is None && self.year is None && self.label is None
            && self.artwork is None
    }
}

impl MetadataUpdate {
    /// Whether the update names no field: it asks for nothing to be changed.
    pub fn is_empty(&self) -> (r: bool)
        ensures
            r == self@.is_empty(),
    {
        self.title.is_none() && self.artist.is_none() && self.year.is_none() && self.label.is_none()
            && self.artwork.is_none()
    }
}

/// The value of one field after an update: the given value where there is
/// one and the field is empty or may be overwritten, else the value held.
pub open spec fn pick<T>(held: Option<T>, given: Option<T>, overwrite: bool) -> Option<T> {
    match given {
        None => held,
        Some(_) => if overwrite || held is None {
            given
        } else {
            held
        },
    }
}

/// The metadata of a track after an update, field by field. A track
/// without metadata gets some only where the update names both title and
/// artist; otherwise the update is refused, which is `None`.
pub open spec fn merged(held: Option<MetadataView>, update: UpdateView, overwrite: bool) -> Option<
    MetadataView,
> {
    match held {
        Some(m) => Some(
            MetadataView {
                artist: pick(Some(m.artist), update.artist, overwrite).unwrap(),
                title: pick(Some(m.title), update.title, overwrite).unwrap(),
                year: pick(m.year, update.year, overwrite),
                label: pick(m.label, update.label, overwrite),
                artwork: pick(m.artwork, update.artwork, overwrite),
            },
        ),
        None => if update.title is Some && update.artist is Some {
            Some(
                MetadataView {
                    artist: update.artist.unwrap(),
                    title: update.title.unwrap(),
                    year: update.year,
                    label: update.label,
                    artwork: update.artwork,
                },
            )
        } else {
            None
        },
    }
}

impl Storage {
    /// Changes the metadata of a track, with one entry in the ledger for
    /// the time `now`.
    ///
    /// Each field that the update names is set where the track has no value
    /// for it, or where `overwrite` is given; a field that has a value stays
    /// as it is otherwise, and the other fields are still set. A track that
    /// the catalog does not hold is not found. A track without metadata
    /// needs both title and artist; an update without them is refused as a
    /// fault of the store. Where the update fails nothing is changed.
    pub fn update_track_metadata(
        &mut self,
        track_id: TrackId,
        update: MetadataUpdate,
        overwrite: bool,
        now: i64,
    ) -> (r: Result<(), StorageError>)
        ensures
            ({
                let hex = hex_encode(track_id@);
                let result = merged(old(self)@.metadata_of(hex), update@, overwrite);
                match r {
                    Ok(_) => {
                        &&& has_track(old(self)@.files, hex)
                        &&& result is Some
                        &&& final(self)@.metadata == old(self)@.metadata.insert(hex, result.unwrap())
                        &&& final(self)@.files == old(self)@.files
                        &&& final(self)@.updates == old(self)@.updates.push(now)
                    },
                    Err(StorageError::TrackNotFound(id)) => {
                        &&& id == track_id
                        &&& !has_track(old(self)@.files, hex)
                        &&& final(self)@ == old(self)@
                    },
                    Err(StorageError::Database(_)) => {
                        &&& has_track(old(self)@.files, hex)
                        &&& result is None
                        &&& final(self)@ == old(self)@
                    },
                    Err(_) => false,
                }
            }),
            final(self)@.wf(),
            final(self).spec_source() == old(self).spec_source(),
    {
        proof {
            use_type_invariant(&*self);
            self.lemma_wf();
        }
        let hex = track_id.to_hex();
        if !contains_track(&self.files, &hex) {
            return Err(StorageError::TrackNotFound(track_id));
        }
        let ghost meta0 = self.metadata@;
        // where the track's metadata stands, if it has some
        let mut at: Option<usize> = None;
        let mut i: usize = 0;
        while i < self.metadata.len()
            invariant
                i <= self.metadata.len(),
                self.metadata@ == meta0,
                distinct_metadata(meta0),
                match at {
                    Some(k) => k < i && meta0[k as int].track_id@ == hex@,
                    None => forall|j: int| 0 <= j < i ==> (#[trigger] meta0[j]).track_id@ != hex@,
                },
            decreases self.metadata.len() - i,
        {
            if self.metadata[i].track_id == hex {
                at = Some(i);
            }
            i += 1;
        }
        let MetadataUpdate { title, artist, year, label, artwork } = update;
        let ghost result = merged(self@.metadata_of(hex@), update@, overwrite);
        let new_data = match at {
            Some(k) => {
                proof {
                    assert(has_metadata(meta0, hex@));
                    assert(metadata_index(meta0, hex@) == k) by {
                        let z = metadata_index(meta0, hex@);
                        if z < k {
                            assert(meta0[z].track_id@ != meta0[k as int].track_id@);
                        } else if k < z {
                            assert(meta0[k as int].track_id@ != meta0[z].track_id@);
                        }
                    }
                }
                let held = &self.metadata[k].metadata;
                TrackMetadata {
                    artist: match artist {
                        Some(a) => if overwrite {
                            a
                        } else {
                            held.artist.clone()
                        },
                        None => held.artist.clone(),
                    },
                    title: match title {
                        Some(t) => if overwrite {
                            t
                        } else {
                            held.title.clone()
                        },
                        None => held.title.clone(),
                    },
                    year: match year {
                        Some(y) => if overwrite || held.year.is_none() {
                            Some(y)
                        } else {
                            held.year
                        },
                        None => held.year,
                    },
                    label: match label {
                        Some(l) => if overwrite || held.label.is_none() {
                            Some(l)
                        } else {
                            clone_opt_string(&held.label)
                        },
                        None => clone_opt_string(&held.label),
                    },
                    artwork: match artwork {
                        Some(a) => if overwrite || held.artwork.is_none() {
                            Some(a)
                        } else {
                            clone_opt_artwork(&held.artwork)
                        },
                        None => clone_opt_artwork(&held.artwork),
                    },
                }
            },
            None => {
                proof {
                    assert(!has_metadata(meta0, hex@));
                }
                match (title, artist) {
                    (Some(t), Some(a)) => TrackMetadata { artist: a, title: t, year, label, artwork },
                    _ => {
                        return Err(
                            StorageError::Database(
                                String::from_str("metadata needs a title and an artist"),
                            ),
                        );
                    },
                }
            },
        };
        assert(result == Some(new_data@));
        let mut metadata: Vec<MetadataRow> = Vec::new();
        let mut updates: Vec<i64> = Vec::new();
        core::mem::swap(&mut self.metadata, &mut metadata);
        core::mem::swap(&mut self.updates, &mut updates);
        match at {
            Some(k) => {
                let _ = metadata.remove(k);
            },
            None => {},
        }
        let ghost others = metadata@;
        metadata.push(MetadataRow { track_id: hex, metadata: new_data });
        updates.push(now);
        proof {
            let after = metadata@;
            let added = after[others.len() as int];
            assert(added.track_id@ == hex_encode(track_id@));
            // the other rows are the old rows but the one replaced
            assert forall|j: int| 0 <= j < others.len() implies (#[trigger] others[j]).track_id@
                != hex_encode(track_id@) && has_metadata(meta0, others[j].track_id@)
                && meta0[metadata_index(meta0, others[j].track_id@)].metadata@ == others[j].metadata@ by {
                let src = if at is Some && j >= at.unwrap() {
                    j + 1
                } else {
                    j
                };
                assert(others[j] == meta0[src]);
                if at is Some {
                    let k = at.unwrap() as int;
                    if src < k {
                        assert(meta0[src].track_id@ != meta0[k].track_id@);
                    } else {
                        assert(meta0[k].track_id@ != meta0[src].track_id@);
                    }
                }
                let z = metadata_index(meta0, others[j].track_id@);
                if z < src {
                    assert(meta0[z].track_id@ != meta0[src].track_id@);
                } else if src < z {
                    assert(meta0[src].track_id@ != meta0[z].track_id@);
                }
            }
            assert(distinct_metadata(after)) by {
                assert forall|a: int, b: int| 0 <= a < b < after.len() implies (#[trigger] after[a]).track_id@
                    != (#[trigger] after[b]).track_id@ by {
                    if b < others.len() {
                        let sa = if at is Some && a >= at.unwrap() {
                            a + 1
                        } else {
                            a
                        };
                        let sb = if at is Some && b >= at.unwrap() {
                            b + 1
                        } else {
                            b
                        };
                        assert(after[a] == meta0[sa] && after[b] == meta0[sb]);
                        assert(meta0[sa].track_id@ != meta0[sb].track_id@);
                    } else {
                        assert(after[a] == others[a]);
                    }
                }
            }
            let goal = metadata_map(meta0).insert(hex_encode(track_id@), new_data@);
            assert forall|x: Seq<char>| #[trigger] metadata_map(after).dom().contains(x) <==> goal.dom().contains(
                x,
            ) by {
                if has_metadata(after, x) {
                    let q = choose|q: int| 0 <= q < after.len() && (#[trigger] after[q]).track_id@ == x;
                    if q < others.len() {
                        assert(after[q] == others[q]);
                    }
                }
                if x == hex_encode(track_id@) {
                    assert(after[others.len() as int].track_id@ == x);
                } else if has_metadata(meta0, x) {
                    let q = choose|q: int| 0 <= q < meta0.len() && (#[trigger] meta0[q]).track_id@ == x;
                    let dst = if at is Some && q > at.unwrap() {
                        q - 1
                    } else {
                        q
                    };
                    assert(others[dst] == meta0[q]);
                    assert(after[dst].track_id@ == x);
                }
            }
            assert forall|x: Seq<char>| #[trigger] metadata_map(after).dom().contains(x) implies metadata_map(
                after,
            )[x] == goal[x] by {
                let q = metadata_index(after, x);
                if q < others.len() {
                    assert(after[q] == others[q]);
                } else {
                    assert(x == hex_encode(track_id@));
                }
            }
            assert(metadata_map(after) =~= goal);
            assert forall|q: int| 0 <= q < after.len() implies has_track(
                rows_of(self.files@),
                (#[trigger] after[q]).track_id@,
            ) by {
                if q < others.len() {
                    assert(after[q] == others[q]);
                    let src = if at is Some && q >= at.unwrap() {
                        q + 1
                    } else {
                        q
                    };
                    assert(others[q] == meta0[src]);
                }
            }
        }
        self.metadata = metadata;
        self.updates = updates;
        proof {
            self.lemma_wf();
        }
        Ok(())
    }
}

} // verus!
