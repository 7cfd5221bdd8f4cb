//! Reconciliation: what differs between the file system and the catalog,
//! identity by identity.

use vstd::prelude::*;
use crate::domain::hash::TrackId;
use crate::storage::fs::{FsSnapshot, locations, ObservedFile, Place};
use crate::text::{contains_string, distinct_texts, text_set};

verus! {

/// The paths at which identity `id` occurs among `locs`.
pub open spec fn paths_of(locs: Seq<Place>, id: Seq<u8>) -> Set<Seq<char>> {
    Set::new(|p: Seq<char>| locs.contains((id, p)))
}

/// The paths of `a` whose being in `b` is as `shared` says, each once.
fn paths_chosen(a: &Vec<String>, b: &Vec<String>, shared: bool) -> (r: Vec<String>)
    ensures
        forall|p: Seq<char>| #[trigger]
            text_set(r@).contains(p) <==> text_set(a@).contains(p) && text_set(b@).contains(p)
                == shared,
        distinct_texts(r@),
{
    let mut r: Vec<String> = Vec::new();
    let mut i: usize = 0;
    while i < a.len()
        invariant
            i <= a.len(),
            distinct_texts(r@),
            forall|p: Seq<char>| #[trigger]
                text_set(r@).contains(p) <==> text_set(a@.take(i as int)).contains(p) && text_set(
                    b@,
                ).contains(p) == shared,
        decreases a.len() - i,
    {
        let ghost r0 = r@;
        let path = &a[i];
        let take = contains_string(b, path) == shared && !contains_string(&r, path);
        if take {
            r.push(path.clone());
        }
        proof {
            let t0 = a@.take(i as int);
            let t1 = a@.take(i + 1);
            assert(t1[i as int] == a@[i as int]);
            assert forall|p: Seq<char>| #[trigger]
                text_set(r@).contains(p) <==> text_set(t1).contains(p) && text_set(b@).contains(p)
                    == shared by {
                if text_set(t1).contains(p) {
                    let k = choose|k: int| 0 <= k < t1.len() && (#[trigger] t1[k])@ == p;
                    if k < i {
                        assert(t0[k]@ == p);
                        assert(text_set(t0).contains(p));
                    }
                }
                if text_set(t0).contains(p) {
                    let k = choose|k: int| 0 <= k < t0.len() && (#[trigger] t0[k])@ == p;
                    assert(t1[k]@ == p);
                }
                if text_set(r0).contains(p) {
                    let k = choose|k: int| 0 <= k < r0.len() && (#[trigger] r0[k])@ == p;
                    assert(r@[k]@ == p);
                }
                if text_set(r@).contains(p) {
                    let k = choose|k: int| 0 <= k < r@.len() && (#[trigger] r@[k])@ == p;
                    if k < r0.len() {
                        assert(r0[k]@ == p);
                    }
                }
                if take {
                    assert(r@[r0.len() as int]@ == path@);
                }
            }
        }
        i += 1;
    }
    proof {
        assert(a@.take(a@.len() as int) =~= a@);
    }
    r
}

/// The paths of `a` that are not in `b`, each once.
pub fn paths_without(a: &Vec<String>, b: &Vec<String>) -> (r: Vec<String>)
    ensures
        text_set(r@) == text_set(a@).difference(text_set(b@)),
        distinct_texts(r@),
{
    let r = paths_chosen(a, b, false);
    assert(text_set(r@) =~= text_set(a@).difference(text_set(b@)));
    r
}

/// The paths of `a` that are in `b` too, each once.
pub fn paths_shared(a: &Vec<String>, b: &Vec<String>) -> (r: Vec<String>)
    ensures
        text_set(r@) == text_set(a@).intersect(text_set(b@)),
        distinct_texts(r@),
{
    let r = paths_chosen(a, b, true);
    assert(text_set(r@) =~= text_set(a@).intersect(text_set(b@)));
    r
}

/// Whether every path of `a` is one of `b`.
pub fn paths_within(a: &Vec<String>, b: &Vec<String>) -> (r: bool)
    ensures
        r == text_set(a@).subset_of(text_set(b@)),
{
    let mut i: usize = 0;
    while i < a.len()
        invariant
            i <= a.len(),
            forall|j: int| 0 <= j < i ==> text_set(b@).contains((#[trigger] a@[j])@),
        decreases a.len() - i,
    {
        if !contains_string(b, &a[i]) {
            assert(text_set(a@).contains(a@[i as int]@));
            return false;
        }
        i += 1;
    }
    true
}

/// Whether `a` and `b` hold the same paths.
pub fn same_paths(a: &Vec<String>, b: &Vec<String>) -> (r: bool)
    ensures
        r == (text_set(a@) == text_set(b@)),
{
    let r = paths_within(a, b) && paths_within(b, a);
    proof {
        if r {
            assert(text_set(a@) =~= text_set(b@));
        }
    }
    r
}

/// The locations of one identity, on both sides.
pub struct ChangeView {
    /// Where the catalog has it.
    pub db: Set<Seq<char>>,
    /// Where the file system has it.
    pub fs: Set<Seq<char>>,
}

/// What the catalog and the file system each hold of one identity.
#[derive(Debug)]
pub struct TrackChange {
    /// The locations the catalog has.
    pub db_locations: Vec<String>,
    /// The locations the file system has.
    pub fs_locations: Vec<String>,
}

impl View for TrackChange {
    type V = ChangeView;

    open spec fn view(&self) -> ChangeView {
        ChangeView { db: text_set(self.db_locations@), fs: text_set(self.fs_locations@) }
    }
}

impl ChangeView {
    /// The locations gained: on the file system, not in the catalog.
    pub open spec fn new_locations(self) -> Set<Seq<char>> {
        self.fs.difference(self.db)
    }

    /// The locations lost: in the catalog, not on the file system.
    pub open spec fn deleted_locations(self) -> Set<Seq<char>> {
        self.db.difference(self.fs)
    }
}

impl TrackChange {
    /// The locations the file system has and the catalog lacks, each once.
    pub fn new_locations(&self) -> (r: Vec<String>)
        ensures
            text_set(r@) == self@.new_locations(),
            distinct_texts(r@),
    {
        paths_without(&self.fs_locations, &self.db_locations)
    }

    /// The locations the catalog has and the file system lacks, each once.
    pub fn deleted_locations(&self) -> (r: Vec<String>)
        ensures
            text_set(r@) == self@.deleted_locations(),
            distinct_texts(r@),
    {
        paths_without(&self.db_locations, &self.fs_locations)
    }

    /// The catalog has no location of this identity.
    pub fn is_new(&self) -> (r: bool)
        ensures
            r == self@.db.is_empty(),
    {
        let r = self.db_locations.len() == 0;
        proof {
            if r {
                assert(self@.db =~= Set::<Seq<char>>::empty());
            } else {
                assert(self@.db.contains(self.db_locations@[0]@));
            }
        }
        r
    }

    /// The file system has no location of this identity.
    pub fn is_deleted(&self) -> (r: bool)
        ensures
            r == self@.fs.is_empty(),
    {
        let r = self.fs_locations.len() == 0;
        proof {
            if r {
                assert(self@.fs =~= Set::<Seq<char>>::empty());
            } else {
                assert(self@.fs.contains(self.fs_locations@[0]@));
            }
        }
        r
    }
}

/// What the catalog held at one moment.
#[derive(Debug)]
pub struct DBSnapshot {
    /// When the catalog was last changed, in seconds since the Unix epoch;
    /// 0 for a catalog that never was.
    pub updated_at: i64,
    pub files: Vec<ObservedFile>,
}

/// The reconciliation of two sets of locations: for each identity whose
/// locations differ between the two, the locations on either side.
/// Identities with the same locations on both sides are left out.
pub open spec fn diff_of(fs: Seq<Place>, db: Seq<Place>) -> Map<Seq<u8>, ChangeView> {
    Map::new(
        |id: Seq<u8>| paths_of(fs, id) != paths_of(db, id),
        |id: Seq<u8>| ChangeView { db: paths_of(db, id), fs: paths_of(fs, id) },
    )
}

/// One identity of a `Diff` and its change.
#[derive(Debug)]
pub struct DiffEntry {
    pub id: TrackId,
    pub change: TrackChange,
}

/// Some entry of `entries` is about identity `id`.
pub open spec fn has_entry(entries: Seq<DiffEntry>, id: Seq<u8>) -> bool {
    exists|i: int| 0 <= i < entries.len() && (#[trigger] entries[i]).id@ == id
}

/// The position of an entry about identity `id`.
pub open spec fn entry_index(entries: Seq<DiffEntry>, id: Seq<u8>) -> int {
    choose|i: int| 0 <= i < entries.len() && (#[trigger] entries[i]).id@ == id
}

/// No two entries are about the same identity.
pub open spec fn distinct_entries(entries: Seq<DiffEntry>) -> bool {
    forall|i: int, j: int|
        0 <= i < j < entries.len() ==> (#[trigger] entries[i]).id@ != (#[trigger] entries[j]).id@
}

/// A map from identities to changes, read off a list of entries.
pub open spec fn entries_map(entries: Seq<DiffEntry>) -> Map<Seq<u8>, ChangeView> {
    Map::new(
        |id: Seq<u8>| has_entry(entries, id),
        |id: Seq<u8>| entries[entry_index(entries, id)].change@,
    )
}

/// The difference between two snapshots, by identity.
#[derive(Debug)]
pub struct Diff {
    entries: Vec<DiffEntry>,
}

impl View for Diff {
    type V = Map<Seq<u8>, ChangeView>;

    closed spec fn view(&self) -> Map<Seq<u8>, ChangeView> {
        entries_map(self.entries@)
    }
}

impl Diff {
    #[verifier::type_invariant]
    spec fn well_formed(&self) -> bool {
        distinct_entries(self.entries@)
    }

    /// The entries, one for each identity.
    pub closed spec fn spec_entries(&self) -> Seq<DiffEntry> {
        self.entries@
    }

    /// A diff without entries.
    pub fn new() -> (d: Diff)
        ensures
            d@ == Map::<Seq<u8>, ChangeView>::empty(),
            d.spec_entries().len() == 0,
    {
        let d = Diff { entries: Vec::new() };
        assert(d@ =~= Map::<Seq<u8>, ChangeView>::empty());
        d
    }

    /// The number of identities that differ.
    pub fn len(&self) -> (n: usize)
        ensures
            n == self@.dom().len(),
            n == self.spec_entries().len(),
            self@.dom().finite(),
    {
        proof {
            use_type_invariant(self);
            lemma_entries_map_len(self.entries@);
        }
        self.entries.len()
    }

    /// Whether nothing differs.
    pub fn is_empty(&self) -> (r: bool)
        ensures
            r == (self@ == Map::<Seq<u8>, ChangeView>::empty()),
    {
        let r = self.entries.len() == 0;
        proof {
            if r {
                assert(self@ =~= Map::<Seq<u8>, ChangeView>::empty());
            } else {
                assert(has_entry(self.entries@, self.entries@[0].id@));
                assert(self@.dom().contains(self.entries@[0].id@));
            }
        }
        r
    }

    /// The change of identity `id`, if it differs.
    pub fn get(&self, id: &TrackId) -> (r: Option<&TrackChange>)
        ensures
            r is Some <==> self@.contains_key(id@),
            r matches Some(change) ==> change@ == self@[id@],
    {
        proof {
            use_type_invariant(self);
        }
        let mut i: usize = 0;
        while i < self.entries.len()
            invariant
                i <= self.entries.len(),
                distinct_entries(self.entries@),
                forall|j: int| 0 <= j < i ==> (#[trigger] self.entries@[j]).id@ != id@,
            decreases self.entries.len() - i,
        {
            if self.entries[i].id == *id {
                proof {
                    assert(has_entry(self.entries@, id@));
                    let k = entry_index(self.entries@, id@);
                    assert(k == i);
                }
                return Some(&self.entries[i].change);
            }
            i += 1;
        }
        None
    }

    /// Sets the change of identity `id`, replacing the one it had.
    pub fn insert(&mut self, id: TrackId, change: TrackChange)
        ensures
            final(self)@ == old(self)@.insert(id@, change@),
    {
        proof {
            use_type_invariant(&*self);
        }
        let ghost before = self.entries@;
        // where the identity stands, if it has an entry
        let mut at: Option<usize> = None;
        let mut i: usize = 0;
        while i < self.entries.len()
            invariant
                i <= self.entries.len(),
                self.entries@ == before,
                distinct_entries(before),
                match at {
                    Some(k) => k < i && before[k as int].id@ == id@,
                    None => forall|j: int| 0 <= j < i ==> (#[trigger] before[j]).id@ != id@,
                },
            decreases self.entries.len() - i,
        {
            if self.entries[i].id == id {
                at = Some(i);
            }
            i += 1;
        }
        let mut entries: Vec<DiffEntry> = Vec::new();
        core::mem::swap(&mut self.entries, &mut entries);
        match at {
            Some(k) => {
                let _ = entries.remove(k);
            },
            None => {},
        }
        let ghost others = entries@;
        let ghost new_id = id@;
        let ghost new_change = change@;
        entries.push(DiffEntry { id, change });
        proof {
            let after = entries@;
            // the other entries are the old ones but the one replaced
            assert forall|j: int| 0 <= j < others.len() implies (#[trigger] others[j]).id@ != new_id
                && has_entry(before, others[j].id@) && before[entry_index(
                before,
                others[j].id@,
            )].change@ == others[j].change@ by {
                let src = if at is Some && j >= at.unwrap() {
                    j + 1
                } else {
                    j
                };
                assert(others[j] == before[src]);
                if at is Some {
                    let k = at.unwrap() as int;
                    if src < k {
                        assert(before[src].id@ != before[k].id@);
                    } else {
                        assert(before[k].id@ != before[src].id@);
                    }
                }
                let z = entry_index(before, others[j].id@);
                if z < src {
                    assert(before[z].id@ != before[src].id@);
                } else if src < z {
                    assert(before[src].id@ != before[z].id@);
                }
            }
            assert(after[others.len() as int].id@ == new_id);
            assert(distinct_entries(after)) by {
                assert forall|a: int, b: int| 0 <= a < b < after.len() implies (#[trigger] after[a]).id@
                    != (#[trigger] after[b]).id@ by {
                    if b < others.len() {
                        let sa = if at is Some && a >= at.unwrap() {
                            a + 1
                        } else {
                            a
                        };
                        let sb = if at is Some && b >= at.unwrap() {
                            b + 1
                        } else {
                            b
                        };
                        assert(after[a] == before[sa] && after[b] == before[sb]);
                        assert(before[sa].id@ != before[sb].id@);
                    } else {
                        assert(after[a] == others[a]);
                    }
                }
            }
            let goal = entries_map(before).insert(new_id, new_change);
            assert forall|x: Seq<u8>| #[trigger] entries_map(after).dom().contains(x) <==> goal.dom().contains(
                x,
            ) by {
                if has_entry(after, x) {
                    let q = choose|q: int| 0 <= q < after.len() && (#[trigger] after[q]).id@ == x;
                    if q < others.len() {
                        assert(after[q] == others[q]);
                    }
                }
                if x == new_id {
                    assert(after[others.len() as int].id@ == x);
                } else if has_entry(before, x) {
                    let q = choose|q: int| 0 <= q < before.len() && (#[trigger] before[q]).id@ == x;
                    let dst = if at is Some && q > at.unwrap() {
                        q - 1
                    } else {
                        q
                    };
                    assert(others[dst] == before[q]);
                    assert(after[dst].id@ == x);
                }
            }
            assert forall|x: Seq<u8>| #[trigger] entries_map(after).dom().contains(x) implies entries_map(
                after,
            )[x] == goal[x] by {
                let q = entry_index(after, x);
                if q < others.len() {
                    assert(after[q] == others[q]);
                } else {
                    assert(x == new_id);
                }
            }
            assert(entries_map(after) =~= goal);
        }
        self.entries = entries;
    }

    /// The entries, in no particular order.
    pub fn entries(&self) -> (r: &Vec<DiffEntry>)
        ensures
            r@ == self.spec_entries(),
            distinct_entries(r@),
            self@ == entries_map(r@),
    {
        proof {
            use_type_invariant(self);
        }
        &self.entries
    }
}

/// A list of entries about distinct identities has as many identities as
/// entries.
pub proof fn lemma_entries_map_len(entries: Seq<DiffEntry>)
    requires
        distinct_entries(entries),
    ensures
        entries_map(entries).dom().finite(),
        entries_map(entries).dom().len() == entries.len(),
    decreases entries.len(),
{
    let dom = entries_map(entries).dom();
    if entries.len() == 0 {
        assert(dom =~= Set::<Seq<u8>>::empty());
    } else {
        let rest = entries.drop_last();
        let last = entries.last();
        lemma_entries_map_len(rest);
        let rest_dom = entries_map(rest).dom();
        assert(!rest_dom.contains(last.id@)) by {
            if has_entry(rest, last.id@) {
                let i = choose|i: int| 0 <= i < rest.len() && (#[trigger] rest[i]).id@ == last.id@;
                assert(entries[i].id@ == entries[entries.len() - 1].id@);
            }
        }
        assert(dom =~= rest_dom.insert(last.id@)) by {
            assert forall|x: Seq<u8>| dom.contains(x) <==> rest_dom.insert(last.id@).contains(
                x,
            ) by {
                if has_entry(entries, x) {
                    let i = choose|i: int| 0 <= i < entries.len() && (#[trigger] entries[i]).id@ == x;
                    if i < rest.len() {
                        assert(rest[i].id@ == x);
                    }
                }
                if has_entry(rest, x) {
                    let i = choose|i: int| 0 <= i < rest.len() && (#[trigger] rest[i]).id@ == x;
                    assert(entries[i].id@ == x);
                }
                if x == last.id@ {
                    assert(entries[entries.len() - 1].id@ == x);
                }
            }
        }
    }
}

/// Some file of `files` has identity `id`.
pub open spec fn id_occurs(files: Seq<ObservedFile>, id: Seq<u8>) -> bool {
    exists|j: int| 0 <= j < files.len() && (#[trigger] files[j]).track_id@ == id
}

/// Some identity of `ids` is `id`.
pub open spec fn id_listed(ids: Seq<TrackId>, id: Seq<u8>) -> bool {
    exists|k: int| 0 <= k < ids.len() && (#[trigger] ids[k])@ == id
}

/// No identity occurs twice in the list.
pub open spec fn distinct_ids(ids: Seq<TrackId>) -> bool {
    forall|i: int, j: int| 0 <= i < j < ids.len() ==> (#[trigger] ids[i])@ != (#[trigger] ids[j])@
}

/// Whether `id` is one of `ids`.
pub fn contains_id(ids: &Vec<TrackId>, id: &TrackId) -> (r: bool)
    ensures
        r == id_listed(ids@, id@),
{
    let mut i: usize = 0;
    while i < ids.len()
        invariant
            i <= ids.len(),
            forall|k: int| 0 <= k < i ==> (#[trigger] ids@[k])@ != id@,
        decreases ids.len() - i,
    {
        if ids[i] == *id {
            return true;
        }
        i += 1;
    }
    false
}

/// `ids`, followed by the identities of `files` that are not yet listed, each
/// once.
pub(crate) fn with_ids_of(ids: Vec<TrackId>, files: &Vec<ObservedFile>) -> (r: Vec<TrackId>)
    requires
        distinct_ids(ids@),
    ensures
        distinct_ids(r@),
        forall|id: Seq<u8>| #[trigger] id_listed(r@, id) <==> id_listed(ids@, id) || id_occurs(files@, id),
{
    let ghost ids0 = ids@;
    let mut r = ids;
    let mut i: usize = 0;
    while i < files.len()
        invariant
            i <= files.len(),
            distinct_ids(r@),
            forall|id: Seq<u8>| #[trigger]
                id_listed(r@, id) <==> id_listed(ids0, id) || id_occurs(files@.take(i as int), id),
        decreases files.len() - i,
    {
        let ghost r0 = r@;
        let id = files[i].track_id;
        let known = contains_id(&r, &id);
        if !known {
            r.push(id);
        }
        proof {
            let t0 = files@.take(i as int);
            let t1 = files@.take(i + 1);
            assert(t1[i as int] == files@[i as int]);
            assert forall|x: Seq<u8>| #[trigger]
                id_listed(r@, x) <==> id_listed(ids0, x) || id_occurs(t1, x) by {
                if id_occurs(t1, x) {
                    let j = choose|j: int| 0 <= j < t1.len() && (#[trigger] t1[j]).track_id@ == x;
                    if j < i {
                        assert(t0[j].track_id@ == x);
                    }
                }
                if id_occurs(t0, x) {
                    let j = choose|j: int| 0 <= j < t0.len() && (#[trigger] t0[j]).track_id@ == x;
                    assert(t1[j].track_id@ == x);
                }
                if id_listed(r0, x) {
                    let k = choose|k: int| 0 <= k < r0.len() && (#[trigger] r0[k])@ == x;
                    assert(r@[k]@ == x);
                }
                if id_listed(r@, x) {
                    let k = choose|k: int| 0 <= k < r@.len() && (#[trigger] r@[k])@ == x;
                    if k < r0.len() {
                        assert(r0[k]@ == x);
                    }
                }
                if !known {
                    assert(r@[r0.len() as int]@ == id@);
                }
            }
        }
        i += 1;
    }
    proof {
        assert(files@.take(files@.len() as int) =~= files@);
    }
    r
}

/// The paths at which `files` has identity `id`, each once.
pub fn paths_for(files: &Vec<ObservedFile>, id: &TrackId) -> (r: Vec<String>)
    ensures
        text_set(r@) == paths_of(locations(files@), id@),
        distinct_texts(r@),
{
    let mut r: Vec<String> = Vec::new();
    let mut i: usize = 0;
    while i < files.len()
        invariant
            i <= files.len(),
            distinct_texts(r@),
            forall|p: Seq<char>| #[trigger]
                text_set(r@).contains(p) <==> locations(files@.take(i as int)).contains((id@, p)),
        decreases files.len() - i,
    {
        let ghost r0 = r@;
        let file = &files[i];
        let take = file.track_id == *id && !contains_string(&r, &file.path);
        if take {
            r.push(file.path.clone());
        }
        proof {
            let t0 = locations(files@.take(i as int));
            let t1 = locations(files@.take(i + 1));
            assert(t1[i as int] == files@[i as int]@);
            assert forall|p: Seq<char>| #[trigger]
                text_set(r@).contains(p) <==> t1.contains((id@, p)) by {
                if t1.contains((id@, p)) {
                    let j = choose|j: int| 0 <= j < t1.len() && t1[j] == (id@, p);
                    if j < i {
                        assert(t0[j] == (id@, p));
                    }
                }
                if t0.contains((id@, p)) {
                    let j = choose|j: int| 0 <= j < t0.len() && t0[j] == (id@, p);
                    assert(t1[j] == (id@, p));
                }
                if text_set(r0).contains(p) {
                    let k = choose|k: int| 0 <= k < r0.len() && (#[trigger] r0[k])@ == p;
                    assert(r@[k]@ == p);
                }
                if text_set(r@).contains(p) {
                    let k = choose|k: int| 0 <= k < r@.len() && (#[trigger] r@[k])@ == p;
                    if k < r0.len() {
                        assert(r0[k]@ == p);
                    }
                }
                if take {
                    assert(r@[r0.len() as int]@ == file.path@);
                }
            }
        }
        i += 1;
    }
    proof {
        assert(files@.take(files@.len() as int) =~= files@);
        assert(text_set(r@) =~= paths_of(locations(files@), id@));
    }
    r
}

/// The reconciliation of a file-system snapshot with a catalog snapshot.
///
/// The result has an entry for exactly those identities whose locations on
/// the file system are not the locations in the catalog, and the entry
/// holds both sets. So every entry has a location gained or a location
/// lost.
pub fn diff(fs: &FsSnapshot, db: &DBSnapshot) -> (d: Diff)
    ensures
        d@ == diff_of(locations(fs.files@), locations(db.files@)),
        forall|id: Seq<u8>| #[trigger]
            d@.contains_key(id) ==> !d@[id].new_locations().is_empty()
                || !d@[id].deleted_locations().is_empty(),
{
    let ghost fs_locs = locations(fs.files@);
    let ghost db_locs = locations(db.files@);
    let ids = with_ids_of(with_ids_of(Vec::new(), &fs.files), &db.files);
    let mut entries: Vec<DiffEntry> = Vec::new();
    let mut i: usize = 0;
    while i < ids.len()
        invariant
            i <= ids.len(),
            distinct_ids(ids@),
            fs_locs == locations(fs.files@),
            db_locs == locations(db.files@),
            distinct_entries(entries@),
            forall|k: int|
                0 <= k < entries@.len() ==> id_listed(ids@.take(i as int), (#[trigger] entries@[k]).id@)
                    && entries@[k].change@ == (ChangeView {
                    db: paths_of(db_locs, entries@[k].id@),
                    fs: paths_of(fs_locs, entries@[k].id@),
                }) && paths_of(fs_locs, entries@[k].id@) != paths_of(db_locs, entries@[k].id@),
            forall|j: int|
                0 <= j < i && paths_of(fs_locs, (#[trigger] ids@[j])@) != paths_of(db_locs, ids@[j]@)
                    ==> has_entry(entries@, ids@[j]@),
        decreases ids.len() - i,
    {
        let id = ids[i];
        let fs_paths = paths_for(&fs.files, &id);
        let db_paths = paths_for(&db.files, &id);
        let ghost e0 = entries@;
        let differs = !same_paths(&fs_paths, &db_paths);
        if differs {
            entries.push(DiffEntry { id, change: TrackChange { db_locations: db_paths, fs_locations: fs_paths } });
        }
        proof {
            let t0 = ids@.take(i as int);
            let t1 = ids@.take(i + 1);
            assert(t1[i as int] == ids@[i as int]);
            assert forall|k: int| 0 <= k < e0.len() implies id_listed(t1, (#[trigger] e0[k]).id@)
                && e0[k].id@ != id@ by {
                let m = choose|m: int| 0 <= m < t0.len() && (#[trigger] t0[m])@ == e0[k].id@;
                assert(t1[m]@ == e0[k].id@);
                assert(ids@[m]@ == e0[k].id@);
            }
            if differs {
                assert(entries@[e0.len() as int].id@ == id@);
                assert(id_listed(t1, id@));
            }
            assert forall|j: int|
                0 <= j < i + 1 && paths_of(fs_locs, (#[trigger] ids@[j])@) != paths_of(
                    db_locs,
                    ids@[j]@,
                ) implies has_entry(entries@, ids@[j]@) by {
                if j < i {
                    let m = choose|m: int| 0 <= m < e0.len() && (#[trigger] e0[m]).id@ == ids@[j]@;
                    assert(entries@[m].id@ == ids@[j]@);
                } else {
                    assert(entries@[e0.len() as int].id@ == ids@[j]@);
                }
            }
        }
        i += 1;
    }
    let d = Diff { entries };
    proof {
        let es = d.entries@;
        let goal = diff_of(fs_locs, db_locs);
        assert forall|x: Seq<u8>| #[trigger] entries_map(es).dom().contains(x) <==> goal.dom().contains(
            x,
        ) by {
            if paths_of(fs_locs, x) != paths_of(db_locs, x) {
                // some location carries x, so x is among the ids
                if !id_listed(ids@, x) {
                    assert forall|p: Seq<char>| !fs_locs.contains((x, p)) by {
                        if fs_locs.contains((x, p)) {
                            let j = choose|j: int| 0 <= j < fs_locs.len() && fs_locs[j] == (x, p);
                            assert(fs.files@[j].track_id@ == x);
                        }
                    }
                    assert forall|p: Seq<char>| !db_locs.contains((x, p)) by {
                        if db_locs.contains((x, p)) {
                            let j = choose|j: int| 0 <= j < db_locs.len() && db_locs[j] == (x, p);
                            assert(db.files@[j].track_id@ == x);
                        }
                    }
                    assert(paths_of(fs_locs, x) =~= paths_of(db_locs, x));
                }
                let k = choose|k: int| 0 <= k < ids@.len() && (#[trigger] ids@[k])@ == x;
                assert(has_entry(es, ids@[k]@));
            }
            if has_entry(es, x) {
                let m = choose|m: int| 0 <= m < es.len() && (#[trigger] es[m]).id@ == x;
            }
        }
        assert forall|x: Seq<u8>| #[trigger] entries_map(es).dom().contains(x) implies entries_map(
            es,
        )[x] == goal[x] by {
            let m = entry_index(es, x);
            assert(es[m].id@ == x);
        }
        assert(entries_map(es) =~= goal);
        assert forall|id: Seq<u8>| #[trigger] d@.contains_key(id) implies !d@[id].new_locations().is_empty()
            || !d@[id].deleted_locations().is_empty() by {
            lemma_change_is_visible(d@[id]);
        }
    }
    d
}

/// Where the two sides of a change differ, a location was gained or lost.
pub proof fn lemma_change_is_visible(c: ChangeView)
    requires
        c.fs != c.db,
    ensures
        !c.new_locations().is_empty() || !c.deleted_locations().is_empty(),
{
    if c.new_locations().is_empty() && c.deleted_locations().is_empty() {
        assert forall|p: Seq<char>| c.fs.contains(p) <==> c.db.contains(p) by {
            if c.fs.contains(p) && !c.db.contains(p) {
                assert(c.new_locations().contains(p));
            }
            if c.db.contains(p) && !c.fs.contains(p) {
                assert(c.deleted_locations().contains(p));
            }
        }
        assert(c.fs =~= c.db);
    }
}

} // verus!
