use localdeck::config::LibrarySource;
use localdeck::domain::hash::TrackId;
use localdeck::domain::track::{ArtworkRef, TrackMetadata};
use localdeck::storage::error::StorageError;
use localdeck::storage::fs::{FileProbe, FsSnapshot, ObservedFile};
use localdeck::storage::operations::{
    Diff, FileRow, MetadataRow, MetadataUpdate, Storage, TrackChange,
};

fn mock_trackid(x: i32) -> TrackId {
    TrackId::from_bytes(&x.to_be_bytes())
}

fn empty_storage() -> Storage {
    Storage::new(LibrarySource::default())
}

fn storage_with(files: &[(TrackId, &str)]) -> Storage {
    let mut storage = empty_storage();
    let rows: Vec<(TrackId, String)> = files.iter().map(|(t, p)| (*t, p.to_string())).collect();
    storage.insert_tracks(&rows, 1);
    storage
}

fn paths_of_track(files: &[ObservedFile], id: TrackId) -> Vec<String> {
    files.iter().filter(|f| f.track_id == id).map(|f| f.path.clone()).collect()
}

fn full_metadata() -> MetadataUpdate {
    MetadataUpdate {
        title: Some("Test Song".to_string()),
        artist: Some("Test Artist".to_string()),
        year: Some(2026),
        label: Some("Test Label".to_string()),
        artwork: Some(ArtworkRef("cover.jpg".to_string())),
    }
}

fn no_change() -> MetadataUpdate {
    MetadataUpdate { title: None, artist: None, year: None, label: None, artwork: None }
}

#[test]
fn test_scan_db() {
    let mut storage = empty_storage();
    storage.insert_tracks(&vec![(mock_trackid(1), "song.mp3".to_string())], 200);

    let snapshot = storage.scan_db().unwrap();

    assert_eq!(snapshot.files.len(), 1);
    assert_eq!(snapshot.files[0].path, "song.mp3");
    assert_eq!(snapshot.files[0].track_id, mock_trackid(1));
    assert_eq!(snapshot.updated_at, 200);
}

#[test]
fn scan_of_an_empty_catalog() {
    let storage = empty_storage();
    let snapshot = storage.scan_db().unwrap();
    assert!(snapshot.files.is_empty());
    assert_eq!(snapshot.updated_at, 0);
    assert_eq!(storage.updated_at(), 0);
}

#[test]
fn the_catalog_time_is_the_latest_entry_of_the_ledger() {
    let mut storage = empty_storage();
    storage.insert_tracks(&vec![], 300);
    storage.insert_tracks(&vec![], 100);
    assert_eq!(storage.updates(), &vec![300, 100]);
    assert_eq!(storage.updated_at(), 300);
    assert_eq!(storage.scan_db().unwrap().updated_at, 300);

    let mut early = empty_storage();
    early.insert_tracks(&vec![], -7);
    assert_eq!(early.updated_at(), -7);
}

#[test]
fn a_row_with_a_corrupt_identity_fails_the_scan() {
    let storage = Storage::restore(
        vec![
            FileRow { track_id: mock_trackid(1).to_hex(), path: "a.mp3".to_string() },
            FileRow { track_id: "not-an-identity".to_string(), path: "b.mp3".to_string() },
        ],
        vec![],
        vec![5],
        LibrarySource::default(),
    );
    assert!(matches!(storage.scan_db(), Err(StorageError::Internal(_))));
    assert!(matches!(
        storage.status(FsSnapshot { observed_at: 1, files: vec![] }),
        Err(StorageError::Internal(_))
    ));
    assert!(matches!(
        storage.list_tracks(&FsSnapshot { observed_at: 1, files: vec![] }),
        Err(StorageError::Internal(_))
    ));
}

#[test]
fn a_failed_update_changes_nothing() {
    let mut storage = Storage::restore(
        vec![FileRow { track_id: "zz".to_string(), path: "b.mp3".to_string() }],
        vec![],
        vec![5],
        LibrarySource::default(),
    );
    let fs = FsSnapshot {
        observed_at: 9,
        files: vec![ObservedFile::new(mock_trackid(1), "new.mp3".to_string())],
    };
    assert!(matches!(storage.update_db_with_new_files(fs), Err(StorageError::Internal(_))));
    assert_eq!(storage.file_rows().len(), 1);
    assert_eq!(storage.updates(), &vec![5]);
}

#[test]
fn test_update_db_with_new_files_using_scan_db() {
    let mut storage =
        storage_with(&[(mock_trackid(1), "a.mp3"), (mock_trackid(2), "b1.mp3")]);

    let mut diff_result = Diff::new();
    diff_result.insert(
        mock_trackid(1),
        TrackChange {
            fs_locations: vec!["a_new.mp3".to_string(), "a.mp3".to_string()],
            db_locations: vec!["a.mp3".to_string()],
        },
    );
    diff_result.insert(
        mock_trackid(2),
        TrackChange {
            fs_locations: vec!["b1.mp3".to_string(), "b2.mp3".to_string()],
            db_locations: vec!["b1.mp3".to_string()],
        },
    );
    diff_result.insert(
        mock_trackid(3),
        TrackChange { db_locations: vec![], fs_locations: vec!["c.mp3".to_string()] },
    );

    let new_files = storage.update_db_with_diff(&diff_result, 77);
    assert_eq!(new_files.len(), 3);

    let db_snapshot = storage.scan_db().unwrap();
    assert_eq!(db_snapshot.updated_at, 77);

    let t1_files = paths_of_track(&db_snapshot.files, mock_trackid(1));
    assert!(t1_files.contains(&"a.mp3".to_string()));
    assert!(t1_files.contains(&"a_new.mp3".to_string()));

    let t2_files = paths_of_track(&db_snapshot.files, mock_trackid(2));
    assert!(t2_files.contains(&"b1.mp3".to_string()));
    assert!(t2_files.contains(&"b2.mp3".to_string()));

    let t3_files = paths_of_track(&db_snapshot.files, mock_trackid(3));
    assert_eq!(t3_files, vec!["c.mp3".to_string()]);
    assert_eq!(db_snapshot.files.len(), 5);
}

#[test]
fn committing_the_same_new_locations_twice_inserts_each_once() {
    let mut storage = storage_with(&[(mock_trackid(1), "a.mp3")]);
    let rows = vec![
        (mock_trackid(1), "a.mp3".to_string()),
        (mock_trackid(1), "a_new.mp3".to_string()),
        (mock_trackid(2), "b.mp3".to_string()),
        (mock_trackid(2), "b.mp3".to_string()),
    ];
    assert_eq!(storage.insert_tracks(&rows, 10), 2);
    assert_eq!(storage.file_rows().len(), 3);
    assert_eq!(storage.insert_tracks(&rows, 11), 0);
    assert_eq!(storage.file_rows().len(), 3);
    assert_eq!(storage.updates(), &vec![1, 10, 11]);

    let mut d = Diff::new();
    d.insert(
        mock_trackid(9),
        TrackChange { db_locations: vec![], fs_locations: vec!["n.mp3".to_string()] },
    );
    assert_eq!(storage.update_db_with_diff(&d, 12).len(), 1);
    assert_eq!(storage.update_db_with_diff(&d, 13).len(), 1);
    assert_eq!(storage.file_rows().len(), 4);
}

#[test]
fn an_update_takes_new_files_and_keeps_vanished_ones() {
    let mut storage = storage_with(&[(mock_trackid(1), "a.mp3"), (mock_trackid(2), "b.mp3")]);
    let fs = FsSnapshot {
        observed_at: 500,
        files: vec![
            ObservedFile::new(mock_trackid(1), "a.mp3".to_string()),
            ObservedFile::new(mock_trackid(3), "c.mp3".to_string()),
        ],
    };
    let inserted = storage.update_db_with_new_files(fs).unwrap();
    assert_eq!(inserted.len(), 1);
    assert_eq!(inserted[0].track_id, mock_trackid(3));
    assert_eq!(inserted[0].path, "c.mp3");
    // the vanished b.mp3 is still there
    assert_eq!(storage.track_paths(&mock_trackid(2)), vec!["b.mp3".to_string()]);
    assert_eq!(storage.updated_at(), 500);

    // a second pass over the same file system finds nothing new
    let again = FsSnapshot {
        observed_at: 600,
        files: vec![
            ObservedFile::new(mock_trackid(1), "a.mp3".to_string()),
            ObservedFile::new(mock_trackid(3), "c.mp3".to_string()),
        ],
    };
    assert!(storage.update_db_with_new_files(again).unwrap().is_empty());
    assert_eq!(storage.file_rows().len(), 3);
}

#[test]
fn status_changes_nothing() {
    let storage = storage_with(&[(mock_trackid(1), "a.mp3")]);
    let fs = FsSnapshot {
        observed_at: 500,
        files: vec![ObservedFile::new(mock_trackid(2), "b.mp3".to_string())],
    };
    let (seen, db, d) = storage.status(fs).unwrap();
    assert_eq!(seen.files.len(), 1);
    assert_eq!(seen.observed_at, 500);
    assert_eq!(db.files.len(), 1);
    assert_eq!(db.updated_at, 1);
    assert_eq!(d.len(), 2);
    assert_eq!(storage.file_rows().len(), 1);
    assert_eq!(storage.updates(), &vec![1]);
}

#[test]
fn test_get_track_success() {
    let track_id = mock_trackid(1);
    let storage = storage_with(&[(track_id, "/tmp/music/song.mp3")]);

    let (track, path, metadata) = storage.get_track(track_id, &vec![FileProbe::file(1)]).unwrap();

    assert_eq!(track, track_id);
    assert_eq!(path, "/tmp/music/song.mp3");
    assert!(metadata.is_none());
}

#[test]
fn test_get_track_invalid_paths() {
    let track_id = mock_trackid(3);
    let storage = storage_with(&[(track_id, "/tmp/music/song.txt")]);

    let err = storage.get_track(track_id, &vec![FileProbe::file(1)]).unwrap_err();

    assert!(matches!(err, StorageError::InvalidTrackFile { .. }));
}

#[test]
fn test_get_track_multiple_paths_picks_valid() {
    let track_id = mock_trackid(5);
    let storage = storage_with(&[(track_id, "/tmp/music/bad.txt"), (track_id, "/tmp/music/good.mp3")]);

    let probes = vec![FileProbe::file(1), FileProbe::file(1)];
    let (_, path, _) = storage.get_track(track_id, &probes).unwrap();

    assert_eq!(path, "/tmp/music/good.mp3");
}

#[test]
fn test_get_track_not_in_db() {
    let storage = empty_storage();
    let track_id = mock_trackid(42);

    let err = storage.get_track(track_id, &vec![]).unwrap_err();

    assert!(matches!(err, StorageError::TrackNotFound(id) if id == track_id));
}

#[test]
fn test_get_track_with_metadata() {
    let track_id = mock_trackid(123);
    let mut storage = storage_with(&[(track_id, "/tmp/music/song.mp3")]);
    storage.update_track_metadata(track_id, full_metadata(), false, 2).unwrap();

    let (returned_id, path, metadata) =
        storage.get_track(track_id, &vec![FileProbe::file(1)]).unwrap();

    assert_eq!(returned_id, track_id);
    assert_eq!(path, "/tmp/music/song.mp3");
    let metadata = metadata.expect("Metadata should be present");
    assert_eq!(metadata.title, "Test Song");
    assert_eq!(metadata.artist, "Test Artist");
    assert_eq!(metadata.year, Some(2026));
    assert_eq!(metadata.label.as_deref(), Some("Test Label"));
    assert_eq!(metadata.artwork.as_ref().map(|a| a.0.as_str()), Some("cover.jpg"));
}

#[test]
fn a_lookup_passes_over_what_is_not_a_playable_file() {
    let id = mock_trackid(8);
    let storage = storage_with(&[
        (id, "/m/missing.mp3"),
        (id, "/m/dir.mp3"),
        (id, "/m/empty.mp3"),
        (id, "/m/locked.mp3"),
        (id, "/m/notes.txt"),
        (id, "/m/fine.FLAC"),
        (id, "/m/also_fine.ogg"),
    ]);
    let probes = vec![
        FileProbe::missing(),
        FileProbe { exists: true, is_file: false, len: 4096, readable: true },
        FileProbe::file(0),
        FileProbe { exists: true, is_file: true, len: 10, readable: false },
        FileProbe::file(10),
        FileProbe::file(10),
        FileProbe::file(10),
    ];
    let (_, path, _) = storage.get_track(id, &probes).unwrap();
    assert_eq!(path, "/m/fine.FLAC");
    let (at, _, _) = storage.locate_track(id, &probes).unwrap();
    assert_eq!(at, 5);

    // a path without a report counts as missing
    let few = vec![FileProbe::missing(), FileProbe::missing()];
    assert!(matches!(
        storage.get_track(id, &few),
        Err(StorageError::InvalidTrackFile { track }) if track == id
    ));
    assert!(matches!(storage.get_track(id, &vec![]), Err(StorageError::InvalidTrackFile { .. })));
}

#[test]
fn test_list_tracks_fully_available() {
    let track_id = TrackId::from_bytes(b"x");
    let storage = storage_with(&[(track_id, "/lib/song.mp3")]);
    let fs = FsSnapshot {
        observed_at: 3,
        files: vec![ObservedFile::of_contents("/lib/song.mp3".to_string(), b"x")],
    };

    let tracks = storage.list_tracks(&fs).unwrap();
    assert_eq!(tracks.len(), 1);

    let entry = &tracks[0];
    assert_eq!(entry.track_id, track_id);
    assert_eq!(entry.available_files, vec!["/lib/song.mp3".to_string()]);
    assert!(entry.unavailable_files.is_empty());
}

#[test]
fn test_list_tracks_partially_available() {
    let track_id = TrackId::from_bytes(b"x");
    let storage = storage_with(&[(track_id, "/lib/song1.mp3"), (track_id, "/lib/song2.mp3")]);
    let fs = FsSnapshot {
        observed_at: 3,
        files: vec![ObservedFile::of_contents("/lib/song1.mp3".to_string(), b"x")],
    };

    let tracks = storage.list_tracks(&fs).unwrap();
    assert_eq!(tracks.len(), 1);

    let entry = &tracks[0];
    assert_eq!(entry.track_id, track_id);
    assert_eq!(entry.available_files, vec!["/lib/song1.mp3".to_string()]);
    assert_eq!(entry.unavailable_files, vec!["/lib/song2.mp3".to_string()]);
}

#[test]
fn test_list_tracks_fully_unavailable() {
    let track_id = TrackId::from_bytes(&[0, 1, 2]);
    let storage = storage_with(&[(track_id, "/lib/song.mp3")]);
    let fs = FsSnapshot { observed_at: 3, files: vec![] };

    let tracks = storage.list_tracks(&fs).unwrap();
    assert_eq!(tracks.len(), 1);

    let entry = &tracks[0];
    assert_eq!(entry.track_id, track_id);
    assert!(entry.available_files.is_empty());
    assert_eq!(entry.unavailable_files, vec!["/lib/song.mp3".to_string()]);
}

#[test]
fn a_listing_names_the_tracks_of_the_catalog_only() {
    let storage = storage_with(&[
        (mock_trackid(1), "a.mp3"),
        (mock_trackid(2), "b.mp3"),
        (mock_trackid(1), "a2.mp3"),
    ]);
    let fs = FsSnapshot {
        observed_at: 3,
        files: vec![
            ObservedFile::new(mock_trackid(1), "a2.mp3".to_string()),
            // on disk, not in the catalog: neither a track nor a location of the listing
            ObservedFile::new(mock_trackid(1), "a3.mp3".to_string()),
            ObservedFile::new(mock_trackid(7), "new.mp3".to_string()),
            // the path of one track under the identity of another
            ObservedFile::new(mock_trackid(1), "b.mp3".to_string()),
        ],
    };
    let tracks = storage.list_tracks(&fs).unwrap();
    assert_eq!(tracks.len(), 2);
    let first = tracks.iter().find(|t| t.track_id == mock_trackid(1)).unwrap();
    assert_eq!(first.available_files, vec!["a2.mp3".to_string()]);
    assert_eq!(first.unavailable_files, vec!["a.mp3".to_string()]);
    let second = tracks.iter().find(|t| t.track_id == mock_trackid(2)).unwrap();
    assert!(second.available_files.is_empty());
    assert_eq!(second.unavailable_files, vec!["b.mp3".to_string()]);
    assert_eq!(storage.file_rows().len(), 3);
}

#[test]
fn test_find_files() {
    let storage = storage_with(&[
        (mock_trackid(1), "Some Artist - Track Name.mp3"),
        (mock_trackid(2), "AnotherArtist_TrackName.flac"),
        (mock_trackid(3), "completely-different-track.mp3"),
    ]);

    let results = storage.find_files("trackname");
    assert_eq!(
        results,
        vec![
            (mock_trackid(1), "Some Artist - Track Name.mp3".to_string()),
            (mock_trackid(2), "AnotherArtist_TrackName.flac".to_string())
        ]
    );

    let results2 = storage.find_files("another artist track");
    assert_eq!(results2, vec![(mock_trackid(2), "AnotherArtist_TrackName.flac".to_string())]);

    let results3 = storage.find_files("nonexistent");
    assert!(results3.is_empty());
}

#[test]
fn a_search_folds_case_beyond_ascii_and_passes_over_corrupt_rows() {
    let storage = Storage::restore(
        vec![
            FileRow { track_id: mock_trackid(1).to_hex(), path: "ÉMILIE - Été.mp3".to_string() },
            FileRow { track_id: "corrupt".to_string(), path: "émilie - live.mp3".to_string() },
            FileRow {
                track_id: mock_trackid(2).to_hex().to_uppercase(),
                path: "Emilie.mp3".to_string(),
            },
        ],
        vec![],
        vec![],
        LibrarySource::default(),
    );
    assert_eq!(
        storage.find_files("émilie"),
        vec![(mock_trackid(1), "ÉMILIE - Été.mp3".to_string())]
    );
    assert_eq!(storage.find_files("E.M-I_L I E").len(), 1);
    // the empty query is in every path
    assert_eq!(storage.find_files("").len(), 2);
    assert_eq!(storage.find_files(" -_.").len(), 2);
}

#[test]
fn test_forget_path_removes_files_and_tracks() {
    let mut storage = storage_with(&[
        (mock_trackid(1), "/music/track_a1.mp3"),
        (mock_trackid(1), "/music/subdir/track_a2.mp3"),
        (mock_trackid(2), "/music/track_b.mp3"),
        (mock_trackid(3), "/hello/track_c.mp3"),
        (mock_trackid(1), "/hello/track_a3.mp3"),
    ]);

    let report = storage.forget_path("/music", 50);

    assert_eq!(report.removed_files, 3);
    assert_eq!(report.affected_tracks, 2);
    assert_eq!(report.removed_tracks, 1);

    assert!(storage.file_rows().len() == 2);
    assert_eq!(storage.updated_at(), 50);
}

#[test]
fn test_forget_path_empty_dir_no_crash() {
    let mut storage = empty_storage();

    let report = storage.forget_path("/nonexistent", 50);

    assert_eq!(report.removed_files, 0);
    assert_eq!(report.affected_tracks, 0);
    assert_eq!(report.removed_tracks, 0);
    assert_eq!(storage.updates(), &vec![50]);
}

#[test]
fn forgetting_a_subtree_spares_what_lies_beside_it() {
    let a = mock_trackid(1);
    let b = mock_trackid(2);
    let mut storage = storage_with(&[
        (a, "/music/x1"),
        (a, "/music/sub/x2"),
        (a, "/other/x3"),
        (b, "/music/y"),
        (b, "/music"),
        (mock_trackid(3), "/musical/z.mp3"),
        (mock_trackid(4), "/Music/w.mp3"),
        (mock_trackid(5), "music/v.mp3"),
    ]);
    storage.update_track_metadata(a, full_metadata(), false, 2).unwrap();
    storage.update_track_metadata(b, full_metadata(), false, 3).unwrap();

    let report = storage.forget_path("/music", 9);
    assert_eq!(report.removed_files, 4);
    assert_eq!(report.affected_tracks, 2);
    assert_eq!(report.removed_tracks, 1);

    let left: Vec<&str> = storage.file_rows().iter().map(|r| r.path.as_str()).collect();
    assert_eq!(left, vec!["/other/x3", "/musical/z.mp3", "/Music/w.mp3", "music/v.mp3"]);
    // A lives on with its metadata, B is gone with its metadata
    assert_eq!(storage.track_paths(&a), vec!["/other/x3".to_string()]);
    assert!(storage.get_track_metadata(&a).is_some());
    assert!(storage.get_track_metadata(&b).is_none());
    assert!(matches!(storage.get_track(b, &vec![]), Err(StorageError::TrackNotFound(_))));
    assert_eq!(storage.metadata_rows().len(), 1);

    // forgetting a single file
    let report = storage.forget_path("/other/x3", 10);
    assert_eq!(report.removed_files, 1);
    assert_eq!(report.affected_tracks, 1);
    assert_eq!(report.removed_tracks, 1);
    assert!(storage.metadata_rows().is_empty());
}

#[test]
fn a_track_goes_from_unknown_to_tracked_to_stale_and_back() {
    let id = mock_trackid(77);
    let mut storage = empty_storage();
    assert!(matches!(storage.get_track(id, &vec![]), Err(StorageError::TrackNotFound(_))));

    // ingest
    let fs = FsSnapshot { observed_at: 1, files: vec![ObservedFile::new(id, "/m/a.mp3".to_string())] };
    storage.update_db_with_new_files(fs).unwrap();
    assert!(storage.get_track(id, &vec![FileProbe::file(3)]).is_ok());

    // the file vanishes: the location is stale, and stays
    storage.update_db_with_new_files(FsSnapshot { observed_at: 2, files: vec![] }).unwrap();
    assert!(matches!(
        storage.get_track(id, &vec![FileProbe::missing()]),
        Err(StorageError::InvalidTrackFile { .. })
    ));

    // a new location is ingested: available again
    let fs = FsSnapshot { observed_at: 3, files: vec![ObservedFile::new(id, "/n/a.mp3".to_string())] };
    storage.update_db_with_new_files(fs).unwrap();
    let probes = vec![FileProbe::missing(), FileProbe::file(3)];
    assert_eq!(storage.get_track(id, &probes).unwrap().1, "/n/a.mp3");

    // forgetting both: unknown again
    storage.forget_path("/m", 4);
    storage.forget_path("/n", 5);
    assert!(matches!(storage.get_track(id, &vec![]), Err(StorageError::TrackNotFound(_))));
}

#[test]
fn metadata_is_changed_field_by_field() {
    let id = mock_trackid(1);
    let mut storage = storage_with(&[(id, "a.mp3")]);

    // an unknown track has no metadata to change
    let other = mock_trackid(2);
    assert!(matches!(
        storage.update_track_metadata(other, full_metadata(), true, 5),
        Err(StorageError::TrackNotFound(t)) if t == other
    ));

    // the first metadata of a track needs title and artist
    let mut untitled = full_metadata();
    untitled.title = None;
    assert!(matches!(
        storage.update_track_metadata(id, untitled, true, 5),
        Err(StorageError::Database(_))
    ));
    assert!(storage.get_track_metadata(&id).is_none());
    assert_eq!(storage.updates(), &vec![1]);

    let first = MetadataUpdate {
        title: Some("T".to_string()),
        artist: Some("A".to_string()),
        year: None,
        label: Some("L".to_string()),
        artwork: None,
    };
    storage.update_track_metadata(id, first, false, 6).unwrap();
    assert_eq!(storage.updates(), &vec![1, 6]);

    // without overwrite: values that are there stay, the others are set
    storage.update_track_metadata(id, full_metadata(), false, 7).unwrap();
    let m: TrackMetadata = storage.get_track_metadata(&id).unwrap();
    assert_eq!(m.title, "T");
    assert_eq!(m.artist, "A");
    assert_eq!(m.year, Some(2026));
    assert_eq!(m.label.as_deref(), Some("L"));
    assert_eq!(m.artwork.map(|a| a.0), Some("cover.jpg".to_string()));

    // with overwrite: what is named is set, what is not stays
    let partly = MetadataUpdate {
        title: Some("T2".to_string()),
        artist: None,
        year: Some(1999),
        label: None,
        artwork: None,
    };
    storage.update_track_metadata(id, partly, true, 8).unwrap();
    let m = storage.get_track_metadata(&id).unwrap();
    assert_eq!(m.title, "T2");
    assert_eq!(m.artist, "A");
    assert_eq!(m.year, Some(1999));
    assert_eq!(m.label.as_deref(), Some("L"));
    assert_eq!(m.artwork.map(|a| a.0), Some("cover.jpg".to_string()));

    // an update that names nothing changes nothing but the ledger
    storage.update_track_metadata(id, no_change(), true, 9).unwrap();
    assert_eq!(storage.get_track_metadata(&id).unwrap().title, "T2");
    assert_eq!(storage.metadata_rows().len(), 1);
    assert_eq!(storage.updated_at(), 9);
}

#[test]
fn forget_semantics() {
    let a = mock_trackid(1);
    let b = mock_trackid(2);
    let mut storage = storage_with(&[
        (a, "/music/x1"),
        (a, "/music/sub/x2"),
        (a, "/other/x3"),
        (b, "/music/y"),
    ]);

    let report = storage.forget_path("/music", 9);

    assert_eq!(report.removed_files, 3);
    assert_eq!(report.affected_tracks, 2);
    assert_eq!(report.removed_tracks, 1);
    assert_eq!(storage.track_paths(&a), vec!["/other/x3".to_string()]);
    assert!(storage.track_paths(&b).is_empty());
    assert_eq!(storage.file_rows().len(), 1);
}

#[test]
fn an_update_that_names_nothing_is_empty() {
    assert!(no_change().is_empty());
    assert!(!full_metadata().is_empty());
    let mut one = no_change();
    one.year = Some(1);
    assert!(!one.is_empty());
}

#[test]
fn a_catalog_comes_back_from_its_tables() {
    let id = mock_trackid(1);
    let mut storage = storage_with(&[(id, "a.mp3"), (mock_trackid(2), "b.mp3")]);
    storage.update_track_metadata(id, full_metadata(), false, 4).unwrap();

    let files: Vec<FileRow> = storage
        .file_rows()
        .iter()
        .map(|r| FileRow { track_id: r.track_id.clone(), path: r.path.clone() })
        .collect();
    let metadata: Vec<MetadataRow> = storage
        .metadata_rows()
        .iter()
        .map(|r| MetadataRow { track_id: r.track_id.clone(), metadata: r.metadata.clone() })
        .collect();
    let restored =
        Storage::restore(files, metadata, storage.updates().clone(), LibrarySource::default());
    assert_eq!(restored.file_rows().len(), 2);
    assert_eq!(restored.updates(), &vec![1, 4]);
    assert_eq!(restored.get_track_metadata(&id).unwrap().title, "Test Song");
    assert_eq!(restored.track_paths(&id), vec!["a.mp3".to_string()]);

    // rows that break the rules of the tables are left out
    let odd = Storage::restore(
        vec![
            FileRow { track_id: id.to_hex(), path: "a.mp3".to_string() },
            FileRow { track_id: id.to_hex(), path: "a.mp3".to_string() },
        ],
        vec![MetadataRow {
            track_id: mock_trackid(9).to_hex(),
            metadata: TrackMetadata {
                artist: "A".to_string(),
                title: "T".to_string(),
                year: None,
                label: None,
                artwork: None,
            },
        }],
        vec![],
        LibrarySource::default(),
    );
    assert_eq!(odd.file_rows().len(), 1);
    assert!(odd.metadata_rows().is_empty());
}
