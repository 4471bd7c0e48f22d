//! End-to-end tests against a fixture tree: one mount named `root` over
//! `test/collection`, holding Khemmis's Hunted and Tobokegao's Picnic.

use polaris_index::{
    browse, flatten, get_random_albums, get_recent_albums, get_song, search, update,
    CollectionFile, Db, DirSnapshot, EntrySnapshot, MiscSettings, MountPoint, SongTags, Vfs,
};

fn tags(
    track: Option<i32>,
    title: &str,
    artist: &str,
    album_artist: Option<&str>,
    album: &str,
    year: i32,
) -> SongTags {
    SongTags {
        disc_number: None,
        track_number: track,
        title: Some(title.to_string()),
        duration: None,
        artist: Some(artist.to_string()),
        album_artist: album_artist.map(|s| s.to_string()),
        album: Some(album.to_string()),
        year: Some(year),
    }
}

fn song(name: &str, t: SongTags) -> EntrySnapshot {
    EntrySnapshot::File { name: name.to_string(), tags: Some(t) }
}

fn plain_file(name: &str) -> EntrySnapshot {
    EntrySnapshot::File { name: name.to_string(), tags: None }
}

fn subdir(name: &str, dir: DirSnapshot) -> EntrySnapshot {
    EntrySnapshot::Subdir { name: name.to_string(), dir }
}

fn dir(path: &str, date_added: i32, entries: Vec<EntrySnapshot>) -> DirSnapshot {
    DirSnapshot { path: path.to_string(), date_added: Some(date_added), entries }
}

fn hunted() -> DirSnapshot {
    let a = "Khemmis";
    let al = "Hunted";
    dir(
        "test/collection/Khemmis/Hunted",
        1002,
        vec![
            song("01 - Above The Water.mp3", tags(Some(1), "Above The Water", a, None, al, 2016)),
            song("02 - Candlelight.mp3", tags(Some(2), "Candlelight", a, None, al, 2016)),
            song("03 - Three Gates.mp3", tags(Some(3), "Three Gates", a, None, al, 2016)),
            song("04 - Beyond The Door.mp3", tags(Some(4), "Beyond The Door", a, None, al, 2016)),
            song("05 - Hunted.mp3", tags(Some(5), "Hunted", a, None, al, 2016)),
        ],
    )
}

fn picnic() -> DirSnapshot {
    let a = "Tobokegao";
    let al = "Picnic";
    dir(
        "test/collection/Tobokegao/Picnic",
        1004,
        vec![
            plain_file("Folder.png"),
            song(
                "01 - \u{30d4}\u{30af}\u{30cb}\u{30c3}\u{30af} (Picnic).mp3",
                tags(Some(1), "\u{30d4}\u{30af}\u{30cb}\u{30c3}\u{30af} (Picnic)", a, None, al, 2016),
            ),
            song("02 - Kite.mp3", tags(Some(2), "Kite", a, None, al, 2016)),
            song("03 - Nap.mp3", tags(Some(3), "Nap", a, None, al, 2016)),
            song("04 - Fireworks.mp3", tags(Some(4), "Fireworks", a, None, al, 2016)),
            song(
                "05 - \u{30b7}\u{30e3}\u{30fc}\u{30d9}\u{30c3}\u{30c8} (Sherbet).mp3",
                tags(
                    Some(5),
                    "\u{30b7}\u{30e3}\u{30fc}\u{30d9}\u{30c3}\u{30c8} (Sherbet)",
                    a,
                    None,
                    al,
                    2016,
                ),
            ),
            song("06 - Hide And Seek.mp3", tags(Some(6), "Hide And Seek", a, None, al, 2016)),
            song("07 - Summer Vacation.mp3", tags(Some(7), "Summer Vacation", a, None, al, 2016)),
        ],
    )
}

fn fixture_forest() -> Vec<DirSnapshot> {
    vec![dir(
        "test/collection",
        1000,
        vec![
            subdir("Khemmis", dir("test/collection/Khemmis", 1001, vec![subdir("Hunted", hunted())])),
            subdir(
                "Tobokegao",
                dir("test/collection/Tobokegao", 1003, vec![subdir("Picnic", picnic())]),
            ),
        ],
    )]
}

fn collect_paths(d: &DirSnapshot, out: &mut Vec<String>) {
    out.push(d.path.clone());
    for e in &d.entries {
        match e {
            EntrySnapshot::File { name, .. } => out.push(format!("{}/{}", d.path, name)),
            EntrySnapshot::Subdir { dir, .. } => collect_paths(dir, out),
            EntrySnapshot::ReadError => {}
        }
    }
}

fn fixture_existing() -> Vec<String> {
    let mut out = Vec::new();
    for d in &fixture_forest() {
        collect_paths(d, &mut out);
    }
    out
}

fn fixture_db() -> Db {
    let vfs = Vfs::new(vec![MountPoint {
        name: "root".to_string(),
        real: "test/collection".to_string(),
    }]);
    let settings = MiscSettings {
        index_sleep_duration_seconds: 1800,
        index_album_art_pattern: "Folder.(jpg|png)".to_string(),
    };
    Db::new(vfs, Some(settings))
}

fn reindex(db: &mut Db) {
    update(db, &fixture_existing(), &fixture_forest()).unwrap();
}

#[test]
fn test_populate() {
    let mut db = fixture_db();
    reindex(&mut db);
    reindex(&mut db); // Check that subsequent updates don't run into conflicts

    let all_directories = db.directories();
    let all_songs = db.songs();
    assert_eq!(all_directories.len(), 5);
    assert_eq!(all_songs.len(), 12);
}

#[test]
fn test_metadata() {
    let target = "test/collection/Tobokegao/Picnic";
    let song_path =
        format!("{}/05 - \u{30b7}\u{30e3}\u{30fc}\u{30d9}\u{30c3}\u{30c8} (Sherbet).mp3", target);
    let artwork_path = format!("{}/Folder.png", target);

    let mut db = fixture_db();
    reindex(&mut db);

    let songs: Vec<_> = db
        .songs()
        .iter()
        .filter(|s| s.title.as_deref() == Some("\u{30b7}\u{30e3}\u{30fc}\u{30d9}\u{30c3}\u{30c8} (Sherbet)"))
        .collect();

    assert_eq!(songs.len(), 1);
    let song = &songs[0];
    assert_eq!(song.path, song_path);
    assert_eq!(song.track_number, Some(5));
    assert_eq!(song.disc_number, None);
    assert_eq!(
        song.title,
        Some("\u{30b7}\u{30e3}\u{30fc}\u{30d9}\u{30c3}\u{30c8} (Sherbet)".to_owned())
    );
    assert_eq!(song.artist, Some("Tobokegao".to_owned()));
    assert_eq!(song.album_artist, None);
    assert_eq!(song.album, Some("Picnic".to_owned()));
    assert_eq!(song.year, Some(2016));
    assert_eq!(song.artwork, Some(artwork_path));
}

#[test]
fn test_browse_top_level() {
    let mut db = fixture_db();
    reindex(&mut db);
    let results = browse(&db, "").unwrap();

    assert_eq!(results.len(), 1);
    match results[0] {
        CollectionFile::Directory(ref d) => assert_eq!(d.path, "root"),
        _ => panic!("Expected directory"),
    }
}

#[test]
fn test_browse() {
    let mut db = fixture_db();
    reindex(&mut db);
    let results = browse(&db, "root").unwrap();

    assert_eq!(results.len(), 2);
    match results[0] {
        CollectionFile::Directory(ref d) => assert_eq!(d.path, "root/Khemmis"),
        _ => panic!("Expected directory"),
    }
    match results[1] {
        CollectionFile::Directory(ref d) => assert_eq!(d.path, "root/Tobokegao"),
        _ => panic!("Expected directory"),
    }
}

#[test]
fn test_flatten() {
    let mut db = fixture_db();
    reindex(&mut db);
    let results = flatten(&db, "root").unwrap();
    assert_eq!(results.len(), 12);
    assert_eq!(results[0].title, Some("Above The Water".to_owned()));
}

#[test]
fn test_random() {
    let mut db = fixture_db();
    reindex(&mut db);
    let results = get_random_albums(&db, 1, 42).unwrap();
    assert_eq!(results.len(), 1);
}

#[test]
fn test_recent() {
    let mut db = fixture_db();
    reindex(&mut db);
    let results = get_recent_albums(&db, 2).unwrap();
    assert_eq!(results.len(), 2);
    assert!(results[0].date_added >= results[1].date_added);
}

#[test]
fn test_get_song() {
    let mut db = fixture_db();
    reindex(&mut db);

    let song = get_song(&db, "root/Khemmis/Hunted/02 - Candlelight.mp3").unwrap();
    assert_eq!(song.title.unwrap(), "Candlelight");
}

#[test]
fn test_browse_virtual_paths() {
    let mut db = fixture_db();
    reindex(&mut db);
    let results = browse(&db, "root/Tobokegao/Picnic").unwrap();
    assert_eq!(results.len(), 7);
    for entry in &results {
        match entry {
            CollectionFile::Directory(d) => assert!(d.path.starts_with("root")),
            CollectionFile::Song(s) => {
                assert!(s.path.starts_with("root/"));
                if let Some(a) = &s.artwork {
                    assert_eq!(a, "root/Tobokegao/Picnic/Folder.png");
                }
            }
        }
    }
}

#[test]
fn test_flatten_everything() {
    let mut db = fixture_db();
    reindex(&mut db);
    let results = flatten(&db, "").unwrap();
    assert_eq!(results.len(), 12);
}

#[test]
fn test_search_suppresses_children_of_matching_directory() {
    let mut db = fixture_db();
    reindex(&mut db);
    let results = search(&db, "Khemmis").unwrap();
    assert_eq!(results.len(), 1);
    match &results[0] {
        CollectionFile::Directory(d) => assert_eq!(d.path, "root/Khemmis"),
        _ => panic!("Expected directory"),
    }

    let by_title = search(&db, "Candlelight").unwrap();
    assert_eq!(by_title.len(), 1);
    match &by_title[0] {
        CollectionFile::Song(s) => assert_eq!(s.title.as_deref(), Some("Candlelight")),
        _ => panic!("Expected song"),
    }
}

#[test]
fn test_unknown_mount_is_reported() {
    let mut db = fixture_db();
    reindex(&mut db);
    assert_eq!(browse(&db, "nowhere").unwrap_err(), polaris_index::Error::UnknownMount);
    assert_eq!(flatten(&db, "nowhere/x").unwrap_err(), polaris_index::Error::UnknownMount);
    assert_eq!(
        get_song(&db, "nowhere/y.mp3").unwrap_err(),
        polaris_index::Error::UnknownMount
    );
}

#[test]
fn test_get_song_missing_row() {
    let mut db = fixture_db();
    reindex(&mut db);
    assert_eq!(
        get_song(&db, "root/Khemmis/Hunted/99 - Unknown.mp3").unwrap_err(),
        polaris_index::Error::SongNotFound
    );
}

#[test]
fn test_update_requires_settings() {
    let vfs = Vfs::new(vec![MountPoint {
        name: "root".to_string(),
        real: "test/collection".to_string(),
    }]);
    let mut db = Db::new(vfs, None);
    let err = update(&mut db, &fixture_existing(), &fixture_forest()).unwrap_err();
    assert_eq!(err, polaris_index::Error::MissingSettings);
}

#[test]
fn test_update_rejects_invalid_pattern() {
    let vfs = Vfs::new(vec![MountPoint {
        name: "root".to_string(),
        real: "test/collection".to_string(),
    }]);
    let settings = MiscSettings {
        index_sleep_duration_seconds: 1800,
        index_album_art_pattern: "(".to_string(),
    };
    let mut db = Db::new(vfs, Some(settings));
    let err = update(&mut db, &fixture_existing(), &fixture_forest()).unwrap_err();
    assert_eq!(err, polaris_index::Error::PatternInvalid);
}

#[test]
fn test_update_rejects_missing_timestamp() {
    let mut db = fixture_db();
    let forest = vec![DirSnapshot {
        path: "test/collection".to_string(),
        date_added: None,
        entries: vec![],
    }];
    let err = update(&mut db, &Vec::new(), &forest).unwrap_err();
    assert_eq!(err, polaris_index::Error::MissingTimestamp);
}

#[test]
fn test_reconciler_drops_vanished_rows() {
    let mut db = fixture_db();
    reindex(&mut db);
    assert_eq!(db.songs().len(), 12);
    // the whole Tobokegao subtree vanishes from disk
    let remaining: Vec<String> = fixture_existing()
        .into_iter()
        .filter(|p| !p.contains("Tobokegao"))
        .collect();
    let forest = vec![dir(
        "test/collection",
        1000,
        vec![subdir(
            "Khemmis",
            dir("test/collection/Khemmis", 1001, vec![subdir("Hunted", hunted())]),
        )],
    )];
    update(&mut db, &remaining, &forest).unwrap();
    assert_eq!(db.songs().len(), 5);
    assert_eq!(db.directories().len(), 3);
}

#[test]
fn test_null_parents_are_mount_roots() {
    let mut db = fixture_db();
    reindex(&mut db);
    for d in db.directories() {
        if d.parent.is_none() {
            assert_eq!(d.path, "test/collection");
        }
    }
}

#[test]
fn test_every_song_parent_is_a_directory() {
    let mut db = fixture_db();
    reindex(&mut db);
    let dir_paths: Vec<&String> = db.directories().iter().map(|d| &d.path).collect();
    for s in db.songs() {
        assert!(dir_paths.contains(&&s.parent));
    }
}

#[test]
fn test_read_error_aborts_enumeration_but_keeps_partial_state() {
    let vfs = Vfs::new(vec![MountPoint { name: "m".to_string(), real: "c".to_string() }]);
    let settings = MiscSettings {
        index_sleep_duration_seconds: 1800,
        index_album_art_pattern: "Folder.png".to_string(),
    };
    let mut db = Db::new(vfs, Some(settings));
    let inner = dir("c/sub", 8, vec![song("x.mp3", tags(Some(1), "X", "A", None, "Al", 2000))]);
    let forest = vec![DirSnapshot {
        path: "c".to_string(),
        date_added: Some(7),
        entries: vec![
            song("a.mp3", tags(Some(1), "A", "A", None, "Al", 2000)),
            subdir("sub", inner),
            EntrySnapshot::ReadError,
            song("b.mp3", tags(Some(2), "B", "A", None, "Al", 2000)),
        ],
    }];
    let existing = vec![
        "c".to_string(),
        "c/a.mp3".to_string(),
        "c/sub".to_string(),
        "c/sub/x.mp3".to_string(),
        "c/b.mp3".to_string(),
    ];
    update(&mut db, &existing, &forest).unwrap();
    // the song after the failed entry was not catalogued; everything
    // gathered before it was, and the subdirectory was still scanned
    let paths: Vec<&str> = db.songs().iter().map(|s| s.path.as_str()).collect();
    assert_eq!(paths, vec!["c/a.mp3", "c/sub/x.mp3"]);
    assert_eq!(db.directories().len(), 2);
}

#[test]
fn test_aggregate_collapse_on_disagreement() {
    let vfs = Vfs::new(vec![MountPoint { name: "m".to_string(), real: "c".to_string() }]);
    let settings = MiscSettings {
        index_sleep_duration_seconds: 1800,
        index_album_art_pattern: "Folder.png".to_string(),
    };
    let mut db = Db::new(vfs, Some(settings));
    let forest = vec![dir(
        "c",
        7,
        vec![
            song("a.mp3", tags(Some(1), "A", "X", None, "Alpha", 1999)),
            song("b.mp3", tags(Some(2), "B", "X", None, "Beta", 1999)),
        ],
    )];
    let existing = vec!["c".to_string(), "c/a.mp3".to_string(), "c/b.mp3".to_string()];
    update(&mut db, &existing, &forest).unwrap();
    let d = &db.directories()[0];
    assert_eq!(d.album, None); // two distinct albums collapse to null
    assert_eq!(d.year, Some(1999)); // a single agreed year survives
    assert_eq!(d.artist, Some("X".to_owned()));
}

#[test]
fn test_album_artist_wins_aggregate() {
    let vfs = Vfs::new(vec![MountPoint { name: "m".to_string(), real: "c".to_string() }]);
    let settings = MiscSettings {
        index_sleep_duration_seconds: 1800,
        index_album_art_pattern: "Folder.png".to_string(),
    };
    let mut db = Db::new(vfs, Some(settings));
    let forest = vec![dir(
        "c",
        7,
        vec![
            song("a.mp3", tags(Some(1), "A", "Solo One", Some("Band"), "Alpha", 1999)),
            song("b.mp3", tags(Some(2), "B", "Solo Two", Some("Band"), "Alpha", 1999)),
        ],
    )];
    let existing = vec!["c".to_string(), "c/a.mp3".to_string(), "c/b.mp3".to_string()];
    update(&mut db, &existing, &forest).unwrap();
    let d = &db.directories()[0];
    assert_eq!(d.artist, Some("Band".to_owned()));
}
