//! End-to-end scan pipeline behavior: idempotence, fingerprint skip,
//! deletion, rename, resolver dedup, and cover-art dedup.

use audio_catalog::catalog::Catalog;
use audio_catalog::covers::CoverStore;
use audio_catalog::meta::{CoverImage, TrackMeta};
use audio_catalog::scan::{needs_parse, run_scan, ScannedFile};

fn meta(title: &str, artists: &[&str], album: &str) -> TrackMeta {
    TrackMeta {
        title: title.to_string(),
        artists: artists.iter().map(|s| s.to_string()).collect(),
        album_artist: None,
        album: album.to_string(),
        duration: 180,
        track_number: Some(1),
        disc_number: None,
        year: Some(2020),
        genre: Some("Rock".to_string()),
        bitrate: Some(320),
        cover: None,
    }
}

fn sf(path: &str, mtime: i64, m: Option<TrackMeta>) -> ScannedFile {
    ScannedFile { path: path.to_string(), mtime, meta: m }
}

fn snapshot(c: &Catalog) -> Vec<(u64, String, i64, String)> {
    c.tracks
        .iter()
        .map(|t| (t.id, t.path.clone(), t.mtime, t.title.clone()))
        .collect()
}

fn base_obs() -> Vec<ScannedFile> {
    vec![
        sf("/m/a.flac", 10, Some(meta("One", &["X"], "Z"))),
        sf("/m/b.flac", 20, Some(meta("Two", &["X"], "Z"))),
        sf("/m/c.flac", 30, Some(meta("Three", &["Y"], "Z"))),
    ]
}

#[test]
fn scan_twice_is_idempotent() {
    let mut c = Catalog::new();
    let mut covers = CoverStore::new();
    let obs = base_obs();
    run_scan(&mut c, &mut covers, &obs, 1000);
    let before = snapshot(&c);
    let artists_before: Vec<(u64, String)> =
        c.artists.iter().map(|a| (a.id, a.name.clone())).collect();
    let albums_before: Vec<(u64, String)> =
        c.albums.iter().map(|a| (a.id, a.title.clone())).collect();
    let links_before: Vec<(u64, u64)> =
        c.track_artists.iter().map(|l| (l.track_id, l.artist_id)).collect();
    let next_before = c.next_id;

    // no filesystem change: identical paths and fingerprints
    run_scan(&mut c, &mut covers, &obs, 2000);

    assert_eq!(snapshot(&c), before);
    let artists_after: Vec<(u64, String)> =
        c.artists.iter().map(|a| (a.id, a.name.clone())).collect();
    let albums_after: Vec<(u64, String)> =
        c.albums.iter().map(|a| (a.id, a.title.clone())).collect();
    let links_after: Vec<(u64, u64)> =
        c.track_artists.iter().map(|l| (l.track_id, l.artist_id)).collect();
    assert_eq!(artists_after, artists_before);
    assert_eq!(albums_after, albums_before);
    assert_eq!(links_after, links_before);
    assert_eq!(c.next_id, next_before);
}

#[test]
fn unchanged_fingerprint_is_never_reparsed() {
    let mut c = Catalog::new();
    let mut covers = CoverStore::new();
    let obs = base_obs();
    run_scan(&mut c, &mut covers, &obs, 1000);
    // the caller consults needs_parse before extracting: an unchanged file
    // is skipped
    assert!(!needs_parse(&c, "/m/a.flac", 10));
    assert!(!needs_parse(&c, "/m/b.flac", 20));
    // a touched file (new fingerprint) must be parsed again
    assert!(needs_parse(&c, "/m/a.flac", 11));
    // a second run with the parse outcomes withheld succeeds untouched:
    // nothing is extracted for unchanged files
    let obs2 = vec![sf("/m/a.flac", 10, None), sf("/m/b.flac", 20, None), sf("/m/c.flac", 30, None)];
    let before = snapshot(&c);
    run_scan(&mut c, &mut covers, &obs2, 2000);
    assert_eq!(snapshot(&c), before);
}

#[test]
fn deleting_one_file_removes_exactly_its_row() {
    let mut c = Catalog::new();
    let mut covers = CoverStore::new();
    let obs = base_obs();
    run_scan(&mut c, &mut covers, &obs, 1000);
    let before = snapshot(&c);
    let artists_before = c.artists.len();
    let albums_before = c.albums.len();

    // "/m/b.flac" disappears from disk
    let obs2 = vec![clone_sf(&obs[0]), clone_sf(&obs[2])];
    run_scan(&mut c, &mut covers, &obs2, 2000);

    let after = snapshot(&c);
    assert_eq!(after.len(), before.len() - 1);
    assert!(after.iter().all(|r| r.1 != "/m/b.flac"));
    for row in &after {
        assert!(before.contains(row));
    }
    // artists and albums are never deleted by a scan
    assert_eq!(c.artists.len(), artists_before);
    assert_eq!(c.albums.len(), albums_before);
}

fn clone_sf(f: &ScannedFile) -> ScannedFile {
    ScannedFile {
        path: f.path.clone(),
        mtime: f.mtime,
        meta: f.meta.as_ref().map(|m| TrackMeta {
            title: m.title.clone(),
            artists: m.artists.clone(),
            album_artist: m.album_artist.clone(),
            album: m.album.clone(),
            duration: m.duration,
            track_number: m.track_number,
            disc_number: m.disc_number,
            year: m.year,
            genre: m.genre.clone(),
            bitrate: m.bitrate,
            cover: None,
        }),
    }
}

#[test]
fn renaming_a_file_is_one_deletion_and_one_insertion() {
    let mut c = Catalog::new();
    let mut covers = CoverStore::new();
    let obs = base_obs();
    run_scan(&mut c, &mut covers, &obs, 1000);
    let before = snapshot(&c);
    let old_id = c
        .tracks
        .iter()
        .find(|t| t.path == "/m/b.flac")
        .map(|t| t.id)
        .unwrap();

    // same content under a new path: the mover keeps the mtime
    let obs2 = vec![
        clone_sf(&obs[0]),
        sf("/m/renamed.flac", 20, Some(meta("Two", &["X"], "Z"))),
        clone_sf(&obs[2]),
    ];
    run_scan(&mut c, &mut covers, &obs2, 2000);

    let after = snapshot(&c);
    assert_eq!(after.len(), before.len());
    assert!(after.iter().all(|r| r.1 != "/m/b.flac"));
    let renamed = c.tracks.iter().find(|t| t.path == "/m/renamed.flac").unwrap();
    assert_ne!(renamed.id, old_id, "the new path is a new row");
    // the untouched rows kept their ids
    for row in &after {
        if row.1 != "/m/renamed.flac" {
            assert!(before.contains(row));
        }
    }
}

#[test]
fn artist_names_dedup_case_insensitively() {
    let mut c = Catalog::new();
    let id1 = c.resolve_artist("Foo");
    let id2 = c.resolve_artist("foo");
    let id3 = c.resolve_artist("  FOO  ");
    assert_eq!(id1, id2);
    assert_eq!(id1, id3);
    assert_eq!(c.artists.len(), 1);
    assert_eq!(c.artists[0].name, "Foo");
    let other = c.resolve_artist("Bar");
    assert_ne!(other, id1);
    assert_eq!(c.artists.len(), 2);
}

#[test]
fn concurrent_spellings_in_one_scan_share_one_artist_row() {
    let mut c = Catalog::new();
    let mut covers = CoverStore::new();
    let obs = vec![
        sf("/m/a.flac", 10, Some(meta("One", &["Foo"], "Z"))),
        sf("/m/b.flac", 20, Some(meta("Two", &["foo"], "Z"))),
    ];
    run_scan(&mut c, &mut covers, &obs, 1000);
    assert_eq!(c.artists.len(), 1);
    assert_eq!(c.tracks.len(), 2);
    assert_eq!(c.tracks[0].artist_id, c.tracks[1].artist_id);
}

#[test]
fn identical_cover_bytes_store_one_file() {
    let mut covers = CoverStore::new();
    let img = CoverImage { data: vec![1, 2, 3, 4], mime: "image/png".to_string() };
    let (name1, created1) = covers.store(&img);
    let img_again = CoverImage { data: vec![1, 2, 3, 4], mime: "image/png".to_string() };
    let (name2, created2) = covers.store(&img_again);
    assert!(created1);
    assert!(!created2);
    assert_eq!(name1, name2);
    assert_eq!(covers.files.len(), 1);
    assert!(name1.ends_with(".png"));
    // different bytes are a different file
    let other = CoverImage { data: vec![9, 9], mime: "image/png".to_string() };
    let (name3, created3) = covers.store(&other);
    assert!(created3);
    assert_ne!(name3, name1);
    assert_eq!(covers.files.len(), 2);
}

#[test]
fn two_tracks_with_identical_art_share_one_cover_file() {
    let mut c = Catalog::new();
    let mut covers = CoverStore::new();
    let art = vec![7u8, 7, 7, 7, 7];
    let mut m1 = meta("One", &["X"], "Alpha");
    m1.cover = Some(CoverImage { data: art.clone(), mime: "image/jpeg".to_string() });
    let mut m2 = meta("Two", &["Y"], "Beta");
    m2.cover = Some(CoverImage { data: art.clone(), mime: "image/jpeg".to_string() });
    let obs = vec![sf("/m/a.flac", 1, Some(m1)), sf("/m/b.flac", 2, Some(m2))];
    run_scan(&mut c, &mut covers, &obs, 1000);
    assert_eq!(c.albums.len(), 2);
    assert_eq!(covers.files.len(), 1, "identical bytes are stored once");
}

#[test]
fn end_to_end_three_files_two_artists_one_album() {
    let mut c = Catalog::new();
    let mut covers = CoverStore::new();
    // 2 tracks by X, 1 by Y, all in album "Z" whose album artist is X
    let mut by_y = meta("Three", &["Y"], "Z");
    by_y.album_artist = Some("X".to_string());
    let obs = vec![
        sf("/m/a.flac", 10, Some(meta("One", &["X"], "Z"))),
        sf("/m/b.flac", 20, Some(meta("Two", &["X"], "Z"))),
        sf("/m/c.flac", 30, Some(by_y)),
    ];
    run_scan(&mut c, &mut covers, &obs, 1000);

    assert_eq!(c.artists.len(), 2);
    assert_eq!(c.albums.len(), 1);
    assert_eq!(c.tracks.len(), 3);

    let x_id = c.artists.iter().find(|a| a.name == "X").unwrap().id;
    let y_id = c.artists.iter().find(|a| a.name == "Y").unwrap().id;
    assert_eq!(c.albums[0].artist_id, x_id, "the album belongs to X");
    assert_eq!(c.albums[0].title, "Z");

    // each track is linked to its file's artist
    for t in &c.tracks {
        let expected = match t.path.as_str() {
            "/m/a.flac" | "/m/b.flac" => x_id,
            _ => y_id,
        };
        assert_eq!(t.artist_id, expected);
        assert!(c
            .track_artists
            .iter()
            .any(|l| l.track_id == t.id && l.artist_id == expected));
        assert_eq!(t.album_id, c.albums[0].id);
    }
}

#[test]
fn upsert_updates_fields_but_keeps_id_playcount_and_like() {
    let mut c = Catalog::new();
    let mut covers = CoverStore::new();
    let obs = vec![sf("/m/a.flac", 10, Some(meta("Old Title", &["X"], "Z")))];
    run_scan(&mut c, &mut covers, &obs, 1000);
    let tid = c.tracks[0].id;
    c.set_track_liked(tid, true);

    // the file changed on disk: new fingerprint, new tag data
    let obs2 = vec![sf("/m/a.flac", 99, Some(meta("New Title", &["X"], "Z")))];
    run_scan(&mut c, &mut covers, &obs2, 2000);
    assert_eq!(c.tracks.len(), 1);
    assert_eq!(c.tracks[0].id, tid, "an update keeps the row's id");
    assert_eq!(c.tracks[0].title, "New Title");
    assert_eq!(c.tracks[0].mtime, 99);
    assert!(c.tracks[0].liked, "the like flag survives updates");
}

#[test]
fn parse_failure_skips_the_file_and_drops_its_stale_row() {
    let mut c = Catalog::new();
    let mut covers = CoverStore::new();
    let obs = vec![
        sf("/m/a.flac", 10, Some(meta("One", &["X"], "Z"))),
        sf("/m/bad.flac", 20, None), // never parsed successfully
    ];
    run_scan(&mut c, &mut covers, &obs, 1000);
    assert_eq!(c.tracks.len(), 1);
    assert_eq!(c.tracks[0].path, "/m/a.flac");
}
