//! Metadata normalization policy, string helpers, and the query surface.

use audio_catalog::catalog::Catalog;
use audio_catalog::covers::{cover_filename, CoverStore, to_hex};
use audio_catalog::config::{
    default_details_format, default_state_format, default_true, AppConfig, DiscordRpcConfig,
};
use audio_catalog::entities::{AudioStream, Track};
use audio_catalog::meta::{
    ext_for_mime, is_supported_audio_path, normalize_metadata, split_artists, AudioProps,
    CoverImage, RawPicture, RawTag, TrackMeta,
};
use audio_catalog::presence::format_track_string;
use audio_catalog::remote::{get_image_url, ApiVersion};
use audio_catalog::scan::{run_scan, ScannedFile};
use audio_catalog::strutil::{contains_ci, fold_case, replace, trim, u64_to_string};
use audio_catalog::lastfm::{pick_artist_image, pick_bio, ArtistInfo, Bio, Image};

fn no_tag_props() -> AudioProps {
    AudioProps { duration_secs: 200, bitrate: Some(256) }
}

fn empty_tag() -> RawTag {
    RawTag {
        title: None,
        artist: None,
        album: None,
        album_artist: None,
        track: None,
        disc: None,
        year: None,
        genre: None,
        pictures: Vec::new(),
    }
}

#[test]
fn artist_splitting_feat() {
    let a: Vec<String> = split_artists("A feat. B");
    assert_eq!(a, vec!["A".to_string(), "B".to_string()]);
}

#[test]
fn artist_splitting_ampersand_and_slash() {
    assert_eq!(split_artists("A & B"), vec!["A".to_string(), "B".to_string()]);
    assert_eq!(split_artists("A / B"), vec!["A".to_string(), "B".to_string()]);
    assert_eq!(split_artists("A, B"), vec!["A".to_string(), "B".to_string()]);
    assert_eq!(split_artists("A ft. B"), vec!["A".to_string(), "B".to_string()]);
}

#[test]
fn artist_splitting_trims_and_drops_empty_fragments() {
    assert_eq!(split_artists("  A  feat.  B , , C "), vec![
        "A".to_string(),
        "B".to_string(),
        "C".to_string()
    ]);
    assert_eq!(split_artists(" A , B & C "), vec![
        "A".to_string(),
        "B".to_string(),
        "C".to_string()
    ]);
    assert_eq!(split_artists("  ,  "), Vec::<String>::new());
}

#[test]
fn filename_fallback_three_parts() {
    let m = normalize_metadata("Artist - Album - Title", None, &no_tag_props());
    assert_eq!(m.artists, vec!["Artist".to_string()]);
    assert_eq!(m.album, "Album");
    assert_eq!(m.title, "Title");
    assert_eq!(m.duration, 200);
    assert_eq!(m.bitrate, Some(256));
}

#[test]
fn filename_fallback_two_parts() {
    let m = normalize_metadata("Artist - Title", None, &no_tag_props());
    assert_eq!(m.artists, vec!["Artist".to_string()]);
    assert_eq!(m.title, "Title");
    assert_eq!(m.album, "Unknown Album");
}

#[test]
fn filename_fallback_plain_stem_uses_sentinels() {
    let m = normalize_metadata("justafile", None, &no_tag_props());
    assert_eq!(m.title, "justafile");
    assert_eq!(m.artists, vec!["Unknown Artist".to_string()]);
    assert_eq!(m.album, "Unknown Album");
}

#[test]
fn tagged_file_ignores_filename_pattern() {
    let mut tag = empty_tag();
    tag.title = Some("Real Title".to_string());
    tag.artist = Some("Real Artist".to_string());
    tag.album = Some(" Real Album ".to_string());
    tag.year = Some(1999);
    tag.genre = Some(" Jazz ".to_string());
    tag.track = Some(7);
    let m = normalize_metadata("A - B - C", Some(tag), &no_tag_props());
    assert_eq!(m.title, "Real Title");
    assert_eq!(m.artists, vec!["Real Artist".to_string()]);
    assert_eq!(m.album, "Real Album");
    assert_eq!(m.year, Some(1999));
    assert_eq!(m.genre, Some("Jazz".to_string()));
    assert_eq!(m.track_number, Some(7));
}

#[test]
fn front_cover_is_preferred_over_first_picture() {
    let mut tag = empty_tag();
    tag.artist = Some("X".to_string());
    tag.pictures = vec![
        RawPicture { is_front_cover: false, mime: Some("image/png".to_string()), data: vec![1] },
        RawPicture { is_front_cover: true, mime: None, data: vec![2] },
    ];
    let m = normalize_metadata("stem", Some(tag), &no_tag_props());
    let c = m.cover.unwrap();
    assert_eq!(c.data, vec![2]);
    assert_eq!(c.mime, "image/jpeg", "a missing picture type defaults to jpeg");
}

#[test]
fn supported_extensions_are_recognized_case_insensitively() {
    assert!(is_supported_audio_path("/music/song.FLAC"));
    assert!(is_supported_audio_path("/music/song.mp3"));
    assert!(is_supported_audio_path("rel/dir.d/tune.Ogg"));
    assert!(!is_supported_audio_path("/music/cover.jpg"));
    assert!(!is_supported_audio_path("/music/noext"));
    assert!(!is_supported_audio_path("/music.d/noext"));
}

#[test]
fn mime_to_extension_defaults_to_jpg() {
    assert_eq!(ext_for_mime("image/png"), "png");
    assert_eq!(ext_for_mime("image/gif"), "gif");
    assert_eq!(ext_for_mime("image/webp"), "webp");
    assert_eq!(ext_for_mime("image/jpeg"), "jpg");
    assert_eq!(ext_for_mime("application/pdf"), "jpg");
}

#[test]
fn cover_filename_is_hex_digest_plus_extension() {
    // SHA-256 of the empty byte string, a fixed known value
    let img = CoverImage { data: Vec::new(), mime: "image/png".to_string() };
    let name = cover_filename(&img);
    assert_eq!(
        name,
        "e3b0c44298fc1c149afbf4c8996fb92427ae41e4649b934ca495991b7852b855.png"
    );
    assert_eq!(to_hex(&vec![0xbeu8, 0xef]), "beef");
}

#[test]
fn string_helpers_behave() {
    assert_eq!(trim("  a b  "), "a b");
    assert_eq!(fold_case("MiXeD 123"), "mixed 123");
    assert_eq!(replace("a-b-c", "-", "::"), "a::b::c");
    assert!(contains_ci("Deep Purple", "purple"));
    assert!(!contains_ci("Deep Purple", "blue"));
    assert_eq!(u64_to_string(0), "0");
    assert_eq!(u64_to_string(90210), "90210");
}

fn tiny_catalog() -> Catalog {
    let mut c = Catalog::new();
    let mut covers = CoverStore::new();
    let mk = |title: &str, artist: &str, genre: &str| TrackMeta {
        title: title.to_string(),
        artists: vec![artist.to_string()],
        album_artist: Some("Ann".to_string()),
        album: "Best Of".to_string(),
        duration: 100,
        track_number: Some(1),
        disc_number: None,
        year: Some(2001),
        genre: Some(genre.to_string()),
        bitrate: Some(128),
        cover: None,
    };
    let obs = vec![
        ScannedFile { path: "/m/1.mp3".to_string(), mtime: 1, meta: Some(mk("Alpha", "Ann", "Rock")) },
        ScannedFile { path: "/m/2.mp3".to_string(), mtime: 2, meta: Some(mk("Beta", "Bob", "Rock")) },
        ScannedFile { path: "/m/3.mp3".to_string(), mtime: 3, meta: Some(mk("Gamma", "Ann", "Jazz")) },
    ];
    run_scan(&mut c, &mut covers, &obs, 500);
    c
}

#[test]
fn library_stats_count_and_sum() {
    let c = tiny_catalog();
    let s = c.get_library_stats();
    assert_eq!(s.track_count, 3);
    assert_eq!(s.artist_count, 2);
    assert_eq!(s.album_count, 1);
    assert_eq!(s.total_duration, 300);
    assert_eq!(s.average_bitrate, 128);
}

#[test]
fn search_matches_titles_and_artists_case_insensitively() {
    let c = tiny_catalog();
    let r = c.search("alp");
    assert_eq!(r.tracks.len(), 1);
    assert_eq!(r.tracks[0].title, "Alpha");
    let by_artist = c.search("ANN");
    assert_eq!(by_artist.tracks.len(), 2);
    let albums = c.search("best");
    assert_eq!(albums.albums.len(), 1);
    assert_eq!(albums.albums[0].track_count, Some(3));
    let artists = c.search("bob");
    assert_eq!(artists.artists.len(), 1);
    assert_eq!(artists.artists[0].name, "Bob");
}

#[test]
fn genres_are_grouped_with_counts() {
    let c = tiny_catalog();
    let gs = c.get_genres();
    assert_eq!(gs.len(), 2);
    let rock = gs.iter().find(|g| g.name == "Rock").unwrap();
    let jazz = gs.iter().find(|g| g.name == "Jazz").unwrap();
    assert_eq!(rock.track_count, 2);
    assert_eq!(jazz.track_count, 1);
}

#[test]
fn genre_tracks_and_favorites() {
    let mut c = tiny_catalog();
    let rock = c.get_genre_tracks("Rock");
    assert_eq!(rock.len(), 2);
    assert!(c.get_favorites().is_empty());
    let tid = c.tracks[0].id;
    c.set_track_liked(tid, true);
    let favs = c.get_favorites();
    assert_eq!(favs.len(), 1);
    assert!(favs[0].liked);
}

#[test]
fn album_tracks_are_ordered_by_disc_and_number() {
    let mut c = Catalog::new();
    let mut covers = CoverStore::new();
    let mk = |title: &str, disc: u32, num: u32| TrackMeta {
        title: title.to_string(),
        artists: vec!["A".to_string()],
        album_artist: None,
        album: "Long Album".to_string(),
        duration: 1,
        track_number: Some(num),
        disc_number: Some(disc),
        year: None,
        genre: None,
        bitrate: None,
        cover: None,
    };
    let obs = vec![
        ScannedFile { path: "/d2t1.mp3".to_string(), mtime: 1, meta: Some(mk("D2 T1", 2, 1)) },
        ScannedFile { path: "/d1t2.mp3".to_string(), mtime: 2, meta: Some(mk("D1 T2", 1, 2)) },
        ScannedFile { path: "/d1t1.mp3".to_string(), mtime: 3, meta: Some(mk("D1 T1", 1, 1)) },
    ];
    run_scan(&mut c, &mut covers, &obs, 500);
    let album_id = c.albums[0].id;
    let tracks = c.get_album_tracks(album_id);
    let titles: Vec<&str> = tracks.iter().map(|t| t.title.as_str()).collect();
    assert_eq!(titles, vec!["D1 T1", "D1 T2", "D2 T1"]);
}

#[test]
fn playlists_create_add_order_and_remove() {
    let mut c = tiny_catalog();
    let pid = c.create_playlist("Mix", 42);
    let t1 = c.tracks[0].id;
    let t2 = c.tracks[1].id;
    assert!(c.add_to_playlist(pid, t2));
    assert!(c.add_to_playlist(pid, t1));
    assert!(c.add_to_playlist(pid, t1), "re-adding is ignored, not an error");
    assert!(!c.add_to_playlist(9999, t1), "an unknown playlist fails");
    assert!(!c.add_to_playlist(pid, 9999), "an unknown track fails");

    let pls = c.get_playlists();
    assert_eq!(pls.len(), 1);
    assert_eq!(pls[0].name, "Mix");
    assert_eq!(pls[0].track_count, 2);
    assert_eq!(pls[0].created_at, 42);

    let ts = c.get_playlist_tracks(pid);
    assert_eq!(ts.len(), 2);
    assert_eq!(ts[0].title, "Beta", "insertion order is kept via positions");
    assert_eq!(ts[1].title, "Alpha");

    c.remove_from_playlist(pid, t2);
    assert_eq!(c.get_playlist_tracks(pid).len(), 1);

    c.delete_playlist(pid);
    assert!(c.get_playlists().is_empty());
    assert!(c.get_playlist_tracks(pid).is_empty());
}

#[test]
fn deleting_a_track_cascades_to_playlists() {
    let mut c = tiny_catalog();
    let pid = c.create_playlist("Mix", 1);
    let gone = c.tracks[0].id;
    let kept = c.tracks[1].id;
    assert!(c.add_to_playlist(pid, gone));
    assert!(c.add_to_playlist(pid, kept));
    // re-scan with the first file missing
    let mut covers = CoverStore::new();
    let obs = vec![
        ScannedFile { path: "/m/2.mp3".to_string(), mtime: 2, meta: None },
        ScannedFile { path: "/m/3.mp3".to_string(), mtime: 3, meta: None },
    ];
    run_scan(&mut c, &mut covers, &obs, 600);
    let ts = c.get_playlist_tracks(pid);
    assert_eq!(ts.len(), 1);
    assert_eq!(ts[0].id, u64_to_string(kept));
}

#[test]
fn random_albums_are_distinct_and_capped() {
    let mut c = Catalog::new();
    let mut covers = CoverStore::new();
    let mk = |album: &str| TrackMeta {
        title: album.to_string(),
        artists: vec!["A".to_string()],
        album_artist: None,
        album: album.to_string(),
        duration: 1,
        track_number: None,
        disc_number: None,
        year: None,
        genre: None,
        bitrate: None,
        cover: None,
    };
    let obs: Vec<ScannedFile> = (0..5)
        .map(|i| ScannedFile {
            path: format!("/m/{}.mp3", i),
            mtime: i as i64,
            meta: Some(mk(&format!("Album {}", i))),
        })
        .collect();
    run_scan(&mut c, &mut covers, &obs, 500);
    let two = c.get_random_albums(2);
    assert_eq!(two.len(), 2);
    assert_ne!(two[0].id, two[1].id);
    let all = c.get_random_albums(100);
    assert_eq!(all.len(), 5);
}

#[test]
fn lookups_and_streams_resolve_by_id() {
    let c = tiny_catalog();
    let t = &c.tracks[0];
    let e = c.get_track(t.id).unwrap();
    assert_eq!(e.id, u64_to_string(t.id));
    assert_eq!(e.artist_name, "Ann");
    assert_eq!(e.album_title, "Best Of");
    assert!(c.get_track(777).is_none());
    match c.resolve_stream(t.id) {
        Some(AudioStream::Url(p)) => assert_eq!(p, t.path),
        _ => panic!("a known track resolves to its path"),
    }
    assert!(c.resolve_stream(777).is_none());
    let a = c.get_artist(c.artists[0].id).unwrap();
    assert_eq!(a.name, c.artists[0].name);
    let al = c.get_album(c.albums[0].id).unwrap();
    assert_eq!(al.title, "Best Of");
    assert_eq!(al.track_count, Some(3));
}

#[test]
fn recent_and_most_played_ordering() {
    let mut c = tiny_catalog();
    // most played: nothing played yet
    assert!(c.get_most_played_tracks(10).is_empty());
    // bump a play count by hand and observe the order
    let recent = c.get_recent_albums(10);
    assert_eq!(recent.len(), 1);
    let roots_before = c.roots.len();
    c.add_root("/m");
    c.add_root("/m");
    assert_eq!(c.roots.len(), roots_before + 1, "a root registers once");
}

#[test]
fn remote_url_helpers() {
    assert_eq!(ApiVersion::V1.base_url(), "https://api.tidal.com/v1");
    assert_eq!(ApiVersion::DesktopV2.base_url(), "https://desktop.tidal.com/v2");
    assert_eq!(
        get_image_url("ab-cd-ef", 320, 320).unwrap(),
        "https://resources.tidal.com/images/ab/cd/ef/320x320.jpg"
    );
    assert!(get_image_url("", 320, 320).is_none());
}

#[test]
fn presence_formatting_and_defaults() {
    let track = Track {
        id: "1".to_string(),
        provider_id: None,
        title: "Song".to_string(),
        artist_id: "2".to_string(),
        artist_name: "Band".to_string(),
        album_id: "3".to_string(),
        album_title: "Record".to_string(),
        duration_sec: 10,
        track_number: None,
        disc_number: None,
        year: None,
        genre: None,
        bitrate: None,
        play_count: 0,
        liked: false,
    };
    assert_eq!(format_track_string("{artist} - {track} ({album})", &track), "Band - Song (Record)");
    assert!(default_true());
    assert_eq!(default_details_format(), "{track}");
    assert_eq!(default_state_format(), "{artist}");
    let d = DiscordRpcConfig::default();
    assert!(d.enabled && d.show_time);
    let a = AppConfig::default();
    assert_eq!(a.theme, "default");
    assert!(a.discord_rpc.is_some());
}

#[test]
fn enrichment_prefers_mega_image_and_skips_empty_urls() {
    let images = vec![
        Image { url: "small.jpg".to_string(), size: "small".to_string() },
        Image { url: "mega.jpg".to_string(), size: "mega".to_string() },
        Image { url: "large.jpg".to_string(), size: "large".to_string() },
    ];
    assert_eq!(pick_artist_image(&images), Some("mega.jpg".to_string()));
    let no_mega = vec![
        Image { url: "a.jpg".to_string(), size: "small".to_string() },
        Image { url: "b.jpg".to_string(), size: "large".to_string() },
    ];
    assert_eq!(pick_artist_image(&no_mega), Some("b.jpg".to_string()), "falls back to the last");
    let empty_url = vec![Image { url: String::new(), size: "mega".to_string() }];
    assert_eq!(pick_artist_image(&empty_url), None);
    assert_eq!(pick_artist_image(&Vec::new()), None);

    let info = ArtistInfo {
        name: "X".to_string(),
        mbid: None,
        url: String::new(),
        image: None,
        stats: None,
        similar: None,
        tags: None,
        bio: Some(Bio { summary: "s".to_string(), content: "full text".to_string() }),
    };
    assert_eq!(pick_bio(&info), Some("full text".to_string()));
}
