//! The relational catalog model: artists, albums, tracks, their join
//! relations, playlists, and registered roots, with the uniqueness
//! invariants the schema promises. Identifiers are minted from a counter,
//! which is what makes the get-or-create resolvers provably free of
//! duplicate entities.

use vstd::prelude::*;
use crate::strutil::{spec_fold, spec_trim, fold_case, trim, eq_str};
use crate::meta::{CoverImage, TrackMeta};
use crate::covers::{CoverStore, spec_store, spec_cover_filename};

verus! {

pub struct ArtistRow {
    pub id: u64,
    pub name: String,
    pub bio: Option<String>,
    pub image_url: Option<String>,
}

pub struct AlbumRow {
    pub id: u64,
    pub title: String,
    pub artist_id: u64,
    pub cover_art: Option<String>,
    pub year: Option<u16>,
    pub created_at: i64,
}

pub struct TrackRow {
    pub id: u64,
    pub path: String,
    pub title: String,
    pub artist_id: u64,
    pub album_id: u64,
    pub duration_sec: u32,
    pub track_number: Option<u32>,
    pub disc_number: Option<u32>,
    pub year: Option<u16>,
    pub genre: Option<String>,
    pub bitrate: Option<u32>,
    pub play_count: u32,
    pub liked: bool,
    pub mtime: i64,
    pub created_at: i64,
}

#[derive(Clone, Copy, PartialEq, Eq, Structural, Debug)]
pub struct TrackArtistRow {
    pub track_id: u64,
    pub artist_id: u64,
}

#[derive(Clone, Copy, PartialEq, Eq, Structural, Debug)]
pub struct AlbumArtistRow {
    pub album_id: u64,
    pub artist_id: u64,
}

pub struct PlaylistRow {
    pub id: u64,
    pub name: String,
    pub owner: String,
    pub cover_art: Option<String>,
    pub created_at: i64,
}

#[derive(Clone, Copy, PartialEq, Eq, Structural, Debug)]
pub struct PlaylistTrackRow {
    pub playlist_id: u64,
    pub track_id: u64,
    pub position: u32,
}

/// The whole catalog: the durable record the scanner reconciles against.
pub struct Catalog {
    pub next_id: u64,
    pub artists: Vec<ArtistRow>,
    pub albums: Vec<AlbumRow>,
    pub tracks: Vec<TrackRow>,
    pub track_artists: Vec<TrackArtistRow>,
    pub album_artists: Vec<AlbumArtistRow>,
    pub playlists: Vec<PlaylistRow>,
    pub playlist_tracks: Vec<PlaylistTrackRow>,
    pub roots: Vec<String>,
}

// ---- membership helpers over row sequences ----

pub open spec fn has_artist(artists: Seq<ArtistRow>, f: Seq<char>) -> bool {
    exists|i: int| 0 <= i < artists.len() && spec_fold(artists[i].name@) == f
}

/// The id of the artist whose folded name is `f`; one exists and is unique
/// under `wf`.
pub open spec fn artist_id_of(artists: Seq<ArtistRow>, f: Seq<char>) -> u64 {
    let i = choose|i: int| 0 <= i < artists.len() && spec_fold(artists[i].name@) == f;
    artists[i].id
}

pub open spec fn has_album(albums: Seq<AlbumRow>, title: Seq<char>, artist_id: u64) -> bool {
    exists|i: int|
        0 <= i < albums.len() && albums[i].title@ == title && albums[i].artist_id == artist_id
}

pub open spec fn album_id_of(albums: Seq<AlbumRow>, title: Seq<char>, artist_id: u64) -> u64 {
    let i = choose|i: int|
        0 <= i < albums.len() && albums[i].title@ == title && albums[i].artist_id == artist_id;
    albums[i].id
}

pub open spec fn has_track_path(tracks: Seq<TrackRow>, p: Seq<char>) -> bool {
    exists|i: int| 0 <= i < tracks.len() && tracks[i].path@ == p
}

pub open spec fn track_idx_of(tracks: Seq<TrackRow>, p: Seq<char>) -> int {
    choose|i: int| 0 <= i < tracks.len() && tracks[i].path@ == p
}

pub open spec fn has_track_id(tracks: Seq<TrackRow>, tid: u64) -> bool {
    exists|i: int| 0 <= i < tracks.len() && tracks[i].id == tid
}

pub open spec fn has_track_link(links: Seq<TrackArtistRow>, tid: u64, aid: u64) -> bool {
    exists|i: int| 0 <= i < links.len() && links[i].track_id == tid && links[i].artist_id == aid
}

pub open spec fn has_album_link(links: Seq<AlbumArtistRow>, alid: u64, aid: u64) -> bool {
    exists|i: int| 0 <= i < links.len() && links[i].album_id == alid && links[i].artist_id == aid
}

pub open spec fn album_has_link(links: Seq<AlbumArtistRow>, alid: u64) -> bool {
    exists|j: int| 0 <= j < links.len() && links[j].album_id == alid
}

pub open spec fn has_playlist(pls: Seq<PlaylistRow>, pid: u64) -> bool {
    exists|i: int| 0 <= i < pls.len() && pls[i].id == pid
}

// ---- well-formedness ----

impl Catalog {
    pub open spec fn artists_wf(&self) -> bool {
        forall|i: int, j: int|
            0 <= i < j < self.artists@.len() ==> spec_fold(self.artists@[i].name@) != spec_fold(
                self.artists@[j].name@,
            ) && self.artists@[i].id != self.artists@[j].id
    }

    pub open spec fn albums_wf(&self) -> bool {
        forall|i: int, j: int|
            0 <= i < j < self.albums@.len() ==> !(self.albums@[i].title@ == self.albums@[j].title@
                && self.albums@[i].artist_id == self.albums@[j].artist_id) && self.albums@[i].id
                != self.albums@[j].id
    }

    pub open spec fn tracks_wf(&self) -> bool {
        forall|i: int, j: int|
            0 <= i < j < self.tracks@.len() ==> self.tracks@[i].path@ != self.tracks@[j].path@
                && self.tracks@[i].id != self.tracks@[j].id
    }

    pub open spec fn links_wf(&self) -> bool {
        &&& forall|i: int, j: int|
            0 <= i < j < self.track_artists@.len() ==> !(self.track_artists@[i].track_id
                == self.track_artists@[j].track_id && self.track_artists@[i].artist_id
                == self.track_artists@[j].artist_id)
        &&& forall|i: int, j: int|
            0 <= i < j < self.album_artists@.len() ==> !(self.album_artists@[i].album_id
                == self.album_artists@[j].album_id && self.album_artists@[i].artist_id
                == self.album_artists@[j].artist_id)
        &&& forall|i: int, j: int|
            0 <= i < j < self.playlist_tracks@.len() ==> !(self.playlist_tracks@[i].playlist_id
                == self.playlist_tracks@[j].playlist_id && self.playlist_tracks@[i].track_id
                == self.playlist_tracks@[j].track_id)
        &&& forall|i: int, j: int|
            0 <= i < j < self.playlists@.len() ==> self.playlists@[i].id != self.playlists@[j].id
    }

    /// Every track row carries at least its primary artist link, and every
    /// album row is linked to at least one artist.
    pub open spec fn linked_wf(&self) -> bool {
        &&& forall|i: int|
            0 <= i < self.tracks@.len() ==> has_track_link(
                self.track_artists@,
                self.tracks@[i].id,
                self.tracks@[i].artist_id,
            )
        &&& forall|i: int|
            0 <= i < self.albums@.len() ==> #[trigger] album_has_link(
                self.album_artists@,
                self.albums@[i].id,
            )
    }

    pub open spec fn ids_wf(&self) -> bool {
        &&& forall|i: int| 0 <= i < self.artists@.len() ==> self.artists@[i].id < self.next_id
        &&& forall|i: int| 0 <= i < self.albums@.len() ==> self.albums@[i].id < self.next_id
        &&& forall|i: int| 0 <= i < self.tracks@.len() ==> self.tracks@[i].id < self.next_id
        &&& forall|i: int| 0 <= i < self.playlists@.len() ==> self.playlists@[i].id < self.next_id
    }

    /// Join rows reference existing tracks, as the schema's foreign keys
    /// enforce.
    pub open spec fn refs_wf(&self) -> bool {
        &&& forall|i: int|
            0 <= i < self.track_artists@.len() ==> has_track_id(
                self.tracks@,
                (#[trigger] self.track_artists@[i]).track_id,
            )
        &&& forall|i: int|
            0 <= i < self.playlist_tracks@.len() ==> has_track_id(
                self.tracks@,
                (#[trigger] self.playlist_tracks@[i]).track_id,
            )
    }

    pub open spec fn roots_wf(&self) -> bool {
        forall|i: int, j: int|
            0 <= i < j < self.roots@.len() ==> self.roots@[i]@ != self.roots@[j]@
    }

    /// The schema's invariants: unique artist names (case-insensitively),
    /// unique (title, primary artist) per album, unique track paths, unique
    /// join rows, ids below the mint counter, and artist links present.
    pub open spec fn wf(&self) -> bool {
        &&& self.artists_wf()
        &&& self.albums_wf()
        &&& self.tracks_wf()
        &&& self.links_wf()
        &&& self.linked_wf()
        &&& self.refs_wf()
        &&& self.ids_wf()
        &&& self.roots_wf()
    }

    /// An empty catalog, as the schema bootstrap creates.
    pub fn new() -> (r: Catalog)
        ensures
            r.wf(),
            r.next_id == 0,
            r.artists@.len() == 0 && r.albums@.len() == 0 && r.tracks@.len() == 0,
            r.track_artists@.len() == 0 && r.album_artists@.len() == 0,
            r.playlists@.len() == 0 && r.playlist_tracks@.len() == 0 && r.roots@.len() == 0,
    {
        Catalog {
            next_id: 0,
            artists: Vec::new(),
            albums: Vec::new(),
            tracks: Vec::new(),
            track_artists: Vec::new(),
            album_artists: Vec::new(),
            playlists: Vec::new(),
            playlist_tracks: Vec::new(),
            roots: Vec::new(),
        }
    }

    /// Map a name to its artist id, creating the artist on first sight:
    /// the lookup key is the trimmed name folded to lower case, so two
    /// spellings of one name always resolve to the same id.
    pub fn resolve_artist(&mut self, name: &str) -> (r: u64)
        requires
            old(self).wf(),
            old(self).next_id < u64::MAX,
        ensures
            final(self).wf(),
            final(self).albums == old(self).albums,
            final(self).tracks == old(self).tracks,
            final(self).track_artists == old(self).track_artists,
            final(self).album_artists == old(self).album_artists,
            final(self).playlists == old(self).playlists,
            final(self).playlist_tracks == old(self).playlist_tracks,
            final(self).roots == old(self).roots,
            has_artist(final(self).artists@, spec_fold(spec_trim(name@))),
            r == artist_id_of(final(self).artists@, spec_fold(spec_trim(name@))),
            has_artist(old(self).artists@, spec_fold(spec_trim(name@))) ==> final(self).artists
                == old(self).artists && final(self).next_id == old(self).next_id,
            !has_artist(old(self).artists@, spec_fold(spec_trim(name@))) ==> {
                &&& final(self).artists@.len() == old(self).artists@.len() + 1
                &&& final(self).artists@.take(old(self).artists@.len() as int) == old(
                    self,
                ).artists@
                &&& final(self).artists@.last().id == old(self).next_id
                &&& final(self).artists@.last().name@ == spec_trim(name@)
                &&& final(self).artists@.last().bio is None
                &&& final(self).artists@.last().image_url is None
                &&& r == old(self).next_id
                &&& final(self).next_id == old(self).next_id + 1
            },
    {
        let trimmed = trim(name);
        let key = fold_case(trimmed.as_str());
        let ghost f = spec_fold(spec_trim(name@));
        assert(key@ == f);
        match find_artist(&self.artists, key.as_str()) {
            Some(i) => {
                proof {
                    let w = choose|w: int|
                        0 <= w < self.artists@.len() && spec_fold(self.artists@[w].name@) == f;
                    if w < i as int {
                        assert(false);
                    }
                    if (i as int) < w {
                        assert(false);
                    }
                }
                self.artists[i].id
            },
            None => {
                let id = self.next_id;
                self.next_id = self.next_id + 1;
                let row = ArtistRow { id, name: trimmed, bio: None, image_url: None };
                self.artists.push(row);
                proof {
                    assert(self.artists@.last().name@ == spec_trim(name@));
                    assert(self.artists@.take(old(self).artists@.len() as int) =~= old(
                        self,
                    ).artists@);
                    assert(has_artist(self.artists@, f)) by {
                        assert(spec_fold(self.artists@[self.artists@.len() - 1].name@) == f);
                    }
                    let w = choose|w: int|
                        0 <= w < self.artists@.len() && spec_fold(self.artists@[w].name@) == f;
                    if w < self.artists@.len() - 1 {
                        assert(spec_fold(old(self).artists@[w].name@) == f);
                        assert(false);
                    }
                    assert(self.artists_wf()) by {
                        assert(forall|k: int|
                            0 <= k < old(self).artists@.len() ==> self.artists@[k] == old(
                                self,
                            ).artists@[k]);
                    }
                    assert(self.ids_wf());
                }
                id
            },
        }
    }
}

/// The index of the artist whose name folds to `key`, if any.
fn find_artist(artists: &Vec<ArtistRow>, key: &str) -> (r: Option<usize>)
    ensures
        r matches Some(i) ==> i < artists@.len() && spec_fold(artists@[i as int].name@) == key@,
        r is None ==> !has_artist(artists@, key@),
{
    let n = artists.len();
    let mut i: usize = 0;
    while i < n
        invariant
            i <= n,
            n == artists@.len(),
            forall|k: int| 0 <= k < i ==> spec_fold(artists@[k].name@) != key@,
        decreases n - i,
    {
        let row_key = fold_case(artists[i].name.as_str());
        if eq_str(row_key.as_str(), key) {
            return Some(i);
        }
        i = i + 1;
    }
    None
}


// ---- shared small helpers ----

fn clone_string(s: &String) -> (r: String)
    ensures
        r == *s,
{
    s.clone()
}

fn clone_opt_string(o: &Option<String>) -> (r: Option<String>)
    ensures
        r == *o,
{
    match o {
        Some(s) => Some(s.clone()),
        None => None,
    }
}

fn contains_u64(v: &Vec<u64>, x: u64) -> (r: bool)
    ensures
        r == v@.contains(x),
{
    let mut i: usize = 0;
    while i < v.len()
        invariant
            i <= v@.len(),
            forall|k: int| 0 <= k < i ==> v@[k] != x,
        decreases v@.len() - i,
    {
        if v[i] == x {
            assert(v@.contains(x));
            return true;
        }
        i = i + 1;
    }
    assert(forall|k: int| 0 <= k < v@.len() ==> v@[k] != x);
    false
}

/// Whether `p` is one of the paths in `paths`.
pub open spec fn path_in(paths: Seq<String>, p: Seq<char>) -> bool {
    exists|i: int| 0 <= i < paths.len() && paths[i]@ == p
}

pub fn contains_path(paths: &Vec<String>, p: &str) -> (r: bool)
    ensures
        r == path_in(paths@, p@),
{
    let mut i: usize = 0;
    while i < paths.len()
        invariant
            i <= paths@.len(),
            forall|k: int| 0 <= k < i ==> paths@[k]@ != p@,
        decreases paths@.len() - i,
    {
        if eq_str(paths[i].as_str(), p) {
            assert(path_in(paths@, p@));
            return true;
        }
        i = i + 1;
    }
    false
}

// ---- generic sequence lemmas used by the reconciliation proofs ----

/// Every element of a filtered sequence occurs in the unfiltered one.
pub proof fn lemma_filter_elem<A>(s: Seq<A>, pred: spec_fn(A) -> bool, i: int)
    requires
        0 <= i < s.filter(pred).len(),
    ensures
        exists|j: int| 0 <= j < s.len() && s[j] == s.filter(pred)[i],
    decreases s.len(),
{
    reveal(Seq::filter);
    if s.len() > 0 {
        let f0 = s.drop_last().filter(pred);
        if pred(s.last()) {
            if i < f0.len() {
                lemma_filter_elem(s.drop_last(), pred, i);
                let j = choose|j: int|
                    0 <= j < s.drop_last().len() && s.drop_last()[j] == f0[i];
                assert(s[j] == s.filter(pred)[i]);
            } else {
                assert(s[s.len() - 1] == s.filter(pred)[i]);
            }
        } else {
            lemma_filter_elem(s.drop_last(), pred, i);
            let j = choose|j: int| 0 <= j < s.drop_last().len() && s.drop_last()[j] == f0[i];
            assert(s[j] == s.filter(pred)[i]);
        }
    }
}

/// A binary relation that holds on every pair of a sequence holds on every
/// pair of any filtering of it.
pub proof fn lemma_filter_pairs<A>(s: Seq<A>, pred: spec_fn(A) -> bool, rel: spec_fn(A, A) -> bool)
    requires
        forall|i: int, j: int| 0 <= i < j < s.len() ==> #[trigger] rel(s[i], s[j]),
        forall|i: int, j: int| 0 <= i < j < s.len() ==> #[trigger] rel(s[j], s[i]),
    ensures
        forall|i: int, j: int|
            0 <= i < j < s.filter(pred).len() ==> #[trigger] rel(
                s.filter(pred)[i],
                s.filter(pred)[j],
            ),
    decreases s.len(),
{
    reveal(Seq::filter);
    if s.len() > 0 {
        let d = s.drop_last();
        assert(forall|i: int, j: int| 0 <= i < j < d.len() ==> #[trigger] rel(d[i], d[j]));
        assert(forall|i: int, j: int| 0 <= i < j < d.len() ==> #[trigger] rel(d[j], d[i]));
        lemma_filter_pairs(d, pred, rel);
        let f0 = d.filter(pred);
        if pred(s.last()) {
            assert forall|i: int, j: int|
                0 <= i < j < s.filter(pred).len() implies #[trigger] rel(
                s.filter(pred)[i],
                s.filter(pred)[j],
            ) by {
                if j == s.filter(pred).len() - 1 {
                    lemma_filter_elem(d, pred, i);
                    let k = choose|k: int| 0 <= k < d.len() && d[k] == f0[i];
                    assert(rel(s[k], s[s.len() - 1]));
                }
            }
        }
    }
}

// ---- album link accumulation ----

/// The album-artist join after linking `alid` to every id in `ids`: a link
/// already present is left alone.
pub open spec fn add_album_links(links: Seq<AlbumArtistRow>, alid: u64, ids: Seq<u64>) -> Seq<
    AlbumArtistRow,
>
    decreases ids.len(),
{
    if ids.len() == 0 {
        links
    } else {
        let l1 = add_album_links(links, alid, ids.drop_last());
        if has_album_link(l1, alid, ids.last()) {
            l1
        } else {
            l1.push(AlbumArtistRow { album_id: alid, artist_id: ids.last() })
        }
    }
}

pub proof fn lemma_add_album_links(links: Seq<AlbumArtistRow>, alid: u64, ids: Seq<u64>)
    ensures
        add_album_links(links, alid, ids).take(links.len() as int) == links,
        add_album_links(links, alid, ids).len() >= links.len(),
        forall|k: int|
            links.len() <= k < add_album_links(links, alid, ids).len() ==> #[trigger] add_album_links(
                links,
                alid,
                ids,
            )[k].album_id == alid && ids.contains(add_album_links(links, alid, ids)[k].artist_id),
        forall|a: u64|
            ids.contains(a) ==> #[trigger] has_album_link(add_album_links(links, alid, ids), alid, a),
        forall|al: u64, a: u64|
            #[trigger] has_album_link(links, al, a) ==> has_album_link(
                add_album_links(links, alid, ids),
                al,
                a,
            ),
    decreases ids.len(),
{
    if ids.len() > 0 {
        lemma_add_album_links(links, alid, ids.drop_last());
        let l1 = add_album_links(links, alid, ids.drop_last());
        let r = add_album_links(links, alid, ids);
        assert(forall|a: u64| ids.drop_last().contains(a) ==> ids.contains(a));
        assert(r.take(links.len() as int) =~= links);
        assert forall|al: u64, a: u64| #[trigger] has_album_link(l1, al, a) implies
            has_album_link(r, al, a) by {
            let w = choose|w: int|
                0 <= w < l1.len() && l1[w].album_id == al && l1[w].artist_id == a;
            assert(r[w].album_id == al && r[w].artist_id == a);
        }
        assert forall|a: u64| ids.contains(a) implies #[trigger] has_album_link(r, alid, a) by {
            if a == ids.last() {
                if has_album_link(l1, alid, a) {
                } else {
                    assert(r[r.len() - 1].album_id == alid && r[r.len() - 1].artist_id == a);
                }
            } else {
                let w = choose|w: int| 0 <= w < ids.len() && ids[w] == a;
                assert(ids.drop_last()[w] == a);
                assert(ids.drop_last().contains(a));
                assert(has_album_link(l1, alid, a));
            }
        }
        assert forall|al: u64, a: u64| #[trigger] has_album_link(links, al, a) implies
            has_album_link(r, al, a) by {
            assert(has_album_link(l1, al, a));
        }
    }
}

fn find_album_link(links: &Vec<AlbumArtistRow>, alid: u64, aid: u64) -> (r: bool)
    ensures
        r == has_album_link(links@, alid, aid),
{
    let mut i: usize = 0;
    while i < links.len()
        invariant
            i <= links@.len(),
            forall|k: int|
                0 <= k < i ==> !(links@[k].album_id == alid && links@[k].artist_id == aid),
        decreases links@.len() - i,
    {
        if links[i].album_id == alid && links[i].artist_id == aid {
            assert(has_album_link(links@, alid, aid));
            return true;
        }
        i = i + 1;
    }
    false
}

impl Catalog {
    /// Map an album title plus its primary artist to an album id, creating
    /// the album on first sight; links every contributing artist to the
    /// album either way, and files the embedded cover art only when the
    /// album is created.
    pub fn resolve_album(
        &mut self,
        title: &str,
        album_artist_id: u64,
        artist_ids: &Vec<u64>,
        cover: Option<&CoverImage>,
        covers: &mut CoverStore,
        now: i64,
    ) -> (r: u64)
        requires
            old(self).wf(),
            old(self).next_id < u64::MAX,
            artist_ids@.len() > 0,
            old(covers).wf(),
        ensures
            final(self).wf(),
            final(covers).wf(),
            final(self).artists == old(self).artists,
            final(self).tracks == old(self).tracks,
            final(self).track_artists == old(self).track_artists,
            final(self).playlists == old(self).playlists,
            final(self).playlist_tracks == old(self).playlist_tracks,
            final(self).roots == old(self).roots,
            has_album(final(self).albums@, title@, album_artist_id),
            r == album_id_of(final(self).albums@, title@, album_artist_id),
            final(self).album_artists@ == add_album_links(
                old(self).album_artists@,
                r,
                artist_ids@,
            ),
            has_album(old(self).albums@, title@, album_artist_id) ==> {
                &&& final(self).albums == old(self).albums
                &&& final(self).next_id == old(self).next_id
                &&& *final(covers) == *old(covers)
            },
            !has_album(old(self).albums@, title@, album_artist_id) ==> {
                &&& final(self).albums@.len() == old(self).albums@.len() + 1
                &&& final(self).albums@.take(old(self).albums@.len() as int) == old(self).albums@
                &&& final(self).albums@.last().id == old(self).next_id
                &&& final(self).albums@.last().title@ == title@
                &&& final(self).albums@.last().artist_id == album_artist_id
                &&& final(self).albums@.last().year is None
                &&& final(self).albums@.last().created_at == now
                &&& r == old(self).next_id
                &&& final(self).next_id == old(self).next_id + 1
                &&& (cover matches Some(img) ==> {
                    &&& final(covers).view_files() == spec_store(
                        old(covers).view_files(),
                        img.data@,
                        img.mime@,
                    ).0
                    &&& final(self).albums@.last().cover_art matches Some(ca) && ca@
                        == spec_cover_filename(img.data@, img.mime@)
                })
                &&& (cover is None ==> *final(covers) == *old(covers)
                    && final(self).albums@.last().cover_art is None)
            },
    {
        let alid: u64;
        match find_album(&self.albums, title, album_artist_id) {
            Some(i) => {
                proof {
                    let w = choose|w: int|
                        0 <= w < self.albums@.len() && self.albums@[w].title@ == title@
                            && self.albums@[w].artist_id == album_artist_id;
                    if w < i as int {
                        assert(false);
                    }
                    if (i as int) < w {
                        assert(false);
                    }
                }
                alid = self.albums[i].id;
            },
            None => {
                let id = self.next_id;
                self.next_id = self.next_id + 1;
                let cover_art: Option<String> = match cover {
                    Some(img) => {
                        let (fname, _created) = covers.store(img);
                        Some(fname)
                    },
                    None => None,
                };
                let row = AlbumRow {
                    id,
                    title: title.to_owned(),
                    artist_id: album_artist_id,
                    cover_art,
                    year: None,
                    created_at: now,
                };
                self.albums.push(row);
                proof {
                    assert(self.albums@.take(old(self).albums@.len() as int) =~= old(
                        self,
                    ).albums@);
                    assert(has_album(self.albums@, title@, album_artist_id)) by {
                        assert(self.albums@[self.albums@.len() - 1].title@ == title@);
                    }
                    let w = choose|w: int|
                        0 <= w < self.albums@.len() && self.albums@[w].title@ == title@
                            && self.albums@[w].artist_id == album_artist_id;
                    if w < self.albums@.len() - 1 {
                        assert(old(self).albums@[w].title@ == title@);
                        assert(false);
                    }
                    assert(self.albums_wf()) by {
                        assert(forall|k: int|
                            0 <= k < old(self).albums@.len() ==> self.albums@[k] == old(
                                self,
                            ).albums@[k]);
                    }
                }
                alid = id;
            },
        }
        // link every contributing artist to the album
        let ghost mid = *self;
        let ghost links0 = self.album_artists@;
        let mut k: usize = 0;
        while k < artist_ids.len()
            invariant
                k <= artist_ids@.len(),
                self.artists == mid.artists,
                self.albums == mid.albums,
                self.tracks == mid.tracks,
                self.track_artists == mid.track_artists,
                self.playlists == mid.playlists,
                self.playlist_tracks == mid.playlist_tracks,
                self.roots == mid.roots,
                self.next_id == mid.next_id,
                links0 == mid.album_artists@,
                self.album_artists@ == add_album_links(links0, alid, artist_ids@.take(k as int)),
                forall|i: int, j: int|
                    0 <= i < j < self.album_artists@.len() ==> !(self.album_artists@[i].album_id
                        == self.album_artists@[j].album_id && self.album_artists@[i].artist_id
                        == self.album_artists@[j].artist_id),
            decreases artist_ids@.len() - k,
        {
            let aid = artist_ids[k];
            proof {
                assert(artist_ids@.take(k + 1).drop_last() =~= artist_ids@.take(k as int));
                assert(artist_ids@.take(k + 1).last() == artist_ids@[k as int]);
            }
            if !find_album_link(&self.album_artists, alid, aid) {
                self.album_artists.push(AlbumArtistRow { album_id: alid, artist_id: aid });
                proof {
                    let prev = self.album_artists@.drop_last();
                    assert(forall|i: int|
                        0 <= i < prev.len() ==> !(prev[i].album_id == alid && prev[i].artist_id
                            == aid));
                }
            }
            k = k + 1;
        }
        assert(artist_ids@.take(artist_ids@.len() as int) == artist_ids@);
        proof {
            lemma_add_album_links(links0, alid, artist_ids@);
            assert(self.linked_wf()) by {
                assert(forall|i: int|
                    0 <= i < self.tracks@.len() ==> has_track_link(
                        self.track_artists@,
                        self.tracks@[i].id,
                        self.tracks@[i].artist_id,
                    ));
                assert forall|i: int| 0 <= i < self.albums@.len() implies #[trigger] album_has_link(
                    self.album_artists@,
                    self.albums@[i].id,
                ) by {
                    if i < old(self).albums@.len() {
                        assert(album_has_link(old(self).album_artists@, old(self).albums@[i].id));
                        let w = choose|w: int|
                            0 <= w < old(self).album_artists@.len() && old(
                                self,
                            ).album_artists@[w].album_id == old(self).albums@[i].id;
                        assert(self.album_artists@[w].album_id == self.albums@[i].id);
                    } else {
                        assert(has_album_link(self.album_artists@, alid, artist_ids@[0])) by {
                            assert(artist_ids@.contains(artist_ids@[0]));
                        }
                        let w = choose|w: int|
                            0 <= w < self.album_artists@.len() && self.album_artists@[w].album_id
                                == alid && self.album_artists@[w].artist_id == artist_ids@[0];
                        assert(album_has_link(self.album_artists@, self.albums@[i].id));
                    }
                }
            }
        }
        alid
    }
}

/// The index of the album with this title and primary artist, if any.
fn find_album(albums: &Vec<AlbumRow>, title: &str, artist_id: u64) -> (r: Option<usize>)
    ensures
        r matches Some(i) ==> i < albums@.len() && albums@[i as int].title@ == title@
            && albums@[i as int].artist_id == artist_id,
        r is None ==> !has_album(albums@, title@, artist_id),
{
    let mut i: usize = 0;
    while i < albums.len()
        invariant
            i <= albums@.len(),
            forall|k: int|
                0 <= k < i ==> !(albums@[k].title@ == title@ && albums@[k].artist_id == artist_id),
        decreases albums@.len() - i,
    {
        if albums[i].artist_id == artist_id && eq_str(albums[i].title.as_str(), title) {
            return Some(i);
        }
        i = i + 1;
    }
    None
}


// ---- track upsert ----

/// The ids with later duplicates dropped, first occurrences kept in order.
pub open spec fn spec_dedup(ids: Seq<u64>) -> Seq<u64>
    decreases ids.len(),
{
    if ids.len() == 0 {
        ids
    } else {
        let rest = spec_dedup(ids.drop_last());
        if ids.drop_last().contains(ids.last()) {
            rest
        } else {
            rest.push(ids.last())
        }
    }
}

pub proof fn lemma_dedup(ids: Seq<u64>)
    ensures
        forall|x: u64| #[trigger] spec_dedup(ids).contains(x) <==> ids.contains(x),
        forall|i: int, j: int|
            0 <= i < j < spec_dedup(ids).len() ==> spec_dedup(ids)[i] != spec_dedup(ids)[j],
    decreases ids.len(),
{
    if ids.len() > 0 {
        lemma_dedup(ids.drop_last());
        let rest = spec_dedup(ids.drop_last());
        let r = spec_dedup(ids);
        assert forall|x: u64| #[trigger] r.contains(x) <==> ids.contains(x) by {
            if ids.contains(x) {
                let w = choose|w: int| 0 <= w < ids.len() && ids[w] == x;
                if w < ids.len() - 1 {
                    assert(ids.drop_last()[w] == x);
                    assert(ids.drop_last().contains(x));
                    assert(rest.contains(x));
                    if ids.drop_last().contains(ids.last()) {
                    } else {
                        let v = choose|v: int| 0 <= v < rest.len() && rest[v] == x;
                        assert(r[v] == x);
                    }
                } else {
                    if ids.drop_last().contains(ids.last()) {
                        assert(rest.contains(x));
                    } else {
                        assert(r[r.len() - 1] == x);
                    }
                }
            }
            if r.contains(x) {
                let w = choose|w: int| 0 <= w < r.len() && r[w] == x;
                if w < rest.len() {
                    assert(rest[w] == x);
                    assert(rest.contains(x));
                    assert(ids.drop_last().contains(x));
                    let v = choose|v: int| 0 <= v < ids.drop_last().len() && ids.drop_last()[v]
                        == x;
                    assert(ids[v] == x);
                } else {
                    assert(ids[ids.len() - 1] == x);
                }
            }
        }
        if !ids.drop_last().contains(ids.last()) {
            assert(!rest.contains(ids.last()));
            assert(forall|i: int| 0 <= i < rest.len() ==> r[i] == rest[i]);
            assert forall|i: int, j: int| 0 <= i < j < r.len() implies r[i] != r[j] by {
                if j == r.len() - 1 {
                    assert(rest.contains(r[i])) by {
                        assert(rest[i] == r[i]);
                    }
                }
            }
        }
    }
}

/// The track-artist join rows for one track: one row per distinct id.
pub open spec fn links_of(tid: u64, ids: Seq<u64>) -> Seq<TrackArtistRow> {
    spec_dedup(ids).map_values(|a: u64| TrackArtistRow { track_id: tid, artist_id: a })
}

/// The track-artist join after re-associating one track: its stale rows are
/// removed and rows for the given artists inserted.
pub open spec fn replace_track_links(links: Seq<TrackArtistRow>, tid: u64, ids: Seq<u64>) -> Seq<
    TrackArtistRow,
> {
    links.filter(|l: TrackArtistRow| l.track_id != tid) + links_of(tid, ids)
}

/// The field values an upsert writes: everything from the metadata record,
/// with identity, play count and like flag as given.
pub open spec fn upserted_row(
    t: TrackRow,
    tid: u64,
    p: Seq<char>,
    meta: TrackMeta,
    artist_ids: Seq<u64>,
    album_id: u64,
    mtime: i64,
    now: i64,
    play_count: u32,
    liked: bool,
) -> bool {
    &&& t.id == tid
    &&& t.path@ == p
    &&& t.title == meta.title
    &&& t.artist_id == artist_ids[0]
    &&& t.album_id == album_id
    &&& t.duration_sec == meta.duration
    &&& t.track_number == meta.track_number
    &&& t.disc_number == meta.disc_number
    &&& t.year == meta.year
    &&& t.genre == meta.genre
    &&& t.bitrate == meta.bitrate
    &&& t.play_count == play_count
    &&& t.liked == liked
    &&& t.mtime == mtime
    &&& t.created_at == now
}

/// The index of the track with this path, if any.
pub fn find_track(tracks: &Vec<TrackRow>, path: &str) -> (r: Option<usize>)
    ensures
        r matches Some(i) ==> i < tracks@.len() && tracks@[i as int].path@ == path@,
        r is None ==> !has_track_path(tracks@, path@),
{
    let mut i: usize = 0;
    while i < tracks.len()
        invariant
            i <= tracks@.len(),
            forall|k: int| 0 <= k < i ==> tracks@[k].path@ != path@,
        decreases tracks@.len() - i,
    {
        if eq_str(tracks[i].path.as_str(), path) {
            return Some(i);
        }
        i = i + 1;
    }
    None
}

impl Catalog {
    /// Insert a track by path, or update every mutable field of the row
    /// already at that path; either way the track's artist links are
    /// replaced by the given artists. Play count and like flag survive an
    /// update and start at zero/false on insert.
    pub fn upsert_track(
        &mut self,
        path: &str,
        meta: &TrackMeta,
        artist_ids: &Vec<u64>,
        album_id: u64,
        mtime: i64,
        now: i64,
    ) -> (tid: u64)
        requires
            old(self).wf(),
            old(self).next_id < u64::MAX,
            artist_ids@.len() > 0,
        ensures
            final(self).wf(),
            final(self).artists == old(self).artists,
            final(self).albums == old(self).albums,
            final(self).album_artists == old(self).album_artists,
            final(self).playlists == old(self).playlists,
            final(self).playlist_tracks == old(self).playlist_tracks,
            final(self).roots == old(self).roots,
            final(self).track_artists@ == replace_track_links(
                old(self).track_artists@,
                tid,
                artist_ids@,
            ),
            has_track_path(final(self).tracks@, path@),
            has_track_path(old(self).tracks@, path@) ==> {
                let idx = track_idx_of(old(self).tracks@, path@);
                &&& tid == old(self).tracks@[idx].id
                &&& final(self).next_id == old(self).next_id
                &&& final(self).tracks@.len() == old(self).tracks@.len()
                &&& (forall|k: int|
                    0 <= k < old(self).tracks@.len() && k != idx ==> final(self).tracks@[k] == old(
                        self,
                    ).tracks@[k])
                &&& upserted_row(
                    final(self).tracks@[idx],
                    tid,
                    path@,
                    *meta,
                    artist_ids@,
                    album_id,
                    mtime,
                    now,
                    old(self).tracks@[idx].play_count,
                    old(self).tracks@[idx].liked,
                )
            },
            !has_track_path(old(self).tracks@, path@) ==> {
                &&& tid == old(self).next_id
                &&& final(self).next_id == old(self).next_id + 1
                &&& final(self).tracks@.len() == old(self).tracks@.len() + 1
                &&& final(self).tracks@.take(old(self).tracks@.len() as int) == old(self).tracks@
                &&& upserted_row(
                    final(self).tracks@.last(),
                    tid,
                    path@,
                    *meta,
                    artist_ids@,
                    album_id,
                    mtime,
                    now,
                    0,
                    false,
                )
            },
    {
        let the_id: u64;
        match find_track(&self.tracks, path) {
            Some(i) => {
                proof {
                    let w = track_idx_of(self.tracks@, path@);
                    assert(self.tracks@[w].path@ == path@) by {
                        assert(has_track_path(self.tracks@, path@)) by {
                            assert(self.tracks@[i as int].path@ == path@);
                        }
                    }
                    if w < i as int {
                        assert(false);
                    }
                    if (i as int) < w {
                        assert(false);
                    }
                }
                let old_row = &self.tracks[i];
                the_id = old_row.id;
                let row = TrackRow {
                    id: the_id,
                    path: path.to_owned(),
                    title: clone_string(&meta.title),
                    artist_id: artist_ids[0],
                    album_id,
                    duration_sec: meta.duration,
                    track_number: meta.track_number,
                    disc_number: meta.disc_number,
                    year: meta.year,
                    genre: clone_opt_string(&meta.genre),
                    bitrate: meta.bitrate,
                    play_count: old_row.play_count,
                    liked: old_row.liked,
                    mtime,
                    created_at: now,
                };
                self.tracks.remove(i);
                self.tracks.insert(i, row);
                proof {
                    assert(self.tracks@ =~= old(self).tracks@.update(
                        i as int,
                        self.tracks@[i as int],
                    ));
                    assert(self.tracks_wf()) by {
                        assert(forall|k: int|
                            0 <= k < self.tracks@.len() && k != i as int ==> self.tracks@[k]
                                == old(self).tracks@[k]);
                        assert(self.tracks@[i as int].path@ == old(self).tracks@[i as int].path@);
                        assert(self.tracks@[i as int].id == old(self).tracks@[i as int].id);
                    }
                    assert(has_track_path(self.tracks@, path@)) by {
                        assert(self.tracks@[i as int].path@ == path@);
                    }
                }
            },
            None => {
                the_id = self.next_id;
                self.next_id = self.next_id + 1;
                let row = TrackRow {
                    id: the_id,
                    path: path.to_owned(),
                    title: clone_string(&meta.title),
                    artist_id: artist_ids[0],
                    album_id,
                    duration_sec: meta.duration,
                    track_number: meta.track_number,
                    disc_number: meta.disc_number,
                    year: meta.year,
                    genre: clone_opt_string(&meta.genre),
                    bitrate: meta.bitrate,
                    play_count: 0,
                    liked: false,
                    mtime,
                    created_at: now,
                };
                self.tracks.push(row);
                proof {
                    assert(self.tracks@.take(old(self).tracks@.len() as int) =~= old(
                        self,
                    ).tracks@);
                    assert(self.tracks_wf()) by {
                        assert(forall|k: int|
                            0 <= k < old(self).tracks@.len() ==> self.tracks@[k] == old(
                                self,
                            ).tracks@[k]);
                    }
                    assert(has_track_path(self.tracks@, path@)) by {
                        assert(self.tracks@[self.tracks@.len() - 1].path@ == path@);
                    }
                }
            },
        }
        // re-associate artist links: stale rows out, current ones in
        let ghost mid = *self;
        let ghost links0 = self.track_artists@;
        let ghost keep = |l: TrackArtistRow| l.track_id != the_id;
        let mut kept: Vec<TrackArtistRow> = Vec::new();
        let mut j: usize = 0;
        proof {
            reveal(Seq::filter);
            assert(links0.take(0).filter(keep) =~= kept@);
        }
        while j < self.track_artists.len()
            invariant
                j <= links0.len(),
                *self == mid,
                links0 == self.track_artists@,
                kept@ == links0.take(j as int).filter(keep),
                keep == (|l: TrackArtistRow| l.track_id != the_id),
            decreases links0.len() - j,
        {
            let l = self.track_artists[j];
            proof {
                reveal(Seq::filter);
                assert(links0.take(j + 1).drop_last() =~= links0.take(j as int));
                assert(links0.take(j + 1).last() == links0[j as int]);
            }
            if l.track_id != the_id {
                kept.push(l);
            }
            j = j + 1;
        }
        assert(links0.take(links0.len() as int) == links0);
        let mut seen: Vec<u64> = Vec::new();
        let mut added: Vec<TrackArtistRow> = Vec::new();
        let mut k: usize = 0;
        while k < artist_ids.len()
            invariant
                k <= artist_ids@.len(),
                *self == mid,
                seen@ == spec_dedup(artist_ids@.take(k as int)),
                added@ == links_of(the_id, artist_ids@.take(k as int)),
            decreases artist_ids@.len() - k,
        {
            let a = artist_ids[k];
            proof {
                assert(artist_ids@.take(k + 1).drop_last() =~= artist_ids@.take(k as int));
                assert(artist_ids@.take(k + 1).last() == artist_ids@[k as int]);
            }
            let dup = contains_u64(&seen, a);
            proof {
                lemma_dedup(artist_ids@.take(k as int));
                assert(dup == artist_ids@.take(k as int).contains(a));
            }
            if !dup {
                seen.push(a);
                added.push(TrackArtistRow { track_id: the_id, artist_id: a });
                assert(added@ =~= links_of(the_id, artist_ids@.take(k + 1)));
            } else {
                assert(added@ =~= links_of(the_id, artist_ids@.take(k + 1)));
            }
            k = k + 1;
        }
        assert(artist_ids@.take(artist_ids@.len() as int) == artist_ids@);
        kept.append(&mut added);
        self.track_artists = kept;
        proof {
            assert(self.track_artists@ == replace_track_links(links0, the_id, artist_ids@));
            let fin = self.track_artists@;
            let fk = links0.filter(keep);
            let fa = links_of(the_id, artist_ids@);
            lemma_dedup(artist_ids@);
            // pairwise distinctness of the rebuilt join
            let rel = |p: TrackArtistRow, q: TrackArtistRow|
                !(p.track_id == q.track_id && p.artist_id == q.artist_id);
            assert forall|i: int, j: int| 0 <= i < j < links0.len() implies #[trigger] rel(
                links0[i],
                links0[j],
            ) by {}
            assert forall|i: int, j: int| 0 <= i < j < links0.len() implies #[trigger] rel(
                links0[j],
                links0[i],
            ) by {}
            lemma_filter_pairs(links0, keep, rel);
            let dd = spec_dedup(artist_ids@);
            assert forall|x: int, y: int| 0 <= x < y < fin.len() implies !(fin[x].track_id
                == fin[y].track_id && fin[x].artist_id == fin[y].artist_id) by {
                broadcast use vstd::seq_lib::group_filter_ensures;

                if y < fk.len() {
                    assert(rel(fk[x], fk[y]));
                } else if x >= fk.len() {
                    assert(fin[x] == fa[x - fk.len()]);
                    assert(fin[y] == fa[y - fk.len()]);
                    assert(fin[x].artist_id == dd[x - fk.len()]);
                    assert(fin[y].artist_id == dd[y - fk.len()]);
                    assert(dd[x - fk.len()] != dd[y - fk.len()]);
                } else {
                    assert(fin[x] == fk[x]);
                    assert(keep(fk[x]));
                    assert(fin[y] == fa[y - fk.len()]);
                    assert(fin[y].track_id == the_id);
                }
            }
            // every track still carries its primary link
            assert forall|t: int| 0 <= t < self.tracks@.len() implies has_track_link(
                fin,
                self.tracks@[t].id,
                self.tracks@[t].artist_id,
            ) by {
                broadcast use vstd::seq_lib::group_filter_ensures;

                if self.tracks@[t].id == the_id {
                    assert(spec_dedup(artist_ids@).contains(artist_ids@[0])) by {
                        assert(artist_ids@.contains(artist_ids@[0]));
                    }
                    let w = choose|w: int|
                        0 <= w < spec_dedup(artist_ids@).len() && spec_dedup(artist_ids@)[w]
                            == artist_ids@[0];
                    assert(fin[fk.len() + w].track_id == the_id && fin[fk.len() + w].artist_id
                        == artist_ids@[0]);
                    assert(self.tracks@[t].artist_id == artist_ids@[0]);
                } else {
                    assert(has_track_link(links0, self.tracks@[t].id, self.tracks@[t].artist_id))
                        by {
                        if has_track_path(old(self).tracks@, path@) {
                            assert(mid.tracks@[t] == old(self).tracks@[t] || t
                                == track_idx_of(old(self).tracks@, path@));
                        } else {
                            if t < old(self).tracks@.len() {
                                assert(mid.tracks@[t] == old(self).tracks@[t]);
                            }
                        }
                    };
                    let w = choose|w: int|
                        0 <= w < links0.len() && links0[w].track_id == self.tracks@[t].id
                            && links0[w].artist_id == self.tracks@[t].artist_id;
                    assert(keep(links0[w]));
                    assert(links0.filter(keep).contains(links0[w]));
                    let v = choose|v: int| 0 <= v < fk.len() && fk[v] == links0[w];
                    assert(fin[v] == links0[w]);
                }
            }
            // every id that had a track still has one
            assert forall|t2: u64| #[trigger] has_track_id(old(self).tracks@, t2) implies
                has_track_id(self.tracks@, t2) by {
                let w = choose|w: int|
                    0 <= w < old(self).tracks@.len() && old(self).tracks@[w].id == t2;
                if has_track_path(old(self).tracks@, path@) {
                    let idx = track_idx_of(old(self).tracks@, path@);
                    if w == idx {
                        assert(self.tracks@[w].id == t2);
                    } else {
                        assert(self.tracks@[w] == old(self).tracks@[w]);
                    }
                } else {
                    assert(self.tracks@[w] == old(self).tracks@[w]);
                }
            }
            assert(self.refs_wf()) by {
                assert forall|i2: int| 0 <= i2 < fin.len() implies has_track_id(
                    self.tracks@,
                    (#[trigger] fin[i2]).track_id,
                ) by {
                    broadcast use vstd::seq_lib::group_filter_ensures;

                    if i2 < fk.len() {
                        lemma_filter_elem(links0, keep, i2);
                        let w = choose|w: int| 0 <= w < links0.len() && links0[w] == fk[i2];
                        assert(has_track_id(old(self).tracks@, links0[w].track_id));
                    } else {
                        assert(fin[i2].track_id == the_id);
                        assert(has_track_id(self.tracks@, the_id)) by {
                            let v = track_idx_of(self.tracks@, path@);
                            assert(self.tracks@[v].id == the_id);
                        }
                    }
                }
                assert forall|i2: int| 0 <= i2 < self.playlist_tracks@.len() implies has_track_id(
                    self.tracks@,
                    (#[trigger] self.playlist_tracks@[i2]).track_id,
                ) by {
                    assert(has_track_id(old(self).tracks@, self.playlist_tracks@[i2].track_id));
                }
            }
        }
        the_id
    }
}


// ---- deletion reconciliation ----

/// Whether the track with id `tid` has a path among `found`.
pub open spec fn surviving_track(tracks: Seq<TrackRow>, found: Seq<String>, tid: u64) -> bool {
    exists|i: int|
        0 <= i < tracks.len() && tracks[i].id == tid && path_in(found, tracks[i].path@)
}

fn track_survives(tracks: &Vec<TrackRow>, found: &Vec<String>, tid: u64) -> (r: bool)
    ensures
        r == surviving_track(tracks@, found@, tid),
{
    let mut i: usize = 0;
    while i < tracks.len()
        invariant
            i <= tracks@.len(),
            forall|k: int|
                0 <= k < i ==> !(tracks@[k].id == tid && path_in(found@, tracks@[k].path@)),
        decreases tracks@.len() - i,
    {
        if tracks[i].id == tid {
            if contains_path(found, tracks[i].path.as_str()) {
                assert(surviving_track(tracks@, found@, tid));
                return true;
            }
        }
        i = i + 1;
    }
    false
}

pub(crate) fn clone_track_row(t: &TrackRow) -> (r: TrackRow)
    ensures
        r == *t,
{
    TrackRow {
        id: t.id,
        path: clone_string(&t.path),
        title: clone_string(&t.title),
        artist_id: t.artist_id,
        album_id: t.album_id,
        duration_sec: t.duration_sec,
        track_number: t.track_number,
        disc_number: t.disc_number,
        year: t.year,
        genre: clone_opt_string(&t.genre),
        bitrate: t.bitrate,
        play_count: t.play_count,
        liked: t.liked,
        mtime: t.mtime,
        created_at: t.created_at,
    }
}

pub(crate) fn clone_album_row(a: &AlbumRow) -> (r: AlbumRow)
    ensures
        r == *a,
{
    AlbumRow {
        id: a.id,
        title: clone_string(&a.title),
        artist_id: a.artist_id,
        cover_art: clone_opt_string(&a.cover_art),
        year: a.year,
        created_at: a.created_at,
    }
}

impl Catalog {
    /// Remove every track whose path was not observed this run, together
    /// with its artist links and playlist entries; this is the sole
    /// deletion mechanism, and it touches nothing else.
    pub fn delete_absent(&mut self, found: &Vec<String>)
        requires
            old(self).wf(),
        ensures
            final(self).wf(),
            final(self).artists == old(self).artists,
            final(self).albums == old(self).albums,
            final(self).album_artists == old(self).album_artists,
            final(self).playlists == old(self).playlists,
            final(self).roots == old(self).roots,
            final(self).next_id == old(self).next_id,
            final(self).tracks@ == old(self).tracks@.filter(
                (|t: TrackRow| path_in(found@, t.path@)),
            ),
            final(self).track_artists@ == old(self).track_artists@.filter(
                (|l: TrackArtistRow| surviving_track(old(self).tracks@, found@, l.track_id)),
            ),
            final(self).playlist_tracks@ == old(self).playlist_tracks@.filter(
                (|e: PlaylistTrackRow| surviving_track(old(self).tracks@, found@, e.track_id)),
            ),
    {
        let ghost tracks0 = self.tracks@;
        let ghost links0 = self.track_artists@;
        let ghost pts0 = self.playlist_tracks@;
        let ghost keep_t = |t: TrackRow| path_in(found@, t.path@);
        let ghost keep_l = |l: TrackArtistRow| surviving_track(tracks0, found@, l.track_id);
        let ghost keep_e = |e: PlaylistTrackRow| surviving_track(tracks0, found@, e.track_id);

        let mut new_tracks: Vec<TrackRow> = Vec::new();
        let mut i: usize = 0;
        proof {
            reveal(Seq::filter);
            assert(tracks0.take(0).filter(keep_t) =~= new_tracks@);
        }
        while i < self.tracks.len()
            invariant
                i <= tracks0.len(),
                tracks0 == self.tracks@,
                found@ == found@,
                keep_t == (|t: TrackRow| path_in(found@, t.path@)),
                new_tracks@ == tracks0.take(i as int).filter(keep_t),
            decreases tracks0.len() - i,
        {
            proof {
                reveal(Seq::filter);
                assert(tracks0.take(i + 1).drop_last() =~= tracks0.take(i as int));
                assert(tracks0.take(i + 1).last() == tracks0[i as int]);
            }
            if contains_path(found, self.tracks[i].path.as_str()) {
                new_tracks.push(clone_track_row(&self.tracks[i]));
            }
            i = i + 1;
        }
        assert(tracks0.take(tracks0.len() as int) == tracks0);

        let mut new_links: Vec<TrackArtistRow> = Vec::new();
        let mut j: usize = 0;
        proof {
            reveal(Seq::filter);
            assert(links0.take(0).filter(keep_l) =~= new_links@);
        }
        while j < self.track_artists.len()
            invariant
                j <= links0.len(),
                tracks0 == self.tracks@,
                links0 == self.track_artists@,
                keep_l == (|l: TrackArtistRow| surviving_track(tracks0, found@, l.track_id)),
                new_links@ == links0.take(j as int).filter(keep_l),
            decreases links0.len() - j,
        {
            proof {
                reveal(Seq::filter);
                assert(links0.take(j + 1).drop_last() =~= links0.take(j as int));
                assert(links0.take(j + 1).last() == links0[j as int]);
            }
            let l = self.track_artists[j];
            if track_survives(&self.tracks, found, l.track_id) {
                new_links.push(l);
            }
            j = j + 1;
        }
        assert(links0.take(links0.len() as int) == links0);

        let mut new_pts: Vec<PlaylistTrackRow> = Vec::new();
        let mut k: usize = 0;
        proof {
            reveal(Seq::filter);
            assert(pts0.take(0).filter(keep_e) =~= new_pts@);
        }
        while k < self.playlist_tracks.len()
            invariant
                k <= pts0.len(),
                tracks0 == self.tracks@,
                pts0 == self.playlist_tracks@,
                keep_e == (|e: PlaylistTrackRow| surviving_track(tracks0, found@, e.track_id)),
                new_pts@ == pts0.take(k as int).filter(keep_e),
            decreases pts0.len() - k,
        {
            proof {
                reveal(Seq::filter);
                assert(pts0.take(k + 1).drop_last() =~= pts0.take(k as int));
                assert(pts0.take(k + 1).last() == pts0[k as int]);
            }
            let e = self.playlist_tracks[k];
            if track_survives(&self.tracks, found, e.track_id) {
                new_pts.push(e);
            }
            k = k + 1;
        }
        assert(pts0.take(pts0.len() as int) == pts0);

        self.tracks = new_tracks;
        self.track_artists = new_links;
        self.playlist_tracks = new_pts;

        proof {
            broadcast use vstd::seq_lib::group_filter_ensures;

            let ft = self.tracks@;
            let fl = self.track_artists@;
            // uniqueness carries over to the filtered relations
            let rel_t = |p: TrackRow, q: TrackRow| p.path@ != q.path@ && p.id != q.id;
            assert forall|x: int, y: int| 0 <= x < y < tracks0.len() implies #[trigger] rel_t(
                tracks0[x],
                tracks0[y],
            ) by {}
            assert forall|x: int, y: int| 0 <= x < y < tracks0.len() implies #[trigger] rel_t(
                tracks0[y],
                tracks0[x],
            ) by {}
            lemma_filter_pairs(tracks0, keep_t, rel_t);
            assert(self.tracks_wf()) by {
                assert(forall|x: int, y: int|
                    0 <= x < y < ft.len() ==> rel_t(ft[x], ft[y]));
            }
            let rel_l = |p: TrackArtistRow, q: TrackArtistRow|
                !(p.track_id == q.track_id && p.artist_id == q.artist_id);
            assert forall|x: int, y: int| 0 <= x < y < links0.len() implies #[trigger] rel_l(
                links0[x],
                links0[y],
            ) by {}
            assert forall|x: int, y: int| 0 <= x < y < links0.len() implies #[trigger] rel_l(
                links0[y],
                links0[x],
            ) by {}
            lemma_filter_pairs(links0, keep_l, rel_l);
            let rel_e = |p: PlaylistTrackRow, q: PlaylistTrackRow|
                !(p.playlist_id == q.playlist_id && p.track_id == q.track_id);
            assert forall|x: int, y: int| 0 <= x < y < pts0.len() implies #[trigger] rel_e(
                pts0[x],
                pts0[y],
            ) by {}
            assert forall|x: int, y: int| 0 <= x < y < pts0.len() implies #[trigger] rel_e(
                pts0[y],
                pts0[x],
            ) by {}
            lemma_filter_pairs(pts0, keep_e, rel_e);
            let fe = self.playlist_tracks@;
            assert(self.links_wf()) by {
                assert forall|x: int, y: int| 0 <= x < y < fl.len() implies !(fl[x].track_id
                    == fl[y].track_id && fl[x].artist_id == fl[y].artist_id) by {
                    assert(rel_l(links0.filter(keep_l)[x], links0.filter(keep_l)[y]));
                }
                assert forall|x: int, y: int| 0 <= x < y < fe.len() implies !(fe[x].playlist_id
                    == fe[y].playlist_id && fe[x].track_id == fe[y].track_id) by {
                    assert(rel_e(pts0.filter(keep_e)[x], pts0.filter(keep_e)[y]));
                }
            }
            // surviving tracks keep their primary artist link
            assert forall|t: int| 0 <= t < ft.len() implies has_track_link(
                fl,
                ft[t].id,
                ft[t].artist_id,
            ) by {
                lemma_filter_elem(tracks0, keep_t, t);
                let w = choose|w: int| 0 <= w < tracks0.len() && tracks0[w] == ft[t];
                assert(has_track_link(links0, tracks0[w].id, tracks0[w].artist_id));
                let v = choose|v: int|
                    0 <= v < links0.len() && links0[v].track_id == tracks0[w].id
                        && links0[v].artist_id == tracks0[w].artist_id;
                assert(keep_t(ft[t]));
                assert(keep_l(links0[v])) by {
                    assert(surviving_track(tracks0, found@, links0[v].track_id)) by {
                        assert(tracks0[w].id == links0[v].track_id && path_in(
                            found@,
                            tracks0[w].path@,
                        ));
                    }
                }
                assert(links0.filter(keep_l).contains(links0[v]));
                let u = choose|u: int| 0 <= u < fl.len() && fl[u] == links0[v];
                assert(fl[u].track_id == ft[t].id && fl[u].artist_id == ft[t].artist_id);
            }
            // filtered rows all come from the old rows, so id bounds hold
            assert forall|t: int| 0 <= t < ft.len() implies ft[t].id < self.next_id by {
                lemma_filter_elem(tracks0, keep_t, t);
            }
            assert(self.linked_wf());
            assert(self.ids_wf());
            assert(self.refs_wf()) by {
                assert forall|i2: int| 0 <= i2 < fl.len() implies has_track_id(
                    ft,
                    (#[trigger] fl[i2]).track_id,
                ) by {
                    lemma_filter_elem(links0, keep_l, i2);
                    let w = choose|w: int| 0 <= w < links0.len() && links0[w] == fl[i2];
                    assert(keep_l(links0[w]));
                    let v = choose|v: int|
                        0 <= v < tracks0.len() && tracks0[v].id == links0[w].track_id && path_in(
                            found@,
                            tracks0[v].path@,
                        );
                    assert(keep_t(tracks0[v]));
                    assert(tracks0.filter(keep_t).contains(tracks0[v]));
                    let u = choose|u: int| 0 <= u < ft.len() && ft[u] == tracks0[v];
                    assert(ft[u].id == fl[i2].track_id);
                }
                assert forall|i2: int| 0 <= i2 < fe.len() implies has_track_id(
                    ft,
                    (#[trigger] fe[i2]).track_id,
                ) by {
                    lemma_filter_elem(pts0, keep_e, i2);
                    let w = choose|w: int| 0 <= w < pts0.len() && pts0[w] == fe[i2];
                    assert(keep_e(pts0[w]));
                    let v = choose|v: int|
                        0 <= v < tracks0.len() && tracks0[v].id == pts0[w].track_id && path_in(
                            found@,
                            tracks0[v].path@,
                        );
                    assert(keep_t(tracks0[v]));
                    assert(tracks0.filter(keep_t).contains(tracks0[v]));
                    let u = choose|u: int| 0 <= u < ft.len() && ft[u] == tracks0[v];
                    assert(ft[u].id == fe[i2].track_id);
                }
            }
        }
    }
}

} // verus!
