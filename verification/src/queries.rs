//! The catalog's read surface: the browse, search and playlist queries the
//! rest of the application consumes. Results are rows selected and ordered
//! by key, then converted to the public entity records; every query's
//! contract is stated constructively over the row sequences.

use vstd::prelude::*;
use rand::seq::SliceRandom;
use crate::strutil::{spec_digits, u64_to_string, spec_contains_ci, contains_ci, eq_str};
use crate::entities::{Track, Album, Artist, Genre, LibraryStats, UnifiedSearchResult, AudioStream};
use crate::catalog::{Catalog, TrackRow, AlbumRow, ArtistRow, PlaylistRow, PlaylistTrackRow, has_album_link};

verus! {

// ---- stable insertion sort over (key, value) pairs ----

/// `x` inserted behind every element with a key not above its own: the
/// insertion step of a stable, ascending insertion sort.
pub open spec fn spec_insert_pair<T>(s: Seq<(u64, T)>, x: (u64, T)) -> Seq<(u64, T)>
    decreases s.len(),
{
    if s.len() == 0 {
        seq![x]
    } else if s.last().0 <= x.0 {
        s.push(x)
    } else {
        spec_insert_pair(s.drop_last(), x).push(s.last())
    }
}

/// The pairs sorted ascending by key, equal keys keeping their order.
pub open spec fn spec_sort_pairs<T>(s: Seq<(u64, T)>) -> Seq<(u64, T)>
    decreases s.len(),
{
    if s.len() == 0 {
        s
    } else {
        spec_insert_pair(spec_sort_pairs(s.drop_last()), s.last())
    }
}

proof fn lemma_insert_pair_at<T>(s: Seq<(u64, T)>, x: (u64, T), j: int)
    requires
        0 <= j <= s.len(),
        forall|k: int| j <= k < s.len() ==> s[k].0 > x.0,
        j > 0 ==> s[j - 1].0 <= x.0,
    ensures
        spec_insert_pair(s, x) == s.take(j).push(x) + s.skip(j),
    decreases s.len(),
{
    if j == s.len() {
        if s.len() == 0 {
            assert(spec_insert_pair(s, x) =~= s.take(j).push(x) + s.skip(j));
        } else {
            assert(s.last().0 <= x.0);
            assert(spec_insert_pair(s, x) =~= s.take(j).push(x) + s.skip(j));
        }
    } else {
        assert(s[s.len() - 1].0 > x.0);
        assert(forall|k: int| j <= k < s.drop_last().len() ==> s.drop_last()[k].0 > x.0);
        lemma_insert_pair_at(s.drop_last(), x, j);
        assert(spec_insert_pair(s, x) == (s.drop_last().take(j).push(x) + s.drop_last().skip(
            j,
        )).push(s.last()));
        assert((s.drop_last().take(j).push(x) + s.drop_last().skip(j)).push(s.last()) =~= s.take(
            j,
        ).push(x) + s.skip(j));
    }
}

fn insert_sorted<T>(sorted: &mut Vec<(u64, T)>, x: (u64, T))
    ensures
        final(sorted)@ == spec_insert_pair(old(sorted)@, x),
{
    let ghost s = sorted@;
    let ghost key = x.0;
    let mut j: usize = sorted.len();
    while j > 0 && sorted[j - 1].0 > x.0
        invariant
            j <= s.len(),
            s == sorted@,
            key == x.0,
            forall|k: int| j <= k < s.len() ==> s[k].0 > key,
        decreases j,
    {
        j = j - 1;
    }
    proof {
        lemma_insert_pair_at(s, x, j as int);
    }
    sorted.insert(j, x);
    assert(sorted@ =~= s.take(j as int).push(x) + s.skip(j as int));
}

pub fn sort_pairs<T>(v: Vec<(u64, T)>) -> (r: Vec<(u64, T)>)
    ensures
        r@ == spec_sort_pairs(v@),
{
    let ghost orig = v@;
    let mut rest = v;
    let mut out: Vec<(u64, T)> = Vec::new();
    proof {
        assert(orig.take(0) =~= Seq::<(u64, T)>::empty());
        assert(orig.skip(0) =~= orig);
    }
    while rest.len() > 0
        invariant
            rest@.len() <= orig.len(),
            rest@ == orig.skip(orig.len() - rest@.len()),
            out@ == spec_sort_pairs(orig.take(orig.len() - rest@.len())),
        decreases rest@.len(),
    {
        let ghost i = orig.len() - rest@.len();
        let x = rest.remove(0);
        proof {
            assert(x == orig[i]);
            assert(rest@ =~= orig.skip(i + 1));
            assert(orig.take(i + 1).drop_last() =~= orig.take(i as int));
            assert(orig.take(i + 1).last() == orig[i]);
        }
        insert_sorted(&mut out, x);
    }
    assert(orig.take(orig.len() as int) == orig);
    out
}

/// The values of a pair sequence, keys dropped.
pub open spec fn strip_keys<T>(s: Seq<(u64, T)>) -> Seq<T> {
    s.map_values(|p: (u64, T)| p.1)
}

pub fn strip_pairs<T>(v: Vec<(u64, T)>) -> (r: Vec<T>)
    ensures
        r@ == strip_keys(v@),
{
    let ghost orig = v@;
    let mut rest = v;
    let mut out: Vec<T> = Vec::new();
    while rest.len() > 0
        invariant
            rest@.len() <= orig.len(),
            rest@ == orig.skip(orig.len() - rest@.len()),
            out@ == strip_keys(orig.take(orig.len() - rest@.len())),
        decreases rest@.len(),
    {
        let ghost i = orig.len() - rest@.len();
        let x = rest.remove(0);
        proof {
            assert(x == orig[i]);
            assert(rest@ =~= orig.skip(i + 1));
        }
        out.push(x.1);
        assert(out@ =~= strip_keys(orig.take(i + 1)));
    }
    assert(orig.take(orig.len() as int) == orig);
    out
}

// ---- entity conversion ----

/// The name of the artist with this id, or nothing when the id is unknown.
pub open spec fn artist_name_view(c: Catalog, aid: u64) -> Seq<char> {
    if exists|i: int| 0 <= i < c.artists@.len() && c.artists@[i].id == aid {
        let i = choose|i: int| 0 <= i < c.artists@.len() && c.artists@[i].id == aid;
        c.artists@[i].name@
    } else {
        Seq::<char>::empty()
    }
}

pub open spec fn album_title_view(c: Catalog, alid: u64) -> Seq<char> {
    if exists|i: int| 0 <= i < c.albums@.len() && c.albums@[i].id == alid {
        let i = choose|i: int| 0 <= i < c.albums@.len() && c.albums@[i].id == alid;
        c.albums@[i].title@
    } else {
        Seq::<char>::empty()
    }
}

/// How a public `Track` record reflects a catalog row.
pub open spec fn track_entity_rel(c: Catalog, t: TrackRow, e: Track) -> bool {
    &&& e.id@ == spec_digits(t.id as nat)
    &&& e.provider_id is None
    &&& e.title@ == t.title@
    &&& e.artist_id@ == spec_digits(t.artist_id as nat)
    &&& e.artist_name@ == artist_name_view(c, t.artist_id)
    &&& e.album_id@ == spec_digits(t.album_id as nat)
    &&& e.album_title@ == album_title_view(c, t.album_id)
    &&& e.duration_sec == t.duration_sec
    &&& e.track_number == t.track_number
    &&& e.disc_number == t.disc_number
    &&& e.year == t.year
    &&& e.genre == t.genre
    &&& e.bitrate == t.bitrate
    &&& e.play_count == t.play_count
    &&& e.liked == t.liked
}

/// How a public `Album` record reflects a catalog row.
pub open spec fn album_entity_rel(c: Catalog, a: AlbumRow, e: Album) -> bool {
    &&& e.id@ == spec_digits(a.id as nat)
    &&& e.title@ == a.title@
    &&& e.artist_id@ == spec_digits(a.artist_id as nat)
    &&& e.artist_name@ == artist_name_view(c, a.artist_id)
    &&& e.cover_art == a.cover_art
    &&& e.year == a.year
    &&& e.track_count matches Some(n) && n == c.tracks@.filter(
        (|t: TrackRow| t.album_id == a.id),
    ).len() as u32
}

/// How a public `Artist` record reflects a catalog row.
pub open spec fn artist_entity_rel(a: ArtistRow, e: Artist) -> bool {
    &&& e.id@ == spec_digits(a.id as nat)
    &&& e.name@ == a.name@
    &&& e.bio == a.bio
    &&& e.image_url == a.image_url
}

fn clone_opt_str(o: &Option<String>) -> (r: Option<String>)
    ensures
        r == *o,
{
    match o {
        Some(s) => Some(s.clone()),
        None => None,
    }
}

fn find_artist_name(c: &Catalog, aid: u64) -> (r: String)
    requires
        c.wf(),
    ensures
        r@ == artist_name_view(*c, aid),
{
    let mut i: usize = 0;
    while i < c.artists.len()
        invariant
            i <= c.artists@.len(),
            c.wf(),
            forall|k: int| 0 <= k < i ==> c.artists@[k].id != aid,
        decreases c.artists@.len() - i,
    {
        if c.artists[i].id == aid {
            proof {
                let w = choose|w: int| 0 <= w < c.artists@.len() && c.artists@[w].id == aid;
                if w < i as int {
                    assert(false);
                }
                if (i as int) < w {
                    assert(false);
                }
            }
            return c.artists[i].name.clone();
        }
        i = i + 1;
    }
    String::new()
}

fn find_album_title(c: &Catalog, alid: u64) -> (r: String)
    requires
        c.wf(),
    ensures
        r@ == album_title_view(*c, alid),
{
    let mut i: usize = 0;
    while i < c.albums.len()
        invariant
            i <= c.albums@.len(),
            c.wf(),
            forall|k: int| 0 <= k < i ==> c.albums@[k].id != alid,
        decreases c.albums@.len() - i,
    {
        if c.albums[i].id == alid {
            proof {
                let w = choose|w: int| 0 <= w < c.albums@.len() && c.albums@[w].id == alid;
                if w < i as int {
                    assert(false);
                }
                if (i as int) < w {
                    assert(false);
                }
            }
            return c.albums[i].title.clone();
        }
        i = i + 1;
    }
    String::new()
}

fn count_album_tracks(c: &Catalog, alid: u64) -> (r: usize)
    ensures
        r == c.tracks@.filter((|t: TrackRow| t.album_id == alid)).len(),
{
    let ghost keep = |t: TrackRow| t.album_id == alid;
    let mut n: usize = 0;
    let mut i: usize = 0;
    proof {
        reveal(Seq::filter);
        assert(c.tracks@.take(0).filter(keep) =~= Seq::<TrackRow>::empty());
    }
    while i < c.tracks.len()
        invariant
            i <= c.tracks@.len(),
            keep == (|t: TrackRow| t.album_id == alid),
            n == c.tracks@.take(i as int).filter(keep).len(),
            n <= i,
        decreases c.tracks@.len() - i,
    {
        proof {
            reveal(Seq::filter);
            assert(c.tracks@.take(i + 1).drop_last() =~= c.tracks@.take(i as int));
            assert(c.tracks@.take(i + 1).last() == c.tracks@[i as int]);
        }
        if c.tracks[i].album_id == alid {
            n = n + 1;
        }
        i = i + 1;
    }
    assert(c.tracks@.take(c.tracks@.len() as int) == c.tracks@);
    n
}

impl Catalog {
    /// The public record for one track row, artist and album names joined
    /// in.
    pub fn track_entity(&self, t: &TrackRow) -> (e: Track)
        requires
            self.wf(),
        ensures
            track_entity_rel(*self, *t, e),
    {
        Track {
            id: u64_to_string(t.id),
            provider_id: None,
            title: t.title.clone(),
            artist_id: u64_to_string(t.artist_id),
            artist_name: find_artist_name(self, t.artist_id),
            album_id: u64_to_string(t.album_id),
            album_title: find_album_title(self, t.album_id),
            duration_sec: t.duration_sec,
            track_number: t.track_number,
            disc_number: t.disc_number,
            year: t.year,
            genre: clone_opt_str(&t.genre),
            bitrate: t.bitrate,
            play_count: t.play_count,
            liked: t.liked,
        }
    }

    /// The public record for one album row, with its artist name and track
    /// count joined in.
    pub fn album_entity(&self, a: &AlbumRow) -> (e: Album)
        requires
            self.wf(),
        ensures
            album_entity_rel(*self, *a, e),
    {
        let n = count_album_tracks(self, a.id);
        Album {
            id: u64_to_string(a.id),
            title: a.title.clone(),
            artist_id: u64_to_string(a.artist_id),
            artist_name: find_artist_name(self, a.artist_id),
            cover_art: clone_opt_str(&a.cover_art),
            year: a.year,
            track_count: Some(#[verifier::truncate] (n as u32)),
        }
    }

    pub fn artist_entity(&self, a: &ArtistRow) -> (e: Artist)
        ensures
            artist_entity_rel(*a, e),
    {
        Artist {
            id: u64_to_string(a.id),
            name: a.name.clone(),
            bio: clone_opt_str(&a.bio),
            image_url: clone_opt_str(&a.image_url),
        }
    }
}


// ---- sort keys ----

pub open spec fn opt_u32(o: Option<u32>) -> nat {
    match o {
        Some(v) => v as nat,
        None => 0,
    }
}

/// Disc number then track number, ascending; absent numbers first.
pub open spec fn disc_track_key(t: TrackRow) -> u64 {
    (opt_u32(t.disc_number) * 0x1_0000_0000 + opt_u32(t.track_number)) as u64
}

fn disc_track_key_exec(t: &TrackRow) -> (r: u64)
    ensures
        r == disc_track_key(*t),
{
    let d: u64 = match t.disc_number {
        Some(v) => v as u64,
        None => 0,
    };
    let n: u64 = match t.track_number {
        Some(v) => v as u64,
        None => 0,
    };
    d * 0x1_0000_0000 + n
}

/// Later timestamps first.
pub open spec fn desc_time_key(x: i64) -> u64 {
    (0x7fff_ffff_ffff_ffff - (x as int)) as u64
}

fn desc_time_key_exec(x: i64) -> (r: u64)
    ensures
        r == desc_time_key(x),
{
    let wide: i128 = 0x7fff_ffff_ffff_ffff - (x as i128);
    wide as u64
}

/// Higher play counts first.
pub open spec fn desc_count_key(pc: u32) -> u64 {
    (0xffff_ffff - pc) as u64
}

/// Later years first; albums without a year last.
pub open spec fn desc_year_key(y: Option<u16>) -> u64 {
    match y {
        Some(v) => (0xffff - v) as u64,
        None => 0xffff_ffff_ffff_ffff,
    }
}

fn desc_year_key_exec(y: Option<u16>) -> (r: u64)
    ensures
        r == desc_year_key(y),
{
    match y {
        Some(v) => (0xffffu64 - v as u64),
        None => 0xffff_ffff_ffff_ffff,
    }
}

// ---- row selections, each the image of one SQL query ----

/// The album's tracks in disc/track order.
pub open spec fn spec_album_track_rows(c: Catalog, alid: u64) -> Seq<TrackRow> {
    strip_keys(
        spec_sort_pairs(
            c.tracks@.filter((|t: TrackRow| t.album_id == alid)).map_values(
                |t: TrackRow| (disc_track_key(t), t),
            ),
        ),
    )
}

/// The liked tracks, most recently added first.
pub open spec fn spec_favorite_rows(c: Catalog) -> Seq<TrackRow> {
    strip_keys(
        spec_sort_pairs(
            c.tracks@.filter((|t: TrackRow| t.liked)).map_values(
                |t: TrackRow| (desc_time_key(t.created_at), t),
            ),
        ),
    )
}

/// The tracks played at least once, most played first.
pub open spec fn spec_most_played_rows(c: Catalog) -> Seq<TrackRow> {
    strip_keys(
        spec_sort_pairs(
            c.tracks@.filter((|t: TrackRow| t.play_count > 0)).map_values(
                |t: TrackRow| (desc_count_key(t.play_count), t),
            ),
        ),
    )
}

/// The tracks of one genre, most played first.
pub open spec fn spec_genre_track_rows(c: Catalog, g: Seq<char>) -> Seq<TrackRow> {
    strip_keys(
        spec_sort_pairs(
            c.tracks@.filter((|t: TrackRow| t.genre matches Some(x) && x@ == g)).map_values(
                |t: TrackRow| (desc_count_key(t.play_count), t),
            ),
        ),
    )
}

/// All albums, most recently created first.
pub open spec fn spec_recent_album_rows(c: Catalog) -> Seq<AlbumRow> {
    strip_keys(
        spec_sort_pairs(
            c.albums@.map_values(|a: AlbumRow| (desc_time_key(a.created_at), a)),
        ),
    )
}

/// The albums linked to one artist, newest year first.
pub open spec fn spec_artist_album_rows(c: Catalog, aid: u64) -> Seq<AlbumRow> {
    strip_keys(
        spec_sort_pairs(
            c.albums@.filter((|a: AlbumRow| has_album_link(c.album_artists@, a.id, aid))).map_values(
                |a: AlbumRow| (desc_year_key(a.year), a),
            ),
        ),
    )
}

pub open spec fn take_at_most<T>(s: Seq<T>, n: int) -> Seq<T> {
    if s.len() <= n {
        s
    } else {
        s.take(n)
    }
}

/// The tracks matching a search string, by title or artist name,
/// case-insensitively, capped at twenty.
pub open spec fn spec_search_track_rows(c: Catalog, q: Seq<char>) -> Seq<TrackRow> {
    take_at_most(
        c.tracks@.filter(
            (|t: TrackRow| spec_contains_ci(t.title@, q) || spec_contains_ci(
                artist_name_view(c, t.artist_id),
                q,
            )),
        ),
        20,
    )
}

pub open spec fn spec_search_album_rows(c: Catalog, q: Seq<char>) -> Seq<AlbumRow> {
    take_at_most(
        c.albums@.filter(
            (|a: AlbumRow| spec_contains_ci(a.title@, q) || spec_contains_ci(
                artist_name_view(c, a.artist_id),
                q,
            )),
        ),
        20,
    )
}

pub open spec fn spec_search_artist_rows(c: Catalog, q: Seq<char>) -> Seq<ArtistRow> {
    take_at_most(c.artists@.filter((|a: ArtistRow| spec_contains_ci(a.name@, q))), 20)
}

impl Catalog {
    fn collect_album_track_pairs(&self, alid: u64) -> (r: Vec<(u64, TrackRow)>)
        ensures
            r@ == self.tracks@.filter((|t: TrackRow| t.album_id == alid)).map_values(
                |t: TrackRow| (disc_track_key(t), t),
            ),
    {
        let ghost keep = |t: TrackRow| t.album_id == alid;
        let ghost pf = |t: TrackRow| (disc_track_key(t), t);
        let mut out: Vec<(u64, TrackRow)> = Vec::new();
        let mut i: usize = 0;
        proof {
            reveal(Seq::filter);
            assert(self.tracks@.take(0).filter(keep).map_values(pf) =~= out@);
        }
        while i < self.tracks.len()
            invariant
                i <= self.tracks@.len(),
                keep == (|t: TrackRow| t.album_id == alid),
                pf == (|t: TrackRow| (disc_track_key(t), t)),
                out@ == self.tracks@.take(i as int).filter(keep).map_values(pf),
            decreases self.tracks@.len() - i,
        {
            proof {
                reveal(Seq::filter);
                assert(self.tracks@.take(i + 1).drop_last() =~= self.tracks@.take(i as int));
                assert(self.tracks@.take(i + 1).last() == self.tracks@[i as int]);
            }
            let t = &self.tracks[i];
            if t.album_id == alid {
                let k = disc_track_key_exec(t);
                out.push((k, crate::catalog::clone_track_row(t)));
                assert(out@ =~= self.tracks@.take(i + 1).filter(keep).map_values(pf));
            } else {
                assert(out@ =~= self.tracks@.take(i + 1).filter(keep).map_values(pf));
            }
            i = i + 1;
        }
        assert(self.tracks@.take(self.tracks@.len() as int) == self.tracks@);
        out
    }

    fn tracks_to_entities(&self, rows: &Vec<TrackRow>) -> (r: Vec<Track>)
        requires
            self.wf(),
        ensures
            r@.len() == rows@.len(),
            forall|k: int|
                0 <= k < r@.len() ==> track_entity_rel(*self, rows@[k], #[trigger] r@[k]),
    {
        let mut out: Vec<Track> = Vec::new();
        let mut k: usize = 0;
        while k < rows.len()
            invariant
                k <= rows@.len(),
                self.wf(),
                out@.len() == k,
                forall|j: int|
                    0 <= j < k ==> track_entity_rel(*self, rows@[j], #[trigger] out@[j]),
            decreases rows@.len() - k,
        {
            out.push(self.track_entity(&rows[k]));
            k = k + 1;
        }
        out
    }

    fn albums_to_entities(&self, rows: &Vec<AlbumRow>) -> (r: Vec<Album>)
        requires
            self.wf(),
        ensures
            r@.len() == rows@.len(),
            forall|k: int|
                0 <= k < r@.len() ==> album_entity_rel(*self, rows@[k], #[trigger] r@[k]),
    {
        let mut out: Vec<Album> = Vec::new();
        let mut k: usize = 0;
        while k < rows.len()
            invariant
                k <= rows@.len(),
                self.wf(),
                out@.len() == k,
                forall|j: int|
                    0 <= j < k ==> album_entity_rel(*self, rows@[j], #[trigger] out@[j]),
            decreases rows@.len() - k,
        {
            out.push(self.album_entity(&rows[k]));
            k = k + 1;
        }
        out
    }

    /// An album's tracks in disc then track order.
    pub fn get_album_tracks(&self, album_id: u64) -> (r: Vec<Track>)
        requires
            self.wf(),
        ensures
            r@.len() == spec_album_track_rows(*self, album_id).len(),
            forall|k: int|
                0 <= k < r@.len() ==> track_entity_rel(
                    *self,
                    spec_album_track_rows(*self, album_id)[k],
                    #[trigger] r@[k],
                ),
    {
        let pairs = self.collect_album_track_pairs(album_id);
        let rows = strip_pairs(sort_pairs(pairs));
        self.tracks_to_entities(&rows)
    }
}


impl Catalog {
    fn collect_favorite_pairs(&self) -> (r: Vec<(u64, TrackRow)>)
        ensures
            r@ == self.tracks@.filter((|t: TrackRow| t.liked)).map_values(
                |t: TrackRow| (desc_time_key(t.created_at), t),
            ),
    {
        let ghost keep = |t: TrackRow| t.liked;
        let ghost pf = |t: TrackRow| (desc_time_key(t.created_at), t);
        let mut out: Vec<(u64, TrackRow)> = Vec::new();
        let mut i: usize = 0;
        proof {
            reveal(Seq::filter);
            assert(self.tracks@.take(0).filter(keep).map_values(pf) =~= out@);
        }
        while i < self.tracks.len()
            invariant
                i <= self.tracks@.len(),
                keep == (|t: TrackRow| t.liked),
                pf == (|t: TrackRow| (desc_time_key(t.created_at), t)),
                out@ == self.tracks@.take(i as int).filter(keep).map_values(pf),
            decreases self.tracks@.len() - i,
        {
            proof {
                reveal(Seq::filter);
                assert(self.tracks@.take(i + 1).drop_last() =~= self.tracks@.take(i as int));
                assert(self.tracks@.take(i + 1).last() == self.tracks@[i as int]);
            }
            let t = &self.tracks[i];
            if t.liked {
                let k = desc_time_key_exec(t.created_at);
                out.push((k, crate::catalog::clone_track_row(t)));
            }
            assert(out@ =~= self.tracks@.take(i + 1).filter(keep).map_values(pf));
            i = i + 1;
        }
        assert(self.tracks@.take(self.tracks@.len() as int) == self.tracks@);
        out
    }

    /// The liked tracks, most recently added first.
    pub fn get_favorites(&self) -> (r: Vec<Track>)
        requires
            self.wf(),
        ensures
            r@.len() == spec_favorite_rows(*self).len(),
            forall|k: int|
                0 <= k < r@.len() ==> track_entity_rel(
                    *self,
                    spec_favorite_rows(*self)[k],
                    #[trigger] r@[k],
                ),
    {
        let pairs = self.collect_favorite_pairs();
        let rows = strip_pairs(sort_pairs(pairs));
        self.tracks_to_entities(&rows)
    }

    fn collect_most_played_pairs(&self) -> (r: Vec<(u64, TrackRow)>)
        ensures
            r@ == self.tracks@.filter((|t: TrackRow| t.play_count > 0)).map_values(
                |t: TrackRow| (desc_count_key(t.play_count), t),
            ),
    {
        let ghost keep = |t: TrackRow| t.play_count > 0;
        let ghost pf = |t: TrackRow| (desc_count_key(t.play_count), t);
        let mut out: Vec<(u64, TrackRow)> = Vec::new();
        let mut i: usize = 0;
        proof {
            reveal(Seq::filter);
            assert(self.tracks@.take(0).filter(keep).map_values(pf) =~= out@);
        }
        while i < self.tracks.len()
            invariant
                i <= self.tracks@.len(),
                keep == (|t: TrackRow| t.play_count > 0),
                pf == (|t: TrackRow| (desc_count_key(t.play_count), t)),
                out@ == self.tracks@.take(i as int).filter(keep).map_values(pf),
            decreases self.tracks@.len() - i,
        {
            proof {
                reveal(Seq::filter);
                assert(self.tracks@.take(i + 1).drop_last() =~= self.tracks@.take(i as int));
                assert(self.tracks@.take(i + 1).last() == self.tracks@[i as int]);
            }
            let t = &self.tracks[i];
            if t.play_count > 0 {
                let k = 0xffff_ffffu64 - t.play_count as u64;
                assert(k == desc_count_key(t.play_count));
                out.push((k, crate::catalog::clone_track_row(t)));
            }
            assert(out@ =~= self.tracks@.take(i + 1).filter(keep).map_values(pf));
            i = i + 1;
        }
        assert(self.tracks@.take(self.tracks@.len() as int) == self.tracks@);
        out
    }

    /// The most played tracks, capped at `limit`.
    pub fn get_most_played_tracks(&self, limit: usize) -> (r: Vec<Track>)
        requires
            self.wf(),
        ensures
            r@.len() == take_at_most(spec_most_played_rows(*self), limit as int).len(),
            forall|k: int|
                0 <= k < r@.len() ==> track_entity_rel(
                    *self,
                    take_at_most(spec_most_played_rows(*self), limit as int)[k],
                    #[trigger] r@[k],
                ),
    {
        let pairs = self.collect_most_played_pairs();
        let mut rows = strip_pairs(sort_pairs(pairs));
        rows.truncate(limit);
        proof {
            assert(rows@ =~= take_at_most(spec_most_played_rows(*self), limit as int));
        }
        self.tracks_to_entities(&rows)
    }

    fn collect_genre_pairs(&self, genre: &str) -> (r: Vec<(u64, TrackRow)>)
        ensures
            r@ == self.tracks@.filter(
                (|t: TrackRow| t.genre matches Some(x) && x@ == genre@),
            ).map_values(|t: TrackRow| (desc_count_key(t.play_count), t)),
    {
        let ghost keep = |t: TrackRow| t.genre matches Some(x) && x@ == genre@;
        let ghost pf = |t: TrackRow| (desc_count_key(t.play_count), t);
        let mut out: Vec<(u64, TrackRow)> = Vec::new();
        let mut i: usize = 0;
        proof {
            reveal(Seq::filter);
            assert(self.tracks@.take(0).filter(keep).map_values(pf) =~= out@);
        }
        while i < self.tracks.len()
            invariant
                i <= self.tracks@.len(),
                keep == (|t: TrackRow| t.genre matches Some(x) && x@ == genre@),
                pf == (|t: TrackRow| (desc_count_key(t.play_count), t)),
                out@ == self.tracks@.take(i as int).filter(keep).map_values(pf),
            decreases self.tracks@.len() - i,
        {
            proof {
                reveal(Seq::filter);
                assert(self.tracks@.take(i + 1).drop_last() =~= self.tracks@.take(i as int));
                assert(self.tracks@.take(i + 1).last() == self.tracks@[i as int]);
            }
            let t = &self.tracks[i];
            let matches_genre = match &t.genre {
                Some(x) => eq_str(x.as_str(), genre),
                None => false,
            };
            if matches_genre {
                let k = 0xffff_ffffu64 - t.play_count as u64;
                assert(k == desc_count_key(t.play_count));
                out.push((k, crate::catalog::clone_track_row(t)));
            }
            assert(out@ =~= self.tracks@.take(i + 1).filter(keep).map_values(pf));
            i = i + 1;
        }
        assert(self.tracks@.take(self.tracks@.len() as int) == self.tracks@);
        out
    }

    /// The tracks of one genre, most played first.
    pub fn get_genre_tracks(&self, genre: &str) -> (r: Vec<Track>)
        requires
            self.wf(),
        ensures
            r@.len() == spec_genre_track_rows(*self, genre@).len(),
            forall|k: int|
                0 <= k < r@.len() ==> track_entity_rel(
                    *self,
                    spec_genre_track_rows(*self, genre@)[k],
                    #[trigger] r@[k],
                ),
    {
        let pairs = self.collect_genre_pairs(genre);
        let rows = strip_pairs(sort_pairs(pairs));
        self.tracks_to_entities(&rows)
    }

    fn collect_recent_album_pairs(&self) -> (r: Vec<(u64, AlbumRow)>)
        ensures
            r@ == self.albums@.map_values(|a: AlbumRow| (desc_time_key(a.created_at), a)),
    {
        let ghost pf = |a: AlbumRow| (desc_time_key(a.created_at), a);
        let mut out: Vec<(u64, AlbumRow)> = Vec::new();
        let mut i: usize = 0;
        while i < self.albums.len()
            invariant
                i <= self.albums@.len(),
                pf == (|a: AlbumRow| (desc_time_key(a.created_at), a)),
                out@ == self.albums@.take(i as int).map_values(pf),
            decreases self.albums@.len() - i,
        {
            let a = &self.albums[i];
            let k = desc_time_key_exec(a.created_at);
            out.push((k, crate::catalog::clone_album_row(a)));
            proof {
                assert(self.albums@.take(i + 1).map_values(pf) =~= self.albums@.take(
                    i as int,
                ).map_values(pf).push(pf(self.albums@[i as int])));
                assert(out@ =~= self.albums@.take(i + 1).map_values(pf));
            }
            i = i + 1;
        }
        assert(self.albums@.take(self.albums@.len() as int) == self.albums@);
        out
    }

    /// The most recently created albums, capped at `limit`.
    pub fn get_recent_albums(&self, limit: usize) -> (r: Vec<Album>)
        requires
            self.wf(),
        ensures
            r@.len() == take_at_most(spec_recent_album_rows(*self), limit as int).len(),
            forall|k: int|
                0 <= k < r@.len() ==> album_entity_rel(
                    *self,
                    take_at_most(spec_recent_album_rows(*self), limit as int)[k],
                    #[trigger] r@[k],
                ),
    {
        let pairs = self.collect_recent_album_pairs();
        let mut rows = strip_pairs(sort_pairs(pairs));
        rows.truncate(limit);
        proof {
            assert(rows@ =~= take_at_most(spec_recent_album_rows(*self), limit as int));
        }
        self.albums_to_entities(&rows)
    }

    fn collect_artist_album_pairs(&self, aid: u64) -> (r: Vec<(u64, AlbumRow)>)
        ensures
            r@ == self.albums@.filter(
                (|a: AlbumRow| has_album_link(self.album_artists@, a.id, aid)),
            ).map_values(|a: AlbumRow| (desc_year_key(a.year), a)),
    {
        let ghost keep = |a: AlbumRow| has_album_link(self.album_artists@, a.id, aid);
        let ghost pf = |a: AlbumRow| (desc_year_key(a.year), a);
        let mut out: Vec<(u64, AlbumRow)> = Vec::new();
        let mut i: usize = 0;
        proof {
            reveal(Seq::filter);
            assert(self.albums@.take(0).filter(keep).map_values(pf) =~= out@);
        }
        while i < self.albums.len()
            invariant
                i <= self.albums@.len(),
                keep == (|a: AlbumRow| has_album_link(self.album_artists@, a.id, aid)),
                pf == (|a: AlbumRow| (desc_year_key(a.year), a)),
                out@ == self.albums@.take(i as int).filter(keep).map_values(pf),
            decreases self.albums@.len() - i,
        {
            proof {
                reveal(Seq::filter);
                assert(self.albums@.take(i + 1).drop_last() =~= self.albums@.take(i as int));
                assert(self.albums@.take(i + 1).last() == self.albums@[i as int]);
            }
            let a = &self.albums[i];
            if has_album_link_exec(&self.album_artists, a.id, aid) {
                let k = desc_year_key_exec(a.year);
                out.push((k, crate::catalog::clone_album_row(a)));
            }
            assert(out@ =~= self.albums@.take(i + 1).filter(keep).map_values(pf));
            i = i + 1;
        }
        assert(self.albums@.take(self.albums@.len() as int) == self.albums@);
        out
    }

    /// The albums any of whose credited artists is `artist_id`, newest
    /// first.
    pub fn get_artist_albums(&self, artist_id: u64) -> (r: Vec<Album>)
        requires
            self.wf(),
        ensures
            r@.len() == spec_artist_album_rows(*self, artist_id).len(),
            forall|k: int|
                0 <= k < r@.len() ==> album_entity_rel(
                    *self,
                    spec_artist_album_rows(*self, artist_id)[k],
                    #[trigger] r@[k],
                ),
    {
        let pairs = self.collect_artist_album_pairs(artist_id);
        let rows = strip_pairs(sort_pairs(pairs));
        self.albums_to_entities(&rows)
    }
}

fn has_album_link_exec(links: &Vec<crate::catalog::AlbumArtistRow>, alid: u64, aid: u64) -> (r:
    bool)
    ensures
        r == has_album_link(links@, alid, aid),
{
    let mut i: usize = 0;
    while i < links.len()
        invariant
            i <= links@.len(),
            forall|k: int|
                0 <= k < i ==> !(links@[k].album_id == alid && links@[k].artist_id == aid),
        decreases links@.len() - i,
    {
        if links[i].album_id == alid && links[i].artist_id == aid {
            assert(has_album_link(links@, alid, aid));
            return true;
        }
        i = i + 1;
    }
    false
}


// ---- search and lookups ----

impl Catalog {
    fn collect_search_track_rows(&self, q: &str) -> (r: Vec<TrackRow>)
        requires
            self.wf(),
        ensures
            r@ == self.tracks@.filter(
                (|t: TrackRow| spec_contains_ci(t.title@, q@) || spec_contains_ci(
                    artist_name_view(*self, t.artist_id),
                    q@,
                )),
            ),
    {
        let ghost keep = |t: TrackRow| spec_contains_ci(t.title@, q@) || spec_contains_ci(
            artist_name_view(*self, t.artist_id),
            q@,
        );
        let mut out: Vec<TrackRow> = Vec::new();
        let mut i: usize = 0;
        proof {
            reveal(Seq::filter);
            assert(self.tracks@.take(0).filter(keep) =~= out@);
        }
        while i < self.tracks.len()
            invariant
                i <= self.tracks@.len(),
                self.wf(),
                keep == (|t: TrackRow| spec_contains_ci(t.title@, q@) || spec_contains_ci(
                    artist_name_view(*self, t.artist_id),
                    q@,
                )),
                out@ == self.tracks@.take(i as int).filter(keep),
            decreases self.tracks@.len() - i,
        {
            proof {
                reveal(Seq::filter);
                assert(self.tracks@.take(i + 1).drop_last() =~= self.tracks@.take(i as int));
                assert(self.tracks@.take(i + 1).last() == self.tracks@[i as int]);
            }
            let t = &self.tracks[i];
            let name = find_artist_name(self, t.artist_id);
            if contains_ci(t.title.as_str(), q) || contains_ci(name.as_str(), q) {
                out.push(crate::catalog::clone_track_row(t));
            }
            assert(out@ =~= self.tracks@.take(i + 1).filter(keep));
            i = i + 1;
        }
        assert(self.tracks@.take(self.tracks@.len() as int) == self.tracks@);
        out
    }

    fn collect_search_album_rows(&self, q: &str) -> (r: Vec<AlbumRow>)
        requires
            self.wf(),
        ensures
            r@ == self.albums@.filter(
                (|a: AlbumRow| spec_contains_ci(a.title@, q@) || spec_contains_ci(
                    artist_name_view(*self, a.artist_id),
                    q@,
                )),
            ),
    {
        let ghost keep = |a: AlbumRow| spec_contains_ci(a.title@, q@) || spec_contains_ci(
            artist_name_view(*self, a.artist_id),
            q@,
        );
        let mut out: Vec<AlbumRow> = Vec::new();
        let mut i: usize = 0;
        proof {
            reveal(Seq::filter);
            assert(self.albums@.take(0).filter(keep) =~= out@);
        }
        while i < self.albums.len()
            invariant
                i <= self.albums@.len(),
                self.wf(),
                keep == (|a: AlbumRow| spec_contains_ci(a.title@, q@) || spec_contains_ci(
                    artist_name_view(*self, a.artist_id),
                    q@,
                )),
                out@ == self.albums@.take(i as int).filter(keep),
            decreases self.albums@.len() - i,
        {
            proof {
                reveal(Seq::filter);
                assert(self.albums@.take(i + 1).drop_last() =~= self.albums@.take(i as int));
                assert(self.albums@.take(i + 1).last() == self.albums@[i as int]);
            }
            let a = &self.albums[i];
            let name = find_artist_name(self, a.artist_id);
            if contains_ci(a.title.as_str(), q) || contains_ci(name.as_str(), q) {
                out.push(crate::catalog::clone_album_row(a));
            }
            assert(out@ =~= self.albums@.take(i + 1).filter(keep));
            i = i + 1;
        }
        assert(self.albums@.take(self.albums@.len() as int) == self.albums@);
        out
    }

    /// Case-insensitive substring search over track titles, artist names
    /// and album titles, each result list capped at twenty.
    pub fn search(&self, q: &str) -> (r: UnifiedSearchResult)
        requires
            self.wf(),
        ensures
            r.tracks@.len() == spec_search_track_rows(*self, q@).len(),
            forall|k: int|
                0 <= k < r.tracks@.len() ==> track_entity_rel(
                    *self,
                    spec_search_track_rows(*self, q@)[k],
                    #[trigger] r.tracks@[k],
                ),
            r.albums@.len() == spec_search_album_rows(*self, q@).len(),
            forall|k: int|
                0 <= k < r.albums@.len() ==> album_entity_rel(
                    *self,
                    spec_search_album_rows(*self, q@)[k],
                    #[trigger] r.albums@[k],
                ),
            r.artists@.len() == spec_search_artist_rows(*self, q@).len(),
            forall|k: int|
                0 <= k < r.artists@.len() ==> artist_entity_rel(
                    spec_search_artist_rows(*self, q@)[k],
                    #[trigger] r.artists@[k],
                ),
    {
        let mut track_rows = self.collect_search_track_rows(q);
        track_rows.truncate(20);
        proof {
            assert(track_rows@ =~= spec_search_track_rows(*self, q@));
        }
        let tracks = self.tracks_to_entities(&track_rows);

        let mut album_rows = self.collect_search_album_rows(q);
        album_rows.truncate(20);
        proof {
            assert(album_rows@ =~= spec_search_album_rows(*self, q@));
        }
        let albums = self.albums_to_entities(&album_rows);

        let ghost done = spec_search_artist_rows(*self, q@);
        let rows = self.collect_search_artist_rows(q);
        let mut rows2 = rows;
        rows2.truncate(20);
        proof {
            assert(rows2@ =~= done);
        }
        let mut out_artists: Vec<Artist> = Vec::new();
        let mut k: usize = 0;
        while k < rows2.len()
            invariant
                k <= rows2@.len(),
                out_artists@.len() == k,
                forall|j: int|
                    0 <= j < k ==> artist_entity_rel(rows2@[j], #[trigger] out_artists@[j]),
            decreases rows2@.len() - k,
        {
            out_artists.push(self.artist_entity(&rows2[k]));
            k = k + 1;
        }
        UnifiedSearchResult { tracks, albums, artists: out_artists }
    }

    fn collect_search_artist_rows(&self, q: &str) -> (r: Vec<ArtistRow>)
        ensures
            r@ == self.artists@.filter((|a: ArtistRow| spec_contains_ci(a.name@, q@))),
    {
        let ghost keep = |a: ArtistRow| spec_contains_ci(a.name@, q@);
        let mut out: Vec<ArtistRow> = Vec::new();
        let mut i: usize = 0;
        proof {
            reveal(Seq::filter);
            assert(self.artists@.take(0).filter(keep) =~= out@);
        }
        while i < self.artists.len()
            invariant
                i <= self.artists@.len(),
                keep == (|a: ArtistRow| spec_contains_ci(a.name@, q@)),
                out@ == self.artists@.take(i as int).filter(keep),
            decreases self.artists@.len() - i,
        {
            proof {
                reveal(Seq::filter);
                assert(self.artists@.take(i + 1).drop_last() =~= self.artists@.take(i as int));
                assert(self.artists@.take(i + 1).last() == self.artists@[i as int]);
            }
            let a = &self.artists[i];
            if contains_ci(a.name.as_str(), q) {
                out.push(
                    ArtistRow {
                        id: a.id,
                        name: a.name.clone(),
                        bio: clone_opt_str(&a.bio),
                        image_url: clone_opt_str(&a.image_url),
                    },
                );
            }
            assert(out@ =~= self.artists@.take(i + 1).filter(keep));
            i = i + 1;
        }
        assert(self.artists@.take(self.artists@.len() as int) == self.artists@);
        out
    }

    /// The artist with this id, if any.
    pub fn get_artist(&self, id: u64) -> (r: Option<Artist>)
        requires
            self.wf(),
        ensures
            (r is Some) <==> exists|i: int| 0 <= i < self.artists@.len() && self.artists@[i].id
                == id,
            r matches Some(e) ==> exists|i: int|
                0 <= i < self.artists@.len() && self.artists@[i].id == id && artist_entity_rel(
                    #[trigger] self.artists@[i],
                    e,
                ),
    {
        let mut i: usize = 0;
        while i < self.artists.len()
            invariant
                i <= self.artists@.len(),
                self.wf(),
                forall|k: int| 0 <= k < i ==> self.artists@[k].id != id,
            decreases self.artists@.len() - i,
        {
            if self.artists[i].id == id {
                return Some(self.artist_entity(&self.artists[i]));
            }
            i = i + 1;
        }
        None
    }

    /// The album with this id, if any.
    pub fn get_album(&self, id: u64) -> (r: Option<Album>)
        requires
            self.wf(),
        ensures
            (r is Some) <==> exists|i: int| 0 <= i < self.albums@.len() && self.albums@[i].id
                == id,
            r matches Some(e) ==> exists|i: int|
                0 <= i < self.albums@.len() && self.albums@[i].id == id && album_entity_rel(
                    *self,
                    #[trigger] self.albums@[i],
                    e,
                ),
    {
        let mut i: usize = 0;
        while i < self.albums.len()
            invariant
                i <= self.albums@.len(),
                self.wf(),
                forall|k: int| 0 <= k < i ==> self.albums@[k].id != id,
            decreases self.albums@.len() - i,
        {
            if self.albums[i].id == id {
                return Some(self.album_entity(&self.albums[i]));
            }
            i = i + 1;
        }
        None
    }

    /// The track with this id, if any.
    pub fn get_track(&self, id: u64) -> (r: Option<Track>)
        requires
            self.wf(),
        ensures
            (r is Some) <==> exists|i: int| 0 <= i < self.tracks@.len() && self.tracks@[i].id
                == id,
            r matches Some(e) ==> exists|i: int|
                0 <= i < self.tracks@.len() && self.tracks@[i].id == id && track_entity_rel(
                    *self,
                    #[trigger] self.tracks@[i],
                    e,
                ),
    {
        let mut i: usize = 0;
        while i < self.tracks.len()
            invariant
                i <= self.tracks@.len(),
                self.wf(),
                forall|k: int| 0 <= k < i ==> self.tracks@[k].id != id,
            decreases self.tracks@.len() - i,
        {
            if self.tracks[i].id == id {
                return Some(self.track_entity(&self.tracks[i]));
            }
            i = i + 1;
        }
        None
    }

    /// Where the bytes of a track come from: its path, as a local stream
    /// source.
    pub fn resolve_stream(&self, track_id: u64) -> (r: Option<AudioStream>)
        requires
            self.wf(),
        ensures
            (r is Some) <==> exists|i: int| 0 <= i < self.tracks@.len() && self.tracks@[i].id
                == track_id,
            r matches Some(st) ==> st matches AudioStream::Url(p) && exists|i: int|
                0 <= i < self.tracks@.len() && (#[trigger] self.tracks@[i]).id == track_id
                    && p@ == self.tracks@[i].path@,
    {
        let mut i: usize = 0;
        while i < self.tracks.len()
            invariant
                i <= self.tracks@.len(),
                forall|k: int| 0 <= k < i ==> self.tracks@[k].id != track_id,
            decreases self.tracks@.len() - i,
        {
            if self.tracks[i].id == track_id {
                return Some(AudioStream::Url(self.tracks[i].path.clone()));
            }
            i = i + 1;
        }
        None
    }

    /// Set or clear the like flag of one track; every other field and row
    /// is untouched, and a missing id changes nothing.
    pub fn set_track_liked(&mut self, track_id: u64, liked: bool)
        requires
            old(self).wf(),
        ensures
            final(self).wf(),
            final(self).artists == old(self).artists,
            final(self).albums == old(self).albums,
            final(self).track_artists == old(self).track_artists,
            final(self).album_artists == old(self).album_artists,
            final(self).playlists == old(self).playlists,
            final(self).playlist_tracks == old(self).playlist_tracks,
            final(self).roots == old(self).roots,
            final(self).next_id == old(self).next_id,
            final(self).tracks@.len() == old(self).tracks@.len(),
            forall|k: int|
                0 <= k < old(self).tracks@.len() && old(self).tracks@[k].id != track_id
                    ==> final(self).tracks@[k] == old(self).tracks@[k],
            forall|k: int|
                0 <= k < old(self).tracks@.len() && old(self).tracks@[k].id == track_id ==> {
                    let t = final(self).tracks@[k];
                    let o = old(self).tracks@[k];
                    t.liked == liked && t.id == o.id && t.path == o.path && t.title == o.title
                        && t.artist_id == o.artist_id && t.album_id == o.album_id
                        && t.duration_sec == o.duration_sec && t.track_number == o.track_number
                        && t.disc_number == o.disc_number && t.year == o.year && t.genre == o.genre
                        && t.bitrate == o.bitrate && t.play_count == o.play_count && t.mtime
                        == o.mtime && t.created_at == o.created_at
                },
    {
        let mut i: usize = 0;
        while i < self.tracks.len()
            invariant
                i <= self.tracks@.len(),
                old(self).wf(),
                self.artists == old(self).artists,
                self.albums == old(self).albums,
                self.track_artists == old(self).track_artists,
                self.album_artists == old(self).album_artists,
                self.playlists == old(self).playlists,
                self.playlist_tracks == old(self).playlist_tracks,
                self.roots == old(self).roots,
                self.next_id == old(self).next_id,
                self.tracks@.len() == old(self).tracks@.len(),
                forall|k: int|
                    0 <= k < old(self).tracks@.len() && (k >= i || old(self).tracks@[k].id
                        != track_id) ==> self.tracks@[k] == old(self).tracks@[k],
                forall|k: int|
                    0 <= k < i && old(self).tracks@[k].id == track_id ==> {
                        let t = self.tracks@[k];
                        let o = old(self).tracks@[k];
                        t.liked == liked && t.id == o.id && t.path == o.path && t.title == o.title
                            && t.artist_id == o.artist_id && t.album_id == o.album_id
                            && t.duration_sec == o.duration_sec && t.track_number
                            == o.track_number && t.disc_number == o.disc_number && t.year == o.year
                            && t.genre == o.genre && t.bitrate == o.bitrate && t.play_count
                            == o.play_count && t.mtime == o.mtime && t.created_at == o.created_at
                    },
            decreases self.tracks@.len() - i,
        {
            if self.tracks[i].id == track_id {
                let old_row = self.tracks.remove(i);
                let mut row = old_row;
                row.liked = liked;
                self.tracks.insert(i, row);
                proof {
                    assert(self.tracks@ =~= old(self).tracks@.update(
                        i as int,
                        self.tracks@[i as int],
                    ));
                }
            }
            i = i + 1;
        }
        proof {
            assert(self.wf()) by {
                assert(forall|k: int|
                    0 <= k < self.tracks@.len() ==> self.tracks@[k].id == old(
                        self,
                    ).tracks@[k].id && self.tracks@[k].path@ == old(self).tracks@[k].path@
                        && self.tracks@[k].artist_id == old(self).tracks@[k].artist_id);
            }
        }
    }

    /// Register a root path for scanning; registering a path twice keeps
    /// one entry.
    pub fn add_root(&mut self, path: &str)
        requires
            old(self).wf(),
        ensures
            final(self).wf(),
            final(self).artists == old(self).artists,
            final(self).albums == old(self).albums,
            final(self).tracks == old(self).tracks,
            final(self).track_artists == old(self).track_artists,
            final(self).album_artists == old(self).album_artists,
            final(self).playlists == old(self).playlists,
            final(self).playlist_tracks == old(self).playlist_tracks,
            final(self).next_id == old(self).next_id,
            crate::catalog::path_in(old(self).roots@, path@) ==> final(self).roots == old(
                self,
            ).roots,
            !crate::catalog::path_in(old(self).roots@, path@) ==> final(self).roots@.len() == old(
                self,
            ).roots@.len() + 1 && final(self).roots@.take(old(self).roots@.len() as int) == old(
                self,
            ).roots@ && final(self).roots@.last()@ == path@,
            crate::catalog::path_in(final(self).roots@, path@),
    {
        let present = crate::catalog::contains_path(&self.roots, path);
        if !present {
            self.roots.push(path.to_owned());
            proof {
                assert(self.roots@.take(old(self).roots@.len() as int) =~= old(self).roots@);
                assert(crate::catalog::path_in(self.roots@, path@)) by {
                    assert(self.roots@[self.roots@.len() - 1]@ == path@);
                }
                assert(self.roots_wf()) by {
                    assert(forall|k: int|
                        0 <= k < old(self).roots@.len() ==> self.roots@[k] == old(
                            self,
                        ).roots@[k]);
                }
            }
        }
    }
}


// ---- statistics ----

/// Total seconds of audio in the catalog.
pub open spec fn sum_durations(ts: Seq<TrackRow>) -> nat
    decreases ts.len(),
{
    if ts.len() == 0 {
        0
    } else {
        sum_durations(ts.drop_last()) + ts.last().duration_sec as nat
    }
}

/// Sum and count of the tracks that report a bitrate.
pub open spec fn sum_bitrates(ts: Seq<TrackRow>) -> nat
    decreases ts.len(),
{
    if ts.len() == 0 {
        0
    } else {
        sum_bitrates(ts.drop_last()) + opt_u32(ts.last().bitrate)
    }
}

pub open spec fn count_bitrates(ts: Seq<TrackRow>) -> nat
    decreases ts.len(),
{
    if ts.len() == 0 {
        0
    } else {
        count_bitrates(ts.drop_last()) + if ts.last().bitrate is Some {
            1nat
        } else {
            0nat
        }
    }
}

pub open spec fn clamp_u32(n: nat) -> u32 {
    if n > 0xffff_ffff {
        0xffff_ffffu32
    } else {
        n as u32
    }
}

impl Catalog {
    /// Row counts, total duration, and the mean bitrate of the tracks that
    /// report one; totals are clamped to the counters' width.
    pub fn get_library_stats(&self) -> (r: LibraryStats)
        requires
            self.tracks@.len() < 0x1_0000_0000,
            self.albums@.len() < 0x1_0000_0000,
            self.artists@.len() < 0x1_0000_0000,
        ensures
            r.album_count == self.albums@.len(),
            r.track_count == self.tracks@.len(),
            r.artist_count == self.artists@.len(),
            r.total_duration == clamp_u32(sum_durations(self.tracks@)),
            r.average_bitrate == if count_bitrates(self.tracks@) == 0 {
                0u32
            } else {
                clamp_u32(sum_bitrates(self.tracks@) / count_bitrates(self.tracks@))
            },
    {
        let mut dur: u64 = 0;
        let mut bits: u64 = 0;
        let mut nbits: u64 = 0;
        let mut i: usize = 0;
        while i < self.tracks.len()
            invariant
                i <= self.tracks@.len(),
                self.tracks@.len() < 0x1_0000_0000,
                dur == sum_durations(self.tracks@.take(i as int)),
                bits == sum_bitrates(self.tracks@.take(i as int)),
                nbits == count_bitrates(self.tracks@.take(i as int)),
                dur <= i * 0x1_0000_0000,
                bits <= i * 0x1_0000_0000,
                nbits <= i,
            decreases self.tracks@.len() - i,
        {
            proof {
                assert(self.tracks@.take(i + 1).drop_last() =~= self.tracks@.take(i as int));
                assert(self.tracks@.take(i + 1).last() == self.tracks@[i as int]);
            }
            let t = &self.tracks[i];
            dur = dur + t.duration_sec as u64;
            if let Some(b) = t.bitrate {
                bits = bits + b as u64;
                nbits = nbits + 1;
            }
            i = i + 1;
        }
        assert(self.tracks@.take(self.tracks@.len() as int) == self.tracks@);
        let total_duration: u32 = if dur > 0xffff_ffff {
            0xffff_ffff
        } else {
            dur as u32
        };
        let average_bitrate: u32 = if nbits == 0 {
            0
        } else {
            let avg = bits / nbits;
            if avg > 0xffff_ffff {
                0xffff_ffff
            } else {
                avg as u32
            }
        };
        LibraryStats {
            album_count: self.albums.len() as u32,
            track_count: self.tracks.len() as u32,
            artist_count: self.artists.len() as u32,
            total_duration,
            average_bitrate,
        }
    }
}

// ---- playlists ----

/// The current wall-clock time as Unix seconds.
/// Relies on chrono::Utc::now; the value depends on the clock, so nothing
/// is promised of it.
#[verifier::external_body]
pub fn utc_now_seconds() -> i64 {
    chrono::Utc::now().timestamp()
}

/// How a public `Playlist` record reflects a catalog row.
pub open spec fn playlist_entity_rel(c: Catalog, p: PlaylistRow, e: crate::entities::Playlist) -> bool {
    &&& e.id@ == spec_digits(p.id as nat)
    &&& e.name@ == p.name@
    &&& e.owner@ == p.owner@
    &&& e.cover_art == p.cover_art
    &&& e.created_at == p.created_at
    &&& e.track_count == c.playlist_tracks@.filter(
        (|x: PlaylistTrackRow| x.playlist_id == p.id),
    ).len() as u32
}

/// All playlists, most recently created first.
pub open spec fn spec_playlist_rows(c: Catalog) -> Seq<PlaylistRow> {
    strip_keys(
        spec_sort_pairs(
            c.playlists@.map_values(|p: PlaylistRow| (desc_time_key(p.created_at), p)),
        ),
    )
}

/// The largest position used in one playlist, or zero when it is empty.
pub open spec fn max_position(entries: Seq<PlaylistTrackRow>, pid: u64) -> nat
    decreases entries.len(),
{
    if entries.len() == 0 {
        0
    } else {
        let rest = max_position(entries.drop_last(), pid);
        if entries.last().playlist_id == pid && entries.last().position > rest {
            entries.last().position as nat
        } else {
            rest
        }
    }
}

/// The track row with this id (unique under `wf`).
pub open spec fn track_by_id(c: Catalog, tid: u64) -> TrackRow {
    let i = choose|i: int| 0 <= i < c.tracks@.len() && c.tracks@[i].id == tid;
    c.tracks@[i]
}

/// One playlist's tracks, in playlist position order.
pub open spec fn spec_playlist_track_rows(c: Catalog, pid: u64) -> Seq<TrackRow> {
    strip_keys(
        spec_sort_pairs(
            c.playlist_tracks@.filter((|e: PlaylistTrackRow| e.playlist_id == pid)).map_values(
                |e: PlaylistTrackRow| (e.position as u64, track_by_id(c, e.track_id)),
            ),
        ),
    )
}

fn count_playlist_entries(c: &Catalog, pid: u64) -> (r: usize)
    ensures
        r == c.playlist_tracks@.filter((|x: PlaylistTrackRow| x.playlist_id == pid)).len(),
{
    let ghost keep = |x: PlaylistTrackRow| x.playlist_id == pid;
    let mut n: usize = 0;
    let mut i: usize = 0;
    proof {
        reveal(Seq::filter);
        assert(c.playlist_tracks@.take(0).filter(keep) =~= Seq::<PlaylistTrackRow>::empty());
    }
    while i < c.playlist_tracks.len()
        invariant
            i <= c.playlist_tracks@.len(),
            keep == (|x: PlaylistTrackRow| x.playlist_id == pid),
            n == c.playlist_tracks@.take(i as int).filter(keep).len(),
            n <= i,
        decreases c.playlist_tracks@.len() - i,
    {
        proof {
            reveal(Seq::filter);
            assert(c.playlist_tracks@.take(i + 1).drop_last() =~= c.playlist_tracks@.take(
                i as int,
            ));
            assert(c.playlist_tracks@.take(i + 1).last() == c.playlist_tracks@[i as int]);
        }
        if c.playlist_tracks[i].playlist_id == pid {
            n = n + 1;
        }
        i = i + 1;
    }
    assert(c.playlist_tracks@.take(c.playlist_tracks@.len() as int) == c.playlist_tracks@);
    n
}

impl Catalog {
    pub fn playlist_entity(&self, p: &PlaylistRow) -> (e: crate::entities::Playlist)
        ensures
            playlist_entity_rel(*self, *p, e),
    {
        let n = count_playlist_entries(self, p.id);
        crate::entities::Playlist {
            id: u64_to_string(p.id),
            name: p.name.clone(),
            owner: p.owner.clone(),
            track_count: #[verifier::truncate] (n as u32),
            cover_art: clone_opt_str(&p.cover_art),
            created_at: p.created_at,
        }
    }

    /// All playlists with their sizes, most recently created first.
    pub fn get_playlists(&self) -> (r: Vec<crate::entities::Playlist>)
        requires
            self.wf(),
        ensures
            r@.len() == spec_playlist_rows(*self).len(),
            forall|k: int|
                0 <= k < r@.len() ==> playlist_entity_rel(
                    *self,
                    spec_playlist_rows(*self)[k],
                    #[trigger] r@[k],
                ),
    {
        let ghost pf = |p: PlaylistRow| (desc_time_key(p.created_at), p);
        let mut pairs: Vec<(u64, PlaylistRow)> = Vec::new();
        let mut i: usize = 0;
        while i < self.playlists.len()
            invariant
                i <= self.playlists@.len(),
                pf == (|p: PlaylistRow| (desc_time_key(p.created_at), p)),
                pairs@ == self.playlists@.take(i as int).map_values(pf),
            decreases self.playlists@.len() - i,
        {
            let p = &self.playlists[i];
            let k = desc_time_key_exec(p.created_at);
            pairs.push(
                (
                    k,
                    PlaylistRow {
                        id: p.id,
                        name: p.name.clone(),
                        owner: p.owner.clone(),
                        cover_art: clone_opt_str(&p.cover_art),
                        created_at: p.created_at,
                    },
                ),
            );
            proof {
                assert(self.playlists@.take(i + 1).map_values(pf) =~= self.playlists@.take(
                    i as int,
                ).map_values(pf).push(pf(self.playlists@[i as int])));
                assert(pairs@ =~= self.playlists@.take(i + 1).map_values(pf));
            }
            i = i + 1;
        }
        assert(self.playlists@.take(self.playlists@.len() as int) == self.playlists@);
        let rows = strip_pairs(sort_pairs(pairs));
        let mut out: Vec<crate::entities::Playlist> = Vec::new();
        let mut k: usize = 0;
        while k < rows.len()
            invariant
                k <= rows@.len(),
                out@.len() == k,
                forall|j: int|
                    0 <= j < k ==> playlist_entity_rel(*self, rows@[j], #[trigger] out@[j]),
            decreases rows@.len() - k,
        {
            out.push(self.playlist_entity(&rows[k]));
            k = k + 1;
        }
        out
    }

    /// Create an empty playlist owned by the local user, stamped with the
    /// given creation time, and return its id.
    pub fn create_playlist(&mut self, name: &str, now: i64) -> (pid: u64)
        requires
            old(self).wf(),
            old(self).next_id < u64::MAX,
        ensures
            final(self).wf(),
            final(self).artists == old(self).artists,
            final(self).albums == old(self).albums,
            final(self).tracks == old(self).tracks,
            final(self).track_artists == old(self).track_artists,
            final(self).album_artists == old(self).album_artists,
            final(self).playlist_tracks == old(self).playlist_tracks,
            final(self).roots == old(self).roots,
            pid == old(self).next_id,
            final(self).next_id == old(self).next_id + 1,
            final(self).playlists@.len() == old(self).playlists@.len() + 1,
            final(self).playlists@.take(old(self).playlists@.len() as int) == old(self).playlists@,
            final(self).playlists@.last().id == pid,
            final(self).playlists@.last().name@ == name@,
            final(self).playlists@.last().owner@ == "local"@,
            final(self).playlists@.last().cover_art is None,
            final(self).playlists@.last().created_at == now,
    {
        let pid = self.next_id;
        self.next_id = self.next_id + 1;
        self.playlists.push(
            PlaylistRow {
                id: pid,
                name: name.to_owned(),
                owner: String::from_str("local"),
                cover_art: None,
                created_at: now,
            },
        );
        proof {
            assert(self.playlists@.take(old(self).playlists@.len() as int) =~= old(
                self,
            ).playlists@);
            assert(self.links_wf()) by {
                assert(forall|k: int|
                    0 <= k < old(self).playlists@.len() ==> self.playlists@[k] == old(
                        self,
                    ).playlists@[k]);
            }
        }
        pid
    }

    /// Create an empty playlist stamped with the current time.
    pub fn create_playlist_now(&mut self, name: &str) -> (pid: u64)
        requires
            old(self).wf(),
            old(self).next_id < u64::MAX,
        ensures
            final(self).wf(),
            pid == old(self).next_id,
            final(self).playlists@.len() == old(self).playlists@.len() + 1,
            final(self).playlists@.last().id == pid,
            final(self).playlists@.last().name@ == name@,
            final(self).tracks == old(self).tracks,
            final(self).artists == old(self).artists,
            final(self).albums == old(self).albums,
    {
        let now = utc_now_seconds();
        self.create_playlist(name, now)
    }

    /// Delete one playlist and its entries; nothing else changes.
    pub fn delete_playlist(&mut self, pid: u64)
        requires
            old(self).wf(),
        ensures
            final(self).wf(),
            final(self).artists == old(self).artists,
            final(self).albums == old(self).albums,
            final(self).tracks == old(self).tracks,
            final(self).track_artists == old(self).track_artists,
            final(self).album_artists == old(self).album_artists,
            final(self).roots == old(self).roots,
            final(self).next_id == old(self).next_id,
            final(self).playlists@ == old(self).playlists@.filter(
                (|p: PlaylistRow| p.id != pid),
            ),
            final(self).playlist_tracks@ == old(self).playlist_tracks@.filter(
                (|e: PlaylistTrackRow| e.playlist_id != pid),
            ),
    {
        let ghost pls0 = self.playlists@;
        let ghost pts0 = self.playlist_tracks@;
        let ghost keep_p = |p: PlaylistRow| p.id != pid;
        let ghost keep_e = |e: PlaylistTrackRow| e.playlist_id != pid;
        let mut new_pls: Vec<PlaylistRow> = Vec::new();
        let mut i: usize = 0;
        proof {
            reveal(Seq::filter);
            assert(pls0.take(0).filter(keep_p) =~= new_pls@);
        }
        while i < self.playlists.len()
            invariant
                i <= pls0.len(),
                pls0 == self.playlists@,
                keep_p == (|p: PlaylistRow| p.id != pid),
                new_pls@ == pls0.take(i as int).filter(keep_p),
            decreases pls0.len() - i,
        {
            proof {
                reveal(Seq::filter);
                assert(pls0.take(i + 1).drop_last() =~= pls0.take(i as int));
                assert(pls0.take(i + 1).last() == pls0[i as int]);
            }
            let p = &self.playlists[i];
            if p.id != pid {
                new_pls.push(
                    PlaylistRow {
                        id: p.id,
                        name: p.name.clone(),
                        owner: p.owner.clone(),
                        cover_art: clone_opt_str(&p.cover_art),
                        created_at: p.created_at,
                    },
                );
            }
            assert(new_pls@ =~= pls0.take(i + 1).filter(keep_p));
            i = i + 1;
        }
        assert(pls0.take(pls0.len() as int) == pls0);
        let mut new_pts: Vec<PlaylistTrackRow> = Vec::new();
        let mut j: usize = 0;
        proof {
            reveal(Seq::filter);
            assert(pts0.take(0).filter(keep_e) =~= new_pts@);
        }
        while j < self.playlist_tracks.len()
            invariant
                j <= pts0.len(),
                pts0 == self.playlist_tracks@,
                keep_e == (|e: PlaylistTrackRow| e.playlist_id != pid),
                new_pts@ == pts0.take(j as int).filter(keep_e),
            decreases pts0.len() - j,
        {
            proof {
                reveal(Seq::filter);
                assert(pts0.take(j + 1).drop_last() =~= pts0.take(j as int));
                assert(pts0.take(j + 1).last() == pts0[j as int]);
            }
            let e = self.playlist_tracks[j];
            if e.playlist_id != pid {
                new_pts.push(e);
            }
            assert(new_pts@ =~= pts0.take(j + 1).filter(keep_e));
            j = j + 1;
        }
        assert(pts0.take(pts0.len() as int) == pts0);
        self.playlists = new_pls;
        self.playlist_tracks = new_pts;
        proof {
            broadcast use vstd::seq_lib::group_filter_ensures;

            let fp = self.playlists@;
            let fe = self.playlist_tracks@;
            let rel_p = |a: PlaylistRow, b: PlaylistRow| a.id != b.id;
            assert forall|x: int, y: int| 0 <= x < y < pls0.len() implies #[trigger] rel_p(
                pls0[x],
                pls0[y],
            ) by {}
            assert forall|x: int, y: int| 0 <= x < y < pls0.len() implies #[trigger] rel_p(
                pls0[y],
                pls0[x],
            ) by {}
            crate::catalog::lemma_filter_pairs(pls0, keep_p, rel_p);
            let rel_e = |a: PlaylistTrackRow, b: PlaylistTrackRow|
                !(a.playlist_id == b.playlist_id && a.track_id == b.track_id);
            assert forall|x: int, y: int| 0 <= x < y < pts0.len() implies #[trigger] rel_e(
                pts0[x],
                pts0[y],
            ) by {}
            assert forall|x: int, y: int| 0 <= x < y < pts0.len() implies #[trigger] rel_e(
                pts0[y],
                pts0[x],
            ) by {}
            crate::catalog::lemma_filter_pairs(pts0, keep_e, rel_e);
            assert(self.links_wf()) by {
                assert forall|x: int, y: int| 0 <= x < y < fp.len() implies fp[x].id != fp[y].id
                    by {
                    assert(rel_p(pls0.filter(keep_p)[x], pls0.filter(keep_p)[y]));
                }
                assert forall|x: int, y: int| 0 <= x < y < fe.len() implies !(fe[x].playlist_id
                    == fe[y].playlist_id && fe[x].track_id == fe[y].track_id) by {
                    assert(rel_e(pts0.filter(keep_e)[x], pts0.filter(keep_e)[y]));
                }
            }
            assert(self.refs_wf()) by {
                assert forall|x: int| 0 <= x < fe.len() implies crate::catalog::has_track_id(
                    self.tracks@,
                    (#[trigger] fe[x]).track_id,
                ) by {
                    crate::catalog::lemma_filter_elem(pts0, keep_e, x);
                    let w = choose|w: int| 0 <= w < pts0.len() && pts0[w] == fe[x];
                    assert(crate::catalog::has_track_id(self.tracks@, pts0[w].track_id));
                }
            }
            assert(self.ids_wf()) by {
                assert forall|x: int| 0 <= x < fp.len() implies fp[x].id < self.next_id by {
                    crate::catalog::lemma_filter_elem(pls0, keep_p, x);
                    let w = choose|w: int| 0 <= w < pls0.len() && pls0[w] == fp[x];
                }
            }
        }
    }

    /// Append a track at the end of a playlist. Fails (returning false and
    /// changing nothing) when the playlist or track does not exist, as the
    /// schema's foreign keys would; re-adding a present track is ignored.
    pub fn add_to_playlist(&mut self, pid: u64, tid: u64) -> (ok: bool)
        requires
            old(self).wf(),
        ensures
            final(self).wf(),
            final(self).artists == old(self).artists,
            final(self).albums == old(self).albums,
            final(self).tracks == old(self).tracks,
            final(self).track_artists == old(self).track_artists,
            final(self).album_artists == old(self).album_artists,
            final(self).playlists == old(self).playlists,
            final(self).roots == old(self).roots,
            final(self).next_id == old(self).next_id,
            ok == (crate::catalog::has_playlist(old(self).playlists@, pid)
                && crate::catalog::has_track_id(old(self).tracks@, tid)),
            !ok ==> final(self).playlist_tracks == old(self).playlist_tracks,
            ok && (exists|i: int|
                0 <= i < old(self).playlist_tracks@.len() && (#[trigger] old(
                    self,
                ).playlist_tracks@[i]).playlist_id == pid && old(self).playlist_tracks@[i].track_id
                    == tid) ==> final(self).playlist_tracks == old(self).playlist_tracks,
            ok && !(exists|i: int|
                0 <= i < old(self).playlist_tracks@.len() && (#[trigger] old(
                    self,
                ).playlist_tracks@[i]).playlist_id == pid && old(self).playlist_tracks@[i].track_id
                    == tid) ==> final(self).playlist_tracks@ == old(self).playlist_tracks@.push(
                PlaylistTrackRow {
                    playlist_id: pid,
                    track_id: tid,
                    position: clamp_u32(max_position(old(self).playlist_tracks@, pid) + 1),
                },
            ),
    {
        let has_pl = self.find_playlist(pid);
        let has_tr = self.find_track_id(tid);
        if !(has_pl && has_tr) {
            return false;
        }
        let mut present = false;
        let mut maxp: u32 = 0;
        let mut i: usize = 0;
        while i < self.playlist_tracks.len()
            invariant
                i <= self.playlist_tracks@.len(),
                present == (exists|k: int|
                    0 <= k < i && (#[trigger] self.playlist_tracks@[k]).playlist_id == pid
                        && self.playlist_tracks@[k].track_id == tid),
                maxp == max_position(self.playlist_tracks@.take(i as int), pid),
            decreases self.playlist_tracks@.len() - i,
        {
            proof {
                assert(self.playlist_tracks@.take(i + 1).drop_last() =~= self.playlist_tracks@.take(
                    i as int,
                ));
                assert(self.playlist_tracks@.take(i + 1).last() == self.playlist_tracks@[i as int]);
            }
            let e = self.playlist_tracks[i];
            if e.playlist_id == pid && e.track_id == tid {
                present = true;
            }
            if e.playlist_id == pid && e.position > maxp {
                maxp = e.position;
            }
            i = i + 1;
        }
        assert(self.playlist_tracks@.take(self.playlist_tracks@.len() as int)
            == self.playlist_tracks@);
        if !present {
            let pos: u32 = if maxp == 0xffff_ffff {
                0xffff_ffff
            } else {
                maxp + 1
            };
            assert(pos == clamp_u32(max_position(self.playlist_tracks@, pid) + 1));
            self.playlist_tracks.push(PlaylistTrackRow { playlist_id: pid, track_id: tid, position: pos });
            proof {
                let pts = self.playlist_tracks@;
                assert(self.links_wf()) by {
                    assert(forall|x: int|
                        0 <= x < pts.len() - 1 ==> pts[x] == old(self).playlist_tracks@[x]);
                }
                assert(self.refs_wf()) by {
                    assert(forall|x: int|
                        0 <= x < pts.len() - 1 ==> pts[x] == old(self).playlist_tracks@[x]);
                    assert(crate::catalog::has_track_id(self.tracks@, tid));
                }
            }
        }
        true
    }

    fn find_playlist(&self, pid: u64) -> (r: bool)
        ensures
            r == crate::catalog::has_playlist(self.playlists@, pid),
    {
        let mut i: usize = 0;
        while i < self.playlists.len()
            invariant
                i <= self.playlists@.len(),
                forall|k: int| 0 <= k < i ==> self.playlists@[k].id != pid,
            decreases self.playlists@.len() - i,
        {
            if self.playlists[i].id == pid {
                assert(crate::catalog::has_playlist(self.playlists@, pid));
                return true;
            }
            i = i + 1;
        }
        false
    }

    fn find_track_id(&self, tid: u64) -> (r: bool)
        ensures
            r == crate::catalog::has_track_id(self.tracks@, tid),
    {
        let mut i: usize = 0;
        while i < self.tracks.len()
            invariant
                i <= self.tracks@.len(),
                forall|k: int| 0 <= k < i ==> self.tracks@[k].id != tid,
            decreases self.tracks@.len() - i,
        {
            if self.tracks[i].id == tid {
                assert(crate::catalog::has_track_id(self.tracks@, tid));
                return true;
            }
            i = i + 1;
        }
        false
    }

    /// Remove one track from one playlist; other entries are untouched.
    pub fn remove_from_playlist(&mut self, pid: u64, tid: u64)
        requires
            old(self).wf(),
        ensures
            final(self).wf(),
            final(self).artists == old(self).artists,
            final(self).albums == old(self).albums,
            final(self).tracks == old(self).tracks,
            final(self).track_artists == old(self).track_artists,
            final(self).album_artists == old(self).album_artists,
            final(self).playlists == old(self).playlists,
            final(self).roots == old(self).roots,
            final(self).next_id == old(self).next_id,
            final(self).playlist_tracks@ == old(self).playlist_tracks@.filter(
                (|e: PlaylistTrackRow| !(e.playlist_id == pid && e.track_id == tid)),
            ),
    {
        let ghost pts0 = self.playlist_tracks@;
        let ghost keep = |e: PlaylistTrackRow| !(e.playlist_id == pid && e.track_id == tid);
        let mut new_pts: Vec<PlaylistTrackRow> = Vec::new();
        let mut j: usize = 0;
        proof {
            reveal(Seq::filter);
            assert(pts0.take(0).filter(keep) =~= new_pts@);
        }
        while j < self.playlist_tracks.len()
            invariant
                j <= pts0.len(),
                pts0 == self.playlist_tracks@,
                keep == (|e: PlaylistTrackRow| !(e.playlist_id == pid && e.track_id == tid)),
                new_pts@ == pts0.take(j as int).filter(keep),
            decreases pts0.len() - j,
        {
            proof {
                reveal(Seq::filter);
                assert(pts0.take(j + 1).drop_last() =~= pts0.take(j as int));
                assert(pts0.take(j + 1).last() == pts0[j as int]);
            }
            let e = self.playlist_tracks[j];
            if !(e.playlist_id == pid && e.track_id == tid) {
                new_pts.push(e);
            }
            assert(new_pts@ =~= pts0.take(j + 1).filter(keep));
            j = j + 1;
        }
        assert(pts0.take(pts0.len() as int) == pts0);
        self.playlist_tracks = new_pts;
        proof {
            broadcast use vstd::seq_lib::group_filter_ensures;

            let fe = self.playlist_tracks@;
            let rel_e = |a: PlaylistTrackRow, b: PlaylistTrackRow|
                !(a.playlist_id == b.playlist_id && a.track_id == b.track_id);
            assert forall|x: int, y: int| 0 <= x < y < pts0.len() implies #[trigger] rel_e(
                pts0[x],
                pts0[y],
            ) by {}
            assert forall|x: int, y: int| 0 <= x < y < pts0.len() implies #[trigger] rel_e(
                pts0[y],
                pts0[x],
            ) by {}
            crate::catalog::lemma_filter_pairs(pts0, keep, rel_e);
            assert(self.links_wf()) by {
                assert forall|x: int, y: int| 0 <= x < y < fe.len() implies !(fe[x].playlist_id
                    == fe[y].playlist_id && fe[x].track_id == fe[y].track_id) by {
                    assert(rel_e(pts0.filter(keep)[x], pts0.filter(keep)[y]));
                }
            }
            assert(self.refs_wf()) by {
                assert forall|x: int| 0 <= x < fe.len() implies crate::catalog::has_track_id(
                    self.tracks@,
                    (#[trigger] fe[x]).track_id,
                ) by {
                    crate::catalog::lemma_filter_elem(pts0, keep, x);
                    let w = choose|w: int| 0 <= w < pts0.len() && pts0[w] == fe[x];
                    assert(crate::catalog::has_track_id(self.tracks@, pts0[w].track_id));
                }
            }
        }
    }

    /// One playlist's tracks in position order.
    pub fn get_playlist_tracks(&self, pid: u64) -> (r: Vec<Track>)
        requires
            self.wf(),
        ensures
            r@.len() == spec_playlist_track_rows(*self, pid).len(),
            forall|k: int|
                0 <= k < r@.len() ==> track_entity_rel(
                    *self,
                    spec_playlist_track_rows(*self, pid)[k],
                    #[trigger] r@[k],
                ),
    {
        let ghost keep = |e: PlaylistTrackRow| e.playlist_id == pid;
        let ghost pf = |e: PlaylistTrackRow| (e.position as u64, track_by_id(*self, e.track_id));
        let mut pairs: Vec<(u64, TrackRow)> = Vec::new();
        let mut i: usize = 0;
        proof {
            reveal(Seq::filter);
            assert(self.playlist_tracks@.take(0).filter(keep).map_values(pf) =~= pairs@);
        }
        while i < self.playlist_tracks.len()
            invariant
                i <= self.playlist_tracks@.len(),
                self.wf(),
                keep == (|e: PlaylistTrackRow| e.playlist_id == pid),
                pf == (|e: PlaylistTrackRow| (e.position as u64, track_by_id(*self, e.track_id))),
                pairs@ == self.playlist_tracks@.take(i as int).filter(keep).map_values(pf),
            decreases self.playlist_tracks@.len() - i,
        {
            proof {
                reveal(Seq::filter);
                assert(self.playlist_tracks@.take(i + 1).drop_last() =~= self.playlist_tracks@.take(
                    i as int,
                ));
                assert(self.playlist_tracks@.take(i + 1).last() == self.playlist_tracks@[i as int]);
            }
            let e = self.playlist_tracks[i];
            if e.playlist_id == pid {
                let row = self.fetch_track_by_id(e.track_id);
                proof {
                    assert(row == track_by_id(*self, e.track_id));
                }
                pairs.push((e.position as u64, row));
            }
            assert(pairs@ =~= self.playlist_tracks@.take(i + 1).filter(keep).map_values(pf));
            i = i + 1;
        }
        assert(self.playlist_tracks@.take(self.playlist_tracks@.len() as int)
            == self.playlist_tracks@);
        let rows = strip_pairs(sort_pairs(pairs));
        self.tracks_to_entities(&rows)
    }

    fn fetch_track_by_id(&self, tid: u64) -> (r: TrackRow)
        requires
            self.wf(),
            crate::catalog::has_track_id(self.tracks@, tid),
        ensures
            r == track_by_id(*self, tid),
    {
        let mut i: usize = 0;
        while i < self.tracks.len()
            invariant
                i <= self.tracks@.len(),
                self.wf(),
                crate::catalog::has_track_id(self.tracks@, tid),
                forall|k: int| 0 <= k < i ==> self.tracks@[k].id != tid,
            decreases self.tracks@.len() - i,
        {
            if self.tracks[i].id == tid {
                proof {
                    let w = choose|w: int|
                        0 <= w < self.tracks@.len() && self.tracks@[w].id == tid;
                    if w < i as int {
                        assert(false);
                    }
                    if (i as int) < w {
                        assert(false);
                    }
                }
                return crate::catalog::clone_track_row(&self.tracks[i]);
            }
            i = i + 1;
        }
        proof {
            assert(false);
        }
        crate::catalog::clone_track_row(&self.tracks[0])
    }
}


// ---- genres ----

/// The number of tracks in one genre.
pub open spec fn genre_count(ts: Seq<TrackRow>, g: Seq<char>) -> nat {
    ts.filter((|t: TrackRow| t.genre matches Some(x) && x@ == g)).len()
}

/// A genre value worth listing: present and non-empty.
pub open spec fn listed_genre(t: TrackRow) -> bool {
    t.genre matches Some(g) && g@.len() > 0
}

impl Catalog {
    fn count_genre(&self, g: &str) -> (r: usize)
        ensures
            r == genre_count(self.tracks@, g@),
    {
        let ghost keep = |t: TrackRow| t.genre matches Some(x) && x@ == g@;
        let mut n: usize = 0;
        let mut i: usize = 0;
        proof {
            reveal(Seq::filter);
            assert(self.tracks@.take(0).filter(keep) =~= Seq::<TrackRow>::empty());
        }
        while i < self.tracks.len()
            invariant
                i <= self.tracks@.len(),
                keep == (|t: TrackRow| t.genre matches Some(x) && x@ == g@),
                n == self.tracks@.take(i as int).filter(keep).len(),
                n <= i,
            decreases self.tracks@.len() - i,
        {
            proof {
                reveal(Seq::filter);
                assert(self.tracks@.take(i + 1).drop_last() =~= self.tracks@.take(i as int));
                assert(self.tracks@.take(i + 1).last() == self.tracks@[i as int]);
            }
            let is_g = match &self.tracks[i].genre {
                Some(x) => eq_str(x.as_str(), g),
                None => false,
            };
            if is_g {
                n = n + 1;
            }
            i = i + 1;
        }
        assert(self.tracks@.take(self.tracks@.len() as int) == self.tracks@);
        n
    }

    /// The distinct non-empty genres with their track counts.
    pub fn get_genres(&self) -> (r: Vec<Genre>)
        ensures
            forall|k1: int, k2: int|
                0 <= k1 < k2 < r@.len() ==> (#[trigger] r@[k1]).name@ != (#[trigger] r@[k2]).name@,
            forall|k: int|
                0 <= k < r@.len() ==> genre_in_tracks(self.tracks@, (#[trigger] r@[k]).name@)
                    && r@[k].track_count == genre_count(self.tracks@, r@[k].name@) as u32,
            forall|j: int|
                0 <= j < self.tracks@.len() && listed_genre(#[trigger] self.tracks@[j])
                    ==> genre_named(r@, (self.tracks@[j].genre->0)@),
    {
        let names = self.collect_genre_names();
        let mut out: Vec<Genre> = Vec::new();
        let mut k: usize = 0;
        while k < names.len()
            invariant
                k <= names@.len(),
                forall|k1: int, k2: int|
                    0 <= k1 < k2 < names@.len() ==> (#[trigger] names@[k1])@ != (
                    #[trigger] names@[k2])@,
                forall|k2: int|
                    0 <= k2 < names@.len() ==> genre_in_tracks(
                        self.tracks@,
                        (#[trigger] names@[k2])@,
                    ),
                out@.len() == k,
                forall|j: int|
                    0 <= j < k ==> (#[trigger] out@[j]).name@ == names@[j]@ && out@[j].track_count
                        == genre_count(self.tracks@, names@[j]@) as u32,
            decreases names@.len() - k,
        {
            let cnt = self.count_genre(names[k].as_str());
            out.push(
                Genre { name: names[k].clone(), track_count: #[verifier::truncate] (cnt as u32) },
            );
            k = k + 1;
        }
        proof {
            assert forall|j: int|
                0 <= j < self.tracks@.len() && listed_genre(#[trigger] self.tracks@[j]) implies
                genre_named(out@, (self.tracks@[j].genre->0)@) by {
                assert(name_listed(names@, (self.tracks@[j].genre->0)@));
                let k2 = choose|k2: int|
                    0 <= k2 < names@.len() && names@[k2]@ == (self.tracks@[j].genre->0)@;
                assert(out@[k2].name@ == (self.tracks@[j].genre->0)@);
            }
        }
        out
    }

    /// The distinct non-empty genre names, in first-appearance order.
    fn collect_genre_names(&self) -> (names: Vec<String>)
        ensures
            forall|k1: int, k2: int|
                0 <= k1 < k2 < names@.len() ==> (#[trigger] names@[k1])@ != (
                #[trigger] names@[k2])@,
            forall|k: int|
                0 <= k < names@.len() ==> genre_in_tracks(self.tracks@, (#[trigger] names@[k])@),
            forall|j: int|
                0 <= j < self.tracks@.len() && listed_genre(#[trigger] self.tracks@[j])
                    ==> name_listed(names@, (self.tracks@[j].genre->0)@),
    {
        let mut names: Vec<String> = Vec::new();
        let mut i: usize = 0;
        while i < self.tracks.len()
            invariant
                i <= self.tracks@.len(),
                forall|k1: int, k2: int|
                    0 <= k1 < k2 < names@.len() ==> (#[trigger] names@[k1])@ != (
                    #[trigger] names@[k2])@,
                forall|k: int|
                    0 <= k < names@.len() ==> genre_in_tracks(
                        self.tracks@,
                        (#[trigger] names@[k])@,
                    ),
                forall|j: int|
                    0 <= j < i && listed_genre(#[trigger] self.tracks@[j]) ==> name_listed(
                        names@,
                        (self.tracks@[j].genre->0)@,
                    ),
            decreases self.tracks@.len() - i,
        {
            let ghost names0 = names@;
            let t = &self.tracks[i];
            if let Some(g) = &t.genre {
                if g.unicode_len() > 0 {
                    if !self.name_seen(&names, g.as_str()) {
                        names.push(g.clone());
                        proof {
                            assert(forall|k: int|
                                0 <= k < names0.len() ==> names@[k] == names0[k]);
                            assert(names@[names@.len() - 1]@ == g@);
                            assert(genre_in_tracks(self.tracks@, g@)) by {
                                assert(listed_genre(self.tracks@[i as int]));
                            }
                        }
                    }
                }
            }
            proof {
                assert forall|j: int|
                    0 <= j < i + 1 && listed_genre(#[trigger] self.tracks@[j]) implies
                    name_listed(names@, (self.tracks@[j].genre->0)@) by {
                    if j < i {
                        assert(name_listed(names0, (self.tracks@[j].genre->0)@));
                        let k = choose|k: int|
                            0 <= k < names0.len() && names0[k]@ == (self.tracks@[j].genre->0)@;
                        assert(names@[k]@ == (self.tracks@[j].genre->0)@);
                    } else {
                        assert(name_listed(names@, (self.tracks@[i as int].genre->0)@)) by {
                            let gv = (self.tracks@[i as int].genre->0)@;
                            if name_listed(names0, gv) {
                                let k = choose|k: int|
                                    0 <= k < names0.len() && names0[k]@ == gv;
                                assert(names@[k]@ == gv);
                            } else {
                                assert(names@[names@.len() - 1]@ == gv);
                            }
                        }
                    }
                }
            }
            i = i + 1;
        }
        names
    }

    fn name_seen(&self, names: &Vec<String>, g: &str) -> (r: bool)
        ensures
            r == name_listed(names@, g@),
    {
        let mut k: usize = 0;
        while k < names.len()
            invariant
                k <= names@.len(),
                forall|k2: int| 0 <= k2 < k ==> (#[trigger] names@[k2])@ != g@,
            decreases names@.len() - k,
        {
            if eq_str(names[k].as_str(), g) {
                assert(name_listed(names@, g@)) by {
                    assert(names@[k as int]@ == g@);
                }
                return true;
            }
            k = k + 1;
        }
        false
    }
}

/// Whether some track carries this (non-empty) genre.
pub open spec fn genre_in_tracks(ts: Seq<TrackRow>, g: Seq<char>) -> bool {
    exists|j: int| 0 <= j < ts.len() && listed_genre(ts[j]) && (ts[j].genre->0)@ == g
}

/// Whether a name list carries this string.
pub open spec fn name_listed(names: Seq<String>, g: Seq<char>) -> bool {
    exists|k: int| 0 <= k < names.len() && names[k]@ == g
}

/// Whether a genre list has an entry under this name.
pub open spec fn genre_named(gs: Seq<Genre>, g: Seq<char>) -> bool {
    exists|k: int| 0 <= k < gs.len() && gs[k].name@ == g
}

// ---- random selection ----

/// Whether `x` is the id of some album row.
pub open spec fn is_album_id(albums: Seq<AlbumRow>, x: u64) -> bool {
    exists|j: int| 0 <= j < albums.len() && albums[j].id == x
}

/// Whether `e` is the public record of one of the catalog's albums.
pub open spec fn is_album_of(c: Catalog, e: Album) -> bool {
    exists|i: int| 0 <= i < c.albums@.len() && album_entity_rel(c, c.albums@[i], e)
}

/// Shuffle a list of ids in place.
/// Relies on rand's SliceRandom::shuffle, whose result is a permutation of
/// the slice picked with the thread-local generator; which permutation
/// comes out depends on the generator, so only multiset equality is stated.
/// The generator's initial seeding can fail and panic, which no input can
/// avoid.
#[verifier::external_body]
fn shuffle_ids(v: &mut Vec<u64>)
    ensures
        final(v)@.to_multiset() == old(v)@.to_multiset(),
{
    v.shuffle(&mut rand::rng());
}

impl Catalog {
    /// Up to `limit` distinct albums in an order picked at random.
    pub fn get_random_albums(&self, limit: usize) -> (r: Vec<Album>)
        requires
            self.wf(),
        ensures
            r@.len() == if limit <= self.albums@.len() {
                limit as nat
            } else {
                self.albums@.len()
            },
            forall|k: int| 0 <= k < r@.len() ==> is_album_of(*self, #[trigger] r@[k]),
            forall|k1: int, k2: int|
                0 <= k1 < k2 < r@.len() ==> (#[trigger] r@[k1]).id@ != (#[trigger] r@[k2]).id@,
    {
        let ghost albums0 = self.albums@;
        let mut ids: Vec<u64> = Vec::new();
        let mut i: usize = 0;
        while i < self.albums.len()
            invariant
                i <= albums0.len(),
                albums0 == self.albums@,
                ids@ == albums0.take(i as int).map_values(|a: AlbumRow| a.id),
            decreases albums0.len() - i,
        {
            ids.push(self.albums[i].id);
            proof {
                assert(albums0.take(i + 1).map_values(|a: AlbumRow| a.id) =~= albums0.take(
                    i as int,
                ).map_values(|a: AlbumRow| a.id).push(albums0[i as int].id));
            }
            i = i + 1;
        }
        assert(albums0.take(albums0.len() as int) == albums0);
        let ghost orig_ids = ids@;
        proof {
            assert(orig_ids.no_duplicates()) by {
                assert(forall|x: int, y: int|
                    0 <= x < y < orig_ids.len() ==> orig_ids[x] != orig_ids[y]);
            }
        }
        shuffle_ids(&mut ids);
        proof {
            broadcast use vstd::seq_lib::group_to_multiset_ensures;

            assert(ids@.len() == orig_ids.len()) by {
                assert(ids@.to_multiset().len() == ids@.len());
                assert(orig_ids.to_multiset().len() == orig_ids.len());
            }
            orig_ids.lemma_multiset_has_no_duplicates();
            assert(forall|x: u64|
                ids@.to_multiset().contains(x) ==> ids@.to_multiset().count(x) == 1);
            ids@.lemma_multiset_has_no_duplicates_conv();
            assert forall|k: int| 0 <= k < ids@.len() implies is_album_id(
                albums0,
                #[trigger] ids@[k],
            ) by {
                assert(ids@.contains(ids@[k]));
                assert(ids@.to_multiset().count(ids@[k]) > 0);
                assert(orig_ids.contains(ids@[k]));
                let w = choose|w: int| 0 <= w < orig_ids.len() && orig_ids[w] == ids@[k];
                assert(albums0[w].id == ids@[k]);
            }
        }
        let mut picked = ids;
        picked.truncate(limit);
        proof {
            assert(picked@.no_duplicates());
            assert(forall|k: int|
                0 <= k < picked@.len() ==> is_album_id(albums0, #[trigger] picked@[k]));
        }
        let mut out: Vec<Album> = Vec::new();
        let mut k: usize = 0;
        while k < picked.len()
            invariant
                k <= picked@.len(),
                self.wf(),
                albums0 == self.albums@,
                picked@.no_duplicates(),
                forall|k2: int|
                    0 <= k2 < picked@.len() ==> is_album_id(albums0, #[trigger] picked@[k2]),
                out@.len() == k,
                forall|j: int|
                    0 <= j < k ==> (#[trigger] out@[j]).id@ == spec_digits(picked@[j] as nat)
                        && exists|i2: int|
                        0 <= i2 < albums0.len() && album_entity_rel(
                        *self,
                        albums0[i2],
                        out@[j],
                    ),
            decreases picked@.len() - k,
        {
            let e = self.fetch_album_entity_by_id(picked[k]);
            out.push(e);
            k = k + 1;
        }
        proof {
            assert forall|k2: int| 0 <= k2 < out@.len() implies is_album_of(
                *self,
                #[trigger] out@[k2],
            ) by {
                assert(out@[k2].id@ == spec_digits(picked@[k2] as nat) && exists|i2: int|
                    0 <= i2 < albums0.len() && album_entity_rel(*self, albums0[i2], out@[k2]));
                let w = choose|w: int|
                    0 <= w < albums0.len() && album_entity_rel(*self, albums0[w], out@[k2]);
                assert(album_entity_rel(*self, self.albums@[w], out@[k2]));
            }
            assert forall|k1: int, k2: int| 0 <= k1 < k2 < out@.len() implies (
            #[trigger] out@[k1]).id@ != (#[trigger] out@[k2]).id@ by {
                if out@[k1].id@ == out@[k2].id@ {
                    crate::strutil::lemma_digits_injective(
                        picked@[k1] as nat,
                        picked@[k2] as nat,
                    );
                    assert(false);
                }
            }
        }
        out
    }

    fn fetch_album_entity_by_id(&self, alid: u64) -> (e: Album)
        requires
            self.wf(),
            is_album_id(self.albums@, alid),
        ensures
            e.id@ == spec_digits(alid as nat),
            exists|i: int|
                0 <= i < self.albums@.len() && album_entity_rel(*self, self.albums@[i], e),
    {
        let mut i: usize = 0;
        while i < self.albums.len()
            invariant
                i <= self.albums@.len(),
                self.wf(),
                is_album_id(self.albums@, alid),
                forall|k: int| 0 <= k < i ==> self.albums@[k].id != alid,
            decreases self.albums@.len() - i,
        {
            if self.albums[i].id == alid {
                let e = self.album_entity(&self.albums[i]);
                return e;
            }
            i = i + 1;
        }
        proof {
            assert(false);
        }
        let e = self.album_entity(&self.albums[0]);
        e
    }
}

} // verus!
