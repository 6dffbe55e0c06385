//! The scan pipeline: classification of observed files against the catalog
//! fingerprint map, the per-file resolve/upsert step, and the whole-run
//! reconciliation including deletion of vanished tracks.
//!
//! A run is driven by a list of `ScannedFile` observations: one entry per
//! audio file the walker saw, carrying the path, the filesystem fingerprint
//! (modification time), and the parse outcome for files that needed
//! parsing. The caller only has to parse a file when `needs_parse` says so.

use vstd::prelude::*;
use crate::strutil::{spec_fold, spec_trim};
use crate::meta::TrackMeta;
use crate::covers::CoverStore;
use crate::catalog::{
    Catalog, TrackRow, ArtistRow, AlbumRow, TrackArtistRow, PlaylistTrackRow, has_artist,
    artist_id_of, has_album, album_id_of, has_track_path, track_idx_of, has_track_link,
    path_in, replace_track_links, spec_dedup, links_of, lemma_dedup, lemma_filter_elem,
    upserted_row, surviving_track, find_track,
};

verus! {

/// One file the walker observed: its path, its fingerprint, and the parse
/// outcome (`None` both for files that were skipped as unchanged and for
/// files whose tag data could not be decoded).
pub struct ScannedFile {
    pub path: String,
    pub mtime: i64,
    pub meta: Option<TrackMeta>,
}

/// Whether the catalog already has this exact path with this fingerprint:
/// such a file is classified unchanged and never parsed.
pub open spec fn spec_unchanged(tracks: Seq<TrackRow>, p: Seq<char>, mtime: i64) -> bool {
    exists|i: int| 0 <= i < tracks.len() && tracks[i].path@ == p && tracks[i].mtime == mtime
}

/// Whether a scan run marks this file present: unchanged files always, and
/// changed or new files exactly when their tag data parsed.
pub open spec fn file_found(c0: Catalog, f: ScannedFile) -> bool {
    spec_unchanged(c0.tracks@, f.path@, f.mtime) || f.meta is Some
}

pub open spec fn found_in(c0: Catalog, obs: Seq<ScannedFile>, p: Seq<char>) -> bool {
    exists|k: int| 0 <= k < obs.len() && obs[k].path@ == p && file_found(c0, obs[k])
}

pub open spec fn obs_has_path(obs: Seq<ScannedFile>, p: Seq<char>) -> bool {
    exists|k: int| 0 <= k < obs.len() && obs[k].path@ == p
}

pub open spec fn all_unchanged(c0: Catalog, obs: Seq<ScannedFile>) -> bool {
    forall|k: int|
        0 <= k < obs.len() ==> spec_unchanged(
            c0.tracks@,
            (#[trigger] obs[k]).path@,
            obs[k].mtime,
        )
}

pub open spec fn obs_surviving(c0: Catalog, obs: Seq<ScannedFile>, tid: u64) -> bool {
    exists|i: int|
        0 <= i < c0.tracks@.len() && c0.tracks@[i].id == tid && obs_has_path(
            obs,
            c0.tracks@[i].path@,
        )
}

/// The observed paths are pairwise distinct, as paths of one filesystem
/// walk are.
pub open spec fn distinct_paths(obs: Seq<ScannedFile>) -> bool {
    forall|k1: int, k2: int|
        0 <= k1 < k2 < obs.len() ==> (#[trigger] obs[k1]).path@ != (#[trigger] obs[k2]).path@
}

/// Every parse outcome carries at least one artist, as the metadata policy
/// guarantees.
pub open spec fn metas_wf(obs: Seq<ScannedFile>) -> bool {
    forall|k: int|
        0 <= k < obs.len() ==> ((#[trigger] obs[k]).meta is Some ==> (obs[k].meta->0).artists@.len()
            > 0)
}

/// The row of the (unique, under `wf`) track at path `p`.
pub open spec fn row_of(c: Catalog, p: Seq<char>) -> TrackRow {
    c.tracks@[track_idx_of(c.tracks@, p)]
}

/// The case-insensitive resolver key of an artist name.
pub open spec fn artist_key(name: Seq<char>) -> Seq<char> {
    spec_fold(spec_trim(name))
}

/// The name the album is resolved under: the album-artist tag when present,
/// else the track's primary artist.
pub open spec fn meta_album_artist(m: TrackMeta) -> Seq<char> {
    match m.album_artist {
        Some(a) => a@,
        None => m.artists@[0]@,
    }
}

/// What indexing one parsed file guarantees: a track row at its path whose
/// fields come from the metadata record, whose primary artist is the
/// resolved first artist, whose album is resolved under (album title,
/// album artist), and which is linked to every one of its artists.
pub open spec fn indexed_row(c1: Catalog, f: ScannedFile) -> bool {
    let m = f.meta->0;
    let p = f.path@;
    &&& has_track_path(c1.tracks@, p)
    &&& {
        let t = row_of(c1, p);
        &&& t.mtime == f.mtime
        &&& t.title == m.title
        &&& t.duration_sec == m.duration
        &&& t.track_number == m.track_number
        &&& t.disc_number == m.disc_number
        &&& t.year == m.year
        &&& t.genre == m.genre
        &&& t.bitrate == m.bitrate
        &&& has_artist(c1.artists@, artist_key(m.artists@[0]@))
        &&& t.artist_id == artist_id_of(c1.artists@, artist_key(m.artists@[0]@))
        &&& has_artist(c1.artists@, artist_key(meta_album_artist(m)))
        &&& has_album(
            c1.albums@,
            m.album@,
            artist_id_of(c1.artists@, artist_key(meta_album_artist(m))),
        )
        &&& t.album_id == album_id_of(
            c1.albums@,
            m.album@,
            artist_id_of(c1.artists@, artist_key(meta_album_artist(m))),
        )
        &&& forall|x: int|
            0 <= x < m.artists@.len() ==> has_artist(
                c1.artists@,
                artist_key((#[trigger] m.artists@[x])@),
            ) && has_track_link(
                c1.track_artists@,
                t.id,
                artist_id_of(c1.artists@, artist_key(m.artists@[x]@)),
            )
    }
}

/// Everything one scan run promises about how the catalog after (`c1`)
/// relates to the catalog before (`c0`) and the observations (`obs`).
pub open spec fn scan_rel(c0: Catalog, obs: Seq<ScannedFile>, c1: Catalog) -> bool {
    &&& c1.wf()
    &&& c1.playlists == c0.playlists
    &&& c1.roots == c0.roots
    &&& c1.artists@.len() >= c0.artists@.len()
    &&& c1.artists@.take(c0.artists@.len() as int) == c0.artists@
    &&& c1.albums@.len() >= c0.albums@.len()
    &&& c1.albums@.take(c0.albums@.len() as int) == c0.albums@
    // an unchanged file's row is untouched, id included
    &&& forall|k: int|
        0 <= k < obs.len() && spec_unchanged(
            c0.tracks@,
            (#[trigger] obs[k]).path@,
            obs[k].mtime,
        ) ==> has_track_path(c1.tracks@, obs[k].path@) && row_of(c1, obs[k].path@) == row_of(
            c0,
            obs[k].path@,
        )
    // a changed or new file that parsed is indexed, keeping its id if known
    &&& forall|k: int|
        0 <= k < obs.len() && !spec_unchanged(
            c0.tracks@,
            (#[trigger] obs[k]).path@,
            obs[k].mtime,
        ) && obs[k].meta is Some ==> indexed_row(c1, obs[k]) && (has_track_path(
            c0.tracks@,
            obs[k].path@,
        ) ==> row_of(c1, obs[k].path@).id == row_of(c0, obs[k].path@).id)
    // a track whose path was not found this run is gone: the sole deletion
    &&& forall|i: int|
        0 <= i < c0.tracks@.len() && !found_in(c0, obs, (#[trigger] c0.tracks@[i]).path@)
            ==> !has_track_path(c1.tracks@, c0.tracks@[i].path@)
    // no track exists that this run did not account for
    &&& forall|j: int|
        0 <= j < c1.tracks@.len() ==> found_in(c0, obs, (#[trigger] c1.tracks@[j]).path@)
    // a run that parsed nothing changed nothing beyond the deletions
    &&& (all_unchanged(c0, obs) ==> {
        &&& c1.artists == c0.artists
        &&& c1.albums == c0.albums
        &&& c1.album_artists == c0.album_artists
        &&& c1.next_id == c0.next_id
        &&& c1.tracks@ == c0.tracks@.filter((|t: TrackRow| obs_has_path(obs, t.path@)))
        &&& c1.track_artists@ == c0.track_artists@.filter(
            (|l: TrackArtistRow| obs_surviving(c0, obs, l.track_id)),
        )
        &&& c1.playlist_tracks@ == c0.playlist_tracks@.filter(
            (|e: PlaylistTrackRow| obs_surviving(c0, obs, e.track_id)),
        )
    })
}

/// The cost of one file in freshly minted ids: at most one per artist name,
/// one for the album artist, one for the album, one for the track row.
pub open spec fn file_budget(f: ScannedFile) -> nat {
    match f.meta {
        Some(m) => m.artists@.len() + 3,
        None => 0,
    }
}

pub open spec fn mint_budget(obs: Seq<ScannedFile>) -> nat
    decreases obs.len(),
{
    if obs.len() == 0 {
        0
    } else {
        file_budget(obs.first()) + mint_budget(obs.drop_first())
    }
}

// ---- helper lemmas ----

/// A sequence that only grew keeps its old prefix through further growth.
pub proof fn lemma_prefix_trans<A>(s0: Seq<A>, s1: Seq<A>, s2: Seq<A>)
    requires
        s1.len() >= s0.len(),
        s1 == s0 || s1.take(s0.len() as int) == s0,
        s2.len() >= s1.len(),
        s2 == s1 || s2.take(s1.len() as int) == s1,
    ensures
        s2.take(s0.len() as int) == s0,
{
    if s1 == s0 {
        assert(s1.take(s0.len() as int) =~= s0);
    }
    if s2 == s1 {
        assert(s2.take(s1.len() as int) =~= s1);
    }
    assert(s2.take(s0.len() as int) =~= s0) by {
        assert(forall|i: int|
            0 <= i < s0.len() ==> s2[i] == s1.take(s1.len() as int)[i] && s1[i] == s0[i]);
        assert(forall|i: int| 0 <= i < s0.len() ==> s2.take(s1.len() as int)[i] == s2[i]);
    }
}

/// The id an artist name resolves to does not move as the artist table
/// grows (names stay unique).
pub proof fn lemma_artist_id_stable(a0: Seq<ArtistRow>, a1: Seq<ArtistRow>, f: Seq<char>)
    requires
        a1.len() >= a0.len(),
        a1 == a0 || a1.take(a0.len() as int) == a0,
        forall|i: int, j: int|
            0 <= i < j < a1.len() ==> spec_fold(a1[i].name@) != spec_fold(a1[j].name@),
        has_artist(a0, f),
    ensures
        has_artist(a1, f),
        artist_id_of(a1, f) == artist_id_of(a0, f),
{
    if a1 == a0 {
        assert(a1.take(a0.len() as int) =~= a0);
    }
    let i0 = choose|i: int| 0 <= i < a0.len() && spec_fold(a0[i].name@) == f;
    assert(a1.take(a0.len() as int)[i0] == a0[i0]);
    assert(has_artist(a1, f)) by {
        assert(spec_fold(a1[i0].name@) == f);
    }
    let i1 = choose|i: int| 0 <= i < a1.len() && spec_fold(a1[i].name@) == f;
    if i1 < i0 {
        assert(false);
    }
    if i0 < i1 {
        assert(false);
    }
}

/// Likewise for the id an (album title, primary artist) pair resolves to.
pub proof fn lemma_album_id_stable(a0: Seq<AlbumRow>, a1: Seq<AlbumRow>, t: Seq<char>, aid: u64)
    requires
        a1.len() >= a0.len(),
        a1 == a0 || a1.take(a0.len() as int) == a0,
        forall|i: int, j: int|
            0 <= i < j < a1.len() ==> !(a1[i].title@ == a1[j].title@ && a1[i].artist_id
                == a1[j].artist_id),
        has_album(a0, t, aid),
    ensures
        has_album(a1, t, aid),
        album_id_of(a1, t, aid) == album_id_of(a0, t, aid),
{
    if a1 == a0 {
        assert(a1.take(a0.len() as int) =~= a0);
    }
    let i0 = choose|i: int| 0 <= i < a0.len() && a0[i].title@ == t && a0[i].artist_id == aid;
    assert(a1.take(a0.len() as int)[i0] == a0[i0]);
    assert(has_album(a1, t, aid)) by {
        assert(a1[i0].title@ == t && a1[i0].artist_id == aid);
    }
    let i1 = choose|i: int| 0 <= i < a1.len() && a1[i].title@ == t && a1[i].artist_id == aid;
    if i1 < i0 {
        assert(false);
    }
    if i0 < i1 {
        assert(false);
    }
}

/// Replacing one track's links leaves every other track's links in place.
pub proof fn lemma_links_preserved(
    links: Seq<TrackArtistRow>,
    tid2: u64,
    ids: Seq<u64>,
    tid: u64,
    a: u64,
)
    requires
        tid != tid2,
        has_track_link(links, tid, a),
    ensures
        has_track_link(replace_track_links(links, tid2, ids), tid, a),
{
    broadcast use vstd::seq_lib::group_filter_ensures;

    let keep = |l: TrackArtistRow| l.track_id != tid2;
    let w = choose|w: int|
        0 <= w < links.len() && links[w].track_id == tid && links[w].artist_id == a;
    assert(keep(links[w]));
    assert(links.filter(keep).contains(links[w]));
    let v = choose|v: int| 0 <= v < links.filter(keep).len() && links.filter(keep)[v] == links[w];
    assert(replace_track_links(links, tid2, ids)[v] == links[w]);
}

/// A filter that keeps every element is the identity.
pub proof fn lemma_filter_all_true<A>(s: Seq<A>, pred: spec_fn(A) -> bool)
    requires
        forall|i: int| 0 <= i < s.len() ==> pred(#[trigger] s[i]),
    ensures
        s.filter(pred) == s,
    decreases s.len(),
{
    reveal(Seq::filter);
    if s.len() > 0 {
        assert(forall|i: int| 0 <= i < s.drop_last().len() ==> pred(#[trigger] s.drop_last()[i]));
        lemma_filter_all_true(s.drop_last(), pred);
        assert(s.filter(pred) =~= s);
    }
}

/// Two predicates that agree on a sequence's elements filter it alike.
pub proof fn lemma_filter_congruence<A>(s: Seq<A>, p1: spec_fn(A) -> bool, p2: spec_fn(A) -> bool)
    requires
        forall|i: int| 0 <= i < s.len() ==> (p1(#[trigger] s[i]) <==> p2(s[i])),
    ensures
        s.filter(p1) == s.filter(p2),
    decreases s.len(),
{
    reveal(Seq::filter);
    if s.len() > 0 {
        assert(forall|i: int|
            0 <= i < s.drop_last().len() ==> (p1(#[trigger] s.drop_last()[i]) <==> p2(
                s.drop_last()[i],
            )));
        lemma_filter_congruence(s.drop_last(), p1, p2);
        assert(p1(s.last()) <==> p2(s.last())) by {
            assert(s[s.len() - 1] == s.last());
        }
    }
}

// ---- classification ----

/// Decide whether a file must be parsed: exactly when the catalog does not
/// already hold this path with this fingerprint. Unchanged files skip
/// extraction entirely.
pub fn needs_parse(c: &Catalog, path: &str, mtime: i64) -> (r: bool)
    requires
        c.wf(),
    ensures
        r == !spec_unchanged(c.tracks@, path@, mtime),
{
    match find_track(&c.tracks, path) {
        Some(i) => {
            let same = c.tracks[i].mtime == mtime;
            proof {
                if same {
                    assert(spec_unchanged(c.tracks@, path@, mtime));
                } else {
                    if spec_unchanged(c.tracks@, path@, mtime) {
                        let w = choose|w: int|
                            0 <= w < c.tracks@.len() && c.tracks@[w].path@ == path@
                                && c.tracks@[w].mtime == mtime;
                        if w < i as int {
                            assert(false);
                        }
                        if (i as int) < w {
                            assert(false);
                        }
                    }
                }
            }
            !same
        },
        None => {
            assert(!spec_unchanged(c.tracks@, path@, mtime));
            true
        },
    }
}


// ---- one file ----

/// The two shapes an upsert leaves the track table in: the row at `p`
/// rewritten in place, or a fresh row appended.
pub open spec fn upsert_tracks_shape(c_c: Catalog, fin: Catalog, p: Seq<char>) -> bool {
    if has_track_path(c_c.tracks@, p) {
        let idx = track_idx_of(c_c.tracks@, p);
        &&& fin.tracks@.len() == c_c.tracks@.len()
        &&& (forall|k: int|
            0 <= k < c_c.tracks@.len() && k != idx ==> fin.tracks@[k] == c_c.tracks@[k])
        &&& fin.tracks@[idx].path@ == p
        &&& fin.tracks@[idx].id == c_c.tracks@[idx].id
    } else {
        &&& fin.tracks@.len() == c_c.tracks@.len() + 1
        &&& fin.tracks@.take(c_c.tracks@.len() as int) == c_c.tracks@
        &&& fin.tracks@.last().path@ == p
    }
}

/// An upsert of the row at `p` leaves every other path's row alone.
pub proof fn lemma_upsert_path_frame(c_c: Catalog, fin: Catalog, p: Seq<char>)
    requires
        c_c.tracks_wf(),
        fin.tracks_wf(),
        upsert_tracks_shape(c_c, fin, p),
    ensures
        has_track_path(fin.tracks@, p),
        forall|p2: Seq<char>|
            p2 != p ==> ((#[trigger] has_track_path(fin.tracks@, p2)) <==> has_track_path(
                c_c.tracks@,
                p2,
            )),
        forall|p2: Seq<char>|
            p2 != p && has_track_path(c_c.tracks@, p2) ==> (#[trigger] row_of(fin, p2)) == row_of(
                c_c,
                p2,
            ),
{
    if has_track_path(c_c.tracks@, p) {
        let idx = track_idx_of(c_c.tracks@, p);
        assert(has_track_path(fin.tracks@, p)) by {
            assert(fin.tracks@[idx].path@ == p);
        }
    } else {
        assert(has_track_path(fin.tracks@, p)) by {
            assert(fin.tracks@[fin.tracks@.len() - 1].path@ == p);
        }
    }
    assert forall|p2: Seq<char>| p2 != p implies ((#[trigger] has_track_path(fin.tracks@, p2))
        <==> has_track_path(c_c.tracks@, p2)) by {
        if has_track_path(c_c.tracks@, p) {
            let idx = track_idx_of(c_c.tracks@, p);
            if has_track_path(fin.tracks@, p2) {
                let u = choose|u: int| 0 <= u < fin.tracks@.len() && fin.tracks@[u].path@ == p2;
                assert(u != idx);
                assert(fin.tracks@[u] == c_c.tracks@[u]);
                assert(has_track_path(c_c.tracks@, p2));
            }
            if has_track_path(c_c.tracks@, p2) {
                let u = choose|u: int| 0 <= u < c_c.tracks@.len() && c_c.tracks@[u].path@ == p2;
                assert(u != idx);
                assert(fin.tracks@[u] == c_c.tracks@[u]);
                assert(has_track_path(fin.tracks@, p2));
            }
        } else {
            if has_track_path(fin.tracks@, p2) {
                let u = choose|u: int| 0 <= u < fin.tracks@.len() && fin.tracks@[u].path@ == p2;
                assert(u < fin.tracks@.len() - 1 ==> fin.tracks@[u] == c_c.tracks@[u]);
                assert(u == fin.tracks@.len() - 1 ==> fin.tracks@[u].path@ == p);
                assert(has_track_path(c_c.tracks@, p2));
            }
            if has_track_path(c_c.tracks@, p2) {
                let u = choose|u: int| 0 <= u < c_c.tracks@.len() && c_c.tracks@[u].path@ == p2;
                assert(fin.tracks@[u] == c_c.tracks@[u]);
                assert(has_track_path(fin.tracks@, p2));
            }
        }
    }
    assert forall|p2: Seq<char>| p2 != p && has_track_path(c_c.tracks@, p2) implies (
    #[trigger] row_of(fin, p2)) == row_of(c_c, p2) by {
        let u0 = track_idx_of(c_c.tracks@, p2);
        assert(c_c.tracks@[u0].path@ == p2);
        if has_track_path(c_c.tracks@, p) {
            let idx = track_idx_of(c_c.tracks@, p);
            assert(u0 != idx);
            assert(fin.tracks@[u0] == c_c.tracks@[u0]);
            assert(has_track_path(fin.tracks@, p2));
            let u1 = track_idx_of(fin.tracks@, p2);
            if u1 != u0 {
                if u1 == idx {
                    assert(fin.tracks@[u1].path@ == p);
                    assert(false);
                }
                assert(fin.tracks@[u1] == c_c.tracks@[u1]);
                assert(false);
            }
        } else {
            assert(fin.tracks@[u0] == c_c.tracks@[u0]);
            assert(has_track_path(fin.tracks@, p2));
            let u1 = track_idx_of(fin.tracks@, p2);
            if u1 == fin.tracks@.len() - 1 && u1 >= c_c.tracks@.len() {
                assert(fin.tracks@[u1].path@ == p);
                assert(false);
            }
            if u1 != u0 {
                assert(fin.tracks@[u1] == c_c.tracks@[u1]);
                assert(false);
            }
        }
    }
}

/// Process one observed file against the catalog: skip it when unchanged,
/// otherwise resolve its artists and album and upsert its track row.
/// Returns whether the file counts as found this run.
#[verifier::rlimit(100)]
pub fn scan_step(c: &mut Catalog, covers: &mut CoverStore, f: &ScannedFile, now: i64) -> (did:
    bool)
    requires
        old(c).wf(),
        old(covers).wf(),
        old(c).next_id + file_budget(*f) <= u64::MAX,
        f.meta matches Some(m) ==> m.artists@.len() > 0,
    ensures
        final(c).wf(),
        final(covers).wf(),
        did == file_found(*old(c), *f),
        final(c).playlists == old(c).playlists,
        final(c).roots == old(c).roots,
        final(c).playlist_tracks == old(c).playlist_tracks,
        final(c).artists@.len() >= old(c).artists@.len(),
        final(c).artists@.take(old(c).artists@.len() as int) == old(c).artists@,
        final(c).albums@.len() >= old(c).albums@.len(),
        final(c).albums@.take(old(c).albums@.len() as int) == old(c).albums@,
        final(c).next_id >= old(c).next_id,
        final(c).next_id <= old(c).next_id + file_budget(*f),
        (spec_unchanged(old(c).tracks@, f.path@, f.mtime) || f.meta is None) ==> *final(c)
            == *old(c) && *final(covers) == *old(covers),
        (!spec_unchanged(old(c).tracks@, f.path@, f.mtime) && f.meta is Some) ==> {
            &&& indexed_row(*final(c), *f)
            &&& has_track_path(final(c).tracks@, f.path@)
            &&& (has_track_path(old(c).tracks@, f.path@) ==> row_of(*final(c), f.path@).id
                == row_of(*old(c), f.path@).id)
            &&& (forall|p: Seq<char>|
                p != f.path@ ==> ((#[trigger] has_track_path(final(c).tracks@, p))
                    <==> has_track_path(old(c).tracks@, p)))
            &&& (forall|p: Seq<char>|
                p != f.path@ && has_track_path(old(c).tracks@, p) ==> (#[trigger] row_of(
                    *final(c),
                    p,
                )) == row_of(*old(c), p))
            &&& (forall|tid: u64, a: u64|
                tid != row_of(*final(c), f.path@).id && #[trigger] has_track_link(
                    old(c).track_artists@,
                    tid,
                    a,
                ) ==> has_track_link(final(c).track_artists@, tid, a))
            &&& (!has_track_path(old(c).tracks@, f.path@) ==> row_of(*final(c), f.path@).id
                >= old(c).next_id)
        },
{
    if !needs_parse(c, f.path.as_str(), f.mtime) {
        return true;
    }
    match &f.meta {
        None => false,
        Some(m) => {
            let ghost c_in = *c;
            // resolve every artist of the track, in tag order
            let mut artist_ids: Vec<u64> = Vec::new();
            let mut x: usize = 0;
            while x < m.artists.len()
                invariant
                    x <= m.artists@.len(),
                    c.wf(),
                    *covers == *old(covers),
                    c_in == *old(c),
                    c.albums == c_in.albums,
                    c.tracks == c_in.tracks,
                    c.track_artists == c_in.track_artists,
                    c.album_artists == c_in.album_artists,
                    c.playlists == c_in.playlists,
                    c.playlist_tracks == c_in.playlist_tracks,
                    c.roots == c_in.roots,
                    c.artists@.len() >= c_in.artists@.len(),
                    c.artists@.take(c_in.artists@.len() as int) == c_in.artists@,
                    c.next_id >= c_in.next_id,
                    c.next_id + (m.artists@.len() - x) + 3 <= c_in.next_id + file_budget(*f),
                    c_in.next_id + file_budget(*f) <= u64::MAX,
                    artist_ids@.len() == x,
                    forall|y: int|
                        0 <= y < x ==> has_artist(
                            c.artists@,
                            artist_key((#[trigger] m.artists@[y])@),
                        ) && artist_ids@[y] == artist_id_of(
                            c.artists@,
                            artist_key(m.artists@[y]@),
                        ),
                decreases m.artists@.len() - x,
            {
                let ghost c_pre = *c;
                let id = c.resolve_artist(m.artists[x].as_str());
                artist_ids.push(id);
                proof {
                    lemma_prefix_trans(c_in.artists@, c_pre.artists@, c.artists@);
                    assert forall|y: int| 0 <= y < x + 1 implies has_artist(
                        c.artists@,
                        artist_key((#[trigger] m.artists@[y])@),
                    ) && artist_ids@[y] == artist_id_of(
                        c.artists@,
                        artist_key(m.artists@[y]@),
                    ) by {
                        if y < x {
                            lemma_artist_id_stable(
                                c_pre.artists@,
                                c.artists@,
                                artist_key(m.artists@[y]@),
                            );
                        }
                    }
                }
                x = x + 1;
            }
            // resolve the album artist: the tag's, or the primary artist
            let ghost c_a = *c;
            let aa_id: u64 = match &m.album_artist {
                Some(aa) => c.resolve_artist(aa.as_str()),
                None => c.resolve_artist(m.artists[0].as_str()),
            };
            proof {
                lemma_prefix_trans(c_in.artists@, c_a.artists@, c.artists@);
                assert(has_artist(c.artists@, artist_key(meta_album_artist(*m))) && aa_id
                    == artist_id_of(c.artists@, artist_key(meta_album_artist(*m))));
                assert forall|y: int| 0 <= y < m.artists@.len() implies has_artist(
                    c.artists@,
                    artist_key((#[trigger] m.artists@[y])@),
                ) && artist_ids@[y] == artist_id_of(c.artists@, artist_key(m.artists@[y]@)) by {
                    lemma_artist_id_stable(c_a.artists@, c.artists@, artist_key(m.artists@[y]@));
                }
            }
            // resolve the album under (title, album artist), linking every
            // contributing artist and filing the cover art
            let ghost c_b = *c;
            let album_id = c.resolve_album(
                m.album.as_str(),
                aa_id,
                &artist_ids,
                m.cover.as_ref(),
                covers,
                now,
            );
            proof {
                lemma_prefix_trans(c_in.artists@, c_b.artists@, c.artists@);
                lemma_prefix_trans(c_in.albums@, c_b.albums@, c.albums@);
            }
            // upsert the track row and its artist links
            let ghost c_c = *c;
            let tid = c.upsert_track(
                f.path.as_str(),
                m,
                &artist_ids,
                album_id,
                f.mtime,
                now,
            );
            proof {
                lemma_prefix_trans(c_in.artists@, c_c.artists@, c.artists@);
                lemma_prefix_trans(c_in.albums@, c_c.albums@, c.albums@);
                lemma_dedup(artist_ids@);
                let p = f.path@;
                let fin = *c;
                assert(has_track_path(fin.tracks@, p));
                let w = track_idx_of(fin.tracks@, p);
                assert(0 <= w < fin.tracks@.len() && fin.tracks@[w].path@ == p);
                let t = row_of(fin, p);
                assert(t.id == tid) by {
                    if has_track_path(c_c.tracks@, p) {
                        let idx = track_idx_of(c_c.tracks@, p);
                        assert(upserted_row(
                            fin.tracks@[idx],
                            tid,
                            p,
                            *m,
                            artist_ids@,
                            album_id,
                            f.mtime,
                            now,
                            c_c.tracks@[idx].play_count,
                            c_c.tracks@[idx].liked,
                        ));
                        if w < idx {
                            assert(false);
                        }
                        if idx < w {
                            assert(false);
                        }
                    } else {
                        assert(upserted_row(
                            fin.tracks@.last(),
                            tid,
                            p,
                            *m,
                            artist_ids@,
                            album_id,
                            f.mtime,
                            now,
                            0,
                            false,
                        ));
                        if w < fin.tracks@.len() - 1 {
                            assert(fin.tracks@[w] == c_c.tracks@[w]);
                            assert(false);
                        }
                    }
                }
                // the row's fields and resolved references
                assert(indexed_row(fin, *f)) by {
                    assert(t.artist_id == artist_ids@[0]);
                    assert(artist_ids@[0] == artist_id_of(
                        c_c.artists@,
                        artist_key(m.artists@[0]@),
                    ));
                    assert(c_c.artists == fin.artists && c_c.albums == fin.albums);
                    assert(has_album(fin.albums@, m.album@, aa_id) && album_id == album_id_of(
                        fin.albums@,
                        m.album@,
                        aa_id,
                    )) by {
                        assert(c_b.album_artists@.len() >= 0);
                    }
                    assert forall|y: int| 0 <= y < m.artists@.len() implies has_artist(
                        fin.artists@,
                        artist_key((#[trigger] m.artists@[y])@),
                    ) && has_track_link(
                        fin.track_artists@,
                        t.id,
                        artist_id_of(fin.artists@, artist_key(m.artists@[y]@)),
                    ) by {
                        assert(artist_ids@[y] == artist_id_of(
                            fin.artists@,
                            artist_key(m.artists@[y]@),
                        ));
                        assert(artist_ids@.contains(artist_ids@[y]));
                        assert(spec_dedup(artist_ids@).contains(artist_ids@[y]));
                        let v = choose|v: int|
                            0 <= v < spec_dedup(artist_ids@).len() && spec_dedup(artist_ids@)[v]
                                == artist_ids@[y];
                        let fl = c_c.track_artists@.filter(
                            (|l: TrackArtistRow| l.track_id != tid),
                        );
                        assert(fin.track_artists@ == fl + links_of(tid, artist_ids@));
                        assert(fin.track_artists@[fl.len() + v].track_id == tid
                            && fin.track_artists@[fl.len() + v].artist_id == artist_ids@[y]);
                        assert(has_track_link(fin.track_artists@, t.id, artist_ids@[y]));
                    }
                }
                // frame facts about other paths and other tracks' links
                assert(c_in.tracks == c_c.tracks);
                assert(upsert_tracks_shape(c_c, fin, p)) by {
                    if has_track_path(c_c.tracks@, p) {
                        let idx = track_idx_of(c_c.tracks@, p);
                        assert(fin.tracks@[idx].path@ == p && fin.tracks@[idx].id
                            == c_c.tracks@[idx].id);
                    }
                }
                lemma_upsert_path_frame(c_c, fin, p);
                assert forall|tid2: u64, a: u64| tid2 != row_of(fin, p).id
                    && #[trigger] has_track_link(c_in.track_artists@, tid2, a) implies
                    has_track_link(fin.track_artists@, tid2, a) by {
                    assert(c_in.track_artists == c_c.track_artists);
                    lemma_links_preserved(c_c.track_artists@, tid, artist_ids@, tid2, a);
                }
                // id preservation for a path that already existed; a brand
                // new path gets a freshly minted id
                if has_track_path(c_in.tracks@, p) {
                    assert(row_of(fin, p).id == row_of(c_in, p).id) by {
                        let idx = track_idx_of(c_c.tracks@, p);
                        assert(tid == c_c.tracks@[idx].id);
                    }
                } else {
                    assert(row_of(fin, p).id >= c_in.next_id) by {
                        assert(tid == c_c.next_id);
                        assert(c_c.next_id >= c_in.next_id);
                    }
                }
            }
            true
        },
    }
}


// ---- the whole run ----

/// Whether some file among the first `i` observations has path `p`.
pub open spec fn processed(obs: Seq<ScannedFile>, i: int, p: Seq<char>) -> bool {
    exists|k: int| 0 <= k < i && (#[trigger] obs[k]).path@ == p
}

/// Under unique paths, being unchanged is a statement about the one row at
/// that path.
pub proof fn lemma_unchanged_iff(c: Catalog, p: Seq<char>, mt: i64)
    requires
        c.wf(),
    ensures
        spec_unchanged(c.tracks@, p, mt) <==> (has_track_path(c.tracks@, p) && row_of(c, p).mtime
            == mt),
{
    if spec_unchanged(c.tracks@, p, mt) {
        let w = choose|w: int|
            0 <= w < c.tracks@.len() && c.tracks@[w].path@ == p && c.tracks@[w].mtime == mt;
        assert(has_track_path(c.tracks@, p));
        let v = track_idx_of(c.tracks@, p);
        if v < w {
            assert(false);
        }
        if w < v {
            assert(false);
        }
    }
    if has_track_path(c.tracks@, p) && row_of(c, p).mtime == mt {
        let v = track_idx_of(c.tracks@, p);
        assert(c.tracks@[v].path@ == p && c.tracks@[v].mtime == mt);
    }
}

/// How deletion by found-set acts on the row at one path.
pub proof fn lemma_delete_row(
    pre: Seq<TrackRow>,
    found: Seq<String>,
    post: Seq<TrackRow>,
    p: Seq<char>,
)
    requires
        post == pre.filter((|t: TrackRow| path_in(found, t.path@))),
        forall|i: int, j: int| 0 <= i < j < pre.len() ==> pre[i].path@ != pre[j].path@,
    ensures
        has_track_path(pre, p) && path_in(found, p) ==> has_track_path(post, p)
            && post[track_idx_of(post, p)] == pre[track_idx_of(pre, p)],
        !path_in(found, p) ==> !has_track_path(post, p),
        !has_track_path(pre, p) ==> !has_track_path(post, p),
{
    broadcast use vstd::seq_lib::group_filter_ensures;

    let keep = |t: TrackRow| path_in(found, t.path@);
    if has_track_path(pre, p) && path_in(found, p) {
        let w = track_idx_of(pre, p);
        assert(pre[w].path@ == p);
        assert(keep(pre[w]));
        assert(post.contains(pre[w]));
        let u = choose|u: int| 0 <= u < post.len() && post[u] == pre[w];
        assert(has_track_path(post, p)) by {
            assert(post[u].path@ == p);
        }
        let v = track_idx_of(post, p);
        assert(post[v].path@ == p);
        if v != u {
            lemma_filter_elem(pre, keep, v);
            lemma_filter_elem(pre, keep, u);
            let a = choose|a: int| 0 <= a < pre.len() && pre[a] == post[v];
            let b = choose|b: int| 0 <= b < pre.len() && pre[b] == post[u];
            assert(pre[a].path@ == p && pre[b].path@ == p);
            if a < b {
                assert(false);
            }
            if b < a {
                assert(false);
            }
            assert(post[v] == post[u]);
        }
        assert(post[v] == pre[w]);
    }
    if !path_in(found, p) && has_track_path(post, p) {
        let v = track_idx_of(post, p);
        assert(post[v].path@ == p);
        lemma_filter_elem(pre, keep, v);
        let a = choose|a: int| 0 <= a < pre.len() && pre[a] == post[v];
        assert(keep(pre[a]));
        assert(false);
    }
    if !has_track_path(pre, p) && has_track_path(post, p) {
        let v = track_idx_of(post, p);
        assert(post[v].path@ == p);
        lemma_filter_elem(pre, keep, v);
        let a = choose|a: int| 0 <= a < pre.len() && pre[a] == post[v];
        assert(pre[a].path@ == p);
        assert(false);
    }
}

/// A surviving track's links come through the deletion untouched.
pub proof fn lemma_delete_link(
    pre_links: Seq<TrackArtistRow>,
    pre_tracks: Seq<TrackRow>,
    found: Seq<String>,
    post_links: Seq<TrackArtistRow>,
    tid: u64,
    a: u64,
)
    requires
        post_links == pre_links.filter(
            (|l: TrackArtistRow| surviving_track(pre_tracks, found, l.track_id)),
        ),
        has_track_link(pre_links, tid, a),
        surviving_track(pre_tracks, found, tid),
    ensures
        has_track_link(post_links, tid, a),
{
    broadcast use vstd::seq_lib::group_filter_ensures;

    let keep = |l: TrackArtistRow| surviving_track(pre_tracks, found, l.track_id);
    let w = choose|w: int|
        0 <= w < pre_links.len() && pre_links[w].track_id == tid && pre_links[w].artist_id == a;
    assert(keep(pre_links[w]));
    assert(post_links.contains(pre_links[w]));
    let u = choose|u: int| 0 <= u < post_links.len() && post_links[u] == pre_links[w];
    assert(post_links[u].track_id == tid && post_links[u].artist_id == a);
}


/// Stitch the per-file loop facts together with the final deletion to
/// conclude the whole-run relation.
#[verifier::rlimit(100)]
proof fn lemma_finish_scan(
    c0: Catalog,
    obs: Seq<ScannedFile>,
    pre: Catalog,
    found: Seq<String>,
    fin: Catalog,
)
    requires
        c0.wf(),
        pre.wf(),
        fin.wf(),
        distinct_paths(obs),
        pre.playlists == c0.playlists,
        pre.roots == c0.roots,
        pre.playlist_tracks == c0.playlist_tracks,
        pre.artists@.len() >= c0.artists@.len(),
        pre.artists@.take(c0.artists@.len() as int) == c0.artists@,
        pre.albums@.len() >= c0.albums@.len(),
        pre.albums@.take(c0.albums@.len() as int) == c0.albums@,
        forall|k: int|
            0 <= k < obs.len() && spec_unchanged(
                c0.tracks@,
                (#[trigger] obs[k]).path@,
                obs[k].mtime,
            ) ==> has_track_path(pre.tracks@, obs[k].path@) && row_of(pre, obs[k].path@) == row_of(
                c0,
                obs[k].path@,
            ),
        forall|k: int|
            0 <= k < obs.len() && !spec_unchanged(
                c0.tracks@,
                (#[trigger] obs[k]).path@,
                obs[k].mtime,
            ) && obs[k].meta is Some ==> indexed_row(pre, obs[k]) && (has_track_path(
                c0.tracks@,
                obs[k].path@,
            ) ==> row_of(pre, obs[k].path@).id == row_of(c0, obs[k].path@).id),
        forall|j: int|
            0 <= j < found.len() ==> exists|k: int|
                0 <= k < obs.len() && obs[k].path@ == (#[trigger] found[j])@ && file_found(
                    c0,
                    obs[k],
                ),
        forall|k: int|
            0 <= k < obs.len() && file_found(c0, #[trigger] obs[k]) ==> path_in(
                found,
                obs[k].path@,
            ),
        (forall|k: int|
            0 <= k < obs.len() ==> spec_unchanged(
                c0.tracks@,
                (#[trigger] obs[k]).path@,
                obs[k].mtime,
            )) ==> pre == c0,
        fin.artists == pre.artists,
        fin.albums == pre.albums,
        fin.album_artists == pre.album_artists,
        fin.playlists == pre.playlists,
        fin.roots == pre.roots,
        fin.next_id == pre.next_id,
        fin.tracks@ == pre.tracks@.filter((|t: TrackRow| path_in(found, t.path@))),
        fin.track_artists@ == pre.track_artists@.filter(
            (|l: TrackArtistRow| surviving_track(pre.tracks@, found, l.track_id)),
        ),
        fin.playlist_tracks@ == pre.playlist_tracks@.filter(
            (|e: PlaylistTrackRow| surviving_track(pre.tracks@, found, e.track_id)),
        ),
    ensures
        scan_rel(c0, obs, fin),
{
                let keep_t = |t: TrackRow| path_in(found, t.path@);
        assert(fin.tracks@ == pre.tracks@.filter(keep_t));
        // unchanged rows survive deletion untouched
        assert forall|k: int|
            0 <= k < obs.len() && spec_unchanged(
                c0.tracks@,
                (#[trigger] obs[k]).path@,
                obs[k].mtime,
            ) implies has_track_path(fin.tracks@, obs[k].path@) && row_of(fin, obs[k].path@)
            == row_of(c0, obs[k].path@) by {
            let p = obs[k].path@;
            assert(file_found(c0, obs[k]));
            assert(path_in(found, p));
            lemma_delete_row(pre.tracks@, found, fin.tracks@, p);
        }
        // indexed rows survive deletion, links included
        assert forall|k: int|
            0 <= k < obs.len() && !spec_unchanged(
                c0.tracks@,
                (#[trigger] obs[k]).path@,
                obs[k].mtime,
            ) && obs[k].meta is Some implies indexed_row(fin, obs[k]) && (has_track_path(
            c0.tracks@,
            obs[k].path@,
        ) ==> row_of(fin, obs[k].path@).id == row_of(c0, obs[k].path@).id) by {
            let p = obs[k].path@;
            let m = obs[k].meta->0;
            assert(file_found(c0, obs[k]));
            assert(path_in(found, p));
            lemma_delete_row(pre.tracks@, found, fin.tracks@, p);
            assert(indexed_row(pre, obs[k]));
            assert(row_of(fin, p) == row_of(pre, p));
            let t = row_of(pre, p);
            assert forall|x: int| 0 <= x < m.artists@.len() implies has_artist(
                fin.artists@,
                artist_key((#[trigger] m.artists@[x])@),
            ) && has_track_link(
                fin.track_artists@,
                t.id,
                artist_id_of(fin.artists@, artist_key(m.artists@[x]@)),
            ) by {
                assert(has_track_link(
                    pre.track_artists@,
                    t.id,
                    artist_id_of(pre.artists@, artist_key(m.artists@[x]@)),
                ));
                assert(surviving_track(pre.tracks@, found, t.id)) by {
                    let w = track_idx_of(pre.tracks@, p);
                    assert(pre.tracks@[w].id == t.id && path_in(found, pre.tracks@[w].path@));
                }
                lemma_delete_link(
                    pre.track_artists@,
                    pre.tracks@,
                    found,
                    fin.track_artists@,
                    t.id,
                    artist_id_of(pre.artists@, artist_key(m.artists@[x]@)),
                );
            }
            assert(indexed_row(fin, obs[k]));
        }
        // tracks not found this run are gone
        assert forall|t: int|
            0 <= t < c0.tracks@.len() && !found_in(c0, obs, (#[trigger] c0.tracks@[t]).path@)
            implies !has_track_path(fin.tracks@, c0.tracks@[t].path@) by {
            let p = c0.tracks@[t].path@;
            if path_in(found, p) {
                let j = choose|j: int| 0 <= j < found.len() && found[j]@ == p;
                let k = choose|k: int|
                    0 <= k < obs.len() && obs[k].path@ == found[j]@ && file_found(
                        c0,
                        obs[k],
                    );
                assert(found_in(c0, obs, p));
                assert(false);
            }
            lemma_delete_row(pre.tracks@, found, fin.tracks@, p);
        }
        // every surviving track was found this run
        assert forall|j: int| 0 <= j < fin.tracks@.len() implies found_in(
            c0,
            obs,
            (#[trigger] fin.tracks@[j]).path@,
        ) by {
            lemma_filter_elem(pre.tracks@, keep_t, j);
            let a = choose|a: int| 0 <= a < pre.tracks@.len() && pre.tracks@[a] == fin.tracks@[j];
            assert(keep_t(pre.tracks@[a]));
            let w = choose|w: int| 0 <= w < found.len() && found[w]@ == pre.tracks@[a].path@;
            let k = choose|k: int|
                0 <= k < obs.len() && obs[k].path@ == found[w]@ && file_found(c0, obs[k]);
            assert(obs[k].path@ == fin.tracks@[j].path@ && file_found(c0, obs[k]));
        }
        // a run with nothing to parse only prunes
        if all_unchanged(c0, obs) {
            assert(forall|k: int|
                0 <= k < obs.len() ==> spec_unchanged(
                    c0.tracks@,
                    (#[trigger] obs[k]).path@,
                    obs[k].mtime,
                ));
            assert(pre == c0);
            assert forall|t: int| 0 <= t < c0.tracks@.len() implies (keep_t(
                #[trigger] c0.tracks@[t],
            ) <==> obs_has_path(obs, c0.tracks@[t].path@)) by {
                let p = c0.tracks@[t].path@;
                if keep_t(c0.tracks@[t]) {
                    let j = choose|j: int| 0 <= j < found.len() && found[j]@ == p;
                    let k = choose|k: int|
                        0 <= k < obs.len() && obs[k].path@ == found[j]@ && file_found(
                            c0,
                            obs[k],
                        );
                    assert(obs_has_path(obs, p));
                }
                if obs_has_path(obs, p) {
                    let k = choose|k: int| 0 <= k < obs.len() && obs[k].path@ == p;
                    assert(file_found(c0, obs[k]));
                    assert(path_in(found, p));
                }
            }
            lemma_filter_congruence(
                c0.tracks@,
                keep_t,
                (|t: TrackRow| obs_has_path(obs, t.path@)),
            );
            let keep_l = |l: TrackArtistRow| surviving_track(pre.tracks@, found, l.track_id);
            let keep_l2 = |l: TrackArtistRow| obs_surviving(c0, obs, l.track_id);
            assert forall|t: int| 0 <= t < c0.track_artists@.len() implies (keep_l(
                #[trigger] c0.track_artists@[t],
            ) <==> keep_l2(c0.track_artists@[t])) by {
                let tid = c0.track_artists@[t].track_id;
                if keep_l(c0.track_artists@[t]) {
                    let w = choose|w: int|
                        0 <= w < pre.tracks@.len() && pre.tracks@[w].id == tid && path_in(
                            found,
                            pre.tracks@[w].path@,
                        );
                    let p = pre.tracks@[w].path@;
                    let j = choose|j: int| 0 <= j < found.len() && found[j]@ == p;
                    let k = choose|k: int|
                        0 <= k < obs.len() && obs[k].path@ == found[j]@ && file_found(
                            c0,
                            obs[k],
                        );
                    assert(obs_has_path(obs, p));
                    assert(obs_surviving(c0, obs, tid));
                }
                if keep_l2(c0.track_artists@[t]) {
                    let w = choose|w: int|
                        0 <= w < c0.tracks@.len() && c0.tracks@[w].id == tid && obs_has_path(
                            obs,
                            c0.tracks@[w].path@,
                        );
                    let p = c0.tracks@[w].path@;
                    let k = choose|k: int| 0 <= k < obs.len() && obs[k].path@ == p;
                    assert(file_found(c0, obs[k]));
                    assert(path_in(found, p));
                    assert(surviving_track(pre.tracks@, found, tid));
                }
            }
            lemma_filter_congruence(c0.track_artists@, keep_l, keep_l2);
            let keep_e = |e: PlaylistTrackRow| surviving_track(pre.tracks@, found, e.track_id);
            let keep_e2 = |e: PlaylistTrackRow| obs_surviving(c0, obs, e.track_id);
            assert forall|t: int| 0 <= t < c0.playlist_tracks@.len() implies (keep_e(
                #[trigger] c0.playlist_tracks@[t],
            ) <==> keep_e2(c0.playlist_tracks@[t])) by {
                let tid = c0.playlist_tracks@[t].track_id;
                if keep_e(c0.playlist_tracks@[t]) {
                    let w = choose|w: int|
                        0 <= w < pre.tracks@.len() && pre.tracks@[w].id == tid && path_in(
                            found,
                            pre.tracks@[w].path@,
                        );
                    let p = pre.tracks@[w].path@;
                    let j = choose|j: int| 0 <= j < found.len() && found[j]@ == p;
                    let k = choose|k: int|
                        0 <= k < obs.len() && obs[k].path@ == found[j]@ && file_found(
                            c0,
                            obs[k],
                        );
                    assert(obs_has_path(obs, p));
                    assert(obs_surviving(c0, obs, tid));
                }
                if keep_e2(c0.playlist_tracks@[t]) {
                    let w = choose|w: int|
                        0 <= w < c0.tracks@.len() && c0.tracks@[w].id == tid && obs_has_path(
                            obs,
                            c0.tracks@[w].path@,
                        );
                    let p = c0.tracks@[w].path@;
                    let k = choose|k: int| 0 <= k < obs.len() && obs[k].path@ == p;
                    assert(file_found(c0, obs[k]));
                    assert(path_in(found, p));
                    assert(surviving_track(pre.tracks@, found, tid));
                }
            }
            lemma_filter_congruence(c0.playlist_tracks@, keep_e, keep_e2);
        }
        assert(scan_rel(c0, obs, fin));
    assert(scan_rel(c0, obs, fin));
}

/// One scan run: classify every observed file/// One scan run: classify every observed file, resolve and upsert the
/// changed ones, then delete every track whose path was not seen. The
/// relation `scan_rel` captures everything this promises.
#[verifier::rlimit(100)]
pub fn run_scan(c: &mut Catalog, covers: &mut CoverStore, obs: &Vec<ScannedFile>, now: i64)
    requires
        old(c).wf(),
        old(covers).wf(),
        distinct_paths(obs@),
        metas_wf(obs@),
        old(c).next_id + mint_budget(obs@) <= u64::MAX,
    ensures
        final(c).wf(),
        final(covers).wf(),
        scan_rel(*old(c), obs@, *final(c)),
{
    let ghost c0 = *c;
    let ghost covers0 = *covers;
    let mut found: Vec<String> = Vec::new();
    let mut i: usize = 0;
    proof {
        assert(obs@.skip(0) =~= obs@);
    }
    while i < obs.len()
        invariant
            i <= obs@.len(),
            distinct_paths(obs@),
            metas_wf(obs@),
            c0.wf(),
            c.wf(),
            covers.wf(),
            c0.next_id + mint_budget(obs@) <= u64::MAX,
            c.next_id + mint_budget(obs@.skip(i as int)) <= u64::MAX,
            c.next_id >= c0.next_id,
            c.playlists == c0.playlists,
            c.roots == c0.roots,
            c.playlist_tracks == c0.playlist_tracks,
            c.artists@.len() >= c0.artists@.len(),
            c.artists@.take(c0.artists@.len() as int) == c0.artists@,
            c.albums@.len() >= c0.albums@.len(),
            c.albums@.take(c0.albums@.len() as int) == c0.albums@,
            forall|k: int|
                0 <= k < i && spec_unchanged(
                    c0.tracks@,
                    (#[trigger] obs@[k]).path@,
                    obs@[k].mtime,
                ) ==> has_track_path(c.tracks@, obs@[k].path@) && row_of(*c, obs@[k].path@)
                    == row_of(c0, obs@[k].path@),
            forall|k: int|
                0 <= k < i && !spec_unchanged(
                    c0.tracks@,
                    (#[trigger] obs@[k]).path@,
                    obs@[k].mtime,
                ) && obs@[k].meta is Some ==> indexed_row(*c, obs@[k]) && (has_track_path(
                    c0.tracks@,
                    obs@[k].path@,
                ) ==> row_of(*c, obs@[k].path@).id == row_of(c0, obs@[k].path@).id),
            forall|j: int|
                0 <= j < found@.len() ==> exists|k: int|
                    0 <= k < i && obs@[k].path@ == (#[trigger] found@[j])@ && file_found(
                        c0,
                        obs@[k],
                    ),
            forall|k: int|
                0 <= k < i && file_found(c0, #[trigger] obs@[k]) ==> path_in(
                    found@,
                    obs@[k].path@,
                ),
            forall|p: Seq<char>|
                !processed(obs@, i as int, p) && #[trigger] has_track_path(c.tracks@, p)
                    ==> has_track_path(c0.tracks@, p),
            forall|p: Seq<char>|
                !processed(obs@, i as int, p) && #[trigger] has_track_path(c0.tracks@, p)
                    ==> has_track_path(c.tracks@, p) && row_of(*c, p) == row_of(c0, p),
            (forall|k: int|
                0 <= k < i ==> spec_unchanged(
                    c0.tracks@,
                    (#[trigger] obs@[k]).path@,
                    obs@[k].mtime,
                )) ==> *c == c0 && *covers == covers0 && found@.len() == i,
        decreases obs@.len() - i,
    {
        let ghost c_prev = *c;
        let ghost covers_prev = *covers;
        let f = &obs[i];
        let ghost q = f.path@;
        proof {
            // the path of this file has not been processed yet
            assert(!processed(obs@, i as int, q));
            // its classification against the live catalog matches the one
            // against the catalog the run started from
            lemma_unchanged_iff(c_prev, q, f.mtime);
            lemma_unchanged_iff(c0, q, f.mtime);
            // budget for this one file
            assert(obs@.skip(i as int).first() == obs@[i as int]);
            assert(obs@.skip(i as int).drop_first() =~= obs@.skip(i + 1));
            assert(mint_budget(obs@.skip(i as int)) == file_budget(obs@[i as int]) + mint_budget(
                obs@.skip(i + 1),
            ));
        }
        let ghost found_prev = found@;
        let did = scan_step(c, covers, f, now);
        if did {
            found.push(f.path.clone());
        }
        proof {
            let fin = *c;
            assert(spec_unchanged(c_prev.tracks@, q, f.mtime) == spec_unchanged(
                c0.tracks@,
                q,
                f.mtime,
            ));
            let parsed = !spec_unchanged(c0.tracks@, q, f.mtime) && f.meta is Some;
            assert(did == file_found(c0, obs@[i as int]));
            // carry the per-file claims of the processed prefix forward
            assert forall|k: int|
                0 <= k < i + 1 && spec_unchanged(
                    c0.tracks@,
                    (#[trigger] obs@[k]).path@,
                    obs@[k].mtime,
                ) implies has_track_path(fin.tracks@, obs@[k].path@) && row_of(
                fin,
                obs@[k].path@,
            ) == row_of(c0, obs@[k].path@) by {
                if k < i {
                    if parsed {
                        assert(obs@[k].path@ != q);
                        assert(has_track_path(c_prev.tracks@, obs@[k].path@));
                        assert(row_of(fin, obs@[k].path@) == row_of(c_prev, obs@[k].path@));
                    } else {
                        assert(fin == c_prev);
                    }
                } else {
                    assert(!parsed);
                    assert(fin == c_prev);
                    assert(has_track_path(c0.tracks@, q) && row_of(c0, q).mtime == obs@[k].mtime);
                    assert(row_of(fin, q) == row_of(c0, q));
                }
            }
            assert forall|k: int|
                0 <= k < i + 1 && !spec_unchanged(
                    c0.tracks@,
                    (#[trigger] obs@[k]).path@,
                    obs@[k].mtime,
                ) && obs@[k].meta is Some implies indexed_row(fin, obs@[k]) && (has_track_path(
                c0.tracks@,
                obs@[k].path@,
            ) ==> row_of(fin, obs@[k].path@).id == row_of(c0, obs@[k].path@).id) by {
                if k < i {
                    if parsed {
                        let pk = obs@[k].path@;
                        assert(pk != q);
                        let m = obs@[k].meta->0;
                        assert(indexed_row(c_prev, obs@[k]));
                        assert(has_track_path(c_prev.tracks@, pk));
                        assert(row_of(fin, pk) == row_of(c_prev, pk));
                        let t = row_of(c_prev, pk);
                        // resolved ids do not move as the tables grow
                        lemma_artist_id_stable(
                            c_prev.artists@,
                            fin.artists@,
                            artist_key(m.artists@[0]@),
                        );
                        lemma_artist_id_stable(
                            c_prev.artists@,
                            fin.artists@,
                            artist_key(meta_album_artist(m)),
                        );
                        lemma_album_id_stable(
                            c_prev.albums@,
                            fin.albums@,
                            m.album@,
                            artist_id_of(c_prev.artists@, artist_key(meta_album_artist(m))),
                        );
                        // this track is not the one whose links were replaced
                        assert(t.id != row_of(fin, q).id) by {
                            if has_track_path(c_prev.tracks@, q) {
                                assert(row_of(fin, q).id == row_of(c_prev, q).id);
                                let a1 = track_idx_of(c_prev.tracks@, pk);
                                let a2 = track_idx_of(c_prev.tracks@, q);
                                assert(c_prev.tracks@[a1].path@ == pk);
                                assert(c_prev.tracks@[a2].path@ == q);
                                assert(a1 != a2);
                            } else {
                                assert(row_of(fin, q).id >= c_prev.next_id);
                                let a1 = track_idx_of(c_prev.tracks@, pk);
                                assert(c_prev.tracks@[a1].id < c_prev.next_id);
                            }
                        }
                        assert forall|x: int| 0 <= x < m.artists@.len() implies has_artist(
                            fin.artists@,
                            artist_key((#[trigger] m.artists@[x])@),
                        ) && has_track_link(
                            fin.track_artists@,
                            t.id,
                            artist_id_of(fin.artists@, artist_key(m.artists@[x]@)),
                        ) by {
                            lemma_artist_id_stable(
                                c_prev.artists@,
                                fin.artists@,
                                artist_key(m.artists@[x]@),
                            );
                            assert(has_track_link(
                                c_prev.track_artists@,
                                t.id,
                                artist_id_of(c_prev.artists@, artist_key(m.artists@[x]@)),
                            ));
                        }
                        assert(indexed_row(fin, obs@[k]));
                    } else {
                        assert(fin == c_prev);
                    }
                } else {
                    assert(parsed);
                    assert(indexed_row(fin, obs@[k])) by {
                        assert(obs@[k] == *f);
                    }
                    if has_track_path(c0.tracks@, q) {
                        assert(has_track_path(c_prev.tracks@, q) && row_of(c_prev, q) == row_of(
                            c0,
                            q,
                        ));
                        assert(row_of(fin, q).id == row_of(c_prev, q).id);
                    }
                }
            }
            // the found set keeps tracking exactly the found prefix
            assert forall|j: int| 0 <= j < found@.len() implies exists|k: int|
                0 <= k < i + 1 && obs@[k].path@ == (#[trigger] found@[j])@ && file_found(
                    c0,
                    obs@[k],
                ) by {
                if did && j == found@.len() - 1 {
                    assert(obs@[i as int].path@ == found@[j]@ && file_found(c0, obs@[i as int]));
                }
            }
            assert forall|k: int|
                0 <= k < i + 1 && file_found(c0, #[trigger] obs@[k]) implies path_in(
                found@,
                obs@[k].path@,
            ) by {
                if k == i as int {
                    assert(found@[found@.len() - 1]@ == q);
                } else {
                    if did {
                        let w = choose|w: int|
                            0 <= w < found_prev.len() && found_prev[w]@ == obs@[k].path@;
                        assert(found@[w]@ == obs@[k].path@);
                    }
                }
            }
            // paths never observed keep their rows untouched
            assert forall|p: Seq<char>|
                !processed(obs@, i + 1, p) && #[trigger] has_track_path(fin.tracks@, p) implies
                has_track_path(c0.tracks@, p) by {
                assert(!processed(obs@, i as int, p));
                assert(p != q);
                if parsed {
                    assert(has_track_path(c_prev.tracks@, p));
                } else {
                    assert(fin == c_prev);
                }
            }
            assert forall|p: Seq<char>|
                !processed(obs@, i + 1, p) && #[trigger] has_track_path(c0.tracks@, p) implies
                has_track_path(fin.tracks@, p) && row_of(fin, p) == row_of(c0, p) by {
                assert(!processed(obs@, i as int, p));
                assert(p != q);
                assert(has_track_path(c_prev.tracks@, p) && row_of(c_prev, p) == row_of(c0, p));
                if parsed {
                    assert(row_of(fin, p) == row_of(c_prev, p));
                } else {
                    assert(fin == c_prev);
                }
            }
            // an all-unchanged prefix means nothing has happened yet
            if forall|k: int|
                0 <= k < i + 1 ==> spec_unchanged(
                    c0.tracks@,
                    (#[trigger] obs@[k]).path@,
                    obs@[k].mtime,
                ) {
                assert(forall|k: int|
                    0 <= k < i ==> spec_unchanged(
                        c0.tracks@,
                        (#[trigger] obs@[k]).path@,
                        obs@[k].mtime,
                    ));
                assert(c_prev == c0 && covers_prev == covers0);
                assert(spec_unchanged(c0.tracks@, q, f.mtime));
                assert(fin == c_prev);
                assert(did);
            }
        }
        i = i + 1;
    }
    proof {
        assert(obs@.skip(obs@.len() as int) =~= Seq::<ScannedFile>::empty());
    }
    let ghost pre = *c;
    c.delete_absent(&found);
    proof {
        lemma_finish_scan(c0, obs@, pre, found@, *c);
    }
}

} // verus!
