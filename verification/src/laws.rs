//! Catalog-level laws of the scan pipeline, proved from `scan_rel` alone:
//! idempotence, fingerprint-skip stability, exact deletion, and the effect
//! of a rename.

use vstd::prelude::*;
use crate::catalog::{
    Catalog, TrackRow, TrackArtistRow, PlaylistTrackRow, has_track_path, track_idx_of,
    has_artist, artist_id_of,
};
use crate::scan::{
    ScannedFile, scan_rel, spec_unchanged, all_unchanged, obs_has_path, obs_surviving, found_in,
    file_found, distinct_paths, row_of, artist_key, lemma_filter_all_true, lemma_filter_congruence,
    lemma_unchanged_iff,
};

verus! {

/// Two catalogs with the same rows everywhere: what "an identical catalog"
/// means (same ids, same row counts, no duplicate inserts).
pub open spec fn catalog_eqv(a: Catalog, b: Catalog) -> bool {
    &&& a.next_id == b.next_id
    &&& a.artists@ == b.artists@
    &&& a.albums@ == b.albums@
    &&& a.tracks@ == b.tracks@
    &&& a.track_artists@ == b.track_artists@
    &&& a.album_artists@ == b.album_artists@
    &&& a.playlists@ == b.playlists@
    &&& a.playlist_tracks@ == b.playlist_tracks@
    &&& a.roots@ == b.roots@
}

/// The catalog already reflects exactly these observations: every observed
/// file is unchanged, and every track's path is among the observations.
pub open spec fn synced(c: Catalog, obs: Seq<ScannedFile>) -> bool {
    &&& all_unchanged(c, obs)
    &&& forall|i: int|
        0 <= i < c.tracks@.len() ==> obs_has_path(obs, (#[trigger] c.tracks@[i]).path@)
}

/// Scan idempotence: a scan of a catalog that already reflects the
/// filesystem leaves it identical — same ids, same row counts, no
/// duplicate inserts.
pub proof fn lemma_scan_idempotent(c0: Catalog, obs: Seq<ScannedFile>, c1: Catalog)
    requires
        c0.wf(),
        synced(c0, obs),
        scan_rel(c0, obs, c1),
    ensures
        catalog_eqv(c1, c0),
{
    assert(all_unchanged(c0, obs));
    let keep_t = |t: TrackRow| obs_has_path(obs, t.path@);
    assert(forall|i: int| 0 <= i < c0.tracks@.len() ==> keep_t(#[trigger] c0.tracks@[i]));
    lemma_filter_all_true(c0.tracks@, keep_t);
    let keep_l = |l: TrackArtistRow| obs_surviving(c0, obs, l.track_id);
    assert forall|i: int| 0 <= i < c0.track_artists@.len() implies keep_l(
        #[trigger] c0.track_artists@[i],
    ) by {
        let tid = c0.track_artists@[i].track_id;
        let w = choose|w: int| 0 <= w < c0.tracks@.len() && c0.tracks@[w].id == tid;
        assert(obs_has_path(obs, c0.tracks@[w].path@));
    }
    lemma_filter_all_true(c0.track_artists@, keep_l);
    let keep_e = |e: PlaylistTrackRow| obs_surviving(c0, obs, e.track_id);
    assert forall|i: int| 0 <= i < c0.playlist_tracks@.len() implies keep_e(
        #[trigger] c0.playlist_tracks@[i],
    ) by {
        let tid = c0.playlist_tracks@[i].track_id;
        let w = choose|w: int| 0 <= w < c0.tracks@.len() && c0.tracks@[w].id == tid;
        assert(obs_has_path(obs, c0.tracks@[w].path@));
    }
    lemma_filter_all_true(c0.playlist_tracks@, keep_e);
}

/// Fingerprint skip: after a scan, a file that was unchanged still has its
/// exact path and fingerprint in the catalog, so the next run classifies it
/// unchanged again and never re-parses it (`needs_parse` is false exactly
/// then).
pub proof fn lemma_fingerprint_skip(c0: Catalog, obs: Seq<ScannedFile>, c1: Catalog, k: int)
    requires
        c0.wf(),
        scan_rel(c0, obs, c1),
        0 <= k < obs.len(),
        spec_unchanged(c0.tracks@, obs[k].path@, obs[k].mtime),
    ensures
        spec_unchanged(c1.tracks@, obs[k].path@, obs[k].mtime),
{
    let p = obs[k].path@;
    lemma_unchanged_iff(c0, p, obs[k].mtime);
    lemma_unchanged_iff(c1, p, obs[k].mtime);
    assert(has_track_path(c1.tracks@, p) && row_of(c1, p) == row_of(c0, p));
}

/// Deletion is exact: re-scanning after one indexed file vanished removes
/// precisely its track row (and only that track's join rows), and touches
/// no other table.
#[verifier::rlimit(100)]
pub proof fn lemma_exact_deletion(
    c0: Catalog,
    obs: Seq<ScannedFile>,
    obs2: Seq<ScannedFile>,
    r: int,
    c1: Catalog,
)
    requires
        c0.wf(),
        distinct_paths(obs),
        synced(c0, obs),
        0 <= r < obs.len(),
        obs2 == obs.remove(r),
        has_track_path(c0.tracks@, obs[r].path@),
        scan_rel(c0, obs2, c1),
    ensures
        c1.artists == c0.artists,
        c1.albums == c0.albums,
        c1.album_artists == c0.album_artists,
        c1.playlists == c0.playlists,
        c1.roots == c0.roots,
        c1.next_id == c0.next_id,
        c1.tracks@ == c0.tracks@.remove(track_idx_of(c0.tracks@, obs[r].path@)),
        c1.track_artists@ == c0.track_artists@.filter(
            (|l: TrackArtistRow| l.track_id != row_of(c0, obs[r].path@).id),
        ),
        c1.playlist_tracks@ == c0.playlist_tracks@.filter(
            (|e: PlaylistTrackRow| e.track_id != row_of(c0, obs[r].path@).id),
        ),
{
    let p = obs[r].path@;
    let w = track_idx_of(c0.tracks@, p);
    assert(c0.tracks@[w].path@ == p);
    let gone = c0.tracks@[w].id;
    // the shortened run is still all unchanged
    assert forall|k: int| 0 <= k < obs2.len() implies spec_unchanged(
        c0.tracks@,
        (#[trigger] obs2[k]).path@,
        obs2[k].mtime,
    ) by {
        if k < r {
            assert(obs2[k] == obs[k]);
        } else {
            assert(obs2[k] == obs[k + 1]);
        }
    }
    assert(all_unchanged(c0, obs2));
    // the removed path is in no remaining observation
    assert forall|k: int| 0 <= k < obs2.len() implies (#[trigger] obs2[k]).path@ != p by {
        if k < r {
            assert(obs2[k] == obs[k]);
        } else {
            assert(obs2[k] == obs[k + 1]);
        }
    }
    // every other track's path is still observed
    assert forall|i: int| 0 <= i < c0.tracks@.len() && i != w implies obs_has_path(
        obs2,
        (#[trigger] c0.tracks@[i]).path@,
    ) by {
        let k = choose|k: int| 0 <= k < obs.len() && obs[k].path@ == c0.tracks@[i].path@;
        assert(c0.tracks@[i].path@ != p);
        assert(k != r);
        if k < r {
            assert(obs2[k] == obs[k]);
            assert(obs_has_path(obs2, c0.tracks@[i].path@));
        } else {
            assert(obs2[k - 1] == obs[k]);
            assert(obs_has_path(obs2, c0.tracks@[i].path@));
        }
    }
    assert(!obs_has_path(obs2, p));
    // the track filter keeps everything except index w
    let keep_t = |t: TrackRow| obs_has_path(obs2, t.path@);
    assert(c1.tracks@ == c0.tracks@.filter(keep_t));
    lemma_filter_all_but_one(c0.tracks@, keep_t, w);
    // the join filters reduce to "not the vanished track's id"
    let keep_l = |l: TrackArtistRow| obs_surviving(c0, obs2, l.track_id);
    let keep_l2 = |l: TrackArtistRow| l.track_id != gone;
    assert forall|i: int| 0 <= i < c0.track_artists@.len() implies (keep_l(
        #[trigger] c0.track_artists@[i],
    ) <==> keep_l2(c0.track_artists@[i])) by {
        lemma_survivor_iff(c0, obs2, w, c0.track_artists@[i].track_id);
    }
    lemma_filter_congruence(c0.track_artists@, keep_l, keep_l2);
    let keep_e = |e: PlaylistTrackRow| obs_surviving(c0, obs2, e.track_id);
    let keep_e2 = |e: PlaylistTrackRow| e.track_id != gone;
    assert forall|i: int| 0 <= i < c0.playlist_tracks@.len() implies (keep_e(
        #[trigger] c0.playlist_tracks@[i],
    ) <==> keep_e2(c0.playlist_tracks@[i])) by {
        lemma_survivor_iff(c0, obs2, w, c0.playlist_tracks@[i].track_id);
    }
    lemma_filter_congruence(c0.playlist_tracks@, keep_e, keep_e2);
}

/// With exactly one track's path missing from the observations, a track id
/// survives precisely when it is not that track's.
proof fn lemma_survivor_iff(c0: Catalog, obs2: Seq<ScannedFile>, w: int, tid: u64)
    requires
        c0.wf(),
        0 <= w < c0.tracks@.len(),
        !obs_has_path(obs2, c0.tracks@[w].path@),
        forall|i: int|
            0 <= i < c0.tracks@.len() && i != w ==> obs_has_path(
                obs2,
                (#[trigger] c0.tracks@[i]).path@,
            ),
        crate::catalog::has_track_id(c0.tracks@, tid),
    ensures
        obs_surviving(c0, obs2, tid) <==> tid != c0.tracks@[w].id,
{
    let gone = c0.tracks@[w].id;
    if obs_surviving(c0, obs2, tid) {
        let v = choose|v: int|
            0 <= v < c0.tracks@.len() && c0.tracks@[v].id == tid && obs_has_path(
                obs2,
                c0.tracks@[v].path@,
            );
        if v == w {
            assert(false);
        }
        if tid == gone {
            if v < w {
                assert(false);
            }
            if w < v {
                assert(false);
            }
        }
    }
    if tid != gone {
        let v = choose|v: int| 0 <= v < c0.tracks@.len() && c0.tracks@[v].id == tid;
        if v == w {
            assert(false);
        }
        assert(obs_has_path(obs2, c0.tracks@[v].path@));
        assert(obs_surviving(c0, obs2, tid));
    }
}

/// A filter that rejects exactly one position removes exactly that element.
pub proof fn lemma_filter_all_but_one<A>(s: Seq<A>, pred: spec_fn(A) -> bool, w: int)
    requires
        0 <= w < s.len(),
        !pred(s[w]),
        forall|i: int| 0 <= i < s.len() && i != w ==> pred(#[trigger] s[i]),
    ensures
        s.filter(pred) == s.remove(w),
    decreases s.len(),
{
    reveal(Seq::filter);
    if w == s.len() - 1 {
        assert(forall|i: int| 0 <= i < s.drop_last().len() ==> pred(#[trigger] s.drop_last()[i]));
        lemma_filter_all_true(s.drop_last(), pred);
        assert(s.filter(pred) =~= s.remove(w));
    } else {
        assert(forall|i: int|
            0 <= i < s.drop_last().len() && i != w ==> pred(#[trigger] s.drop_last()[i]));
        assert(!pred(s.drop_last()[w]));
        lemma_filter_all_but_one(s.drop_last(), pred, w);
        assert(pred(s.last())) by {
            assert(s[s.len() - 1] == s.last());
        }
        assert(s.filter(pred) == s.drop_last().remove(w).push(s.last()));
        assert(s.drop_last().remove(w).push(s.last()) =~= s.remove(w));
    }
}

/// Rename: when one indexed file reappears under a new path with the same
/// content, one scan deletes the old path's row, indexes one new row at the
/// new path, and leaves every other file's row untouched.
pub proof fn lemma_rename(
    c0: Catalog,
    obs: Seq<ScannedFile>,
    obs2: Seq<ScannedFile>,
    r: int,
    c1: Catalog,
)
    requires
        c0.wf(),
        distinct_paths(obs),
        synced(c0, obs),
        0 <= r < obs.len(),
        has_track_path(c0.tracks@, obs[r].path@),
        obs2.len() == obs.len(),
        forall|k: int| 0 <= k < obs.len() && k != r ==> obs2[k] == obs[k],
        obs2[r].path@ != obs[r].path@,
        !obs_has_path(obs, obs2[r].path@),
        !has_track_path(c0.tracks@, obs2[r].path@),
        obs2[r].meta is Some,
        scan_rel(c0, obs2, c1),
    ensures
        // the deletion: the old path's row is gone
        !has_track_path(c1.tracks@, obs[r].path@),
        // the insertion: a row exists at the new path
        has_track_path(c1.tracks@, obs2[r].path@),
        // every other file's row is untouched
        forall|k: int|
            0 <= k < obs.len() && k != r ==> has_track_path(
                c1.tracks@,
                (#[trigger] obs[k]).path@,
            ) && row_of(c1, obs[k].path@) == row_of(c0, obs[k].path@),
        // and no track besides those exists
        forall|j: int|
            0 <= j < c1.tracks@.len() ==> (#[trigger] c1.tracks@[j]).path@ == obs2[r].path@
                || exists|k: int| 0 <= k < obs.len() && k != r && obs[k].path@
                == c1.tracks@[j].path@,
{
    let p_old = obs[r].path@;
    let p_new = obs2[r].path@;
    // the old path is observed nowhere in the renamed run
    assert forall|k: int| 0 <= k < obs2.len() implies (#[trigger] obs2[k]).path@ != p_old by {
        if k != r {
            assert(obs2[k] == obs[k]);
        }
    }
    // so the old row is not found and is deleted
    let w = track_idx_of(c0.tracks@, p_old);
    assert(c0.tracks@[w].path@ == p_old);
    if found_in(c0, obs2, p_old) {
        let k = choose|k: int|
            0 <= k < obs2.len() && obs2[k].path@ == p_old && file_found(c0, obs2[k]);
        assert(false);
    }
    assert(!has_track_path(c1.tracks@, c0.tracks@[w].path@));
    // the new path needed parsing and parsed, so it is indexed
    assert(!spec_unchanged(c0.tracks@, p_new, obs2[r].mtime)) by {
        lemma_unchanged_iff(c0, p_new, obs2[r].mtime);
    }
    assert(has_track_path(c1.tracks@, p_new));
    // everything else was unchanged and is preserved
    assert forall|k: int| 0 <= k < obs.len() && k != r implies has_track_path(
        c1.tracks@,
        (#[trigger] obs[k]).path@,
    ) && row_of(c1, obs[k].path@) == row_of(c0, obs[k].path@) by {
        assert(obs2[k] == obs[k]);
        assert(spec_unchanged(c0.tracks@, obs2[k].path@, obs2[k].mtime));
    }
    // no unaccounted rows: every surviving path was found in the new run
    assert forall|j: int| 0 <= j < c1.tracks@.len() implies (#[trigger] c1.tracks@[j]).path@
        == p_new || exists|k: int|
        0 <= k < obs.len() && k != r && obs[k].path@ == c1.tracks@[j].path@ by {
        assert(found_in(c0, obs2, c1.tracks@[j].path@));
        let k = choose|k: int|
            0 <= k < obs2.len() && obs2[k].path@ == c1.tracks@[j].path@ && file_found(
                c0,
                obs2[k],
            );
        if k != r {
            assert(obs2[k] == obs[k]);
        }
    }
}

/// Case-insensitive artist dedup: once any spelling of a name is in the
/// catalog, every name with the same case-folded key resolves to that same
/// artist id, and `resolve_artist`'s contract then leaves the table
/// unchanged — so two files tagged "Foo" and "foo" share one artist row.
pub proof fn lemma_artist_dedup(c: Catalog, n1: Seq<char>, n2: Seq<char>)
    requires
        c.wf(),
        artist_key(n1) == artist_key(n2),
        has_artist(c.artists@, artist_key(n1)),
    ensures
        has_artist(c.artists@, artist_key(n2)),
        artist_id_of(c.artists@, artist_key(n2)) == artist_id_of(c.artists@, artist_key(n1)),
{
}

} // verus!
