//! The metadata extraction policy: how one audio file's raw tag data and
//! filename are normalized into a catalog-ready record. Decoding the
//! container itself is left to the caller, which hands in a `RawTag`; all
//! policy (tag preference, artist splitting, filename fallback, cover
//! selection) lives here and is verified.

use vstd::prelude::*;
use crate::strutil::{
    spec_trim, spec_split, spec_split_str, spec_replace, trim, split, split_str, replace, eq_str,
};

verus! {

/// One embedded picture as the tag decoder reports it.
pub struct RawPicture {
    pub is_front_cover: bool,
    pub mime: Option<String>,
    pub data: Vec<u8>,
}

/// The raw fields of the preferred tag of one file, still untrimmed.
pub struct RawTag {
    pub title: Option<String>,
    pub artist: Option<String>,
    pub album: Option<String>,
    pub album_artist: Option<String>,
    pub track: Option<u32>,
    pub disc: Option<u32>,
    pub year: Option<u32>,
    pub genre: Option<String>,
    pub pictures: Vec<RawPicture>,
}

/// Container-level properties of the audio stream.
pub struct AudioProps {
    pub duration_secs: u32,
    pub bitrate: Option<u32>,
}

/// An embedded cover image, ready for the content-addressed store.
pub struct CoverImage {
    pub data: Vec<u8>,
    pub mime: String,
}

/// A fully normalized metadata record for one audio file.
pub struct TrackMeta {
    pub title: String,
    pub artists: Vec<String>,
    pub album_artist: Option<String>,
    pub album: String,
    pub duration: u32,
    pub track_number: Option<u32>,
    pub disc_number: Option<u32>,
    pub year: Option<u16>,
    pub genre: Option<String>,
    pub bitrate: Option<u32>,
    pub cover: Option<CoverImage>,
}

pub open spec fn sentinel_artist() -> Seq<char> {
    "Unknown Artist"@
}

pub open spec fn sentinel_album() -> Seq<char> {
    "Unknown Album"@
}

/// The artist delimiters, in precedence order, each rewritten to one `;`.
pub open spec fn spec_canon_delims(s: Seq<char>) -> Seq<char> {
    spec_replace(
        spec_replace(
            spec_replace(spec_replace(spec_replace(s, " feat. "@, ";"@), " ft. "@, ";"@), " & "@, ";"@),
            " / "@,
            ";"@,
        ),
        ", "@,
        ";"@,
    )
}

/// Trim each fragment and drop the ones that are left empty.
pub open spec fn spec_clean_frags(fs: Seq<Seq<char>>) -> Seq<Seq<char>>
    decreases fs.len(),
{
    if fs.len() == 0 {
        Seq::<Seq<char>>::empty()
    } else {
        let rest = spec_clean_frags(fs.drop_last());
        if spec_trim(fs.last()).len() > 0 {
            rest.push(spec_trim(fs.last()))
        } else {
            rest
        }
    }
}

/// A raw artist string split into individual artist names: delimiters are
/// rewritten to `;`, the string split on `;`, fragments trimmed, and empty
/// fragments dropped.
pub open spec fn spec_split_artists(s: Seq<char>) -> Seq<Seq<char>> {
    spec_clean_frags(spec_split(spec_canon_delims(s), ';'))
}

pub fn split_artists(raw: &str) -> (r: Vec<String>)
    ensures
        r@.map_values(|p: String| p@) == spec_split_artists(raw@),
{
    proof {
        reveal_strlit(" feat. ");
        reveal_strlit(" ft. ");
        reveal_strlit(" & ");
        reveal_strlit(" / ");
        reveal_strlit(", ");
        reveal_strlit(";");
    }
    let s1 = replace(raw, " feat. ", ";");
    let s2 = replace(s1.as_str(), " ft. ", ";");
    let s3 = replace(s2.as_str(), " & ", ";");
    let s4 = replace(s3.as_str(), " / ", ";");
    let s5 = replace(s4.as_str(), ", ", ";");
    let frags = split(s5.as_str(), ';');
    let ghost frag_views = frags@.map_values(|p: String| p@);
    let mut out: Vec<String> = Vec::new();
    let mut k: usize = 0;
    while k < frags.len()
        invariant
            k <= frags@.len(),
            frag_views == frags@.map_values(|p: String| p@),
            out@.map_values(|p: String| p@) == spec_clean_frags(frag_views.take(k as int)),
        decreases frags@.len() - k,
    {
        let t = trim(frags[k].as_str());
        proof {
            assert(frag_views.take(k + 1).drop_last() =~= frag_views.take(k as int));
            assert(frag_views.take(k + 1).last() == frags@[k as int]@);
        }
        if t.unicode_len() > 0 {
            out.push(t);
            assert(out@.map_values(|p: String| p@) =~= spec_clean_frags(
                frag_views.take(k + 1),
            ));
        } else {
            assert(out@.map_values(|p: String| p@) =~= spec_clean_frags(
                frag_views.take(k + 1),
            ));
        }
        k = k + 1;
    }
    assert(frag_views.take(frags@.len() as int) == frag_views);
    out
}

/// Whether an optional raw text field carries any content after trimming.
pub open spec fn opt_usable(o: Option<String>) -> bool {
    o matches Some(s) && spec_trim(s@).len() > 0
}

/// The trimmed content of an optional field, or a default.
pub open spec fn opt_trimmed_or(o: Option<String>, dflt: Seq<char>) -> Seq<char> {
    if opt_usable(o) {
        spec_trim((o->0)@)
    } else {
        dflt
    }
}

/// Whether the tag stage produced a usable artist list: the policy falls
/// back to filename inference exactly when it did not, or when the tag
/// yielded only the sentinel name.
pub open spec fn tag_artists(t: Option<RawTag>) -> Seq<Seq<char>> {
    if t is Some && (t->0).artist is Some && spec_trim(((t->0).artist->0)@).len() > 0 {
        spec_split_artists(((t->0).artist->0)@)
    } else {
        seq![sentinel_artist()]
    }
}

pub open spec fn tag_artists_usable(t: Option<RawTag>) -> bool {
    tag_artists(t).len() > 0 && tag_artists(t) != seq![sentinel_artist()]
}

pub open spec fn base_title(stem: Seq<char>, t: Option<RawTag>) -> Seq<char> {
    if t is Some && opt_usable((t->0).title) {
        spec_trim(((t->0).title->0)@)
    } else {
        stem
    }
}

pub open spec fn base_album(t: Option<RawTag>) -> Seq<char> {
    match t {
        Some(tag) => opt_trimmed_or(tag.album, sentinel_album()),
        None => sentinel_album(),
    }
}

/// An artist list, or the sentinel when it is empty.
pub open spec fn or_sentinel(artists: Seq<Seq<char>>) -> Seq<Seq<char>> {
    if artists.len() == 0 {
        seq![sentinel_artist()]
    } else {
        artists
    }
}

pub open spec fn stem_parts(stem: Seq<char>) -> Seq<Seq<char>> {
    spec_split_str(stem, " - "@)
}

pub open spec fn final_artists(stem: Seq<char>, t: Option<RawTag>) -> Seq<Seq<char>> {
    if tag_artists_usable(t) {
        tag_artists(t)
    } else {
        let parts = stem_parts(stem);
        if parts.len() == 3 || parts.len() == 2 {
            or_sentinel(spec_split_artists(parts[0]))
        } else {
            seq![sentinel_artist()]
        }
    }
}

pub open spec fn final_title(stem: Seq<char>, t: Option<RawTag>) -> Seq<char> {
    if tag_artists_usable(t) {
        base_title(stem, t)
    } else {
        let parts = stem_parts(stem);
        if parts.len() == 3 {
            spec_trim(parts[2])
        } else if parts.len() == 2 {
            spec_trim(parts[1])
        } else {
            base_title(stem, t)
        }
    }
}

pub open spec fn final_album(stem: Seq<char>, t: Option<RawTag>) -> Seq<char> {
    if !tag_artists_usable(t) && stem_parts(stem).len() == 3 {
        spec_trim(stem_parts(stem)[1])
    } else {
        base_album(t)
    }
}

/// The index of the picture the policy selects: the first one marked as a
/// front cover, else the first picture.
pub open spec fn picked_pic(pics: Seq<RawPicture>, i: int) -> bool {
    &&& 0 <= i < pics.len()
    &&& if exists|j: int| 0 <= j < pics.len() && pics[j].is_front_cover {
        pics[i].is_front_cover && forall|j: int| 0 <= j < i ==> !pics[j].is_front_cover
    } else {
        i == 0
    }
}

pub open spec fn cover_of_pic(p: RawPicture, c: CoverImage) -> bool {
    &&& c.data@ == p.data@
    &&& c.mime@ == match p.mime {
        Some(m) => m@,
        None => "image/jpeg"@,
    }
}

fn pick_cover(pics: &Vec<RawPicture>) -> (r: Option<CoverImage>)
    ensures
        (r is Some) <==> pics@.len() > 0,
        r matches Some(c) ==> exists|i: int| picked_pic(pics@, i) && cover_of_pic(pics@[i], c),
{
    if pics.len() == 0 {
        return None;
    }
    let mut chosen: usize = 0;
    let mut found_front = false;
    let mut i: usize = 0;
    while i < pics.len()
        invariant
            i <= pics@.len(),
            pics@.len() > 0,
            !found_front ==> chosen == 0,
            !found_front ==> forall|j: int| 0 <= j < i ==> !pics@[j].is_front_cover,
            found_front ==> chosen < pics@.len() && pics@[chosen as int].is_front_cover
                && forall|j: int| 0 <= j < chosen ==> !pics@[j].is_front_cover,
        decreases pics@.len() - i,
    {
        if !found_front && pics[i].is_front_cover {
            chosen = i;
            found_front = true;
        }
        i = i + 1;
    }
    let p = &pics[chosen];
    let mime = match &p.mime {
        Some(m) => m.clone(),
        None => String::from_str("image/jpeg"),
    };
    let mut data: Vec<u8> = Vec::new();
    let mut k: usize = 0;
    while k < p.data.len()
        invariant
            k <= p.data@.len(),
            data@ == p.data@.take(k as int),
        decreases p.data@.len() - k,
    {
        data.push(p.data[k]);
        assert(data@ =~= p.data@.take(k + 1));
        k = k + 1;
    }
    assert(p.data@.take(p.data@.len() as int) == p.data@);
    let c = CoverImage { data, mime };
    assert(picked_pic(pics@, chosen as int));
    assert(cover_of_pic(pics@[chosen as int], c));
    Some(c)
}

/// Normalize one file's decoded tag data into a `TrackMeta` record.
///
/// The policy follows the tag when it is usable and otherwise infers
/// artist/album/title from a `"Artist - Album - Title"` or
/// `"Artist - Title"` filename stem; the artist list is never empty.
pub fn normalize_metadata(stem: &str, tag: Option<RawTag>, props: &AudioProps) -> (m: TrackMeta)
    ensures
        m.title@ == final_title(stem@, tag),
        m.artists@.map_values(|p: String| p@) == final_artists(stem@, tag),
        m.artists@.len() > 0,
        m.album@ == final_album(stem@, tag),
        m.album_artist matches Some(a) ==> tag matches Some(t) && opt_usable(t.album_artist)
            && a@ == spec_trim((t.album_artist->0)@),
        m.album_artist is None ==> !(tag matches Some(t) && opt_usable(t.album_artist)),
        m.duration == props.duration_secs,
        m.bitrate == props.bitrate,
        m.track_number == match tag {
            Some(t) => t.track,
            None => None::<u32>,
        },
        m.disc_number == match tag {
            Some(t) => t.disc,
            None => None::<u32>,
        },
        m.year == match tag {
            Some(t) => match t.year {
                Some(y) => Some(y as u16),
                None => None::<u16>,
            },
            None => None::<u16>,
        },
        m.genre matches Some(g) ==> tag matches Some(t) && opt_usable(t.genre) && g@ == spec_trim(
            (t.genre->0)@,
        ),
        m.genre is None ==> !(tag matches Some(t) && opt_usable(t.genre)),
        (m.cover is Some) <==> (tag matches Some(t) && t.pictures@.len() > 0),
        m.cover matches Some(c) ==> tag matches Some(t) && exists|i: int|
            picked_pic(t.pictures@, i) && cover_of_pic(t.pictures@[i], c),
{
    let mut title = stem.to_owned();
    let mut artists: Vec<String> = Vec::new();
    let mut album = String::from_str("Unknown Album");
    let mut album_artist: Option<String> = None;
    let mut track_number: Option<u32> = None;
    let mut disc_number: Option<u32> = None;
    let mut year: Option<u16> = None;
    let mut genre: Option<String> = None;
    let mut cover: Option<CoverImage> = None;
    let mut tag_artist_ok = false;

    if let Some(t) = &tag {
        if let Some(raw_title) = &t.title {
            let tt = trim(raw_title.as_str());
            if tt.unicode_len() > 0 {
                title = tt;
            }
        }
        if let Some(raw_artist) = &t.artist {
            let ta = trim(raw_artist.as_str());
            if ta.unicode_len() > 0 {
                artists = split_artists(raw_artist.as_str());
            }
        }
        if let Some(raw_album) = &t.album {
            let ta = trim(raw_album.as_str());
            if ta.unicode_len() > 0 {
                album = ta;
            }
        }
        if let Some(raw_aa) = &t.album_artist {
            let ta = trim(raw_aa.as_str());
            if ta.unicode_len() > 0 {
                album_artist = Some(ta);
            }
        }
        if let Some(raw_genre) = &t.genre {
            let tg = trim(raw_genre.as_str());
            if tg.unicode_len() > 0 {
                genre = Some(tg);
            }
        }
        track_number = t.track;
        disc_number = t.disc;
        if let Some(y) = t.year {
            year = Some(#[verifier::truncate] (y as u16));
        }
        cover = pick_cover(&t.pictures);
        proof {
            assert(tag_artists(tag) == if t.artist matches Some(a) && spec_trim(a@).len() > 0 {
                spec_split_artists((t.artist->0)@)
            } else {
                seq![sentinel_artist()]
            });
        }
        let mut is_sentinel_only = false;
        if artists.len() == 1 {
            proof {
                reveal_strlit("Unknown Artist");
            }
            if eq_str(artists[0].as_str(), "Unknown Artist") {
                is_sentinel_only = true;
            }
            proof {
                if is_sentinel_only {
                    assert(artists@.map_values(|p: String| p@) =~= seq![sentinel_artist()]);
                } else {
                    assert(artists@.map_values(|p: String| p@) != seq![sentinel_artist()]) by {
                        assert(artists@.map_values(|p: String| p@)[0] == artists@[0]@);
                    }
                }
            }
        }
        tag_artist_ok = artists.len() > 0 && !is_sentinel_only;
        proof {
            if t.artist is Some && spec_trim((t.artist->0)@).len() > 0 {
                assert(artists@.map_values(|p: String| p@) == spec_split_artists((t.artist->0)@));
            } else {
                assert(artists@.len() == 0);
            }
            assert(tag_artist_ok == tag_artists_usable(tag));
        }
    } else {
        assert(!tag_artists_usable(tag));
    }

    if !tag_artist_ok {
        proof {
            reveal_strlit(" - ");
        }
        let parts = split_str(stem, " - ");
        let ghost part_views = parts@.map_values(|p: String| p@);
        if parts.len() == 3 {
            artists = split_artists(parts[0].as_str());
            album = trim(parts[1].as_str());
            title = trim(parts[2].as_str());
            assert(part_views[0] == parts@[0]@ && part_views[1] == parts@[1]@ && part_views[2]
                == parts@[2]@);
        } else if parts.len() == 2 {
            artists = split_artists(parts[0].as_str());
            title = trim(parts[1].as_str());
            assert(part_views[0] == parts@[0]@ && part_views[1] == parts@[1]@);
        } else {
            artists = Vec::new();
        }
        if artists.len() == 0 {
            let mut v: Vec<String> = Vec::new();
            v.push(String::from_str("Unknown Artist"));
            artists = v;
            assert(artists@.map_values(|p: String| p@) =~= seq![sentinel_artist()]);
        }
    }

    assert(artists@.map_values(|p: String| p@) == final_artists(stem@, tag));
    assert(artists@.len() > 0) by {
        assert(artists@.map_values(|p: String| p@).len() == artists@.len());
        if final_artists(stem@, tag).len() == 0 {
            assert(or_sentinel(spec_split_artists(stem_parts(stem@)[0])).len() > 0);
        }
    }

    TrackMeta {
        title,
        artists,
        album_artist,
        album,
        duration: props.duration_secs,
        track_number,
        disc_number,
        year,
        genre,
        bitrate: props.bitrate,
        cover,
    }
}

/// The audio file extensions the scanner recognizes.
pub open spec fn supported_exts() -> Seq<Seq<char>> {
    seq!["mp3"@, "flac"@, "wav"@, "m4a"@, "ogg"@, "opus"@, "aac"@, "alac"@, "aiff"@]
}

/// The extension of a path: what follows the last `.` of the last component,
/// lower-cased; a name without a `.` in its last component has none.
pub open spec fn spec_ext_of(path: Seq<char>) -> Option<Seq<char>> {
    let parts = spec_split(path, '.');
    if parts.len() < 2 {
        None
    } else if parts.last().contains('/') || parts.last().contains('\\') || parts.last().len() == 0 {
        None
    } else {
        Some(crate::strutil::spec_fold(parts.last()))
    }
}

pub open spec fn spec_is_supported_audio_path(path: Seq<char>) -> bool {
    spec_ext_of(path) matches Some(e) && supported_exts().contains(e)
}

/// Whether the scanner classifies this path as an audio file to index.
pub fn is_supported_audio_path(path: &str) -> (r: bool)
    ensures
        r == spec_is_supported_audio_path(path@),
{
    let parts = split(path, '.');
    let ghost part_views = parts@.map_values(|p: String| p@);
    proof {
        crate::strutil::lemma_split_nonempty(path@, '.');
        assert(part_views.last() == parts@[parts@.len() - 1]@);
    }
    if parts.len() < 2 {
        return false;
    }
    let last = parts[parts.len() - 1].as_str();
    if last.unicode_len() == 0 {
        return false;
    }
    if char_contains(last, '/') || char_contains(last, '\\') {
        return false;
    }
    let e = crate::strutil::fold_case(last);
    proof {
        reveal_strlit("mp3");
        reveal_strlit("flac");
        reveal_strlit("wav");
        reveal_strlit("m4a");
        reveal_strlit("ogg");
        reveal_strlit("opus");
        reveal_strlit("aac");
        reveal_strlit("alac");
        reveal_strlit("aiff");
    }
    let r = eq_str(e.as_str(), "mp3") || eq_str(e.as_str(), "flac") || eq_str(e.as_str(), "wav")
        || eq_str(e.as_str(), "m4a") || eq_str(e.as_str(), "ogg") || eq_str(e.as_str(), "opus")
        || eq_str(e.as_str(), "aac") || eq_str(e.as_str(), "alac") || eq_str(e.as_str(), "aiff");
    proof {
        if r {
            assert(supported_exts().contains(e@));
        } else {
            assert(forall|k: int| 0 <= k < supported_exts().len() ==> supported_exts()[k] != e@);
        }
    }
    r
}

fn char_contains(s: &str, c: char) -> (r: bool)
    ensures
        r == s@.contains(c),
{
    let n = s.unicode_len();
    let mut i: usize = 0;
    while i < n
        invariant
            i <= n,
            n == s@.len(),
            forall|k: int| 0 <= k < i ==> s@[k] != c,
        decreases n - i,
    {
        if s.get_char(i) == c {
            assert(s@.contains(c));
            return true;
        }
        i = i + 1;
    }
    assert(forall|k: int| 0 <= k < s@.len() ==> s@[k] != c);
    false
}

/// The stored file extension for a cover image's MIME type; unknown types
/// default to `jpg`.
pub open spec fn spec_ext_for_mime(mime: Seq<char>) -> Seq<char> {
    if mime == "image/png"@ {
        "png"@
    } else if mime == "image/gif"@ {
        "gif"@
    } else if mime == "image/webp"@ {
        "webp"@
    } else {
        "jpg"@
    }
}

pub fn ext_for_mime(mime: &str) -> (r: String)
    ensures
        r@ == spec_ext_for_mime(mime@),
{
    if eq_str(mime, "image/png") {
        String::from_str("png")
    } else if eq_str(mime, "image/gif") {
        String::from_str("gif")
    } else if eq_str(mime, "image/webp") {
        String::from_str("webp")
    } else {
        String::from_str("jpg")
    }
}

} // verus!
