//! The artist/track metadata records returned by the scrobbling service,
//! and the verified selection policy the scan's enrichment step applies to
//! them (which image to keep, which biography text to store).

use vstd::prelude::*;

verus! {

#[derive(Debug, Clone)]
pub struct Image {
    pub url: String,
    pub size: String,
}

#[derive(Debug, Clone)]
pub struct Tag {
    pub name: String,
    pub url: String,
}

#[derive(Debug, Clone)]
pub struct Tags {
    pub tag: Vec<Tag>,
}

#[derive(Debug, Clone)]
pub struct Stats {
    pub listeners: String,
    pub playcount: String,
}

#[derive(Debug, Clone)]
pub struct Bio {
    pub summary: String,
    pub content: String,
}

#[derive(Debug, Clone)]
pub struct SimilarArtist {
    pub name: String,
    pub url: String,
    pub image: Option<Vec<Image>>,
}

#[derive(Debug, Clone)]
pub struct Similar {
    pub artist: Vec<SimilarArtist>,
}

#[derive(Debug, Clone)]
pub struct ArtistInfo {
    pub name: String,
    pub mbid: Option<String>,
    pub url: String,
    pub image: Option<Vec<Image>>,
    pub stats: Option<Stats>,
    pub similar: Option<Similar>,
    pub tags: Option<Tags>,
    pub bio: Option<Bio>,
}

#[derive(Debug, Clone)]
pub struct TrackArtist {
    pub name: String,
    pub mbid: Option<String>,
    pub url: String,
}

#[derive(Debug, Clone)]
pub struct TrackAlbum {
    pub artist: String,
    pub title: String,
    pub mbid: Option<String>,
    pub url: String,
    pub image: Option<Vec<Image>>,
}

#[derive(Debug, Clone)]
pub struct TrackInfo {
    pub name: String,
    pub mbid: Option<String>,
    pub url: String,
    pub duration: Option<String>,
    pub listeners: String,
    pub playcount: String,
    pub artist: TrackArtist,
    pub album: Option<TrackAlbum>,
    pub toptags: Option<Tags>,
    pub wiki: Option<Bio>,
    pub userplaycount: Option<String>,
    pub userloved: Option<String>,
}

/// A granted scrobbling session.
#[derive(Debug, Clone)]
pub struct LastFmSession {
    pub name: String,
    pub key: String,
}

/// The browser URL and request token of a pending login.
#[derive(Debug, Clone)]
pub struct LastFmAuthUrl {
    pub url: String,
    pub token: String,
}

/// The index of the image the enrichment step keeps: the first one sized
/// "mega", else the last; pictures with an empty URL yield nothing.
pub open spec fn picked_image(images: Seq<Image>, i: int) -> bool {
    &&& 0 <= i < images.len()
    &&& if exists|j: int| 0 <= j < images.len() && images[j].size@ == "mega"@ {
        images[i].size@ == "mega"@ && forall|j: int| 0 <= j < i ==> images[j].size@ != "mega"@
    } else {
        i == images.len() - 1
    }
}

/// The artist image URL the enrichment step stores, if any.
pub fn pick_artist_image(images: &Vec<Image>) -> (r: Option<String>)
    ensures
        r matches Some(u) ==> u@.len() > 0 && exists|i: int|
            picked_image(images@, i) && u@ == images@[i].url@,
        r is None ==> images@.len() == 0 || (exists|i: int|
            picked_image(images@, i) && images@[i].url@.len() == 0),
{
    if images.len() == 0 {
        return None;
    }
    let mut chosen: usize = images.len() - 1;
    let mut found_mega = false;
    let mut i: usize = 0;
    proof {
        reveal_strlit("mega");
    }
    while i < images.len()
        invariant
            i <= images@.len(),
            images@.len() > 0,
            !found_mega ==> chosen == images@.len() - 1,
            !found_mega ==> forall|j: int| 0 <= j < i ==> images@[j].size@ != "mega"@,
            found_mega ==> chosen < images@.len() && images@[chosen as int].size@ == "mega"@
                && forall|j: int| 0 <= j < chosen ==> images@[j].size@ != "mega"@,
        decreases images@.len() - i,
    {
        if !found_mega && crate::strutil::eq_str(images[i].size.as_str(), "mega") {
            chosen = i;
            found_mega = true;
        }
        i = i + 1;
    }
    assert(picked_image(images@, chosen as int));
    if images[chosen].url.unicode_len() > 0 {
        Some(images[chosen].url.clone())
    } else {
        None
    }
}

/// The biography text the enrichment step stores, if the record carries
/// one.
pub fn pick_bio(info: &ArtistInfo) -> (r: Option<String>)
    ensures
        r matches Some(b) ==> info.bio matches Some(bio) && b@ == bio.content@,
        r is None <==> info.bio is None,
{
    match &info.bio {
        Some(b) => Some(b.content.clone()),
        None => None,
    }
}

} // verus!
