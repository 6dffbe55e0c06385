//! The catalog's public data model: the records handed to callers of the
//! query surface. Timestamps are Unix seconds; identifiers are decimal
//! renderings of catalog-assigned ids.

use vstd::prelude::*;

verus! {

#[derive(Debug, Clone)]
pub struct Track {
    pub id: String,
    pub provider_id: Option<String>,
    pub title: String,
    pub artist_id: String,
    pub artist_name: String,
    pub album_id: String,
    pub album_title: String,
    pub duration_sec: u32,
    pub track_number: Option<u32>,
    pub disc_number: Option<u32>,
    pub year: Option<u16>,
    pub genre: Option<String>,
    pub bitrate: Option<u32>,
    pub play_count: u32,
    pub liked: bool,
}

#[derive(Debug, Clone)]
pub struct Album {
    pub id: String,
    pub title: String,
    pub artist_id: String,
    pub artist_name: String,
    pub cover_art: Option<String>,
    pub year: Option<u16>,
    pub track_count: Option<u32>,
}

#[derive(Debug, Clone)]
pub struct Artist {
    pub id: String,
    pub name: String,
    pub bio: Option<String>,
    pub image_url: Option<String>,
}

#[derive(Debug, Clone)]
pub struct Playlist {
    pub id: String,
    pub name: String,
    pub owner: String,
    pub track_count: u32,
    pub cover_art: Option<String>,
    pub created_at: i64,
}

#[derive(Debug, Clone)]
pub struct Genre {
    pub name: String,
    pub track_count: u32,
}

#[derive(Debug, Clone)]
pub struct LibraryStats {
    pub album_count: u32,
    pub track_count: u32,
    pub artist_count: u32,
    pub total_duration: u32,
    pub average_bitrate: u32,
}

#[derive(Debug, Clone, Default)]
pub struct UnifiedSearchResult {
    pub tracks: Vec<Track>,
    pub albums: Vec<Album>,
    pub artists: Vec<Artist>,
}

/// Where the bytes of a playable track come from: a local path or URL, or an
/// in-memory buffer.
pub enum AudioStream {
    Url(String),
    Bytes(Vec<u8>),
}

} // verus!
