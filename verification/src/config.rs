//! Application configuration records: sources, the audio engine, and the
//! presence/scrobbling integrations, with their documented defaults.

use vstd::prelude::*;

verus! {

#[derive(Debug, Clone)]
pub struct LastFmSessionConfig {
    pub username: String,
    pub session_key: String,
    pub enabled: bool,
}

#[derive(Debug, Clone)]
pub struct DiscordRpcConfig {
    pub enabled: bool,
    pub show_details: bool,
    pub show_state: bool,
    pub show_time: bool,
    pub details_format: String,
    pub state_format: String,
    pub activity_on_pause: bool,
    pub show_artist_icon: bool,
}

#[derive(Debug, Clone)]
pub struct MpvConfig {
    pub cache_mb: Option<u32>,
    pub hardware_decoding: bool,
    pub audio_device: Option<String>,
}

#[derive(Debug, Clone)]
pub enum AudioBackend {
    Mpv(MpvConfig),
}

/// One configured library source; remote credentials are carried as plain
/// strings and expiry times as Unix seconds.
#[derive(Debug, Clone)]
pub enum SourceConfig {
    Local { id: String, name: String, path: String, enabled: bool },
    Subsonic {
        id: String,
        name: String,
        url: String,
        username: String,
        token: String,
        salt: String,
        enabled: bool,
    },
    Tidal {
        id: String,
        name: String,
        token: String,
        refresh_token: String,
        token_expiry: i64,
        enabled: bool,
    },
}

#[derive(Debug, Clone)]
pub struct AppConfig {
    pub theme: String,
    pub audio_output_device: Option<String>,
    pub sources: Vec<SourceConfig>,
    pub audio_engine: AudioBackend,
    pub lastfm_session: Option<LastFmSessionConfig>,
    pub discord_rpc: Option<DiscordRpcConfig>,
}

/// The default for the boolean presence switches: on.
pub fn default_true() -> (r: bool)
    ensures
        r == true,
{
    true
}

/// The default presence details line: the track title.
pub fn default_details_format() -> (r: String)
    ensures
        r@ == "{track}"@,
{
    String::from_str("{track}")
}

/// The default presence state line: the artist name.
pub fn default_state_format() -> (r: String)
    ensures
        r@ == "{artist}"@,
{
    String::from_str("{artist}")
}

impl Default for MpvConfig {
    fn default() -> (r: MpvConfig)
        ensures
            r.cache_mb is None,
            r.hardware_decoding == false,
            r.audio_device is None,
    {
        MpvConfig { cache_mb: None, hardware_decoding: false, audio_device: None }
    }
}

impl Default for AudioBackend {
    fn default() -> (r: AudioBackend)
        ensures
            r matches AudioBackend::Mpv(m) && m.cache_mb is None && m.hardware_decoding == false
                && m.audio_device is None,
    {
        AudioBackend::Mpv(MpvConfig { cache_mb: None, hardware_decoding: false, audio_device: None })
    }
}

impl Default for DiscordRpcConfig {
    fn default() -> (r: DiscordRpcConfig)
        ensures
            r.enabled && r.show_details && r.show_state && r.show_time && r.activity_on_pause
                && r.show_artist_icon,
            r.details_format@ == "{track}"@,
            r.state_format@ == "{artist}"@,
    {
        DiscordRpcConfig {
            enabled: true,
            show_details: true,
            show_state: true,
            show_time: true,
            details_format: default_details_format(),
            state_format: default_state_format(),
            activity_on_pause: true,
            show_artist_icon: true,
        }
    }
}

impl Default for AppConfig {
    fn default() -> (r: AppConfig)
        ensures
            r.theme@ == "default"@,
            r.audio_output_device is None,
            r.sources@.len() == 0,
            r.lastfm_session is None,
            r.discord_rpc is Some,
    {
        AppConfig {
            theme: String::from_str("default"),
            audio_output_device: None,
            sources: Vec::new(),
            audio_engine: AudioBackend::Mpv(
                MpvConfig { cache_mb: None, hardware_decoding: false, audio_device: None },
            ),
            lastfm_session: None,
            discord_rpc: Some(
                DiscordRpcConfig {
                    enabled: true,
                    show_details: true,
                    show_state: true,
                    show_time: true,
                    details_format: default_details_format(),
                    state_format: default_state_format(),
                    activity_on_pause: true,
                    show_artist_icon: true,
                },
            ),
        }
    }
}

} // verus!
