//! The configuration of a track to be written and of a file to be written.
use crate::media::{AacConfig, AvcConfig, HevcConfig, MediaConfig, TrackType, TtxtConfig};
use crate::types::{FourCC, Vp9Config};
use vstd::prelude::*;

verus! {

/// The configuration of a track: its kind, timescale, language and media.
#[derive(Debug, Clone, PartialEq, Eq)]
pub struct TrackConfig {
    pub track_type: TrackType,
    pub timescale: u32,
    pub language: String,
    pub media_conf: MediaConfig,
}

/// The kind of track that a media configuration calls for.
pub open spec fn media_track_type(m: MediaConfig) -> TrackType {
    match m {
        MediaConfig::AvcConfig(_) => TrackType::Video,
        MediaConfig::HevcConfig(_) => TrackType::Video,
        MediaConfig::Vp9Config(_) => TrackType::Video,
        MediaConfig::AacConfig(_) => TrackType::Audio,
        MediaConfig::TtxtConfig(_) => TrackType::Subtitle,
    }
}

impl TrackConfig {
    /// The track of a media configuration: of the kind the media calls for,
    /// with a timescale of 1000 and an undetermined language.
    pub fn from_media_config(media_conf: MediaConfig) -> (c: TrackConfig)
        ensures
            c.track_type == media_track_type(media_conf),
            c.timescale == 1000,
            c.language@ == "und"@,
            c.media_conf == media_conf,
    {
        let track_type = match &media_conf {
            MediaConfig::AvcConfig(_) => TrackType::Video,
            MediaConfig::HevcConfig(_) => TrackType::Video,
            MediaConfig::Vp9Config(_) => TrackType::Video,
            MediaConfig::AacConfig(_) => TrackType::Audio,
            MediaConfig::TtxtConfig(_) => TrackType::Subtitle,
        };
        TrackConfig { track_type, timescale: 1000, language: String::from_str("und"), media_conf }
    }

    /// The track of an H.264 configuration.
    pub fn from_avc_config(c: AvcConfig) -> (t: TrackConfig)
        ensures
            t.track_type == TrackType::Video,
            t.timescale == 1000,
            t.language@ == "und"@,
            t.media_conf == MediaConfig::AvcConfig(c),
    {
        TrackConfig::from_media_config(MediaConfig::AvcConfig(c))
    }

    /// The track of an H.265 configuration.
    pub fn from_hevc_config(c: HevcConfig) -> (t: TrackConfig)
        ensures
            t.track_type == TrackType::Video,
            t.timescale == 1000,
            t.language@ == "und"@,
            t.media_conf == MediaConfig::HevcConfig(c),
    {
        TrackConfig::from_media_config(MediaConfig::HevcConfig(c))
    }

    /// The track of an AAC configuration.
    pub fn from_aac_config(c: AacConfig) -> (t: TrackConfig)
        ensures
            t.track_type == TrackType::Audio,
            t.timescale == 1000,
            t.language@ == "und"@,
            t.media_conf == MediaConfig::AacConfig(c),
    {
        TrackConfig::from_media_config(MediaConfig::AacConfig(c))
    }

    /// The track of a timed text configuration.
    pub fn from_ttxt_config(c: TtxtConfig) -> (t: TrackConfig)
        ensures
            t.track_type == TrackType::Subtitle,
            t.timescale == 1000,
            t.language@ == "und"@,
            t.media_conf == MediaConfig::TtxtConfig(c),
    {
        TrackConfig::from_media_config(MediaConfig::TtxtConfig(c))
    }

    /// The track of a VP9 configuration.
    pub fn from_vp9_config(c: Vp9Config) -> (t: TrackConfig)
        ensures
            t.track_type == TrackType::Video,
            t.timescale == 1000,
            t.language@ == "und"@,
            t.media_conf == MediaConfig::Vp9Config(c),
    {
        TrackConfig::from_media_config(MediaConfig::Vp9Config(c))
    }
}

/// The configuration of a file to be written: its brands and timescale.
#[derive(Debug, Clone, PartialEq, Eq)]
pub struct Mp4Config {
    pub major_brand: FourCC,
    pub minor_version: u32,
    pub compatible_brands: Vec<FourCC>,
    pub timescale: u32,
}

} // verus!
