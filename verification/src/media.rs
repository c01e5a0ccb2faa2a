//! Track and media kinds, codec profiles and track configurations.
use crate::error::{Error, Result};
use crate::types::{FourCC, Vp9Config};
use vstd::prelude::*;
use vstd::string::StringSliceAdditionalSpecFns;

verus! {

/// Whether the bytes of `a` are those of `b`.
fn bytes_eq(a: &[u8], b: &[u8]) -> (r: bool)
    ensures
        r == (a@ == b@),
{
    if a.len() != b.len() {
        return false;
    }
    let mut i: usize = 0;
    while i < a.len()
        invariant
            0 <= i <= a@.len(),
            a@.len() == b@.len(),
            a@.take(i as int) == b@.take(i as int),
        decreases a@.len() - i,
    {
        if a[i] != b[i] {
            assert(a@[i as int] != b@[i as int]);
            return false;
        }
        assert(a@.take(i + 1) =~= a@.take(i as int).push(a@[i as int]));
        assert(b@.take(i + 1) =~= b@.take(i as int).push(b@[i as int]));
        i = i + 1;
    }
    assert(a@ =~= a@.take(a@.len() as int));
    assert(b@ =~= b@.take(b@.len() as int));
    true
}

/// The kind of a track, as its handler names it.
#[derive(Debug, Clone, Copy, PartialEq, Eq, Structural)]
pub enum TrackType {
    Video,
    Audio,
    Subtitle,
}

/// The handler code of each track type: `vide`, `soun` and `sbtl`.
pub open spec fn handler_fourcc(t: TrackType) -> FourCC {
    match t {
        TrackType::Video => FourCC { value: [118u8, 105u8, 100u8, 101u8] },
        TrackType::Audio => FourCC { value: [115u8, 111u8, 117u8, 110u8] },
        TrackType::Subtitle => FourCC { value: [115u8, 98u8, 116u8, 108u8] },
    }
}

/// The bytes of the handler code of each track type.
pub open spec fn handler_code(t: TrackType) -> Seq<u8> {
    handler_fourcc(t).value@
}

/// The track type whose handler code is `b`.
pub open spec fn track_type_of(b: Seq<u8>) -> Result<TrackType> {
    if b == handler_code(TrackType::Video) {
        Ok(TrackType::Video)
    } else if b == handler_code(TrackType::Audio) {
        Ok(TrackType::Audio)
    } else if b == handler_code(TrackType::Subtitle) {
        Ok(TrackType::Subtitle)
    } else {
        Err(Error::InvalidData("unsupported handler type"))
    }
}

/// The name under which each track type is shown.
pub open spec fn track_type_name(t: TrackType) -> &'static str {
    match t {
        TrackType::Video => "Video",
        TrackType::Audio => "Audio",
        TrackType::Subtitle => "Subtitle",
    }
}

impl TrackType {
    /// The track type of a handler given as text.
    pub fn try_from_str(handler: &str) -> (res: Result<TrackType>)
        ensures
            res == track_type_of(handler.spec_bytes()),
    {
        let b = handler.as_bytes();
        if bytes_eq(b, &[118u8, 105u8, 100u8, 101u8]) {
            Ok(TrackType::Video)
        } else if bytes_eq(b, &[115u8, 111u8, 117u8, 110u8]) {
            Ok(TrackType::Audio)
        } else if bytes_eq(b, &[115u8, 98u8, 116u8, 108u8]) {
            Ok(TrackType::Subtitle)
        } else {
            Err(Error::InvalidData("unsupported handler type"))
        }
    }

    /// The track type of a handler given as a four-character code.
    pub fn try_from_fourcc(fourcc: &FourCC) -> (res: Result<TrackType>)
        ensures
            res == track_type_of(fourcc.value@),
    {
        let b: &[u8] = &fourcc.value;
        if bytes_eq(b, &[118u8, 105u8, 100u8, 101u8]) {
            Ok(TrackType::Video)
        } else if bytes_eq(b, &[115u8, 111u8, 117u8, 110u8]) {
            Ok(TrackType::Audio)
        } else if bytes_eq(b, &[115u8, 98u8, 116u8, 108u8]) {
            Ok(TrackType::Subtitle)
        } else {
            Err(Error::InvalidData("unsupported handler type"))
        }
    }

    /// The handler code of the track type.
    pub fn to_fourcc(self) -> (f: FourCC)
        ensures
            f == handler_fourcc(self),
    {
        match self {
            TrackType::Video => FourCC { value: [118u8, 105u8, 100u8, 101u8] },
            TrackType::Audio => FourCC { value: [115u8, 111u8, 117u8, 110u8] },
            TrackType::Subtitle => FourCC { value: [115u8, 98u8, 116u8, 108u8] },
        }
    }

    /// The name under which the track type is shown.
    pub fn as_str(&self) -> (s: &'static str)
        ensures
            s == track_type_name(*self),
    {
        match self {
            TrackType::Video => "Video",
            TrackType::Audio => "Audio",
            TrackType::Subtitle => "Subtitle",
        }
    }
}

impl<'a> TryFrom<&'a str> for TrackType {
    type Error = Error;

    fn try_from(handler: &'a str) -> (res: Result<TrackType>) {
        TrackType::try_from_str(handler)
    }
}

impl<'a> vstd::std_specs::convert::TryFromSpecImpl<&'a str> for TrackType {
    open spec fn obeys_try_from_spec() -> bool {
        true
    }

    open spec fn try_from_spec(handler: &'a str) -> Result<TrackType> {
        track_type_of(handler.spec_bytes())
    }
}

impl<'a> TryFrom<&'a FourCC> for TrackType {
    type Error = Error;

    fn try_from(fourcc: &'a FourCC) -> (res: Result<TrackType>) {
        TrackType::try_from_fourcc(fourcc)
    }
}

impl<'a> vstd::std_specs::convert::TryFromSpecImpl<&'a FourCC> for TrackType {
    open spec fn obeys_try_from_spec() -> bool {
        true
    }

    open spec fn try_from_spec(fourcc: &'a FourCC) -> Result<TrackType> {
        track_type_of(fourcc.value@)
    }
}

impl From<TrackType> for FourCC {
    fn from(t: TrackType) -> (f: FourCC) {
        t.to_fourcc()
    }
}

impl vstd::std_specs::convert::FromSpecImpl<TrackType> for FourCC {
    open spec fn obeys_from_spec() -> bool {
        true
    }

    open spec fn from_spec(t: TrackType) -> FourCC {
        handler_fourcc(t)
    }
}

/// The handler code of a track type gives that track type back.
#[verifier::spinoff_prover]
pub proof fn lemma_track_type_roundtrip(t: TrackType)
    ensures
        track_type_of(handler_code(t)) == Ok::<TrackType, Error>(t),
{
    assert(handler_code(TrackType::Audio) != handler_code(TrackType::Video)) by {
        assert(handler_code(TrackType::Audio)[0] != handler_code(TrackType::Video)[0]);
    }
    assert(handler_code(TrackType::Subtitle) != handler_code(TrackType::Video)) by {
        assert(handler_code(TrackType::Subtitle)[0] != handler_code(TrackType::Video)[0]);
    }
    assert(handler_code(TrackType::Subtitle) != handler_code(TrackType::Audio)) by {
        assert(handler_code(TrackType::Subtitle)[1] != handler_code(TrackType::Audio)[1]);
    }
}

/// The kind of media a track carries.
#[derive(Debug, Clone, Copy, PartialEq, Eq, Structural)]
pub enum MediaType {
    H264,
    H265,
    VP9,
    AAC,
    TTXT,
}

/// The name of each media type, as bytes.
pub open spec fn media_type_code(t: MediaType) -> Seq<u8> {
    match t {
        MediaType::H264 => seq![104u8, 50u8, 54u8, 52u8],
        MediaType::H265 => seq![104u8, 50u8, 54u8, 53u8],
        MediaType::VP9 => seq![118u8, 112u8, 57u8],
        MediaType::AAC => seq![97u8, 97u8, 99u8],
        MediaType::TTXT => seq![116u8, 116u8, 120u8, 116u8],
    }
}

/// The name of each media type.
pub open spec fn media_type_name(t: MediaType) -> &'static str {
    match t {
        MediaType::H264 => "h264",
        MediaType::H265 => "h265",
        MediaType::VP9 => "vp9",
        MediaType::AAC => "aac",
        MediaType::TTXT => "ttxt",
    }
}

/// The media type whose name is `b`.
pub open spec fn media_type_of(b: Seq<u8>) -> Result<MediaType> {
    if b == media_type_code(MediaType::H264) {
        Ok(MediaType::H264)
    } else if b == media_type_code(MediaType::H265) {
        Ok(MediaType::H265)
    } else if b == media_type_code(MediaType::VP9) {
        Ok(MediaType::VP9)
    } else if b == media_type_code(MediaType::AAC) {
        Ok(MediaType::AAC)
    } else if b == media_type_code(MediaType::TTXT) {
        Ok(MediaType::TTXT)
    } else {
        Err(Error::InvalidData("unsupported media type"))
    }
}

impl MediaType {
    /// The media type named by `media`.
    pub fn try_from_str(media: &str) -> (res: Result<MediaType>)
        ensures
            res == media_type_of(media.spec_bytes()),
    {
        let b = media.as_bytes();
        if bytes_eq(b, &[104u8, 50u8, 54u8, 52u8]) {
            Ok(MediaType::H264)
        } else if bytes_eq(b, &[104u8, 50u8, 54u8, 53u8]) {
            Ok(MediaType::H265)
        } else if bytes_eq(b, &[118u8, 112u8, 57u8]) {
            Ok(MediaType::VP9)
        } else if bytes_eq(b, &[97u8, 97u8, 99u8]) {
            Ok(MediaType::AAC)
        } else if bytes_eq(b, &[116u8, 116u8, 120u8, 116u8]) {
            Ok(MediaType::TTXT)
        } else {
            Err(Error::InvalidData("unsupported media type"))
        }
    }

    /// The name of the media type.
    pub fn as_str(&self) -> (s: &'static str)
        ensures
            s == media_type_name(*self),
    {
        match self {
            MediaType::H264 => "h264",
            MediaType::H265 => "h265",
            MediaType::VP9 => "vp9",
            MediaType::AAC => "aac",
            MediaType::TTXT => "ttxt",
        }
    }
}

impl<'a> TryFrom<&'a str> for MediaType {
    type Error = Error;

    fn try_from(media: &'a str) -> (res: Result<MediaType>) {
        MediaType::try_from_str(media)
    }
}

impl<'a> vstd::std_specs::convert::TryFromSpecImpl<&'a str> for MediaType {
    open spec fn obeys_try_from_spec() -> bool {
        true
    }

    open spec fn try_from_spec(media: &'a str) -> Result<MediaType> {
        media_type_of(media.spec_bytes())
    }
}

impl From<MediaType> for &'static str {
    fn from(t: MediaType) -> (s: &'static str) {
        t.as_str()
    }
}

impl vstd::std_specs::convert::FromSpecImpl<MediaType> for &'static str {
    open spec fn obeys_from_spec() -> bool {
        true
    }

    open spec fn from_spec(t: MediaType) -> &'static str {
        media_type_name(t)
    }
}

/// The name of a media type gives that media type back.
#[verifier::spinoff_prover]
pub proof fn lemma_media_type_roundtrip(t: MediaType)
    ensures
        media_type_of(media_type_code(t)) == Ok::<MediaType, Error>(t),
{
    let c = |m: MediaType| media_type_code(m);
    assert(c(MediaType::H265)[3] != c(MediaType::H264)[3]);
    assert(c(MediaType::VP9).len() != c(MediaType::H264).len());
    assert(c(MediaType::VP9).len() != c(MediaType::H265).len());
    assert(c(MediaType::AAC).len() != c(MediaType::H264).len());
    assert(c(MediaType::AAC).len() != c(MediaType::H265).len());
    assert(c(MediaType::AAC)[0] != c(MediaType::VP9)[0]);
    assert(c(MediaType::TTXT)[0] != c(MediaType::H264)[0]);
    assert(c(MediaType::TTXT)[0] != c(MediaType::H265)[0]);
    assert(c(MediaType::TTXT).len() != c(MediaType::VP9).len());
    assert(c(MediaType::TTXT).len() != c(MediaType::AAC).len());
}

/// An H.264 profile.
#[derive(Debug, Clone, Copy, PartialEq, Eq, Structural)]
pub enum AvcProfile {
    AvcConstrainedBaseline,
    AvcBaseline,
    AvcMain,
    AvcExtended,
    AvcHigh,
}

/// The profile named by a profile number and the byte of constraint flags
/// that follows it. The constraint flag is taken as `(flags & 0x40) >> 7`,
/// which is always 0, so profile 66 always reads as the plain baseline.
pub open spec fn avc_profile_of(profile: u8, flags: u8) -> Result<AvcProfile> {
    let constraint_set1_flag = (flags & 0x40u8) >> 7u8;
    if profile == 66 && constraint_set1_flag == 1 {
        Ok(AvcProfile::AvcConstrainedBaseline)
    } else if profile == 66 && constraint_set1_flag == 0 {
        Ok(AvcProfile::AvcBaseline)
    } else if profile == 77 {
        Ok(AvcProfile::AvcMain)
    } else if profile == 88 {
        Ok(AvcProfile::AvcExtended)
    } else if profile == 100 {
        Ok(AvcProfile::AvcHigh)
    } else {
        Err(Error::InvalidData("unsupported avc profile"))
    }
}

/// The name of each profile.
pub open spec fn avc_profile_name(p: AvcProfile) -> &'static str {
    match p {
        AvcProfile::AvcConstrainedBaseline => "Constrained Baseline",
        AvcProfile::AvcBaseline => "Baseline",
        AvcProfile::AvcMain => "Main",
        AvcProfile::AvcExtended => "Extended",
        AvcProfile::AvcHigh => "High",
    }
}

impl AvcProfile {
    /// The profile of a profile number and constraint flags.
    pub fn try_from_pair(value: (u8, u8)) -> (res: Result<AvcProfile>)
        ensures
            res == avc_profile_of(value.0, value.1),
    {
        let profile = value.0;
        let constraint_set1_flag = (value.1 & 0x40) >> 7;
        if profile == 66 && constraint_set1_flag == 1 {
            Ok(AvcProfile::AvcConstrainedBaseline)
        } else if profile == 66 && constraint_set1_flag == 0 {
            Ok(AvcProfile::AvcBaseline)
        } else if profile == 77 {
            Ok(AvcProfile::AvcMain)
        } else if profile == 88 {
            Ok(AvcProfile::AvcExtended)
        } else if profile == 100 {
            Ok(AvcProfile::AvcHigh)
        } else {
            Err(Error::InvalidData("unsupported avc profile"))
        }
    }

    /// The name of the profile.
    pub fn as_str(&self) -> (s: &'static str)
        ensures
            s == avc_profile_name(*self),
    {
        match self {
            AvcProfile::AvcConstrainedBaseline => "Constrained Baseline",
            AvcProfile::AvcBaseline => "Baseline",
            AvcProfile::AvcMain => "Main",
            AvcProfile::AvcExtended => "Extended",
            AvcProfile::AvcHigh => "High",
        }
    }
}

impl TryFrom<(u8, u8)> for AvcProfile {
    type Error = Error;

    fn try_from(value: (u8, u8)) -> (res: Result<AvcProfile>) {
        AvcProfile::try_from_pair(value)
    }
}

impl vstd::std_specs::convert::TryFromSpecImpl<(u8, u8)> for AvcProfile {
    open spec fn obeys_try_from_spec() -> bool {
        true
    }

    open spec fn try_from_spec(value: (u8, u8)) -> Result<AvcProfile> {
        avc_profile_of(value.0, value.1)
    }
}

/// Profile 66 reads as the plain baseline whatever the constraint flags.
#[verifier::spinoff_prover]
pub proof fn lemma_avc_profile_baseline(flags: u8)
    ensures
        avc_profile_of(66, flags) == Ok::<AvcProfile, Error>(AvcProfile::AvcBaseline),
{
    assert((flags & 0x40u8) >> 7u8 == 0) by (bit_vector);
}

/// An MPEG-4 audio object type.
#[derive(Debug, Clone, Copy, PartialEq, Eq, Structural)]
pub enum AudioObjectType {
    AacMain,
    AacLowComplexity,
    AacScalableSampleRate,
    AacLongTermPrediction,
    SpectralBandReplication,
    AACScalable,
    TwinVQ,
    CodeExcitedLinearPrediction,
    HarmonicVectorExcitationCoding,
    TextToSpeechtInterface,
    MainSynthetic,
    WavetableSynthesis,
    GeneralMIDI,
    AlgorithmicSynthesis,
    ErrorResilientAacLowComplexity,
    ErrorResilientAacLongTermPrediction,
    ErrorResilientAacScalable,
    ErrorResilientAacTwinVQ,
    ErrorResilientAacBitSlicedArithmeticCoding,
    ErrorResilientAacLowDelay,
    ErrorResilientCodeExcitedLinearPrediction,
    ErrorResilientHarmonicVectorExcitationCoding,
    ErrorResilientHarmonicIndividualLinesNoise,
    ErrorResilientParametric,
    SinuSoidalCoding,
    ParametricStereo,
    MpegSurround,
    MpegLayer1,
    MpegLayer2,
    MpegLayer3,
    DirectStreamTransfer,
    AudioLosslessCoding,
    ScalableLosslessCoding,
    ScalableLosslessCodingNoneCore,
    ErrorResilientAacEnhancedLowDelay,
    SymbolicMusicRepresentationSimple,
    SymbolicMusicRepresentationMain,
    UnifiedSpeechAudioCoding,
    SpatialAudioObjectCoding,
    LowDelayMpegSurround,
    SpatialAudioObjectCodingDialogueEnhancement,
    AudioSync,
}

/// The number of each audio object type.
pub open spec fn audio_object_type_code(t: AudioObjectType) -> u8 {
    match t {
        AudioObjectType::AacMain => 1,
        AudioObjectType::AacLowComplexity => 2,
        AudioObjectType::AacScalableSampleRate => 3,
        AudioObjectType::AacLongTermPrediction => 4,
        AudioObjectType::SpectralBandReplication => 5,
        AudioObjectType::AACScalable => 6,
        AudioObjectType::TwinVQ => 7,
        AudioObjectType::CodeExcitedLinearPrediction => 8,
        AudioObjectType::HarmonicVectorExcitationCoding => 9,
        AudioObjectType::TextToSpeechtInterface => 12,
        AudioObjectType::MainSynthetic => 13,
        AudioObjectType::WavetableSynthesis => 14,
        AudioObjectType::GeneralMIDI => 15,
        AudioObjectType::AlgorithmicSynthesis => 16,
        AudioObjectType::ErrorResilientAacLowComplexity => 17,
        AudioObjectType::ErrorResilientAacLongTermPrediction => 19,
        AudioObjectType::ErrorResilientAacScalable => 20,
        AudioObjectType::ErrorResilientAacTwinVQ => 21,
        AudioObjectType::ErrorResilientAacBitSlicedArithmeticCoding => 22,
        AudioObjectType::ErrorResilientAacLowDelay => 23,
        AudioObjectType::ErrorResilientCodeExcitedLinearPrediction => 24,
        AudioObjectType::ErrorResilientHarmonicVectorExcitationCoding => 25,
        AudioObjectType::ErrorResilientHarmonicIndividualLinesNoise => 26,
        AudioObjectType::ErrorResilientParametric => 27,
        AudioObjectType::SinuSoidalCoding => 28,
        AudioObjectType::ParametricStereo => 29,
        AudioObjectType::MpegSurround => 30,
        AudioObjectType::MpegLayer1 => 32,
        AudioObjectType::MpegLayer2 => 33,
        AudioObjectType::MpegLayer3 => 34,
        AudioObjectType::DirectStreamTransfer => 35,
        AudioObjectType::AudioLosslessCoding => 36,
        AudioObjectType::ScalableLosslessCoding => 37,
        AudioObjectType::ScalableLosslessCodingNoneCore => 38,
        AudioObjectType::ErrorResilientAacEnhancedLowDelay => 39,
        AudioObjectType::SymbolicMusicRepresentationSimple => 40,
        AudioObjectType::SymbolicMusicRepresentationMain => 41,
        AudioObjectType::UnifiedSpeechAudioCoding => 42,
        AudioObjectType::SpatialAudioObjectCoding => 43,
        AudioObjectType::LowDelayMpegSurround => 44,
        AudioObjectType::SpatialAudioObjectCodingDialogueEnhancement => 45,
        AudioObjectType::AudioSync => 46,
    }
}

/// The audio object type numbered `v`.
pub open spec fn audio_object_type_of(v: u8) -> Result<AudioObjectType> {
    match v {
        1 => Ok(AudioObjectType::AacMain),
        2 => Ok(AudioObjectType::AacLowComplexity),
        3 => Ok(AudioObjectType::AacScalableSampleRate),
        4 => Ok(AudioObjectType::AacLongTermPrediction),
        5 => Ok(AudioObjectType::SpectralBandReplication),
        6 => Ok(AudioObjectType::AACScalable),
        7 => Ok(AudioObjectType::TwinVQ),
        8 => Ok(AudioObjectType::CodeExcitedLinearPrediction),
        9 => Ok(AudioObjectType::HarmonicVectorExcitationCoding),
        12 => Ok(AudioObjectType::TextToSpeechtInterface),
        13 => Ok(AudioObjectType::MainSynthetic),
        14 => Ok(AudioObjectType::WavetableSynthesis),
        15 => Ok(AudioObjectType::GeneralMIDI),
        16 => Ok(AudioObjectType::AlgorithmicSynthesis),
        17 => Ok(AudioObjectType::ErrorResilientAacLowComplexity),
        19 => Ok(AudioObjectType::ErrorResilientAacLongTermPrediction),
        20 => Ok(AudioObjectType::ErrorResilientAacScalable),
        21 => Ok(AudioObjectType::ErrorResilientAacTwinVQ),
        22 => Ok(AudioObjectType::ErrorResilientAacBitSlicedArithmeticCoding),
        23 => Ok(AudioObjectType::ErrorResilientAacLowDelay),
        24 => Ok(AudioObjectType::ErrorResilientCodeExcitedLinearPrediction),
        25 => Ok(AudioObjectType::ErrorResilientHarmonicVectorExcitationCoding),
        26 => Ok(AudioObjectType::ErrorResilientHarmonicIndividualLinesNoise),
        27 => Ok(AudioObjectType::ErrorResilientParametric),
        28 => Ok(AudioObjectType::SinuSoidalCoding),
        29 => Ok(AudioObjectType::ParametricStereo),
        30 => Ok(AudioObjectType::MpegSurround),
        32 => Ok(AudioObjectType::MpegLayer1),
        33 => Ok(AudioObjectType::MpegLayer2),
        34 => Ok(AudioObjectType::MpegLayer3),
        35 => Ok(AudioObjectType::DirectStreamTransfer),
        36 => Ok(AudioObjectType::AudioLosslessCoding),
        37 => Ok(AudioObjectType::ScalableLosslessCoding),
        38 => Ok(AudioObjectType::ScalableLosslessCodingNoneCore),
        39 => Ok(AudioObjectType::ErrorResilientAacEnhancedLowDelay),
        40 => Ok(AudioObjectType::SymbolicMusicRepresentationSimple),
        41 => Ok(AudioObjectType::SymbolicMusicRepresentationMain),
        42 => Ok(AudioObjectType::UnifiedSpeechAudioCoding),
        43 => Ok(AudioObjectType::SpatialAudioObjectCoding),
        44 => Ok(AudioObjectType::LowDelayMpegSurround),
        45 => Ok(AudioObjectType::SpatialAudioObjectCodingDialogueEnhancement),
        46 => Ok(AudioObjectType::AudioSync),
        _ => Err(Error::InvalidData("invalid audio object type")),
    }
}

/// The name of each audio object type.
pub open spec fn audio_object_type_name(t: AudioObjectType) -> &'static str {
    match t {
        AudioObjectType::AacMain => "AAC Main",
        AudioObjectType::AacLowComplexity => "LC",
        AudioObjectType::AacScalableSampleRate => "SSR",
        AudioObjectType::AacLongTermPrediction => "LTP",
        AudioObjectType::SpectralBandReplication => "SBR",
        AudioObjectType::AACScalable => "Scalable",
        AudioObjectType::TwinVQ => "TwinVQ",
        AudioObjectType::CodeExcitedLinearPrediction => "CELP",
        AudioObjectType::HarmonicVectorExcitationCoding => "HVXC",
        AudioObjectType::TextToSpeechtInterface => "TTSI",
        AudioObjectType::MainSynthetic => "Main Synthetic",
        AudioObjectType::WavetableSynthesis => "Wavetable Synthesis",
        AudioObjectType::GeneralMIDI => "General MIDI",
        AudioObjectType::AlgorithmicSynthesis => "Algorithmic Synthesis",
        AudioObjectType::ErrorResilientAacLowComplexity => "ER AAC LC",
        AudioObjectType::ErrorResilientAacLongTermPrediction => "ER AAC LTP",
        AudioObjectType::ErrorResilientAacScalable => "ER AAC scalable",
        AudioObjectType::ErrorResilientAacTwinVQ => "ER AAC TwinVQ",
        AudioObjectType::ErrorResilientAacBitSlicedArithmeticCoding => "ER AAC BSAC",
        AudioObjectType::ErrorResilientAacLowDelay => "ER AAC LD",
        AudioObjectType::ErrorResilientCodeExcitedLinearPrediction => "ER CELP",
        AudioObjectType::ErrorResilientHarmonicVectorExcitationCoding => "ER HVXC",
        AudioObjectType::ErrorResilientHarmonicIndividualLinesNoise => "ER HILN",
        AudioObjectType::ErrorResilientParametric => "ER Parametric",
        AudioObjectType::SinuSoidalCoding => "SSC",
        AudioObjectType::ParametricStereo => "Parametric Stereo",
        AudioObjectType::MpegSurround => "MPEG surround",
        AudioObjectType::MpegLayer1 => "MPEG Layer 1",
        AudioObjectType::MpegLayer2 => "MPEG Layer 2",
        AudioObjectType::MpegLayer3 => "MPEG Layer 3",
        AudioObjectType::DirectStreamTransfer => "DST",
        AudioObjectType::AudioLosslessCoding => "ALS",
        AudioObjectType::ScalableLosslessCoding => "SLS",
        AudioObjectType::ScalableLosslessCodingNoneCore => "SLS Non-core",
        AudioObjectType::ErrorResilientAacEnhancedLowDelay => "ER AAC ELD",
        AudioObjectType::SymbolicMusicRepresentationSimple => "SMR Simple",
        AudioObjectType::SymbolicMusicRepresentationMain => "SMR Main",
        AudioObjectType::UnifiedSpeechAudioCoding => "USAC",
        AudioObjectType::SpatialAudioObjectCoding => "SAOC",
        AudioObjectType::LowDelayMpegSurround => "LD MPEG Surround",
        AudioObjectType::SpatialAudioObjectCodingDialogueEnhancement => "SAOC-DE",
        AudioObjectType::AudioSync => "Audio Sync",
    }
}

impl AudioObjectType {
    /// The audio object type numbered `value`.
    pub fn try_from_u8(value: u8) -> (res: Result<AudioObjectType>)
        ensures
            res == audio_object_type_of(value),
    {
        match value {
            1 => Ok(AudioObjectType::AacMain),
            2 => Ok(AudioObjectType::AacLowComplexity),
            3 => Ok(AudioObjectType::AacScalableSampleRate),
            4 => Ok(AudioObjectType::AacLongTermPrediction),
            5 => Ok(AudioObjectType::SpectralBandReplication),
            6 => Ok(AudioObjectType::AACScalable),
            7 => Ok(AudioObjectType::TwinVQ),
            8 => Ok(AudioObjectType::CodeExcitedLinearPrediction),
            9 => Ok(AudioObjectType::HarmonicVectorExcitationCoding),
            12 => Ok(AudioObjectType::TextToSpeechtInterface),
            13 => Ok(AudioObjectType::MainSynthetic),
            14 => Ok(AudioObjectType::WavetableSynthesis),
            15 => Ok(AudioObjectType::GeneralMIDI),
            16 => Ok(AudioObjectType::AlgorithmicSynthesis),
            17 => Ok(AudioObjectType::ErrorResilientAacLowComplexity),
            19 => Ok(AudioObjectType::ErrorResilientAacLongTermPrediction),
            20 => Ok(AudioObjectType::ErrorResilientAacScalable),
            21 => Ok(AudioObjectType::ErrorResilientAacTwinVQ),
            22 => Ok(AudioObjectType::ErrorResilientAacBitSlicedArithmeticCoding),
            23 => Ok(AudioObjectType::ErrorResilientAacLowDelay),
            24 => Ok(AudioObjectType::ErrorResilientCodeExcitedLinearPrediction),
            25 => Ok(AudioObjectType::ErrorResilientHarmonicVectorExcitationCoding),
            26 => Ok(AudioObjectType::ErrorResilientHarmonicIndividualLinesNoise),
            27 => Ok(AudioObjectType::ErrorResilientParametric),
            28 => Ok(AudioObjectType::SinuSoidalCoding),
            29 => Ok(AudioObjectType::ParametricStereo),
            30 => Ok(AudioObjectType::MpegSurround),
            32 => Ok(AudioObjectType::MpegLayer1),
            33 => Ok(AudioObjectType::MpegLayer2),
            34 => Ok(AudioObjectType::MpegLayer3),
            35 => Ok(AudioObjectType::DirectStreamTransfer),
            36 => Ok(AudioObjectType::AudioLosslessCoding),
            37 => Ok(AudioObjectType::ScalableLosslessCoding),
            38 => Ok(AudioObjectType::ScalableLosslessCodingNoneCore),
            39 => Ok(AudioObjectType::ErrorResilientAacEnhancedLowDelay),
            40 => Ok(AudioObjectType::SymbolicMusicRepresentationSimple),
            41 => Ok(AudioObjectType::SymbolicMusicRepresentationMain),
            42 => Ok(AudioObjectType::UnifiedSpeechAudioCoding),
            43 => Ok(AudioObjectType::SpatialAudioObjectCoding),
            44 => Ok(AudioObjectType::LowDelayMpegSurround),
            45 => Ok(AudioObjectType::SpatialAudioObjectCodingDialogueEnhancement),
            46 => Ok(AudioObjectType::AudioSync),
            _ => Err(Error::InvalidData("invalid audio object type")),
        }
    }

    /// The number of the audio object type.
    pub fn code(&self) -> (v: u8)
        ensures
            v == audio_object_type_code(*self),
    {
        match self {
            AudioObjectType::AacMain => 1,
            AudioObjectType::AacLowComplexity => 2,
            AudioObjectType::AacScalableSampleRate => 3,
            AudioObjectType::AacLongTermPrediction => 4,
            AudioObjectType::SpectralBandReplication => 5,
            AudioObjectType::AACScalable => 6,
            AudioObjectType::TwinVQ => 7,
            AudioObjectType::CodeExcitedLinearPrediction => 8,
            AudioObjectType::HarmonicVectorExcitationCoding => 9,
            AudioObjectType::TextToSpeechtInterface => 12,
            AudioObjectType::MainSynthetic => 13,
            AudioObjectType::WavetableSynthesis => 14,
            AudioObjectType::GeneralMIDI => 15,
            AudioObjectType::AlgorithmicSynthesis => 16,
            AudioObjectType::ErrorResilientAacLowComplexity => 17,
            AudioObjectType::ErrorResilientAacLongTermPrediction => 19,
            AudioObjectType::ErrorResilientAacScalable => 20,
            AudioObjectType::ErrorResilientAacTwinVQ => 21,
            AudioObjectType::ErrorResilientAacBitSlicedArithmeticCoding => 22,
            AudioObjectType::ErrorResilientAacLowDelay => 23,
            AudioObjectType::ErrorResilientCodeExcitedLinearPrediction => 24,
            AudioObjectType::ErrorResilientHarmonicVectorExcitationCoding => 25,
            AudioObjectType::ErrorResilientHarmonicIndividualLinesNoise => 26,
            AudioObjectType::ErrorResilientParametric => 27,
            AudioObjectType::SinuSoidalCoding => 28,
            AudioObjectType::ParametricStereo => 29,
            AudioObjectType::MpegSurround => 30,
            AudioObjectType::MpegLayer1 => 32,
            AudioObjectType::MpegLayer2 => 33,
            AudioObjectType::MpegLayer3 => 34,
            AudioObjectType::DirectStreamTransfer => 35,
            AudioObjectType::AudioLosslessCoding => 36,
            AudioObjectType::ScalableLosslessCoding => 37,
            AudioObjectType::ScalableLosslessCodingNoneCore => 38,
            AudioObjectType::ErrorResilientAacEnhancedLowDelay => 39,
            AudioObjectType::SymbolicMusicRepresentationSimple => 40,
            AudioObjectType::SymbolicMusicRepresentationMain => 41,
            AudioObjectType::UnifiedSpeechAudioCoding => 42,
            AudioObjectType::SpatialAudioObjectCoding => 43,
            AudioObjectType::LowDelayMpegSurround => 44,
            AudioObjectType::SpatialAudioObjectCodingDialogueEnhancement => 45,
            AudioObjectType::AudioSync => 46,
        }
    }

    /// The name of the audio object type.
    pub fn as_str(&self) -> (s: &'static str)
        ensures
            s == audio_object_type_name(*self),
    {
        match self {
            AudioObjectType::AacMain => "AAC Main",
            AudioObjectType::AacLowComplexity => "LC",
            AudioObjectType::AacScalableSampleRate => "SSR",
            AudioObjectType::AacLongTermPrediction => "LTP",
            AudioObjectType::SpectralBandReplication => "SBR",
            AudioObjectType::AACScalable => "Scalable",
            AudioObjectType::TwinVQ => "TwinVQ",
            AudioObjectType::CodeExcitedLinearPrediction => "CELP",
            AudioObjectType::HarmonicVectorExcitationCoding => "HVXC",
            AudioObjectType::TextToSpeechtInterface => "TTSI",
            AudioObjectType::MainSynthetic => "Main Synthetic",
            AudioObjectType::WavetableSynthesis => "Wavetable Synthesis",
            AudioObjectType::GeneralMIDI => "General MIDI",
            AudioObjectType::AlgorithmicSynthesis => "Algorithmic Synthesis",
            AudioObjectType::ErrorResilientAacLowComplexity => "ER AAC LC",
            AudioObjectType::ErrorResilientAacLongTermPrediction => "ER AAC LTP",
            AudioObjectType::ErrorResilientAacScalable => "ER AAC scalable",
            AudioObjectType::ErrorResilientAacTwinVQ => "ER AAC TwinVQ",
            AudioObjectType::ErrorResilientAacBitSlicedArithmeticCoding => "ER AAC BSAC",
            AudioObjectType::ErrorResilientAacLowDelay => "ER AAC LD",
            AudioObjectType::ErrorResilientCodeExcitedLinearPrediction => "ER CELP",
            AudioObjectType::ErrorResilientHarmonicVectorExcitationCoding => "ER HVXC",
            AudioObjectType::ErrorResilientHarmonicIndividualLinesNoise => "ER HILN",
            AudioObjectType::ErrorResilientParametric => "ER Parametric",
            AudioObjectType::SinuSoidalCoding => "SSC",
            AudioObjectType::ParametricStereo => "Parametric Stereo",
            AudioObjectType::MpegSurround => "MPEG surround",
            AudioObjectType::MpegLayer1 => "MPEG Layer 1",
            AudioObjectType::MpegLayer2 => "MPEG Layer 2",
            AudioObjectType::MpegLayer3 => "MPEG Layer 3",
            AudioObjectType::DirectStreamTransfer => "DST",
            AudioObjectType::AudioLosslessCoding => "ALS",
            AudioObjectType::ScalableLosslessCoding => "SLS",
            AudioObjectType::ScalableLosslessCodingNoneCore => "SLS Non-core",
            AudioObjectType::ErrorResilientAacEnhancedLowDelay => "ER AAC ELD",
            AudioObjectType::SymbolicMusicRepresentationSimple => "SMR Simple",
            AudioObjectType::SymbolicMusicRepresentationMain => "SMR Main",
            AudioObjectType::UnifiedSpeechAudioCoding => "USAC",
            AudioObjectType::SpatialAudioObjectCoding => "SAOC",
            AudioObjectType::LowDelayMpegSurround => "LD MPEG Surround",
            AudioObjectType::SpatialAudioObjectCodingDialogueEnhancement => "SAOC-DE",
            AudioObjectType::AudioSync => "Audio Sync",
        }
    }
}

impl TryFrom<u8> for AudioObjectType {
    type Error = Error;

    fn try_from(value: u8) -> (res: Result<AudioObjectType>) {
        AudioObjectType::try_from_u8(value)
    }
}

impl vstd::std_specs::convert::TryFromSpecImpl<u8> for AudioObjectType {
    open spec fn obeys_try_from_spec() -> bool {
        true
    }

    open spec fn try_from_spec(value: u8) -> Result<AudioObjectType> {
        audio_object_type_of(value)
    }
}

/// The number of an audio object type gives that type back, and a number
/// that names a type is that type's number.
#[verifier::spinoff_prover]
pub proof fn lemma_audio_object_type_roundtrip(t: AudioObjectType, v: u8)
    ensures
        audio_object_type_of(audio_object_type_code(t)) == Ok::<AudioObjectType, Error>(t),
        audio_object_type_of(v) matches Ok(u) ==> audio_object_type_code(u) == v,
{
}

/// The index of an AAC sampling frequency.
#[derive(Debug, Clone, Copy, PartialEq, Eq, Structural)]
pub enum SampleFreqIndex {
    Freq96000,
    Freq88200,
    Freq64000,
    Freq48000,
    Freq44100,
    Freq32000,
    Freq24000,
    Freq22050,
    Freq16000,
    Freq12000,
    Freq11025,
    Freq8000,
    Freq7350,
}

/// The number of each sampling frequency index.
pub open spec fn sample_freq_index_code(i: SampleFreqIndex) -> u8 {
    match i {
        SampleFreqIndex::Freq96000 => 0,
        SampleFreqIndex::Freq88200 => 1,
        SampleFreqIndex::Freq64000 => 2,
        SampleFreqIndex::Freq48000 => 3,
        SampleFreqIndex::Freq44100 => 4,
        SampleFreqIndex::Freq32000 => 5,
        SampleFreqIndex::Freq24000 => 6,
        SampleFreqIndex::Freq22050 => 7,
        SampleFreqIndex::Freq16000 => 8,
        SampleFreqIndex::Freq12000 => 9,
        SampleFreqIndex::Freq11025 => 10,
        SampleFreqIndex::Freq8000 => 11,
        SampleFreqIndex::Freq7350 => 12,
    }
}

/// The sampling frequency index numbered `v`.
pub open spec fn sample_freq_index_of(v: u8) -> Result<SampleFreqIndex> {
    match v {
        0 => Ok(SampleFreqIndex::Freq96000),
        1 => Ok(SampleFreqIndex::Freq88200),
        2 => Ok(SampleFreqIndex::Freq64000),
        3 => Ok(SampleFreqIndex::Freq48000),
        4 => Ok(SampleFreqIndex::Freq44100),
        5 => Ok(SampleFreqIndex::Freq32000),
        6 => Ok(SampleFreqIndex::Freq24000),
        7 => Ok(SampleFreqIndex::Freq22050),
        8 => Ok(SampleFreqIndex::Freq16000),
        9 => Ok(SampleFreqIndex::Freq12000),
        10 => Ok(SampleFreqIndex::Freq11025),
        11 => Ok(SampleFreqIndex::Freq8000),
        12 => Ok(SampleFreqIndex::Freq7350),
        _ => Err(Error::InvalidData("invalid sampling frequency index")),
    }
}

/// The sampling frequencies of the AAC frequency table, in Hz, by index
/// number: 96 kHz for 0 down to 7350 Hz for 12.
pub open spec fn aac_sampling_frequencies() -> Seq<u32> {
    seq![96000u32, 88200, 64000, 48000, 44100, 32000, 24000, 22050, 16000, 12000, 11025, 8000, 7350]
}

/// The frequency, in Hz, of each index.
pub open spec fn sample_freq(i: SampleFreqIndex) -> u32 {
    match i {
        SampleFreqIndex::Freq96000 => 96000,
        SampleFreqIndex::Freq88200 => 88200,
        SampleFreqIndex::Freq64000 => 64000,
        SampleFreqIndex::Freq48000 => 48000,
        SampleFreqIndex::Freq44100 => 44100,
        SampleFreqIndex::Freq32000 => 32000,
        SampleFreqIndex::Freq24000 => 24000,
        SampleFreqIndex::Freq22050 => 22050,
        SampleFreqIndex::Freq16000 => 16000,
        SampleFreqIndex::Freq12000 => 12000,
        SampleFreqIndex::Freq11025 => 11025,
        SampleFreqIndex::Freq8000 => 8000,
        SampleFreqIndex::Freq7350 => 7350,
    }
}

impl SampleFreqIndex {
    /// The sampling frequency index numbered `value`.
    pub fn try_from_u8(value: u8) -> (res: Result<SampleFreqIndex>)
        ensures
            res == sample_freq_index_of(value),
    {
        match value {
            0 => Ok(SampleFreqIndex::Freq96000),
            1 => Ok(SampleFreqIndex::Freq88200),
            2 => Ok(SampleFreqIndex::Freq64000),
            3 => Ok(SampleFreqIndex::Freq48000),
            4 => Ok(SampleFreqIndex::Freq44100),
            5 => Ok(SampleFreqIndex::Freq32000),
            6 => Ok(SampleFreqIndex::Freq24000),
            7 => Ok(SampleFreqIndex::Freq22050),
            8 => Ok(SampleFreqIndex::Freq16000),
            9 => Ok(SampleFreqIndex::Freq12000),
            10 => Ok(SampleFreqIndex::Freq11025),
            11 => Ok(SampleFreqIndex::Freq8000),
            12 => Ok(SampleFreqIndex::Freq7350),
            _ => Err(Error::InvalidData("invalid sampling frequency index")),
        }
    }

    /// The number of the index.
    pub fn code(&self) -> (v: u8)
        ensures
            v == sample_freq_index_code(*self),
    {
        match self {
            SampleFreqIndex::Freq96000 => 0,
            SampleFreqIndex::Freq88200 => 1,
            SampleFreqIndex::Freq64000 => 2,
            SampleFreqIndex::Freq48000 => 3,
            SampleFreqIndex::Freq44100 => 4,
            SampleFreqIndex::Freq32000 => 5,
            SampleFreqIndex::Freq24000 => 6,
            SampleFreqIndex::Freq22050 => 7,
            SampleFreqIndex::Freq16000 => 8,
            SampleFreqIndex::Freq12000 => 9,
            SampleFreqIndex::Freq11025 => 10,
            SampleFreqIndex::Freq8000 => 11,
            SampleFreqIndex::Freq7350 => 12,
        }
    }

    /// The frequency, in Hz, that the index stands for.
    pub fn freq(&self) -> (f: u32)
        ensures
            f == sample_freq(*self),
            f == aac_sampling_frequencies()[sample_freq_index_code(*self) as int],
    {
        match *self {
            SampleFreqIndex::Freq96000 => 96000,
            SampleFreqIndex::Freq88200 => 88200,
            SampleFreqIndex::Freq64000 => 64000,
            SampleFreqIndex::Freq48000 => 48000,
            SampleFreqIndex::Freq44100 => 44100,
            SampleFreqIndex::Freq32000 => 32000,
            SampleFreqIndex::Freq24000 => 24000,
            SampleFreqIndex::Freq22050 => 22050,
            SampleFreqIndex::Freq16000 => 16000,
            SampleFreqIndex::Freq12000 => 12000,
            SampleFreqIndex::Freq11025 => 11025,
            SampleFreqIndex::Freq8000 => 8000,
            SampleFreqIndex::Freq7350 => 7350,
        }
    }
}

impl TryFrom<u8> for SampleFreqIndex {
    type Error = Error;

    fn try_from(value: u8) -> (res: Result<SampleFreqIndex>) {
        SampleFreqIndex::try_from_u8(value)
    }
}

impl vstd::std_specs::convert::TryFromSpecImpl<u8> for SampleFreqIndex {
    open spec fn obeys_try_from_spec() -> bool {
        true
    }

    open spec fn try_from_spec(value: u8) -> Result<SampleFreqIndex> {
        sample_freq_index_of(value)
    }
}

/// The frequency of an index is the entry of the AAC frequency table at the
/// index's number, and frequencies fall strictly as the number rises, so no
/// two indexes share a frequency.
#[verifier::spinoff_prover]
pub proof fn lemma_sample_freq_table(i: SampleFreqIndex, j: SampleFreqIndex)
    ensures
        sample_freq(i) == aac_sampling_frequencies()[sample_freq_index_code(i) as int],
        sample_freq_index_code(i) < sample_freq_index_code(j) ==> sample_freq(i) > sample_freq(j),
        sample_freq(i) == sample_freq(j) ==> i == j,
{
    let t = aac_sampling_frequencies();
    assert(t[0] == 96000 && t[1] == 88200 && t[2] == 64000 && t[3] == 48000 && t[4] == 44100 && t[5] == 32000
        && t[6] == 24000 && t[7] == 22050 && t[8] == 16000 && t[9] == 12000 && t[10] == 11025 && t[11] == 8000
        && t[12] == 7350);
}

/// The number of an index gives that index back, a number that names an
/// index is that index's number, and exactly the numbers below 13 name one.
#[verifier::spinoff_prover]
pub proof fn lemma_sample_freq_index_roundtrip(i: SampleFreqIndex, v: u8)
    ensures
        sample_freq_index_of(sample_freq_index_code(i)) == Ok::<SampleFreqIndex, Error>(i),
        sample_freq_index_of(v) matches Ok(j) ==> sample_freq_index_code(j) == v,
        sample_freq_index_of(v) is Ok <==> v < 13,
{
}

/// An AAC channel configuration.
#[derive(Debug, Clone, Copy, PartialEq, Eq, Structural)]
pub enum ChannelConfig {
    Mono,
    Stereo,
    Three,
    Four,
    Five,
    FiveOne,
    SevenOne,
}

/// The number of each channel configuration.
pub open spec fn channel_config_code(c: ChannelConfig) -> u8 {
    match c {
        ChannelConfig::Mono => 1,
        ChannelConfig::Stereo => 2,
        ChannelConfig::Three => 3,
        ChannelConfig::Four => 4,
        ChannelConfig::Five => 5,
        ChannelConfig::FiveOne => 6,
        ChannelConfig::SevenOne => 7,
    }
}

/// The channel configuration numbered `v`.
pub open spec fn channel_config_of(v: u8) -> Result<ChannelConfig> {
    match v {
        1 => Ok(ChannelConfig::Mono),
        2 => Ok(ChannelConfig::Stereo),
        3 => Ok(ChannelConfig::Three),
        4 => Ok(ChannelConfig::Four),
        5 => Ok(ChannelConfig::Five),
        6 => Ok(ChannelConfig::FiveOne),
        7 => Ok(ChannelConfig::SevenOne),
        _ => Err(Error::InvalidData("invalid channel configuration")),
    }
}

/// The name of each channel configuration.
pub open spec fn channel_config_name(c: ChannelConfig) -> &'static str {
    match c {
        ChannelConfig::Mono => "mono",
        ChannelConfig::Stereo => "stereo",
        ChannelConfig::Three => "three",
        ChannelConfig::Four => "four",
        ChannelConfig::Five => "five",
        ChannelConfig::FiveOne => "five.one",
        ChannelConfig::SevenOne => "seven.one",
    }
}

impl ChannelConfig {
    /// The channel configuration numbered `value`.
    pub fn try_from_u8(value: u8) -> (res: Result<ChannelConfig>)
        ensures
            res == channel_config_of(value),
    {
        match value {
            1 => Ok(ChannelConfig::Mono),
            2 => Ok(ChannelConfig::Stereo),
            3 => Ok(ChannelConfig::Three),
            4 => Ok(ChannelConfig::Four),
            5 => Ok(ChannelConfig::Five),
            6 => Ok(ChannelConfig::FiveOne),
            7 => Ok(ChannelConfig::SevenOne),
            _ => Err(Error::InvalidData("invalid channel configuration")),
        }
    }

    /// The number of the channel configuration.
    pub fn code(&self) -> (v: u8)
        ensures
            v == channel_config_code(*self),
    {
        match self {
            ChannelConfig::Mono => 1,
            ChannelConfig::Stereo => 2,
            ChannelConfig::Three => 3,
            ChannelConfig::Four => 4,
            ChannelConfig::Five => 5,
            ChannelConfig::FiveOne => 6,
            ChannelConfig::SevenOne => 7,
        }
    }

    /// The name of the channel configuration.
    pub fn as_str(&self) -> (s: &'static str)
        ensures
            s == channel_config_name(*self),
    {
        match self {
            ChannelConfig::Mono => "mono",
            ChannelConfig::Stereo => "stereo",
            ChannelConfig::Three => "three",
            ChannelConfig::Four => "four",
            ChannelConfig::Five => "five",
            ChannelConfig::FiveOne => "five.one",
            ChannelConfig::SevenOne => "seven.one",
        }
    }
}

impl TryFrom<u8> for ChannelConfig {
    type Error = Error;

    fn try_from(value: u8) -> (res: Result<ChannelConfig>) {
        ChannelConfig::try_from_u8(value)
    }
}

impl vstd::std_specs::convert::TryFromSpecImpl<u8> for ChannelConfig {
    open spec fn obeys_try_from_spec() -> bool {
        true
    }

    open spec fn try_from_spec(value: u8) -> Result<ChannelConfig> {
        channel_config_of(value)
    }
}

/// The number of a channel configuration gives it back, a number that names
/// one is its number, and exactly the numbers 1 to 7 name one.
#[verifier::spinoff_prover]
pub proof fn lemma_channel_config_roundtrip(c: ChannelConfig, v: u8)
    ensures
        channel_config_of(channel_config_code(c)) == Ok::<ChannelConfig, Error>(c),
        channel_config_of(v) matches Ok(d) ==> channel_config_code(d) == v,
        channel_config_of(v) is Ok <==> 1 <= v <= 7,
{
}

/// The configuration of an H.264 track.
#[derive(Debug, PartialEq, Eq, Clone, Default)]
pub struct AvcConfig {
    pub width: u16,
    pub height: u16,
    pub seq_param_set: Vec<u8>,
    pub pic_param_set: Vec<u8>,
}

/// The configuration of an H.265 track.
#[derive(Debug, PartialEq, Eq, Clone, Copy, Default, Structural)]
pub struct HevcConfig {
    pub width: u16,
    pub height: u16,
}

/// The configuration of an AAC track.
#[derive(Debug, PartialEq, Eq, Clone, Copy, Structural)]
pub struct AacConfig {
    pub bitrate: u32,
    pub profile: AudioObjectType,
    pub freq_index: SampleFreqIndex,
    pub chan_conf: ChannelConfig,
}

impl Default for AacConfig {
    /// No bitrate, low-complexity profile, 48 kHz, stereo.
    fn default() -> (c: Self)
        ensures
            c == (AacConfig {
                bitrate: 0,
                profile: AudioObjectType::AacLowComplexity,
                freq_index: SampleFreqIndex::Freq48000,
                chan_conf: ChannelConfig::Stereo,
            }),
    {
        AacConfig {
            bitrate: 0,
            profile: AudioObjectType::AacLowComplexity,
            freq_index: SampleFreqIndex::Freq48000,
            chan_conf: ChannelConfig::Stereo,
        }
    }
}

/// The configuration of a timed text track, which has no settings.
#[derive(Debug, PartialEq, Eq, Clone, Copy, Default, Structural)]
pub struct TtxtConfig {}

/// The configuration of a track of any supported media.
#[derive(Debug, PartialEq, Eq, Clone)]
pub enum MediaConfig {
    AvcConfig(AvcConfig),
    HevcConfig(HevcConfig),
    Vp9Config(Vp9Config),
    AacConfig(AacConfig),
    TtxtConfig(TtxtConfig),
}

/// The seconds from the MP4 epoch (1904) to the Unix epoch (1970).
pub const MP4_EPOCH_OFFSET: u64 = 2082844800;

/// A time counted from the MP4 epoch, counted from the Unix epoch instead;
/// a time before the Unix epoch is returned as it is.
pub open spec fn unix_time(t: u64) -> u64 {
    if t >= MP4_EPOCH_OFFSET {
        (t - MP4_EPOCH_OFFSET) as u64
    } else {
        t
    }
}

/// Converts a creation time from the MP4 epoch to the Unix epoch.
pub fn creation_time(time: u64) -> (t: u64)
    ensures
        t == unix_time(time),
{
    if time >= MP4_EPOCH_OFFSET {
        time - MP4_EPOCH_OFFSET
    } else {
        time
    }
}

/// The type of the value in a metadata data box.
#[derive(Debug, Clone, Copy, PartialEq, Eq, Structural)]
pub enum DataType {
    Binary,
    Text,
    Image,
    TempoCpil,
}

/// The number of each data type.
pub open spec fn data_type_code(t: DataType) -> u32 {
    match t {
        DataType::Binary => 0x0,
        DataType::Text => 0x1,
        DataType::Image => 0xd,
        DataType::TempoCpil => 0x15,
    }
}

/// The data type numbered `v`.
pub open spec fn data_type_of(v: u32) -> Result<DataType> {
    match v {
        0x0 => Ok(DataType::Binary),
        0x1 => Ok(DataType::Text),
        0xd => Ok(DataType::Image),
        0x15 => Ok(DataType::TempoCpil),
        _ => Err(Error::InvalidData("invalid data type")),
    }
}

impl DataType {
    /// The data type numbered `value`.
    pub fn try_from_u32(value: u32) -> (res: Result<DataType>)
        ensures
            res == data_type_of(value),
            (res == Ok::<DataType, Error>(DataType::Binary)) == (value == 0),
            (res == Ok::<DataType, Error>(DataType::Text)) == (value == 1),
            (res == Ok::<DataType, Error>(DataType::Image)) == (value == 13),
            (res == Ok::<DataType, Error>(DataType::TempoCpil)) == (value == 21),
    {
        match value {
            0x0 => Ok(DataType::Binary),
            0x1 => Ok(DataType::Text),
            0xd => Ok(DataType::Image),
            0x15 => Ok(DataType::TempoCpil),
            _ => Err(Error::InvalidData("invalid data type")),
        }
    }

    /// The number of the data type.
    pub fn code(&self) -> (v: u32)
        ensures
            v == data_type_code(*self),
            (v == 0) == (*self == DataType::Binary),
            (v == 1) == (*self == DataType::Text),
            (v == 13) == (*self == DataType::Image),
            (v == 21) == (*self == DataType::TempoCpil),
    {
        match self {
            DataType::Binary => 0x0,
            DataType::Text => 0x1,
            DataType::Image => 0xd,
            DataType::TempoCpil => 0x15,
        }
    }
}

impl Default for DataType {
    fn default() -> (t: Self)
        ensures
            t == DataType::Binary,
    {
        DataType::Binary
    }
}

impl TryFrom<u32> for DataType {
    type Error = Error;

    fn try_from(value: u32) -> (res: Result<DataType>) {
        DataType::try_from_u32(value)
    }
}

impl vstd::std_specs::convert::TryFromSpecImpl<u32> for DataType {
    open spec fn obeys_try_from_spec() -> bool {
        true
    }

    open spec fn try_from_spec(value: u32) -> Result<DataType> {
        data_type_of(value)
    }
}

/// The number of a data type gives it back, and a number that names one is
/// its number.
#[verifier::spinoff_prover]
pub proof fn lemma_data_type_roundtrip(t: DataType, v: u32)
    ensures
        data_type_of(data_type_code(t)) == Ok::<DataType, Error>(t),
        data_type_of(v) matches Ok(u) ==> data_type_code(u) == v,
{
}

/// The type words of metadata values: 0 is binary data, 1 is UTF-8 text,
/// 13 (0xd) is a JPEG image and 21 (0x15) is a big-endian integer (tempo,
/// compilation flag); every other word is refused.
pub proof fn lemma_data_type_words(v: u32, t: DataType)
    ensures
        (data_type_of(v) == Ok::<DataType, Error>(DataType::Binary)) == (v == 0),
        (data_type_of(v) == Ok::<DataType, Error>(DataType::Text)) == (v == 1),
        (data_type_of(v) == Ok::<DataType, Error>(DataType::Image)) == (v == 13),
        (data_type_of(v) == Ok::<DataType, Error>(DataType::TempoCpil)) == (v == 21),
        data_type_of(v) is Err == (v != 0 && v != 1 && v != 13 && v != 21),
        t == DataType::Text ==> data_type_code(t) == 1,
        t == DataType::Binary ==> data_type_code(t) == 0,
        t == DataType::Image ==> data_type_code(t) == 13,
        t == DataType::TempoCpil ==> data_type_code(t) == 21,
{
}

/// A kind of metadata that a file may carry.
#[derive(Debug, Clone, Copy, PartialEq, Eq, Hash, Structural)]
pub enum MetadataKey {
    Title,
    Year,
    Poster,
    Summary,
}

/// The metadata that a file may carry: its title, release year, poster
/// (cover art) and summary.
pub trait Metadata {
    /// The title.
    fn title(&self) -> Option<String>;

    /// The release year.
    fn year(&self) -> Option<u32>;

    /// The poster.
    fn poster(&self) -> Option<&[u8]>;

    /// The summary.
    fn summary(&self) -> Option<String>;
}

} // verus!
