//! AAC audio: object types, sampling-frequency indices and channel layouts
//! as the AudioSpecificConfig codes them.
use vstd::prelude::*;

verus! {

/// MPEG-4 audio object type, the AAC profile.
#[derive(Debug, PartialEq, Eq, Clone, Copy, Structural)]
pub enum AudioObjectType {
    AacMain,
    AacLowComplexity,
    AacScalableSampleRate,
    AacLongTermPrediction,
    SpectralBandReplication,
    AACScalable,
    TwinVQ,
    CodeExcitedLinearPrediction,
    HarmonicVectorExcitationCoding,
    TextToSpeechtInterface,
    MainSynthetic,
    WavetableSynthesis,
    GeneralMIDI,
    AlgorithmicSynthesis,
    ErrorResilientAacLowComplexity,
    ErrorResilientAacLongTermPrediction,
    ErrorResilientAacScalable,
    ErrorResilientAacTwinVQ,
    ErrorResilientAacBitSlicedArithmeticCoding,
    ErrorResilientAacLowDelay,
    ErrorResilientCodeExcitedLinearPrediction,
    ErrorResilientHarmonicVectorExcitationCoding,
    ErrorResilientHarmonicIndividualLinesNoise,
    ErrorResilientParametric,
    SinuSoidalCoding,
    ParametricStereo,
    MpegSurround,
    MpegLayer1,
    MpegLayer2,
    MpegLayer3,
    DirectStreamTransfer,
    AudioLosslessCoding,
    ScalableLosslessCoding,
    ScalableLosslessCodingNoneCore,
    ErrorResilientAacEnhancedLowDelay,
    SymbolicMusicRepresentationSimple,
    SymbolicMusicRepresentationMain,
    UnifiedSpeechAudioCoding,
    SpatialAudioObjectCoding,
    LowDelayMpegSurround,
    SpatialAudioObjectCodingDialogueEnhancement,
    AudioSync,
    Unknown(u8),
}

pub open spec fn spec_audioobjecttype_from(value: u8) -> AudioObjectType {
    match value {
        1u8 => AudioObjectType::AacMain,
        2u8 => AudioObjectType::AacLowComplexity,
        3u8 => AudioObjectType::AacScalableSampleRate,
        4u8 => AudioObjectType::AacLongTermPrediction,
        5u8 => AudioObjectType::SpectralBandReplication,
        6u8 => AudioObjectType::AACScalable,
        7u8 => AudioObjectType::TwinVQ,
        8u8 => AudioObjectType::CodeExcitedLinearPrediction,
        9u8 => AudioObjectType::HarmonicVectorExcitationCoding,
        12u8 => AudioObjectType::TextToSpeechtInterface,
        13u8 => AudioObjectType::MainSynthetic,
        14u8 => AudioObjectType::WavetableSynthesis,
        15u8 => AudioObjectType::GeneralMIDI,
        16u8 => AudioObjectType::AlgorithmicSynthesis,
        17u8 => AudioObjectType::ErrorResilientAacLowComplexity,
        19u8 => AudioObjectType::ErrorResilientAacLongTermPrediction,
        20u8 => AudioObjectType::ErrorResilientAacScalable,
        21u8 => AudioObjectType::ErrorResilientAacTwinVQ,
        22u8 => AudioObjectType::ErrorResilientAacBitSlicedArithmeticCoding,
        23u8 => AudioObjectType::ErrorResilientAacLowDelay,
        24u8 => AudioObjectType::ErrorResilientCodeExcitedLinearPrediction,
        25u8 => AudioObjectType::ErrorResilientHarmonicVectorExcitationCoding,
        26u8 => AudioObjectType::ErrorResilientHarmonicIndividualLinesNoise,
        27u8 => AudioObjectType::ErrorResilientParametric,
        28u8 => AudioObjectType::SinuSoidalCoding,
        29u8 => AudioObjectType::ParametricStereo,
        30u8 => AudioObjectType::MpegSurround,
        32u8 => AudioObjectType::MpegLayer1,
        33u8 => AudioObjectType::MpegLayer2,
        34u8 => AudioObjectType::MpegLayer3,
        35u8 => AudioObjectType::DirectStreamTransfer,
        36u8 => AudioObjectType::AudioLosslessCoding,
        37u8 => AudioObjectType::ScalableLosslessCoding,
        38u8 => AudioObjectType::ScalableLosslessCodingNoneCore,
        39u8 => AudioObjectType::ErrorResilientAacEnhancedLowDelay,
        40u8 => AudioObjectType::SymbolicMusicRepresentationSimple,
        41u8 => AudioObjectType::SymbolicMusicRepresentationMain,
        42u8 => AudioObjectType::UnifiedSpeechAudioCoding,
        43u8 => AudioObjectType::SpatialAudioObjectCoding,
        44u8 => AudioObjectType::LowDelayMpegSurround,
        45u8 => AudioObjectType::SpatialAudioObjectCodingDialogueEnhancement,
        46u8 => AudioObjectType::AudioSync,
        _ => AudioObjectType::Unknown(value),
    }
}

impl vstd::std_specs::convert::FromSpecImpl<u8> for AudioObjectType {
    open spec fn obeys_from_spec() -> bool {
        true
    }

    open spec fn from_spec(v: u8) -> Self {
        spec_audioobjecttype_from(v)
    }
}

impl From<u8> for AudioObjectType {
    fn from(value: u8) -> (r: AudioObjectType) {
        match value {
            1 => AudioObjectType::AacMain,
            2 => AudioObjectType::AacLowComplexity,
            3 => AudioObjectType::AacScalableSampleRate,
            4 => AudioObjectType::AacLongTermPrediction,
            5 => AudioObjectType::SpectralBandReplication,
            6 => AudioObjectType::AACScalable,
            7 => AudioObjectType::TwinVQ,
            8 => AudioObjectType::CodeExcitedLinearPrediction,
            9 => AudioObjectType::HarmonicVectorExcitationCoding,
            12 => AudioObjectType::TextToSpeechtInterface,
            13 => AudioObjectType::MainSynthetic,
            14 => AudioObjectType::WavetableSynthesis,
            15 => AudioObjectType::GeneralMIDI,
            16 => AudioObjectType::AlgorithmicSynthesis,
            17 => AudioObjectType::ErrorResilientAacLowComplexity,
            19 => AudioObjectType::ErrorResilientAacLongTermPrediction,
            20 => AudioObjectType::ErrorResilientAacScalable,
            21 => AudioObjectType::ErrorResilientAacTwinVQ,
            22 => AudioObjectType::ErrorResilientAacBitSlicedArithmeticCoding,
            23 => AudioObjectType::ErrorResilientAacLowDelay,
            24 => AudioObjectType::ErrorResilientCodeExcitedLinearPrediction,
            25 => AudioObjectType::ErrorResilientHarmonicVectorExcitationCoding,
            26 => AudioObjectType::ErrorResilientHarmonicIndividualLinesNoise,
            27 => AudioObjectType::ErrorResilientParametric,
            28 => AudioObjectType::SinuSoidalCoding,
            29 => AudioObjectType::ParametricStereo,
            30 => AudioObjectType::MpegSurround,
            32 => AudioObjectType::MpegLayer1,
            33 => AudioObjectType::MpegLayer2,
            34 => AudioObjectType::MpegLayer3,
            35 => AudioObjectType::DirectStreamTransfer,
            36 => AudioObjectType::AudioLosslessCoding,
            37 => AudioObjectType::ScalableLosslessCoding,
            38 => AudioObjectType::ScalableLosslessCodingNoneCore,
            39 => AudioObjectType::ErrorResilientAacEnhancedLowDelay,
            40 => AudioObjectType::SymbolicMusicRepresentationSimple,
            41 => AudioObjectType::SymbolicMusicRepresentationMain,
            42 => AudioObjectType::UnifiedSpeechAudioCoding,
            43 => AudioObjectType::SpatialAudioObjectCoding,
            44 => AudioObjectType::LowDelayMpegSurround,
            45 => AudioObjectType::SpatialAudioObjectCodingDialogueEnhancement,
            46 => AudioObjectType::AudioSync,
            _ => AudioObjectType::Unknown(value),
        }
    }
}

/// Index into the MPEG-4 table of sampling frequencies.
#[derive(Debug, PartialEq, Eq, Clone, Copy, Structural)]
pub enum SamplingFrequencyIndex {
    Freq96000,
    Freq88200,
    Freq64000,
    Freq48000,
    Freq44100,
    Freq32000,
    Freq24000,
    Freq22050,
    Freq16000,
    Freq12000,
    Freq11025,
    Freq8000,
    Freq7350,
    Unknown(u8),
}

pub open spec fn spec_samplingfrequencyindex_from(value: u8) -> SamplingFrequencyIndex {
    match value {
        0u8 => SamplingFrequencyIndex::Freq96000,
        1u8 => SamplingFrequencyIndex::Freq88200,
        2u8 => SamplingFrequencyIndex::Freq64000,
        3u8 => SamplingFrequencyIndex::Freq48000,
        4u8 => SamplingFrequencyIndex::Freq44100,
        5u8 => SamplingFrequencyIndex::Freq32000,
        6u8 => SamplingFrequencyIndex::Freq24000,
        7u8 => SamplingFrequencyIndex::Freq22050,
        8u8 => SamplingFrequencyIndex::Freq16000,
        9u8 => SamplingFrequencyIndex::Freq12000,
        10u8 => SamplingFrequencyIndex::Freq11025,
        11u8 => SamplingFrequencyIndex::Freq8000,
        12u8 => SamplingFrequencyIndex::Freq7350,
        _ => SamplingFrequencyIndex::Unknown(value),
    }
}

impl vstd::std_specs::convert::FromSpecImpl<u8> for SamplingFrequencyIndex {
    open spec fn obeys_from_spec() -> bool {
        true
    }

    open spec fn from_spec(v: u8) -> Self {
        spec_samplingfrequencyindex_from(v)
    }
}

impl From<u8> for SamplingFrequencyIndex {
    fn from(value: u8) -> (r: SamplingFrequencyIndex) {
        match value {
            0 => SamplingFrequencyIndex::Freq96000,
            1 => SamplingFrequencyIndex::Freq88200,
            2 => SamplingFrequencyIndex::Freq64000,
            3 => SamplingFrequencyIndex::Freq48000,
            4 => SamplingFrequencyIndex::Freq44100,
            5 => SamplingFrequencyIndex::Freq32000,
            6 => SamplingFrequencyIndex::Freq24000,
            7 => SamplingFrequencyIndex::Freq22050,
            8 => SamplingFrequencyIndex::Freq16000,
            9 => SamplingFrequencyIndex::Freq12000,
            10 => SamplingFrequencyIndex::Freq11025,
            11 => SamplingFrequencyIndex::Freq8000,
            12 => SamplingFrequencyIndex::Freq7350,
            _ => SamplingFrequencyIndex::Unknown(value),
        }
    }
}

/// MPEG-4 channel configuration.
#[derive(Debug, PartialEq, Eq, Clone, Copy, Structural)]
pub enum ChannelConfiguration {
    Unknown(u8),
    Mono,
    Stereo,
    Surround3_0,
    Surround4_0,
    Surround5_0,
    Surround5_1,
    Surround7_1,
}

pub open spec fn spec_channelconfiguration_from(value: u8) -> ChannelConfiguration {
    match value {
        1u8 => ChannelConfiguration::Mono,
        2u8 => ChannelConfiguration::Stereo,
        3u8 => ChannelConfiguration::Surround3_0,
        4u8 => ChannelConfiguration::Surround4_0,
        5u8 => ChannelConfiguration::Surround5_0,
        6u8 => ChannelConfiguration::Surround5_1,
        7u8 => ChannelConfiguration::Surround7_1,
        _ => ChannelConfiguration::Unknown(value),
    }
}

impl vstd::std_specs::convert::FromSpecImpl<u8> for ChannelConfiguration {
    open spec fn obeys_from_spec() -> bool {
        true
    }

    open spec fn from_spec(v: u8) -> Self {
        spec_channelconfiguration_from(v)
    }
}

impl From<u8> for ChannelConfiguration {
    fn from(value: u8) -> (r: ChannelConfiguration) {
        match value {
            1 => ChannelConfiguration::Mono,
            2 => ChannelConfiguration::Stereo,
            3 => ChannelConfiguration::Surround3_0,
            4 => ChannelConfiguration::Surround4_0,
            5 => ChannelConfiguration::Surround5_0,
            6 => ChannelConfiguration::Surround5_1,
            7 => ChannelConfiguration::Surround7_1,
            _ => ChannelConfiguration::Unknown(value),
        }
    }
}

/// What a decoder needs to know of an AAC stream.
#[derive(Debug, PartialEq, Eq, Clone, Copy, Structural)]
pub struct Parameters {
    pub bitrate: u32,
    pub profile: AudioObjectType,
    pub freq_index: SamplingFrequencyIndex,
    pub channel_config: ChannelConfiguration,
}

} // verus!
