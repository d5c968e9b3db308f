//! What the fragmented MP4 muxer takes and gives: track kinds and
//! metadata, its options, the samples handed to it, and its errors.
use vstd::prelude::*;

use crate::error::{Error, ErrorKind};
use crate::sample_entry::{SampleEntry, SampleEntryV};

verus! {

/// Kind of a track.
#[derive(Debug, Clone, Copy, PartialEq, Eq, Hash, Structural)]
pub enum TrackKind {
    /// Audio
    Audio,
    /// Video
    Video,
    /// Subtitles
    Subtitle,
}

/// Metadata of a track: the `mdhd` language and the `hdlr` name.
#[derive(Debug, Clone, PartialEq, Eq, Hash)]
pub struct TrackMetadata {
    /// ISO-639-2/T language code (three lowercase letters; `und` when undetermined)
    pub language: [u8; 3],
    /// Handler name
    pub name: String,
}

/// The value of a [`TrackMetadata`].
pub struct TrackMetadataV {
    pub language: Seq<u8>,
    pub name: Seq<char>,
}

impl View for TrackMetadata {
    type V = TrackMetadataV;

    open spec fn view(&self) -> TrackMetadataV {
        TrackMetadataV { language: self.language@, name: self.name@ }
    }
}

impl Default for TrackMetadata {
    /// Undetermined language (`und`) and an empty name.
    fn default() -> (r: TrackMetadata)
        ensures
            r@.language == seq![0x75u8, 0x6Eu8, 0x64u8],
            r@.name == Seq::<char>::empty(),
    {
        let r = TrackMetadata { language: [0x75, 0x6E, 0x64], name: String::new() };
        assert(r.language@ =~= seq![0x75u8, 0x6Eu8, 0x64u8]);
        r
    }
}

/// Options of a [`Fmp4SegmentMuxer`].
#[derive(Debug, Clone)]
pub struct SegmentMuxerOptions {
    /// Creation time, in seconds since the UNIX epoch (1970-01-01 00:00:00 UTC)
    pub creation_timestamp: u64,
    /// Metadata of the audio track
    pub audio_track: TrackMetadata,
    /// Metadata of the video track
    pub video_track: TrackMetadata,
    /// Metadata of the subtitle track
    pub subtitle_track: TrackMetadata,
}

/// The value of [`SegmentMuxerOptions`].
pub struct OptionsV {
    pub creation_timestamp: u64,
    pub audio_track: TrackMetadataV,
    pub video_track: TrackMetadataV,
    pub subtitle_track: TrackMetadataV,
}

impl View for SegmentMuxerOptions {
    type V = OptionsV;

    open spec fn view(&self) -> OptionsV {
        OptionsV {
            creation_timestamp: self.creation_timestamp,
            audio_track: self.audio_track@,
            video_track: self.video_track@,
            subtitle_track: self.subtitle_track@,
        }
    }
}

impl Default for SegmentMuxerOptions {
    /// Creation time at the UNIX epoch, default metadata for every track.
    fn default() -> (r: SegmentMuxerOptions)
        ensures
            r.creation_timestamp == 0,
            r@.audio_track.language == seq![0x75u8, 0x6Eu8, 0x64u8],
            r@.audio_track.name == Seq::<char>::empty(),
            r@.video_track.language == seq![0x75u8, 0x6Eu8, 0x64u8],
            r@.video_track.name == Seq::<char>::empty(),
            r@.subtitle_track.language == seq![0x75u8, 0x6Eu8, 0x64u8],
            r@.subtitle_track.name == Seq::<char>::empty(),
    {
        SegmentMuxerOptions {
            creation_timestamp: 0,
            audio_track: TrackMetadata::default(),
            video_track: TrackMetadata::default(),
            subtitle_track: TrackMetadata::default(),
        }
    }
}

impl SegmentMuxerOptions {
    /// The metadata for tracks of `kind`.
    pub open spec fn metadata_of(self, kind: TrackKind) -> TrackMetadata {
        match kind {
            TrackKind::Audio => self.audio_track,
            TrackKind::Video => self.video_track,
            TrackKind::Subtitle => self.subtitle_track,
        }
    }

    pub fn track_metadata(&self, kind: TrackKind) -> (r: &TrackMetadata)
        ensures
            *r == self.metadata_of(kind),
    {
        match kind {
            TrackKind::Audio => &self.audio_track,
            TrackKind::Video => &self.video_track,
            TrackKind::Subtitle => &self.subtitle_track,
        }
    }
}

/// A sample handed to the muxer: where its payload lies in the segment's
/// `mdat` payload, and what describes it.
#[derive(Debug, Clone)]
pub struct Sample {
    /// Kind of the track the sample belongs to
    pub track_kind: TrackKind,
    /// Timescale of the track (not 0)
    pub timescale: u32,
    /// Sample entry; `None` keeps the track's current one
    pub sample_entry: Option<SampleEntry>,
    /// Duration in timescale units
    pub duration: u32,
    /// Whether the sample is a sync sample
    pub keyframe: bool,
    /// Composition time offset (presentation minus decode time), if any
    pub composition_time_offset: Option<i64>,
    /// Offset of the payload from the start of the segment's `mdat` payload
    pub data_offset: u64,
    /// Size of the payload in bytes
    pub data_size: usize,
}

/// The value of a [`Sample`].
pub struct SampleV {
    pub track_kind: TrackKind,
    pub timescale: u32,
    pub sample_entry: Option<SampleEntryV>,
    pub duration: u32,
    pub keyframe: bool,
    pub composition_time_offset: Option<i64>,
    pub data_offset: u64,
    pub data_size: usize,
}

impl View for Sample {
    type V = SampleV;

    open spec fn view(&self) -> SampleV {
        SampleV {
            track_kind: self.track_kind,
            timescale: self.timescale,
            sample_entry: match self.sample_entry {
                Some(e) => Some(e@),
                None => None,
            },
            duration: self.duration,
            keyframe: self.keyframe,
            composition_time_offset: self.composition_time_offset,
            data_offset: self.data_offset,
            data_size: self.data_size,
        }
    }
}

/// Views of a vector of samples.
pub open spec fn samples_view(s: Seq<Sample>) -> Seq<SampleV> {
    s.map_values(|x: Sample| x@)
}

/// Views of a vector of sample entries.
pub open spec fn entries_view(s: Seq<SampleEntry>) -> Seq<SampleEntryV> {
    s.map_values(|x: SampleEntry| x@)
}

/// Error of the muxer.
#[derive(Debug, Clone, Copy)]
pub enum MuxError {
    /// No track has been observed yet
    EmptyTracks,
    /// No sample was handed in
    EmptySamples,
    /// A size, time or offset does not fit its field
    Overflow,
    /// A box could not be built or encoded
    EncodeError(Error),
    /// A sample's timescale differs from its track's
    TimescaleMismatch { track_kind: TrackKind, expected: u32, actual: u32 },
    /// A track has no sample entry to use
    MissingSampleEntry { track_kind: TrackKind },
    /// Samples of one track in one segment use different sample entries
    MixedSampleEntries { track_kind: TrackKind },
}

/// The value of a [`MuxError`]: its variant, and the kind of an encoding error.
pub enum MuxErrorV {
    EmptyTracks,
    EmptySamples,
    Overflow,
    EncodeError(ErrorKind),
    TimescaleMismatch(TrackKind, u32, u32),
    MissingSampleEntry(TrackKind),
    MixedSampleEntries(TrackKind),
}

impl View for MuxError {
    type V = MuxErrorV;

    open spec fn view(&self) -> MuxErrorV {
        match self {
            MuxError::EmptyTracks => MuxErrorV::EmptyTracks,
            MuxError::EmptySamples => MuxErrorV::EmptySamples,
            MuxError::Overflow => MuxErrorV::Overflow,
            MuxError::EncodeError(e) => MuxErrorV::EncodeError(e.kind),
            MuxError::TimescaleMismatch { track_kind, expected, actual } => MuxErrorV::TimescaleMismatch(
                *track_kind,
                *expected,
                *actual,
            ),
            MuxError::MissingSampleEntry { track_kind } => MuxErrorV::MissingSampleEntry(*track_kind),
            MuxError::MixedSampleEntries { track_kind } => MuxErrorV::MixedSampleEntries(*track_kind),
        }
    }
}

} // verus!
