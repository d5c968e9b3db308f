//! The sample entries of `stsd`, as one type.
use vstd::prelude::*;

use crate::avcc::AvccBoxV;
use crate::bytes::{box_split, get32};
use crate::codec::{
    box_encodable, box_of, decode_box, encode_box, header_size, lemma_box_roundtrip, lemma_unknown_split,
    parse_box, unknown_bytes, unknown_valid, BoxCodec, BoxType, UnknownBox, UnknownBoxV,
};
use crate::config_simple::{Av1cBoxV, DopsBox, VpccBoxV};
use crate::dfla::DflaBoxV;
use crate::entry::{AudioSampleEntryFields, EntryV, VisualFieldsV};
use crate::error::{Error, ErrorKind};
use crate::esds::EsdsBoxV;
use crate::hvcc::HvccBoxV;
use crate::sample_entries::{
    Av01Box, Avc1Box, FlacBox, Hev1Box, Hvc1Box, Mp4aBox, Mp4vBox, OpusBox, Vp08Box, Vp09Box,
};
use crate::subtitle::{StppBox, StppBoxV, VttCBoxV, WvttBox};
use crate::tx3g::{FtabBoxV, TextFieldsV, Tx3gBox};

verus! {

/// An entry of `stsd`.
#[derive(Debug, Clone, PartialEq, Eq, Hash)]
pub enum SampleEntry {
    /// H.264 (AVC) sample entry (`avc1`)
    Avc1(Avc1Box),
    /// MPEG-4 Visual sample entry (`mp4v`)
    Mp4v(Mp4vBox),
    /// H.265 (HEVC) sample entry, parameter sets in-band (`hev1`)
    Hev1(Hev1Box),
    /// H.265 (HEVC) sample entry, parameter sets out-of-band (`hvc1`)
    Hvc1(Hvc1Box),
    /// VP8 sample entry (`vp08`)
    Vp08(Vp08Box),
    /// VP9 sample entry (`vp09`)
    Vp09(Vp09Box),
    /// AV1 sample entry (`av01`)
    Av01(Av01Box),
    /// Opus sample entry (`Opus`)
    Opus(OpusBox),
    /// MPEG-4 audio (mostly AAC) sample entry (`mp4a`)
    Mp4a(Mp4aBox),
    /// FLAC sample entry (`fLaC`)
    Flac(FlacBox),
    /// XML subtitle (TTML, IMSC) sample entry (`stpp`)
    Stpp(StppBox),
    /// WebVTT sample entry (`wvtt`)
    Wvtt(WvttBox),
    /// 3GPP timed text sample entry (`tx3g`)
    Tx3g(Tx3gBox),
    /// A sample entry of any other type, kept as it is
    Unknown(UnknownBox),
}

/// The value of a [`SampleEntry`].
pub enum SampleEntryV {
    Avc1(EntryV<VisualFieldsV, AvccBoxV>),
    Mp4v(EntryV<VisualFieldsV, EsdsBoxV>),
    Hev1(EntryV<VisualFieldsV, HvccBoxV>),
    Hvc1(EntryV<VisualFieldsV, HvccBoxV>),
    Vp08(EntryV<VisualFieldsV, VpccBoxV>),
    Vp09(EntryV<VisualFieldsV, VpccBoxV>),
    Av01(EntryV<VisualFieldsV, Av1cBoxV>),
    Opus(EntryV<AudioSampleEntryFields, DopsBox>),
    Mp4a(EntryV<AudioSampleEntryFields, EsdsBoxV>),
    Flac(EntryV<AudioSampleEntryFields, DflaBoxV>),
    Stpp(StppBoxV),
    Wvtt(EntryV<u16, VttCBoxV>),
    Tx3g(EntryV<TextFieldsV, FtabBoxV>),
    Unknown(UnknownBoxV),
}

impl View for SampleEntry {
    type V = SampleEntryV;

    open spec fn view(&self) -> SampleEntryV {
        match self {
            SampleEntry::Avc1(b) => SampleEntryV::Avc1(b@),
            SampleEntry::Mp4v(b) => SampleEntryV::Mp4v(b@),
            SampleEntry::Hev1(b) => SampleEntryV::Hev1(b@),
            SampleEntry::Hvc1(b) => SampleEntryV::Hvc1(b@),
            SampleEntry::Vp08(b) => SampleEntryV::Vp08(b@),
            SampleEntry::Vp09(b) => SampleEntryV::Vp09(b@),
            SampleEntry::Av01(b) => SampleEntryV::Av01(b@),
            SampleEntry::Opus(b) => SampleEntryV::Opus(b@),
            SampleEntry::Mp4a(b) => SampleEntryV::Mp4a(b@),
            SampleEntry::Flac(b) => SampleEntryV::Flac(b@),
            SampleEntry::Stpp(b) => SampleEntryV::Stpp(b@),
            SampleEntry::Wvtt(b) => SampleEntryV::Wvtt(b@),
            SampleEntry::Tx3g(b) => SampleEntryV::Tx3g(b@),
            SampleEntry::Unknown(b) => SampleEntryV::Unknown(b@),
        }
    }
}

/// The box type of a sample entry value.
pub open spec fn entry_type(v: SampleEntryV) -> u32 {
    match v {
        SampleEntryV::Avc1(_) => Avc1Box::spec_box_type(),
        SampleEntryV::Mp4v(_) => Mp4vBox::spec_box_type(),
        SampleEntryV::Hev1(_) => Hev1Box::spec_box_type(),
        SampleEntryV::Hvc1(_) => Hvc1Box::spec_box_type(),
        SampleEntryV::Vp08(_) => Vp08Box::spec_box_type(),
        SampleEntryV::Vp09(_) => Vp09Box::spec_box_type(),
        SampleEntryV::Av01(_) => Av01Box::spec_box_type(),
        SampleEntryV::Opus(_) => OpusBox::spec_box_type(),
        SampleEntryV::Mp4a(_) => Mp4aBox::spec_box_type(),
        SampleEntryV::Flac(_) => FlacBox::spec_box_type(),
        SampleEntryV::Stpp(_) => StppBox::spec_box_type(),
        SampleEntryV::Wvtt(_) => WvttBox::spec_box_type(),
        SampleEntryV::Tx3g(_) => Tx3gBox::spec_box_type(),
        SampleEntryV::Unknown(u) => u.box_type,
    }
}

/// A box type that has a typed sample entry.
pub open spec fn is_known_entry_type(t: u32) -> bool {
    t == Avc1Box::spec_box_type()
        || t == Mp4vBox::spec_box_type()
        || t == Hev1Box::spec_box_type()
        || t == Hvc1Box::spec_box_type()
        || t == Vp08Box::spec_box_type()
        || t == Vp09Box::spec_box_type()
        || t == Av01Box::spec_box_type()
        || t == OpusBox::spec_box_type()
        || t == Mp4aBox::spec_box_type()
        || t == FlacBox::spec_box_type()
        || t == StppBox::spec_box_type()
        || t == WvttBox::spec_box_type()
        || t == Tx3gBox::spec_box_type()
}

/// The bytes of a sample entry.
pub open spec fn sample_entry_bytes(v: SampleEntryV) -> Seq<u8> {
    match v {
        SampleEntryV::Avc1(b) => box_of::<Avc1Box>(b),
        SampleEntryV::Mp4v(b) => box_of::<Mp4vBox>(b),
        SampleEntryV::Hev1(b) => box_of::<Hev1Box>(b),
        SampleEntryV::Hvc1(b) => box_of::<Hvc1Box>(b),
        SampleEntryV::Vp08(b) => box_of::<Vp08Box>(b),
        SampleEntryV::Vp09(b) => box_of::<Vp09Box>(b),
        SampleEntryV::Av01(b) => box_of::<Av01Box>(b),
        SampleEntryV::Opus(b) => box_of::<OpusBox>(b),
        SampleEntryV::Mp4a(b) => box_of::<Mp4aBox>(b),
        SampleEntryV::Flac(b) => box_of::<FlacBox>(b),
        SampleEntryV::Stpp(b) => box_of::<StppBox>(b),
        SampleEntryV::Wvtt(b) => box_of::<WvttBox>(b),
        SampleEntryV::Tx3g(b) => box_of::<Tx3gBox>(b),
        SampleEntryV::Unknown(u) => unknown_bytes(u),
    }
}

/// The sample entry can be written.
pub open spec fn sample_entry_encodable(v: SampleEntryV) -> bool {
    match v {
        SampleEntryV::Avc1(b) => box_encodable::<Avc1Box>(b),
        SampleEntryV::Mp4v(b) => box_encodable::<Mp4vBox>(b),
        SampleEntryV::Hev1(b) => box_encodable::<Hev1Box>(b),
        SampleEntryV::Hvc1(b) => box_encodable::<Hvc1Box>(b),
        SampleEntryV::Vp08(b) => box_encodable::<Vp08Box>(b),
        SampleEntryV::Vp09(b) => box_encodable::<Vp09Box>(b),
        SampleEntryV::Av01(b) => box_encodable::<Av01Box>(b),
        SampleEntryV::Opus(b) => box_encodable::<OpusBox>(b),
        SampleEntryV::Mp4a(b) => box_encodable::<Mp4aBox>(b),
        SampleEntryV::Flac(b) => box_encodable::<FlacBox>(b),
        SampleEntryV::Stpp(b) => box_encodable::<StppBox>(b),
        SampleEntryV::Wvtt(b) => box_encodable::<WvttBox>(b),
        SampleEntryV::Tx3g(b) => box_encodable::<Tx3gBox>(b),
        SampleEntryV::Unknown(_) => true,
    }
}

/// The sample entry decodes back from its bytes: its box decodes back, and an
/// unknown entry does not carry the type of a typed one.
pub open spec fn sample_entry_valid(v: SampleEntryV) -> bool {
    match v {
        SampleEntryV::Avc1(b) => Avc1Box::valid(b) && 8 + Avc1Box::payload_bytes(b).len() <= u32::MAX,
        SampleEntryV::Mp4v(b) => Mp4vBox::valid(b) && 8 + Mp4vBox::payload_bytes(b).len() <= u32::MAX,
        SampleEntryV::Hev1(b) => Hev1Box::valid(b) && 8 + Hev1Box::payload_bytes(b).len() <= u32::MAX,
        SampleEntryV::Hvc1(b) => Hvc1Box::valid(b) && 8 + Hvc1Box::payload_bytes(b).len() <= u32::MAX,
        SampleEntryV::Vp08(b) => Vp08Box::valid(b) && 8 + Vp08Box::payload_bytes(b).len() <= u32::MAX,
        SampleEntryV::Vp09(b) => Vp09Box::valid(b) && 8 + Vp09Box::payload_bytes(b).len() <= u32::MAX,
        SampleEntryV::Av01(b) => Av01Box::valid(b) && 8 + Av01Box::payload_bytes(b).len() <= u32::MAX,
        SampleEntryV::Opus(b) => OpusBox::valid(b) && 8 + OpusBox::payload_bytes(b).len() <= u32::MAX,
        SampleEntryV::Mp4a(b) => Mp4aBox::valid(b) && 8 + Mp4aBox::payload_bytes(b).len() <= u32::MAX,
        SampleEntryV::Flac(b) => FlacBox::valid(b) && 8 + FlacBox::payload_bytes(b).len() <= u32::MAX,
        SampleEntryV::Stpp(b) => StppBox::valid(b) && 8 + StppBox::payload_bytes(b).len() <= u32::MAX,
        SampleEntryV::Wvtt(b) => WvttBox::valid(b) && 8 + WvttBox::payload_bytes(b).len() <= u32::MAX,
        SampleEntryV::Tx3g(b) => Tx3gBox::valid(b) && 8 + Tx3gBox::payload_bytes(b).len() <= u32::MAX,
        SampleEntryV::Unknown(u) => unknown_valid(u) && !is_known_entry_type(u.box_type),
    }
}

/// The sample entry at the start of `s` and the number of bytes it spans:
/// decoded as the typed entry its box type names, or kept as unknown.
pub open spec fn parse_sample_entry(s: Seq<u8>) -> Option<(SampleEntryV, int)> {
    match box_split(s) {
        None => None,
        Some((t, h, e)) => 
            if t == Avc1Box::spec_box_type() {
                match parse_box::<Avc1Box>(s) {
                    Some((b, n)) => Some((SampleEntryV::Avc1(b), n)),
                    None => None,
                }
            } else if t == Mp4vBox::spec_box_type() {
                match parse_box::<Mp4vBox>(s) {
                    Some((b, n)) => Some((SampleEntryV::Mp4v(b), n)),
                    None => None,
                }
            } else if t == Hev1Box::spec_box_type() {
                match parse_box::<Hev1Box>(s) {
                    Some((b, n)) => Some((SampleEntryV::Hev1(b), n)),
                    None => None,
                }
            } else if t == Hvc1Box::spec_box_type() {
                match parse_box::<Hvc1Box>(s) {
                    Some((b, n)) => Some((SampleEntryV::Hvc1(b), n)),
                    None => None,
                }
            } else if t == Vp08Box::spec_box_type() {
                match parse_box::<Vp08Box>(s) {
                    Some((b, n)) => Some((SampleEntryV::Vp08(b), n)),
                    None => None,
                }
            } else if t == Vp09Box::spec_box_type() {
                match parse_box::<Vp09Box>(s) {
                    Some((b, n)) => Some((SampleEntryV::Vp09(b), n)),
                    None => None,
                }
            } else if t == Av01Box::spec_box_type() {
                match parse_box::<Av01Box>(s) {
                    Some((b, n)) => Some((SampleEntryV::Av01(b), n)),
                    None => None,
                }
            } else if t == OpusBox::spec_box_type() {
                match parse_box::<OpusBox>(s) {
                    Some((b, n)) => Some((SampleEntryV::Opus(b), n)),
                    None => None,
                }
            } else if t == Mp4aBox::spec_box_type() {
                match parse_box::<Mp4aBox>(s) {
                    Some((b, n)) => Some((SampleEntryV::Mp4a(b), n)),
                    None => None,
                }
            } else if t == FlacBox::spec_box_type() {
                match parse_box::<FlacBox>(s) {
                    Some((b, n)) => Some((SampleEntryV::Flac(b), n)),
                    None => None,
                }
            } else if t == StppBox::spec_box_type() {
                match parse_box::<StppBox>(s) {
                    Some((b, n)) => Some((SampleEntryV::Stpp(b), n)),
                    None => None,
                }
            } else if t == WvttBox::spec_box_type() {
                match parse_box::<WvttBox>(s) {
                    Some((b, n)) => Some((SampleEntryV::Wvtt(b), n)),
                    None => None,
                }
            } else if t == Tx3gBox::spec_box_type() {
                match parse_box::<Tx3gBox>(s) {
                    Some((b, n)) => Some((SampleEntryV::Tx3g(b), n)),
                    None => None,
                }
            } else {
                Some((SampleEntryV::Unknown(UnknownBoxV { box_type: t, box_size: header_size(s), payload: s.subrange(h, e) }), e))
            },
    }
}

proof fn lemma_typed_entry<B: BoxCodec>(b: B::V, rest: Seq<u8>)
    requires
        B::valid(b),
        8 + B::payload_bytes(b).len() <= u32::MAX,
    ensures
        box_encodable::<B>(b),
        parse_box::<B>(box_of::<B>(b) + rest) == Some((b, box_of::<B>(b).len() as int)),
        box_split(box_of::<B>(b) + rest) matches Some((t, _, _)) && t == B::spec_box_type(),
{
    lemma_box_roundtrip::<B>(b, rest);
    crate::bytes::lemma_box_split_of_bytes(B::spec_box_type(), B::payload_bytes(b), rest);
}

/// Encoding a valid sample entry and decoding the bytes gives it back,
/// whatever follows it.
#[verifier::rlimit(40)]
pub proof fn lemma_sample_entry_roundtrip(v: SampleEntryV, rest: Seq<u8>)
    requires
        sample_entry_valid(v),
    ensures
        sample_entry_encodable(v),
        parse_sample_entry(sample_entry_bytes(v) + rest) == Some(
            (v, sample_entry_bytes(v).len() as int),
        ),
{
    match v {
        SampleEntryV::Avc1(b) => {
            lemma_typed_entry::<Avc1Box>(b, rest);
        },
        SampleEntryV::Mp4v(b) => {
            lemma_typed_entry::<Mp4vBox>(b, rest);
        },
        SampleEntryV::Hev1(b) => {
            lemma_typed_entry::<Hev1Box>(b, rest);
        },
        SampleEntryV::Hvc1(b) => {
            lemma_typed_entry::<Hvc1Box>(b, rest);
        },
        SampleEntryV::Vp08(b) => {
            lemma_typed_entry::<Vp08Box>(b, rest);
        },
        SampleEntryV::Vp09(b) => {
            lemma_typed_entry::<Vp09Box>(b, rest);
        },
        SampleEntryV::Av01(b) => {
            lemma_typed_entry::<Av01Box>(b, rest);
        },
        SampleEntryV::Opus(b) => {
            lemma_typed_entry::<OpusBox>(b, rest);
        },
        SampleEntryV::Mp4a(b) => {
            lemma_typed_entry::<Mp4aBox>(b, rest);
        },
        SampleEntryV::Flac(b) => {
            lemma_typed_entry::<FlacBox>(b, rest);
        },
        SampleEntryV::Stpp(b) => {
            lemma_typed_entry::<StppBox>(b, rest);
        },
        SampleEntryV::Wvtt(b) => {
            lemma_typed_entry::<WvttBox>(b, rest);
        },
        SampleEntryV::Tx3g(b) => {
            lemma_typed_entry::<Tx3gBox>(b, rest);
        },
        SampleEntryV::Unknown(u) => {
            lemma_unknown_split(u, rest);
        },
    }
}

impl SampleEntry {
    /// Channel count of an audio entry (its low 8 bits); `None` for others.
    pub fn audio_channel_count(&self) -> (r: Option<u8>)
        ensures
            r == match self@ {
                SampleEntryV::Opus(b) => Some(b.fields.channelcount as u8),
                SampleEntryV::Mp4a(b) => Some(b.fields.channelcount as u8),
                SampleEntryV::Flac(b) => Some(b.fields.channelcount as u8),
                _ => None::<u8>,
            },
    {
        match self {
            SampleEntry::Opus(b) => Some(#[verifier::truncate] (b.audio.channelcount as u8)),
            SampleEntry::Mp4a(b) => Some(#[verifier::truncate] (b.audio.channelcount as u8)),
            SampleEntry::Flac(b) => Some(#[verifier::truncate] (b.audio.channelcount as u8)),
            _ => None,
        }
    }

    /// Integer part of the sampling rate of an audio entry; `None` for others.
    pub fn audio_sample_rate(&self) -> (r: Option<u16>)
        ensures
            r == match self@ {
                SampleEntryV::Opus(b) => Some(b.fields.samplerate.integer),
                SampleEntryV::Mp4a(b) => Some(b.fields.samplerate.integer),
                SampleEntryV::Flac(b) => Some(b.fields.samplerate.integer),
                _ => None::<u16>,
            },
    {
        match self {
            SampleEntry::Opus(b) => Some(b.audio.samplerate.integer),
            SampleEntry::Mp4a(b) => Some(b.audio.samplerate.integer),
            SampleEntry::Flac(b) => Some(b.audio.samplerate.integer),
            _ => None,
        }
    }

    /// Sample size (bit depth) of an audio entry; `None` for others.
    pub fn audio_sample_size(&self) -> (r: Option<u16>)
        ensures
            r == match self@ {
                SampleEntryV::Opus(b) => Some(b.fields.samplesize),
                SampleEntryV::Mp4a(b) => Some(b.fields.samplesize),
                SampleEntryV::Flac(b) => Some(b.fields.samplesize),
                _ => None::<u16>,
            },
    {
        match self {
            SampleEntry::Opus(b) => Some(b.audio.samplesize),
            SampleEntry::Mp4a(b) => Some(b.audio.samplesize),
            SampleEntry::Flac(b) => Some(b.audio.samplesize),
            _ => None,
        }
    }

    /// Width and height of a visual entry; `None` for others.
    pub fn video_resolution(&self) -> (r: Option<(u16, u16)>)
        ensures
            r == match self@ {
                SampleEntryV::Avc1(b) => Some((b.fields.width, b.fields.height)),
                SampleEntryV::Mp4v(b) => Some((b.fields.width, b.fields.height)),
                SampleEntryV::Hev1(b) => Some((b.fields.width, b.fields.height)),
                SampleEntryV::Hvc1(b) => Some((b.fields.width, b.fields.height)),
                SampleEntryV::Vp08(b) => Some((b.fields.width, b.fields.height)),
                SampleEntryV::Vp09(b) => Some((b.fields.width, b.fields.height)),
                SampleEntryV::Av01(b) => Some((b.fields.width, b.fields.height)),
                _ => None::<(u16, u16)>,
            },
    {
        match self {
            SampleEntry::Avc1(b) => Some((b.visual.width, b.visual.height)),
            SampleEntry::Mp4v(b) => Some((b.visual.width, b.visual.height)),
            SampleEntry::Hev1(b) => Some((b.visual.width, b.visual.height)),
            SampleEntry::Hvc1(b) => Some((b.visual.width, b.visual.height)),
            SampleEntry::Vp08(b) => Some((b.visual.width, b.visual.height)),
            SampleEntry::Vp09(b) => Some((b.visual.width, b.visual.height)),
            SampleEntry::Av01(b) => Some((b.visual.width, b.visual.height)),
            _ => None,
        }
    }

    /// The box type of the entry.
    pub fn box_type(&self) -> (r: BoxType)
        ensures
            r.code == entry_type(self@),
    {
        match self {
            SampleEntry::Avc1(_) => BoxType { code: Avc1Box::box_type_code() },
            SampleEntry::Mp4v(_) => BoxType { code: Mp4vBox::box_type_code() },
            SampleEntry::Hev1(_) => BoxType { code: Hev1Box::box_type_code() },
            SampleEntry::Hvc1(_) => BoxType { code: Hvc1Box::box_type_code() },
            SampleEntry::Vp08(_) => BoxType { code: Vp08Box::box_type_code() },
            SampleEntry::Vp09(_) => BoxType { code: Vp09Box::box_type_code() },
            SampleEntry::Av01(_) => BoxType { code: Av01Box::box_type_code() },
            SampleEntry::Opus(_) => BoxType { code: OpusBox::box_type_code() },
            SampleEntry::Mp4a(_) => BoxType { code: Mp4aBox::box_type_code() },
            SampleEntry::Flac(_) => BoxType { code: FlacBox::box_type_code() },
            SampleEntry::Stpp(_) => BoxType { code: StppBox::box_type_code() },
            SampleEntry::Wvtt(_) => BoxType { code: WvttBox::box_type_code() },
            SampleEntry::Tx3g(_) => BoxType { code: Tx3gBox::box_type_code() },
            SampleEntry::Unknown(b) => b.box_type,
        }
    }

    /// Whether the entry is kept as an unknown box.
    pub fn is_unknown_box(&self) -> (r: bool)
        ensures
            r == (self@ is Unknown),
    {
        match self {
            SampleEntry::Unknown(_) => true,
            _ => false,
        }
    }

    /// Appends the entry's box.
    pub fn encode(&self, out: &mut Vec<u8>) -> (r: Result<(), Error>)
        ensures
            r matches Err(e) ==> e.kind == ErrorKind::InvalidInput,
            r is Ok <==> sample_entry_encodable(self@),
            r is Ok ==> final(out)@ == old(out)@ + sample_entry_bytes(self@),
    {
        match self {
            SampleEntry::Avc1(b) => encode_box(b, out),
            SampleEntry::Mp4v(b) => encode_box(b, out),
            SampleEntry::Hev1(b) => encode_box(b, out),
            SampleEntry::Hvc1(b) => encode_box(b, out),
            SampleEntry::Vp08(b) => encode_box(b, out),
            SampleEntry::Vp09(b) => encode_box(b, out),
            SampleEntry::Av01(b) => encode_box(b, out),
            SampleEntry::Opus(b) => encode_box(b, out),
            SampleEntry::Mp4a(b) => encode_box(b, out),
            SampleEntry::Flac(b) => encode_box(b, out),
            SampleEntry::Stpp(b) => encode_box(b, out),
            SampleEntry::Wvtt(b) => encode_box(b, out),
            SampleEntry::Tx3g(b) => encode_box(b, out),
            SampleEntry::Unknown(b) => b.encode(out),
        }
    }

    /// The bytes of the entry's box. Fails when it cannot be encoded.
    pub fn encode_to_vec(&self) -> (r: Result<Vec<u8>, Error>)
        ensures
            r matches Err(e) ==> e.kind == ErrorKind::InvalidInput,
            r is Ok <==> sample_entry_encodable(self@),
            r matches Ok(v) ==> v@ == sample_entry_bytes(self@),
    {
        let mut out: Vec<u8> = Vec::new();
        match self.encode(&mut out) {
            Ok(()) => {
                assert(out@ =~= sample_entry_bytes(self@));
                Ok(out)
            },
            Err(e) => Err(e),
        }
    }

    /// Decodes the sample entry at the start of `buf`; returns it and the
    /// number of bytes it spans.
    pub fn decode(buf: &[u8]) -> (r: Result<(SampleEntry, usize), Error>)
        ensures
            r matches Err(e) ==> e.kind == ErrorKind::InvalidData || (e.kind == ErrorKind::Unsupported
                && get32(buf@, 4) == OpusBox::spec_box_type()) || (e.kind == ErrorKind::InvalidInput && (get32(buf@, 4)
                == WvttBox::spec_box_type() || get32(buf@, 4) == StppBox::spec_box_type())),
            r is Ok <==> parse_sample_entry(buf@) is Some,
            r matches Ok((v, n)) ==> parse_sample_entry(buf@) == Some((v@, n as int)),
    {
        let (t, _, _) = match crate::bytes::split_box(buf) {
            Ok(x) => x,
            Err(e) => {
                return Err(e);
            },
        };
        if t == Avc1Box::box_type_code() {
            match Avc1Box::decode(buf) {
                Ok((b, n)) => Ok((SampleEntry::Avc1(b), n)),
                Err(e) => Err(e),
            }
        } else if t == Mp4vBox::box_type_code() {
            match Mp4vBox::decode(buf) {
                Ok((b, n)) => Ok((SampleEntry::Mp4v(b), n)),
                Err(e) => Err(e),
            }
        } else if t == Hev1Box::box_type_code() {
            match Hev1Box::decode(buf) {
                Ok((b, n)) => Ok((SampleEntry::Hev1(b), n)),
                Err(e) => Err(e),
            }
        } else if t == Hvc1Box::box_type_code() {
            match Hvc1Box::decode(buf) {
                Ok((b, n)) => Ok((SampleEntry::Hvc1(b), n)),
                Err(e) => Err(e),
            }
        } else if t == Vp08Box::box_type_code() {
            match Vp08Box::decode(buf) {
                Ok((b, n)) => Ok((SampleEntry::Vp08(b), n)),
                Err(e) => Err(e),
            }
        } else if t == Vp09Box::box_type_code() {
            match Vp09Box::decode(buf) {
                Ok((b, n)) => Ok((SampleEntry::Vp09(b), n)),
                Err(e) => Err(e),
            }
        } else if t == Av01Box::box_type_code() {
            match Av01Box::decode(buf) {
                Ok((b, n)) => Ok((SampleEntry::Av01(b), n)),
                Err(e) => Err(e),
            }
        } else if t == OpusBox::box_type_code() {
            match OpusBox::decode(buf) {
                Ok((b, n)) => Ok((SampleEntry::Opus(b), n)),
                Err(e) => Err(e),
            }
        } else if t == Mp4aBox::box_type_code() {
            match Mp4aBox::decode(buf) {
                Ok((b, n)) => Ok((SampleEntry::Mp4a(b), n)),
                Err(e) => Err(e),
            }
        } else if t == FlacBox::box_type_code() {
            match FlacBox::decode(buf) {
                Ok((b, n)) => Ok((SampleEntry::Flac(b), n)),
                Err(e) => Err(e),
            }
        } else if t == StppBox::box_type_code() {
            match StppBox::decode(buf) {
                Ok((b, n)) => Ok((SampleEntry::Stpp(b), n)),
                Err(e) => Err(e),
            }
        } else if t == WvttBox::box_type_code() {
            match WvttBox::decode(buf) {
                Ok((b, n)) => Ok((SampleEntry::Wvtt(b), n)),
                Err(e) => Err(e),
            }
        } else if t == Tx3gBox::box_type_code() {
            match Tx3gBox::decode(buf) {
                Ok((b, n)) => Ok((SampleEntry::Tx3g(b), n)),
                Err(e) => Err(e),
            }
        } else {
            match UnknownBox::decode(buf) {
                Ok((b, n)) => Ok((SampleEntry::Unknown(b), n)),
                Err(e) => Err(e),
            }
        }
    }
}

} // verus!

