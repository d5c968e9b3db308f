//! The common layout of sample entries: fixed fields, a configuration box,
//! then any other child boxes; and the fixed fields of visual and audio
//! sample entries.
use vstd::prelude::*;

use crate::bytes::{be16, get16, lemma_get16, push_u16, push_u8, read_u16};
use crate::codec::{
    box_of, decode_children, encode_box, encode_unknowns, lemma_children_roundtrip,
    parse_children, unknowns_bytes, unknowns_valid, unknowns_view, BoxCodec, UnknownBox,
    UnknownBoxV,
};
use crate::error::{Error, ErrorKind};

verus! {

/// A fixed point number: integer part and fraction part.
#[derive(Debug, Clone, Copy, PartialEq, Eq, Hash, Default, Structural)]
pub struct FixedPointNumber<I, F> {
    /// Integer part
    pub integer: I,
    /// Fraction part
    pub fraction: F,
}

impl<I, F> FixedPointNumber<I, F> {
    /// The number with the given parts.
    pub fn new(integer: I, fraction: F) -> (r: Self)
        ensures
            r.integer == integer,
            r.fraction == fraction,
    {
        FixedPointNumber { integer, fraction }
    }
}

/// `n` zero bytes.
pub open spec fn zeros(n: nat) -> Seq<u8> {
    Seq::new(n, |i: int| 0u8)
}

/// Appends `n` zero bytes.
pub fn push_zeros(out: &mut Vec<u8>, n: usize)
    ensures
        final(out)@ == old(out)@ + zeros(n as nat),
{
    let mut i: usize = 0;
    while i < n
        invariant
            i <= n,
            out@ == old(out)@ + zeros(i as nat),
        decreases n - i,
    {
        push_u8(out, 0);
        i = i + 1;
        assert(out@ =~= old(out)@ + zeros(i as nat));
    }
}

/// The fixed fields at the start of a sample entry's payload.
pub trait EntryFields: Sized + View {
    /// Number of bytes the fields take.
    spec fn fields_len() -> nat;

    /// The fields decode back from their bytes.
    spec fn fields_valid(v: Self::V) -> bool;

    /// The bytes written for the fields.
    spec fn fields_bytes(v: Self::V) -> Seq<u8>;

    /// The fields read from the start of `p`, if accepted.
    spec fn parse_fields(p: Seq<u8>) -> Option<Self::V>;

    proof fn lemma_fields_roundtrip(v: Self::V, rest: Seq<u8>)
        requires
            Self::fields_valid(v),
        ensures
            Self::fields_bytes(v).len() == Self::fields_len(),
            Self::parse_fields(Self::fields_bytes(v) + rest) == Some(v),
    ;

    proof fn lemma_parse_fields_len(p: Seq<u8>)
        ensures
            Self::parse_fields(p) is Some ==> p.len() >= Self::fields_len(),
    ;

    fn fields_length() -> (r: usize)
        ensures
            r == Self::fields_len(),
    ;

    fn encode_fields(&self, out: &mut Vec<u8>)
        ensures
            final(out)@ == old(out)@ + Self::fields_bytes(self@),
    ;

    fn decode_fields(p: &[u8]) -> (r: Result<Self, Error>)
        ensures
            r is Ok <==> Self::parse_fields(p@) is Some,
            r matches Ok(v) ==> Self::parse_fields(p@) == Some(v@),
            r matches Err(e) ==> e.kind == ErrorKind::InvalidData,
    ;
}

/// The value of a sample entry made of fields, a configuration box and other boxes.
pub struct EntryV<F, C> {
    pub fields: F,
    pub config: C,
    pub unknown_boxes: Seq<UnknownBoxV>,
}

/// The payload of such a sample entry.
pub open spec fn entry_bytes<F: EntryFields, C: BoxCodec>(v: EntryV<F::V, C::V>) -> Seq<u8> {
    F::fields_bytes(v.fields) + box_of::<C>(v.config) + unknowns_bytes(v.unknown_boxes)
}

/// Such a sample entry decoded from a payload: the fields, then the first box
/// of the configuration type (mandatory), every other box kept as unknown.
pub open spec fn parse_entry<F: EntryFields, C: BoxCodec>(p: Seq<u8>) -> Option<EntryV<F::V, C::V>> {
    match F::parse_fields(p) {
        None => None,
        Some(f) => if p.len() < F::fields_len() {
            None
        } else {
            match parse_children::<C>(p.skip(F::fields_len() as int), false) {
                Some((Some(c), us)) => Some(EntryV { fields: f, config: c, unknown_boxes: us }),
                _ => None,
            }
        },
    }
}

/// The payload of such a sample entry can be written.
pub open spec fn entry_encodable<F: EntryFields, C: BoxCodec>(v: EntryV<F::V, C::V>) -> bool {
    crate::codec::box_encodable::<C>(v.config)
}

/// The sample entry decodes back from its payload.
pub open spec fn entry_valid<F: EntryFields, C: BoxCodec>(v: EntryV<F::V, C::V>) -> bool {
    &&& F::fields_valid(v.fields)
    &&& C::valid(v.config)
    &&& 8 + C::payload_bytes(v.config).len() <= u32::MAX
    &&& unknowns_valid(v.unknown_boxes)
}

/// A valid sample entry decodes back from its payload.
pub proof fn lemma_entry_roundtrip<F: EntryFields, C: BoxCodec>(v: EntryV<F::V, C::V>)
    requires
        entry_valid::<F, C>(v),
    ensures
        entry_encodable::<F, C>(v),
        parse_entry::<F, C>(entry_bytes::<F, C>(v)) == Some(v),
{
    let rest = box_of::<C>(v.config) + unknowns_bytes(v.unknown_boxes);
    F::lemma_fields_roundtrip(v.fields, rest);
    crate::codec::lemma_box_roundtrip::<C>(v.config, unknowns_bytes(v.unknown_boxes));
    lemma_children_roundtrip::<C>(v.config, v.unknown_boxes);
    let p = entry_bytes::<F, C>(v);
    assert(p =~= F::fields_bytes(v.fields) + rest);
    assert(p.skip(F::fields_len() as int) =~= rest);
}

/// Appends the payload of a sample entry.
pub fn encode_entry<F: EntryFields, C: BoxCodec>(
    fields: &F,
    config: &C,
    unknown_boxes: &Vec<UnknownBox>,
    out: &mut Vec<u8>,
) -> (r: Result<(), Error>)
    ensures
        r matches Err(e) ==> e.kind == ErrorKind::InvalidInput,
        r is Ok <==> entry_encodable::<F, C>(
            EntryV { fields: fields@, config: config@, unknown_boxes: unknowns_view(unknown_boxes@) },
        ),
        r is Ok ==> final(out)@ == old(out)@ + entry_bytes::<F, C>(
            EntryV { fields: fields@, config: config@, unknown_boxes: unknowns_view(unknown_boxes@) },
        ),
{
    fields.encode_fields(out);
    let ghost a = out@;
    match encode_box(config, out) {
        Ok(()) => {},
        Err(e) => {
            return Err(e);
        },
    }
    let ghost b = out@;
    match encode_unknowns(unknown_boxes, out) {
        Ok(()) => {},
        Err(e) => {
            return Err(e);
        },
    }
    assert(out@ =~= old(out)@ + entry_bytes::<F, C>(
        EntryV { fields: fields@, config: config@, unknown_boxes: unknowns_view(unknown_boxes@) },
    ));
    Ok(())
}

/// Decodes the payload of a sample entry.
pub fn decode_entry<F: EntryFields, C: BoxCodec>(p: &[u8]) -> (r: Result<
    (F, C, Vec<UnknownBox>),
    Error,
>)
    ensures
        r is Ok <==> parse_entry::<F, C>(p@) is Some,
        r matches Ok((f, c, us)) ==> parse_entry::<F, C>(p@) == Some(
            EntryV { fields: f@, config: c@, unknown_boxes: unknowns_view(us@) },
        ),
        r matches Err(e) ==> e.kind == ErrorKind::InvalidData || C::decode_error_kind(e.kind),
{
    let f = match F::decode_fields(p) {
        Ok(f) => f,
        Err(e) => {
            return Err(e);
        },
    };
    proof {
        F::lemma_parse_fields_len(p@);
    }
    let n = F::fields_length();
    let tail = vstd::slice::slice_subrange(p, n, p.len());
    assert(tail@ =~= p@.skip(n as int));
    match decode_children::<C>(tail, false) {
        Ok((Some(c), us)) => Ok((f, c, us)),
        Ok((None, _)) => Err(Error::invalid_data("missing mandatory configuration box")),
        Err(e) => Err(e),
    }
}

/// Fields shared by the visual sample entries.
#[derive(Debug, Clone, Copy, PartialEq, Eq, Hash)]
pub struct VisualSampleEntryFields {
    /// Data reference index (1-based index into `dref`, never 0)
    pub data_reference_index: u16,
    /// Width in pixels
    pub width: u16,
    /// Height in pixels
    pub height: u16,
    /// Horizontal resolution (dpi)
    pub horizresolution: FixedPointNumber<u16, u16>,
    /// Vertical resolution (dpi)
    pub vertresolution: FixedPointNumber<u16, u16>,
    /// Frames per sample (usually 1)
    pub frame_count: u16,
    /// Compressor name (Pascal string: length byte, then text)
    pub compressorname: [u8; 32],
    /// Colour depth in bits (24 for colour without alpha)
    pub depth: u16,
}

/// The value of [`VisualSampleEntryFields`].
pub struct VisualFieldsV {
    pub data_reference_index: u16,
    pub width: u16,
    pub height: u16,
    pub horizresolution: FixedPointNumber<u16, u16>,
    pub vertresolution: FixedPointNumber<u16, u16>,
    pub frame_count: u16,
    pub compressorname: Seq<u8>,
    pub depth: u16,
}

impl View for VisualSampleEntryFields {
    type V = VisualFieldsV;

    open spec fn view(&self) -> VisualFieldsV {
        VisualFieldsV {
            data_reference_index: self.data_reference_index,
            width: self.width,
            height: self.height,
            horizresolution: self.horizresolution,
            vertresolution: self.vertresolution,
            frame_count: self.frame_count,
            compressorname: self.compressorname@,
            depth: self.depth,
        }
    }
}

impl VisualSampleEntryFields {
    /// Default data reference index (1)
    pub const DEFAULT_DATA_REFERENCE_INDEX: u16 = 1;

    /// Default horizontal resolution: 72 dpi
    pub fn default_horizresolution() -> (r: FixedPointNumber<u16, u16>)
        ensures
            r.integer == 0x48 && r.fraction == 0,
    {
        FixedPointNumber { integer: 0x48, fraction: 0 }
    }

    /// Default vertical resolution: 72 dpi
    pub fn default_vertresolution() -> (r: FixedPointNumber<u16, u16>)
        ensures
            r.integer == 0x48 && r.fraction == 0,
    {
        FixedPointNumber { integer: 0x48, fraction: 0 }
    }

    /// Default frame count (1)
    pub const DEFAULT_FRAME_COUNT: u16 = 1;

    /// Default depth (colour without alpha)
    pub const DEFAULT_DEPTH: u16 = 0x0018;

    /// Empty compressor name
    pub fn null_compressorname() -> (r: [u8; 32])
        ensures
            r@ == zeros(32),
    {
        let r = [0u8; 32];
        assert(r@ =~= zeros(32));
        r
    }
}

/// Bytes of the visual sample entry fields (78 bytes).
pub open spec fn visual_bytes(v: VisualFieldsV) -> Seq<u8> {
    zeros(6) + be16(v.data_reference_index) + zeros(16) + be16(v.width) + be16(v.height) + be16(
        v.horizresolution.integer,
    ) + be16(v.horizresolution.fraction) + be16(v.vertresolution.integer) + be16(
        v.vertresolution.fraction,
    ) + zeros(4) + be16(v.frame_count) + v.compressorname + be16(v.depth) + be16(0xFFFF)
}

/// Visual sample entry fields read from the start of `p`: reserved bytes and
/// `pre_defined` are skipped; the data reference index must not be 0.
pub open spec fn parse_visual(p: Seq<u8>) -> Option<VisualFieldsV> {
    if p.len() < 78 || get16(p, 6) == 0 {
        None
    } else {
        Some(
            VisualFieldsV {
                data_reference_index: get16(p, 6),
                width: get16(p, 24),
                height: get16(p, 26),
                horizresolution: FixedPointNumber { integer: get16(p, 28), fraction: get16(p, 30) },
                vertresolution: FixedPointNumber { integer: get16(p, 32), fraction: get16(p, 34) },
                frame_count: get16(p, 40),
                compressorname: p.subrange(42, 74),
                depth: get16(p, 74),
            },
        )
    }
}

impl EntryFields for VisualSampleEntryFields {
    open spec fn fields_len() -> nat {
        78
    }

    open spec fn fields_valid(v: VisualFieldsV) -> bool {
        v.data_reference_index != 0 && v.compressorname.len() == 32
    }

    open spec fn fields_bytes(v: VisualFieldsV) -> Seq<u8> {
        visual_bytes(v)
    }

    open spec fn parse_fields(p: Seq<u8>) -> Option<VisualFieldsV> {
        parse_visual(p)
    }

    proof fn lemma_fields_roundtrip(v: VisualFieldsV, rest: Seq<u8>) {
        let p = visual_bytes(v) + rest;
        assert(p.subrange(6, 8) =~= be16(v.data_reference_index));
        assert(p.subrange(24, 26) =~= be16(v.width));
        assert(p.subrange(26, 28) =~= be16(v.height));
        assert(p.subrange(28, 30) =~= be16(v.horizresolution.integer));
        assert(p.subrange(30, 32) =~= be16(v.horizresolution.fraction));
        assert(p.subrange(32, 34) =~= be16(v.vertresolution.integer));
        assert(p.subrange(34, 36) =~= be16(v.vertresolution.fraction));
        assert(p.subrange(40, 42) =~= be16(v.frame_count));
        assert(p.subrange(42, 74) =~= v.compressorname);
        assert(p.subrange(74, 76) =~= be16(v.depth));
        lemma_get16(p, 6, v.data_reference_index);
        lemma_get16(p, 24, v.width);
        lemma_get16(p, 26, v.height);
        lemma_get16(p, 28, v.horizresolution.integer);
        lemma_get16(p, 30, v.horizresolution.fraction);
        lemma_get16(p, 32, v.vertresolution.integer);
        lemma_get16(p, 34, v.vertresolution.fraction);
        lemma_get16(p, 40, v.frame_count);
        lemma_get16(p, 74, v.depth);
    }

    proof fn lemma_parse_fields_len(p: Seq<u8>) {
    }

    fn fields_length() -> (r: usize) {
        78
    }

    fn encode_fields(&self, out: &mut Vec<u8>) {
        push_zeros(out, 6);
        push_u16(out, self.data_reference_index);
        push_zeros(out, 16);
        push_u16(out, self.width);
        push_u16(out, self.height);
        push_u16(out, self.horizresolution.integer);
        push_u16(out, self.horizresolution.fraction);
        push_u16(out, self.vertresolution.integer);
        push_u16(out, self.vertresolution.fraction);
        push_zeros(out, 4);
        push_u16(out, self.frame_count);
        crate::bytes::push_slice(out, self.compressorname.as_slice());
        push_u16(out, self.depth);
        push_u16(out, 0xFFFF);
        assert(out@ =~= old(out)@ + visual_bytes(self@));
    }

    fn decode_fields(p: &[u8]) -> (r: Result<Self, Error>) {
        if p.len() < 78 {
            return Err(Error::invalid_data("visual sample entry fields are truncated"));
        }
        let data_reference_index = match read_u16(p, 6) {
            Ok(v) => v,
            Err(e) => {
                return Err(e);
            },
        };
        if data_reference_index == 0 {
            return Err(Error::invalid_data("data_reference_index must not be 0"));
        }
        let width = match read_u16(p, 24) {
            Ok(v) => v,
            Err(e) => {
                return Err(e);
            },
        };
        let height = match read_u16(p, 26) {
            Ok(v) => v,
            Err(e) => {
                return Err(e);
            },
        };
        let hi = match read_u16(p, 28) {
            Ok(v) => v,
            Err(e) => {
                return Err(e);
            },
        };
        let hf = match read_u16(p, 30) {
            Ok(v) => v,
            Err(e) => {
                return Err(e);
            },
        };
        let vi = match read_u16(p, 32) {
            Ok(v) => v,
            Err(e) => {
                return Err(e);
            },
        };
        let vf = match read_u16(p, 34) {
            Ok(v) => v,
            Err(e) => {
                return Err(e);
            },
        };
        let frame_count = match read_u16(p, 40) {
            Ok(v) => v,
            Err(e) => {
                return Err(e);
            },
        };
        let mut compressorname = [0u8; 32];
        let mut i: usize = 0;
        while i < 32
            invariant
                i <= 32,
                p@.len() >= 78,
                forall|j: int| 0 <= j < i ==> compressorname@[j] == p@[42 + j],
            decreases 32 - i,
        {
            compressorname[i] = p[42 + i];
            i = i + 1;
        }
        let depth = match read_u16(p, 74) {
            Ok(v) => v,
            Err(e) => {
                return Err(e);
            },
        };
        assert(compressorname@ =~= p@.subrange(42, 74));
        Ok(
            VisualSampleEntryFields {
                data_reference_index,
                width,
                height,
                horizresolution: FixedPointNumber { integer: hi, fraction: hf },
                vertresolution: FixedPointNumber { integer: vi, fraction: vf },
                frame_count,
                compressorname,
                depth,
            },
        )
    }
}

/// Fields shared by the audio sample entries.
#[derive(Debug, Clone, Copy, PartialEq, Eq, Hash, Structural)]
pub struct AudioSampleEntryFields {
    /// Data reference index (1-based index into `dref`, never 0)
    pub data_reference_index: u16,
    /// Number of channels
    pub channelcount: u16,
    /// Bits per sample
    pub samplesize: u16,
    /// Sampling rate in Hz (16.16 fixed point)
    pub samplerate: FixedPointNumber<u16, u16>,
}

impl View for AudioSampleEntryFields {
    type V = AudioSampleEntryFields;

    open spec fn view(&self) -> AudioSampleEntryFields {
        *self
    }
}

impl AudioSampleEntryFields {
    /// Default data reference index (1)
    pub const DEFAULT_DATA_REFERENCE_INDEX: u16 = 1;

    /// Default sample size (16)
    pub const DEFAULT_SAMPLESIZE: u16 = 16;
}

/// Bytes of the audio sample entry fields (28 bytes).
pub open spec fn audio_bytes(v: AudioSampleEntryFields) -> Seq<u8> {
    zeros(6) + be16(v.data_reference_index) + zeros(8) + be16(v.channelcount) + be16(v.samplesize)
        + zeros(4) + be16(v.samplerate.integer) + be16(v.samplerate.fraction)
}

/// Audio sample entry fields read from the start of `p`; the data reference
/// index must not be 0.
pub open spec fn parse_audio(p: Seq<u8>) -> Option<AudioSampleEntryFields> {
    if p.len() < 28 || get16(p, 6) == 0 {
        None
    } else {
        Some(
            AudioSampleEntryFields {
                data_reference_index: get16(p, 6),
                channelcount: get16(p, 16),
                samplesize: get16(p, 18),
                samplerate: FixedPointNumber { integer: get16(p, 24), fraction: get16(p, 26) },
            },
        )
    }
}

impl EntryFields for AudioSampleEntryFields {
    open spec fn fields_len() -> nat {
        28
    }

    open spec fn fields_valid(v: AudioSampleEntryFields) -> bool {
        v.data_reference_index != 0
    }

    open spec fn fields_bytes(v: AudioSampleEntryFields) -> Seq<u8> {
        audio_bytes(v)
    }

    open spec fn parse_fields(p: Seq<u8>) -> Option<AudioSampleEntryFields> {
        parse_audio(p)
    }

    proof fn lemma_fields_roundtrip(v: AudioSampleEntryFields, rest: Seq<u8>) {
        let p = audio_bytes(v) + rest;
        assert(p.subrange(6, 8) =~= be16(v.data_reference_index));
        assert(p.subrange(16, 18) =~= be16(v.channelcount));
        assert(p.subrange(18, 20) =~= be16(v.samplesize));
        assert(p.subrange(24, 26) =~= be16(v.samplerate.integer));
        assert(p.subrange(26, 28) =~= be16(v.samplerate.fraction));
        lemma_get16(p, 6, v.data_reference_index);
        lemma_get16(p, 16, v.channelcount);
        lemma_get16(p, 18, v.samplesize);
        lemma_get16(p, 24, v.samplerate.integer);
        lemma_get16(p, 26, v.samplerate.fraction);
    }

    proof fn lemma_parse_fields_len(p: Seq<u8>) {
    }

    fn fields_length() -> (r: usize) {
        28
    }

    fn encode_fields(&self, out: &mut Vec<u8>) {
        push_zeros(out, 6);
        push_u16(out, self.data_reference_index);
        push_zeros(out, 8);
        push_u16(out, self.channelcount);
        push_u16(out, self.samplesize);
        push_zeros(out, 4);
        push_u16(out, self.samplerate.integer);
        push_u16(out, self.samplerate.fraction);
        assert(out@ =~= old(out)@ + audio_bytes(*self));
    }

    fn decode_fields(p: &[u8]) -> (r: Result<Self, Error>) {
        if p.len() < 28 {
            return Err(Error::invalid_data("audio sample entry fields are truncated"));
        }
        let data_reference_index = match read_u16(p, 6) {
            Ok(v) => v,
            Err(e) => {
                return Err(e);
            },
        };
        if data_reference_index == 0 {
            return Err(Error::invalid_data("data_reference_index must not be 0"));
        }
        let channelcount = match read_u16(p, 16) {
            Ok(v) => v,
            Err(e) => {
                return Err(e);
            },
        };
        let samplesize = match read_u16(p, 18) {
            Ok(v) => v,
            Err(e) => {
                return Err(e);
            },
        };
        let ri = match read_u16(p, 24) {
            Ok(v) => v,
            Err(e) => {
                return Err(e);
            },
        };
        let rf = match read_u16(p, 26) {
            Ok(v) => v,
            Err(e) => {
                return Err(e);
            },
        };
        Ok(
            AudioSampleEntryFields {
                data_reference_index,
                channelcount,
                samplesize,
                samplerate: FixedPointNumber { integer: ri, fraction: rf },
            },
        )
    }
}

} // verus!
