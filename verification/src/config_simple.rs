//! Fixed-layout decoder configuration boxes: `dOps` (Opus), `vpcC` (VP8 / VP9)
//! and `av1C` (AV1).
use vstd::prelude::*;

use crate::bytes::{
    be16, be32, get16, get32, lemma_get16, lemma_get32, push_slice, push_u16, push_u32, push_u8,
    read_u16, read_u32, read_u8,
};
use crate::codec::{full_header_bytes, push_full_header, BoxCodec};
use crate::codec::{box_encodable, box_of, decode_box, encode_box_to_vec, parse_box};
use crate::error::{Error, ErrorKind};

verus! {

/// `dOps`: Opus decoder configuration (channel mapping family 0 only).
#[derive(Debug, Clone, Copy, PartialEq, Eq, Hash, Structural)]
pub struct DopsBox {
    /// Number of output channels
    pub output_channel_count: u8,
    /// Samples (at 48 kHz) to drop at the start of the output
    pub pre_skip: u16,
    /// Sampling rate of the original input (informational)
    pub input_sample_rate: u32,
    /// Output gain (Q7.8 dB)
    pub output_gain: i16,
}

impl View for DopsBox {
    type V = DopsBox;

    open spec fn view(&self) -> DopsBox {
        *self
    }
}

impl DopsBox {
    /// Box type `dOps`
    pub const TYPE: u32 = 0x644F7073;
}

/// `dOps` payload: version 0, channel count, pre-skip, input rate, gain,
/// channel mapping family 0.
pub open spec fn dops_bytes(v: DopsBox) -> Seq<u8> {
    seq![0u8, v.output_channel_count] + be16(v.pre_skip) + be32(v.input_sample_rate) + be16(
        v.output_gain as u16,
    ) + seq![0u8]
}

/// `dOps` payload decoding: at least 11 bytes, version 0 and channel mapping
/// family 0; bytes after the 11th are ignored.
pub open spec fn parse_dops(p: Seq<u8>) -> Option<DopsBox> {
    if p.len() < 11 || p[0] != 0 || p[10] != 0 {
        None
    } else {
        Some(
            DopsBox {
                output_channel_count: p[1],
                pre_skip: get16(p, 2),
                input_sample_rate: get32(p, 4),
                output_gain: get16(p, 8) as i16,
            },
        )
    }
}

/// The `dOps` payload is laid out byte by byte as Opus in ISO BMFF has it:
/// version 0, the output channel count, PreSkip big-endian at bytes 2..4,
/// InputSampleRate at bytes 4..8, OutputGain at bytes 8..10 and channel
/// mapping family 0 at byte 10; reading a payload takes each field from the
/// same bytes.
pub proof fn lemma_dops_layout(v: DopsBox, p: Seq<u8>)
    ensures
        ({
            let b = dops_bytes(v);
            &&& b.len() == 11
            &&& b[0] == 0
            &&& b[1] == v.output_channel_count
            &&& get16(b, 2) == v.pre_skip
            &&& get32(b, 4) == v.input_sample_rate
            &&& get16(b, 8) == v.output_gain as u16
            &&& b[10] == 0
        }),
        p.len() >= 11 && p[0] == 0 && p[10] == 0 ==> (parse_dops(p) matches Some(d) && d.output_channel_count
            == p[1] && d.pre_skip == get16(p, 2) && d.input_sample_rate == get32(p, 4) && d.output_gain as u16
            == get16(p, 8)),
{
    let b = dops_bytes(v);
    assert(b.subrange(2, 4) =~= be16(v.pre_skip));
    assert(b.subrange(4, 8) =~= be32(v.input_sample_rate));
    assert(b.subrange(8, 10) =~= be16(v.output_gain as u16));
    lemma_get16(b, 2, v.pre_skip);
    lemma_get32(b, 4, v.input_sample_rate);
    lemma_get16(b, 8, v.output_gain as u16);
    let g = get16(p, 8);
    assert((g as i16) as u16 == g) by (bit_vector);
}

proof fn lemma_i16_u16(v: i16)
    ensures
        (v as u16) as i16 == v,
{
    assert((v as u16) as i16 == v) by (bit_vector);
}

impl BoxCodec for DopsBox {
    /// A channel mapping family other than 0 is `Unsupported`; any other
    /// refused payload is `InvalidData`.
    open spec fn decode_error_kind(k: ErrorKind) -> bool {
        k == ErrorKind::InvalidData || k == ErrorKind::Unsupported
    }

    open spec fn spec_box_type() -> u32 {
        0x644F7073
    }

    open spec fn encodable(v: DopsBox) -> bool {
        true
    }

    open spec fn valid(v: DopsBox) -> bool {
        true
    }

    open spec fn payload_bytes(v: DopsBox) -> Seq<u8> {
        dops_bytes(v)
    }

    open spec fn parse_payload(p: Seq<u8>) -> Option<DopsBox> {
        parse_dops(p)
    }

    proof fn lemma_payload_roundtrip(v: DopsBox) {
        let p = dops_bytes(v);
        assert(p.subrange(2, 4) =~= be16(v.pre_skip));
        assert(p.subrange(4, 8) =~= be32(v.input_sample_rate));
        assert(p.subrange(8, 10) =~= be16(v.output_gain as u16));
        lemma_get16(p, 2, v.pre_skip);
        lemma_get32(p, 4, v.input_sample_rate);
        lemma_get16(p, 8, v.output_gain as u16);
        lemma_i16_u16(v.output_gain);
    }

    fn box_type_code() -> (r: u32) {
        Self::TYPE
    }

    fn encode_payload(&self, out: &mut Vec<u8>) -> (r: Result<(), Error>) {
        push_u8(out, 0);
        push_u8(out, self.output_channel_count);
        push_u16(out, self.pre_skip);
        push_u32(out, self.input_sample_rate);
        push_u16(out, self.output_gain as u16);
        push_u8(out, 0);
        assert(out@ =~= old(out)@ + dops_bytes(*self));
        Ok(())
    }

    fn decode_payload(p: &[u8]) -> (r: Result<Self, Error>) {
        if p.len() < 11 {
            return Err(Error::invalid_data("dOps box is truncated"));
        }
        if p[0] != 0 {
            return Err(Error::invalid_data("unsupported dOps version"));
        }
        if p[10] != 0 {
            return Err(Error::unsupported("ChannelMappingFamily != 0 in dOps box is not supported"));
        }
        let pre_skip = match read_u16(p, 2) {
            Ok(v) => v,
            Err(e) => {
                return Err(e);
            },
        };
        let input_sample_rate = match read_u32(p, 4) {
            Ok(v) => v,
            Err(e) => {
                return Err(e);
            },
        };
        let gain = match read_u16(p, 8) {
            Ok(v) => v,
            Err(e) => {
                return Err(e);
            },
        };
        Ok(
            DopsBox {
                output_channel_count: p[1],
                pre_skip,
                input_sample_rate,
                output_gain: gain as i16,
            },
        )
    }
}

/// `vpcC`: VP8 / VP9 codec configuration (full box, version 1).
#[derive(Debug, Clone, PartialEq, Eq, Hash)]
pub struct VpccBox {
    /// Profile
    pub profile: u8,
    /// Level
    pub level: u8,
    /// Bit depth (4 bits: 8, 10 or 12)
    pub bit_depth: u8,
    /// Chroma subsampling (3 bits)
    pub chroma_subsampling: u8,
    /// Full range flag (1 bit)
    pub video_full_range_flag: u8,
    /// Colour primaries (ISO/IEC 23001-8)
    pub colour_primaries: u8,
    /// Transfer characteristics (ISO/IEC 23001-8)
    pub transfer_characteristics: u8,
    /// Matrix coefficients (ISO/IEC 23001-8)
    pub matrix_coefficients: u8,
    /// Codec initialization data (empty for VP8 / VP9)
    pub codec_initialization_data: Vec<u8>,
}

/// The value of a [`VpccBox`].
pub struct VpccBoxV {
    pub profile: u8,
    pub level: u8,
    pub bit_depth: u8,
    pub chroma_subsampling: u8,
    pub video_full_range_flag: u8,
    pub colour_primaries: u8,
    pub transfer_characteristics: u8,
    pub matrix_coefficients: u8,
    pub codec_initialization_data: Seq<u8>,
}

impl View for VpccBox {
    type V = VpccBoxV;

    open spec fn view(&self) -> VpccBoxV {
        VpccBoxV {
            profile: self.profile,
            level: self.level,
            bit_depth: self.bit_depth,
            chroma_subsampling: self.chroma_subsampling,
            video_full_range_flag: self.video_full_range_flag,
            colour_primaries: self.colour_primaries,
            transfer_characteristics: self.transfer_characteristics,
            matrix_coefficients: self.matrix_coefficients,
            codec_initialization_data: self.codec_initialization_data@,
        }
    }
}

impl VpccBox {
    /// Box type `vpcC`
    pub const TYPE: u32 = 0x76706343;
}

/// The byte holding bit depth (4 bits), chroma subsampling (3) and full range flag (1).
pub open spec fn vpcc_packed(v: VpccBoxV) -> u8 {
    (v.bit_depth * 16 + v.chroma_subsampling * 2 + v.video_full_range_flag) as u8
}

/// `vpcC` payload.
pub open spec fn vpcc_bytes(v: VpccBoxV) -> Seq<u8> {
    full_header_bytes(1, 0) + seq![v.profile, v.level, vpcc_packed(v), v.colour_primaries,
    v.transfer_characteristics, v.matrix_coefficients] + be16(
        v.codec_initialization_data.len() as u16,
    ) + v.codec_initialization_data
}

/// `vpcC` payload decoding: version 1 (flags ignored), then the fields; the
/// initialization data must fit in the payload; bytes after it are ignored.
pub open spec fn parse_vpcc(p: Seq<u8>) -> Option<VpccBoxV> {
    if p.len() < 12 || p[0] != 1 || 12 + get16(p, 10) > p.len() {
        None
    } else {
        Some(
            VpccBoxV {
                profile: p[4],
                level: p[5],
                bit_depth: p[6] / 16,
                chroma_subsampling: (p[6] / 2) % 8,
                video_full_range_flag: p[6] % 2,
                colour_primaries: p[7],
                transfer_characteristics: p[8],
                matrix_coefficients: p[9],
                codec_initialization_data: p.subrange(12, 12 + get16(p, 10)),
            },
        )
    }
}

impl BoxCodec for VpccBox {
    open spec fn decode_error_kind(k: ErrorKind) -> bool {
        k == ErrorKind::InvalidData
    }

    open spec fn spec_box_type() -> u32 {
        0x76706343
    }

    open spec fn encodable(v: VpccBoxV) -> bool {
        &&& v.bit_depth < 16
        &&& v.chroma_subsampling < 8
        &&& v.video_full_range_flag < 2
        &&& v.codec_initialization_data.len() <= 0xFFFF
    }

    open spec fn valid(v: VpccBoxV) -> bool {
        Self::encodable(v)
    }

    open spec fn payload_bytes(v: VpccBoxV) -> Seq<u8> {
        vpcc_bytes(v)
    }

    open spec fn parse_payload(p: Seq<u8>) -> Option<VpccBoxV> {
        parse_vpcc(p)
    }

    proof fn lemma_payload_roundtrip(v: VpccBoxV) {
        let p = vpcc_bytes(v);
        let n = v.codec_initialization_data.len() as u16;
        assert(p.subrange(10, 12) =~= be16(n));
        lemma_get16(p, 10, n);
        assert(p.subrange(12, 12 + n) =~= v.codec_initialization_data);
        let b = vpcc_packed(v);
        assert(b / 16 == v.bit_depth);
        assert((b / 2) % 8 == v.chroma_subsampling);
        assert(b % 2 == v.video_full_range_flag);
    }

    fn box_type_code() -> (r: u32) {
        Self::TYPE
    }

    fn encode_payload(&self, out: &mut Vec<u8>) -> (r: Result<(), Error>) {
        if self.bit_depth >= 16 || self.chroma_subsampling >= 8 || self.video_full_range_flag >= 2 {
            return Err(Error::invalid_input("vpcC bit field out of range"));
        }
        if self.codec_initialization_data.len() > 0xFFFF {
            return Err(Error::invalid_input("codec_initialization_data exceeds u16::MAX"));
        }
        push_full_header(out, 1, 0);
        push_u8(out, self.profile);
        push_u8(out, self.level);
        push_u8(out, self.bit_depth * 16 + self.chroma_subsampling * 2 + self.video_full_range_flag);
        push_u8(out, self.colour_primaries);
        push_u8(out, self.transfer_characteristics);
        push_u8(out, self.matrix_coefficients);
        push_u16(out, self.codec_initialization_data.len() as u16);
        push_slice(out, self.codec_initialization_data.as_slice());
        assert(out@ =~= old(out)@ + vpcc_bytes(self@));
        Ok(())
    }

    fn decode_payload(p: &[u8]) -> (r: Result<Self, Error>) {
        if p.len() < 12 {
            return Err(Error::invalid_data("vpcC box is truncated"));
        }
        if p[0] != 1 {
            return Err(Error::invalid_data("unexpected vpcC full box version"));
        }
        let size = match read_u16(p, 10) {
            Ok(v) => v,
            Err(e) => {
                return Err(e);
            },
        };
        if size as usize > p.len() - 12 {
            return Err(Error::invalid_data("codec initialization data exceeds payload boundary"));
        }
        let b = p[6];
        let data = vstd::slice::slice_to_vec(
            vstd::slice::slice_subrange(p, 12, 12 + size as usize),
        );
        Ok(
            VpccBox {
                profile: p[4],
                level: p[5],
                bit_depth: b / 16,
                chroma_subsampling: (b / 2) % 8,
                video_full_range_flag: b % 2,
                colour_primaries: p[7],
                transfer_characteristics: p[8],
                matrix_coefficients: p[9],
                codec_initialization_data: data,
            },
        )
    }
}

/// `av1C`: AV1 codec configuration.
#[derive(Debug, Clone, PartialEq, Eq, Hash)]
pub struct Av1cBox {
    /// `seq_profile` (3 bits)
    pub seq_profile: u8,
    /// `seq_level_idx[0]` (5 bits)
    pub seq_level_idx_0: u8,
    /// `seq_tier[0]` (1 bit)
    pub seq_tier_0: u8,
    /// `high_bitdepth` (1 bit)
    pub high_bitdepth: u8,
    /// `twelve_bit` (1 bit)
    pub twelve_bit: u8,
    /// `monochrome` (1 bit)
    pub monochrome: u8,
    /// `subsampling_x` (1 bit)
    pub chroma_subsampling_x: u8,
    /// `subsampling_y` (1 bit)
    pub chroma_subsampling_y: u8,
    /// `chroma_sample_position` (2 bits)
    pub chroma_sample_position: u8,
    /// `initial_presentation_delay_minus_one` (4 bits), when present
    pub initial_presentation_delay_minus_one: Option<u8>,
    /// Configuration OBUs, raw
    pub config_obus: Vec<u8>,
}

/// The value of an [`Av1cBox`].
pub struct Av1cBoxV {
    pub seq_profile: u8,
    pub seq_level_idx_0: u8,
    pub seq_tier_0: u8,
    pub high_bitdepth: u8,
    pub twelve_bit: u8,
    pub monochrome: u8,
    pub chroma_subsampling_x: u8,
    pub chroma_subsampling_y: u8,
    pub chroma_sample_position: u8,
    pub initial_presentation_delay_minus_one: Option<u8>,
    pub config_obus: Seq<u8>,
}

impl View for Av1cBox {
    type V = Av1cBoxV;

    open spec fn view(&self) -> Av1cBoxV {
        Av1cBoxV {
            seq_profile: self.seq_profile,
            seq_level_idx_0: self.seq_level_idx_0,
            seq_tier_0: self.seq_tier_0,
            high_bitdepth: self.high_bitdepth,
            twelve_bit: self.twelve_bit,
            monochrome: self.monochrome,
            chroma_subsampling_x: self.chroma_subsampling_x,
            chroma_subsampling_y: self.chroma_subsampling_y,
            chroma_sample_position: self.chroma_sample_position,
            initial_presentation_delay_minus_one: self.initial_presentation_delay_minus_one,
            config_obus: self.config_obus@,
        }
    }
}

impl Av1cBox {
    /// Box type `av1C`
    pub const TYPE: u32 = 0x61763143;
}

/// Byte 2 of `av1C`: tier, high bit depth, twelve bit, monochrome, subsampling x / y, sample position.
pub open spec fn av1c_flags(v: Av1cBoxV) -> u8 {
    (v.seq_tier_0 * 128 + v.high_bitdepth * 64 + v.twelve_bit * 32 + v.monochrome * 16
        + v.chroma_subsampling_x * 8 + v.chroma_subsampling_y * 4 + v.chroma_sample_position) as u8
}

/// Byte 3 of `av1C`: presence bit and delay.
pub open spec fn av1c_delay_byte(v: Av1cBoxV) -> u8 {
    match v.initial_presentation_delay_minus_one {
        Some(d) => (16 + d) as u8,
        None => 0,
    }
}

/// `av1C` payload: marker and version (0x81), profile and level, flags,
/// presentation delay, configuration OBUs.
pub open spec fn av1c_bytes(v: Av1cBoxV) -> Seq<u8> {
    seq![0x81u8, (v.seq_profile * 32 + v.seq_level_idx_0) as u8, av1c_flags(v), av1c_delay_byte(v)]
        + v.config_obus
}

/// `av1C` payload decoding: marker 1 and version 1, then the fields; the
/// configuration OBUs are the rest of the payload.
pub open spec fn parse_av1c(p: Seq<u8>) -> Option<Av1cBoxV> {
    if p.len() < 4 || p[0] != 0x81 {
        None
    } else {
        Some(
            Av1cBoxV {
                seq_profile: p[1] / 32,
                seq_level_idx_0: p[1] % 32,
                seq_tier_0: p[2] / 128,
                high_bitdepth: (p[2] / 64) % 2,
                twelve_bit: (p[2] / 32) % 2,
                monochrome: (p[2] / 16) % 2,
                chroma_subsampling_x: (p[2] / 8) % 2,
                chroma_subsampling_y: (p[2] / 4) % 2,
                chroma_sample_position: p[2] % 4,
                initial_presentation_delay_minus_one: if (p[3] / 16) % 2 == 1 {
                    Some(p[3] % 16)
                } else {
                    None
                },
                config_obus: p.skip(4),
            },
        )
    }
}

impl BoxCodec for Av1cBox {
    open spec fn decode_error_kind(k: ErrorKind) -> bool {
        k == ErrorKind::InvalidData
    }

    open spec fn spec_box_type() -> u32 {
        0x61763143
    }

    open spec fn encodable(v: Av1cBoxV) -> bool {
        &&& v.seq_profile < 8
        &&& v.seq_level_idx_0 < 32
        &&& v.seq_tier_0 < 2
        &&& v.high_bitdepth < 2
        &&& v.twelve_bit < 2
        &&& v.monochrome < 2
        &&& v.chroma_subsampling_x < 2
        &&& v.chroma_subsampling_y < 2
        &&& v.chroma_sample_position < 4
        &&& v.initial_presentation_delay_minus_one matches Some(d) ==> d < 16
    }

    open spec fn valid(v: Av1cBoxV) -> bool {
        Self::encodable(v)
    }

    open spec fn payload_bytes(v: Av1cBoxV) -> Seq<u8> {
        av1c_bytes(v)
    }

    open spec fn parse_payload(p: Seq<u8>) -> Option<Av1cBoxV> {
        parse_av1c(p)
    }

    proof fn lemma_payload_roundtrip(v: Av1cBoxV) {
        let p = av1c_bytes(v);
        assert(p.skip(4) =~= v.config_obus);
        let f = av1c_flags(v);
        assert(f / 128 == v.seq_tier_0);
        assert((f / 64) % 2 == v.high_bitdepth);
        assert((f / 32) % 2 == v.twelve_bit);
        assert((f / 16) % 2 == v.monochrome);
        assert((f / 8) % 2 == v.chroma_subsampling_x);
        assert((f / 4) % 2 == v.chroma_subsampling_y);
        assert(f % 4 == v.chroma_sample_position);
    }

    fn box_type_code() -> (r: u32) {
        Self::TYPE
    }

    fn encode_payload(&self, out: &mut Vec<u8>) -> (r: Result<(), Error>) {
        if self.seq_profile >= 8 || self.seq_level_idx_0 >= 32 || self.seq_tier_0 >= 2
            || self.high_bitdepth >= 2 || self.twelve_bit >= 2 || self.monochrome >= 2
            || self.chroma_subsampling_x >= 2 || self.chroma_subsampling_y >= 2
            || self.chroma_sample_position >= 4 {
            return Err(Error::invalid_input("av1C bit field out of range"));
        }
        let delay: u8 = match self.initial_presentation_delay_minus_one {
            Some(d) => {
                if d >= 16 {
                    return Err(Error::invalid_input("av1C presentation delay out of range"));
                }
                16 + d
            },
            None => 0,
        };
        push_u8(out, 0x81);
        push_u8(out, self.seq_profile * 32 + self.seq_level_idx_0);
        push_u8(
            out,
            self.seq_tier_0 * 128 + self.high_bitdepth * 64 + self.twelve_bit * 32 + self.monochrome
                * 16 + self.chroma_subsampling_x * 8 + self.chroma_subsampling_y * 4
                + self.chroma_sample_position,
        );
        push_u8(out, delay);
        push_slice(out, self.config_obus.as_slice());
        assert(out@ =~= old(out)@ + av1c_bytes(self@));
        Ok(())
    }

    fn decode_payload(p: &[u8]) -> (r: Result<Self, Error>) {
        if p.len() < 4 {
            return Err(Error::invalid_data("av1C box is truncated"));
        }
        if p[0] != 0x81 {
            return Err(Error::invalid_data("unexpected av1C marker or version"));
        }
        let b1 = p[1];
        let b2 = p[2];
        let b3 = p[3];
        let delay = if (b3 / 16) % 2 == 1 {
            Some(b3 % 16)
        } else {
            None
        };
        let obus = vstd::slice::slice_to_vec(vstd::slice::slice_subrange(p, 4, p.len()));
        assert(obus@ =~= p@.skip(4));
        Ok(
            Av1cBox {
                seq_profile: b1 / 32,
                seq_level_idx_0: b1 % 32,
                seq_tier_0: b2 / 128,
                high_bitdepth: (b2 / 64) % 2,
                twelve_bit: (b2 / 32) % 2,
                monochrome: (b2 / 16) % 2,
                chroma_subsampling_x: (b2 / 8) % 2,
                chroma_subsampling_y: (b2 / 4) % 2,
                chroma_sample_position: b2 % 4,
                initial_presentation_delay_minus_one: delay,
                config_obus: obus,
            },
        )
    }
}

impl DopsBox {
    /// The bytes of the box. Fails when it cannot be encoded.
    pub fn encode_to_vec(&self) -> (r: Result<Vec<u8>, Error>)
        ensures
            r matches Err(e) ==> e.kind == ErrorKind::InvalidInput,
            r is Ok <==> box_encodable::<DopsBox>(self@),
            r matches Ok(v) ==> v@ == box_of::<DopsBox>(self@),
    {
        encode_box_to_vec(self)
    }

    /// Decodes the box at the start of `buf`; returns it and its size.
    pub fn decode(buf: &[u8]) -> (r: Result<(DopsBox, usize), Error>)
        ensures
            r matches Err(e) ==> e.kind == ErrorKind::InvalidData || e.kind == ErrorKind::Unsupported,
            r is Ok <==> parse_box::<DopsBox>(buf@) is Some,
            r matches Ok((v, n)) ==> parse_box::<DopsBox>(buf@) == Some((v@, n as int)),
    {
        decode_box(buf)
    }
}

impl VpccBox {
    /// The bytes of the box. Fails when it cannot be encoded.
    pub fn encode_to_vec(&self) -> (r: Result<Vec<u8>, Error>)
        ensures
            r matches Err(e) ==> e.kind == ErrorKind::InvalidInput,
            r is Ok <==> box_encodable::<VpccBox>(self@),
            r matches Ok(v) ==> v@ == box_of::<VpccBox>(self@),
    {
        encode_box_to_vec(self)
    }

    /// Decodes the box at the start of `buf`; returns it and its size.
    pub fn decode(buf: &[u8]) -> (r: Result<(VpccBox, usize), Error>)
        ensures
            r matches Err(e) ==> e.kind == ErrorKind::InvalidData,
            r is Ok <==> parse_box::<VpccBox>(buf@) is Some,
            r matches Ok((v, n)) ==> parse_box::<VpccBox>(buf@) == Some((v@, n as int)),
    {
        decode_box(buf)
    }
}

impl Av1cBox {
    /// The bytes of the box. Fails when it cannot be encoded.
    pub fn encode_to_vec(&self) -> (r: Result<Vec<u8>, Error>)
        ensures
            r matches Err(e) ==> e.kind == ErrorKind::InvalidInput,
            r is Ok <==> box_encodable::<Av1cBox>(self@),
            r matches Ok(v) ==> v@ == box_of::<Av1cBox>(self@),
    {
        encode_box_to_vec(self)
    }

    /// Decodes the box at the start of `buf`; returns it and its size.
    pub fn decode(buf: &[u8]) -> (r: Result<(Av1cBox, usize), Error>)
        ensures
            r matches Err(e) ==> e.kind == ErrorKind::InvalidData,
            r is Ok <==> parse_box::<Av1cBox>(buf@) is Some,
            r matches Ok((v, n)) ==> parse_box::<Av1cBox>(buf@) == Some((v@, n as int)),
    {
        decode_box(buf)
    }
}

} // verus!
