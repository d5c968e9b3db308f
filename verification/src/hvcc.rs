//! `hvcC`: the H.265 decoder configuration (ISO/IEC 14496-15).
use vstd::prelude::*;

use crate::bytes::{
    be16, be32, get16, get32, lemma_get16, lemma_get32, push_u16, push_u32, push_u8, read_u16,
    read_u32, read_u8,
};
use crate::codec::BoxCodec;
use crate::codec::{box_encodable, box_of, decode_box, encode_box_to_vec, parse_box};
use crate::error::{Error, ErrorKind};
use crate::nal_list::{
    decode_nal_list, encode_nal_list, lemma_nal_list_roundtrip, nal_list_bytes, nal_list_valid,
    nal_view, parse_nal_list,
};

verus! {

/// One array of NAL units of a single type inside an [`HvccBox`].
#[derive(Debug, Clone, PartialEq, Eq, Hash)]
pub struct HvccNalUintArray {
    /// Whether the array holds every NAL unit of its type (1 bit)
    pub array_completeness: u8,
    /// `nal_unit_type` of the units (6 bits)
    pub nal_unit_type: u8,
    /// The NAL units
    pub nalus: Vec<Vec<u8>>,
}

/// The value of an [`HvccNalUintArray`].
pub struct HvccArrayV {
    pub array_completeness: u8,
    pub nal_unit_type: u8,
    pub nalus: Seq<Seq<u8>>,
}

impl View for HvccNalUintArray {
    type V = HvccArrayV;

    open spec fn view(&self) -> HvccArrayV {
        HvccArrayV {
            array_completeness: self.array_completeness,
            nal_unit_type: self.nal_unit_type,
            nalus: nal_view(self.nalus@),
        }
    }
}

/// Views of a vector of arrays.
pub open spec fn arrays_view(v: Seq<HvccNalUintArray>) -> Seq<HvccArrayV> {
    v.map_values(|a: HvccNalUintArray| a@)
}

/// An array can be written and reads back: bit fields in range, at most
/// 65535 units of at most 65535 bytes each.
pub open spec fn hvcc_array_valid(a: HvccArrayV) -> bool {
    &&& a.array_completeness < 2
    &&& a.nal_unit_type < 64
    &&& a.nalus.len() <= 0xFFFF
    &&& nal_list_valid(a.nalus)
}

pub open spec fn hvcc_arrays_valid(s: Seq<HvccArrayV>) -> bool {
    forall|i: int| 0 <= i < s.len() ==> #[trigger] hvcc_array_valid(s[i])
}

/// One array: completeness bit and type, unit count, units.
pub open spec fn hvcc_array_bytes(a: HvccArrayV) -> Seq<u8> {
    seq![(a.array_completeness * 128 + a.nal_unit_type) as u8] + be16(a.nalus.len() as u16)
        + nal_list_bytes(a.nalus)
}

/// The arrays one after the other.
pub open spec fn hvcc_arrays_bytes(s: Seq<HvccArrayV>) -> Seq<u8>
    decreases s.len(),
{
    if s.len() == 0 {
        Seq::empty()
    } else {
        hvcc_array_bytes(s[0]) + hvcc_arrays_bytes(s.drop_first())
    }
}

/// `n` arrays read from the start of `s`, and the number of bytes they take.
pub open spec fn parse_hvcc_arrays(s: Seq<u8>, n: nat) -> Option<(Seq<HvccArrayV>, int)>
    decreases n,
{
    if n == 0 {
        Some((Seq::empty(), 0))
    } else if s.len() < 3 {
        None
    } else {
        match parse_nal_list(s.skip(3), get16(s, 1) as nat) {
            None => None,
            Some((l, k)) => {
                if 3 + k > s.len() {
                    None
                } else {
                    match parse_hvcc_arrays(s.skip(3 + k), (n - 1) as nat) {
                        None => None,
                        Some((rest, k2)) => Some(
                            (
                                seq![
                                    HvccArrayV {
                                        array_completeness: s[0] / 128,
                                        nal_unit_type: s[0] % 64,
                                        nalus: l,
                                    },
                                ] + rest,
                                3 + k + k2,
                            ),
                        ),
                    }
                }
            },
        }
    }
}

pub proof fn lemma_parse_nal_list_len(s: Seq<u8>, n: nat)
    ensures
        parse_nal_list(s, n) matches Some((l, k)) ==> 0 <= k <= s.len() && l.len() == n,
    decreases n,
{
    if n > 0 && s.len() >= 2 && 2 + get16(s, 0) <= s.len() {
        lemma_parse_nal_list_len(s.skip(2 + get16(s, 0) as int), (n - 1) as nat);
    }
}

pub proof fn lemma_hvcc_arrays_push(s: Seq<HvccArrayV>, a: HvccArrayV)
    ensures
        hvcc_arrays_bytes(s.push(a)) == hvcc_arrays_bytes(s) + hvcc_array_bytes(a),
    decreases s.len(),
{
    if s.len() == 0 {
        assert(s.push(a).drop_first() =~= Seq::<HvccArrayV>::empty());
        assert(hvcc_arrays_bytes(Seq::<HvccArrayV>::empty()) =~= Seq::<u8>::empty());
        assert(s.push(a)[0] == a);
        assert(hvcc_arrays_bytes(s.push(a)) =~= hvcc_array_bytes(a) + Seq::<u8>::empty());
        assert(hvcc_arrays_bytes(s) =~= Seq::<u8>::empty());
    } else {
        lemma_hvcc_arrays_push(s.drop_first(), a);
        assert(s.push(a).drop_first() =~= s.drop_first().push(a));
        assert(hvcc_arrays_bytes(s.push(a)) =~= hvcc_arrays_bytes(s) + hvcc_array_bytes(a));
    }
}

proof fn lemma_hvcc_array_head(a: HvccArrayV)
    requires
        hvcc_array_valid(a),
    ensures
        ((a.array_completeness * 128 + a.nal_unit_type) as u8) / 128 == a.array_completeness,
        ((a.array_completeness * 128 + a.nal_unit_type) as u8) % 64 == a.nal_unit_type,
{
}

/// Valid arrays read back from their bytes, whatever follows them.
pub proof fn lemma_hvcc_arrays_roundtrip(s: Seq<HvccArrayV>, rest: Seq<u8>)
    requires
        hvcc_arrays_valid(s),
    ensures
        parse_hvcc_arrays(hvcc_arrays_bytes(s) + rest, s.len()) == Some(
            (s, hvcc_arrays_bytes(s).len() as int),
        ),
    decreases s.len(),
{
    if s.len() > 0 {
        let a = s[0];
        let t = s.drop_first();
        assert(hvcc_array_valid(a));
        assert(hvcc_arrays_valid(t)) by {
            assert forall|i: int| 0 <= i < t.len() implies #[trigger] hvcc_array_valid(t[i]) by {
                assert(t[i] == s[i + 1]);
                assert(hvcc_array_valid(s[i + 1]));
            }
        }
        lemma_hvcc_arrays_roundtrip(t, rest);
        let nb = nal_list_bytes(a.nalus);
        let tail = hvcc_arrays_bytes(t) + rest;
        let x = hvcc_arrays_bytes(s) + rest;
        let h = seq![(a.array_completeness * 128 + a.nal_unit_type) as u8] + be16(
            a.nalus.len() as u16,
        );
        assert(x =~= h + (nb + tail));
        assert(x.subrange(1, 3) =~= be16(a.nalus.len() as u16));
        lemma_get16(x, 1, a.nalus.len() as u16);
        assert(x.skip(3) =~= nb + tail);
        lemma_nal_list_roundtrip(a.nalus, tail);
        assert(x.skip(3 + nb.len() as int) =~= tail);
        lemma_hvcc_array_head(a);
        assert(seq![a] + t =~= s);
    } else {
        assert(s =~= Seq::<HvccArrayV>::empty());
    }
}

/// `hvcC`: H.265 decoder configuration record.
#[derive(Debug, Clone, PartialEq, Eq, Hash)]
pub struct HvccBox {
    /// `general_profile_space` (2 bits)
    pub general_profile_space: u8,
    /// `general_tier_flag` (1 bit)
    pub general_tier_flag: u8,
    /// `general_profile_idc` (5 bits)
    pub general_profile_idc: u8,
    /// `general_profile_compatibility_flags`
    pub general_profile_compatibility_flags: u32,
    /// `general_constraint_indicator_flags` (48 bits)
    pub general_constraint_indicator_flags: u64,
    /// `general_level_idc`
    pub general_level_idc: u8,
    /// `min_spatial_segmentation_idc` (12 bits)
    pub min_spatial_segmentation_idc: u16,
    /// `parallelismType` (2 bits)
    pub parallelism_type: u8,
    /// `chroma_format_idc` (2 bits)
    pub chroma_format_idc: u8,
    /// Luma bit depth minus 8 (3 bits)
    pub bit_depth_luma_minus8: u8,
    /// Chroma bit depth minus 8 (3 bits)
    pub bit_depth_chroma_minus8: u8,
    /// Average frame rate in frames per 256 seconds (0: unspecified)
    pub avg_frame_rate: u16,
    /// `constantFrameRate` (2 bits)
    pub constant_frame_rate: u8,
    /// `numTemporalLayers` (3 bits)
    pub num_temporal_layers: u8,
    /// `temporalIdNested` (1 bit)
    pub temporal_id_nested: u8,
    /// NAL unit length size minus one (2 bits)
    pub length_size_minus_one: u8,
    /// Arrays of NAL units by type (VPS, SPS, PPS, ...)
    pub nalu_arrays: Vec<HvccNalUintArray>,
}

/// The value of an [`HvccBox`].
pub struct HvccBoxV {
    pub general_profile_space: u8,
    pub general_tier_flag: u8,
    pub general_profile_idc: u8,
    pub general_profile_compatibility_flags: u32,
    pub general_constraint_indicator_flags: u64,
    pub general_level_idc: u8,
    pub min_spatial_segmentation_idc: u16,
    pub parallelism_type: u8,
    pub chroma_format_idc: u8,
    pub bit_depth_luma_minus8: u8,
    pub bit_depth_chroma_minus8: u8,
    pub avg_frame_rate: u16,
    pub constant_frame_rate: u8,
    pub num_temporal_layers: u8,
    pub temporal_id_nested: u8,
    pub length_size_minus_one: u8,
    pub nalu_arrays: Seq<HvccArrayV>,
}

impl View for HvccBox {
    type V = HvccBoxV;

    open spec fn view(&self) -> HvccBoxV {
        HvccBoxV {
            general_profile_space: self.general_profile_space,
            general_tier_flag: self.general_tier_flag,
            general_profile_idc: self.general_profile_idc,
            general_profile_compatibility_flags: self.general_profile_compatibility_flags,
            general_constraint_indicator_flags: self.general_constraint_indicator_flags,
            general_level_idc: self.general_level_idc,
            min_spatial_segmentation_idc: self.min_spatial_segmentation_idc,
            parallelism_type: self.parallelism_type,
            chroma_format_idc: self.chroma_format_idc,
            bit_depth_luma_minus8: self.bit_depth_luma_minus8,
            bit_depth_chroma_minus8: self.bit_depth_chroma_minus8,
            avg_frame_rate: self.avg_frame_rate,
            constant_frame_rate: self.constant_frame_rate,
            num_temporal_layers: self.num_temporal_layers,
            temporal_id_nested: self.temporal_id_nested,
            length_size_minus_one: self.length_size_minus_one,
            nalu_arrays: arrays_view(self.nalu_arrays@),
        }
    }
}

impl HvccBox {
    /// Box type `hvcC`
    pub const TYPE: u32 = 0x68766343;
}

/// Byte 1: profile space, tier flag, profile idc.
pub open spec fn hvcc_profile_byte(v: HvccBoxV) -> u8 {
    (v.general_profile_space * 64 + v.general_tier_flag * 32 + v.general_profile_idc) as u8
}

/// Byte 21: constant frame rate, temporal layers, temporal id nesting, length size.
pub open spec fn hvcc_layers_byte(v: HvccBoxV) -> u8 {
    (v.constant_frame_rate * 64 + v.num_temporal_layers * 8 + v.temporal_id_nested * 4
        + v.length_size_minus_one) as u8
}

/// The 23 fixed bytes of an `hvcC` payload (version 1 first, array count last);
/// reserved bits are set.
pub open spec fn hvcc_head_bytes(v: HvccBoxV) -> Seq<u8> {
    seq![1u8, hvcc_profile_byte(v)] + be32(v.general_profile_compatibility_flags) + be16(
        (v.general_constraint_indicator_flags / 0x1_0000_0000) as u16,
    ) + be32((v.general_constraint_indicator_flags % 0x1_0000_0000) as u32) + seq![
        v.general_level_idc,
    ] + be16((0xF000 + v.min_spatial_segmentation_idc) as u16) + seq![
        (0xFC + v.parallelism_type) as u8,
        (0xFC + v.chroma_format_idc) as u8,
        (0xF8 + v.bit_depth_luma_minus8) as u8,
        (0xF8 + v.bit_depth_chroma_minus8) as u8,
    ] + be16(v.avg_frame_rate) + seq![hvcc_layers_byte(v), v.nalu_arrays.len() as u8]
}

/// `hvcC` payload: the fixed fields, then the arrays.
pub open spec fn hvcc_bytes(v: HvccBoxV) -> Seq<u8> {
    hvcc_head_bytes(v) + hvcc_arrays_bytes(v.nalu_arrays)
}

/// The fixed fields of an `hvcC` payload with the given arrays.
pub open spec fn hvcc_fields(p: Seq<u8>, arrays: Seq<HvccArrayV>) -> HvccBoxV {
    HvccBoxV {
        general_profile_space: p[1] / 64,
        general_tier_flag: (p[1] / 32) % 2,
        general_profile_idc: p[1] % 32,
        general_profile_compatibility_flags: get32(p, 2),
        general_constraint_indicator_flags: (get16(p, 6) as int * 0x1_0000_0000 + get32(
            p,
            8,
        ) as int) as u64,
        general_level_idc: p[12],
        min_spatial_segmentation_idc: get16(p, 13) % 0x1000,
        parallelism_type: p[15] % 4,
        chroma_format_idc: p[16] % 4,
        bit_depth_luma_minus8: p[17] % 8,
        bit_depth_chroma_minus8: p[18] % 8,
        avg_frame_rate: get16(p, 19),
        constant_frame_rate: p[21] / 64,
        num_temporal_layers: (p[21] / 8) % 8,
        temporal_id_nested: (p[21] / 4) % 2,
        length_size_minus_one: p[21] % 4,
        nalu_arrays: arrays,
    }
}

/// `hvcC` payload decoding: at least 23 bytes with version 1; the bit fields
/// are read from their bits; bytes after the last array are ignored.
pub open spec fn parse_hvcc(p: Seq<u8>) -> Option<HvccBoxV> {
    if p.len() < 23 || p[0] != 1 {
        None
    } else {
        match parse_hvcc_arrays(p.skip(23), p[22] as nat) {
            None => None,
            Some((arrays, _)) => Some(hvcc_fields(p, arrays)),
        }
    }
}

/// Bit fields in range and at most 255 arrays.
pub open spec fn hvcc_head_encodable(v: HvccBoxV) -> bool {
    &&& v.general_profile_space < 4
    &&& v.general_tier_flag < 2
    &&& v.general_profile_idc < 32
    &&& v.general_constraint_indicator_flags < 0x1_0000_0000_0000
    &&& v.min_spatial_segmentation_idc < 0x1000
    &&& v.parallelism_type < 4
    &&& v.chroma_format_idc < 4
    &&& v.bit_depth_luma_minus8 < 8
    &&& v.bit_depth_chroma_minus8 < 8
    &&& v.constant_frame_rate < 4
    &&& v.num_temporal_layers < 8
    &&& v.temporal_id_nested < 2
    &&& v.length_size_minus_one < 4
    &&& v.nalu_arrays.len() <= 255
}

/// Bit fields in range, at most 255 valid arrays.
pub open spec fn hvcc_encodable(v: HvccBoxV) -> bool {
    hvcc_head_encodable(v) && hvcc_arrays_valid(v.nalu_arrays)
}

proof fn lemma_hvcc_head(v: HvccBoxV, rest: Seq<u8>)
    requires
        hvcc_encodable(v),
    ensures
        (hvcc_head_bytes(v) + rest).len() == 23 + rest.len(),
        (hvcc_head_bytes(v) + rest)[0] == 1,
        (hvcc_head_bytes(v) + rest)[22] == v.nalu_arrays.len(),
        (hvcc_head_bytes(v) + rest).skip(23) == rest,
        hvcc_fields(hvcc_head_bytes(v) + rest, v.nalu_arrays) == v,
{
    let p = hvcc_head_bytes(v) + rest;
    let cif = v.general_constraint_indicator_flags;
    let hi = (cif / 0x1_0000_0000) as u16;
    let lo = (cif % 0x1_0000_0000) as u32;
    let mss = (0xF000 + v.min_spatial_segmentation_idc) as u16;
    assert(p.subrange(2, 6) =~= be32(v.general_profile_compatibility_flags));
    assert(p.subrange(6, 8) =~= be16(hi));
    assert(p.subrange(8, 12) =~= be32(lo));
    assert(p.subrange(13, 15) =~= be16(mss));
    assert(p.subrange(19, 21) =~= be16(v.avg_frame_rate));
    lemma_get32(p, 2, v.general_profile_compatibility_flags);
    lemma_get16(p, 6, hi);
    lemma_get32(p, 8, lo);
    lemma_get16(p, 13, mss);
    lemma_get16(p, 19, v.avg_frame_rate);
    assert(p.skip(23) =~= rest);
    let b1 = hvcc_profile_byte(v);
    assert(b1 / 64 == v.general_profile_space);
    assert((b1 / 32) % 2 == v.general_tier_flag);
    assert(b1 % 32 == v.general_profile_idc);
    let b21 = hvcc_layers_byte(v);
    assert(b21 / 64 == v.constant_frame_rate);
    assert((b21 / 8) % 8 == v.num_temporal_layers);
    assert((b21 / 4) % 2 == v.temporal_id_nested);
    assert(b21 % 4 == v.length_size_minus_one);
    assert(hi as int * 0x1_0000_0000 + lo as int == cif);
    assert(mss % 0x1000 == v.min_spatial_segmentation_idc);
    assert(hvcc_fields(p, v.nalu_arrays) =~= v);
}

/// Appends the fixed fields of an `hvcC` payload.
fn push_hvcc_head(h: &HvccBox, out: &mut Vec<u8>)
    requires
        hvcc_head_encodable(h@),
    ensures
        final(out)@ == old(out)@ + hvcc_head_bytes(h@),
{
        let ghost start = old(out)@;
        let ghost v = h@;
        push_u8(out, 1);
        push_u8(
            out,
            h.general_profile_space * 64 + h.general_tier_flag * 32
                + h.general_profile_idc,
        );
        push_u32(out, h.general_profile_compatibility_flags);
        let ghost s1 = out@;
        assert(s1 =~= start + seq![1u8, hvcc_profile_byte(v)] + be32(v.general_profile_compatibility_flags));
        push_u16(out, (h.general_constraint_indicator_flags / 0x1_0000_0000) as u16);
        push_u32(out, (h.general_constraint_indicator_flags % 0x1_0000_0000) as u32);
        push_u8(out, h.general_level_idc);
        let ghost s2 = out@;
        push_u16(out, 0xF000 + h.min_spatial_segmentation_idc);
        push_u8(out, 0xFC + h.parallelism_type);
        push_u8(out, 0xFC + h.chroma_format_idc);
        push_u8(out, 0xF8 + h.bit_depth_luma_minus8);
        push_u8(out, 0xF8 + h.bit_depth_chroma_minus8);
        let ghost s3 = out@;
        push_u16(out, h.avg_frame_rate);
        push_u8(
            out,
            h.constant_frame_rate * 64 + h.num_temporal_layers * 8 + h.temporal_id_nested
                * 4 + h.length_size_minus_one,
        );
        push_u8(out, h.nalu_arrays.len() as u8);
        assert(s2 =~= s1 + be16((v.general_constraint_indicator_flags / 0x1_0000_0000) as u16) + be32(
            (v.general_constraint_indicator_flags % 0x1_0000_0000) as u32,
        ) + seq![v.general_level_idc]);
        assert(s3 =~= s2 + be16((0xF000 + v.min_spatial_segmentation_idc) as u16) + seq![
            (0xFC + v.parallelism_type) as u8,
            (0xFC + v.chroma_format_idc) as u8,
            (0xF8 + v.bit_depth_luma_minus8) as u8,
            (0xF8 + v.bit_depth_chroma_minus8) as u8,
        ]);
        assert(out@ =~= s3 + be16(v.avg_frame_rate) + seq![hvcc_layers_byte(v), v.nalu_arrays.len() as u8]);
        assert(out@ =~= start + hvcc_head_bytes(v));
}

impl BoxCodec for HvccBox {
    open spec fn decode_error_kind(k: ErrorKind) -> bool {
        k == ErrorKind::InvalidData
    }

    open spec fn spec_box_type() -> u32 {
        0x68766343
    }

    open spec fn encodable(v: HvccBoxV) -> bool {
        hvcc_encodable(v)
    }

    open spec fn valid(v: HvccBoxV) -> bool {
        hvcc_encodable(v)
    }

    open spec fn payload_bytes(v: HvccBoxV) -> Seq<u8> {
        hvcc_bytes(v)
    }

    open spec fn parse_payload(p: Seq<u8>) -> Option<HvccBoxV> {
        parse_hvcc(p)
    }

    proof fn lemma_payload_roundtrip(v: HvccBoxV) {
        let ab = hvcc_arrays_bytes(v.nalu_arrays);
        lemma_hvcc_head(v, ab);
        lemma_hvcc_arrays_roundtrip(v.nalu_arrays, Seq::<u8>::empty());
        assert(ab + Seq::<u8>::empty() =~= ab);
    }

    fn box_type_code() -> (r: u32) {
        Self::TYPE
    }

    fn encode_payload(&self, out: &mut Vec<u8>) -> (r: Result<(), Error>) {
        if self.general_profile_space >= 4 || self.general_tier_flag >= 2
            || self.general_profile_idc >= 32
            || self.general_constraint_indicator_flags >= 0x1_0000_0000_0000
            || self.min_spatial_segmentation_idc >= 0x1000 || self.parallelism_type >= 4
            || self.chroma_format_idc >= 4 || self.bit_depth_luma_minus8 >= 8
            || self.bit_depth_chroma_minus8 >= 8 || self.constant_frame_rate >= 4
            || self.num_temporal_layers >= 8 || self.temporal_id_nested >= 2
            || self.length_size_minus_one >= 4 {
            return Err(Error::invalid_input("hvcC bit field out of range"));
        }
        if self.nalu_arrays.len() > 255 {
            return Err(Error::invalid_input("Too many NALU arrays"));
        }
        push_hvcc_head(self, out);
        encode_hvcc_arrays(&self.nalu_arrays, out)
    }

    fn decode_payload(p: &[u8]) -> (r: Result<Self, Error>) {
        if p.len() < 23 {
            return Err(Error::invalid_data("hvcC box is truncated"));
        }
        if p[0] != 1 {
            return Err(Error::invalid_data("Unsupported hvcC version"));
        }
        let arrays = match decode_hvcc_arrays(p, 23, p[22] as usize) {
            Ok((a, _)) => a,
            Err(e) => {
                return Err(e);
            },
        };
        let b1 = p[1];
        let compat = match read_u32(p, 2) {
            Ok(x) => x,
            Err(e) => {
                return Err(e);
            },
        };
        let cif_hi = match read_u16(p, 6) {
            Ok(x) => x,
            Err(e) => {
                return Err(e);
            },
        };
        let cif_lo = match read_u32(p, 8) {
            Ok(x) => x,
            Err(e) => {
                return Err(e);
            },
        };
        let mss = match read_u16(p, 13) {
            Ok(x) => x,
            Err(e) => {
                return Err(e);
            },
        };
        let avg = match read_u16(p, 19) {
            Ok(x) => x,
            Err(e) => {
                return Err(e);
            },
        };
        let b21 = p[21];
        let r = HvccBox {
            general_profile_space: b1 / 64,
            general_tier_flag: (b1 / 32) % 2,
            general_profile_idc: b1 % 32,
            general_profile_compatibility_flags: compat,
            general_constraint_indicator_flags: cif_hi as u64 * 0x1_0000_0000 + cif_lo as u64,
            general_level_idc: p[12],
            min_spatial_segmentation_idc: mss % 0x1000,
            parallelism_type: p[15] % 4,
            chroma_format_idc: p[16] % 4,
            bit_depth_luma_minus8: p[17] % 8,
            bit_depth_chroma_minus8: p[18] % 8,
            avg_frame_rate: avg,
            constant_frame_rate: b21 / 64,
            num_temporal_layers: (b21 / 8) % 8,
            temporal_id_nested: (b21 / 4) % 2,
            length_size_minus_one: b21 % 4,
            nalu_arrays: arrays,
        };
        assert(r@ =~= hvcc_fields(p@, arrays_view(arrays@)));
        Ok(r)
    }
}

/// Appends the arrays.
pub fn encode_hvcc_arrays(arrays: &Vec<HvccNalUintArray>, out: &mut Vec<u8>) -> (r: Result<(), Error>)
    ensures
        r matches Err(e) ==> e.kind == ErrorKind::InvalidInput,
        r is Ok <==> hvcc_arrays_valid(arrays_view(arrays@)),
        r is Ok ==> final(out)@ == old(out)@ + hvcc_arrays_bytes(arrays_view(arrays@)),
{
    let ghost v = arrays_view(arrays@);
    let ghost mid = out@;
    let mut i: usize = 0;
    while i < arrays.len()
        invariant
            i <= arrays@.len(),
            v == arrays_view(arrays@),
            mid == old(out)@,
            hvcc_arrays_valid(v.take(i as int)),
            out@ == mid + hvcc_arrays_bytes(v.take(i as int)),
        decreases arrays@.len() - i,
    {
        let a = &arrays[i];
        assert(a@ == v[i as int]);
        if a.array_completeness >= 2 || a.nal_unit_type >= 64 {
            assert(!hvcc_array_valid(v[i as int]));
            return Err(Error::invalid_input("hvcC NALU array header out of range"));
        }
        if a.nalus.len() > 0xFFFF {
            assert(!hvcc_array_valid(v[i as int]));
            return Err(Error::invalid_input("Too many NALUs"));
        }
        let ghost before = out@;
        push_u8(out, a.array_completeness * 128 + a.nal_unit_type);
        push_u16(out, a.nalus.len() as u16);
        match encode_nal_list(&a.nalus, out) {
            Ok(()) => {},
            Err(e) => {
                assert(!hvcc_array_valid(v[i as int]));
                return Err(e);
            },
        }
        proof {
            assert(out@ =~= before + hvcc_array_bytes(a@));
            lemma_hvcc_arrays_push(v.take(i as int), a@);
            assert(v.take(i as int).push(a@) =~= v.take(i + 1));
            assert forall|j: int| 0 <= j < i + 1 implies #[trigger] hvcc_array_valid(
                v.take(i + 1)[j],
            ) by {
                if j < i {
                    assert(v.take(i + 1)[j] == v.take(i as int)[j]);
                }
            }
        }
        i = i + 1;
    }
    proof {
        assert(v.take(i as int) =~= v);
    }
    Ok(())
}

/// Reads `n` arrays from `s` starting at `start`; returns them and the offset
/// just after them.
pub fn decode_hvcc_arrays(s: &[u8], start: usize, n: usize) -> (r: Result<
    (Vec<HvccNalUintArray>, usize),
    Error,
>)
    requires
        start <= s@.len(),
    ensures
        r matches Err(e) ==> e.kind == ErrorKind::InvalidData,
        r is Ok <==> parse_hvcc_arrays(s@.skip(start as int), n as nat) is Some,
        r matches Ok((l, end)) ==> parse_hvcc_arrays(s@.skip(start as int), n as nat) == Some(
            (arrays_view(l@), end - start),
        ),
{
    let mut acc: Vec<HvccNalUintArray> = Vec::new();
    let mut off = start;
    let mut i: usize = 0;
    while i < n
        invariant
            i <= n,
            start <= off <= s@.len(),
            parse_hvcc_arrays(s@.skip(start as int), n as nat) == match parse_hvcc_arrays(
                s@.skip(off as int),
                (n - i) as nat,
            ) {
                Some((l, k)) => Some((arrays_view(acc@) + l, off - start + k)),
                None => None,
            },
        decreases n - i,
    {
        let ghost t = s@.skip(off as int);
        if s.len() - off < 3 {
            return Err(Error::invalid_data("hvcC NALU array is truncated"));
        }
        let b = s[off];
        let count = match read_u16(s, off + 1) {
            Ok(x) => x,
            Err(e) => {
                return Err(e);
            },
        };
        assert(get16(t, 1) == get16(s@, off + 1));
        assert(t.skip(3) =~= s@.skip(off + 3));
        let (nalus, end) = match decode_nal_list(s, off + 3, count as usize) {
            Ok(x) => x,
            Err(e) => {
                return Err(e);
            },
        };
        proof {
            lemma_parse_nal_list_len(s@.skip(off + 3), count as nat);
            assert(t.skip(3 + (end - off - 3)) =~= s@.skip(end as int));
        }
        let a = HvccNalUintArray { array_completeness: b / 128, nal_unit_type: b % 64, nalus };
        proof {
            let na = arrays_view(acc@.push(a));
            assert(na =~= arrays_view(acc@) + seq![a@]);
            match parse_hvcc_arrays(s@.skip(end as int), (n - i - 1) as nat) {
                Some((l, k)) => {
                    assert(arrays_view(acc@) + (seq![a@] + l) =~= na + l);
                },
                None => {},
            }
        }
        acc.push(a);
        off = end;
        i = i + 1;
    }
    proof {
        assert(arrays_view(acc@) + Seq::<HvccArrayV>::empty() =~= arrays_view(acc@));
    }
    Ok((acc, off))
}

impl HvccBox {
    /// The bytes of the box. Fails when it cannot be encoded.
    pub fn encode_to_vec(&self) -> (r: Result<Vec<u8>, Error>)
        ensures
            r matches Err(e) ==> e.kind == ErrorKind::InvalidInput,
            r is Ok <==> box_encodable::<HvccBox>(self@),
            r matches Ok(v) ==> v@ == box_of::<HvccBox>(self@),
    {
        encode_box_to_vec(self)
    }

    /// Decodes the box at the start of `buf`; returns it and its size.
    pub fn decode(buf: &[u8]) -> (r: Result<(HvccBox, usize), Error>)
        ensures
            r matches Err(e) ==> e.kind == ErrorKind::InvalidData,
            r is Ok <==> parse_box::<HvccBox>(buf@) is Some,
            r matches Ok((v, n)) ==> parse_box::<HvccBox>(buf@) == Some((v@, n as int)),
    {
        decode_box(buf)
    }
}

} // verus!
