//! `avcC`: the H.264 decoder configuration (ISO/IEC 14496-15).
use vstd::prelude::*;

use crate::bytes::push_u8;
use crate::codec::BoxCodec;
use crate::codec::{box_encodable, box_of, decode_box, encode_box_to_vec, parse_box};
use crate::error::{Error, ErrorKind};
use crate::nal_list::{
    decode_nal_list, encode_nal_list, lemma_nal_list_roundtrip, nal_list_bytes, nal_list_valid,
    nal_view, parse_nal_list,
};

verus! {

/// `avcC`: H.264 decoder configuration record.
#[derive(Debug, Clone, PartialEq, Eq, Hash)]
pub struct AvccBox {
    /// `profile_idc`
    pub avc_profile_indication: u8,
    /// Profile compatibility flags (`constraint_set*_flag`)
    pub profile_compatibility: u8,
    /// `level_idc`
    pub avc_level_indication: u8,
    /// NAL unit length size minus one (2 bits; 3 means 4-byte lengths)
    pub length_size_minus_one: u8,
    /// SPS NAL units (at most 31)
    pub sps_list: Vec<Vec<u8>>,
    /// PPS NAL units (at most 255)
    pub pps_list: Vec<Vec<u8>>,
    /// Chroma format (2 bits); present for profiles other than 66, 77 and 88
    pub chroma_format: Option<u8>,
    /// Luma bit depth minus 8 (3 bits); present with `chroma_format`
    pub bit_depth_luma_minus8: Option<u8>,
    /// Chroma bit depth minus 8 (3 bits); present with `chroma_format`
    pub bit_depth_chroma_minus8: Option<u8>,
    /// SPS extension NAL units; present with `chroma_format`
    pub sps_ext_list: Vec<Vec<u8>>,
}

/// The value of an [`AvccBox`].
pub struct AvccBoxV {
    pub avc_profile_indication: u8,
    pub profile_compatibility: u8,
    pub avc_level_indication: u8,
    pub length_size_minus_one: u8,
    pub sps_list: Seq<Seq<u8>>,
    pub pps_list: Seq<Seq<u8>>,
    pub chroma_format: Option<u8>,
    pub bit_depth_luma_minus8: Option<u8>,
    pub bit_depth_chroma_minus8: Option<u8>,
    pub sps_ext_list: Seq<Seq<u8>>,
}

impl View for AvccBox {
    type V = AvccBoxV;

    open spec fn view(&self) -> AvccBoxV {
        AvccBoxV {
            avc_profile_indication: self.avc_profile_indication,
            profile_compatibility: self.profile_compatibility,
            avc_level_indication: self.avc_level_indication,
            length_size_minus_one: self.length_size_minus_one,
            sps_list: nal_view(self.sps_list@),
            pps_list: nal_view(self.pps_list@),
            chroma_format: self.chroma_format,
            bit_depth_luma_minus8: self.bit_depth_luma_minus8,
            bit_depth_chroma_minus8: self.bit_depth_chroma_minus8,
            sps_ext_list: nal_view(self.sps_ext_list@),
        }
    }
}

impl AvccBox {
    /// Box type `avcC`
    pub const TYPE: u32 = 0x61766343;
}

/// Profiles other than Baseline (66), Main (77) and Extended (88) carry the
/// chroma format, bit depths and SPS extensions.
pub open spec fn avc_has_ext(profile: u8) -> bool {
    !(profile == 66 || profile == 77 || profile == 88)
}

fn has_ext(profile: u8) -> (r: bool)
    ensures
        r == avc_has_ext(profile),
{
    !(profile == 66 || profile == 77 || profile == 88)
}

/// The extension part of the payload (empty for profiles 66, 77, 88).
pub open spec fn avcc_ext_bytes(v: AvccBoxV) -> Seq<u8> {
    if avc_has_ext(v.avc_profile_indication) {
        seq![
            (0xFC + v.chroma_format->0) as u8,
            (0xF8 + v.bit_depth_luma_minus8->0) as u8,
            (0xF8 + v.bit_depth_chroma_minus8->0) as u8,
            v.sps_ext_list.len() as u8,
        ] + nal_list_bytes(v.sps_ext_list)
    } else {
        Seq::empty()
    }
}

/// `avcC` payload: version 1, profile, compatibility, level, length size
/// (6 reserved bits set), SPS count (3 reserved bits set) and SPSs, PPS count
/// and PPSs, then the extension part.
pub open spec fn avcc_bytes(v: AvccBoxV) -> Seq<u8> {
    seq![
        1u8,
        v.avc_profile_indication,
        v.profile_compatibility,
        v.avc_level_indication,
        (0xFC + v.length_size_minus_one) as u8,
        (0xE0 + v.sps_list.len()) as u8,
    ] + nal_list_bytes(v.sps_list) + seq![v.pps_list.len() as u8] + nal_list_bytes(v.pps_list)
        + avcc_ext_bytes(v)
}

/// The extension part read at offset `o` of an `avcC` payload: absent for
/// profiles 66, 77 and 88 and when no bytes remain, otherwise chroma format,
/// bit depths (low bits) and the SPS extensions.
pub open spec fn parse_avcc_ext(p: Seq<u8>, o: int) -> Option<
    (Option<u8>, Option<u8>, Option<u8>, Seq<Seq<u8>>),
> {
    if avc_has_ext(p[1]) && o < p.len() {
        if o + 4 > p.len() {
            None
        } else {
            match parse_nal_list(p.skip(o + 4), p[o + 3] as nat) {
                None => None,
                Some((ext, _)) => Some(
                    (Some(p[o] % 4), Some(p[o + 1] % 8), Some(p[o + 2] % 8), ext),
                ),
            }
        }
    } else {
        Some((None, None, None, Seq::empty()))
    }
}

/// The SPS and PPS lists of an `avcC` payload and the offset after them.
pub open spec fn parse_avcc_lists(p: Seq<u8>) -> Option<(Seq<Seq<u8>>, Seq<Seq<u8>>, int)> {
    match parse_nal_list(p.skip(6), (p[5] % 32) as nat) {
        None => None,
        Some((sps, k1)) => {
            let o1 = 6 + k1;
            if o1 >= p.len() {
                None
            } else {
                match parse_nal_list(p.skip(o1 + 1), p[o1] as nat) {
                    None => None,
                    Some((pps, k2)) => Some((sps, pps, o1 + 1 + k2)),
                }
            }
        },
    }
}

/// `avcC` payload decoding. The version must be 1; the low bits of the length
/// size and SPS count bytes are used. For profiles other than 66, 77 and 88 the
/// extension part is read when bytes remain after the PPSs (files in the wild
/// omit it); bytes after the last list are ignored.
pub open spec fn parse_avcc(p: Seq<u8>) -> Option<AvccBoxV> {
    if p.len() < 6 || p[0] != 1 {
        None
    } else {
        match parse_avcc_lists(p) {
            None => None,
            Some((sps, pps, o2)) => match parse_avcc_ext(p, o2) {
                None => None,
                Some((chroma, luma, chroma_depth, ext)) => Some(
                    AvccBoxV {
                        avc_profile_indication: p[1],
                        profile_compatibility: p[2],
                        avc_level_indication: p[3],
                        length_size_minus_one: p[4] % 4,
                        sps_list: sps,
                        pps_list: pps,
                        chroma_format: chroma,
                        bit_depth_luma_minus8: luma,
                        bit_depth_chroma_minus8: chroma_depth,
                        sps_ext_list: ext,
                    },
                ),
            },
        }
    }
}

#[verifier::spinoff_prover]
#[verifier::rlimit(30)]
proof fn lemma_avcc_lists(
    head: Seq<u8>,
    sps: Seq<Seq<u8>>,
    pps: Seq<Seq<u8>>,
    rest: Seq<u8>,
)
    requires
        head.len() == 6,
        head[5] % 32 == sps.len(),
        pps.len() <= 255,
        nal_list_valid(sps),
        nal_list_valid(pps),
    ensures
        parse_avcc_lists(
            head + nal_list_bytes(sps) + seq![pps.len() as u8] + nal_list_bytes(pps) + rest,
        ) == Some(
            (sps, pps, 6 + nal_list_bytes(sps).len() as int + 1 + nal_list_bytes(pps).len() as int),
        ),
{
    let sb = nal_list_bytes(sps);
    let pb = nal_list_bytes(pps);
    let r1 = seq![pps.len() as u8] + pb + rest;
    let p = head + (sb + r1);
    assert(p =~= head + sb + seq![pps.len() as u8] + pb + rest);
    assert(p[5] == head[5]);
    assert(p.skip(6) =~= sb + r1);
    lemma_nal_list_roundtrip(sps, r1);
    assert(parse_nal_list(p.skip(6), (p[5] % 32) as nat) == Some((sps, sb.len() as int)));
    let o1: int = 6 + sb.len() as int;
    assert(p[o1] == r1[0]);
    assert(p.skip(o1 + 1) =~= pb + rest);
    lemma_nal_list_roundtrip(pps, rest);
    assert(parse_nal_list(p.skip(o1 + 1), p[o1] as nat) == Some((pps, pb.len() as int)));
}

proof fn lemma_avcc_ext(v: AvccBoxV)
    requires
        AvccBox::valid(v),
    ensures
        parse_avcc_ext(
            avcc_bytes(v),
            6 + nal_list_bytes(v.sps_list).len() as int + 1 + nal_list_bytes(v.pps_list).len() as int,
        ) == Some(
            (v.chroma_format, v.bit_depth_luma_minus8, v.bit_depth_chroma_minus8, v.sps_ext_list),
        ),
{
    let p = avcc_bytes(v);
    let sb = nal_list_bytes(v.sps_list);
    let pb = nal_list_bytes(v.pps_list);
    let eb = avcc_ext_bytes(v);
    let head = seq![
        1u8,
        v.avc_profile_indication,
        v.profile_compatibility,
        v.avc_level_indication,
        (0xFC + v.length_size_minus_one) as u8,
        (0xE0 + v.sps_list.len()) as u8,
    ] + sb + seq![v.pps_list.len() as u8] + pb;
    let o2: int = 6 + sb.len() as int + 1 + pb.len() as int;
    assert(head.len() == o2);
    assert(p =~= head + eb);
    assert(p[1] == v.avc_profile_indication);
    if avc_has_ext(v.avc_profile_indication) {
        let xb = nal_list_bytes(v.sps_ext_list);
        assert(p.skip(o2 + 4) =~= xb + Seq::<u8>::empty());
        lemma_nal_list_roundtrip(v.sps_ext_list, Seq::<u8>::empty());
        assert(p[o2] == (0xFC + v.chroma_format->0) as u8);
        assert(p[o2 + 1] == (0xF8 + v.bit_depth_luma_minus8->0) as u8);
        assert(p[o2 + 2] == (0xF8 + v.bit_depth_chroma_minus8->0) as u8);
        assert(p[o2 + 3] == v.sps_ext_list.len() as u8);
    } else {
        assert(p.len() == o2);
        assert(v.sps_ext_list =~= Seq::<Seq<u8>>::empty());
    }
}

impl BoxCodec for AvccBox {
    open spec fn decode_error_kind(k: ErrorKind) -> bool {
        k == ErrorKind::InvalidData
    }

    open spec fn spec_box_type() -> u32 {
        0x61766343
    }

    /// At most 31 SPSs and 255 PPSs of at most 65535 bytes; for profiles other
    /// than 66, 77 and 88 the chroma format and bit depths must be present,
    /// with at most 255 SPS extensions.
    open spec fn encodable(v: AvccBoxV) -> bool {
        &&& v.length_size_minus_one < 4
        &&& v.sps_list.len() <= 31
        &&& nal_list_valid(v.sps_list)
        &&& v.pps_list.len() <= 255
        &&& nal_list_valid(v.pps_list)
        &&& avc_has_ext(v.avc_profile_indication) ==> {
            &&& v.chroma_format matches Some(c) && c < 4
            &&& v.bit_depth_luma_minus8 matches Some(l) && l < 8
            &&& v.bit_depth_chroma_minus8 matches Some(c) && c < 8
            &&& v.sps_ext_list.len() <= 255
            &&& nal_list_valid(v.sps_ext_list)
        }
    }

    /// Encodable, and for profiles 66, 77 and 88 without the extension fields
    /// (they are not written for those profiles).
    open spec fn valid(v: AvccBoxV) -> bool {
        &&& Self::encodable(v)
        &&& !avc_has_ext(v.avc_profile_indication) ==> {
            &&& v.chroma_format is None
            &&& v.bit_depth_luma_minus8 is None
            &&& v.bit_depth_chroma_minus8 is None
            &&& v.sps_ext_list.len() == 0
        }
    }

    open spec fn payload_bytes(v: AvccBoxV) -> Seq<u8> {
        avcc_bytes(v)
    }

    open spec fn parse_payload(p: Seq<u8>) -> Option<AvccBoxV> {
        parse_avcc(p)
    }

    proof fn lemma_payload_roundtrip(v: AvccBoxV) {
        let head = seq![
            1u8,
            v.avc_profile_indication,
            v.profile_compatibility,
            v.avc_level_indication,
            (0xFC + v.length_size_minus_one) as u8,
            (0xE0 + v.sps_list.len()) as u8,
        ];
        assert((0xE0 + v.sps_list.len()) as u8 % 32 == v.sps_list.len());
        lemma_avcc_lists(head, v.sps_list, v.pps_list, avcc_ext_bytes(v));
        lemma_avcc_ext(v);
        let p = avcc_bytes(v);
        assert(p[0] == 1 && p[1] == v.avc_profile_indication && p[2] == v.profile_compatibility
            && p[3] == v.avc_level_indication && p[4] == (0xFC + v.length_size_minus_one) as u8);
    }

    fn box_type_code() -> (r: u32) {
        Self::TYPE
    }

    #[verifier::rlimit(40)]
    fn encode_payload(&self, out: &mut Vec<u8>) -> (r: Result<(), Error>) {
        if self.length_size_minus_one >= 4 {
            return Err(Error::invalid_input("avcC length_size_minus_one out of range"));
        }
        if self.sps_list.len() > 31 {
            return Err(Error::invalid_input("Too many SPSs (max 31)"));
        }
        if self.pps_list.len() > 255 {
            return Err(Error::invalid_input("Too many PPSs (max 255)"));
        }
        let ext = has_ext(self.avc_profile_indication);
        let mut ext_fields: (u8, u8, u8) = (0, 0, 0);
        if ext {
            let chroma_format = match self.chroma_format {
                Some(c) => c,
                None => {
                    return Err(Error::invalid_input("Missing 'chroma_format' field in 'avcC' box"));
                },
            };
            let luma = match self.bit_depth_luma_minus8 {
                Some(c) => c,
                None => {
                    return Err(
                        Error::invalid_input("Missing 'bit_depth_luma_minus8' field in 'avcC' box"),
                    );
                },
            };
            let chroma = match self.bit_depth_chroma_minus8 {
                Some(c) => c,
                None => {
                    return Err(
                        Error::invalid_input(
                            "Missing 'bit_depth_chroma_minus8' field in 'avcC' box",
                        ),
                    );
                },
            };
            if chroma_format >= 4 || luma >= 8 || chroma >= 8 {
                return Err(Error::invalid_input("avcC bit field out of range"));
            }
            if self.sps_ext_list.len() > 255 {
                return Err(Error::invalid_input("Too many SPS EXTs"));
            }
            ext_fields = (chroma_format, luma, chroma);
        }
        let ghost start = out@;
        push_u8(out, 1);
        push_u8(out, self.avc_profile_indication);
        push_u8(out, self.profile_compatibility);
        push_u8(out, self.avc_level_indication);
        push_u8(out, 0xFC + self.length_size_minus_one);
        push_u8(out, 0xE0 + self.sps_list.len() as u8);
        let ghost a = out@;
        match encode_nal_list(&self.sps_list, out) {
            Ok(()) => {},
            Err(e) => {
                return Err(e);
            },
        }
        push_u8(out, self.pps_list.len() as u8);
        match encode_nal_list(&self.pps_list, out) {
            Ok(()) => {},
            Err(e) => {
                return Err(e);
            },
        }
        let ghost b = out@;
        if ext {
            push_u8(out, 0xFC + ext_fields.0);
            push_u8(out, 0xF8 + ext_fields.1);
            push_u8(out, 0xF8 + ext_fields.2);
            push_u8(out, self.sps_ext_list.len() as u8);
            match encode_nal_list(&self.sps_ext_list, out) {
                Ok(()) => {},
                Err(e) => {
                    return Err(e);
                },
            }
        }
        proof {
            assert(out@ =~= b + avcc_ext_bytes(self@));
            assert(out@ =~= start + avcc_bytes(self@));
        }
        Ok(())
    }

    fn decode_payload(p: &[u8]) -> (r: Result<Self, Error>) {
        if p.len() < 6 {
            return Err(Error::invalid_data("avcC box is truncated"));
        }
        if p[0] != 1 {
            return Err(Error::invalid_data("Unsupported avcC configuration version"));
        }
        let (sps_list, o1) = match decode_nal_list(p, 6, (p[5] % 32) as usize) {
            Ok(x) => x,
            Err(e) => {
                return Err(e);
            },
        };
        if o1 >= p.len() {
            return Err(Error::invalid_data("avcC box is truncated"));
        }
        let (pps_list, o2) = match decode_nal_list(p, o1 + 1, p[o1] as usize) {
            Ok(x) => x,
            Err(e) => {
                return Err(e);
            },
        };
        if has_ext(p[1]) && o2 < p.len() {
            if p.len() - o2 < 4 {
                return Err(Error::invalid_data("avcC box is truncated"));
            }
            let (sps_ext_list, _) = match decode_nal_list(p, o2 + 4, p[o2 + 3] as usize) {
                Ok(x) => x,
                Err(e) => {
                    return Err(e);
                },
            };
            Ok(
                AvccBox {
                    avc_profile_indication: p[1],
                    profile_compatibility: p[2],
                    avc_level_indication: p[3],
                    length_size_minus_one: p[4] % 4,
                    sps_list,
                    pps_list,
                    chroma_format: Some(p[o2] % 4),
                    bit_depth_luma_minus8: Some(p[o2 + 1] % 8),
                    bit_depth_chroma_minus8: Some(p[o2 + 2] % 8),
                    sps_ext_list,
                },
            )
        } else {
            let sps_ext_list: Vec<Vec<u8>> = Vec::new();
            assert(nal_view(sps_ext_list@) =~= Seq::<Seq<u8>>::empty());
            Ok(
                AvccBox {
                    avc_profile_indication: p[1],
                    profile_compatibility: p[2],
                    avc_level_indication: p[3],
                    length_size_minus_one: p[4] % 4,
                    sps_list,
                    pps_list,
                    chroma_format: None,
                    bit_depth_luma_minus8: None,
                    bit_depth_chroma_minus8: None,
                    sps_ext_list,
                },
            )
        }
    }
}

impl AvccBox {
    /// The bytes of the box. Fails when it cannot be encoded.
    pub fn encode_to_vec(&self) -> (r: Result<Vec<u8>, Error>)
        ensures
            r matches Err(e) ==> e.kind == ErrorKind::InvalidInput,
            r is Ok <==> box_encodable::<AvccBox>(self@),
            r matches Ok(v) ==> v@ == box_of::<AvccBox>(self@),
    {
        encode_box_to_vec(self)
    }

    /// Decodes the box at the start of `buf`; returns it and its size.
    pub fn decode(buf: &[u8]) -> (r: Result<(AvccBox, usize), Error>)
        ensures
            r matches Err(e) ==> e.kind == ErrorKind::InvalidData,
            r is Ok <==> parse_box::<AvccBox>(buf@) is Some,
            r matches Ok((v, n)) ==> parse_box::<AvccBox>(buf@) == Some((v@, n as int)),
    {
        decode_box(buf)
    }
}

} // verus!
