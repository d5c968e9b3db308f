//! RFC 6381 `codecs` parameter strings for sample entries.
//!
//! The forms follow RFC 6381 and the ISOBMFF binding of each codec.
use vstd::prelude::*;
use vstd::utf8::{decode_utf8, encode_utf8, is_ascii_chars, valid_utf8};

use crate::avcc::{AvccBox, AvccBoxV};
use crate::codec::BoxCodec;
use crate::bytes::{be32, push_u32, push_u8};
use crate::config_simple::{Av1cBox, Av1cBoxV, VpccBox, VpccBoxV};
use crate::error::{Error, ErrorKind};
use crate::esds::{DecoderConfigDescriptor, DecoderConfigV};
use crate::hvcc::{HvccBox, HvccBoxV};
use crate::sample_entries::{
    Av01Box, Avc1Box, FlacBox, Hev1Box, Hvc1Box, Mp4aBox, Mp4vBox, OpusBox, Vp08Box, Vp09Box,
};
use crate::entry::{EntryV, VisualFieldsV};
use crate::sample_entry::{SampleEntry, SampleEntryV};
use crate::subtitle::{StppBox, WvttBox};
use crate::text::string_from_bytes;
use crate::tx3g::Tx3gBox;

verus! {

// ----- characters -----

/// The characters of ASCII bytes.
pub open spec fn ascii_chars(b: Seq<u8>) -> Seq<char> {
    b.map_values(|x: u8| x as char)
}

/// Every byte is ASCII.
pub open spec fn is_ascii_bytes(b: Seq<u8>) -> bool {
    forall|i: int| 0 <= i < b.len() ==> #[trigger] b[i] < 0x80
}

/// `.`
pub open spec fn dot() -> Seq<u8> {
    seq![0x2Eu8]
}

/// The decimal digit `d` (0..=9).
pub open spec fn dec_digit(d: nat) -> u8 {
    (0x30 + d) as u8
}

/// The hexadecimal digit `d` (0..=15), upper or lower case.
pub open spec fn hex_digit(d: nat, upper: bool) -> u8 {
    if d < 10 {
        (0x30 + d) as u8
    } else if upper {
        (0x41 + d - 10) as u8
    } else {
        (0x61 + d - 10) as u8
    }
}

/// `n` in decimal, without leading zeros.
pub open spec fn dec_bytes(n: nat) -> Seq<u8>
    decreases n,
{
    if n < 10 {
        seq![dec_digit(n)]
    } else {
        dec_bytes(n / 10) + seq![dec_digit(n % 10)]
    }
}

/// `n` in decimal, at least two digits.
pub open spec fn dec2_bytes(n: nat) -> Seq<u8> {
    if n < 10 {
        seq![0x30u8, dec_digit(n)]
    } else {
        dec_bytes(n)
    }
}

/// `n` in hexadecimal, without leading zeros.
pub open spec fn hex_bytes(n: nat, upper: bool) -> Seq<u8>
    decreases n,
{
    if n < 16 {
        seq![hex_digit(n, upper)]
    } else {
        hex_bytes(n / 16, upper) + seq![hex_digit(n % 16, upper)]
    }
}

/// A byte as two hexadecimal digits.
pub open spec fn hex2_bytes(b: u8, upper: bool) -> Seq<u8> {
    seq![hex_digit((b / 16) as nat, upper), hex_digit((b % 16) as nat, upper)]
}

proof fn lemma_dec_ascii(n: nat)
    ensures
        is_ascii_bytes(dec_bytes(n)),
    decreases n,
{
    if n >= 10 {
        lemma_dec_ascii(n / 10);
    }
}

proof fn lemma_hex_ascii(n: nat, upper: bool)
    ensures
        is_ascii_bytes(hex_bytes(n, upper)),
    decreases n,
{
    if n >= 16 {
        lemma_hex_ascii(n / 16, upper);
    }
}

/// ASCII bytes are valid UTF-8 and decode to the same characters.
proof fn lemma_ascii_utf8(b: Seq<u8>)
    requires
        is_ascii_bytes(b),
    ensures
        valid_utf8(b),
        decode_utf8(b) == ascii_chars(b),
{
    let c = ascii_chars(b);
    assert(is_ascii_chars(c)) by {
        assert forall|i: int| 0 <= i < c.len() implies '\0' <= #[trigger] c[i] <= '\u{7f}' by {
            assert(b[i] < 0x80);
        }
    }
    vstd::utf8::is_ascii_chars_encode_utf8(c);
    assert forall|i: int| 0 <= i < b.len() implies encode_utf8(c)[i] == b[i] by {
        assert(c[i] == b[i] as char);
        assert((b[i] as char) as u8 == b[i]);
    }
    assert(encode_utf8(c) =~= b);
    vstd::utf8::encode_utf8_valid_utf8(c);
    vstd::utf8::encode_utf8_decode_utf8(c);
}

fn push_dec(out: &mut Vec<u8>, n: u32)
    ensures
        final(out)@ == old(out)@ + dec_bytes(n as nat),
    decreases n,
{
    if n >= 10 {
        push_dec(out, n / 10);
    }
    push_u8(out, 0x30 + (n % 10) as u8);
    assert(out@ =~= old(out)@ + dec_bytes(n as nat));
}

fn push_dec2(out: &mut Vec<u8>, n: u32)
    ensures
        final(out)@ == old(out)@ + dec2_bytes(n as nat),
{
    if n < 10 {
        push_u8(out, 0x30);
        push_u8(out, 0x30 + n as u8);
        assert(out@ =~= old(out)@ + dec2_bytes(n as nat));
    } else {
        push_dec(out, n);
    }
}

fn hex_digit_exec(d: u32, upper: bool) -> (r: u8)
    requires
        d < 16,
    ensures
        r == hex_digit(d as nat, upper),
{
    if d < 10 {
        0x30 + d as u8
    } else if upper {
        0x41 + (d - 10) as u8
    } else {
        0x61 + (d - 10) as u8
    }
}

fn push_hex(out: &mut Vec<u8>, n: u32, upper: bool)
    ensures
        final(out)@ == old(out)@ + hex_bytes(n as nat, upper),
    decreases n,
{
    if n >= 16 {
        push_hex(out, n / 16, upper);
    }
    let d = hex_digit_exec(n % 16, upper);
    push_u8(out, d);
    assert(out@ =~= old(out)@ + hex_bytes(n as nat, upper));
}

fn push_hex2(out: &mut Vec<u8>, b: u8, upper: bool)
    ensures
        final(out)@ == old(out)@ + hex2_bytes(b, upper),
{
    let hi = hex_digit_exec((b / 16) as u32, upper);
    let lo = hex_digit_exec((b % 16) as u32, upper);
    push_u8(out, hi);
    push_u8(out, lo);
    assert(out@ =~= old(out)@ + hex2_bytes(b, upper));
}

fn push_dot(out: &mut Vec<u8>)
    ensures
        final(out)@ == old(out)@ + dot(),
{
    push_u8(out, 0x2E);
}

// ----- per codec -----

/// H.264: `avc1.` and profile, compatibility and level as six lowercase hex digits.
pub open spec fn avc1_string(v: AvccBoxV) -> Seq<u8> {
    be32(Avc1Box::spec_box_type()) + dot() + hex2_bytes(v.avc_profile_indication, false)
        + hex2_bytes(v.profile_compatibility, false) + hex2_bytes(v.avc_level_indication, false)
}

/// The bits of `x`, `n` low bits taken, in reverse order (the lowest first),
/// after the bits already in `acc`.
pub open spec fn reverse_bits_from(x: nat, n: nat, acc: nat) -> nat
    decreases n,
{
    if n == 0 {
        acc
    } else {
        reverse_bits_from(x / 2, (n - 1) as nat, acc * 2 + x % 2)
    }
}

/// The 32 bits of `x` in reverse order.
pub open spec fn reverse_bits32(x: u32) -> nat {
    reverse_bits_from(x as nat, 32, 0)
}

fn reverse_bits(x: u32) -> (r: u32)
    ensures
        r == reverse_bits32(x),
{
    let mut v = x;
    let mut acc: u32 = 0;
    let mut i: u32 = 0;
    proof {
        vstd::arithmetic::power2::lemma2_to64();
    }
    while i < 32
        invariant
            i <= 32,
            acc < vstd::arithmetic::power2::pow2(i as nat),
            reverse_bits_from(x as nat, 32, 0) == reverse_bits_from(v as nat, (32 - i) as nat, acc as nat),
        decreases 32 - i,
    {
        proof {
            vstd::arithmetic::power2::lemma2_to64();
            vstd::arithmetic::power2::lemma_pow2_adds(i as nat, 1);
            assert(acc * 2 + v % 2 < vstd::arithmetic::power2::pow2(i as nat + 1)) by (nonlinear_arith)
                requires
                    acc < vstd::arithmetic::power2::pow2(i as nat),
                    vstd::arithmetic::power2::pow2(i as nat + 1) == vstd::arithmetic::power2::pow2(i as nat) * 2,
                    v % 2 < 2,
            ;
            if i + 1 < 32 {
                vstd::arithmetic::power2::lemma_pow2_strictly_increases(i as nat + 1, 32);
            }
        }
        acc = acc * 2 + v % 2;
        v = v / 2;
        i = i + 1;
    }
    acc
}

/// The six bytes of the 48-bit constraint flags, most significant first.
pub open spec fn constraint_bytes(cif: u64) -> Seq<u8> {
    seq![
        ((cif / 0x100_0000_0000) % 0x100) as u8,
        ((cif / 0x1_0000_0000) % 0x100) as u8,
        ((cif / 0x100_0000) % 0x100) as u8,
        ((cif / 0x1_0000) % 0x100) as u8,
        ((cif / 0x100) % 0x100) as u8,
        (cif % 0x100) as u8,
    ]
}

/// Length of `s` without its trailing zero bytes.
pub open spec fn trimmed_len(s: Seq<u8>) -> nat
    decreases s.len(),
{
    if s.len() == 0 {
        0
    } else if s.last() != 0 {
        s.len()
    } else {
        trimmed_len(s.drop_last())
    }
}

/// Bytes as uppercase hex pairs separated by dots.
pub open spec fn hex_join(s: Seq<u8>) -> Seq<u8>
    decreases s.len(),
{
    if s.len() == 0 {
        Seq::empty()
    } else if s.len() == 1 {
        hex2_bytes(s[0], true)
    } else {
        hex_join(s.drop_last()) + dot() + hex2_bytes(s.last(), true)
    }
}

/// The constraint flags with their trailing zero bytes left out (at least one byte kept).
pub open spec fn constraint_string(cif: u64) -> Seq<u8> {
    let b = constraint_bytes(cif);
    let n = trimmed_len(b);
    hex_join(b.take(if n == 0 {
        1
    } else {
        n as int
    }))
}

/// `A`, `B` or `C` for profile spaces 1 to 3; nothing otherwise.
pub open spec fn profile_space_string(s: u8) -> Seq<u8> {
    if s == 1 {
        seq![0x41u8]
    } else if s == 2 {
        seq![0x42u8]
    } else if s == 3 {
        seq![0x43u8]
    } else {
        Seq::empty()
    }
}

/// H.265 (ISO/IEC 14496-15 Annex E): type, profile space and idc, reversed
/// compatibility flags in hex, tier and level, constraint bytes.
pub open spec fn hevc_string(prefix: u32, v: HvccBoxV) -> Seq<u8> {
    be32(prefix) + dot() + profile_space_string(v.general_profile_space) + dec_bytes(
        v.general_profile_idc as nat,
    ) + dot() + hex_bytes(reverse_bits32(v.general_profile_compatibility_flags), true) + dot()
        + seq![
        if v.general_tier_flag == 0 {
            0x4Cu8
        } else {
            0x48u8
        },
    ] + dec_bytes(v.general_level_idc as nat) + dot() + constraint_string(
        v.general_constraint_indicator_flags,
    )
}

/// The AV1 binding's `BitDepth`: 12 or 10 for profile 2 with high bit depth
/// (as `twelve_bit` says), otherwise 10 with high bit depth and 8 without.
pub open spec fn av1_bit_depth_spec(seq_profile: u8, high_bitdepth: u8, twelve_bit: u8) -> u8 {
    if seq_profile == 2 && high_bitdepth != 0 {
        if twelve_bit != 0 {
            12
        } else {
            10
        }
    } else if high_bitdepth != 0 {
        10
    } else {
        8
    }
}

fn av1_bit_depth(seq_profile: u8, high_bitdepth: u8, twelve_bit: u8) -> (r: u8)
    ensures
        r == av1_bit_depth_spec(seq_profile, high_bitdepth, twelve_bit),
{
    if seq_profile == 2 && high_bitdepth != 0 {
        if twelve_bit != 0 {
            12
        } else {
            10
        }
    } else if high_bitdepth != 0 {
        10
    } else {
        8
    }
}

/// AV1: `av01.`, profile, level (two digits) and tier, bit depth (two digits).
pub open spec fn av01_string(v: Av1cBoxV) -> Seq<u8> {
    be32(Av01Box::spec_box_type()) + dot() + dec_bytes(v.seq_profile as nat) + dot() + dec2_bytes(
        v.seq_level_idx_0 as nat,
    ) + seq![
        if v.seq_tier_0 == 0 {
            0x4Du8
        } else {
            0x48u8
        },
    ] + dot() + dec2_bytes(
        av1_bit_depth_spec(v.seq_profile, v.high_bitdepth, v.twelve_bit) as nat,
    )
}

/// The codecs string of an AV1 entry ends with its `BitDepth` in two digits:
/// "08" without high bit depth; with high bit depth, "12" for profile 2 with
/// `twelve_bit` and "10" for every other entry (any other profile, or
/// profile 2 without `twelve_bit`).
pub proof fn lemma_av01_bit_depth_digits(b: EntryV<VisualFieldsV, Av1cBoxV>)
    ensures
        codec_string_bytes(SampleEntryV::Av01(b)) matches Some(s) && s.len() >= 2 && {
            let c = b.config;
            let tail = s.subrange(s.len() - 2, s.len() as int);
            &&& c.high_bitdepth == 0 ==> tail == seq![0x30u8, 0x38u8]
            &&& c.high_bitdepth != 0 && !(c.seq_profile == 2 && c.twelve_bit != 0) ==> tail == seq![
                0x31u8,
                0x30u8,
            ]
            &&& c.high_bitdepth != 0 && c.seq_profile == 2 && c.twelve_bit != 0 ==> tail == seq![
                0x31u8,
                0x32u8,
            ]
        },
{
    let c = b.config;
    let s = av01_string(c);
    let d = av1_bit_depth_spec(c.seq_profile, c.high_bitdepth, c.twelve_bit) as nat;
    let digits = dec2_bytes(d);
    assert(dec_bytes(10) =~= seq![0x31u8, 0x30u8]) by {
        reveal_with_fuel(dec_bytes, 2);
    }
    assert(dec_bytes(12) =~= seq![0x31u8, 0x32u8]) by {
        reveal_with_fuel(dec_bytes, 2);
    }
    assert(digits.len() == 2);
    assert(s.subrange(s.len() - 2, s.len() as int) =~= digits);
}

/// VP8 / VP9: type, profile, level and bit depth, each with two digits.
pub open spec fn vp_string(prefix: u32, v: VpccBoxV) -> Seq<u8> {
    be32(prefix) + dot() + dec2_bytes(v.profile as nat) + dot() + dec2_bytes(v.level as nat) + dot()
        + dec2_bytes(v.bit_depth as nat)
}

/// The `audioObjectType` at the start of an AudioSpecificConfig: 5 bits, or
/// 32 plus the next 6 bits when they are 31.
pub open spec fn asc_object_type(p: Seq<u8>) -> Option<u16> {
    if p.len() == 0 {
        None
    } else if p[0] / 8 != 31 {
        Some((p[0] / 8) as u16)
    } else if p.len() < 2 {
        None
    } else {
        Some((32 + (p[0] % 8) * 8 + p[1] / 32) as u16)
    }
}

/// MPEG-4 audio: `mp4a.` and the object type indication in two lowercase hex
/// digits, then `.` and the audio object type when the indication is 0x40.
pub open spec fn mp4a_string(d: DecoderConfigV) -> Option<Seq<u8>> {
    let base = be32(Mp4aBox::spec_box_type()) + dot() + hex2_bytes(d.object_type_indication, false);
    if d.object_type_indication == 0x40 {
        match d.dec_specific_info {
            None => None,
            Some(p) => match asc_object_type(p) {
                None => None,
                Some(aot) => Some(base + dot() + dec_bytes(aot as nat)),
            },
        }
    } else {
        Some(base)
    }
}

/// `p[i..i + 4]` is the VisualObjectSequence start code `00 00 01 B0`.
pub open spec fn is_vos_start(p: Seq<u8>, i: int) -> bool {
    0 <= i && i + 4 <= p.len() && p[i] == 0 && p[i + 1] == 0 && p[i + 2] == 1 && p[i + 3] == 0xB0
}

/// The first VisualObjectSequence start code in `p`, if any.
pub open spec fn is_first_vos(p: Seq<u8>, i: int) -> bool {
    is_vos_start(p, i) && forall|j: int| 0 <= j < i ==> !is_vos_start(p, j)
}

/// The byte after the first VisualObjectSequence start code.
#[verifier::opaque]
pub open spec fn vos_profile_level(p: Seq<u8>) -> Option<u8> {
    if exists|i: int| is_first_vos(p, i) {
        let i = choose|i: int| is_first_vos(p, i);
        if i + 4 < p.len() {
            Some(p[i + 4])
        } else {
            None
        }
    } else {
        None
    }
}

proof fn lemma_first_vos_unique(p: Seq<u8>, i: int, k: int)
    requires
        is_first_vos(p, i),
        is_first_vos(p, k),
    ensures
        i == k,
{
    if i < k {
        assert(!is_vos_start(p, i));
    } else if k < i {
        assert(!is_vos_start(p, k));
    }
}

/// MPEG-4 Visual: `mp4v.` and the object type indication in two lowercase
/// hex digits, then `.` and the profile and level indication in lowercase hex
/// when the indication is 0x20.
pub open spec fn mp4v_string(d: DecoderConfigV) -> Option<Seq<u8>> {
    let base = be32(Mp4vBox::spec_box_type()) + dot() + hex2_bytes(d.object_type_indication, false);
    if d.object_type_indication == 0x20 {
        match d.dec_specific_info {
            None => None,
            Some(p) => match vos_profile_level(p) {
                None => None,
                Some(pli) => Some(base + dot() + hex_bytes(pli as nat, false)),
            },
        }
    } else {
        Some(base)
    }
}

/// The `codecs` string of a sample entry, as ASCII bytes; `None` when it
/// cannot be formed.
pub open spec fn codec_string_bytes(v: SampleEntryV) -> Option<Seq<u8>> {
    match v {
        SampleEntryV::Avc1(b) => Some(avc1_string(b.config)),
        SampleEntryV::Hev1(b) => Some(hevc_string(Hev1Box::spec_box_type(), b.config)),
        SampleEntryV::Hvc1(b) => Some(hevc_string(Hvc1Box::spec_box_type(), b.config)),
        SampleEntryV::Av01(b) => Some(av01_string(b.config)),
        SampleEntryV::Vp08(b) => Some(vp_string(Vp08Box::spec_box_type(), b.config)),
        SampleEntryV::Vp09(b) => Some(vp_string(Vp09Box::spec_box_type(), b.config)),
        SampleEntryV::Mp4a(b) => mp4a_string(b.config.es.dec_config_descr),
        SampleEntryV::Mp4v(b) => mp4v_string(b.config.es.dec_config_descr),
        SampleEntryV::Opus(_) => Some(be32(OpusBox::spec_box_type())),
        SampleEntryV::Flac(_) => Some(be32(FlacBox::spec_box_type())),
        SampleEntryV::Stpp(_) => Some(be32(StppBox::spec_box_type())),
        SampleEntryV::Wvtt(_) => Some(be32(WvttBox::spec_box_type())),
        SampleEntryV::Tx3g(_) => Some(be32(Tx3gBox::spec_box_type())),
        SampleEntryV::Unknown(_) => None,
    }
}

// ----- exec -----

fn push_fourcc(out: &mut Vec<u8>, code: u32)
    ensures
        final(out)@ == old(out)@ + be32(code),
{
    push_u32(out, code);
}

fn avc1_bytes(out: &mut Vec<u8>, b: &AvccBox)
    ensures
        final(out)@ == old(out)@ + avc1_string(b@),
{
    push_fourcc(out, Avc1Box::TYPE);
    push_dot(out);
    push_hex2(out, b.avc_profile_indication, false);
    push_hex2(out, b.profile_compatibility, false);
    push_hex2(out, b.avc_level_indication, false);
    assert(out@ =~= old(out)@ + avc1_string(b@));
}

fn trimmed_count(b: &[u8; 6]) -> (r: usize)
    ensures
        r == trimmed_len(b@),
{
    let mut n: usize = 6;
    assert(b@.take(6) =~= b@);
    while n > 0 && b[n - 1] == 0
        invariant
            n <= 6,
            trimmed_len(b@) == trimmed_len(b@.take(n as int)),
        decreases n,
    {
        proof {
            assert(b@.take(n as int).drop_last() =~= b@.take(n - 1));
        }
        n = n - 1;
    }
    proof {
        if n > 0 {
            assert(b@.take(n as int).last() == b@[n - 1]);
        } else {
            assert(b@.take(0) =~= Seq::<u8>::empty());
        }
    }
    assert(b@.take(6) =~= b@);
    n
}

proof fn lemma_trimmed_len_bound(s: Seq<u8>)
    ensures
        trimmed_len(s) <= s.len(),
    decreases s.len(),
{
    if s.len() > 0 && s.last() == 0 {
        lemma_trimmed_len_bound(s.drop_last());
    }
}

fn push_constraint(out: &mut Vec<u8>, cif: u64)
    ensures
        final(out)@ == old(out)@ + constraint_string(cif),
{
    let b: [u8; 6] = [
        ((cif / 0x100_0000_0000) % 0x100) as u8,
        ((cif / 0x1_0000_0000) % 0x100) as u8,
        ((cif / 0x100_0000) % 0x100) as u8,
        ((cif / 0x1_0000) % 0x100) as u8,
        ((cif / 0x100) % 0x100) as u8,
        (cif % 0x100) as u8,
    ];
    assert(b@ =~= constraint_bytes(cif));
    let t = trimmed_count(&b);
    proof {
        lemma_trimmed_len_bound(b@);
    }
    let n = if t == 0 {
        1
    } else {
        t
    };
    let ghost start = out@;
    let mut i: usize = 0;
    while i < n
        invariant
            1 <= n <= 6,
            i <= n,
            b@ == constraint_bytes(cif),
            out@ == start + hex_join(b@.take(i as int)),
        decreases n - i,
    {
        if i > 0 {
            push_dot(out);
        }
        push_hex2(out, b[i], true);
        proof {
            let s = b@.take(i + 1);
            assert(s.drop_last() =~= b@.take(i as int));
            assert(s.last() == b@[i as int]);
            if i == 0 {
                assert(hex_join(s) == hex2_bytes(s[0], true));
                assert(b@.take(0) =~= Seq::<u8>::empty());
            }
        }
        i = i + 1;
    }
}

fn hevc_bytes(out: &mut Vec<u8>, prefix: u32, h: &HvccBox)
    ensures
        final(out)@ == old(out)@ + hevc_string(prefix, h@),
{
    push_fourcc(out, prefix);
    push_dot(out);
    if h.general_profile_space == 1 {
        push_u8(out, 0x41);
    } else if h.general_profile_space == 2 {
        push_u8(out, 0x42);
    } else if h.general_profile_space == 3 {
        push_u8(out, 0x43);
    }
    let ghost a = out@;
    assert(a =~= old(out)@ + be32(prefix) + dot() + profile_space_string(h.general_profile_space));
    push_dec(out, h.general_profile_idc as u32);
    push_dot(out);
    let compat = reverse_bits(h.general_profile_compatibility_flags);
    push_hex(out, compat, true);
    push_dot(out);
    if h.general_tier_flag == 0 {
        push_u8(out, 0x4C);
    } else {
        push_u8(out, 0x48);
    }
    push_dec(out, h.general_level_idc as u32);
    push_dot(out);
    push_constraint(out, h.general_constraint_indicator_flags);
    assert(out@ =~= old(out)@ + hevc_string(prefix, h@));
}

fn av01_bytes(out: &mut Vec<u8>, b: &Av1cBox)
    ensures
        final(out)@ == old(out)@ + av01_string(b@),
{
    push_fourcc(out, Av01Box::TYPE);
    push_dot(out);
    push_dec(out, b.seq_profile as u32);
    push_dot(out);
    push_dec2(out, b.seq_level_idx_0 as u32);
    if b.seq_tier_0 == 0 {
        push_u8(out, 0x4D);
    } else {
        push_u8(out, 0x48);
    }
    push_dot(out);
    let depth = av1_bit_depth(b.seq_profile, b.high_bitdepth, b.twelve_bit);
    push_dec2(out, depth as u32);
    assert(out@ =~= old(out)@ + av01_string(b@));
}

fn vp_bytes(out: &mut Vec<u8>, prefix: u32, v: &VpccBox)
    ensures
        final(out)@ == old(out)@ + vp_string(prefix, v@),
{
    push_fourcc(out, prefix);
    push_dot(out);
    push_dec2(out, v.profile as u32);
    push_dot(out);
    push_dec2(out, v.level as u32);
    push_dot(out);
    push_dec2(out, v.bit_depth as u32);
    assert(out@ =~= old(out)@ + vp_string(prefix, v@));
}

/// Reads the `audioObjectType` at the start of an AudioSpecificConfig.
fn audio_object_type_from_asc(payload: &[u8]) -> (r: Result<u16, Error>)
    ensures
        r is Ok <==> asc_object_type(payload@) is Some,
        r matches Ok(a) ==> asc_object_type(payload@) == Some(a),
        r matches Err(e) ==> e.kind == ErrorKind::InvalidData,
{
    if payload.len() == 0 {
        return Err(Error::invalid_data("AudioSpecificConfig is empty; cannot read audioObjectType"));
    }
    let aot = payload[0] / 8;
    if aot != 31 {
        return Ok(aot as u16);
    }
    if payload.len() < 2 {
        return Err(Error::invalid_data("AudioSpecificConfig is truncated at escaped audioObjectType"));
    }
    let ext = (payload[0] % 8) * 8 + payload[1] / 32;
    Ok(ext as u16 + 32)
}

/// Reads the byte after the first VisualObjectSequence start code.
fn visual_profile_level_indication_from_vos(payload: &[u8]) -> (r: Result<u8, Error>)
    ensures
        r is Ok <==> vos_profile_level(payload@) is Some,
        r matches Ok(v) ==> vos_profile_level(payload@) == Some(v),
        r matches Err(e) ==> e.kind == ErrorKind::InvalidData,
{
    let n = payload.len();
    let mut i: usize = 0;
    while n >= 4 && i <= n - 4
        invariant
            n == payload@.len(),
            forall|j: int| 0 <= j < i ==> !is_vos_start(payload@, j),
        decreases n - i,
    {
        if payload[i] == 0 && payload[i + 1] == 0 && payload[i + 2] == 1 && payload[i + 3] == 0xB0 {
            proof {
                reveal(vos_profile_level);
                assert(is_first_vos(payload@, i as int));
                let c = choose|k: int| is_first_vos(payload@, k);
                lemma_first_vos_unique(payload@, i as int, c);
            }
            if i + 4 < n {
                return Ok(payload[i + 4]);
            } else {
                return Err(
                    Error::invalid_data(
                        "DecoderSpecificInfo is truncated at VisualObjectSequence profile_and_level_indication",
                    ),
                );
            }
        }
        i = i + 1;
    }
    proof {
        reveal(vos_profile_level);
        assert forall|j: int| !is_first_vos(payload@, j) by {
            if 0 <= j && j + 4 <= payload@.len() {
                assert(j < i);
            }
        }
    }
    Err(Error::invalid_data("DecoderSpecificInfo does not contain a VisualObjectSequence start code"))
}

fn mp4a_bytes(out: &mut Vec<u8>, d: &DecoderConfigDescriptor) -> (r: Result<(), Error>)
    ensures
        r is Ok <==> mp4a_string(d@) is Some,
        r is Ok ==> final(out)@ == old(out)@ + mp4a_string(d@)->0,
        r matches Err(e) ==> e.kind == ErrorKind::InvalidData,
{
    push_fourcc(out, Mp4aBox::TYPE);
    push_dot(out);
    push_hex2(out, d.object_type_indication, false);
    let ghost base = out@;
    if d.object_type_indication == DecoderConfigDescriptor::OBJECT_TYPE_INDICATION_AUDIO_ISO_IEC_14496_3 {
        let info = match &d.dec_specific_info {
            Some(info) => info,
            None => {
                return Err(
                    Error::invalid_data("mp4a object type 0x40 requires DecoderSpecificInfo for codecs string"),
                );
            },
        };
        let aot = match audio_object_type_from_asc(info.payload.as_slice()) {
            Ok(a) => a,
            Err(e) => {
                return Err(e);
            },
        };
        push_dot(out);
        push_dec(out, aot as u32);
    }
    assert(out@ =~= old(out)@ + mp4a_string(d@)->0);
    Ok(())
}

fn mp4v_bytes(out: &mut Vec<u8>, d: &DecoderConfigDescriptor) -> (r: Result<(), Error>)
    ensures
        r is Ok <==> mp4v_string(d@) is Some,
        r is Ok ==> final(out)@ == old(out)@ + mp4v_string(d@)->0,
        r matches Err(e) ==> e.kind == ErrorKind::InvalidData,
{
    push_fourcc(out, Mp4vBox::TYPE);
    push_dot(out);
    push_hex2(out, d.object_type_indication, false);
    if d.object_type_indication == 0x20 {
        let info = match &d.dec_specific_info {
            Some(info) => info,
            None => {
                return Err(
                    Error::invalid_data("mp4v object type 0x20 requires DecoderSpecificInfo for codecs string"),
                );
            },
        };
        let pli = match visual_profile_level_indication_from_vos(info.payload.as_slice()) {
            Ok(a) => a,
            Err(e) => {
                return Err(e);
            },
        };
        push_dot(out);
        push_hex(out, pli as u32, false);
    }
    assert(out@ =~= old(out)@ + mp4v_string(d@)->0);
    Ok(())
}

proof fn lemma_ascii_cat(a: Seq<u8>, b: Seq<u8>)
    requires
        is_ascii_bytes(a),
        is_ascii_bytes(b),
    ensures
        is_ascii_bytes(a + b),
{
    assert forall|i: int| 0 <= i < (a + b).len() implies #[trigger] (a + b)[i] < 0x80 by {
        if i < a.len() {
            assert((a + b)[i] == a[i]);
        } else {
            assert((a + b)[i] == b[i - a.len()]);
        }
    }
}

proof fn lemma_fourcc_ascii(code: u32)
    requires
        code / 0x100_0000 < 0x80,
        (code / 0x1_0000) % 0x100 < 0x80,
        (code / 0x100) % 0x100 < 0x80,
        code % 0x100 < 0x80,
    ensures
        is_ascii_bytes(be32(code)),
{
}

proof fn lemma_hex2_ascii(b: u8, upper: bool)
    ensures
        is_ascii_bytes(hex2_bytes(b, upper)),
{
}

proof fn lemma_dec2_ascii(n: nat)
    ensures
        is_ascii_bytes(dec2_bytes(n)),
{
    if n >= 10 {
        lemma_dec_ascii(n);
    }
}

proof fn lemma_hex_join_ascii(s: Seq<u8>)
    ensures
        is_ascii_bytes(hex_join(s)),
    decreases s.len(),
{
    if s.len() > 1 {
        lemma_hex_join_ascii(s.drop_last());
        lemma_ascii_cat(hex_join(s.drop_last()), dot());
        lemma_ascii_cat(hex_join(s.drop_last()) + dot(), hex2_bytes(s.last(), true));
    }
}

proof fn lemma_hevc_ascii(prefix: u32, v: HvccBoxV)
    requires
        is_ascii_bytes(be32(prefix)),
    ensures
        is_ascii_bytes(hevc_string(prefix, v)),
{
    let a = be32(prefix) + dot() + profile_space_string(v.general_profile_space);
    lemma_ascii_cat(be32(prefix), dot());
    lemma_ascii_cat(be32(prefix) + dot(), profile_space_string(v.general_profile_space));
    lemma_dec_ascii(v.general_profile_idc as nat);
    lemma_ascii_cat(a, dec_bytes(v.general_profile_idc as nat));
    let b = a + dec_bytes(v.general_profile_idc as nat) + dot();
    lemma_ascii_cat(a + dec_bytes(v.general_profile_idc as nat), dot());
    let h = hex_bytes(reverse_bits32(v.general_profile_compatibility_flags), true);
    lemma_hex_ascii(reverse_bits32(v.general_profile_compatibility_flags), true);
    lemma_ascii_cat(b, h);
    lemma_ascii_cat(b + h, dot());
    let t = seq![
        if v.general_tier_flag == 0 {
            0x4Cu8
        } else {
            0x48u8
        },
    ];
    lemma_ascii_cat(b + h + dot(), t);
    lemma_dec_ascii(v.general_level_idc as nat);
    lemma_ascii_cat(b + h + dot() + t, dec_bytes(v.general_level_idc as nat));
    lemma_ascii_cat(b + h + dot() + t + dec_bytes(v.general_level_idc as nat), dot());
    let cb = constraint_bytes(v.general_constraint_indicator_flags);
    let n = trimmed_len(cb);
    lemma_hex_join_ascii(cb.take(if n == 0 { 1 } else { n as int }));
    lemma_ascii_cat(
        b + h + dot() + t + dec_bytes(v.general_level_idc as nat) + dot(),
        constraint_string(v.general_constraint_indicator_flags),
    );
}

proof fn lemma_av01_ascii(v: Av1cBoxV)
    ensures
        is_ascii_bytes(av01_string(v)),
{
    lemma_fourcc_ascii(Av01Box::spec_box_type());
    let a = be32(Av01Box::spec_box_type()) + dot();
    lemma_ascii_cat(be32(Av01Box::spec_box_type()), dot());
    lemma_dec_ascii(v.seq_profile as nat);
    lemma_ascii_cat(a, dec_bytes(v.seq_profile as nat));
    lemma_ascii_cat(a + dec_bytes(v.seq_profile as nat), dot());
    let b = a + dec_bytes(v.seq_profile as nat) + dot();
    lemma_dec2_ascii(v.seq_level_idx_0 as nat);
    lemma_ascii_cat(b, dec2_bytes(v.seq_level_idx_0 as nat));
    let t = seq![
        if v.seq_tier_0 == 0 {
            0x4Du8
        } else {
            0x48u8
        },
    ];
    lemma_ascii_cat(b + dec2_bytes(v.seq_level_idx_0 as nat), t);
    lemma_ascii_cat(b + dec2_bytes(v.seq_level_idx_0 as nat) + t, dot());
    let d = av1_bit_depth_spec(v.seq_profile, v.high_bitdepth, v.twelve_bit) as nat;
    lemma_dec2_ascii(d);
    lemma_ascii_cat(b + dec2_bytes(v.seq_level_idx_0 as nat) + t + dot(), dec2_bytes(d));
}

proof fn lemma_vp_ascii(prefix: u32, v: VpccBoxV)
    requires
        is_ascii_bytes(be32(prefix)),
    ensures
        is_ascii_bytes(vp_string(prefix, v)),
{
    lemma_ascii_cat(be32(prefix), dot());
    let a = be32(prefix) + dot();
    lemma_dec2_ascii(v.profile as nat);
    lemma_dec2_ascii(v.level as nat);
    lemma_dec2_ascii(v.bit_depth as nat);
    lemma_ascii_cat(a, dec2_bytes(v.profile as nat));
    lemma_ascii_cat(a + dec2_bytes(v.profile as nat), dot());
    let b = a + dec2_bytes(v.profile as nat) + dot();
    lemma_ascii_cat(b, dec2_bytes(v.level as nat));
    lemma_ascii_cat(b + dec2_bytes(v.level as nat), dot());
    lemma_ascii_cat(b + dec2_bytes(v.level as nat) + dot(), dec2_bytes(v.bit_depth as nat));
}

proof fn lemma_avc1_ascii(v: AvccBoxV)
    ensures
        is_ascii_bytes(avc1_string(v)),
{
    lemma_fourcc_ascii(Avc1Box::spec_box_type());
    lemma_ascii_cat(be32(Avc1Box::spec_box_type()), dot());
    let a = be32(Avc1Box::spec_box_type()) + dot();
    lemma_hex2_ascii(v.avc_profile_indication, false);
    lemma_hex2_ascii(v.profile_compatibility, false);
    lemma_hex2_ascii(v.avc_level_indication, false);
    lemma_ascii_cat(a, hex2_bytes(v.avc_profile_indication, false));
    lemma_ascii_cat(a + hex2_bytes(v.avc_profile_indication, false), hex2_bytes(v.profile_compatibility, false));
    lemma_ascii_cat(
        a + hex2_bytes(v.avc_profile_indication, false) + hex2_bytes(v.profile_compatibility, false),
        hex2_bytes(v.avc_level_indication, false),
    );
}

proof fn lemma_mp4_desc_ascii(code: u32, d: DecoderConfigV, tail: Seq<u8>)
    requires
        is_ascii_bytes(be32(code)),
        is_ascii_bytes(tail),
    ensures
        is_ascii_bytes(be32(code) + dot() + hex2_bytes(d.object_type_indication, false)),
        is_ascii_bytes(be32(code) + dot() + hex2_bytes(d.object_type_indication, false) + dot() + tail),
{
    lemma_ascii_cat(be32(code), dot());
    lemma_hex2_ascii(d.object_type_indication, false);
    lemma_ascii_cat(be32(code) + dot(), hex2_bytes(d.object_type_indication, false));
    let a = be32(code) + dot() + hex2_bytes(d.object_type_indication, false);
    lemma_ascii_cat(a, dot());
    lemma_ascii_cat(a + dot(), tail);
}

/// Every `codecs` string is ASCII.
proof fn lemma_codec_string_ascii(v: SampleEntryV)
    requires
        codec_string_bytes(v) is Some,
    ensures
        is_ascii_bytes(codec_string_bytes(v)->0),
{
    match v {
        SampleEntryV::Avc1(b) => lemma_avc1_ascii(b.config),
        SampleEntryV::Hev1(b) => {
            lemma_fourcc_ascii(Hev1Box::spec_box_type());
            lemma_hevc_ascii(Hev1Box::spec_box_type(), b.config);
        },
        SampleEntryV::Hvc1(b) => {
            lemma_fourcc_ascii(Hvc1Box::spec_box_type());
            lemma_hevc_ascii(Hvc1Box::spec_box_type(), b.config);
        },
        SampleEntryV::Av01(b) => lemma_av01_ascii(b.config),
        SampleEntryV::Vp08(b) => {
            lemma_fourcc_ascii(Vp08Box::spec_box_type());
            lemma_vp_ascii(Vp08Box::spec_box_type(), b.config);
        },
        SampleEntryV::Vp09(b) => {
            lemma_fourcc_ascii(Vp09Box::spec_box_type());
            lemma_vp_ascii(Vp09Box::spec_box_type(), b.config);
        },
        SampleEntryV::Mp4a(b) => {
            let d = b.config.es.dec_config_descr;
            lemma_fourcc_ascii(Mp4aBox::spec_box_type());
            if d.object_type_indication == 0x40 {
                let aot = asc_object_type(d.dec_specific_info->0)->0;
                lemma_dec_ascii(aot as nat);
                lemma_mp4_desc_ascii(Mp4aBox::spec_box_type(), d, dec_bytes(aot as nat));
            } else {
                lemma_mp4_desc_ascii(Mp4aBox::spec_box_type(), d, dot());
            }
        },
        SampleEntryV::Mp4v(b) => {
            let d = b.config.es.dec_config_descr;
            lemma_fourcc_ascii(Mp4vBox::spec_box_type());
            if d.object_type_indication == 0x20 {
                let pli = vos_profile_level(d.dec_specific_info->0)->0;
                lemma_hex_ascii(pli as nat, false);
                lemma_mp4_desc_ascii(Mp4vBox::spec_box_type(), d, hex_bytes(pli as nat, false));
            } else {
                lemma_mp4_desc_ascii(Mp4vBox::spec_box_type(), d, dot());
            }
        },
        SampleEntryV::Opus(_) => lemma_fourcc_ascii(OpusBox::spec_box_type()),
        SampleEntryV::Flac(_) => lemma_fourcc_ascii(FlacBox::spec_box_type()),
        SampleEntryV::Stpp(_) => lemma_fourcc_ascii(StppBox::spec_box_type()),
        SampleEntryV::Wvtt(_) => lemma_fourcc_ascii(WvttBox::spec_box_type()),
        SampleEntryV::Tx3g(_) => lemma_fourcc_ascii(Tx3gBox::spec_box_type()),
        SampleEntryV::Unknown(_) => {},
    }
}

/// Builds the RFC 6381 `codecs` string of a sample entry.
///
/// - `avc1`: profile, compatibility and level as six lowercase hex digits (`avc1.640028`)
/// - `hev1` / `hvc1`: ISO/IEC 14496-15 Annex E form (`hev1.1.6.L93.B0`)
/// - `av01`: the mandatory fields of the AV1 binding (`av01.0.01M.08`)
/// - `vp08` / `vp09`: profile, level and bit depth (`vp09.00.31.08`)
/// - `mp4a`: object type indication, and the audio object type read from the
///   AudioSpecificConfig when the indication is 0x40 (`mp4a.40.2`)
/// - `mp4v`: object type indication, and the profile and level indication
///   read after the VisualObjectSequence start code when it is 0x20
///   (`mp4v.20.9`; MPEG-2 video gives `mp4v.61`)
/// - `Opus`, `fLaC`, `stpp`, `wvtt`, `tx3g`: the four-character code alone
///
/// Fails with `Unsupported` for an unknown sample entry, and with
/// `InvalidData` when `mp4a` (indication 0x40) or `mp4v` (indication 0x20)
/// lack the decoder specific information or it is truncated.
pub fn from_sample_entry(entry: &SampleEntry) -> (r: Result<String, Error>)
    ensures
        r is Ok <==> codec_string_bytes(entry@) is Some,
        r matches Ok(s) ==> s@ == ascii_chars(codec_string_bytes(entry@)->0),
        r matches Err(e) ==> e.kind == if entry@ is Unknown {
            ErrorKind::Unsupported
        } else {
            ErrorKind::InvalidData
        },
{
    let mut out: Vec<u8> = Vec::new();
    match entry {
        SampleEntry::Avc1(b) => avc1_bytes(&mut out, &b.avcc_box),
        SampleEntry::Hev1(b) => hevc_bytes(&mut out, Hev1Box::TYPE, &b.hvcc_box),
        SampleEntry::Hvc1(b) => hevc_bytes(&mut out, Hvc1Box::TYPE, &b.hvcc_box),
        SampleEntry::Av01(b) => av01_bytes(&mut out, &b.av1c_box),
        SampleEntry::Vp08(b) => vp_bytes(&mut out, Vp08Box::TYPE, &b.vpcc_box),
        SampleEntry::Vp09(b) => vp_bytes(&mut out, Vp09Box::TYPE, &b.vpcc_box),
        SampleEntry::Mp4a(b) => {
            match mp4a_bytes(&mut out, &b.esds_box.es.dec_config_descr) {
                Ok(()) => {},
                Err(e) => {
                    return Err(e);
                },
            }
        },
        SampleEntry::Mp4v(b) => {
            match mp4v_bytes(&mut out, &b.esds_box.es.dec_config_descr) {
                Ok(()) => {},
                Err(e) => {
                    return Err(e);
                },
            }
        },
        SampleEntry::Opus(_) => push_fourcc(&mut out, OpusBox::TYPE),
        SampleEntry::Flac(_) => push_fourcc(&mut out, FlacBox::TYPE),
        SampleEntry::Stpp(_) => push_fourcc(&mut out, StppBox::TYPE),
        SampleEntry::Wvtt(_) => push_fourcc(&mut out, WvttBox::TYPE),
        SampleEntry::Tx3g(_) => push_fourcc(&mut out, Tx3gBox::TYPE),
        SampleEntry::Unknown(_) => {
            return Err(
                Error::unsupported("codec string is unsupported for unknown sample entry types"),
            );
        },
    }
    assert(out@ =~= codec_string_bytes(entry@)->0);
    proof {
        lemma_codec_string_ascii(entry@);
        lemma_ascii_utf8(out@);
    }
    match string_from_bytes(out.as_slice()) {
        Some(s) => Ok(s),
        None => Err(Error::invalid_data("codec string is not valid UTF-8")),
    }
}

} // verus!
