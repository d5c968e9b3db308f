//! The boxes of a fragmented MP4 initialization segment (`ftyp` and `moov`
//! with empty sample tables and `mvex`), as ISO/IEC 14496-12 lays them out.
use vstd::prelude::*;

use crate::bytes::{be16, be32, be64, box_bytes, push_slice, push_u16, push_u32, push_u64, push_u8, write_box};
use crate::codec::full_header_bytes;
use crate::codec::push_full_header;
use crate::entry::{push_zeros, zeros};
use crate::error::{Error, ErrorKind};
use crate::sample_entry::{sample_entry_bytes, sample_entry_encodable, SampleEntry, SampleEntryV};

verus! {

/// A box around `p`, when its size fits in 32 bits.
pub open spec fn opt_box(t: u32, p: Option<Seq<u8>>) -> Option<Seq<u8>> {
    match p {
        Some(p) => if 8 + p.len() <= u32::MAX {
            Some(box_bytes(t, p))
        } else {
            None
        },
        None => None,
    }
}

/// Both parts one after the other, when both exist.
pub open spec fn cat(a: Option<Seq<u8>>, b: Option<Seq<u8>>) -> Option<Seq<u8>> {
    match (a, b) {
        (Some(x), Some(y)) => Some(x + y),
        _ => None,
    }
}

/// Writes a box around `payload`.
pub fn put_box(out: &mut Vec<u8>, t: u32, payload: &Vec<u8>) -> (r: Result<(), Error>)
    ensures
        r matches Err(e) ==> e.kind == ErrorKind::InvalidInput,
        r is Ok <==> opt_box(t, Some(payload@)) is Some,
        r is Ok ==> final(out)@ == old(out)@ + opt_box(t, Some(payload@))->0,
{
    write_box(out, t, payload)
}

/// The unity transformation matrix.
pub open spec fn matrix_bytes() -> Seq<u8> {
    be32(0x0001_0000) + zeros(12) + be32(0x0001_0000) + zeros(12) + be32(0x4000_0000)
}

fn push_matrix(out: &mut Vec<u8>)
    ensures
        final(out)@ == old(out)@ + matrix_bytes(),
{
    push_u32(out, 0x0001_0000);
    push_zeros(out, 12);
    push_u32(out, 0x0001_0000);
    push_zeros(out, 12);
    push_u32(out, 0x4000_0000);
    assert(out@ =~= old(out)@ + matrix_bytes());
}

// ----- ftyp -----

/// `ftyp`: major brand, minor version, compatible brands.
pub open spec fn ftyp_bytes(major: u32, minor: u32, brands: Seq<u32>) -> Seq<u8> {
    box_bytes(0x6674_7970, be32(major) + be32(minor) + brands_bytes(brands))
}

pub open spec fn brands_bytes(brands: Seq<u32>) -> Seq<u8>
    decreases brands.len(),
{
    if brands.len() == 0 {
        Seq::empty()
    } else {
        brands_bytes(brands.drop_last()) + be32(brands.last())
    }
}

pub fn push_ftyp(out: &mut Vec<u8>, major: u32, minor: u32, brands: &Vec<u32>)
    requires
        brands@.len() <= 16,
    ensures
        final(out)@ == old(out)@ + ftyp_bytes(major, minor, brands@),
{
    let mut p: Vec<u8> = Vec::new();
    push_u32(&mut p, major);
    push_u32(&mut p, minor);
    let ghost head = p@;
    let mut i: usize = 0;
    while i < brands.len()
        invariant
            i <= brands@.len(),
            brands@.len() <= 16,
            head.len() == 8,
            p@ == head + brands_bytes(brands@.take(i as int)),
        decreases brands@.len() - i,
    {
        push_u32(&mut p, brands[i]);
        proof {
            assert(brands@.take(i + 1).drop_last() =~= brands@.take(i as int));
        }
        i = i + 1;
    }
    assert(brands@.take(i as int) =~= brands@);
    proof {
        lemma_brands_len(brands@);
    }
    let r = write_box(out, 0x6674_7970, &p);
    assert(r is Ok);
}

proof fn lemma_brands_len(b: Seq<u32>)
    ensures
        brands_bytes(b).len() == 4 * b.len(),
    decreases b.len(),
{
    if b.len() > 0 {
        lemma_brands_len(b.drop_last());
    }
}

// ----- mvhd, tkhd, mdhd -----

/// `mvhd` with the given times, timescale 1000, zero duration, unity rate and
/// volume; version 1 when the time does not fit in 32 bits.
pub open spec fn mvhd_bytes(t: u64, next_track_id: u32) -> Seq<u8> {
    let times = if t > u32::MAX {
        full_header_bytes(1, 0) + be64(t) + be64(t) + be32(1000) + be64(0)
    } else {
        full_header_bytes(0, 0) + be32(t as u32) + be32(t as u32) + be32(1000) + be32(0)
    };
    box_bytes(
        0x6D76_6864,
        times + be32(0x0001_0000) + be16(0x0100) + zeros(10) + matrix_bytes() + zeros(24) + be32(
            next_track_id,
        ),
    )
}

pub fn push_mvhd(out: &mut Vec<u8>, t: u64, next_track_id: u32)
    ensures
        final(out)@ == old(out)@ + mvhd_bytes(t, next_track_id),
{
    let mut p: Vec<u8> = Vec::new();
    if t > 0xFFFF_FFFF {
        push_full_header(&mut p, 1, 0);
        push_u64(&mut p, t);
        push_u64(&mut p, t);
        push_u32(&mut p, 1000);
        push_u64(&mut p, 0);
    } else {
        push_full_header(&mut p, 0, 0);
        push_u32(&mut p, t as u32);
        push_u32(&mut p, t as u32);
        push_u32(&mut p, 1000);
        push_u32(&mut p, 0);
    }
    push_u32(&mut p, 0x0001_0000);
    push_u16(&mut p, 0x0100);
    push_zeros(&mut p, 10);
    push_matrix(&mut p);
    push_zeros(&mut p, 24);
    push_u32(&mut p, next_track_id);
    let r = write_box(out, 0x6D76_6864, &p);
    assert(r is Ok);
    assert(out@ =~= old(out)@ + mvhd_bytes(t, next_track_id));
}

/// `tkhd` of an enabled track in the movie with the given times, zero
/// duration, default layer and group, the given volume (8.8) and size (16.16).
pub open spec fn tkhd_bytes(t: u64, track_id: u32, volume: u16, width: u32, height: u32) -> Seq<u8> {
    let times = if t > u32::MAX {
        full_header_bytes(1, 3) + be64(t) + be64(t) + be32(track_id) + be32(0) + be64(0)
    } else {
        full_header_bytes(0, 3) + be32(t as u32) + be32(t as u32) + be32(track_id) + be32(0) + be32(
            0,
        )
    };
    box_bytes(
        0x746B_6864,
        times + zeros(8) + be16(0) + be16(0) + be16(volume) + be16(0) + matrix_bytes() + be32(width)
            + be32(height),
    )
}

pub fn push_tkhd(out: &mut Vec<u8>, t: u64, track_id: u32, volume: u16, width: u32, height: u32)
    ensures
        final(out)@ == old(out)@ + tkhd_bytes(t, track_id, volume, width, height),
{
    let mut p: Vec<u8> = Vec::new();
    if t > 0xFFFF_FFFF {
        push_full_header(&mut p, 1, 3);
        push_u64(&mut p, t);
        push_u64(&mut p, t);
        push_u32(&mut p, track_id);
        push_u32(&mut p, 0);
        push_u64(&mut p, 0);
    } else {
        push_full_header(&mut p, 0, 3);
        push_u32(&mut p, t as u32);
        push_u32(&mut p, t as u32);
        push_u32(&mut p, track_id);
        push_u32(&mut p, 0);
        push_u32(&mut p, 0);
    }
    push_zeros(&mut p, 8);
    push_u16(&mut p, 0);
    push_u16(&mut p, 0);
    push_u16(&mut p, volume);
    push_u16(&mut p, 0);
    push_matrix(&mut p);
    push_u32(&mut p, width);
    push_u32(&mut p, height);
    let r = write_box(out, 0x746B_6864, &p);
    assert(r is Ok);
    assert(out@ =~= old(out)@ + tkhd_bytes(t, track_id, volume, width, height));
}

/// The packed ISO-639-2/T language code: three 5-bit letters (each minus 0x60).
pub open spec fn language_code(l: Seq<u8>) -> u16 {
    (((l[0] as int - 0x60) % 32) * 1024 + ((l[1] as int - 0x60) % 32) * 32 + ((l[2] as int - 0x60)
        % 32)) as u16
}

fn pack_language(l: &[u8; 3]) -> (r: u16)
    ensures
        r == language_code(l@),
{
    let a = (l[0].wrapping_sub(0x60) % 32) as u16;
    let b = (l[1].wrapping_sub(0x60) % 32) as u16;
    let c = (l[2].wrapping_sub(0x60) % 32) as u16;
    proof {
        let x = l@[0];
        let y = l@[1];
        let z = l@[2];
        assert((x.wrapping_sub(0x60) % 32) as int == (x as int - 0x60) % 32) by (nonlinear_arith)
            requires
                x.wrapping_sub(0x60) as int == if x >= 0x60 {
                    x as int - 0x60
                } else {
                    x as int - 0x60 + 256
                },
        ;
        assert((y.wrapping_sub(0x60) % 32) as int == (y as int - 0x60) % 32) by (nonlinear_arith)
            requires
                y.wrapping_sub(0x60) as int == if y >= 0x60 {
                    y as int - 0x60
                } else {
                    y as int - 0x60 + 256
                },
        ;
        assert((z.wrapping_sub(0x60) % 32) as int == (z as int - 0x60) % 32) by (nonlinear_arith)
            requires
                z.wrapping_sub(0x60) as int == if z >= 0x60 {
                    z as int - 0x60
                } else {
                    z as int - 0x60 + 256
                },
        ;
    }
    a * 1024 + b * 32 + c
}

/// `mdhd` with the given times and timescale, zero duration and the language.
pub open spec fn mdhd_bytes(t: u64, timescale: u32, language: u16) -> Seq<u8> {
    let times = if t > u32::MAX {
        full_header_bytes(1, 0) + be64(t) + be64(t) + be32(timescale) + be64(0)
    } else {
        full_header_bytes(0, 0) + be32(t as u32) + be32(t as u32) + be32(timescale) + be32(0)
    };
    box_bytes(0x6D64_6864, times + be16(language) + be16(0))
}

pub fn push_mdhd(out: &mut Vec<u8>, t: u64, timescale: u32, language: &[u8; 3])
    ensures
        final(out)@ == old(out)@ + mdhd_bytes(t, timescale, language_code(language@)),
{
    let lang = pack_language(language);
    let mut p: Vec<u8> = Vec::new();
    if t > 0xFFFF_FFFF {
        push_full_header(&mut p, 1, 0);
        push_u64(&mut p, t);
        push_u64(&mut p, t);
        push_u32(&mut p, timescale);
        push_u64(&mut p, 0);
    } else {
        push_full_header(&mut p, 0, 0);
        push_u32(&mut p, t as u32);
        push_u32(&mut p, t as u32);
        push_u32(&mut p, timescale);
        push_u32(&mut p, 0);
    }
    push_u16(&mut p, lang);
    push_u16(&mut p, 0);
    let r = write_box(out, 0x6D64_6864, &p);
    assert(r is Ok);
    assert(out@ =~= old(out)@ + mdhd_bytes(t, timescale, lang));
}

/// `hdlr`: handler type and the name, null-terminated.
pub open spec fn hdlr_bytes(handler: u32, name: Seq<u8>) -> Option<Seq<u8>> {
    opt_box(
        0x6864_6C72,
        Some(full_header_bytes(0, 0) + be32(0) + be32(handler) + zeros(12) + name + seq![0u8]),
    )
}

pub fn push_hdlr(out: &mut Vec<u8>, handler: u32, name: &[u8]) -> (r: Result<(), Error>)
    ensures
        r matches Err(e) ==> e.kind == ErrorKind::InvalidInput,
        r is Ok <==> hdlr_bytes(handler, name@) is Some,
        r is Ok ==> final(out)@ == old(out)@ + hdlr_bytes(handler, name@)->0,
{
    let mut p: Vec<u8> = Vec::new();
    push_full_header(&mut p, 0, 0);
    push_u32(&mut p, 0);
    push_u32(&mut p, handler);
    push_zeros(&mut p, 12);
    push_slice(&mut p, name);
    push_u8(&mut p, 0);
    assert(p@ =~= full_header_bytes(0, 0) + be32(0) + be32(handler) + zeros(12) + name@ + seq![0u8]);
    put_box(out, 0x6864_6C72, &p)
}

// ----- minf -----

/// The media header of a track.
#[derive(Debug, Clone, Copy, PartialEq, Eq, Structural)]
pub enum MediaHeader {
    /// `vmhd` (video)
    Vmhd,
    /// `smhd` (sound)
    Smhd,
    /// `sthd` (subtitles)
    Sthd,
    /// `nmhd` (other media, such as 3GPP timed text)
    Nmhd,
}

pub open spec fn media_header_bytes(m: MediaHeader) -> Seq<u8> {
    match m {
        MediaHeader::Vmhd => box_bytes(0x766D_6864, full_header_bytes(0, 1) + zeros(8)),
        MediaHeader::Smhd => box_bytes(0x736D_6864, full_header_bytes(0, 0) + zeros(4)),
        MediaHeader::Sthd => box_bytes(0x7374_6864, full_header_bytes(0, 0)),
        MediaHeader::Nmhd => box_bytes(0x6E6D_6864, full_header_bytes(0, 0)),
    }
}

pub fn push_media_header(out: &mut Vec<u8>, m: MediaHeader)
    ensures
        final(out)@ == old(out)@ + media_header_bytes(m),
{
    let mut p: Vec<u8> = Vec::new();
    let t: u32 = match m {
        MediaHeader::Vmhd => {
            push_full_header(&mut p, 0, 1);
            push_zeros(&mut p, 8);
            0x766D_6864
        },
        MediaHeader::Smhd => {
            push_full_header(&mut p, 0, 0);
            push_zeros(&mut p, 4);
            0x736D_6864
        },
        MediaHeader::Sthd => {
            push_full_header(&mut p, 0, 0);
            0x7374_6864
        },
        MediaHeader::Nmhd => {
            push_full_header(&mut p, 0, 0);
            0x6E6D_6864
        },
    };
    let r = write_box(out, t, &p);
    assert(r is Ok);
}

/// `dinf` with a `dref` holding one self-contained `url ` entry.
pub open spec fn dinf_bytes() -> Seq<u8> {
    box_bytes(
        0x6469_6E66,
        box_bytes(
            0x6472_6566,
            full_header_bytes(0, 0) + be32(1) + box_bytes(0x7572_6C20, full_header_bytes(0, 1)),
        ),
    )
}

pub fn push_dinf(out: &mut Vec<u8>)
    ensures
        final(out)@ == old(out)@ + dinf_bytes(),
{
    let mut url: Vec<u8> = Vec::new();
    push_full_header(&mut url, 0, 1);
    let mut dref: Vec<u8> = Vec::new();
    push_full_header(&mut dref, 0, 0);
    push_u32(&mut dref, 1);
    let r1 = write_box(&mut dref, 0x7572_6C20, &url);
    assert(r1 is Ok);
    let mut dinf: Vec<u8> = Vec::new();
    let r2 = write_box(&mut dinf, 0x6472_6566, &dref);
    assert(r2 is Ok);
    let r3 = write_box(out, 0x6469_6E66, &dinf);
    assert(r3 is Ok);
}

/// The sample entries one after the other, when all can be written.
pub open spec fn entries_bytes(es: Seq<SampleEntryV>) -> Option<Seq<u8>>
    decreases es.len(),
{
    if es.len() == 0 {
        Some(Seq::empty())
    } else if sample_entry_encodable(es.last()) {
        match entries_bytes(es.drop_last()) {
            Some(b) => Some(b + sample_entry_bytes(es.last())),
            None => None,
        }
    } else {
        None
    }
}

/// `stbl` of an initialization segment: `stsd` with the entries, then empty
/// `stts`, `stsc`, `stsz` and `stco`.
pub open spec fn stbl_bytes(es: Seq<SampleEntryV>) -> Option<Seq<u8>> {
    let empty_tables = box_bytes(0x7374_7473, full_header_bytes(0, 0) + be32(0)) + box_bytes(
        0x7374_7363,
        full_header_bytes(0, 0) + be32(0),
    ) + box_bytes(0x7374_737A, full_header_bytes(0, 0) + be32(0) + be32(0)) + box_bytes(
        0x7374_636F,
        full_header_bytes(0, 0) + be32(0),
    );
    match entries_bytes(es) {
        Some(eb) => opt_box(
            0x7374_626C,
            cat(
                opt_box(0x7374_7364, Some(full_header_bytes(0, 0) + be32(es.len() as u32) + eb)),
                Some(empty_tables),
            ),
        ),
        None => None,
    }
}

pub fn push_stbl(out: &mut Vec<u8>, es: &Vec<SampleEntry>) -> (r: Result<(), Error>)
    ensures
        r matches Err(e) ==> e.kind == ErrorKind::InvalidInput,
        r is Ok <==> stbl_bytes(crate::mux::entries_view(es@)) is Some,
        r is Ok ==> final(out)@ == old(out)@ + stbl_bytes(crate::mux::entries_view(es@))->0,
{
    let ghost v = crate::mux::entries_view(es@);
    let mut stsd: Vec<u8> = Vec::new();
    push_full_header(&mut stsd, 0, 0);
    push_u32(&mut stsd, es.len() as u32);
    let ghost head = stsd@;
    let mut i: usize = 0;
    while i < es.len()
        invariant
            i <= es@.len(),
            v == crate::mux::entries_view(es@),
            entries_bytes(v.take(i as int)) is Some,
            stsd@ == head + entries_bytes(v.take(i as int))->0,
        decreases es@.len() - i,
    {
        match es[i].encode(&mut stsd) {
            Ok(()) => {},
            Err(e) => {
                proof {
                    assert(v.take(i + 1).drop_last() =~= v.take(i as int));
                    lemma_entries_bytes_prefix(v, i + 1);
                }
                return Err(e);
            },
        }
        proof {
            assert(v.take(i + 1).drop_last() =~= v.take(i as int));
            assert(v.take(i + 1).last() == v[i as int]);
        }
        i = i + 1;
    }
    assert(v.take(i as int) =~= v);
    let mut tables: Vec<u8> = Vec::new();
    match put_box(&mut tables, 0x7374_7364, &stsd) {
        Ok(()) => {},
        Err(e) => {
            return Err(e);
        },
    }
    let ghost t0 = tables@;
    let mut a: Vec<u8> = Vec::new();
    push_full_header(&mut a, 0, 0);
    push_u32(&mut a, 0);
    let r1 = write_box(&mut tables, 0x7374_7473, &a);
    let r2 = write_box(&mut tables, 0x7374_7363, &a);
    let mut z: Vec<u8> = Vec::new();
    push_full_header(&mut z, 0, 0);
    push_u32(&mut z, 0);
    push_u32(&mut z, 0);
    let r3 = write_box(&mut tables, 0x7374_737A, &z);
    let r4 = write_box(&mut tables, 0x7374_636F, &a);
    assert(r1 is Ok && r2 is Ok && r3 is Ok && r4 is Ok);
    assert(tables@ =~= t0 + (box_bytes(0x7374_7473, full_header_bytes(0, 0) + be32(0)) + box_bytes(
        0x7374_7363,
        full_header_bytes(0, 0) + be32(0),
    ) + box_bytes(0x7374_737A, full_header_bytes(0, 0) + be32(0) + be32(0)) + box_bytes(
        0x7374_636F,
        full_header_bytes(0, 0) + be32(0),
    )));
    put_box(out, 0x7374_626C, &tables)
}

proof fn lemma_entries_bytes_prefix(v: Seq<SampleEntryV>, n: int)
    requires
        0 <= n <= v.len(),
        entries_bytes(v.take(n)) is None,
    ensures
        entries_bytes(v) is None,
    decreases v.len() - n,
{
    if n < v.len() {
        assert(v.take(n + 1).drop_last() =~= v.take(n));
        lemma_entries_bytes_prefix(v, n + 1);
    } else {
        assert(v.take(n) =~= v);
    }
}

// ----- mvex -----

/// `mehd` with zero fragment duration.
pub open spec fn mehd_bytes() -> Seq<u8> {
    box_bytes(0x6D65_6864, full_header_bytes(0, 0) + be32(0))
}

/// `trex` for a track: sample description 1, zero defaults.
pub open spec fn trex_bytes(track_id: u32) -> Seq<u8> {
    box_bytes(0x7472_6578, full_header_bytes(0, 0) + be32(track_id) + be32(1) + be32(0) + be32(0) + be32(0))
}

pub fn push_mehd(out: &mut Vec<u8>)
    ensures
        final(out)@ == old(out)@ + mehd_bytes(),
{
    let mut p: Vec<u8> = Vec::new();
    push_full_header(&mut p, 0, 0);
    push_u32(&mut p, 0);
    let r = write_box(out, 0x6D65_6864, &p);
    assert(r is Ok);
}

pub fn push_trex(out: &mut Vec<u8>, track_id: u32)
    ensures
        final(out)@ == old(out)@ + trex_bytes(track_id),
{
    let mut p: Vec<u8> = Vec::new();
    push_full_header(&mut p, 0, 0);
    push_u32(&mut p, track_id);
    push_u32(&mut p, 1);
    push_u32(&mut p, 0);
    push_u32(&mut p, 0);
    push_u32(&mut p, 0);
    let r = write_box(out, 0x7472_6578, &p);
    assert(r is Ok);
    assert(p@ =~= full_header_bytes(0, 0) + be32(track_id) + be32(1) + be32(0) + be32(0) + be32(0));
}

} // verus!
