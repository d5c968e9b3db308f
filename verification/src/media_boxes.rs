//! The boxes of fragmented MP4 media segments (`moof` and the `mdat`
//! header), of the segment index (`sidx`) and of the random access index
//! (`mfra`), as ISO/IEC 14496-12 lays them out.
use vstd::prelude::*;

use crate::bytes::{be16, be24, be32, be64, box_bytes, push_u16, push_u24, push_u32, push_u64, push_u8, write_box};
use crate::codec::{full_header_bytes, push_full_header};
use crate::error::{Error, ErrorKind};
use crate::init_boxes::{cat, opt_box, put_box};

verus! {

/// A sample of a track fragment run.
#[derive(Debug, Clone, Copy)]
pub struct RunSample {
    /// Duration in timescale units
    pub duration: u32,
    /// Whether the sample is a sync sample
    pub keyframe: bool,
    /// Composition time offset, if any
    pub composition_time_offset: Option<i64>,
    /// Size of the payload in bytes
    pub data_size: usize,
}

/// Sample flags: independent sync sample (depends on no other) or dependent
/// non-sync sample.
pub open spec fn sample_flags(keyframe: bool) -> u32 {
    if keyframe {
        0x0200_0000
    } else {
        0x0101_0000
    }
}

fn build_sample_flags(keyframe: bool) -> (r: u32)
    ensures
        r == sample_flags(keyframe),
{
    if keyframe {
        0x0200_0000
    } else {
        0x0101_0000
    }
}

/// The composition time offset of a sample, 0 when absent.
pub open spec fn cto_of(s: RunSample) -> i64 {
    match s.composition_time_offset {
        Some(c) => c,
        None => 0,
    }
}

/// Some sample of the run has a composition time offset.
pub open spec fn has_cto(s: Seq<RunSample>) -> bool {
    exists|i: int| 0 <= i < s.len() && (#[trigger] s[i]).composition_time_offset is Some
}

/// Every offset of the run fits version 0 (`0..=u32::MAX`).
pub open spec fn ctos_fit_v0(s: Seq<RunSample>) -> bool {
    forall|i: int| 0 <= i < s.len() ==> 0 <= cto_of(#[trigger] s[i]) <= u32::MAX
}

/// Every offset of the run fits version 1 (`i32`).
pub open spec fn ctos_fit_v1(s: Seq<RunSample>) -> bool {
    forall|i: int| 0 <= i < s.len() ==> i32::MIN <= cto_of(#[trigger] s[i]) <= i32::MAX
}

/// Every sample size fits in 32 bits.
pub open spec fn sizes_fit(s: Seq<RunSample>) -> bool {
    forall|i: int| 0 <= i < s.len() ==> (#[trigger] s[i]).data_size <= u32::MAX
}

/// The `trun` version: 0 when the offsets are absent or all fit `0..=u32::MAX`,
/// 1 when they all fit `i32`; none otherwise.
pub open spec fn trun_version(s: Seq<RunSample>) -> Option<u8> {
    if !has_cto(s) || ctos_fit_v0(s) {
        Some(0)
    } else if ctos_fit_v1(s) {
        Some(1)
    } else {
        None
    }
}

/// One sample of a run: duration, size, flags, and the offset when the run has offsets.
pub open spec fn run_sample_bytes(s: RunSample, with_cto: bool) -> Seq<u8> {
    be32(s.duration) + be32(s.data_size as u32) + be32(sample_flags(s.keyframe)) + if with_cto {
        be32(cto_of(s) as u32)
    } else {
        Seq::empty()
    }
}

pub open spec fn run_samples_bytes(s: Seq<RunSample>, with_cto: bool) -> Seq<u8>
    decreases s.len(),
{
    if s.len() == 0 {
        Seq::empty()
    } else {
        run_samples_bytes(s.drop_last(), with_cto) + run_sample_bytes(s.last(), with_cto)
    }
}

/// `trun` flags: data offset, duration, size and flags present, and offsets
/// when the run has them.
pub open spec fn trun_flags(with_cto: bool) -> u32 {
    if with_cto {
        0x0F01
    } else {
        0x0701
    }
}

/// `trun` with a data offset and one entry per sample; none when a size or
/// an offset does not fit.
pub open spec fn trun_bytes(data_offset: i32, s: Seq<RunSample>) -> Option<Seq<u8>> {
    if !sizes_fit(s) {
        None
    } else {
        match trun_version(s) {
            None => None,
            Some(v) => opt_box(
                0x7472_756E,
                Some(
                    full_header_bytes(v, trun_flags(has_cto(s))) + be32(s.len() as u32) + be32(
                        data_offset as u32,
                    ) + run_samples_bytes(s, has_cto(s)),
                ),
            ),
        }
    }
}

/// `tfhd`: track id, the sample description index when given, default base is moof.
pub open spec fn tfhd_bytes(track_id: u32, sdi: Option<u32>) -> Seq<u8> {
    match sdi {
        Some(i) => box_bytes(0x7466_6864, full_header_bytes(0, 0x0002_0002) + be32(track_id) + be32(i)),
        None => box_bytes(0x7466_6864, full_header_bytes(0, 0x0002_0000) + be32(track_id)),
    }
}

/// `tfdt`: base media decode time, version 1 when it does not fit in 32 bits.
pub open spec fn tfdt_bytes(t: u64) -> Seq<u8> {
    if t > u32::MAX {
        box_bytes(0x7466_6474, full_header_bytes(1, 0) + be64(t))
    } else {
        box_bytes(0x7466_6474, full_header_bytes(0, 0) + be32(t as u32))
    }
}

/// The input of one track fragment.
pub struct TrafSpec {
    pub track_id: u32,
    pub decode_time: u64,
    pub sdi: Option<u32>,
    pub samples: Seq<RunSample>,
    pub data_offset: i32,
}

/// `traf`: `tfhd`, `tfdt`, one `trun`.
#[verifier::opaque]
pub open spec fn traf_bytes(t: TrafSpec) -> Option<Seq<u8>> {
    opt_box(
        0x7472_6166,
        cat(Some(tfhd_bytes(t.track_id, t.sdi) + tfdt_bytes(t.decode_time)), trun_bytes(t.data_offset, t.samples)),
    )
}

pub open spec fn trafs_bytes(ts: Seq<TrafSpec>) -> Option<Seq<u8>>
    decreases ts.len(),
{
    if ts.len() == 0 {
        Some(Seq::empty())
    } else {
        cat(trafs_bytes(ts.drop_last()), traf_bytes(ts.last()))
    }
}

/// `mfhd` with the sequence number.
pub open spec fn mfhd_bytes(seq: u32) -> Seq<u8> {
    box_bytes(0x6D66_6864, full_header_bytes(0, 0) + be32(seq))
}

/// `moof`: `mfhd`, then the track fragments.
#[verifier::opaque]
pub open spec fn moof_bytes(seq: u32, ts: Seq<TrafSpec>) -> Option<Seq<u8>> {
    opt_box(0x6D6F_6F66, cat(Some(mfhd_bytes(seq)), trafs_bytes(ts)))
}

/// Track fragments that differ only in their data offsets: both can be
/// written or neither, with the same length.
pub proof fn lemma_traf_len_indep(a: TrafSpec, b: TrafSpec)
    requires
        a == (TrafSpec { data_offset: a.data_offset, ..b }),
    ensures
        traf_bytes(a) is Some <==> traf_bytes(b) is Some,
        traf_bytes(a) is Some ==> traf_bytes(a)->0.len() == traf_bytes(b)->0.len(),
{
    reveal(traf_bytes);
}

/// Sequences of track fragments that differ only in their data offsets.
pub proof fn lemma_trafs_len_indep(a: Seq<TrafSpec>, b: Seq<TrafSpec>)
    requires
        a.len() == b.len(),
        forall|k: int| 0 <= k < a.len() ==> (#[trigger] a[k]) == (TrafSpec { data_offset: a[k].data_offset, ..b[k] }),
    ensures
        trafs_bytes(a) is Some <==> trafs_bytes(b) is Some,
        trafs_bytes(a) is Some ==> trafs_bytes(a)->0.len() == trafs_bytes(b)->0.len(),
    decreases a.len(),
{
    if a.len() > 0 {
        let da = a.drop_last();
        let db = b.drop_last();
        assert forall|k: int| 0 <= k < da.len() implies (#[trigger] da[k]) == (TrafSpec {
            data_offset: da[k].data_offset,
            ..db[k]
        }) by {
            assert(da[k] == a[k]);
            assert(db[k] == b[k]);
        }
        lemma_trafs_len_indep(da, db);
        lemma_traf_len_indep(a.last(), b.last());
    }
}

/// `moof` boxes whose track fragments differ only in their data offsets.
pub proof fn lemma_moof_len_indep(seq: u32, a: Seq<TrafSpec>, b: Seq<TrafSpec>)
    requires
        a.len() == b.len(),
        forall|k: int| 0 <= k < a.len() ==> (#[trigger] a[k]) == (TrafSpec { data_offset: a[k].data_offset, ..b[k] }),
    ensures
        moof_bytes(seq, a) is Some <==> moof_bytes(seq, b) is Some,
        moof_bytes(seq, a) is Some ==> moof_bytes(seq, a)->0.len() == moof_bytes(seq, b)->0.len(),
{
    reveal(moof_bytes);
    lemma_trafs_len_indep(a, b);
}

/// Writes a `trun`.
pub fn push_trun(out: &mut Vec<u8>, data_offset: i32, s: &Vec<RunSample>) -> (r: Result<(), Error>)
    ensures
        r matches Err(e) ==> e.kind == if sizes_fit(s@) {
            ErrorKind::InvalidInput
        } else {
            ErrorKind::InvalidData
        },
        r is Ok <==> trun_bytes(data_offset, s@) is Some,
        r is Ok ==> final(out)@ == old(out)@ + trun_bytes(data_offset, s@)->0,
{
    let mut any_cto = false;
    let mut fit0 = true;
    let mut fit1 = true;
    let mut i: usize = 0;
    while i < s.len()
        invariant
            i <= s@.len(),
            any_cto == exists|j: int| 0 <= j < i && (#[trigger] s@[j]).composition_time_offset is Some,
            fit0 == forall|j: int| 0 <= j < i ==> 0 <= cto_of(#[trigger] s@[j]) <= u32::MAX,
            fit1 == forall|j: int| 0 <= j < i ==> i32::MIN <= cto_of(#[trigger] s@[j]) <= i32::MAX,
            forall|j: int| 0 <= j < i ==> (#[trigger] s@[j]).data_size <= u32::MAX,
        decreases s@.len() - i,
    {
        let x = s[i];
        if x.data_size > 0xFFFF_FFFF {
            return Err(Error::invalid_data("sample data size exceeds u32::MAX"));
        }
        let c: i64 = match x.composition_time_offset {
            Some(c) => c,
            None => 0,
        };
        if x.composition_time_offset.is_some() {
            any_cto = true;
        }
        if c < 0 || c > 0xFFFF_FFFF {
            fit0 = false;
        }
        if c < -0x8000_0000 || c > 0x7FFF_FFFF {
            fit1 = false;
        }
        i = i + 1;
    }
    let version: u8 = if !any_cto || fit0 {
        0
    } else if fit1 {
        1
    } else {
        return Err(Error::invalid_input("composition time offsets do not fit trun"));
    };
    let mut p: Vec<u8> = Vec::new();
    push_full_header(&mut p, version, if any_cto { 0x0F01 } else { 0x0701 });
    push_u32(&mut p, s.len() as u32);
    push_u32(&mut p, data_offset as u32);
    let ghost head = p@;
    let mut k: usize = 0;
    while k < s.len()
        invariant
            k <= s@.len(),
            any_cto == has_cto(s@),
            forall|j: int| 0 <= j < s@.len() ==> (#[trigger] s@[j]).data_size <= u32::MAX,
            p@ == head + run_samples_bytes(s@.take(k as int), any_cto),
        decreases s@.len() - k,
    {
        let x = s[k];
        push_u32(&mut p, x.duration);
        push_u32(&mut p, x.data_size as u32);
        push_u32(&mut p, build_sample_flags(x.keyframe));
        if any_cto {
            let c: i64 = match x.composition_time_offset {
                Some(c) => c,
                None => 0,
            };
            push_u32(&mut p, c as u32);
        }
        proof {
            let t = s@.take(k + 1);
            assert(t.drop_last() =~= s@.take(k as int));
            assert(t.last() == x);
        }
        k = k + 1;
    }
    assert(s@.take(k as int) =~= s@);
    put_box(out, 0x7472_756E, &p)
}

/// Writes a `traf`.
pub fn push_traf(
    out: &mut Vec<u8>,
    track_id: u32,
    decode_time: u64,
    sdi: Option<u32>,
    samples: &Vec<RunSample>,
    data_offset: i32,
) -> (r: Result<(), Error>)
    ensures
        r matches Err(e) ==> e.kind == if sizes_fit(samples@) {
            ErrorKind::InvalidInput
        } else {
            ErrorKind::InvalidData
        },
        r is Ok <==> traf_bytes(TrafSpec { track_id, decode_time, sdi, samples: samples@, data_offset }) is Some,
        r is Ok ==> final(out)@ == old(out)@ + traf_bytes(
            TrafSpec { track_id, decode_time, sdi, samples: samples@, data_offset },
        )->0,
{
    reveal(traf_bytes);
    let mut p: Vec<u8> = Vec::new();
    let mut h: Vec<u8> = Vec::new();
    match sdi {
        Some(i) => {
            push_full_header(&mut h, 0, 0x0002_0002);
            push_u32(&mut h, track_id);
            push_u32(&mut h, i);
        },
        None => {
            push_full_header(&mut h, 0, 0x0002_0000);
            push_u32(&mut h, track_id);
        },
    }
    let r1 = write_box(&mut p, 0x7466_6864, &h);
    assert(r1 is Ok);
    let mut d: Vec<u8> = Vec::new();
    if decode_time > 0xFFFF_FFFF {
        push_full_header(&mut d, 1, 0);
        push_u64(&mut d, decode_time);
    } else {
        push_full_header(&mut d, 0, 0);
        push_u32(&mut d, decode_time as u32);
    }
    let r2 = write_box(&mut p, 0x7466_6474, &d);
    assert(r2 is Ok);
    assert(p@ =~= tfhd_bytes(track_id, sdi) + tfdt_bytes(decode_time));
    match push_trun(&mut p, data_offset, samples) {
        Ok(()) => {},
        Err(e) => {
            return Err(e);
        },
    }
    put_box(out, 0x7472_6166, &p)
}

/// Writes an `mfhd` into `out`.
pub fn push_mfhd(out: &mut Vec<u8>, seq: u32)
    ensures
        final(out)@ == old(out)@ + mfhd_bytes(seq),
{
    let mut p: Vec<u8> = Vec::new();
    push_full_header(&mut p, 0, 0);
    push_u32(&mut p, seq);
    let r = write_box(out, 0x6D66_6864, &p);
    assert(r is Ok);
}

// ----- mdat header -----

/// The `mdat` header for a payload of `n` bytes: 8 bytes when the box size
/// fits in 32 bits, 16 bytes with a 64-bit size otherwise; none when the size
/// does not fit in 64 bits.
pub open spec fn mdat_header_bytes(n: u64) -> Option<Seq<u8>> {
    if 8 + n > u64::MAX {
        None
    } else if 8 + n <= u32::MAX {
        Some(be32((8 + n) as u32) + be32(0x6D64_6174))
    } else if 16 + n > u64::MAX {
        None
    } else {
        Some(be32(1) + be32(0x6D64_6174) + be64((16 + n) as u64))
    }
}

pub fn mdat_header(n: u64) -> (r: Option<Vec<u8>>)
    ensures
        r is Some <==> mdat_header_bytes(n) is Some,
        r matches Some(v) ==> v@ == mdat_header_bytes(n)->0,
{
    if n > 0xFFFF_FFFF_FFFF_FFFF - 8 {
        return None;
    }
    let mut h: Vec<u8> = Vec::new();
    if 8 + n <= 0xFFFF_FFFF {
        push_u32(&mut h, (8 + n) as u32);
        push_u32(&mut h, 0x6D64_6174);
    } else {
        if n > 0xFFFF_FFFF_FFFF_FFFF - 16 {
            return None;
        }
        push_u32(&mut h, 1);
        push_u32(&mut h, 0x6D64_6174);
        push_u64(&mut h, 16 + n);
    }
    assert(h@ =~= mdat_header_bytes(n)->0);
    Some(h)
}

// ----- sidx -----

/// `sidx` with one reference to a subsegment (a `moof` and its `mdat`),
/// starting with a SAP of type 1 or not starting with a SAP; version 1 when the
/// earliest presentation time does not fit in 32 bits.
pub open spec fn sidx_bytes(
    reference_id: u32,
    timescale: u32,
    ept: u64,
    referenced_size: u32,
    duration: u32,
    sap: bool,
) -> Seq<u8> {
    let times = if ept > u32::MAX {
        full_header_bytes(1, 0) + be32(reference_id) + be32(timescale) + be64(ept) + be64(0)
    } else {
        full_header_bytes(0, 0) + be32(reference_id) + be32(timescale) + be32(ept as u32) + be32(0)
    };
    box_bytes(
        0x7369_6478,
        times + be16(0) + be16(1) + be32(referenced_size) + be32(duration) + be32(
            if sap {
                0x9000_0000
            } else {
                0
            },
        ),
    )
}

pub fn sidx_box(
    reference_id: u32,
    timescale: u32,
    ept: u64,
    referenced_size: u32,
    duration: u32,
    sap: bool,
) -> (r: Vec<u8>)
    ensures
        r@ == sidx_bytes(reference_id, timescale, ept, referenced_size, duration, sap),
        r@.len() <= 52,
{
    let mut p: Vec<u8> = Vec::new();
    push_full_header(&mut p, if ept > 0xFFFF_FFFF { 1 } else { 0 }, 0);
    push_u32(&mut p, reference_id);
    push_u32(&mut p, timescale);
    if ept > 0xFFFF_FFFF {
        push_u64(&mut p, ept);
        push_u64(&mut p, 0);
    } else {
        push_u32(&mut p, ept as u32);
        push_u32(&mut p, 0);
    }
    push_u16(&mut p, 0);
    push_u16(&mut p, 1);
    push_u32(&mut p, referenced_size);
    push_u32(&mut p, duration);
    push_u32(&mut p, if sap { 0x9000_0000 } else { 0 });
    let mut out: Vec<u8> = Vec::new();
    let r = write_box(&mut out, 0x7369_6478, &p);
    assert(r is Ok);
    assert(out@ =~= sidx_bytes(reference_id, timescale, ept, referenced_size, duration, sap));
    out
}

// ----- mfra -----

/// One entry of a track fragment random access box.
#[derive(Debug, Clone, Copy, PartialEq, Eq, Structural)]
pub struct TfraEntry {
    /// Decode time of the first sample of the fragment
    pub time: u64,
    /// Offset of the fragment's `moof` from the start of the file
    pub moof_offset: u64,
    /// 1-based index of the track's `traf` in the `moof`
    pub traf_number: u32,
}

/// `n` bytes (1 to 4) of `v`, big-endian.
pub open spec fn uint_bytes(v: u32, n: nat) -> Seq<u8> {
    if n == 1 {
        seq![v as u8]
    } else if n == 2 {
        be16(v as u16)
    } else if n == 3 {
        be24(v)
    } else {
        be32(v)
    }
}

/// One entry of a `tfra`: time and offset (64-bit in version 1), the traf
/// number in `traf_len` bytes, trun and sample numbers 1.
pub open spec fn tfra_entry_bytes(e: TfraEntry, version: u8, traf_len: nat) -> Seq<u8> {
    let times = if version == 1 {
        be64(e.time) + be64(e.moof_offset)
    } else {
        be32(e.time as u32) + be32(e.moof_offset as u32)
    };
    times + uint_bytes(e.traf_number, traf_len) + seq![1u8, 1u8]
}

pub open spec fn tfra_entries_bytes(es: Seq<TfraEntry>, version: u8, traf_len: nat) -> Seq<u8>
    decreases es.len(),
{
    if es.len() == 0 {
        Seq::empty()
    } else {
        tfra_entries_bytes(es.drop_last(), version, traf_len) + tfra_entry_bytes(es.last(), version, traf_len)
    }
}

fn push_tfra_entry(p: &mut Vec<u8>, e: TfraEntry, version: u8, traf_len_code: u8)
    requires
        traf_len_code <= 3,
    ensures
        final(p)@ == old(p)@ + tfra_entry_bytes(e, version, (traf_len_code + 1) as nat),
{
    if version == 1 {
        push_u64(p, e.time);
        push_u64(p, e.moof_offset);
    } else {
        push_u32(p, e.time as u32);
        push_u32(p, e.moof_offset as u32);
    }
    if traf_len_code == 0 {
        push_u8(p, e.traf_number as u8);
    } else if traf_len_code == 1 {
        push_u16(p, e.traf_number as u16);
    } else if traf_len_code == 2 {
        push_u24(p, e.traf_number);
    } else {
        push_u32(p, e.traf_number);
    }
    push_u8(p, 1);
    push_u8(p, 1);
    assert(p@ =~= old(p)@ + tfra_entry_bytes(e, version, (traf_len_code + 1) as nat));
}

/// `tfra` for a track.
pub open spec fn tfra_bytes(version: u8, track_id: u32, traf_len_code: u8, es: Seq<TfraEntry>) -> Option<
    Seq<u8>,
> {
    opt_box(
        0x7466_7261,
        Some(
            full_header_bytes(version, 0) + be32(track_id) + be32((traf_len_code * 16) as u32) + be32(
                es.len() as u32,
            ) + tfra_entries_bytes(es, version, (traf_len_code + 1) as nat),
        ),
    )
}

pub fn push_tfra(out: &mut Vec<u8>, version: u8, track_id: u32, traf_len_code: u8, es: &Vec<TfraEntry>) -> (r:
    Result<(), Error>)
    requires
        version <= 1,
        traf_len_code <= 3,
    ensures
        r matches Err(e) ==> e.kind == ErrorKind::InvalidInput,
        r is Ok <==> tfra_bytes(version, track_id, traf_len_code, es@) is Some,
        r is Ok ==> final(out)@ == old(out)@ + tfra_bytes(version, track_id, traf_len_code, es@)->0,
{
    let mut p: Vec<u8> = Vec::new();
    push_full_header(&mut p, version, 0);
    push_u32(&mut p, track_id);
    push_u32(&mut p, (traf_len_code * 16) as u32);
    push_u32(&mut p, es.len() as u32);
    let ghost head = p@;
    let mut i: usize = 0;
    while i < es.len()
        invariant
            i <= es@.len(),
            version <= 1,
            traf_len_code <= 3,
            p@ == head + tfra_entries_bytes(es@.take(i as int), version, (traf_len_code + 1) as nat),
        decreases es@.len() - i,
    {
        let e = es[i];
        push_tfra_entry(&mut p, e, version, traf_len_code);
        proof {
            let t = es@.take(i + 1);
            assert(t.drop_last() =~= es@.take(i as int));
            assert(t.last() == e);
        }
        i = i + 1;
    }
    assert(es@.take(i as int) =~= es@);
    put_box(out, 0x7466_7261, &p)
}

/// `mfro` with the size of the whole `mfra`.
pub open spec fn mfro_bytes(size: u32) -> Seq<u8> {
    box_bytes(0x6D66_726F, full_header_bytes(0, 0) + be32(size))
}

pub fn push_mfro(out: &mut Vec<u8>, size: u32)
    ensures
        final(out)@ == old(out)@ + mfro_bytes(size),
{
    let mut p: Vec<u8> = Vec::new();
    push_full_header(&mut p, 0, 0);
    push_u32(&mut p, size);
    let r = write_box(out, 0x6D66_726F, &p);
    assert(r is Ok);
}

} // verus!
