//! The media segments of the fragmented MP4 muxer: a `moof` with a track
//! fragment per track of the segment, the `mdat` header, and what the muxer
//! records of each segment (decode times, the random access index).
use vstd::prelude::*;

use crate::error::{Error, ErrorKind};
use crate::fmp4::{
    durations, of_kind, resolve_segment, resolved_view, tracks_view, MuxerV, ResolvedSegmentTrack, ResolvedV, TfraSegmentEntry,
    TrackEntry, TrackV,
};
use crate::init_boxes::put_box;
use crate::media_boxes::{mdat_header_bytes, moof_bytes, push_mfhd, push_traf, sizes_fit, trafs_bytes, TrafSpec};
use crate::mux::{samples_view, MuxError, MuxErrorV, Sample, SampleV, TrackKind};

verus! {

// ===== specification =====

/// The size of the segment's `mdat` payload: the furthest end of a track's payload.
pub open spec fn payload_size(rs: Seq<ResolvedV>) -> u64
    decreases rs.len(),
{
    if rs.len() == 0 {
        0
    } else {
        let p = payload_size(rs.drop_last());
        if rs.last().payload_end > p {
            rs.last().payload_end
        } else {
            p
        }
    }
}

/// Every sample size of every track fits in 32 bits.
pub open spec fn all_sizes_fit(rs: Seq<ResolvedV>) -> bool {
    forall|k: int| 0 <= k < rs.len() ==> sizes_fit(#[trigger] rs[k].samples)
}

/// The track fragment of a resolved track, with the data offset `off`.
pub open spec fn traf_spec(tracks: Seq<TrackV>, r: ResolvedV, off: i32) -> TrafSpec {
    TrafSpec {
        track_id: tracks[r.track_index].track_id,
        decode_time: tracks[r.track_index].decode_time,
        sdi: r.sample_description_index,
        samples: r.samples,
        data_offset: off,
    }
}

/// The track fragments of the resolved tracks, in order, with their data offsets.
pub open spec fn traf_specs(tracks: Seq<TrackV>, rs: Seq<ResolvedV>, offs: Seq<i32>) -> Seq<TrafSpec> {
    Seq::new(rs.len(), |k: int| traf_spec(tracks, rs[k], offs[k]))
}

/// Zero data offsets, one per track.
pub open spec fn zero_offsets(n: nat) -> Seq<i32> {
    Seq::new(n, |k: int| 0i32)
}

/// The data offset of a track's payload from the start of the `moof`, `base`
/// being the size of the `moof` and the `mdat` header: it must fit in 64
/// bits, then in `i32`.
pub open spec fn data_offset_of(base: int, r: ResolvedV) -> Result<i32, MuxErrorV> {
    if base + r.first_data_offset > u64::MAX {
        Err(MuxErrorV::Overflow)
    } else if base + r.first_data_offset > i32::MAX {
        Err(MuxErrorV::EncodeError(ErrorKind::InvalidData))
    } else {
        Ok((base + r.first_data_offset) as i32)
    }
}

/// The data offsets of the tracks, in order; the first that fails decides.
pub open spec fn data_offsets(base: int, rs: Seq<ResolvedV>) -> Result<Seq<i32>, MuxErrorV>
    decreases rs.len(),
{
    if rs.len() == 0 {
        Ok(Seq::empty())
    } else {
        match data_offsets(base, rs.drop_last()) {
            Err(e) => Err(e),
            Ok(o) => match data_offset_of(base, rs.last()) {
                Err(e) => Err(e),
                Ok(x) => Ok(o.push(x)),
            },
        }
    }
}

/// The random access entries of the tracks, one list per track, padded
/// with empty lists up to `n` tracks.
pub open spec fn padded(tfra: Seq<Seq<TfraSegmentEntry>>, n: nat) -> Seq<Seq<TfraSegmentEntry>> {
    if tfra.len() >= n {
        tfra
    } else {
        tfra + Seq::new((n - tfra.len()) as nat, |i: int| Seq::<TfraSegmentEntry>::empty())
    }
}

/// The random access entry of the `k`-th track fragment of a segment whose
/// `moof` starts `mbw` bytes into the media segments: the decode time the
/// track had before the segment (0 for a new track).
pub open spec fn segment_entry(old_tracks: Seq<TrackV>, r: ResolvedV, k: int, mbw: u64) -> TfraSegmentEntry {
    TfraSegmentEntry {
        time: if r.track_index < old_tracks.len() {
            old_tracks[r.track_index].decode_time
        } else {
            0
        },
        moof_relative_offset: mbw,
        traf_number: (k + 1) as u32,
    }
}

/// The random access entries with one more entry for each track of the segment.
pub open spec fn record_entries(
    acc: Seq<Seq<TfraSegmentEntry>>,
    old_tracks: Seq<TrackV>,
    rs: Seq<ResolvedV>,
    mbw: u64,
) -> Seq<Seq<TfraSegmentEntry>>
    decreases rs.len(),
{
    if rs.len() == 0 {
        acc
    } else {
        let a = record_entries(acc, old_tracks, rs.drop_last(), mbw);
        let k = rs.len() - 1;
        let ti = rs[k].track_index;
        a.update(ti, a[ti].push(segment_entry(old_tracks, rs[k], k, mbw)))
    }
}

/// The tracks with the segment's durations added to their decode times;
/// none when one does not fit in 64 bits.
pub open spec fn advance(tracks: Seq<TrackV>, rs: Seq<ResolvedV>) -> Option<Seq<TrackV>>
    decreases rs.len(),
{
    if rs.len() == 0 {
        Some(tracks)
    } else {
        match advance(tracks, rs.drop_last()) {
            None => None,
            Some(t) => {
                let ti = rs.last().track_index;
                let d = t[ti].decode_time + rs.last().total_duration;
                if d > u64::MAX {
                    None
                } else {
                    Some(t.update(ti, TrackV { decode_time: d as u64, ..t[ti] }))
                }
            },
        }
    }
}

/// A media segment: its bytes (`moof` and `mdat` header), the size of the
/// `mdat` payload the caller lays out after them, and the muxer's state after it.
pub struct SegmentV {
    pub bytes: Seq<u8>,
    pub payload_size: u64,
    pub next: MuxerV,
}

/// Building a media segment from the samples. It needs samples and a next
/// sequence number; the samples are resolved against the tracks; the `mdat`
/// header must fit its payload; every sample size must fit `trun`; the `moof`
/// is built once with zero data offsets to learn its size, whence each
/// track's data offset (its payload's offset from the start of the `moof`);
/// each track of the segment gets a random access entry, and its decode time
/// grows by the segment's durations; the count of media bytes grows by the
/// segment and its payload. `Err(None)` stands for a box that cannot be
/// encoded.
#[verifier::opaque]
pub open spec fn media_segment(m: MuxerV, xs: Seq<SampleV>) -> Result<SegmentV, Option<MuxErrorV>> {
    if xs.len() == 0 {
        Err(Some(MuxErrorV::EmptySamples))
    } else if m.sequence_number == u32::MAX {
        Err(Some(MuxErrorV::EncodeError(ErrorKind::InvalidData)))
    } else {
        let seq = (m.sequence_number + 1) as u32;
        match resolve_segment(m.tracks, xs) {
            Err(e) => Err(Some(e)),
            Ok((t, rs)) => {
                let payload = payload_size(rs);
                match mdat_header_bytes(payload) {
                    None => Err(Some(MuxErrorV::Overflow)),
                    Some(header) => if !all_sizes_fit(rs) {
                        Err(Some(MuxErrorV::EncodeError(ErrorKind::InvalidData)))
                    } else {
                        match moof_bytes(seq, traf_specs(t, rs, zero_offsets(rs.len()))) {
                            None => Err(None),
                            Some(placeholder) => match data_offsets(
                                (placeholder.len() + header.len()) as int,
                                rs,
                            ) {
                                Err(e) => Err(Some(e)),
                                Ok(offs) => match moof_bytes(seq, traf_specs(t, rs, offs)) {
                                    None => Err(None),
                                    Some(moof) => match advance(t, rs) {
                                        None => Err(Some(MuxErrorV::Overflow)),
                                        Some(t2) => if m.media_bytes_written + moof.len() + header.len()
                                            + payload > u64::MAX {
                                            Err(Some(MuxErrorV::Overflow))
                                        } else {
                                            Ok(
                                                SegmentV {
                                                    bytes: moof + header,
                                                    payload_size: payload,
                                                    next: MuxerV {
                                                        tracks: t2,
                                                        options: m.options,
                                                        sequence_number: seq,
                                                        media_bytes_written: (m.media_bytes_written
                                                            + moof.len() + header.len()
                                                            + payload) as u64,
                                                        tfra_entries: record_entries(
                                                            padded(m.tfra_entries, t.len()),
                                                            m.tracks,
                                                            rs,
                                                            m.media_bytes_written,
                                                        ),
                                                    },
                                                },
                                            )
                                        },
                                    },
                                },
                            },
                        }
                    },
                }
            },
        }
    }
}

// ===== exec =====

/// The lists of random access entries of the tracks.
pub open spec fn tfra_view(t: Seq<Vec<TfraSegmentEntry>>) -> Seq<Seq<TfraSegmentEntry>> {
    t.map_values(|v: Vec<TfraSegmentEntry>| v@)
}

/// The size of the segment's `mdat` payload.
pub(crate) fn mdat_payload_size(rs: &Vec<ResolvedSegmentTrack>) -> (r: u64)
    ensures
        r == payload_size(resolved_view(rs@)),
{
    let ghost rv = resolved_view(rs@);
    let mut p: u64 = 0;
    let mut k: usize = 0;
    proof {
        assert(rv.take(0) =~= Seq::<ResolvedV>::empty());
    }
    while k < rs.len()
        invariant
            k <= rs@.len(),
            rv == resolved_view(rs@),
            p == payload_size(rv.take(k as int)),
        decreases rs@.len() - k,
    {
        assert(rv[k as int] == rs@[k as int]@);
        assert(rv.take(k + 1).drop_last() =~= rv.take(k as int));
        if rs[k].payload_end > p {
            p = rs[k].payload_end;
        }
        k = k + 1;
    }
    assert(rv.take(k as int) =~= rv);
    p
}

/// Whether every sample size of every track fits in 32 bits.
fn sample_sizes_fit(rs: &Vec<ResolvedSegmentTrack>) -> (r: bool)
    ensures
        r == all_sizes_fit(resolved_view(rs@)),
{
    let ghost rv = resolved_view(rs@);
    let mut k: usize = 0;
    while k < rs.len()
        invariant
            k <= rs@.len(),
            rv == resolved_view(rs@),
            forall|a: int| 0 <= a < k ==> sizes_fit(#[trigger] rv[a].samples),
        decreases rs@.len() - k,
    {
        assert(rv[k as int] == rs@[k as int]@);
        let samples = &rs[k].samples;
        let mut j: usize = 0;
        while j < samples.len()
            invariant
                j <= samples@.len(),
                k < rs@.len(),
                rv == resolved_view(rs@),
                samples@ == rv[k as int].samples,
                forall|a: int| 0 <= a < k ==> sizes_fit(#[trigger] rv[a].samples),
                forall|b: int| 0 <= b < j ==> (#[trigger] samples@[b]).data_size <= u32::MAX,
            decreases samples@.len() - j,
        {
            if samples[j].data_size > 0xFFFF_FFFF {
                assert(!sizes_fit(rv[k as int].samples));
                return false;
            }
            j = j + 1;
        }
        k = k + 1;
    }
    true
}

proof fn lemma_trafs_prefix_none(ts: Seq<TrafSpec>, n: int)
    requires
        0 <= n <= ts.len(),
        trafs_bytes(ts.take(n)) is None,
    ensures
        trafs_bytes(ts) is None,
    decreases ts.len() - n,
{
    if n < ts.len() {
        assert(ts.take(n + 1).drop_last() =~= ts.take(n));
        lemma_trafs_prefix_none(ts, n + 1);
    } else {
        assert(ts.take(n) =~= ts);
    }
}

/// The `moof` of a segment: `mfhd` with the sequence number, then a track
/// fragment per resolved track with its data offset. Every sample size is
/// checked first.
pub(crate) fn build_moof(
    tracks: &Vec<TrackEntry>,
    rs: &Vec<ResolvedSegmentTrack>,
    sequence_number: u32,
    data_offsets: &Vec<i32>,
) -> (r: Result<Vec<u8>, MuxError>)
    requires
        data_offsets@.len() == rs@.len(),
        forall|k: int| 0 <= k < rs@.len() ==> (#[trigger] rs@[k]).track_index < tracks@.len(),
    ensures
        !all_sizes_fit(resolved_view(rs@)) ==> (r matches Err(e) && e@ == MuxErrorV::EncodeError(
            ErrorKind::InvalidData,
        )),
        all_sizes_fit(resolved_view(rs@)) ==> {
            let b = moof_bytes(
                sequence_number,
                traf_specs(tracks_view(tracks@), resolved_view(rs@), data_offsets@),
            );
            &&& r is Ok <==> b is Some
            &&& r matches Ok(v) ==> v@ == b->0
            &&& r matches Err(e) ==> e@ == MuxErrorV::EncodeError(ErrorKind::InvalidInput)
        },
        r matches Ok(v) ==> v@.len() <= u32::MAX,
{
    reveal(moof_bytes);
    if !sample_sizes_fit(rs) {
        return Err(MuxError::EncodeError(Error::invalid_data("sample data size exceeds u32::MAX")));
    }
    let ghost tv = tracks_view(tracks@);
    let ghost rv = resolved_view(rs@);
    let ghost specs = traf_specs(tv, rv, data_offsets@);
    let mut trafs: Vec<u8> = Vec::new();
    let mut k: usize = 0;
    proof {
        assert(specs.take(0) =~= Seq::<TrafSpec>::empty());
    }
    while k < rs.len()
        invariant
            k <= rs@.len(),
            tv == tracks_view(tracks@),
            rv == resolved_view(rs@),
            specs == traf_specs(tv, rv, data_offsets@),
            all_sizes_fit(rv),
            data_offsets@.len() == rs@.len(),
            forall|a: int| 0 <= a < rs@.len() ==> (#[trigger] rs@[a]).track_index < tracks@.len(),
            trafs_bytes(specs.take(k as int)) is Some,
            trafs@ == trafs_bytes(specs.take(k as int))->0,
        decreases rs@.len() - k,
    {
        let r = &rs[k];
        let t = &tracks[r.track_index];
        proof {
            assert(rv[k as int] == r@);
            assert(tv[r.track_index as int] == t@);
            assert(specs.take(k + 1).drop_last() =~= specs.take(k as int));
            assert(specs.take(k + 1).last() == specs[k as int]);
            assert(specs[k as int] == TrafSpec {
                track_id: t.track_id,
                decode_time: t.decode_time,
                sdi: r.sample_description_index,
                samples: r.samples@,
                data_offset: data_offsets@[k as int],
            });
        }
        match push_traf(
            &mut trafs,
            t.track_id,
            t.decode_time,
            r.sample_description_index,
            &r.samples,
            data_offsets[k],
        ) {
            Ok(()) => {},
            Err(e) => {
                proof {
                    reveal(moof_bytes);
                    lemma_trafs_prefix_none(specs, k + 1);
                    assert(sizes_fit(rv[k as int].samples));
                }
                return Err(MuxError::EncodeError(e));
            },
        }
        k = k + 1;
    }
    assert(specs.take(k as int) =~= specs);
    let mut payload: Vec<u8> = Vec::new();
    push_mfhd(&mut payload, sequence_number);
    payload.append(&mut trafs);
    let mut out: Vec<u8> = Vec::new();
    match put_box(&mut out, 0x6D6F_6F66, &payload) {
        Ok(()) => Ok(out),
        Err(e) => Err(MuxError::EncodeError(e)),
    }
}

/// The data offsets are the base plus each track's first data offset.
pub proof fn lemma_data_offsets_values(base: int, rs: Seq<ResolvedV>)
    requires
        base >= 0,
    ensures
        data_offsets(base, rs) matches Ok(o) ==> o.len() == rs.len() && forall|k: int|
            0 <= k < rs.len() ==> #[trigger] o[k] == base + rs[k].first_data_offset && base + rs[k].first_data_offset
                <= i32::MAX,
    decreases rs.len(),
{
    if rs.len() > 0 {
        lemma_data_offsets_values(base, rs.drop_last());
        match data_offsets(base, rs) {
            Ok(o) => {
                let o2 = data_offsets(base, rs.drop_last())->Ok_0;
                assert forall|k: int| 0 <= k < rs.len() implies #[trigger] o[k] == base + rs[k].first_data_offset
                    && base + rs[k].first_data_offset <= i32::MAX by {
                    if k < rs.len() - 1 {
                        assert(o[k] == o2[k]);
                        assert(rs.drop_last()[k] == rs[k]);
                    } else {
                        let v = base + rs[k].first_data_offset;
                        assert(0 <= v <= i32::MAX);
                        assert(o[k] == v as i32);
                    }
                }
            },
            Err(_) => {},
        }
    }
}

proof fn lemma_data_offsets_err(base: int, rs: Seq<ResolvedV>, n: int, e: MuxErrorV)
    requires
        0 <= n <= rs.len(),
        data_offsets(base, rs.take(n)) == Err::<Seq<i32>, MuxErrorV>(e),
    ensures
        data_offsets(base, rs) == Err::<Seq<i32>, MuxErrorV>(e),
    decreases rs.len() - n,
{
    if n < rs.len() {
        assert(rs.take(n + 1).drop_last() =~= rs.take(n));
        lemma_data_offsets_err(base, rs, n + 1, e);
    } else {
        assert(rs.take(n) =~= rs);
    }
}

/// The data offsets of the tracks, `base` being the size of the `moof` and
/// the `mdat` header.
pub(crate) fn compute_data_offsets(base: u64, rs: &Vec<ResolvedSegmentTrack>) -> (r: Result<Vec<i32>, MuxError>)
    ensures
        match data_offsets(base as int, resolved_view(rs@)) {
            Ok(o) => r matches Ok(v) && v@ == o,
            Err(e) => r matches Err(x) && x@ == e,
        },
        r matches Ok(v) ==> v@.len() == rs@.len(),
{
    let ghost rv = resolved_view(rs@);
    let mut out: Vec<i32> = Vec::new();
    let mut k: usize = 0;
    proof {
        assert(rv.take(0) =~= Seq::<ResolvedV>::empty());
    }
    while k < rs.len()
        invariant
            k <= rs@.len(),
            rv == resolved_view(rs@),
            data_offsets(base as int, rv.take(k as int)) == Ok::<Seq<i32>, MuxErrorV>(out@),
            out@.len() == k,
        decreases rs@.len() - k,
    {
        assert(rv[k as int] == rs@[k as int]@);
        assert(rv.take(k + 1).drop_last() =~= rv.take(k as int));
        assert(rv.take(k + 1).last() == rv[k as int]);
        let f = rs[k].first_data_offset;
        if base > 0xFFFF_FFFF_FFFF_FFFF - f {
            proof {
                lemma_data_offsets_err(base as int, rv, k + 1, MuxErrorV::Overflow);
            }
            return Err(MuxError::Overflow);
        }
        let off = base + f;
        if off > 0x7FFF_FFFF {
            proof {
                lemma_data_offsets_err(base as int, rv, k + 1, MuxErrorV::EncodeError(ErrorKind::InvalidData));
            }
            return Err(
                MuxError::EncodeError(Error::invalid_data("data_offset overflow: moof + mdat header exceeds i32 max")),
            );
        }
        out.push(off as i32);
        k = k + 1;
    }
    assert(rv.take(k as int) =~= rv);
    Ok(out)
}

/// A copy of the random access entries.
pub(crate) fn clone_tfra(t: &Vec<Vec<TfraSegmentEntry>>) -> (r: Vec<Vec<TfraSegmentEntry>>)
    ensures
        tfra_view(r@) == tfra_view(t@),
{
    let mut r: Vec<Vec<TfraSegmentEntry>> = Vec::new();
    let mut i: usize = 0;
    while i < t.len()
        invariant
            i <= t@.len(),
            r@.len() == i,
            forall|j: int| 0 <= j < i ==> (#[trigger] r@[j])@ == t@[j]@,
        decreases t@.len() - i,
    {
        let src = &t[i];
        let mut v: Vec<TfraSegmentEntry> = Vec::new();
        let mut j: usize = 0;
        while j < src.len()
            invariant
                j <= src@.len(),
                v@ == src@.take(j as int),
            decreases src@.len() - j,
        {
            v.push(src[j]);
            assert(src@.take(j + 1) =~= src@.take(j as int).push(src@[j as int]));
            j = j + 1;
        }
        assert(src@.take(j as int) =~= src@);
        r.push(v);
        i = i + 1;
    }
    assert(tfra_view(r@) =~= tfra_view(t@));
    r
}

/// Adds a random access entry for each track of the segment, after padding
/// the lists up to `n` tracks.
pub(crate) fn record_tfra_entries(
    tfra: &mut Vec<Vec<TfraSegmentEntry>>,
    n: usize,
    old_tracks: &Vec<TrackEntry>,
    rs: &Vec<ResolvedSegmentTrack>,
    moof_relative_offset: u64,
)
    requires
        rs@.len() < u32::MAX,
        forall|k: int| 0 <= k < rs@.len() ==> (#[trigger] rs@[k]).track_index < n,
    ensures
        tfra_view(final(tfra)@) == record_entries(
            padded(tfra_view(old(tfra)@), n as nat),
            tracks_view(old_tracks@),
            resolved_view(rs@),
            moof_relative_offset,
        ),
{
    let ghost otv = tracks_view(old_tracks@);
    let ghost rv = resolved_view(rs@);
    let ghost t0 = tfra_view(tfra@);
    while tfra.len() < n
        invariant
            tfra_view(tfra@) == t0 + Seq::new(
                (tfra@.len() - t0.len()) as nat,
                |i: int| Seq::<TfraSegmentEntry>::empty(),
            ),
            tfra@.len() >= t0.len(),
            t0.len() >= n ==> tfra@.len() == t0.len(),
            t0.len() < n ==> tfra@.len() <= n,
        decreases n - tfra@.len(),
    {
        let ghost before = tfra_view(tfra@);
        let e: Vec<TfraSegmentEntry> = Vec::new();
        let ghost ev = e@;
        assert(ev =~= Seq::<TfraSegmentEntry>::empty());
        tfra.push(e);
        proof {
            assert(tfra_view(tfra@) =~= before.push(Seq::<TfraSegmentEntry>::empty()));
            assert(tfra_view(tfra@) =~= t0 + Seq::new(
                (tfra@.len() - t0.len()) as nat,
                |i: int| Seq::<TfraSegmentEntry>::empty(),
            ));
        }
    }
    let ghost p = padded(t0, n as nat);
    proof {
        if t0.len() >= n {
            assert(tfra_view(tfra@) =~= t0);
        } else {
            assert(tfra_view(tfra@) =~= p);
        }
    }
    assert(tfra_view(tfra@) == p);
    let mut k: usize = 0;
    proof {
        assert(rv.take(0) =~= Seq::<ResolvedV>::empty());
    }
    while k < rs.len()
        invariant
            k <= rs@.len(),
            rs@.len() < u32::MAX,
            rv == resolved_view(rs@),
            otv == tracks_view(old_tracks@),
            tfra@.len() >= n,
            forall|a: int| 0 <= a < rs@.len() ==> (#[trigger] rs@[a]).track_index < n,
            tfra_view(tfra@) == record_entries(p, otv, rv.take(k as int), moof_relative_offset),
        decreases rs@.len() - k,
    {
        let ti = rs[k].track_index;
        let time: u64 = if ti < old_tracks.len() {
            old_tracks[ti].decode_time
        } else {
            0
        };
        let entry = TfraSegmentEntry { time, moof_relative_offset, traf_number: (k + 1) as u32 };
        proof {
            assert(rv[k as int] == rs@[k as int]@);
            assert(rv.take(k + 1).drop_last() =~= rv.take(k as int));
            assert(rv.take(k + 1)[k as int] == rv[k as int]);
            if ti < old_tracks.len() {
                assert(otv[ti as int] == old_tracks@[ti as int]@);
            }
            assert(entry == segment_entry(otv, rv[k as int], k as int, moof_relative_offset));
        }
        let ghost before = tfra_view(tfra@);
        let mut list = tfra.remove(ti);
        list.push(entry);
        tfra.insert(ti, list);
        proof {
            assert(tfra_view(tfra@) =~= before.update(ti as int, before[ti as int].push(entry)));
        }
        k = k + 1;
    }
    assert(rv.take(k as int) =~= rv);
}

proof fn lemma_advance_none(tracks: Seq<TrackV>, rs: Seq<ResolvedV>, n: int)
    requires
        0 <= n <= rs.len(),
        advance(tracks, rs.take(n)) is None,
    ensures
        advance(tracks, rs) is None,
    decreases rs.len() - n,
{
    if n < rs.len() {
        assert(rs.take(n + 1).drop_last() =~= rs.take(n));
        lemma_advance_none(tracks, rs, n + 1);
    } else {
        assert(rs.take(n) =~= rs);
    }
}

/// Adds the segment's durations to the decode times of its tracks.
pub(crate) fn advance_decode_times(tracks: &mut Vec<TrackEntry>, rs: &Vec<ResolvedSegmentTrack>) -> (r: Result<
    (),
    MuxError,
>)
    requires
        forall|k: int| 0 <= k < rs@.len() ==> (#[trigger] rs@[k]).track_index < old(tracks)@.len(),
    ensures
        match advance(tracks_view(old(tracks)@), resolved_view(rs@)) {
            Some(t) => r is Ok && tracks_view(final(tracks)@) == t,
            None => r matches Err(x) && x@ == MuxErrorV::Overflow,
        },
{
    let ghost t0 = tracks_view(tracks@);
    let ghost rv = resolved_view(rs@);
    let mut k: usize = 0;
    proof {
        assert(rv.take(0) =~= Seq::<ResolvedV>::empty());
    }
    while k < rs.len()
        invariant
            k <= rs@.len(),
            rv == resolved_view(rs@),
            t0 == tracks_view(old(tracks)@),
            tracks@.len() == t0.len(),
            forall|a: int| 0 <= a < rs@.len() ==> (#[trigger] rs@[a]).track_index < t0.len(),
            advance(t0, rv.take(k as int)) == Some(tracks_view(tracks@)),
        decreases rs@.len() - k,
    {
        let ti = rs[k].track_index;
        let d = rs[k].total_duration;
        proof {
            assert(rv[k as int] == rs@[k as int]@);
            assert(rv.take(k + 1).drop_last() =~= rv.take(k as int));
            assert(rv.take(k + 1).last() == rv[k as int]);
            assert(tracks_view(tracks@)[ti as int] == tracks@[ti as int]@);
        }
        if tracks[ti].decode_time > 0xFFFF_FFFF_FFFF_FFFF - d {
            proof {
                lemma_advance_none(t0, rv, k + 1);
            }
            return Err(MuxError::Overflow);
        }
        let ghost before = tracks_view(tracks@);
        let mut t = tracks.remove(ti);
        t.decode_time = t.decode_time + d;
        let ghost tv = t@;
        tracks.insert(ti, t);
        proof {
            assert(tracks_view(tracks@) =~= before.update(ti as int, tv));
            assert(tv == TrackV { decode_time: tv.decode_time, ..before[ti as int] });
        }
        k = k + 1;
    }
    assert(rv.take(k as int) =~= rv);
    Ok(())
}

/// Advancing the decode times changes nothing else of the tracks.
pub proof fn lemma_advance_props(tracks: Seq<TrackV>, rs: Seq<ResolvedV>)
    requires
        forall|k: int| 0 <= k < rs.len() ==> 0 <= (#[trigger] rs[k]).track_index < tracks.len(),
    ensures
        advance(tracks, rs) matches Some(t) ==> t.len() == tracks.len() && forall|i: int|
            0 <= i < tracks.len() ==> (#[trigger] t[i]) == (TrackV { decode_time: t[i].decode_time, ..tracks[i] }),
    decreases rs.len(),
{
    if rs.len() > 0 {
        lemma_advance_props(tracks, rs.drop_last());
    }
}

/// Advancing the decode times with resolved tracks on distinct tracks: each
/// of their tracks grows by its total duration, the others keep theirs.
pub proof fn lemma_advance_times(tracks: Seq<TrackV>, rs: Seq<ResolvedV>)
    requires
        forall|k: int| 0 <= k < rs.len() ==> 0 <= (#[trigger] rs[k]).track_index < tracks.len(),
        forall|a: int, b: int|
            0 <= a < rs.len() && 0 <= b < rs.len() && a != b ==> (#[trigger] rs[a]).track_index
                != (#[trigger] rs[b]).track_index,
    ensures
        advance(tracks, rs) matches Some(t) ==> {
            &&& forall|k: int|
                0 <= k < rs.len() ==> t[(#[trigger] rs[k]).track_index].decode_time
                    == tracks[rs[k].track_index].decode_time + rs[k].total_duration
            &&& forall|i: int|
                0 <= i < tracks.len() && (forall|k: int| 0 <= k < rs.len() ==> (#[trigger] rs[k]).track_index != i)
                    ==> (#[trigger] t[i]).decode_time == tracks[i].decode_time
        },
    decreases rs.len(),
{
    lemma_advance_props(tracks, rs);
    if rs.len() > 0 {
        let d = rs.drop_last();
        assert forall|k: int| 0 <= k < d.len() implies 0 <= (#[trigger] d[k]).track_index < tracks.len() by {
            assert(d[k] == rs[k]);
        }
        assert forall|a: int, b: int| 0 <= a < d.len() && 0 <= b < d.len() && a != b implies (
        #[trigger] d[a]).track_index != (#[trigger] d[b]).track_index by {
            assert(d[a] == rs[a]);
            assert(d[b] == rs[b]);
        }
        lemma_advance_times(tracks, d);
        lemma_advance_props(tracks, d);
        match advance(tracks, d) {
            Some(t1) => {
                let l = rs.last();
                let ti = l.track_index;
                match advance(tracks, rs) {
                    Some(t) => {
                        assert forall|k: int| 0 <= k < d.len() implies (#[trigger] d[k]).track_index != ti by {
                            assert(d[k] == rs[k]);
                            assert(rs[k].track_index != rs[rs.len() - 1].track_index);
                        }
                        assert(t1[ti].decode_time == tracks[ti].decode_time);
                        assert forall|k: int| 0 <= k < rs.len() implies t[(#[trigger] rs[k]).track_index].decode_time
                            == tracks[rs[k].track_index].decode_time + rs[k].total_duration by {
                            if k < d.len() {
                                assert(rs[k] == d[k]);
                                assert(t[d[k].track_index] == t1[d[k].track_index]);
                            }
                        }
                        assert forall|i: int|
                            0 <= i < tracks.len() && (forall|k: int|
                                0 <= k < rs.len() ==> (#[trigger] rs[k]).track_index != i) implies (#[trigger] t[i]).decode_time
                            == tracks[i].decode_time by {
                            assert(rs[rs.len() - 1].track_index != i);
                            assert forall|k: int| 0 <= k < d.len() implies (#[trigger] d[k]).track_index != i by {
                                assert(d[k] == rs[k]);
                            }
                            assert(t[i] == t1[i]);
                        }
                    },
                    None => {},
                }
            },
            None => {},
        }
    }
}

/// Recording entries for resolved tracks on distinct tracks: each of their
/// lists gets its one entry, the others stay as they were.
pub proof fn lemma_record_entries_exact(
    acc: Seq<Seq<TfraSegmentEntry>>,
    old_tracks: Seq<TrackV>,
    rs: Seq<ResolvedV>,
    mbw: u64,
)
    requires
        forall|k: int| 0 <= k < rs.len() ==> 0 <= (#[trigger] rs[k]).track_index < acc.len(),
        forall|a: int, b: int|
            0 <= a < rs.len() && 0 <= b < rs.len() && a != b ==> (#[trigger] rs[a]).track_index
                != (#[trigger] rs[b]).track_index,
    ensures
        forall|k: int|
            0 <= k < rs.len() ==> record_entries(acc, old_tracks, rs, mbw)[(#[trigger] rs[k]).track_index]
                == acc[rs[k].track_index].push(segment_entry(old_tracks, rs[k], k, mbw)),
        forall|i: int|
            0 <= i < acc.len() && (forall|k: int| 0 <= k < rs.len() ==> (#[trigger] rs[k]).track_index != i)
                ==> #[trigger] record_entries(acc, old_tracks, rs, mbw)[i] == acc[i],
    decreases rs.len(),
{
    if rs.len() > 0 {
        let d = rs.drop_last();
        assert forall|k: int| 0 <= k < d.len() implies 0 <= (#[trigger] d[k]).track_index < acc.len() by {
            assert(d[k] == rs[k]);
        }
        assert forall|a: int, b: int| 0 <= a < d.len() && 0 <= b < d.len() && a != b implies (
        #[trigger] d[a]).track_index != (#[trigger] d[b]).track_index by {
            assert(d[a] == rs[a]);
            assert(d[b] == rs[b]);
        }
        lemma_record_entries_exact(acc, old_tracks, d, mbw);
        lemma_record_entries_props(acc, old_tracks, d, mbw);
        let a = record_entries(acc, old_tracks, d, mbw);
        let k0 = rs.len() - 1;
        let ti = rs[k0].track_index;
        let r = record_entries(acc, old_tracks, rs, mbw);
        assert(r == a.update(ti, a[ti].push(segment_entry(old_tracks, rs[k0], k0, mbw))));
        assert forall|k: int| 0 <= k < d.len() implies (#[trigger] d[k]).track_index != ti by {
            assert(d[k] == rs[k]);
            assert(rs[k].track_index != rs[k0].track_index);
        }
        assert(a[ti] == acc[ti]);
        assert forall|k: int| 0 <= k < rs.len() implies r[(#[trigger] rs[k]).track_index] == acc[rs[k].track_index].push(
            segment_entry(old_tracks, rs[k], k, mbw),
        ) by {
            if k < d.len() {
                assert(rs[k] == d[k]);
                assert(r[d[k].track_index] == a[d[k].track_index]);
            }
        }
        assert forall|i: int|
            0 <= i < acc.len() && (forall|k: int| 0 <= k < rs.len() ==> (#[trigger] rs[k]).track_index != i) implies #[trigger] r[i]
            == acc[i] by {
            assert(rs[k0].track_index != i);
            assert forall|k: int| 0 <= k < d.len() implies (#[trigger] d[k]).track_index != i by {
                assert(d[k] == rs[k]);
            }
            assert(r[i] == a[i]);
        }
    }
}

/// `e` is `a` followed by entries whose `moof` offset is `mbw`.
pub open spec fn appends_at(e: Seq<TfraSegmentEntry>, a: Seq<TfraSegmentEntry>, mbw: u64) -> bool {
    &&& e.len() >= a.len()
    &&& e.take(a.len() as int) == a
    &&& forall|j: int| a.len() <= j < e.len() ==> (#[trigger] e[j]).moof_relative_offset == mbw
}

/// Recording entries keeps one list per track, and only appends to each,
/// entries whose `moof` offset is `mbw`.
pub proof fn lemma_record_entries_props(
    acc: Seq<Seq<TfraSegmentEntry>>,
    old_tracks: Seq<TrackV>,
    rs: Seq<ResolvedV>,
    mbw: u64,
)
    requires
        forall|k: int| 0 <= k < rs.len() ==> 0 <= (#[trigger] rs[k]).track_index < acc.len(),
    ensures
        record_entries(acc, old_tracks, rs, mbw).len() == acc.len(),
        forall|i: int|
            0 <= i < acc.len() ==> appends_at(#[trigger] record_entries(acc, old_tracks, rs, mbw)[i], acc[i], mbw),
    decreases rs.len(),
{
    if rs.len() == 0 {
        assert forall|i: int| 0 <= i < acc.len() implies appends_at(
            #[trigger] record_entries(acc, old_tracks, rs, mbw)[i],
            acc[i],
            mbw,
        ) by {
            assert(acc[i].take(acc[i].len() as int) =~= acc[i]);
        }
    } else {
        let d = rs.drop_last();
        assert forall|k: int| 0 <= k < d.len() implies 0 <= (#[trigger] d[k]).track_index < acc.len() by {
            assert(d[k] == rs[k]);
        }
        lemma_record_entries_props(acc, old_tracks, d, mbw);
        let a = record_entries(acc, old_tracks, d, mbw);
        let k = rs.len() - 1;
        let ti = rs[k].track_index;
        let x = segment_entry(old_tracks, rs[k], k, mbw);
        let r = a.update(ti, a[ti].push(x));
        assert(record_entries(acc, old_tracks, rs, mbw) == r);
        assert forall|i: int| 0 <= i < acc.len() implies appends_at(#[trigger] r[i], acc[i], mbw) by {
            let ai = a[i];
            assert(appends_at(ai, acc[i], mbw));
            if i == ti {
                let e = ai.push(x);
                assert(r[i] == e);
                assert(e.take(acc[i].len() as int) =~= ai.take(acc[i].len() as int));
                assert forall|j: int| acc[i].len() <= j < e.len() implies (#[trigger] e[j]).moof_relative_offset
                    == mbw by {
                    if j < ai.len() {
                        assert(e[j] == ai[j]);
                    }
                }
            } else {
                assert(r[i] == ai);
            }
        }
    }
}

/// Padding yields `n` lists when there are at most `n`, keeping the existing ones.
pub proof fn lemma_padded(tfra: Seq<Seq<TfraSegmentEntry>>, n: nat)
    requires
        tfra.len() <= n,
    ensures
        padded(tfra, n).len() == n,
        forall|i: int| 0 <= i < tfra.len() ==> #[trigger] padded(tfra, n)[i] == tfra[i],
        forall|i: int| tfra.len() <= i < n ==> #[trigger] padded(tfra, n)[i] == Seq::<TfraSegmentEntry>::empty(),
{
}

// ===== segment index =====

/// The presentation time of a sample decoded at `dts`: plus its composition
/// time offset (none is 0).
pub open spec fn pts_of(dts: int, x: SampleV) -> int {
    dts + match x.composition_time_offset {
        Some(c) => c as int,
        None => 0,
    }
}

/// Scanning the samples of `kind` in order from decode time `dt`: the
/// earliest presentation time with the keyframe flag of its first sample,
/// and the decode time after the samples, which must fit in 64 bits.
pub open spec fn ept_scan(xs: Seq<SampleV>, kind: TrackKind, dt: u64) -> Result<
    (Option<(int, bool)>, u64),
    MuxErrorV,
>
    decreases xs.len(),
{
    if xs.len() == 0 {
        Ok((None, dt))
    } else {
        match ept_scan(xs.drop_last(), kind, dt) {
            Err(e) => Err(e),
            Ok((mn, dts)) => {
                let x = xs.last();
                if x.track_kind != kind {
                    Ok((mn, dts))
                } else {
                    let p = pts_of(dts as int, x);
                    let mn2 = match mn {
                        Some((c, k)) => if p >= c {
                            mn
                        } else {
                            Some((p, x.keyframe))
                        },
                        None => Some((p, x.keyframe)),
                    };
                    if dts + x.duration > u64::MAX {
                        Err(MuxErrorV::Overflow)
                    } else {
                        Ok((mn2, (dts + x.duration) as u64))
                    }
                }
            },
        }
    }
}

/// The earliest presentation time of the samples of `kind` decoded from
/// `dt` on, and whether its sample is a keyframe; it must fit in `u64`.
pub open spec fn earliest_presentation(xs: Seq<SampleV>, kind: TrackKind, dt: u64) -> Result<(u64, bool), MuxErrorV> {
    match ept_scan(xs, kind, dt) {
        Err(e) => Err(e),
        Ok((Some((p, k)), _)) => if 0 <= p <= u64::MAX {
            Ok((p as u64, k))
        } else {
            Err(MuxErrorV::Overflow)
        },
        Ok((None, _)) => Err(MuxErrorV::Overflow),
    }
}

/// The presentation time of the `j`-th of samples decoded one after the
/// other from `dt`.
pub open spec fn pts_at(ks: Seq<SampleV>, dt: int, j: int) -> int {
    pts_of(dt + durations(ks.take(j)), ks[j])
}

/// `p` is the least presentation time of the samples, first reached by a
/// sample whose keyframe flag is `sap`.
pub open spec fn least_presentation(ks: Seq<SampleV>, dt: int, p: int, sap: bool) -> bool {
    &&& forall|j: int| 0 <= j < ks.len() ==> p <= #[trigger] pts_at(ks, dt, j)
    &&& exists|j: int|
        0 <= j < ks.len() && p == #[trigger] pts_at(ks, dt, j) && ks[j].keyframe == sap && forall|i: int|
            0 <= i < j ==> #[trigger] pts_at(ks, dt, i) > p
}

proof fn lemma_pts_at_push(ks: Seq<SampleV>, x: SampleV, dt: int, j: int)
    requires
        0 <= j <= ks.len(),
    ensures
        pts_at(ks.push(x), dt, j) == if j < ks.len() {
            pts_at(ks, dt, j)
        } else {
            pts_of(dt + durations(ks), x)
        },
{
    assert(ks.push(x).take(j) =~= ks.take(j));
    if j == ks.len() {
        assert(ks.take(j) =~= ks);
    }
}

proof fn lemma_ept_scan_least(xs: Seq<SampleV>, kind: TrackKind, dt: u64)
    ensures
        ept_scan(xs, kind, dt) matches Ok((mn, dts)) ==> {
            let ks = of_kind(xs, kind);
            &&& dts == dt + durations(ks)
            &&& (mn is None <==> ks.len() == 0)
            &&& mn matches Some((c, k)) ==> least_presentation(ks, dt as int, c, k)
        },
    decreases xs.len(),
{
    if xs.len() > 0 {
        let d = xs.drop_last();
        lemma_ept_scan_least(d, kind, dt);
        let x = xs.last();
        let kd = of_kind(d, kind);
        match ept_scan(d, kind, dt) {
            Ok((mn, dts)) => {
                if x.track_kind == kind {
                    let ks = kd.push(x);
                    assert(of_kind(xs, kind) == ks);
                    assert(ks.drop_last() =~= kd);
                    let p = pts_of(dts as int, x);
                    assert forall|j: int| 0 <= j <= kd.len() implies #[trigger] pts_at(ks, dt as int, j) == if j
                        < kd.len() {
                        pts_at(kd, dt as int, j)
                    } else {
                        p
                    } by {
                        lemma_pts_at_push(kd, x, dt as int, j);
                    }
                    match ept_scan(xs, kind, dt) {
                        Ok((mn2, dts2)) => {
                            match mn {
                                Some((c, k)) => {
                                    let j0 = choose|j: int|
                                        0 <= j < kd.len() && c == #[trigger] pts_at(kd, dt as int, j) && kd[j].keyframe == k
                                            && forall|i: int| 0 <= i < j ==> #[trigger] pts_at(kd, dt as int, i) > c;
                                    if p >= c {
                                        assert(pts_at(ks, dt as int, j0) == c);
                                        assert(ks[j0] == kd[j0]);
                                        assert forall|i: int| 0 <= i < j0 implies #[trigger] pts_at(ks, dt as int, i) > c by {
                                            assert(pts_at(ks, dt as int, i) == pts_at(kd, dt as int, i));
                                        }
                                        assert forall|j: int| 0 <= j < ks.len() implies c <= #[trigger] pts_at(ks, dt as int, j) by {
                                            if j < kd.len() {
                                                assert(pts_at(ks, dt as int, j) == pts_at(kd, dt as int, j));
                                            }
                                        }
                                    } else {
                                        let j1 = kd.len() as int;
                                        assert(pts_at(ks, dt as int, j1) == p);
                                        assert(ks[j1] == x);
                                        assert forall|i: int| 0 <= i < j1 implies #[trigger] pts_at(ks, dt as int, i) > p by {
                                            assert(pts_at(ks, dt as int, i) == pts_at(kd, dt as int, i));
                                        }
                                        assert forall|j: int| 0 <= j < ks.len() implies p <= #[trigger] pts_at(ks, dt as int, j) by {
                                            if j < kd.len() {
                                                assert(pts_at(ks, dt as int, j) == pts_at(kd, dt as int, j));
                                            }
                                        }
                                    }
                                },
                                None => {
                                    assert(pts_at(ks, dt as int, 0) == p);
                                    assert(ks[0] == x);
                                },
                            }
                        },
                        Err(_) => {},
                    }
                } else {
                    assert(of_kind(xs, kind) == kd);
                }
            },
            Err(_) => {},
        }
    }
}

/// The earliest presentation time is the least presentation time of the
/// samples of the kind, decoded one after the other from `dt`, and the
/// flag is the keyframe flag of the first sample at that time.
pub proof fn lemma_earliest_presentation_is_least(xs: Seq<SampleV>, kind: TrackKind, dt: u64)
    ensures
        earliest_presentation(xs, kind, dt) matches Ok((p, sap)) ==> least_presentation(
            of_kind(xs, kind),
            dt as int,
            p as int,
            sap,
        ),
{
    lemma_ept_scan_least(xs, kind, dt);
}

proof fn lemma_ept_scan_err(xs: Seq<SampleV>, kind: TrackKind, dt: u64, n: int, e: MuxErrorV)
    requires
        0 <= n <= xs.len(),
        ept_scan(xs.take(n), kind, dt) == Err::<(Option<(int, bool)>, u64), MuxErrorV>(e),
    ensures
        ept_scan(xs, kind, dt) == Err::<(Option<(int, bool)>, u64), MuxErrorV>(e),
    decreases xs.len() - n,
{
    if n < xs.len() {
        assert(xs.take(n + 1).drop_last() =~= xs.take(n));
        lemma_ept_scan_err(xs, kind, dt, n + 1, e);
    } else {
        assert(xs.take(n) =~= xs);
    }
}

/// The earliest presentation time of the samples of `track_kind`, decoded
/// from `decode_time` on, and whether its sample is a keyframe.
pub(crate) fn compute_earliest_presentation_time(samples: &[Sample], track_kind: TrackKind, decode_time: u64) -> (r:
    Result<(u64, bool), MuxError>)
    requires
        exists|j: int| 0 <= j < samples@.len() && (#[trigger] samples@[j]).track_kind == track_kind,
    ensures
        match earliest_presentation(samples_view(samples@), track_kind, decode_time) {
            Ok(v) => r matches Ok(x) && x == v,
            Err(e) => r matches Err(x) && x@ == e,
        },
{
    let ghost xs = samples_view(samples@);
    let mut dts: u64 = decode_time;
    let mut min_pts: Option<(i128, bool)> = None;
    let mut i: usize = 0;
    proof {
        assert(xs.take(0) =~= Seq::<SampleV>::empty());
    }
    while i < samples.len()
        invariant
            i <= samples@.len(),
            xs == samples_view(samples@),
            ept_scan(xs.take(i as int), track_kind, decode_time) == Ok::<(Option<(int, bool)>, u64), MuxErrorV>(
                (
                    match min_pts {
                        Some((p, k)) => Some((p as int, k)),
                        None => None,
                    },
                    dts,
                ),
            ),
            min_pts is Some <==> exists|j: int| 0 <= j < i && (#[trigger] samples@[j]).track_kind == track_kind,
        decreases samples@.len() - i,
    {
        let x = &samples[i];
        proof {
            assert(xs[i as int] == x@);
            assert(xs.take(i + 1).drop_last() =~= xs.take(i as int));
            assert(xs.take(i + 1).last() == x@);
        }
        if x.track_kind == track_kind {
            let cto: i128 = match x.composition_time_offset {
                Some(c) => c as i128,
                None => 0,
            };
            let pts: i128 = dts as i128 + cto;
            match min_pts {
                Some((current, _)) => {
                    if pts < current {
                        min_pts = Some((pts, x.keyframe));
                    }
                },
                None => {
                    min_pts = Some((pts, x.keyframe));
                },
            }
            if dts > 0xFFFF_FFFF_FFFF_FFFF - x.duration as u64 {
                proof {
                    lemma_ept_scan_err(xs, track_kind, decode_time, i + 1, MuxErrorV::Overflow);
                }
                return Err(MuxError::Overflow);
            }
            dts = dts + x.duration as u64;
        }
        i = i + 1;
    }
    assert(xs.take(i as int) =~= xs);
    match min_pts {
        Some((p, k)) => {
            if p < 0 || p > 0xFFFF_FFFF_FFFF_FFFF {
                return Err(MuxError::Overflow);
            }
            Ok((p as u64, k))
        },
        None => {
            Err(MuxError::Overflow)
        },
    }
}

} // verus!
