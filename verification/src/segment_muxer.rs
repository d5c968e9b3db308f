//! [`Fmp4SegmentMuxer`]: builds the initialization segment, the media
//! segments (optionally behind a `sidx`) and the random access index of a
//! fragmented MP4 from the samples handed to it.
use vstd::prelude::*;

use crate::bytes::{be32, be64, box_bytes};
use crate::error::{Error, ErrorKind};
use crate::fmp4::{
    clone_tracks, durations, find_track, kinds_of, lemma_resolve_segment_entries, lemma_resolve_segment_ids,
    lemma_resolve_segment_props, lemma_resolve_segment_samples, lemma_resolve_segment_times,
    lemma_track_of_none, lemma_track_of_same_kinds, lemma_track_of_some, of_kind, offsets_sorted,
    resolve_segment, resolve_segment_tracks, resolved_view, run_samples_of, track_of, tracks_view, MuxerV,
    ResolvedV, TfraSegmentEntry, TrackEntry, TrackV,
};
use crate::fmp4_init::{build_init_segment, bytes_outcome, init_segment, MP4_EPOCH_OFFSET};
use crate::fmp4_media::{
    advance, advance_decode_times, appends_at, build_moof, clone_tfra, compute_data_offsets,
    compute_earliest_presentation_time, data_offsets, earliest_presentation, lemma_advance_props,
    lemma_advance_times, lemma_data_offsets_values, lemma_padded, lemma_record_entries_exact,
    lemma_record_entries_props, mdat_payload_size, media_segment, padded, payload_size, record_entries,
    record_tfra_entries, segment_entry, tfra_view, traf_specs, zero_offsets,
};
use crate::init_boxes::{cat, put_box};
use crate::media_boxes::{
    lemma_moof_len_indep, mdat_header, mdat_header_bytes, mfro_bytes, moof_bytes, push_mfro, push_tfra, sidx_box,
    sidx_bytes, tfra_bytes, TfraEntry, TrafSpec,
};
use crate::mux::{samples_view, MuxError, MuxErrorV, Sample, SampleV, SegmentMuxerOptions, TrackKind};

verus! {

/// Builds the segments of a fragmented MP4.
///
/// Like a file muxer, it takes each sample with its track kind, timescale and
/// sample entry, and learns the tracks from them. The initialization segment
/// reflects what was learned up to the call of
/// [`init_segment_bytes`](Self::init_segment_bytes).
///
/// 1. Make a muxer with [`new`](Self::new) or [`with_options`](Self::with_options).
/// 2. Build media segments with
///    [`create_media_segment_metadata`](Self::create_media_segment_metadata)
///    (or its `sidx` variant), which also records the tracks and sample entries.
/// 3. Get the initialization segment with [`init_segment_bytes`](Self::init_segment_bytes).
/// 4. If needed, get the random access index with [`mfra_bytes`](Self::mfra_bytes).
#[derive(Debug)]
pub struct Fmp4SegmentMuxer {
    tracks: Vec<TrackEntry>,
    options: SegmentMuxerOptions,
    sequence_number: u32,
    /// Bytes of the media segments described so far (including their payloads)
    media_bytes_written: u64,
    /// Random access entries of each track (same indices as `tracks`)
    tfra_entries: Vec<Vec<TfraSegmentEntry>>,
}

impl View for Fmp4SegmentMuxer {
    type V = MuxerV;

    closed spec fn view(&self) -> MuxerV {
        MuxerV {
            tracks: tracks_view(self.tracks@),
            options: self.options@,
            sequence_number: self.sequence_number,
            media_bytes_written: self.media_bytes_written,
            tfra_entries: tfra_view(self.tfra_entries@),
        }
    }
}

impl Fmp4SegmentMuxer {
    /// Every muxer is well formed: its constructors make it so and its
    /// methods keep it so.
    #[verifier::type_invariant]
    spec fn inv(self) -> bool {
        self@.wf()
    }
}

impl Clone for Fmp4SegmentMuxer {
    /// A muxer in the same state: the same tracks, counters and random access
    /// entries, and a clone of the options.
    fn clone(&self) -> (r: Self)
        ensures
            r@ == (MuxerV { options: r@.options, ..self@ }),
    {
        proof {
            use_type_invariant(self);
        }
        Fmp4SegmentMuxer {
            tracks: clone_tracks(&self.tracks),
            options: self.options.clone(),
            sequence_number: self.sequence_number,
            media_bytes_written: self.media_bytes_written,
            tfra_entries: clone_tfra(&self.tfra_entries),
        }
    }
}

/// What building a segment leaves in the muxer: it stays well formed, keeps
/// its options, has a track of the first sample's kind, counts the segment's
/// bytes and payload, and only appends random access entries, each pointing
/// at the segment's `moof`.
pub proof fn lemma_media_segment_facts(m: MuxerV, xs: Seq<SampleV>)
    requires
        m.wf(),
    ensures
        media_segment(m, xs) matches Ok(s) ==> {
            &&& s.next.wf()
            &&& s.next.tracks.len() >= m.tracks.len()
            &&& s.next.options == m.options
            &&& track_of(s.next.tracks, xs[0].track_kind) is Some
            &&& s.next.media_bytes_written == m.media_bytes_written + s.bytes.len() + s.payload_size
            &&& forall|i: int|
                0 <= i < s.next.tfra_entries.len() ==> appends_at(
                    #[trigger] s.next.tfra_entries[i],
                    if i < m.tfra_entries.len() {
                        m.tfra_entries[i]
                    } else {
                        Seq::<TfraSegmentEntry>::empty()
                    },
                    m.media_bytes_written,
                )
        },
{
    reveal(media_segment);
    lemma_resolve_segment_props(m.tracks, xs);
    lemma_resolve_segment_ids(m.tracks, xs);
    if xs.len() > 0 && m.sequence_number != u32::MAX {
        match resolve_segment(m.tracks, xs) {
            Ok((t, rs)) => {
                lemma_advance_props(t, rs);
                lemma_padded(m.tfra_entries, t.len());
                let p = padded(m.tfra_entries, t.len());
                lemma_record_entries_props(p, m.tracks, rs, m.media_bytes_written);
                match advance(t, rs) {
                    Some(t2) => {
                        assert forall|i: int, j: int| 0 <= i < j < t2.len() implies (#[trigger] t2[i]).track_kind
                            != (#[trigger] t2[j]).track_kind by {
                            assert(t2[i].track_kind == t[i].track_kind);
                            assert(t2[j].track_kind == t[j].track_kind);
                        }
                        assert forall|i: int| 0 <= i < t.len() implies (#[trigger] t[i]).track_kind
                            == t2[i].track_kind by {
                            assert(t2[i].track_kind == t[i].track_kind);
                        }
                        lemma_track_of_same_kinds(t, t2, xs[0].track_kind);
                        let e = record_entries(p, m.tracks, rs, m.media_bytes_written);
                        assert forall|i: int| 0 <= i < e.len() implies appends_at(
                            #[trigger] e[i],
                            if i < m.tfra_entries.len() {
                                m.tfra_entries[i]
                            } else {
                                Seq::<TfraSegmentEntry>::empty()
                            },
                            m.media_bytes_written,
                        ) by {
                            assert(appends_at(e[i], p[i], m.media_bytes_written));
                        }
                    },
                    None => {},
                }
            },
            Err(_) => {},
        }
    }
}

// ===== segment index =====

/// Sum of the durations of the samples of `kind`.
pub open spec fn subsegment_duration(xs: Seq<SampleV>, kind: TrackKind) -> int
    decreases xs.len(),
{
    if xs.len() == 0 {
        0
    } else {
        subsegment_duration(xs.drop_last(), kind) + if xs.last().track_kind == kind {
            xs.last().duration as int
        } else {
            0
        }
    }
}

/// The decode time of the track of `kind` (0 when there is none yet).
pub open spec fn decode_time_of(tracks: Seq<TrackV>, kind: TrackKind) -> u64 {
    match track_of(tracks, kind) {
        Some(i) => tracks[i].decode_time,
        None => 0,
    }
}

/// The entry lists where the entries added since `before` (the last one of
/// each list that grew) point `d` bytes further.
pub open spec fn shift_new_entries(
    after: Seq<Seq<TfraSegmentEntry>>,
    before: Seq<Seq<TfraSegmentEntry>>,
    d: u64,
) -> Seq<Seq<TfraSegmentEntry>> {
    Seq::new(after.len(), |i: int| shift_if_grown(after[i], if i < before.len() { before[i].len() } else { 0 }, d))
}

/// The list with its last entry `d` bytes further when it is longer than `pre`.
pub open spec fn shift_if_grown(l: Seq<TfraSegmentEntry>, pre: nat, d: u64) -> Seq<TfraSegmentEntry> {
    if l.len() > pre {
        l.update(
            l.len() - 1,
            TfraSegmentEntry { moof_relative_offset: (l.last().moof_relative_offset + d) as u64, ..l.last() },
        )
    } else {
        l
    }
}

/// A media segment behind a `sidx` with one reference: what is returned, and
/// the muxer's state after it. Before the segment is built, the samples of
/// the first sample's kind give the earliest presentation time (from that
/// track's decode time). After it, the segment with its payload must fit a
/// `usize`, then 32 bits, and so must the subsegment duration (the sum of
/// those samples' durations); the `sidx` references the first kind's track;
/// the media byte count grows by it, and the segment's random access entries
/// point past it. Every error leaves the muxer as it was.
pub open spec fn sidx_segment(m: MuxerV, xs: Seq<SampleV>) -> (Result<Seq<u8>, Option<MuxErrorV>>, MuxerV) {
    if xs.len() == 0 {
        (Err(Some(MuxErrorV::EmptySamples)), m)
    } else {
        let kind = xs[0].track_kind;
        match earliest_presentation(xs, kind, decode_time_of(m.tracks, kind)) {
            Err(e) => (Err(Some(e)), m),
            Ok((ept, sap)) => match media_segment(m, xs) {
                Err(e) => (Err(e), m),
                Ok(s) => {
                    let n = s.next;
                    let size = s.bytes.len() + s.payload_size;
                    let sub = subsegment_duration(xs, kind);
                    if s.payload_size > usize::MAX || size > usize::MAX {
                        (Err(Some(MuxErrorV::Overflow)), m)
                    } else if size > u32::MAX {
                        (Err(Some(MuxErrorV::EncodeError(ErrorKind::InvalidData))), m)
                    } else if sub > u32::MAX {
                        (Err(Some(MuxErrorV::EncodeError(ErrorKind::InvalidData))), m)
                    } else {
                        let rt = n.tracks[track_of(n.tracks, kind)->0];
                        let sidx = sidx_bytes(rt.track_id, rt.timescale, ept, size as u32, sub as u32, sap);
                        if n.media_bytes_written + sidx.len() > u64::MAX {
                            (Err(Some(MuxErrorV::Overflow)), m)
                        } else {
                            (
                                Ok(sidx + s.bytes),
                                MuxerV {
                                    media_bytes_written: (n.media_bytes_written + sidx.len()) as u64,
                                    tfra_entries: shift_new_entries(
                                        n.tfra_entries,
                                        m.tfra_entries,
                                        sidx.len() as u64,
                                    ),
                                    ..n
                                },
                            )
                        }
                    }
                },
            },
        }
    }
}

/// Every sample has a timescale (none is 0).
pub open spec fn timescales_nonzero(samples: Seq<Sample>) -> bool {
    forall|j: int| 0 <= j < samples.len() ==> (#[trigger] samples[j]).timescale > 0
}

// ===== laws of the segments =====

/// Each media segment takes the next sequence number, keeps the options, and
/// adds its bytes and its payload to the count of media bytes.
pub proof fn lemma_segment_counters(m: MuxerV, xs: Seq<SampleV>)
    ensures
        media_segment(m, xs) matches Ok(s) ==> {
            &&& s.next.sequence_number == m.sequence_number + 1
            &&& s.next.options == m.options
            &&& s.next.media_bytes_written == m.media_bytes_written + s.bytes.len() + s.payload_size
        },
{
    reveal(media_segment);
}

/// The returned bytes are a `moof` followed by the `mdat` header, and each
/// track fragment of the `moof` has as data offset the distance from the
/// start of the `moof` to the track's payload: the length of the returned
/// bytes plus the track's offset in the `mdat` payload.
pub open spec fn offsets_point_at_payload(
    seq: u32,
    bytes: Seq<u8>,
    payload: u64,
    t: Seq<TrackV>,
    rs: Seq<ResolvedV>,
) -> bool {
    let header = mdat_header_bytes(payload)->0;
    let moof_len = bytes.len() - header.len();
    let offs = Seq::new(rs.len(), |k: int| (bytes.len() + rs[k].first_data_offset) as i32);
    &&& mdat_header_bytes(payload) is Some
    &&& bytes.len() >= header.len()
    &&& bytes.skip(moof_len) == header
    &&& forall|k: int| 0 <= k < rs.len() ==> bytes.len() + (#[trigger] rs[k]).first_data_offset <= i32::MAX
    &&& moof_bytes(seq, traf_specs(t, rs, offs)) == Some(bytes.take(moof_len))
}

/// The track fragments of a media segment point at their payloads, which
/// the caller lays out right after the returned bytes.
pub proof fn lemma_data_offsets_point_at_payload(m: MuxerV, xs: Seq<SampleV>)
    ensures
        media_segment(m, xs) matches Ok(s) ==> (resolve_segment(m.tracks, xs) matches Ok((t, rs))
            && offsets_point_at_payload((m.sequence_number + 1) as u32, s.bytes, s.payload_size, t, rs)),
{
    reveal(media_segment);
    if xs.len() > 0 && m.sequence_number != u32::MAX {
        match resolve_segment(m.tracks, xs) {
            Ok((t, rs)) => {
                let seq = (m.sequence_number + 1) as u32;
                let payload = payload_size(rs);
                match media_segment(m, xs) {
                    Ok(s) => {
                        let header = mdat_header_bytes(payload)->0;
                        let zeros = zero_offsets(rs.len());
                        let p = moof_bytes(seq, traf_specs(t, rs, zeros))->0;
                        let base = (p.len() + header.len()) as int;
                        let o = data_offsets(base, rs)->Ok_0;
                        lemma_data_offsets_values(base, rs);
                        let a = traf_specs(t, rs, o);
                        let b = traf_specs(t, rs, zeros);
                        assert forall|k: int| 0 <= k < a.len() implies (#[trigger] a[k]) == (TrafSpec {
                            data_offset: a[k].data_offset,
                            ..b[k]
                        }) by {}
                        lemma_moof_len_indep(seq, a, b);
                        let moof = moof_bytes(seq, a)->0;
                        assert(s.bytes == moof + header);
                        let offs = Seq::new(rs.len(), |k: int| (s.bytes.len() + rs[k].first_data_offset) as i32);
                        assert(offs =~= o);
                        assert(s.bytes.take(moof.len() as int) =~= moof);
                        assert(s.bytes.skip(moof.len() as int) =~= header);
                        assert(s.bytes.len() == base);
                        assert(traf_specs(t, rs, offs) == a);
                        assert(s.bytes.len() - header.len() == moof.len());
                        assert(s.payload_size == payload);
                        assert(mdat_header_bytes(s.payload_size) is Some);
                        assert(s.bytes.len() >= header.len());
                        assert forall|k: int| 0 <= k < rs.len() implies s.bytes.len() + (#[trigger] rs[k]).first_data_offset
                            <= i32::MAX by {
                            assert(o[k] == base + rs[k].first_data_offset);
                        }
                        assert(moof_bytes(seq, traf_specs(t, rs, offs)) == Some(s.bytes.take(moof.len() as int)));
                        assert(offsets_point_at_payload(seq, s.bytes, s.payload_size, t, rs));
                    },
                    Err(_) => {},
                }
            },
            Err(_) => {},
        }
    }
}

/// The sum of the durations of the samples of a kind, and none without samples.
proof fn lemma_subsegment_durations(xs: Seq<SampleV>, kind: TrackKind)
    ensures
        subsegment_duration(xs, kind) == durations(of_kind(xs, kind)),
        !kinds_of(xs).contains(kind) ==> of_kind(xs, kind).len() == 0,
    decreases xs.len(),
{
    if xs.len() > 0 {
        lemma_subsegment_durations(xs.drop_last(), kind);
        if xs.last().track_kind == kind {
            let o = of_kind(xs.drop_last(), kind);
            assert(o.push(xs.last()).drop_last() =~= o);
            let k = kinds_of(xs.drop_last());
            if !k.contains(kind) {
                assert(k.push(kind).contains(kind)) by {
                    assert(k.push(kind)[k.len() as int] == kind);
                }
            }
        } else {
            let k = kinds_of(xs.drop_last());
            if k.contains(kind) && !k.contains(xs.last().track_kind) {
                let j = choose|j: int| 0 <= j < k.len() && k[j] == kind;
                assert(k.push(xs.last().track_kind)[j] == kind);
            }
        }
    }
}

/// Each media segment advances the decode time of the track of each kind by
/// the sum of the durations of the segment's samples of that kind; a new
/// track starts from 0, and a track without samples in the segment keeps
/// its decode time.
pub proof fn lemma_decode_times_advance(m: MuxerV, xs: Seq<SampleV>)
    requires
        m.wf(),
    ensures
        media_segment(m, xs) matches Ok(s) ==> forall|kind: TrackKind|
            #[trigger] track_of(s.next.tracks, kind) is Some ==> s.next.tracks[track_of(
                s.next.tracks,
                kind,
            )->0].decode_time == decode_time_of(m.tracks, kind) + subsegment_duration(xs, kind),
{
    reveal(media_segment);
    lemma_resolve_segment_props(m.tracks, xs);
    lemma_resolve_segment_times(m.tracks, xs);
    if xs.len() > 0 && m.sequence_number != u32::MAX {
        match resolve_segment(m.tracks, xs) {
            Ok((t, rs)) => {
                lemma_advance_props(t, rs);
                lemma_advance_times(t, rs);
                match media_segment(m, xs) {
                    Ok(s) => {
                        let t2 = s.next.tracks;
                        assert(advance(t, rs) == Some(t2));
                        assert forall|kind: TrackKind| #[trigger] track_of(t2, kind) is Some implies t2[track_of(
                            t2,
                            kind,
                        )->0].decode_time == decode_time_of(m.tracks, kind) + subsegment_duration(xs, kind) by {
                            lemma_track_of_some(t2, kind);
                            lemma_track_of_some(m.tracks, kind);
                            lemma_subsegment_durations(xs, kind);
                            let i = track_of(t2, kind)->0;
                            assert(t2[i].track_kind == t[i].track_kind);
                            // the decode time the track had before the segment
                            if i < m.tracks.len() {
                                assert(m.tracks[i].track_kind == kind);
                                if track_of(m.tracks, kind) is None {
                                    lemma_track_of_none(m.tracks, kind);
                                }
                                let j = track_of(m.tracks, kind)->0;
                                assert(j == i);
                            } else {
                                if track_of(m.tracks, kind) is Some {
                                    let j = track_of(m.tracks, kind)->0;
                                    assert(t[j].track_kind == m.tracks[j].track_kind);
                                    assert(false);
                                }
                            }
                            assert(t[i].decode_time == decode_time_of(m.tracks, kind));
                            if kinds_of(xs).contains(kind) {
                                let k = choose|k: int| 0 <= k < rs.len() && t[(#[trigger] rs[k]).track_index].track_kind == kind;
                                assert(rs[k].track_index == i);
                            } else {
                                assert forall|k: int| 0 <= k < rs.len() implies (#[trigger] rs[k]).track_index != i by {
                                    if rs[k].track_index == i {
                                        assert(kinds_of(xs).contains(t[rs[k].track_index].track_kind));
                                    }
                                }
                            }
                        }
                    },
                    Err(_) => {},
                }
            },
            Err(_) => {},
        }
    }
}

/// The random access entries a segment leaves for track `i` of kind
/// `kind`: one more than `before` for a kind of the samples, at the decode
/// time the track had before the segment and at the segment's `moof`
/// offset, with the 1-based index of its track fragment; `before` as it was
/// for another kind.
pub open spec fn entries_after_segment(
    after: Seq<TfraSegmentEntry>,
    before: Seq<TfraSegmentEntry>,
    m: MuxerV,
    xs: Seq<SampleV>,
    kind: TrackKind,
) -> bool {
    if kinds_of(xs).contains(kind) {
        &&& after.len() == before.len() + 1
        &&& after.take(before.len() as int) == before
        &&& after.last().time == decode_time_of(m.tracks, kind)
        &&& after.last().moof_relative_offset == m.media_bytes_written
        &&& 1 <= after.last().traf_number <= kinds_of(xs).len()
    } else {
        after == before
    }
}

/// Each media segment adds one random access entry to the track of each
/// kind of its samples, and none to the other tracks.
pub proof fn lemma_one_entry_per_track(m: MuxerV, xs: Seq<SampleV>)
    requires
        m.wf(),
    ensures
        media_segment(m, xs) matches Ok(s) ==> forall|kind: TrackKind|
            #[trigger] track_of(s.next.tracks, kind) is Some ==> entries_after_segment(
                s.next.tfra_entries[track_of(s.next.tracks, kind)->0],
                if track_of(s.next.tracks, kind)->0 < m.tfra_entries.len() {
                    m.tfra_entries[track_of(s.next.tracks, kind)->0]
                } else {
                    Seq::<TfraSegmentEntry>::empty()
                },
                m,
                xs,
                kind,
            ),
{
    reveal(media_segment);
    lemma_resolve_segment_props(m.tracks, xs);
    lemma_resolve_segment_times(m.tracks, xs);
    if xs.len() > 0 && m.sequence_number != u32::MAX {
        match resolve_segment(m.tracks, xs) {
            Ok((t, rs)) => {
                lemma_advance_props(t, rs);
                let p = padded(m.tfra_entries, t.len());
                lemma_padded(m.tfra_entries, t.len());
                lemma_record_entries_exact(p, m.tracks, rs, m.media_bytes_written);
                match media_segment(m, xs) {
                    Ok(s) => {
                        let t2 = s.next.tracks;
                        let e = s.next.tfra_entries;
                        assert(e == record_entries(p, m.tracks, rs, m.media_bytes_written));
                        assert forall|kind: TrackKind| #[trigger] track_of(t2, kind) is Some implies entries_after_segment(
                            e[track_of(t2, kind)->0],
                            if track_of(t2, kind)->0 < m.tfra_entries.len() {
                                m.tfra_entries[track_of(t2, kind)->0]
                            } else {
                                Seq::<TfraSegmentEntry>::empty()
                            },
                            m,
                            xs,
                            kind,
                        ) by {
                            lemma_track_of_some(t2, kind);
                            lemma_track_of_some(m.tracks, kind);
                            let i = track_of(t2, kind)->0;
                            let before = if i < m.tfra_entries.len() {
                                m.tfra_entries[i]
                            } else {
                                Seq::<TfraSegmentEntry>::empty()
                            };
                            assert(p[i] == before);
                            assert(t2[i].track_kind == t[i].track_kind);
                            if i < m.tracks.len() {
                                assert(m.tracks[i].track_kind == kind);
                                if track_of(m.tracks, kind) is None {
                                    lemma_track_of_none(m.tracks, kind);
                                }
                                assert(track_of(m.tracks, kind)->0 == i);
                            } else {
                                if track_of(m.tracks, kind) is Some {
                                    let j = track_of(m.tracks, kind)->0;
                                    assert(t[j].track_kind == m.tracks[j].track_kind);
                                    assert(false);
                                }
                            }
                            if kinds_of(xs).contains(kind) {
                                let k = choose|k: int| 0 <= k < rs.len() && t[(#[trigger] rs[k]).track_index].track_kind == kind;
                                assert(rs[k].track_index == i);
                                let x = segment_entry(m.tracks, rs[k], k, m.media_bytes_written);
                                assert(e[i] == before.push(x));
                                assert(e[i].take(before.len() as int) =~= before);
                            } else {
                                assert forall|k: int| 0 <= k < rs.len() implies (#[trigger] rs[k]).track_index != i by {
                                    if rs[k].track_index == i {
                                        assert(kinds_of(xs).contains(t[rs[k].track_index].track_kind));
                                    }
                                }
                            }
                        }
                    },
                    Err(_) => {},
                }
            },
            Err(_) => {},
        }
    }
}

/// Sample entries accumulate: each media segment keeps the entries its
/// tracks had, and the track of each sample's kind then holds every sample
/// entry the samples carry, so that an initialization segment built
/// afterwards lists them in its `stsd`.
pub proof fn lemma_entries_accumulate(m: MuxerV, xs: Seq<SampleV>)
    requires
        m.wf(),
    ensures
        media_segment(m, xs) matches Ok(s) ==> {
            &&& forall|i: int|
                0 <= i < m.tracks.len() ==> (#[trigger] m.tracks[i]).sample_entries.is_prefix_of(
                    s.next.tracks[i].sample_entries,
                )
            &&& forall|j: int|
                0 <= j < xs.len() && (#[trigger] xs[j]).sample_entry is Some ==> track_of(s.next.tracks, xs[j].track_kind)
                    is Some && s.next.tracks[track_of(s.next.tracks, xs[j].track_kind)->0].sample_entries.contains(
                    xs[j].sample_entry->0,
                )
        },
{
    reveal(media_segment);
    lemma_resolve_segment_props(m.tracks, xs);
    lemma_resolve_segment_entries(m.tracks, xs);
    lemma_media_segment_facts(m, xs);
    if xs.len() > 0 && m.sequence_number != u32::MAX {
        match resolve_segment(m.tracks, xs) {
            Ok((t, rs)) => {
                lemma_advance_props(t, rs);
                match media_segment(m, xs) {
                    Ok(s) => {
                        let t2 = s.next.tracks;
                        assert(advance(t, rs) == Some(t2));
                        assert forall|i: int| 0 <= i < m.tracks.len() implies (#[trigger] m.tracks[i]).sample_entries.is_prefix_of(
                            t2[i].sample_entries,
                        ) by {
                            assert(t2[i].sample_entries == t[i].sample_entries);
                        }
                        assert forall|j: int| 0 <= j < xs.len() && (#[trigger] xs[j]).sample_entry is Some implies track_of(
                            t2,
                            xs[j].track_kind,
                        ) is Some && t2[track_of(t2, xs[j].track_kind)->0].sample_entries.contains(
                            xs[j].sample_entry->0,
                        ) by {
                            let kind = xs[j].track_kind;
                            let i = choose|i: int|
                                0 <= i < t.len() && (#[trigger] t[i]).track_kind == kind && t[i].sample_entries.contains(
                                    xs[j].sample_entry->0,
                                );
                            assert(t2[i].track_kind == kind);
                            assert(t2[i].sample_entries == t[i].sample_entries);
                            if track_of(t2, kind) is None {
                                lemma_track_of_none(t2, kind);
                            }
                            lemma_track_of_some(t2, kind);
                            assert(track_of(t2, kind)->0 == i);
                        }
                    },
                    Err(_) => {},
                }
            },
            Err(_) => {},
        }
    }
}

/// The random access list of track `i` grew from `before` to `after`.
pub open spec fn grown(after: Seq<Seq<TfraSegmentEntry>>, before: Seq<Seq<TfraSegmentEntry>>, i: int) -> bool {
    after[i].len() > if i < before.len() {
        before[i].len()
    } else {
        0
    }
}

/// Behind a `sidx`: the bytes are the `sidx` followed by the segment; the
/// muxer counts the `sidx`, the segment and its payload; and each random
/// access entry the segment added points at its `moof`, right after the
/// `sidx`, so that the `mfra` offsets match a file laid out with the `sidx`.
pub proof fn lemma_sidx_entries_point_at_moof(m: MuxerV, xs: Seq<SampleV>)
    requires
        m.wf(),
    ensures
        sidx_segment(m, xs).0 matches Ok(b) ==> media_segment(m, xs) matches Ok(s) && {
            let n = sidx_segment(m, xs).1;
            let sidx_len = b.len() - s.bytes.len();
            &&& b.len() >= s.bytes.len()
            &&& b.subrange(sidx_len, b.len() as int) == s.bytes
            &&& n.media_bytes_written == m.media_bytes_written + b.len() + s.payload_size
            &&& n.tfra_entries.len() == s.next.tfra_entries.len()
            &&& forall|i: int|
                0 <= i < n.tfra_entries.len() && #[trigger] grown(n.tfra_entries, m.tfra_entries, i)
                    ==> n.tfra_entries[i].last().moof_relative_offset == m.media_bytes_written + sidx_len
        },
{
    lemma_media_segment_facts(m, xs);
    lemma_segment_counters(m, xs);
    if xs.len() > 0 {
        match sidx_segment(m, xs).0 {
            Ok(b) => {
                let s = media_segment(m, xs)->Ok_0;
                let n = sidx_segment(m, xs).1;
                let a = s.next.tfra_entries;
                let sidx_len = b.len() - s.bytes.len();
                assert(b.subrange(sidx_len, b.len() as int) =~= s.bytes);
                assert forall|i: int|
                    0 <= i < n.tfra_entries.len() && #[trigger] grown(n.tfra_entries, m.tfra_entries, i)
                        implies n.tfra_entries[i].last().moof_relative_offset == m.media_bytes_written + sidx_len by {
                    let pre: nat = if i < m.tfra_entries.len() {
                        m.tfra_entries[i].len()
                    } else {
                        0
                    };
                    let p = if i < m.tfra_entries.len() {
                        m.tfra_entries[i]
                    } else {
                        Seq::<TfraSegmentEntry>::empty()
                    };
                    assert(appends_at(a[i], p, m.media_bytes_written));
                    assert(n.tfra_entries[i] == shift_if_grown(a[i], pre, sidx_len as u64));
                    assert(a[i][a[i].len() - 1].moof_relative_offset == m.media_bytes_written);
                }
            },
            Err(_) => {},
        }
    }
}

/// The layout of a media segment: the `moof`, then the `mdat` header, of 8
/// bytes (the size `8 + P`) when `8 + P` fits in 32 bits and of 16 bytes
/// (size 1, then the 64-bit size `16 + P`) otherwise, for a payload of `P`
/// bytes. The `moof` carries the next sequence number and one track fragment
/// per kind of the samples, in the order of their payloads' offsets; each is
/// for the track of its kind, with that track's id, as base decode time the
/// decode time the kind had (0 for a new track), as data offset the distance
/// to its payload, and as `trun` entries its samples' durations, sizes,
/// keyframe flags and composition time offsets, in order.
pub proof fn lemma_media_segment_layout(m: MuxerV, xs: Seq<SampleV>)
    requires
        m.wf(),
    ensures
        media_segment(m, xs) matches Ok(s) ==> resolve_segment(m.tracks, xs) matches Ok((t, rs)) && {
            let p = s.payload_size;
            let header = if 8 + p <= u32::MAX {
                be32((8 + p) as u32) + be32(0x6D64_6174)
            } else {
                be32(1) + be32(0x6D64_6174) + be64((16 + p) as u64)
            };
            let moof_len = s.bytes.len() - header.len();
            let specs = traf_specs(
                t,
                rs,
                Seq::new(rs.len(), |k: int| (s.bytes.len() + rs[k].first_data_offset) as i32),
            );
            &&& s.bytes.len() >= header.len()
            &&& s.bytes.skip(moof_len) == header
            &&& moof_bytes((m.sequence_number + 1) as u32, specs) == Some(s.bytes.take(moof_len))
            &&& p == payload_size(rs)
            &&& rs.len() == kinds_of(xs).len()
            &&& offsets_sorted(rs)
            &&& forall|k: int|
                0 <= k < rs.len() ==> {
                    let kind = t[(#[trigger] rs[k]).track_index].track_kind;
                    &&& kinds_of(xs).contains(kind)
                    &&& specs[k].track_id == t[rs[k].track_index].track_id
                    &&& specs[k].decode_time == decode_time_of(m.tracks, kind)
                    &&& specs[k].samples == run_samples_of(of_kind(xs, kind))
                    &&& specs[k].data_offset == s.bytes.len() + rs[k].first_data_offset
                }
        },
{
    reveal(media_segment);
    lemma_data_offsets_point_at_payload(m, xs);
    lemma_resolve_segment_props(m.tracks, xs);
    lemma_resolve_segment_times(m.tracks, xs);
    lemma_resolve_segment_samples(m.tracks, xs);
    if xs.len() > 0 && m.sequence_number != u32::MAX {
        match resolve_segment(m.tracks, xs) {
            Ok((t, rs)) => {
                match media_segment(m, xs) {
                    Ok(s) => {
                        let specs = traf_specs(
                            t,
                            rs,
                            Seq::new(rs.len(), |k: int| (s.bytes.len() + rs[k].first_data_offset) as i32),
                        );
                        assert forall|k: int| 0 <= k < rs.len() implies specs[k].decode_time == decode_time_of(
                            m.tracks,
                            t[(#[trigger] rs[k]).track_index].track_kind,
                        ) by {
                            let i = rs[k].track_index;
                            let kind = t[i].track_kind;
                            lemma_track_of_some(m.tracks, kind);
                            if i < m.tracks.len() {
                                assert(m.tracks[i].track_kind == kind);
                                if track_of(m.tracks, kind) is None {
                                    lemma_track_of_none(m.tracks, kind);
                                }
                                assert(track_of(m.tracks, kind)->0 == i);
                            } else if track_of(m.tracks, kind) is Some {
                                let j = track_of(m.tracks, kind)->0;
                                assert(t[j].track_kind == m.tracks[j].track_kind);
                            }
                        }
                    },
                    Err(_) => {},
                }
            },
            Err(_) => {},
        }
    }
}

// ===== laws over a series of segments =====

/// A media segment gives every track kind of its samples a track, and the
/// decode time of each kind (0 without a track) grows by the durations of
/// the segment's samples of that kind.
pub proof fn lemma_decode_time_step(m: MuxerV, xs: Seq<SampleV>, kind: TrackKind)
    requires
        m.wf(),
    ensures
        media_segment(m, xs) matches Ok(s) ==> {
            &&& kinds_of(xs).contains(kind) ==> track_of(s.next.tracks, kind) is Some
            &&& decode_time_of(s.next.tracks, kind) == decode_time_of(m.tracks, kind) + subsegment_duration(xs, kind)
        },
{
    reveal(media_segment);
    lemma_resolve_segment_props(m.tracks, xs);
    lemma_resolve_segment_times(m.tracks, xs);
    lemma_decode_times_advance(m, xs);
    lemma_subsegment_durations(xs, kind);
    if xs.len() > 0 && m.sequence_number != u32::MAX {
        match resolve_segment(m.tracks, xs) {
            Ok((t, rs)) => {
                lemma_advance_props(t, rs);
                match media_segment(m, xs) {
                    Ok(s) => {
                        let t2 = s.next.tracks;
                        assert(advance(t, rs) == Some(t2));
                        if kinds_of(xs).contains(kind) {
                            let k = choose|k: int| 0 <= k < rs.len() && t[(#[trigger] rs[k]).track_index].track_kind == kind;
                            let i = rs[k].track_index;
                            assert(t2[i].track_kind == kind);
                            if track_of(t2, kind) is None {
                                lemma_track_of_none(t2, kind);
                            }
                        }
                        if track_of(t2, kind) is None {
                            lemma_track_of_none(t2, kind);
                            if track_of(m.tracks, kind) is Some {
                                lemma_track_of_some(m.tracks, kind);
                                let j = track_of(m.tracks, kind)->0;
                                assert(t2[j].track_kind == t[j].track_kind);
                            }
                            assert(of_kind(xs, kind).len() == 0);
                            assert(durations(of_kind(xs, kind)) == 0);
                        }
                    },
                    Err(_) => {},
                }
            },
            Err(_) => {},
        }
    }
}

/// The state of a muxer after a series of calls to
/// [`Fmp4SegmentMuxer::create_media_segment_metadata`], a call that fails
/// leaving the state as it was.
pub open spec fn after_segments(m: MuxerV, calls: Seq<Seq<SampleV>>) -> MuxerV
    decreases calls.len(),
{
    if calls.len() == 0 {
        m
    } else {
        let p = after_segments(m, calls.drop_last());
        match media_segment(p, calls.last()) {
            Ok(s) => s.next,
            Err(_) => p,
        }
    }
}

/// How many calls of the series succeed.
pub open spec fn segments_made(m: MuxerV, calls: Seq<Seq<SampleV>>) -> nat
    decreases calls.len(),
{
    if calls.len() == 0 {
        0
    } else {
        let p = after_segments(m, calls.drop_last());
        segments_made(m, calls.drop_last()) + if media_segment(p, calls.last()) is Ok {
            1nat
        } else {
            0nat
        }
    }
}

/// The bytes the successful calls of the series describe: each segment's
/// returned bytes and the payload laid out right after them.
pub open spec fn bytes_made(m: MuxerV, calls: Seq<Seq<SampleV>>) -> int
    decreases calls.len(),
{
    if calls.len() == 0 {
        0
    } else {
        let p = after_segments(m, calls.drop_last());
        bytes_made(m, calls.drop_last()) + match media_segment(p, calls.last()) {
            Ok(s) => s.bytes.len() + s.payload_size,
            Err(_) => 0,
        }
    }
}

/// The durations of the samples of `kind` in the successful calls of the series.
pub open spec fn durations_made(m: MuxerV, calls: Seq<Seq<SampleV>>, kind: TrackKind) -> int
    decreases calls.len(),
{
    if calls.len() == 0 {
        0
    } else {
        let p = after_segments(m, calls.drop_last());
        durations_made(m, calls.drop_last(), kind) + if media_segment(p, calls.last()) is Ok {
            subsegment_duration(calls.last(), kind)
        } else {
            0
        }
    }
}

/// Over any series of media segments: the muxer stays well formed and keeps
/// its options; its sequence number grows by one per segment made (so the
/// first segment of a new muxer carries 1); its byte count by the bytes
/// and payloads described; the decode time of each kind by the durations of
/// its samples in the segments made (0 for a kind without a track); tracks
/// are never lost, and a muxer without a track has one as soon as a segment
/// is made, and only then.
pub proof fn lemma_segment_series(m: MuxerV, calls: Seq<Seq<SampleV>>, kind: TrackKind)
    requires
        m.wf(),
    ensures
        ({
            let n = after_segments(m, calls);
            &&& n.wf()
            &&& n.options == m.options
            &&& n.sequence_number == m.sequence_number + segments_made(m, calls)
            &&& n.media_bytes_written == m.media_bytes_written + bytes_made(m, calls)
            &&& decode_time_of(n.tracks, kind) == decode_time_of(m.tracks, kind) + durations_made(m, calls, kind)
            &&& n.tracks.len() >= m.tracks.len()
            &&& n.tracks.len() == 0 <==> m.tracks.len() == 0 && segments_made(m, calls) == 0
        }),
    decreases calls.len(),
{
    if calls.len() > 0 {
        let pc = calls.drop_last();
        let p = after_segments(m, pc);
        lemma_segment_series(m, pc, kind);
        lemma_media_segment_facts(p, calls.last());
        lemma_segment_counters(p, calls.last());
        lemma_decode_time_step(p, calls.last(), kind);
        match media_segment(p, calls.last()) {
            Ok(s) => {
                lemma_track_of_some(s.next.tracks, calls.last()[0].track_kind);
            },
            Err(_) => {},
        }
    }
}

/// Laid out one after the other, the segments of a series start where the
/// count of media bytes stood: the random access entry that the last call
/// adds for a kind of its samples holds the position of its `moof`, the
/// bytes made by the calls before it, and in an `mfra` written behind an
/// initialization segment of `init_size` bytes it points `init_size` bytes
/// further.
pub proof fn lemma_entries_hold_positions(m: MuxerV, calls: Seq<Seq<SampleV>>, kind: TrackKind, init_size: u64)
    requires
        m.wf(),
        calls.len() > 0,
    ensures
        ({
            let p = after_segments(m, calls.drop_last());
            let n = after_segments(m, calls);
            media_segment(p, calls.last()) is Ok && kinds_of(calls.last()).contains(kind) ==> {
                let es = n.tfra_entries[track_of(n.tracks, kind)->0];
                &&& track_of(n.tracks, kind) is Some
                &&& es.len() > 0
                &&& es.last().moof_relative_offset == m.media_bytes_written + bytes_made(m, calls.drop_last())
                &&& absolute_entries(init_size, es).last().moof_offset == (init_size + m.media_bytes_written
                    + bytes_made(m, calls.drop_last())) as u64
            }
        }),
{
    let pc = calls.drop_last();
    let p = after_segments(m, pc);
    let xs = calls.last();
    lemma_segment_series(m, pc, kind);
    lemma_decode_time_step(p, xs, kind);
    lemma_one_entry_per_track(p, xs);
    match media_segment(p, xs) {
        Ok(s) => {
            if kinds_of(xs).contains(kind) {
                assert(after_segments(m, calls) == s.next);
                assert(track_of(s.next.tracks, kind) is Some);
            }
        },
        Err(_) => {},
    }
}

// ===== random access index =====

/// The entries of a track's `tfra`: `moof` offsets from the start of the
/// file, whose initialization segment is `init_size` bytes long.
pub open spec fn absolute_entries(init_size: u64, es: Seq<TfraSegmentEntry>) -> Seq<TfraEntry> {
    Seq::new(
        es.len(),
        |j: int|
            TfraEntry {
                time: es[j].time,
                moof_offset: (init_size + es[j].moof_relative_offset) as u64,
                traf_number: es[j].traf_number,
            },
    )
}

/// Some `moof` offset from the start of the file does not fit in 64 bits.
pub open spec fn offsets_overflow(init_size: u64, tfra: Seq<Seq<TfraSegmentEntry>>) -> bool {
    exists|i: int, j: int|
        0 <= i < tfra.len() && 0 <= j < tfra[i].len() && init_size + (#[trigger] tfra[i][j]).moof_relative_offset
            > u64::MAX
}

/// The `tfra` version: 1 when a time or an offset does not fit in 32 bits.
pub open spec fn tfra_version(init_size: u64, es: Seq<TfraSegmentEntry>) -> u8 {
    if exists|j: int|
        0 <= j < es.len() && ((#[trigger] es[j]).time > u32::MAX || init_size + es[j].moof_relative_offset
            > u32::MAX) {
        1
    } else {
        0
    }
}

/// The size code of the traf numbers: 0 to 3 for 1 to 4 bytes, the fewest
/// that hold every traf number.
pub open spec fn traf_number_code(es: Seq<TfraSegmentEntry>) -> u8 {
    if forall|j: int| 0 <= j < es.len() ==> (#[trigger] es[j]).traf_number <= 0xFF {
        0
    } else if forall|j: int| 0 <= j < es.len() ==> (#[trigger] es[j]).traf_number <= 0xFFFF {
        1
    } else if forall|j: int| 0 <= j < es.len() ==> (#[trigger] es[j]).traf_number <= 0xFF_FFFF {
        2
    } else {
        3
    }
}

/// The `tfra` of a track with entries (nothing for a track without).
#[verifier::opaque]
pub open spec fn track_tfra_bytes(init_size: u64, track_id: u32, es: Seq<TfraSegmentEntry>) -> Option<Seq<u8>> {
    if es.len() == 0 {
        Some(Seq::empty())
    } else {
        tfra_bytes(
            tfra_version(init_size, es),
            track_id,
            traf_number_code(es),
            absolute_entries(init_size, es),
        )
    }
}

/// The `tfra` boxes of the tracks, in order.
pub open spec fn tfras_bytes(init_size: u64, tracks: Seq<TrackV>, tfra: Seq<Seq<TfraSegmentEntry>>) -> Option<
    Seq<u8>,
>
    decreases tfra.len(),
{
    if tfra.len() == 0 {
        Some(Seq::empty())
    } else {
        cat(
            tfras_bytes(init_size, tracks, tfra.drop_last()),
            track_tfra_bytes(init_size, tracks[tfra.len() - 1].track_id, tfra.last()),
        )
    }
}

/// The random access index: `mfra` with a `tfra` per track with entries (one
/// per segment, at the offset of its `moof` from the start of a file that
/// begins with the current initialization segment), then `mfro` with the
/// size of the `mfra`, which must fit in 32 bits. `Err(None)` stands for a
/// box that cannot be encoded.
pub open spec fn mfra(m: MuxerV) -> Result<Seq<u8>, Option<MuxErrorV>> {
    match init_segment(m.options, m.tracks) {
        Err(e) => Err(e),
        Ok(init) => if offsets_overflow(init.len() as u64, m.tfra_entries) {
            Err(Some(MuxErrorV::Overflow))
        } else {
            match tfras_bytes(init.len() as u64, m.tracks, m.tfra_entries) {
                None => Err(None),
                Some(t) => if 8 + t.len() + 16 > u32::MAX {
                    Err(Some(MuxErrorV::EncodeError(ErrorKind::InvalidData)))
                } else {
                    Ok(box_bytes(0x6D66_7261, t + mfro_bytes((8 + t.len() + 16) as u32)))
                },
            }
        },
    }
}

/// Writes the `tfra` of a track (nothing when it has no entry).
#[verifier::rlimit(30)]
fn push_track_tfra(out: &mut Vec<u8>, init_size: u64, track_id: u32, es: &Vec<TfraSegmentEntry>) -> (r: Result<
    (),
    MuxError,
>)
    requires
        forall|j: int| 0 <= j < es@.len() ==> init_size + (#[trigger] es@[j]).moof_relative_offset <= u64::MAX,
    ensures
        r is Ok <==> track_tfra_bytes(init_size, track_id, es@) is Some,
        r is Ok ==> final(out)@ == old(out)@ + track_tfra_bytes(init_size, track_id, es@)->0,
        r matches Err(e) ==> e@ == MuxErrorV::EncodeError(ErrorKind::InvalidInput),
{
    reveal(track_tfra_bytes);
    if es.len() == 0 {
        assert(old(out)@ + Seq::<u8>::empty() =~= old(out)@);
        return Ok(());
    }
    let mut needs_v1 = false;
    let mut fit8 = true;
    let mut fit16 = true;
    let mut fit24 = true;
    let mut entries: Vec<TfraEntry> = Vec::new();
    let mut j: usize = 0;
    while j < es.len()
        invariant
            j <= es@.len(),
            forall|a: int| 0 <= a < es@.len() ==> init_size + (#[trigger] es@[a]).moof_relative_offset <= u64::MAX,
            needs_v1 == exists|a: int|
                0 <= a < j && ((#[trigger] es@[a]).time > u32::MAX || init_size + es@[a].moof_relative_offset
                    > u32::MAX),
            fit8 == forall|a: int| 0 <= a < j ==> (#[trigger] es@[a]).traf_number <= 0xFF,
            fit16 == forall|a: int| 0 <= a < j ==> (#[trigger] es@[a]).traf_number <= 0xFFFF,
            fit24 == forall|a: int| 0 <= a < j ==> (#[trigger] es@[a]).traf_number <= 0xFF_FFFF,
            entries@ == absolute_entries(init_size, es@.take(j as int)),
        decreases es@.len() - j,
    {
        let e = es[j];
        let moof_offset = init_size + e.moof_relative_offset;
        if e.time > 0xFFFF_FFFF || moof_offset > 0xFFFF_FFFF {
            needs_v1 = true;
        }
        if e.traf_number > 0xFF {
            fit8 = false;
        }
        if e.traf_number > 0xFFFF {
            fit16 = false;
        }
        if e.traf_number > 0xFF_FFFF {
            fit24 = false;
        }
        entries.push(TfraEntry { time: e.time, moof_offset, traf_number: e.traf_number });
        assert(entries@ =~= absolute_entries(init_size, es@.take(j + 1)));
        j = j + 1;
    }
    assert(es@.take(j as int) =~= es@);
    let version: u8 = if needs_v1 {
        1
    } else {
        0
    };
    let code: u8 = if fit8 {
        0
    } else if fit16 {
        1
    } else if fit24 {
        2
    } else {
        3
    };
    match push_tfra(out, version, track_id, code, &entries) {
        Ok(()) => Ok(()),
        Err(e) => Err(MuxError::EncodeError(e)),
    }
}

proof fn lemma_tfras_prefix_none(init_size: u64, tracks: Seq<TrackV>, tfra: Seq<Seq<TfraSegmentEntry>>, n: int)
    requires
        0 <= n <= tfra.len(),
        tfras_bytes(init_size, tracks, tfra.take(n)) is None,
    ensures
        tfras_bytes(init_size, tracks, tfra) is None,
    decreases tfra.len() - n,
{
    if n < tfra.len() {
        assert(tfra.take(n + 1).drop_last() =~= tfra.take(n));
        lemma_tfras_prefix_none(init_size, tracks, tfra, n + 1);
    } else {
        assert(tfra.take(n) =~= tfra);
    }
}

impl Fmp4SegmentMuxer {
    /// A muxer with the default options.
    pub fn new() -> (r: Result<Self, MuxError>)
        ensures
            r matches Ok(m) && m@.wf() && m@.tracks.len() == 0 && m@.sequence_number == 0
                && m@.media_bytes_written == 0 && m@.tfra_entries.len() == 0
                && m@.options.creation_timestamp == 0
                && m@.options.audio_track.language == seq![0x75u8, 0x6Eu8, 0x64u8]
                && m@.options.audio_track.name == Seq::<char>::empty()
                && m@.options.video_track.language == seq![0x75u8, 0x6Eu8, 0x64u8]
                && m@.options.video_track.name == Seq::<char>::empty()
                && m@.options.subtitle_track.language == seq![0x75u8, 0x6Eu8, 0x64u8]
                && m@.options.subtitle_track.name == Seq::<char>::empty(),
    {
        Self::with_options(SegmentMuxerOptions::default())
    }

    /// A muxer with the given options.
    pub fn with_options(options: SegmentMuxerOptions) -> (r: Result<Self, MuxError>)
        ensures
            r matches Ok(m) && m@.wf() && m@.tracks.len() == 0 && m@.sequence_number == 0
                && m@.media_bytes_written == 0 && m@.tfra_entries.len() == 0 && m@.options == options@,
    {
        let tracks: Vec<TrackEntry> = Vec::new();
        let tfra_entries: Vec<Vec<TfraSegmentEntry>> = Vec::new();
        let m = Fmp4SegmentMuxer { tracks, options, sequence_number: 0, media_bytes_written: 0, tfra_entries };
        assert(m@.tracks =~= Seq::<TrackV>::empty());
        Ok(m)
    }

    /// The initialization segment (`ftyp` + `moov`) with the tracks and
    /// sample entries observed so far; `EmptyTracks` before any.
    pub fn init_segment_bytes(&self) -> (r: Result<Vec<u8>, MuxError>)
        requires
            self@.tracks.len() > 0 ==> self@.options.creation_timestamp <= u64::MAX - MP4_EPOCH_OFFSET,
        ensures
            bytes_outcome(r, init_segment(self@.options, self@.tracks)),
    {
        proof {
            use_type_invariant(self);
            crate::fmp4::lemma_kinds_distinct_len(self@.tracks);
        }
        if self.tracks.len() == 0 {
            proof {
                reveal(init_segment);
            }
            return Err(MuxError::EmptyTracks);
        }
        build_init_segment(&self.options, &self.tracks)
    }

    /// Puts back the tracks, entries and counters saved before a segment was
    /// built; the options never change.
    fn restore(
        &mut self,
        tracks: Vec<TrackEntry>,
        tfra_entries: Vec<Vec<TfraSegmentEntry>>,
        sequence_number: u32,
        media_bytes_written: u64,
    )
        requires
            (MuxerV {
                tracks: tracks_view(tracks@),
                options: old(self)@.options,
                sequence_number,
                media_bytes_written,
                tfra_entries: tfra_view(tfra_entries@),
            }).wf(),
        ensures
            final(self)@ == (MuxerV {
                tracks: tracks_view(tracks@),
                options: old(self)@.options,
                sequence_number,
                media_bytes_written,
                tfra_entries: tfra_view(tfra_entries@),
            }),
    {
        proof {
            use_type_invariant(&*self);
        }
        let mut options = SegmentMuxerOptions::default();
        std::mem::swap(&mut options, &mut self.options);
        *self = Fmp4SegmentMuxer { tracks, options, sequence_number, media_bytes_written, tfra_entries };
    }

    /// Builds a media segment: its `moof` and `mdat` header, and the size of
    /// the `mdat` payload. The muxer is changed only on success.
    fn build_media_segment_bytes(&mut self, samples: &[Sample]) -> (r: Result<(Vec<u8>, u64), MuxError>)
        requires
            timescales_nonzero(samples@),
        ensures
            final(self)@.wf(),
            match media_segment(old(self)@, samples_view(samples@)) {
                Ok(s) => r matches Ok((b, p)) && b@ == s.bytes && p == s.payload_size && final(self)@ == s.next,
                Err(Some(e)) => r matches Err(x) && x@ == e && final(self)@ == old(self)@,
                Err(None) => r matches Err(x) && x@ == MuxErrorV::EncodeError(ErrorKind::InvalidInput) && final(self)@ == old(self)@,
            },
    {
        proof {
            use_type_invariant(&*self);
        }
        reveal(media_segment);
        let ghost m = self@;
        let ghost xs = samples_view(samples@);
        proof {
            lemma_media_segment_facts(m, xs);
        }
        if samples.len() == 0 {
            return Err(MuxError::EmptySamples);
        }
        let moof_relative_offset = self.media_bytes_written;
        if self.sequence_number == 0xFFFF_FFFF {
            return Err(MuxError::EncodeError(Error::invalid_data("sequence number overflow")));
        }
        let sequence_number = self.sequence_number + 1;
        let mut next_tracks = clone_tracks(&self.tracks);
        let resolved = match resolve_segment_tracks(&mut next_tracks, samples) {
            Ok(r) => r,
            Err(e) => {
                return Err(e);
            },
        };
        let ghost t = tracks_view(next_tracks@);
        let ghost rs = resolved_view(resolved@);
        proof {
            lemma_resolve_segment_props(m.tracks, xs);
            assert forall|k: int| 0 <= k < resolved@.len() implies (#[trigger] resolved@[k]).track_index
                < next_tracks@.len() by {
                assert(rs[k] == resolved@[k]@);
            }
        }
        let payload = mdat_payload_size(&resolved);
        let mut header = match mdat_header(payload) {
            Some(h) => h,
            None => {
                return Err(MuxError::Overflow);
            },
        };
        let mut zeros: Vec<i32> = Vec::new();
        let mut k: usize = 0;
        while k < resolved.len()
            invariant
                k <= resolved@.len(),
                zeros@ == zero_offsets(k as nat),
            decreases resolved@.len() - k,
        {
            zeros.push(0);
            assert(zeros@ =~= zero_offsets((k + 1) as nat));
            k = k + 1;
        }
        let placeholder = match build_moof(&next_tracks, &resolved, sequence_number, &zeros) {
            Ok(b) => b,
            Err(e) => {
                return Err(e);
            },
        };
        assert(placeholder@.len() <= u32::MAX);
        let base: u64 = placeholder.len() as u64 + header.len() as u64;
        let offsets = match compute_data_offsets(base, &resolved) {
            Ok(o) => o,
            Err(e) => {
                return Err(e);
            },
        };
        let mut segment = match build_moof(&next_tracks, &resolved, sequence_number, &offsets) {
            Ok(b) => b,
            Err(e) => {
                return Err(e);
            },
        };
        assert(segment@.len() <= u32::MAX);
        let mut next_tfra = clone_tfra(&self.tfra_entries);
        record_tfra_entries(&mut next_tfra, next_tracks.len(), &self.tracks, &resolved, moof_relative_offset);
        match advance_decode_times(&mut next_tracks, &resolved) {
            Ok(()) => {},
            Err(e) => {
                return Err(e);
            },
        }
        let seg_len: u64 = segment.len() as u64 + header.len() as u64;
        if self.media_bytes_written > 0xFFFF_FFFF_FFFF_FFFF - seg_len || self.media_bytes_written + seg_len
            > 0xFFFF_FFFF_FFFF_FFFF - payload {
            return Err(MuxError::Overflow);
        }
        segment.append(&mut header);
        let media_bytes_written = self.media_bytes_written + seg_len + payload;
        let mut options = SegmentMuxerOptions::default();
        std::mem::swap(&mut options, &mut self.options);
        *self = Fmp4SegmentMuxer {
            tracks: next_tracks,
            options,
            sequence_number,
            media_bytes_written,
            tfra_entries: next_tfra,
        };
        Ok((segment, payload))
    }

    /// The head of a media segment: its `moof` and the header of its `mdat`,
    /// the caller laying out the samples' payloads right after them, each at
    /// its `data_offset` from the start of the `mdat` payload.
    ///
    /// The samples are grouped by track kind. The payloads of a track must
    /// follow one another in the order of the samples, and the tracks'
    /// payloads one another from offset 0. The muxer learns the tracks and
    /// sample entries of the samples; on error it is left unchanged.
    pub fn create_media_segment_metadata(&mut self, samples: &[Sample]) -> (r: Result<Vec<u8>, MuxError>)
        requires
            timescales_nonzero(samples@),
        ensures
            final(self)@.wf(),
            match media_segment(old(self)@, samples_view(samples@)) {
                Ok(s) => r matches Ok(b) && b@ == s.bytes && final(self)@ == s.next,
                Err(Some(e)) => r matches Err(x) && x@ == e && final(self)@ == old(self)@,
                Err(None) => r matches Err(x) && x@ == MuxErrorV::EncodeError(ErrorKind::InvalidInput) && final(self)@ == old(self)@,
            },
    {
        match self.build_media_segment_bytes(samples) {
            Ok((segment, _)) => Ok(segment),
            Err(e) => Err(e),
        }
    }
    /// A media segment head (as [`create_media_segment_metadata`](Self::create_media_segment_metadata))
    /// behind a `sidx` with one reference to it.
    ///
    /// The `sidx` references the track of the first sample's kind; its
    /// earliest presentation time is the least presentation time (decode time
    /// plus composition time offset, none being 0) of that track's samples,
    /// and it starts with a SAP (of type 1) when that sample (the first of
    /// them at that time) is a keyframe. A negative or too large earliest
    /// presentation time fails with `Overflow`. The random access entries of
    /// the segment then point at its `moof` behind the `sidx`. On any error
    /// the muxer is left unchanged.
    pub fn create_media_segment_metadata_with_sidx(&mut self, samples: &[Sample]) -> (r: Result<
        Vec<u8>,
        MuxError,
    >)
        requires
            timescales_nonzero(samples@),
        ensures
            final(self)@.wf(),
            bytes_outcome(r, sidx_segment(old(self)@, samples_view(samples@)).0),
            final(self)@ == sidx_segment(old(self)@, samples_view(samples@)).1,
    {
        proof {
            use_type_invariant(&*self);
        }
        let ghost m = self@;
        let ghost xs = samples_view(samples@);
        if samples.len() == 0 {
            return Err(MuxError::EmptySamples);
        }
        let first_track_kind = samples[0].track_kind;
        assert(xs[0] == samples@[0]@);
        let mut duration_sum: u128 = 0;
        let mut i: usize = 0;
        proof {
            assert(xs.take(0) =~= Seq::<SampleV>::empty());
        }
        while i < samples.len()
            invariant
                i <= samples@.len(),
                xs == samples_view(samples@),
                duration_sum == subsegment_duration(xs.take(i as int), first_track_kind),
                duration_sum <= i * 0xFFFF_FFFF,
            decreases samples@.len() - i,
        {
            assert(xs[i as int] == samples@[i as int]@);
            assert(xs.take(i + 1).drop_last() =~= xs.take(i as int));
            if samples[i].track_kind == first_track_kind {
                duration_sum = duration_sum + samples[i].duration as u128;
            }
            i = i + 1;
        }
        assert(xs.take(i as int) =~= xs);
        let decode_time = match find_track(&self.tracks, first_track_kind) {
            Some(ti) => {
                assert(m.tracks[ti as int] == self.tracks@[ti as int]@);
                self.tracks[ti].decode_time
            },
            None => 0,
        };
        let (earliest_presentation_time, sap_at_ept) = match compute_earliest_presentation_time(
            samples,
            first_track_kind,
            decode_time,
        ) {
            Ok(v) => v,
            Err(e) => {
                return Err(e);
            },
        };
        let mut pre_tfra_lens: Vec<usize> = Vec::new();
        let mut j: usize = 0;
        while j < self.tfra_entries.len()
            invariant
                j <= self.tfra_entries@.len(),
                self@ == m,
                pre_tfra_lens@.len() == j,
                forall|a: int| 0 <= a < j ==> pre_tfra_lens@[a] == (#[trigger] m.tfra_entries[a]).len(),
            decreases self.tfra_entries@.len() - j,
        {
            assert(m.tfra_entries[j as int] == self.tfra_entries@[j as int]@);
            pre_tfra_lens.push(self.tfra_entries[j].len());
            j = j + 1;
        }
        proof {
            lemma_media_segment_facts(m, xs);
            lemma_segment_counters(m, xs);
        }
        let saved_tracks = clone_tracks(&self.tracks);
        let saved_tfra = clone_tfra(&self.tfra_entries);
        let saved_sequence_number = self.sequence_number;
        let saved_media_bytes_written = self.media_bytes_written;
        let (media_segment, mdat_payload_size) = match self.build_media_segment_bytes(samples) {
            Ok(v) => v,
            Err(e) => {
                return Err(e);
            },
        };
        let ghost n = self@;
        if mdat_payload_size > usize::MAX as u64 || media_segment.len() > usize::MAX - mdat_payload_size as usize {
            self.restore(saved_tracks, saved_tfra, saved_sequence_number, saved_media_bytes_written);
            return Err(MuxError::Overflow);
        }
        let media_segment_size: usize = media_segment.len() + mdat_payload_size as usize;
        if media_segment_size > 0xFFFF_FFFF {
            self.restore(saved_tracks, saved_tfra, saved_sequence_number, saved_media_bytes_written);
            return Err(
                MuxError::EncodeError(
                    Error::invalid_data("referenced_size overflow: media segment size exceeds u32 max"),
                ),
            );
        }
        if duration_sum > 0xFFFF_FFFF {
            self.restore(saved_tracks, saved_tfra, saved_sequence_number, saved_media_bytes_written);
            return Err(
                MuxError::EncodeError(
                    Error::invalid_data("subsegment_duration overflow: duration exceeds u32 max"),
                ),
            );
        }
        let ti = match find_track(&self.tracks, first_track_kind) {
            Some(ti) => ti,
            None => {
                assert(false);
                return Err(MuxError::Overflow);
            },
        };
        assert(n.tracks[ti as int] == self.tracks@[ti as int]@);
        let sidx = sidx_box(
            self.tracks[ti].track_id,
            self.tracks[ti].timescale,
            earliest_presentation_time,
            media_segment_size as u32,
            duration_sum as u32,
            sap_at_ept,
        );
        let sidx_size = sidx.len() as u64;
        if self.media_bytes_written > 0xFFFF_FFFF_FFFF_FFFF - sidx_size {
            self.restore(saved_tracks, saved_tfra, saved_sequence_number, saved_media_bytes_written);
            return Err(MuxError::Overflow);
        }
        let ghost after = n.tfra_entries;
        let ghost before = m.tfra_entries;
        let mut shifted: Vec<Vec<TfraSegmentEntry>> = Vec::new();
        let mut k: usize = 0;
        while k < self.tfra_entries.len()
            invariant
                k <= self.tfra_entries@.len(),
                self@ == n,
                n.media_bytes_written + sidx_size <= u64::MAX,
                n.media_bytes_written >= m.media_bytes_written,
                after == n.tfra_entries,
                before == m.tfra_entries,
                pre_tfra_lens@.len() == before.len(),
                forall|a: int| 0 <= a < before.len() ==> pre_tfra_lens@[a] == (#[trigger] before[a]).len(),
                forall|a: int|
                    0 <= a < after.len() ==> appends_at(
                        #[trigger] after[a],
                        if a < before.len() {
                            before[a]
                        } else {
                            Seq::<TfraSegmentEntry>::empty()
                        },
                        m.media_bytes_written,
                    ),
                shifted@.len() == k,
                forall|a: int| 0 <= a < k ==> (#[trigger] shifted@[a])@ == shift_new_entries(after, before, sidx_size)[a],
            decreases self.tfra_entries@.len() - k,
        {
            let pre: usize = if k < pre_tfra_lens.len() {
                pre_tfra_lens[k]
            } else {
                0
            };
            let src = &self.tfra_entries[k];
            assert(after[k as int] == src@);
            let mut list: Vec<TfraSegmentEntry> = Vec::new();
            let mut b: usize = 0;
            while b < src.len()
                invariant
                    b <= src@.len(),
                    list@ == src@.take(b as int),
                decreases src@.len() - b,
            {
                list.push(src[b]);
                assert(src@.take(b + 1) =~= src@.take(b as int).push(src@[b as int]));
                b = b + 1;
            }
            assert(src@.take(b as int) =~= src@);
            if list.len() > pre {
                let last = list.len() - 1;
                let e = list[last];
                proof {
                    let p = if k < before.len() {
                        before[k as int]
                    } else {
                        Seq::<TfraSegmentEntry>::empty()
                    };
                    assert(appends_at(after[k as int], p, m.media_bytes_written));
                    assert(p.len() == pre);
                    assert(after[k as int][last as int].moof_relative_offset == m.media_bytes_written);
                }
                list.set(last, TfraSegmentEntry { moof_relative_offset: e.moof_relative_offset + sidx_size, ..e });
            }
            proof {
                let p = if k < before.len() { before[k as int].len() } else { 0 };
                assert(pre == p);
                assert(list@ =~= shift_if_grown(after[k as int], p, sidx_size));
            }
            shifted.push(list);
            k = k + 1;
        }
        self.tfra_entries = shifted;
        self.media_bytes_written = self.media_bytes_written + sidx_size;
        proof {
            assert(tfra_view(self.tfra_entries@) =~= shift_new_entries(after, before, sidx_size));
        }
        let mut result = sidx;
        let mut seg = media_segment;
        result.append(&mut seg);
        Ok(result)
    }
    /// The random access index (`mfra`): a `tfra` per track with segments,
    /// their `moof` offsets counted from the start of a file that begins with
    /// the current initialization segment, then `mfro`. Call it once the
    /// initialization segment that heads the file is final.
    pub fn mfra_bytes(&self) -> (r: Result<Vec<u8>, MuxError>)
        requires
            self@.tracks.len() > 0 ==> self@.options.creation_timestamp <= u64::MAX - MP4_EPOCH_OFFSET,
        ensures
            bytes_outcome(r, mfra(self@)),
    {
        proof {
            use_type_invariant(self);
        }
        let ghost m = self@;
        let init = match self.init_segment_bytes() {
            Ok(b) => b,
            Err(e) => {
                return Err(e);
            },
        };
        let init_size = init.len() as u64;
        let mut ti: usize = 0;
        while ti < self.tfra_entries.len()
            invariant
                ti <= self.tfra_entries@.len(),
                m == self@,
                init_segment(m.options, m.tracks) == Ok::<Seq<u8>, Option<MuxErrorV>>(init@),
                init_size == init@.len(),
                forall|i: int, j: int|
                    0 <= i < ti && 0 <= j < m.tfra_entries[i].len() ==> init_size + (
                    #[trigger] m.tfra_entries[i][j]).moof_relative_offset <= u64::MAX,
            decreases self.tfra_entries@.len() - ti,
        {
            let es = &self.tfra_entries[ti];
            assert(m.tfra_entries[ti as int] == es@);
            let mut j: usize = 0;
            while j < es.len()
                invariant
                    j <= es@.len(),
                    ti < self.tfra_entries@.len(),
                    m == self@,
                    init_segment(m.options, m.tracks) == Ok::<Seq<u8>, Option<MuxErrorV>>(init@),
                    init_size == init@.len(),
                    m.tfra_entries[ti as int] == es@,
                    forall|i: int, b: int|
                        0 <= i < ti && 0 <= b < m.tfra_entries[i].len() ==> init_size + (
                        #[trigger] m.tfra_entries[i][b]).moof_relative_offset <= u64::MAX,
                    forall|b: int| 0 <= b < j ==> init_size + (#[trigger] es@[b]).moof_relative_offset <= u64::MAX,
                decreases es@.len() - j,
            {
                if init_size > 0xFFFF_FFFF_FFFF_FFFF - es[j].moof_relative_offset {
                    assert(init_size + m.tfra_entries[ti as int][j as int].moof_relative_offset > u64::MAX);
                    assert(offsets_overflow(init_size, m.tfra_entries));
                    return Err(MuxError::Overflow);
                }
                j = j + 1;
            }
            ti = ti + 1;
        }
        assert(!offsets_overflow(init_size, m.tfra_entries));
        let mut tfras: Vec<u8> = Vec::new();
        let mut k: usize = 0;
        proof {
            assert(m.tfra_entries.take(0) =~= Seq::<Seq<TfraSegmentEntry>>::empty());
        }
        while k < self.tfra_entries.len()
            invariant
                k <= self.tfra_entries@.len(),
                m == self@,
                m.wf(),
                init_segment(m.options, m.tracks) == Ok::<Seq<u8>, Option<MuxErrorV>>(init@),
                init_size == init@.len(),
                !offsets_overflow(init_size, m.tfra_entries),
                tfras_bytes(init_size, m.tracks, m.tfra_entries.take(k as int)) is Some,
                tfras@ == tfras_bytes(init_size, m.tracks, m.tfra_entries.take(k as int))->0,
            decreases self.tfra_entries@.len() - k,
        {
            let es = &self.tfra_entries[k];
            proof {
                assert(m.tfra_entries[k as int] == es@);
                assert(m.tracks[k as int] == self.tracks@[k as int]@);
                assert(m.tfra_entries.take(k + 1).drop_last() =~= m.tfra_entries.take(k as int));
                assert(m.tfra_entries.take(k + 1).last() == es@);
                assert forall|j: int| 0 <= j < es@.len() implies init_size + (#[trigger] es@[j]).moof_relative_offset
                    <= u64::MAX by {
                    assert(es@[j] == m.tfra_entries[k as int][j]);
                }
            }
            match push_track_tfra(&mut tfras, init_size, self.tracks[k].track_id, es) {
                Ok(()) => {},
                Err(e) => {
                    proof {
                        lemma_tfras_prefix_none(init_size, m.tracks, m.tfra_entries, k + 1);
                    }
                    return Err(e);
                },
            }
            k = k + 1;
        }
        assert(m.tfra_entries.take(k as int) =~= m.tfra_entries);
        if tfras.len() > 0xFFFF_FFFF - 24 {
            return Err(MuxError::EncodeError(Error::invalid_data("mfra box size overflow: size exceeds u32 max")));
        }
        let mfra_size: u32 = (tfras.len() + 24) as u32;
        let mut payload = tfras;
        push_mfro(&mut payload, mfra_size);
        let mut out: Vec<u8> = Vec::new();
        match put_box(&mut out, 0x6D66_7261, &payload) {
            Ok(()) => {},
            Err(e) => {
                return Err(MuxError::EncodeError(e));
            },
        }
        Ok(out)
    }
}

} // verus!
