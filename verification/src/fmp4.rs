//! The state of the fragmented MP4 muxer, and the resolving of a media
//! segment's samples against its tracks.
//!
//! The samples of a segment are grouped by track kind, in order of first
//! appearance; each kind finds (or adds) its track and sample entry, and the
//! tracks' payloads are then ordered by their offset in the `mdat` payload,
//! which they must fill one after the other.
use vstd::prelude::*;

use crate::deep::{sample_entry_clone, sample_entry_eq};
use crate::error::{Error, ErrorKind};
use crate::media_boxes::RunSample;
use crate::mux::{entries_view, samples_view, MuxError, MuxErrorV, OptionsV, Sample, SampleV, TrackKind};
use crate::sample_entry::{SampleEntry, SampleEntryV};

verus! {

// ===== model =====

/// What the muxer knows of a track.
pub struct TrackV {
    pub track_kind: TrackKind,
    pub timescale: u32,
    pub sample_entries: Seq<SampleEntryV>,
    pub track_id: u32,
    /// Decode time of the next segment's first sample (sum of the durations so far)
    pub decode_time: u64,
    /// Index of the sample entry the last sample used
    pub current: Option<usize>,
}

/// A segment's entry of the random access index of a track.
#[derive(Debug, Clone, Copy, PartialEq, Eq, Structural)]
pub struct TfraSegmentEntry {
    /// Decode time of the segment's first sample of the track
    pub time: u64,
    /// Offset of the segment's `moof` from the start of the media segments
    pub moof_relative_offset: u64,
    /// 1-based index of the track's `traf` in the `moof`
    pub traf_number: u32,
}

/// The state of a muxer.
pub struct MuxerV {
    pub tracks: Seq<TrackV>,
    pub options: OptionsV,
    pub sequence_number: u32,
    pub media_bytes_written: u64,
    pub tfra_entries: Seq<Seq<TfraSegmentEntry>>,
}

impl MuxerV {
    /// The invariant of a muxer: at most one track of each kind, numbered
    /// from 1 in the order they were first seen, and one list of random
    /// access entries per track.
    pub open spec fn wf(self) -> bool {
        &&& kinds_distinct(self.tracks)
        &&& ids_in_order(self.tracks)
        &&& self.tfra_entries.len() == self.tracks.len()
    }
}

/// The samples of one track in a segment, resolved against the track.
pub struct ResolvedV {
    pub track_index: int,
    pub samples: Seq<RunSample>,
    pub total_duration: u64,
    pub sample_description_index: Option<u32>,
    pub first_data_offset: u64,
    pub payload_end: u64,
}

// ===== resolving the samples of a segment =====

/// The track kinds of the samples, each once, in order of first appearance.
pub open spec fn kinds_of(s: Seq<SampleV>) -> Seq<TrackKind>
    decreases s.len(),
{
    if s.len() == 0 {
        Seq::empty()
    } else {
        let k = kinds_of(s.drop_last());
        if k.contains(s.last().track_kind) {
            k
        } else {
            k.push(s.last().track_kind)
        }
    }
}

/// The samples of one kind, in order.
pub open spec fn of_kind(s: Seq<SampleV>, kind: TrackKind) -> Seq<SampleV>
    decreases s.len(),
{
    if s.len() == 0 {
        Seq::empty()
    } else if s.last().track_kind == kind {
        of_kind(s.drop_last(), kind).push(s.last())
    } else {
        of_kind(s.drop_last(), kind)
    }
}

/// Index of the first track of a kind.
pub open spec fn track_of(tracks: Seq<TrackV>, kind: TrackKind) -> Option<int>
    decreases tracks.len(),
{
    if tracks.len() == 0 {
        None
    } else {
        match track_of(tracks.drop_last(), kind) {
            Some(i) => Some(i),
            None => if tracks.last().track_kind == kind {
                Some(tracks.len() - 1)
            } else {
                None
            },
        }
    }
}

/// Index of the first sample entry equal to `e`.
pub open spec fn entry_index(es: Seq<SampleEntryV>, e: SampleEntryV) -> Option<int>
    decreases es.len(),
{
    if es.len() == 0 {
        None
    } else {
        match entry_index(es.drop_last(), e) {
            Some(i) => Some(i),
            None => if es.last() == e {
                Some(es.len() - 1)
            } else {
                None
            },
        }
    }
}

/// The track for a kind: the existing one (whose timescale must match), or a
/// new one with the next track id.
pub open spec fn ensure_track(tracks: Seq<TrackV>, kind: TrackKind, timescale: u32) -> Result<
    (Seq<TrackV>, int),
    MuxErrorV,
> {
    match track_of(tracks, kind) {
        Some(i) => if tracks[i].timescale != timescale {
            Err(MuxErrorV::TimescaleMismatch(kind, tracks[i].timescale, timescale))
        } else {
            Ok((tracks, i))
        },
        None => Ok(
            (
                tracks.push(
                    TrackV {
                        track_kind: kind,
                        timescale,
                        sample_entries: Seq::empty(),
                        track_id: (tracks.len() + 1) as u32,
                        decode_time: 0,
                        current: None,
                    },
                ),
                tracks.len() as int,
            ),
        ),
    }
}

/// The state of resolving the samples of one track.
pub struct RunState {
    pub entries: Seq<SampleEntryV>,
    pub current: Option<usize>,
    pub segment_entry: Option<usize>,
    pub total: u64,
    pub expected_offset: Option<u64>,
    pub first_offset: Option<u64>,
    pub payload_end: u64,
    pub out: Seq<RunSample>,
}

/// Resolving one more sample: its timescale must be the track's; its entry is
/// found (or added), or the current one when it has none; every sample of the
/// segment must use the same entry; its payload must follow the previous
/// one's; durations and offsets must not overflow.
pub open spec fn run_step(kind: TrackKind, timescale: u32, st: RunState, x: SampleV) -> Result<
    RunState,
    MuxErrorV,
> {
    if x.timescale != timescale {
        Err(MuxErrorV::TimescaleMismatch(kind, timescale, x.timescale))
    } else {
        let found: Option<(Seq<SampleEntryV>, int)> = match x.sample_entry {
            Some(e) => match entry_index(st.entries, e) {
                Some(i) => Some((st.entries, i)),
                None => Some((st.entries.push(e), st.entries.len() as int)),
            },
            None => match st.current {
                Some(c) => Some((st.entries, c as int)),
                None => None,
            },
        };
        match found {
            None => Err(MuxErrorV::MissingSampleEntry(kind)),
            Some((entries, idx)) => if st.segment_entry is Some && st.segment_entry->0 != idx {
                Err(MuxErrorV::MixedSampleEntries(kind))
            } else if st.total + x.duration > u64::MAX {
                Err(MuxErrorV::Overflow)
            } else if st.expected_offset is Some && st.expected_offset->0 != x.data_offset {
                Err(MuxErrorV::EncodeError(ErrorKind::InvalidInput))
            } else if x.data_offset + x.data_size > u64::MAX {
                Err(MuxErrorV::Overflow)
            } else {
                Ok(
                    RunState {
                        entries,
                        current: Some(idx as usize),
                        segment_entry: Some(idx as usize),
                        total: (st.total + x.duration) as u64,
                        expected_offset: Some((x.data_offset + x.data_size) as u64),
                        first_offset: if st.first_offset is Some {
                            st.first_offset
                        } else {
                            Some(x.data_offset)
                        },
                        payload_end: (x.data_offset + x.data_size) as u64,
                        out: st.out.push(
                            RunSample {
                                duration: x.duration,
                                keyframe: x.keyframe,
                                composition_time_offset: x.composition_time_offset,
                                data_size: x.data_size,
                            },
                        ),
                    },
                )
            },
        }
    }
}

/// Resolving the samples one after the other.
pub open spec fn run_all(kind: TrackKind, timescale: u32, st: RunState, xs: Seq<SampleV>) -> Result<
    RunState,
    MuxErrorV,
>
    decreases xs.len(),
{
    if xs.len() == 0 {
        Ok(st)
    } else {
        match run_all(kind, timescale, st, xs.drop_last()) {
            Ok(s) => run_step(kind, timescale, s, xs.last()),
            Err(e) => Err(e),
        }
    }
}

/// The state before the first sample of a track.
pub open spec fn run_start(t: TrackV) -> RunState {
    RunState {
        entries: t.sample_entries,
        current: t.current,
        segment_entry: None,
        total: 0,
        expected_offset: None,
        first_offset: None,
        payload_end: 0,
        out: Seq::empty(),
    }
}

/// The sample description index for `tfhd`: none for the first entry (the
/// `trex` default), otherwise the 1-based index, which must fit in 32 bits.
pub open spec fn description_index(seg: Option<usize>) -> Result<Option<u32>, MuxErrorV> {
    match seg {
        Some(i) => if i == 0 {
            Ok(None)
        } else if i + 1 > u32::MAX {
            Err(MuxErrorV::EncodeError(ErrorKind::InvalidData))
        } else {
            Ok(Some((i + 1) as u32))
        },
        None => Ok(None),
    }
}

/// Resolving the samples of one kind against its track.
pub open spec fn resolve_kind(tracks: Seq<TrackV>, xs: Seq<SampleV>, kind: TrackKind) -> Result<
    (Seq<TrackV>, ResolvedV),
    MuxErrorV,
> {
    let ks = of_kind(xs, kind);
    match ensure_track(tracks, kind, ks[0].timescale) {
        Err(e) => Err(e),
        Ok((t1, i)) => {
            let t = t1[i];
            match run_all(kind, t.timescale, run_start(t), ks) {
                Err(e) => Err(e),
                Ok(st) => match description_index(st.segment_entry) {
                    Err(e) => Err(e),
                    Ok(sdi) => Ok(
                        (
                            t1.update(
                                i,
                                TrackV { sample_entries: st.entries, current: st.current, ..t },
                            ),
                            ResolvedV {
                                track_index: i,
                                samples: st.out,
                                total_duration: st.total,
                                sample_description_index: sdi,
                                first_data_offset: st.first_offset->0,
                                payload_end: st.payload_end,
                            },
                        ),
                    ),
                },
            }
        },
    }
}

/// Resolving every kind in turn.
pub open spec fn resolve_kinds(tracks: Seq<TrackV>, xs: Seq<SampleV>, kinds: Seq<TrackKind>) -> Result<
    (Seq<TrackV>, Seq<ResolvedV>),
    MuxErrorV,
>
    decreases kinds.len(),
{
    if kinds.len() == 0 {
        Ok((tracks, Seq::empty()))
    } else {
        match resolve_kinds(tracks, xs, kinds.drop_last()) {
            Err(e) => Err(e),
            Ok((t, rs)) => match resolve_kind(t, xs, kinds.last()) {
                Err(e) => Err(e),
                Ok((t2, r)) => Ok((t2, rs.push(r))),
            },
        }
    }
}

/// Inserting `x` into a list sorted by first data offset, after the entries
/// whose offset is not greater.
pub open spec fn sorted_insert(s: Seq<ResolvedV>, x: ResolvedV) -> Seq<ResolvedV>
    decreases s.len(),
{
    if s.len() == 0 {
        seq![x]
    } else if s.last().first_data_offset <= x.first_data_offset {
        s.push(x)
    } else {
        sorted_insert(s.drop_last(), x).push(s.last())
    }
}

/// The resolved tracks stably sorted by first data offset.
pub open spec fn sort_by_offset(s: Seq<ResolvedV>) -> Seq<ResolvedV>
    decreases s.len(),
{
    if s.len() == 0 {
        Seq::empty()
    } else {
        sorted_insert(sort_by_offset(s.drop_last()), s.last())
    }
}

/// The payload range of the `i`-th track starts where the previous one ends
/// (at 0 for the first).
pub open spec fn starts_after_previous(s: Seq<ResolvedV>, i: int) -> bool {
    s[i].first_data_offset == if i == 0 {
        0
    } else {
        s[i - 1].payload_end
    }
}

/// The payload ranges of the tracks follow one another from offset 0.
pub open spec fn contiguous(s: Seq<ResolvedV>) -> bool {
    forall|i: int| 0 <= i < s.len() ==> #[trigger] starts_after_previous(s, i)
}

/// Resolving the samples of a segment: every kind in order of first
/// appearance, then the tracks sorted by payload offset, whose payloads must
/// follow one another from the start of the `mdat` payload.
#[verifier::opaque]
pub open spec fn resolve_segment(tracks: Seq<TrackV>, xs: Seq<SampleV>) -> Result<
    (Seq<TrackV>, Seq<ResolvedV>),
    MuxErrorV,
> {
    match resolve_kinds(tracks, xs, kinds_of(xs)) {
        Err(e) => Err(e),
        Ok((t, rs)) => {
            let sorted = sort_by_offset(rs);
            if contiguous(sorted) {
                Ok((t, sorted))
            } else {
                Err(MuxErrorV::EncodeError(ErrorKind::InvalidInput))
            }
        },
    }
}

// ===== exec: resolving =====

/// What the muxer keeps of a track.
#[derive(Debug, Clone)]
pub struct TrackEntry {
    /// Kind of the track
    pub track_kind: TrackKind,
    /// Timescale of the track (units per second)
    pub timescale: u32,
    /// The sample entries seen so far, in order of first use
    pub sample_entries: Vec<SampleEntry>,
    /// Track id (1-based position among the tracks)
    pub track_id: u32,
    /// Decode time of the next segment's first sample, in timescale units
    pub decode_time: u64,
    /// Index of the sample entry the last sample used
    pub current_sample_entry_index: Option<usize>,
}

impl View for TrackEntry {
    type V = TrackV;

    open spec fn view(&self) -> TrackV {
        TrackV {
            track_kind: self.track_kind,
            timescale: self.timescale,
            sample_entries: entries_view(self.sample_entries@),
            track_id: self.track_id,
            decode_time: self.decode_time,
            current: self.current_sample_entry_index,
        }
    }
}

pub open spec fn tracks_view(t: Seq<TrackEntry>) -> Seq<TrackV> {
    t.map_values(|x: TrackEntry| x@)
}

/// The samples of one track in a segment, resolved against the track.
#[derive(Debug)]
pub struct ResolvedSegmentTrack {
    /// Index of the track among the muxer's tracks
    pub track_index: usize,
    /// The track's samples in the segment, in order
    pub samples: Vec<RunSample>,
    /// Sum of the samples' durations
    pub total_duration: u64,
    /// The `tfhd` sample description index (none for the first entry)
    pub sample_description_index: Option<u32>,
    /// Offset of the track's first payload in the `mdat` payload
    pub first_data_offset: u64,
    /// Offset just past the track's last payload
    pub payload_end: u64,
}

impl View for ResolvedSegmentTrack {
    type V = ResolvedV;

    open spec fn view(&self) -> ResolvedV {
        ResolvedV {
            track_index: self.track_index as int,
            samples: self.samples@,
            total_duration: self.total_duration,
            sample_description_index: self.sample_description_index,
            first_data_offset: self.first_data_offset,
            payload_end: self.payload_end,
        }
    }
}

pub open spec fn resolved_view(t: Seq<ResolvedSegmentTrack>) -> Seq<ResolvedV> {
    t.map_values(|x: ResolvedSegmentTrack| x@)
}

pub(crate) fn clone_track(t: &TrackEntry) -> (r: TrackEntry)
    ensures
        r@ == t@,
{
    let mut es: Vec<SampleEntry> = Vec::new();
    let mut i: usize = 0;
    while i < t.sample_entries.len()
        invariant
            i <= t.sample_entries@.len(),
            es@.len() == i,
            forall|j: int| 0 <= j < i ==> es@[j]@ == t.sample_entries@[j]@,
        decreases t.sample_entries@.len() - i,
    {
        es.push(sample_entry_clone(&t.sample_entries[i]));
        i = i + 1;
    }
    assert(entries_view(es@) =~= entries_view(t.sample_entries@));
    TrackEntry {
        track_kind: t.track_kind,
        timescale: t.timescale,
        sample_entries: es,
        track_id: t.track_id,
        decode_time: t.decode_time,
        current_sample_entry_index: t.current_sample_entry_index,
    }
}

pub(crate) fn clone_tracks(t: &Vec<TrackEntry>) -> (r: Vec<TrackEntry>)
    ensures
        tracks_view(r@) == tracks_view(t@),
{
    let mut r: Vec<TrackEntry> = Vec::new();
    let mut i: usize = 0;
    while i < t.len()
        invariant
            i <= t@.len(),
            r@.len() == i,
            forall|j: int| 0 <= j < i ==> r@[j]@ == t@[j]@,
        decreases t@.len() - i,
    {
        r.push(clone_track(&t[i]));
        i = i + 1;
    }
    assert(tracks_view(r@) =~= tracks_view(t@));
    r
}

fn ordered_kinds(samples: &[Sample]) -> (r: Vec<TrackKind>)
    ensures
        r@ == kinds_of(samples_view(samples@)),
{
    let ghost xs = samples_view(samples@);
    let mut r: Vec<TrackKind> = Vec::new();
    let mut i: usize = 0;
    while i < samples.len()
        invariant
            i <= samples@.len(),
            xs == samples_view(samples@),
            r@ == kinds_of(xs.take(i as int)),
        decreases samples@.len() - i,
    {
        let k = samples[i].track_kind;
        let mut j: usize = 0;
        let mut found = false;
        while j < r.len()
            invariant
                j <= r@.len(),
                found == exists|m: int| 0 <= m < j && r@[m] == k,
            decreases r@.len() - j,
        {
            if r[j] == k {
                found = true;
            }
            j = j + 1;
        }
        proof {
            let t = xs.take(i + 1);
            assert(t.drop_last() =~= xs.take(i as int));
            assert(t.last() == xs[i as int]);
            assert(found == r@.contains(k));
        }
        if !found {
            r.push(k);
        }
        i = i + 1;
    }
    assert(xs.take(i as int) =~= xs);
    r
}

pub(crate) fn find_track(tracks: &Vec<TrackEntry>, kind: TrackKind) -> (r: Option<usize>)
    ensures
        match r {
            Some(i) => track_of(tracks_view(tracks@), kind) == Some(i as int) && i < tracks@.len(),
            None => track_of(tracks_view(tracks@), kind) is None,
        },
{
    let ghost v = tracks_view(tracks@);
    let mut i: usize = 0;
    while i < tracks.len()
        invariant
            i <= tracks@.len(),
            v == tracks_view(tracks@),
            track_of(v.take(i as int), kind) is None,
        decreases tracks@.len() - i,
    {
        proof {
            let t = v.take(i + 1);
            assert(t.drop_last() =~= v.take(i as int));
            assert(t.last() == v[i as int]);
        }
        if tracks[i].track_kind == kind {
            proof {
                lemma_track_of_prefix(v, i + 1);
            }
            return Some(i);
        }
        i = i + 1;
    }
    assert(v.take(i as int) =~= v);
    None
}

proof fn lemma_track_of_prefix(v: Seq<TrackV>, n: int)
    requires
        0 <= n <= v.len(),
        track_of(v.take(n), v[n - 1].track_kind) == Some(n - 1),
    ensures
        track_of(v, v[n - 1].track_kind) == Some(n - 1),
    decreases v.len() - n,
{
    if n < v.len() {
        let t = v.take(n + 1);
        assert(t.drop_last() =~= v.take(n));
        lemma_track_of_prefix_step(v, n, v[n - 1].track_kind, n - 1);
    } else {
        assert(v.take(n) =~= v);
    }
}

proof fn lemma_track_of_prefix_step(v: Seq<TrackV>, n: int, kind: TrackKind, i: int)
    requires
        0 <= n <= v.len(),
        track_of(v.take(n), kind) == Some(i),
    ensures
        track_of(v, kind) == Some(i),
    decreases v.len() - n,
{
    if n < v.len() {
        let t = v.take(n + 1);
        assert(t.drop_last() =~= v.take(n));
        lemma_track_of_prefix_step(v, n + 1, kind, i);
    } else {
        assert(v.take(n) =~= v);
    }
}

fn ensure_track_entry(tracks: &mut Vec<TrackEntry>, kind: TrackKind, timescale: u32) -> (r: Result<
    usize,
    MuxError,
>)
    requires
        old(tracks)@.len() < 0xFFFF_FFFF,
    ensures
        match ensure_track(tracks_view(old(tracks)@), kind, timescale) {
            Ok((t, i)) => r matches Ok(j) && j == i && tracks_view(final(tracks)@) == t,
            Err(e) => r matches Err(x) && x@ == e,
        },
        r matches Ok(j) ==> j < final(tracks)@.len(),
{
    match find_track(tracks, kind) {
        Some(i) => {
            if tracks[i].timescale != timescale {
                return Err(
                    MuxError::TimescaleMismatch {
                        track_kind: kind,
                        expected: tracks[i].timescale,
                        actual: timescale,
                    },
                );
            }
            Ok(i)
        },
        None => {
            let track_id = (tracks.len() + 1) as u32;
            let es: Vec<SampleEntry> = Vec::new();
            assert(entries_view(es@) =~= Seq::<SampleEntryV>::empty());
            let t = TrackEntry {
                track_kind: kind,
                timescale,
                sample_entries: es,
                track_id,
                decode_time: 0,
                current_sample_entry_index: None,
            };
            let ghost before = tracks_view(tracks@);
            tracks.push(t);
            proof {
                assert(tracks_view(tracks@) =~= before.push(t@));
            }
            Ok(tracks.len() - 1)
        },
    }
}

fn find_entry(es: &Vec<SampleEntry>, e: &SampleEntry) -> (r: Option<usize>)
    ensures
        match r {
            Some(i) => entry_index(entries_view(es@), e@) == Some(i as int) && i < es@.len(),
            None => entry_index(entries_view(es@), e@) is None,
        },
{
    let ghost v = entries_view(es@);
    let mut i: usize = 0;
    while i < es.len()
        invariant
            i <= es@.len(),
            v == entries_view(es@),
            entry_index(v.take(i as int), e@) is None,
        decreases es@.len() - i,
    {
        proof {
            let t = v.take(i + 1);
            assert(t.drop_last() =~= v.take(i as int));
            assert(t.last() == v[i as int]);
        }
        if sample_entry_eq(&es[i], e) {
            proof {
                lemma_entry_index_prefix(v, i + 1, e@, i as int);
            }
            return Some(i);
        }
        i = i + 1;
    }
    assert(v.take(i as int) =~= v);
    None
}

proof fn lemma_entry_index_prefix(v: Seq<SampleEntryV>, n: int, e: SampleEntryV, i: int)
    requires
        0 <= n <= v.len(),
        entry_index(v.take(n), e) == Some(i),
    ensures
        entry_index(v, e) == Some(i),
    decreases v.len() - n,
{
    if n < v.len() {
        let t = v.take(n + 1);
        assert(t.drop_last() =~= v.take(n));
        lemma_entry_index_prefix(v, n + 1, e, i);
    } else {
        assert(v.take(n) =~= v);
    }
}

/// Positions of the samples of one kind, in order.
fn kind_indices(samples: &[Sample], kind: TrackKind) -> (r: Vec<usize>)
    ensures
        r@.len() == of_kind(samples_view(samples@), kind).len(),
        forall|k: int|
            #![trigger r@[k]]
            0 <= k < r@.len() ==> r@[k] < samples@.len() && samples_view(samples@)[r@[k] as int]
                == of_kind(samples_view(samples@), kind)[k],
{
    let ghost xs = samples_view(samples@);
    let mut r: Vec<usize> = Vec::new();
    let mut i: usize = 0;
    while i < samples.len()
        invariant
            i <= samples@.len(),
            xs == samples_view(samples@),
            xs.len() == samples@.len(),
            r@.len() == of_kind(xs.take(i as int), kind).len(),
            forall|k: int|
                #![trigger r@[k]]
                0 <= k < r@.len() ==> r@[k] < i && xs[r@[k] as int] == of_kind(
                    xs.take(i as int),
                    kind,
                )[k],
        decreases samples@.len() - i,
    {
        let ghost t = xs.take(i + 1);
        proof {
            assert(t.drop_last() =~= xs.take(i as int));
            assert(t.last() == xs[i as int]);
            assert(xs[i as int] == samples@[i as int]@);
        }
        let ghost before = r@;
        if samples[i].track_kind == kind {
            r.push(i);
            proof {
                assert(of_kind(t, kind) == of_kind(xs.take(i as int), kind).push(xs[i as int]));
                let ok = of_kind(xs.take(i as int), kind);
                assert(before.len() == ok.len());
                assert forall|k: int| #![trigger r@[k]] 0 <= k < r@.len() implies r@[k] < i + 1 && xs[r@[k] as int]
                    == of_kind(t, kind)[k] by {
                    if k < before.len() {
                        assert(r@[k] == before[k]);
                        assert(xs[before[k] as int] == ok[k]);
                        assert(of_kind(t, kind)[k] == ok[k]);
                    } else {
                        assert(k == before.len());
                        assert(r@[k] == i);
                        assert(of_kind(t, kind)[k] == xs[i as int]);
                    }
                }
            }
        } else {
            proof {
                let ok = of_kind(xs.take(i as int), kind);
                assert(of_kind(t, kind) == ok);
                assert forall|k: int| #![trigger r@[k]] 0 <= k < r@.len() implies r@[k] < i + 1 && xs[r@[k] as int]
                    == of_kind(t, kind)[k] by {
                    assert(xs[r@[k] as int] == ok[k]);
                }
            }
        }
        i = i + 1;
    }
    assert(xs.take(i as int) =~= xs);
    r
}

/// The sample description index for `tfhd`.
fn sample_description_index(seg: Option<usize>) -> (r: Result<Option<u32>, MuxError>)
    ensures
        match description_index(seg) {
            Ok(v) => r matches Ok(x) && x == v,
            Err(e) => r matches Err(x) && x@ == e,
        },
{
    match seg {
        Some(i) => {
            if i == 0 {
                Ok(None)
            } else if i >= 0xFFFF_FFFF {
                Err(MuxError::EncodeError(Error::invalid_data("sample_description_index exceeds u32::MAX")))
            } else {
                Ok(Some((i + 1) as u32))
            }
        },
        None => Ok(None),
    }
}

proof fn lemma_run_all_err(kind: TrackKind, ts: u32, st: RunState, xs: Seq<SampleV>, n: int, e: MuxErrorV)
    requires
        0 <= n <= xs.len(),
        run_all(kind, ts, st, xs.take(n)) == Err::<RunState, MuxErrorV>(e),
    ensures
        run_all(kind, ts, st, xs) == Err::<RunState, MuxErrorV>(e),
    decreases xs.len() - n,
{
    if n < xs.len() {
        assert(xs.take(n + 1).drop_last() =~= xs.take(n));
        lemma_run_all_err(kind, ts, st, xs, n + 1, e);
    } else {
        assert(xs.take(n) =~= xs);
    }
}

proof fn lemma_resolve_kind_err(
    tracks0: Seq<TrackV>,
    xs: Seq<SampleV>,
    kind: TrackKind,
    t1: Seq<TrackV>,
    ti: int,
    k: int,
    e: MuxErrorV,
)
    requires
        ensure_track(tracks0, kind, of_kind(xs, kind)[0].timescale) == Ok::<(Seq<TrackV>, int), MuxErrorV>((t1, ti)),
        0 <= k <= of_kind(xs, kind).len(),
        run_all(kind, t1[ti].timescale, run_start(t1[ti]), of_kind(xs, kind).take(k)) == Err::<RunState, MuxErrorV>(e),
    ensures
        resolve_kind(tracks0, xs, kind) == Err::<(Seq<TrackV>, ResolvedV), MuxErrorV>(e),
{
    lemma_run_all_err(kind, t1[ti].timescale, run_start(t1[ti]), of_kind(xs, kind), k, e);
}

spec fn run_view(
    t: TrackEntry,
    current: Option<usize>,
    seg: Option<usize>,
    total: u64,
    expected: Option<u64>,
    first: Option<u64>,
    end: u64,
    out: Seq<RunSample>,
) -> RunState {
    RunState {
        entries: entries_view(t.sample_entries@),
        current,
        segment_entry: seg,
        total,
        expected_offset: expected,
        first_offset: first,
        payload_end: end,
        out,
    }
}

/// Resolves the samples of one kind against its track (added when new).
fn resolve_kind_exec(tracks: &mut Vec<TrackEntry>, samples: &[Sample], kind: TrackKind) -> (r: Result<
    ResolvedSegmentTrack,
    MuxError,
>)
    requires
        old(tracks)@.len() < 0xFFFF_FFFF,
        of_kind(samples_view(samples@), kind).len() > 0,
    ensures
        match resolve_kind(tracks_view(old(tracks)@), samples_view(samples@), kind) {
            Ok((t, rv)) => r matches Ok(x) && x@ == rv && tracks_view(final(tracks)@) == t,
            Err(e) => r matches Err(x) && x@ == e,
        },
{
    let ghost xs = samples_view(samples@);
    let ghost ks = of_kind(xs, kind);
    let ghost tracks0 = tracks_view(tracks@);
    let idxs = kind_indices(samples, kind);
    let first = &samples[idxs[0]];
    assert(xs[idxs@[0] as int] == samples@[idxs@[0] as int]@);
    let ti = match ensure_track_entry(tracks, kind, first.timescale) {
        Ok(i) => i,
        Err(e) => {
            return Err(e);
        },
    };
    let ghost t1 = tracks_view(tracks@);
    let mut t = tracks.remove(ti);
    let ghost t0 = t;
    assert(t1[ti as int] == t0@);
    let ts = t.timescale;
    let mut current = t.current_sample_entry_index;
    let mut seg: Option<usize> = None;
    let mut total: u64 = 0;
    let mut expected: Option<u64> = None;
    let mut first_off: Option<u64> = None;
    let mut end: u64 = 0;
    let mut out: Vec<RunSample> = Vec::new();
    proof {
        assert(ks.take(0) =~= Seq::<SampleV>::empty());
        assert(run_view(t, current, seg, total, expected, first_off, end, out@) =~= run_start(t0@));
    }
    let mut k: usize = 0;
    while k < idxs.len()
        invariant
            k <= idxs@.len(),
            xs == samples_view(samples@),
            ks == of_kind(xs, kind),
            idxs@.len() == ks.len(),
            forall|m: int|
                #![trigger idxs@[m]]
                0 <= m < idxs@.len() ==> idxs@[m] < samples@.len() && xs[idxs@[m] as int] == ks[m],
            ts == t0@.timescale,
            tracks0 == tracks_view(old(tracks)@),
            ensure_track(tracks0, kind, ks[0].timescale) == Ok::<(Seq<TrackV>, int), MuxErrorV>((t1, ti as int)),
            t1[ti as int] == t0@,
            t.track_kind == t0.track_kind,
            t.timescale == t0.timescale,
            t.track_id == t0.track_id,
            t.decode_time == t0.decode_time,
            run_all(kind, ts, run_start(t0@), ks.take(k as int)) == Ok::<RunState, MuxErrorV>(
                run_view(t, current, seg, total, expected, first_off, end, out@),
            ),
            k > 0 ==> first_off is Some,
        decreases idxs@.len() - k,
    {
        let x = &samples[idxs[k]];
        let ghost st = run_view(t, current, seg, total, expected, first_off, end, out@);
        proof {
            assert(xs[idxs@[k as int] as int] == samples@[idxs@[k as int] as int]@);
            let tk = ks.take(k + 1);
            assert(tk.drop_last() =~= ks.take(k as int));
            assert(tk.last() == x@);
        }
        if x.timescale != ts {
            proof {
                assert(run_all(kind, ts, run_start(t0@), ks.take(k + 1)) == run_step(kind, ts, st, x@));
                lemma_resolve_kind_err(tracks0, xs, kind, t1, ti as int, k + 1, MuxErrorV::TimescaleMismatch(kind, ts, x.timescale));
            }
            return Err(MuxError::TimescaleMismatch { track_kind: kind, expected: ts, actual: x.timescale });
        }
        let idx: usize = match &x.sample_entry {
            Some(e) => match find_entry(&t.sample_entries, e) {
                Some(i) => i,
                None => {
                    let ghost before = t.sample_entries@;
                    t.sample_entries.push(sample_entry_clone(e));
                    proof {
                        assert(entries_view(t.sample_entries@) =~= entries_view(before).push(e@));
                    }
                    t.sample_entries.len() - 1
                },
            },
            None => match current {
                Some(c) => c,
                None => {
                    proof {
                assert(run_all(kind, ts, run_start(t0@), ks.take(k + 1)) == run_step(kind, ts, st, x@));
                lemma_resolve_kind_err(tracks0, xs, kind, t1, ti as int, k + 1, MuxErrorV::MissingSampleEntry(kind));
            }
                    return Err(MuxError::MissingSampleEntry { track_kind: kind });
                },
            },
        };
        match seg {
            Some(sidx) => {
                if sidx != idx {
                    proof {
                assert(run_all(kind, ts, run_start(t0@), ks.take(k + 1)) == run_step(kind, ts, st, x@));
                lemma_resolve_kind_err(tracks0, xs, kind, t1, ti as int, k + 1, MuxErrorV::MixedSampleEntries(kind));
            }
                    return Err(MuxError::MixedSampleEntries { track_kind: kind });
                }
            },
            None => {},
        }
        current = Some(idx);
        if total > 0xFFFF_FFFF_FFFF_FFFF - x.duration as u64 {
            proof {
                assert(run_all(kind, ts, run_start(t0@), ks.take(k + 1)) == run_step(kind, ts, st, x@));
                lemma_resolve_kind_err(tracks0, xs, kind, t1, ti as int, k + 1, MuxErrorV::Overflow);
            }
            return Err(MuxError::Overflow);
        }
        total = total + x.duration as u64;
        if first_off.is_none() {
            first_off = Some(x.data_offset);
        }
        match expected {
            Some(eo) => {
                if eo != x.data_offset {
                    proof {
                assert(run_all(kind, ts, run_start(t0@), ks.take(k + 1)) == run_step(kind, ts, st, x@));
                lemma_resolve_kind_err(tracks0, xs, kind, t1, ti as int, k + 1, MuxErrorV::EncodeError(ErrorKind::InvalidInput));
            }
                    return Err(
                        MuxError::EncodeError(
                            Error::invalid_input(
                                "sample data for the same track must be contiguous in the segment payload",
                            ),
                        ),
                    );
                }
            },
            None => {},
        }
        if x.data_offset > 0xFFFF_FFFF_FFFF_FFFF - x.data_size as u64 {
            proof {
                assert(run_all(kind, ts, run_start(t0@), ks.take(k + 1)) == run_step(kind, ts, st, x@));
                lemma_resolve_kind_err(tracks0, xs, kind, t1, ti as int, k + 1, MuxErrorV::Overflow);
            }
            return Err(MuxError::Overflow);
        }
        let next = x.data_offset + x.data_size as u64;
        expected = Some(next);
        end = next;
        seg = Some(idx);
        out.push(
            RunSample {
                duration: x.duration,
                keyframe: x.keyframe,
                composition_time_offset: x.composition_time_offset,
                data_size: x.data_size,
            },
        );
        k = k + 1;
    }
    assert(ks.take(k as int) =~= ks);
    let sdi = match sample_description_index(seg) {
        Ok(v) => v,
        Err(e) => {
            return Err(e);
        },
    };
    t.current_sample_entry_index = current;
    let ghost tv = t@;
    tracks.insert(ti, t);
    proof {
        assert(tracks_view(tracks@) =~= t1.update(ti as int, tv));
    }
    Ok(
        ResolvedSegmentTrack {
            track_index: ti,
            samples: out,
            total_duration: total,
            sample_description_index: sdi,
            first_data_offset: match first_off {
                Some(f) => f,
                None => 0,
            },
            payload_end: end,
        },
    )
}

/// No two tracks have the same kind.
pub open spec fn kinds_distinct(tracks: Seq<TrackV>) -> bool {
    forall|i: int, j: int|
        0 <= i < j < tracks.len() ==> (#[trigger] tracks[i]).track_kind != (#[trigger] tracks[j]).track_kind
}

pub proof fn lemma_kinds_distinct_len(tracks: Seq<TrackV>)
    requires
        kinds_distinct(tracks),
    ensures
        tracks.len() <= 3,
{
    if tracks.len() >= 4 {
        let a = tracks[0];
        let b = tracks[1];
        let c = tracks[2];
        let d = tracks[3];
        assert(a.track_kind != b.track_kind);
        assert(a.track_kind != c.track_kind);
        assert(a.track_kind != d.track_kind);
        assert(b.track_kind != c.track_kind);
        assert(b.track_kind != d.track_kind);
        assert(c.track_kind != d.track_kind);
    }
}

pub proof fn lemma_track_of_none(tracks: Seq<TrackV>, kind: TrackKind)
    requires
        track_of(tracks, kind) is None,
    ensures
        forall|i: int| 0 <= i < tracks.len() ==> (#[trigger] tracks[i]).track_kind != kind,
    decreases tracks.len(),
{
    if tracks.len() > 0 {
        lemma_track_of_none(tracks.drop_last(), kind);
        assert forall|i: int| 0 <= i < tracks.len() implies (#[trigger] tracks[i]).track_kind != kind by {
            if i < tracks.len() - 1 {
                assert(tracks[i] == tracks.drop_last()[i]);
            }
        }
    }
}

pub proof fn lemma_track_of_some(tracks: Seq<TrackV>, kind: TrackKind)
    ensures
        track_of(tracks, kind) matches Some(i) ==> 0 <= i < tracks.len() && tracks[i].track_kind == kind,
    decreases tracks.len(),
{
    if tracks.len() > 0 {
        lemma_track_of_some(tracks.drop_last(), kind);
    }
}

/// Resolving a kind keeps the kinds of the tracks distinct and adds at most one track.
proof fn lemma_resolve_kind_distinct(tracks: Seq<TrackV>, xs: Seq<SampleV>, kind: TrackKind)
    requires
        kinds_distinct(tracks),
    ensures
        resolve_kind(tracks, xs, kind) matches Ok((t, r)) ==> kinds_distinct(t) && tracks.len() <= t.len()
            <= tracks.len() + 1 && 0 <= r.track_index < t.len() && t[r.track_index].track_kind == kind
            && (forall|i: int| 0 <= i < tracks.len() ==> (#[trigger] t[i]).track_kind == tracks[i].track_kind),
{
    let ks = of_kind(xs, kind);
    lemma_track_of_some(tracks, kind);
    match track_of(tracks, kind) {
        Some(i) => {},
        None => {
            lemma_track_of_none(tracks, kind);
            let t1 = ensure_track(tracks, kind, ks[0].timescale)->Ok_0.0;
            assert forall|i: int, j: int| 0 <= i < j < t1.len() implies (#[trigger] t1[i]).track_kind != (#[trigger] t1[j]).track_kind by {
                if j == tracks.len() {
                    assert(t1[i] == tracks[i]);
                } else {
                    assert(t1[i] == tracks[i]);
                    assert(t1[j] == tracks[j]);
                }
            }
        },
    }
    match resolve_kind(tracks, xs, kind) {
        Ok((t, r)) => {
            let (t1, i) = ensure_track(tracks, kind, ks[0].timescale)->Ok_0;
            assert forall|a: int, b: int| 0 <= a < b < t.len() implies (#[trigger] t[a]).track_kind != (#[trigger] t[b]).track_kind by {
                assert(t[a].track_kind == t1[a].track_kind);
                assert(t[b].track_kind == t1[b].track_kind);
            }
        },
        Err(_) => {},
    }
}

proof fn lemma_kinds_of_nonempty(xs: Seq<SampleV>, kind: TrackKind)
    requires
        kinds_of(xs).contains(kind),
    ensures
        of_kind(xs, kind).len() > 0,
    decreases xs.len(),
{
    if xs.len() > 0 {
        if kinds_of(xs.drop_last()).contains(kind) {
            lemma_kinds_of_nonempty(xs.drop_last(), kind);
        }
    }
}

proof fn lemma_resolve_kinds_err(tracks: Seq<TrackV>, xs: Seq<SampleV>, kinds: Seq<TrackKind>, n: int, e: MuxErrorV)
    requires
        0 <= n <= kinds.len(),
        resolve_kinds(tracks, xs, kinds.take(n)) == Err::<(Seq<TrackV>, Seq<ResolvedV>), MuxErrorV>(e),
    ensures
        resolve_kinds(tracks, xs, kinds) == Err::<(Seq<TrackV>, Seq<ResolvedV>), MuxErrorV>(e),
    decreases kinds.len() - n,
{
    if n < kinds.len() {
        assert(kinds.take(n + 1).drop_last() =~= kinds.take(n));
        lemma_resolve_kinds_err(tracks, xs, kinds, n + 1, e);
    } else {
        assert(kinds.take(n) =~= kinds);
    }
}

/// Resolving the kinds in turn keeps the kinds of the tracks distinct, keeps
/// the existing tracks' kinds, and gives one resolved track per kind, on a
/// track of that kind.
proof fn lemma_resolve_kinds_props(tracks: Seq<TrackV>, xs: Seq<SampleV>, kinds: Seq<TrackKind>)
    requires
        kinds_distinct(tracks),
    ensures
        resolve_kinds(tracks, xs, kinds) matches Ok((t, rs)) ==> {
            &&& kinds_distinct(t)
            &&& tracks.len() <= t.len()
            &&& rs.len() == kinds.len()
            &&& forall|i: int| 0 <= i < tracks.len() ==> (#[trigger] t[i]).track_kind == tracks[i].track_kind
            &&& forall|k: int|
                0 <= k < rs.len() ==> 0 <= (#[trigger] rs[k]).track_index < t.len() && t[rs[k].track_index].track_kind
                    == kinds[k]
        },
    decreases kinds.len(),
{
    if kinds.len() > 0 {
        lemma_resolve_kinds_props(tracks, xs, kinds.drop_last());
        match resolve_kinds(tracks, xs, kinds.drop_last()) {
            Ok((t, rs)) => {
                lemma_resolve_kind_distinct(t, xs, kinds.last());
                match resolve_kind(t, xs, kinds.last()) {
                    Ok((t2, r)) => {
                        let rs2 = rs.push(r);
                        assert forall|k: int| 0 <= k < rs2.len() implies 0 <= (#[trigger] rs2[k]).track_index
                            < t2.len() && t2[rs2[k].track_index].track_kind == kinds[k] by {
                            if k < rs.len() {
                                assert(rs2[k] == rs[k]);
                                assert(kinds.drop_last()[k] == kinds[k]);
                                assert(t2[rs[k].track_index].track_kind == t[rs[k].track_index].track_kind);
                            }
                        }
                        assert forall|i: int| 0 <= i < tracks.len() implies (#[trigger] t2[i]).track_kind
                            == tracks[i].track_kind by {
                            assert(t2[i].track_kind == t[i].track_kind);
                        }
                    },
                    Err(_) => {},
                }
            },
            Err(_) => {},
        }
    }
}

/// The track kinds of samples, in order of first appearance, are distinct.
proof fn lemma_kinds_of_distinct(xs: Seq<SampleV>)
    ensures
        forall|i: int, j: int| 0 <= i < j < kinds_of(xs).len() ==> kinds_of(xs)[i] != kinds_of(xs)[j],
    decreases xs.len(),
{
    if xs.len() > 0 {
        lemma_kinds_of_distinct(xs.drop_last());
        let k = kinds_of(xs.drop_last());
        let x = xs.last().track_kind;
        if !k.contains(x) {
            let r = k.push(x);
            assert forall|i: int, j: int| 0 <= i < j < r.len() implies r[i] != r[j] by {
                if j == k.len() {
                    assert(r[i] == k[i]);
                    if r[i] == x {
                        assert(k.contains(x));
                    }
                } else {
                    assert(r[i] == k[i]);
                    assert(r[j] == k[j]);
                }
            }
        }
    }
}

/// A list of distinct track kinds has at most three.
proof fn lemma_distinct_kinds_len(ks: Seq<TrackKind>)
    requires
        forall|i: int, j: int| 0 <= i < j < ks.len() ==> ks[i] != ks[j],
    ensures
        ks.len() <= 3,
{
    if ks.len() >= 4 {
        assert(ks[0] != ks[1]);
        assert(ks[0] != ks[2]);
        assert(ks[0] != ks[3]);
        assert(ks[1] != ks[2]);
        assert(ks[1] != ks[3]);
        assert(ks[2] != ks[3]);
    }
}

/// What a sorted insertion holds: the inserted value and the list's.
proof fn lemma_sorted_insert_elems(s: Seq<ResolvedV>, x: ResolvedV, p: spec_fn(ResolvedV) -> bool)
    requires
        p(x),
        forall|k: int| 0 <= k < s.len() ==> p(#[trigger] s[k]),
    ensures
        sorted_insert(s, x).len() == s.len() + 1,
        forall|k: int| 0 <= k < sorted_insert(s, x).len() ==> p(#[trigger] sorted_insert(s, x)[k]),
    decreases s.len(),
{
    if s.len() > 0 && s.last().first_data_offset > x.first_data_offset {
        let d = s.drop_last();
        assert forall|k: int| 0 <= k < d.len() implies p(#[trigger] d[k]) by {
            assert(d[k] == s[k]);
        }
        lemma_sorted_insert_elems(d, x, p);
        let r = sorted_insert(d, x).push(s.last());
        assert forall|k: int| 0 <= k < r.len() implies p(#[trigger] r[k]) by {
            if k < r.len() - 1 {
                assert(r[k] == sorted_insert(d, x)[k]);
            } else {
                assert(r[k] == s[s.len() - 1]);
            }
        }
    } else if s.len() > 0 {
        assert forall|k: int| 0 <= k < s.push(x).len() implies p(#[trigger] s.push(x)[k]) by {
            if k < s.len() {
                assert(s.push(x)[k] == s[k]);
            }
        }
    }
}

/// Sorting keeps the length, and what holds of every resolved track.
pub proof fn lemma_sort_elems(s: Seq<ResolvedV>, p: spec_fn(ResolvedV) -> bool)
    requires
        forall|k: int| 0 <= k < s.len() ==> p(#[trigger] s[k]),
    ensures
        sort_by_offset(s).len() == s.len(),
        forall|k: int| 0 <= k < sort_by_offset(s).len() ==> p(#[trigger] sort_by_offset(s)[k]),
    decreases s.len(),
{
    if s.len() > 0 {
        let d = s.drop_last();
        assert forall|k: int| 0 <= k < d.len() implies p(#[trigger] d[k]) by {
            assert(d[k] == s[k]);
        }
        lemma_sort_elems(d, p);
        lemma_sorted_insert_elems(sort_by_offset(d), s.last(), p);
    }
}

/// The tracks are numbered from 1 in the order they were first seen.
pub open spec fn ids_in_order(tracks: Seq<TrackV>) -> bool {
    forall|i: int| 0 <= i < tracks.len() ==> (#[trigger] tracks[i]).track_id == i + 1
}

proof fn lemma_resolve_kind_ids(tracks: Seq<TrackV>, xs: Seq<SampleV>, kind: TrackKind)
    requires
        ids_in_order(tracks),
        kinds_distinct(tracks),
    ensures
        resolve_kind(tracks, xs, kind) matches Ok((t, r)) ==> ids_in_order(t),
{
    let ks = of_kind(xs, kind);
    lemma_track_of_some(tracks, kind);
    lemma_kinds_distinct_len(tracks);
    match ensure_track(tracks, kind, ks[0].timescale) {
        Ok((t1, i)) => {
            assert(ids_in_order(t1)) by {
                assert forall|j: int| 0 <= j < t1.len() implies (#[trigger] t1[j]).track_id == j + 1 by {
                    if j < tracks.len() {
                        assert(t1[j] == tracks[j]);
                    }
                }
            }
            match resolve_kind(tracks, xs, kind) {
                Ok((t, r)) => {
                    assert forall|j: int| 0 <= j < t.len() implies (#[trigger] t[j]).track_id == j + 1 by {
                        assert(t1[j].track_id == j + 1);
                    }
                },
                Err(_) => {},
            }
        },
        Err(_) => {},
    }
}

proof fn lemma_resolve_kinds_ids(tracks: Seq<TrackV>, xs: Seq<SampleV>, kinds: Seq<TrackKind>)
    requires
        ids_in_order(tracks),
        kinds_distinct(tracks),
    ensures
        resolve_kinds(tracks, xs, kinds) matches Ok((t, rs)) ==> ids_in_order(t),
    decreases kinds.len(),
{
    if kinds.len() > 0 {
        lemma_resolve_kinds_ids(tracks, xs, kinds.drop_last());
        lemma_resolve_kinds_props(tracks, xs, kinds.drop_last());
        match resolve_kinds(tracks, xs, kinds.drop_last()) {
            Ok((t, rs)) => {
                lemma_resolve_kind_ids(t, xs, kinds.last());
            },
            Err(_) => {},
        }
    }
}

/// Resolving a segment keeps the tracks numbered from 1 in the order they
/// were first seen.
pub proof fn lemma_resolve_segment_ids(tracks: Seq<TrackV>, xs: Seq<SampleV>)
    requires
        ids_in_order(tracks),
        kinds_distinct(tracks),
    ensures
        resolve_segment(tracks, xs) matches Ok((t, rs)) ==> ids_in_order(t),
{
    reveal(resolve_segment);
    lemma_resolve_kinds_ids(tracks, xs, kinds_of(xs));
}

/// The resolved tracks are in order of first data offset.
pub open spec fn offsets_sorted(s: Seq<ResolvedV>) -> bool {
    forall|a: int, b: int| 0 <= a <= b < s.len() ==> (#[trigger] s[a]).first_data_offset <= (#[trigger] s[b]).first_data_offset
}

proof fn lemma_sorted_insert_sorted(s: Seq<ResolvedV>, x: ResolvedV)
    requires
        offsets_sorted(s),
    ensures
        offsets_sorted(sorted_insert(s, x)),
    decreases s.len(),
{
    if s.len() > 0 && s.last().first_data_offset > x.first_data_offset {
        let d = s.drop_last();
        assert(offsets_sorted(d)) by {
            assert forall|a: int, b: int| 0 <= a <= b < d.len() implies (#[trigger] d[a]).first_data_offset
                <= (#[trigger] d[b]).first_data_offset by {
                assert(d[a] == s[a] && d[b] == s[b]);
            }
        }
        lemma_sorted_insert_sorted(d, x);
        let top = s.last().first_data_offset;
        let p = |r: ResolvedV| r.first_data_offset <= top;
        assert forall|k: int| 0 <= k < d.len() implies p(#[trigger] d[k]) by {
            assert(d[k] == s[k]);
        }
        lemma_sorted_insert_elems(d, x, p);
        let i = sorted_insert(d, x);
        let r = i.push(s.last());
        assert forall|a: int, b: int| 0 <= a <= b < r.len() implies (#[trigger] r[a]).first_data_offset
            <= (#[trigger] r[b]).first_data_offset by {
            if b < r.len() - 1 {
                assert(r[a] == i[a] && r[b] == i[b]);
            } else if a < r.len() - 1 {
                assert(r[a] == i[a]);
                assert(p(i[a]));
            }
        }
    } else if s.len() > 0 {
        let r = s.push(x);
        assert forall|a: int, b: int| 0 <= a <= b < r.len() implies (#[trigger] r[a]).first_data_offset
            <= (#[trigger] r[b]).first_data_offset by {
            if b < r.len() - 1 {
                assert(r[a] == s[a] && r[b] == s[b]);
            } else if a < r.len() - 1 {
                assert(r[a] == s[a]);
                assert(s[a].first_data_offset <= s[s.len() - 1].first_data_offset);
            }
        }
    }
}

/// Sorting puts the resolved tracks in order of first data offset.
proof fn lemma_sort_sorted(s: Seq<ResolvedV>)
    ensures
        offsets_sorted(sort_by_offset(s)),
    decreases s.len(),
{
    if s.len() > 0 {
        lemma_sort_sorted(s.drop_last());
        lemma_sorted_insert_sorted(sort_by_offset(s.drop_last()), s.last());
    }
}

/// The entry of a sample in `trun`: its duration, keyframe flag, composition
/// time offset and size.
pub open spec fn run_sample_of(x: SampleV) -> RunSample {
    RunSample {
        duration: x.duration,
        keyframe: x.keyframe,
        composition_time_offset: x.composition_time_offset,
        data_size: x.data_size,
    }
}

/// The `trun` entries of samples, in order.
pub open spec fn run_samples_of(xs: Seq<SampleV>) -> Seq<RunSample> {
    Seq::new(xs.len(), |j: int| run_sample_of(xs[j]))
}

proof fn lemma_run_all_out(kind: TrackKind, ts: u32, st: RunState, xs: Seq<SampleV>)
    ensures
        run_all(kind, ts, st, xs) matches Ok(s2) ==> s2.out == st.out + run_samples_of(xs),
    decreases xs.len(),
{
    if xs.len() > 0 {
        lemma_run_all_out(kind, ts, st, xs.drop_last());
        match run_all(kind, ts, st, xs.drop_last()) {
            Ok(s1) => {
                assert(run_samples_of(xs) =~= run_samples_of(xs.drop_last()).push(run_sample_of(xs.last())));
                assert((st.out + run_samples_of(xs.drop_last())).push(run_sample_of(xs.last())) =~= st.out
                    + run_samples_of(xs));
            },
            Err(_) => {},
        }
    }
}

proof fn lemma_resolve_kinds_samples(tracks: Seq<TrackV>, xs: Seq<SampleV>, kinds: Seq<TrackKind>)
    ensures
        resolve_kinds(tracks, xs, kinds) matches Ok((t, rs)) ==> rs.len() == kinds.len() && forall|k: int|
            0 <= k < rs.len() ==> (#[trigger] rs[k]).samples == run_samples_of(of_kind(xs, kinds[k])),
    decreases kinds.len(),
{
    if kinds.len() > 0 {
        let kd = kinds.drop_last();
        lemma_resolve_kinds_samples(tracks, xs, kd);
        match resolve_kinds(tracks, xs, kd) {
            Ok((t, rs)) => {
                let kind = kinds.last();
                let ks = of_kind(xs, kind);
                match ensure_track(t, kind, ks[0].timescale) {
                    Ok((t1, i)) => {
                        lemma_run_all_out(kind, t1[i].timescale, run_start(t1[i]), ks);
                        assert(Seq::<RunSample>::empty() + run_samples_of(ks) =~= run_samples_of(ks));
                    },
                    Err(_) => {},
                }
                match resolve_kind(t, xs, kind) {
                    Ok((t2, r)) => {
                        let rs2 = rs.push(r);
                        assert forall|k: int| 0 <= k < rs2.len() implies (#[trigger] rs2[k]).samples == run_samples_of(
                            of_kind(xs, kinds[k]),
                        ) by {
                            if k < rs.len() {
                                assert(rs2[k] == rs[k]);
                                assert(kd[k] == kinds[k]);
                            }
                        }
                    },
                    Err(_) => {},
                }
            },
            Err(_) => {},
        }
    }
}

/// Resolving a segment orders the resolved tracks by first data offset, and
/// each holds the `trun` entries of its kind's samples, in the order of the
/// samples.
pub proof fn lemma_resolve_segment_samples(tracks: Seq<TrackV>, xs: Seq<SampleV>)
    requires
        kinds_distinct(tracks),
    ensures
        resolve_segment(tracks, xs) matches Ok((t, rs)) ==> {
            &&& offsets_sorted(rs)
            &&& forall|k: int|
                0 <= k < rs.len() ==> (#[trigger] rs[k]).samples == run_samples_of(
                    of_kind(xs, t[rs[k].track_index].track_kind),
                )
        },
{
    reveal(resolve_segment);
    let kinds = kinds_of(xs);
    lemma_resolve_kinds_samples(tracks, xs, kinds);
    lemma_resolve_kinds_props(tracks, xs, kinds);
    match resolve_kinds(tracks, xs, kinds) {
        Ok((t, rs)) => {
            let p = |r: ResolvedV| r.samples == run_samples_of(of_kind(xs, t[r.track_index].track_kind));
            assert forall|k: int| 0 <= k < rs.len() implies p(#[trigger] rs[k]) by {}
            lemma_sort_elems(rs, p);
            lemma_sort_sorted(rs);
        },
        Err(_) => {},
    }
}

/// Sum of the durations of the samples.
pub open spec fn durations(xs: Seq<SampleV>) -> int
    decreases xs.len(),
{
    if xs.len() == 0 {
        0
    } else {
        durations(xs.drop_last()) + xs.last().duration
    }
}

/// Resolving samples adds their durations to the total.
proof fn lemma_run_all_total(kind: TrackKind, ts: u32, st: RunState, xs: Seq<SampleV>)
    ensures
        run_all(kind, ts, st, xs) matches Ok(s2) ==> s2.total == st.total + durations(xs),
    decreases xs.len(),
{
    if xs.len() > 0 {
        lemma_run_all_total(kind, ts, st, xs.drop_last());
    }
}

/// Resolving a kind: its total duration is that of its samples, and the
/// tracks keep their decode times (a new track starts at 0).
proof fn lemma_resolve_kind_times(tracks: Seq<TrackV>, xs: Seq<SampleV>, kind: TrackKind)
    ensures
        resolve_kind(tracks, xs, kind) matches Ok((t, r)) ==> r.total_duration == durations(of_kind(xs, kind))
            && tracks.len() <= t.len() && forall|i: int|
            0 <= i < t.len() ==> (#[trigger] t[i]).decode_time == if i < tracks.len() {
                tracks[i].decode_time
            } else {
                0
            },
{
    let ks = of_kind(xs, kind);
    lemma_track_of_some(tracks, kind);
    match ensure_track(tracks, kind, ks[0].timescale) {
        Ok((t1, i)) => {
            assert(0 <= i < t1.len());
            lemma_run_all_total(kind, t1[i].timescale, run_start(t1[i]), ks);
            match run_all(kind, t1[i].timescale, run_start(t1[i]), ks) {
                Ok(st) => match description_index(st.segment_entry) {
                    Ok(sdi) => {
                        let tr = t1[i];
                        let t = t1.update(i, TrackV { sample_entries: st.entries, current: st.current, ..tr });
                        assert(resolve_kind(tracks, xs, kind) matches Ok((tt, _)) && tt == t);
                        assert forall|a: int| 0 <= a < t.len() implies (#[trigger] t[a]).decode_time == if a
                            < tracks.len() {
                            tracks[a].decode_time
                        } else {
                            0
                        } by {
                            assert(t[a].decode_time == t1[a].decode_time);
                            if a < tracks.len() {
                                assert(t1[a] == tracks[a]);
                            }
                        }
                    },
                    Err(_) => {},
                },
                Err(_) => {},
            }
        },
        Err(_) => {},
    }
}

/// Resolving the kinds in turn: each resolved track's total duration is
/// that of its kind's samples, and the tracks keep their decode times.
proof fn lemma_resolve_kinds_times(tracks: Seq<TrackV>, xs: Seq<SampleV>, kinds: Seq<TrackKind>)
    ensures
        resolve_kinds(tracks, xs, kinds) matches Ok((t, rs)) ==> {
            &&& tracks.len() <= t.len()
            &&& rs.len() == kinds.len()
            &&& forall|k: int| 0 <= k < rs.len() ==> (#[trigger] rs[k]).total_duration == durations(of_kind(xs, kinds[k]))
            &&& forall|i: int|
                0 <= i < t.len() ==> (#[trigger] t[i]).decode_time == if i < tracks.len() {
                    tracks[i].decode_time
                } else {
                    0
                }
        },
    decreases kinds.len(),
{
    if kinds.len() > 0 {
        lemma_resolve_kinds_times(tracks, xs, kinds.drop_last());
        match resolve_kinds(tracks, xs, kinds.drop_last()) {
            Ok((t, rs)) => {
                lemma_resolve_kind_times(t, xs, kinds.last());
                match resolve_kind(t, xs, kinds.last()) {
                    Ok((t2, r)) => {
                        let rs2 = rs.push(r);
                        assert forall|k: int| 0 <= k < rs2.len() implies (#[trigger] rs2[k]).total_duration
                            == durations(of_kind(xs, kinds[k])) by {
                            if k < rs.len() {
                                assert(rs2[k] == rs[k]);
                                assert(kinds.drop_last()[k] == kinds[k]);
                            }
                        }
                        assert forall|i: int| 0 <= i < t2.len() implies (#[trigger] t2[i]).decode_time == if i
                            < tracks.len() {
                            tracks[i].decode_time
                        } else {
                            0
                        } by {
                            if i < t.len() {
                                assert(t2[i].decode_time == t[i].decode_time);
                            }
                        }
                    },
                    Err(_) => {},
                }
            },
            Err(_) => {},
        }
    }
}

/// A sorted insertion holds the list's values and the inserted one.
proof fn lemma_sorted_insert_ms(s: Seq<ResolvedV>, x: ResolvedV)
    ensures
        sorted_insert(s, x).to_multiset() == s.to_multiset().insert(x),
    decreases s.len(),
{
    broadcast use vstd::seq_lib::group_to_multiset_ensures;

    if s.len() == 0 {
        assert(seq![x] =~= s.push(x));
    } else if s.last().first_data_offset <= x.first_data_offset {
    } else {
        let d = s.drop_last();
        lemma_sorted_insert_ms(d, x);
        assert(s =~= d.push(s.last()));
        assert(sorted_insert(s, x).to_multiset() =~= s.to_multiset().insert(x));
    }
}

/// Sorting keeps the values.
proof fn lemma_sort_ms(s: Seq<ResolvedV>)
    ensures
        sort_by_offset(s).to_multiset() == s.to_multiset(),
    decreases s.len(),
{
    broadcast use vstd::seq_lib::group_to_multiset_ensures;

    if s.len() > 0 {
        let d = s.drop_last();
        lemma_sort_ms(d);
        lemma_sorted_insert_ms(sort_by_offset(d), s.last());
        assert(s =~= d.push(s.last()));
    }
}

/// Sorting keeps a relation that holds between any two different entries.
proof fn lemma_sort_pairwise(s: Seq<ResolvedV>, r: spec_fn(ResolvedV, ResolvedV) -> bool)
    requires
        forall|a: int, b: int| 0 <= a < s.len() && 0 <= b < s.len() && a != b ==> r(s[a], s[b]),
    ensures
        forall|a: int, b: int|
            0 <= a < sort_by_offset(s).len() && 0 <= b < sort_by_offset(s).len() && a != b ==> r(
                sort_by_offset(s)[a],
                sort_by_offset(s)[b],
            ),
    decreases s.len(),
{
    lemma_sort_elems(s, |y: ResolvedV| true);
    if s.len() > 0 {
        let d = s.drop_last();
        let x = s.last();
        assert forall|a: int, b: int| 0 <= a < d.len() && 0 <= b < d.len() && a != b implies r(d[a], d[b]) by {
            assert(d[a] == s[a]);
            assert(d[b] == s[b]);
        }
        lemma_sort_pairwise(d, r);
        let sd = sort_by_offset(d);
        let px = |y: ResolvedV| r(y, x) && r(x, y);
        assert forall|k: int| 0 <= k < d.len() implies px(#[trigger] d[k]) by {
            assert(d[k] == s[k]);
            assert(r(s[k], s[s.len() - 1]));
            assert(r(s[s.len() - 1], s[k]));
        }
        lemma_sort_elems(d, px);
        lemma_sorted_insert_pairwise(sd, x, r);
    }
}

proof fn lemma_sorted_insert_pairwise(s: Seq<ResolvedV>, x: ResolvedV, r: spec_fn(ResolvedV, ResolvedV) -> bool)
    requires
        forall|a: int, b: int| 0 <= a < s.len() && 0 <= b < s.len() && a != b ==> r(s[a], s[b]),
        forall|k: int| 0 <= k < s.len() ==> r(#[trigger] s[k], x) && r(x, s[k]),
    ensures
        forall|a: int, b: int|
            0 <= a < sorted_insert(s, x).len() && 0 <= b < sorted_insert(s, x).len() && a != b ==> r(
                sorted_insert(s, x)[a],
                sorted_insert(s, x)[b],
            ),
    decreases s.len(),
{
    lemma_sorted_insert_elems(s, x, |y: ResolvedV| true);
    if s.len() > 0 && s.last().first_data_offset > x.first_data_offset {
        let d = s.drop_last();
        assert forall|a: int, b: int| 0 <= a < d.len() && 0 <= b < d.len() && a != b implies r(d[a], d[b]) by {
            assert(d[a] == s[a]);
            assert(d[b] == s[b]);
        }
        assert forall|k: int| 0 <= k < d.len() implies r(#[trigger] d[k], x) && r(x, d[k]) by {
            assert(d[k] == s[k]);
        }
        lemma_sorted_insert_pairwise(d, x, r);
        let si = sorted_insert(d, x);
        let l = s.last();
        let py = |y: ResolvedV| r(y, l) && r(l, y);
        assert(py(x));
        assert forall|k: int| 0 <= k < d.len() implies py(#[trigger] d[k]) by {
            assert(d[k] == s[k]);
            assert(r(s[k], s[s.len() - 1]));
            assert(r(s[s.len() - 1], s[k]));
        }
        lemma_sorted_insert_elems(d, x, py);
        let res = si.push(l);
        assert forall|a: int, b: int| 0 <= a < res.len() && 0 <= b < res.len() && a != b implies r(
            res[a],
            res[b],
        ) by {
            if a < si.len() && b < si.len() {
                assert(res[a] == si[a]);
                assert(res[b] == si[b]);
            } else if a < si.len() {
                assert(res[a] == si[a]);
                assert(py(si[a]));
            } else {
                assert(res[b] == si[b]);
                assert(py(si[b]));
            }
        }
    } else if s.len() > 0 {
        let res = s.push(x);
        assert forall|a: int, b: int| 0 <= a < res.len() && 0 <= b < res.len() && a != b implies r(
            res[a],
            res[b],
        ) by {
            if a < s.len() && b < s.len() {
                assert(res[a] == s[a]);
                assert(res[b] == s[b]);
            } else if a < s.len() {
                assert(res[a] == s[a]);
            } else {
                assert(res[b] == s[b]);
            }
        }
    }
}

/// The first kind of the samples is that of the first sample.
proof fn lemma_kinds_of_first(xs: Seq<SampleV>)
    requires
        xs.len() > 0,
    ensures
        kinds_of(xs).len() > 0,
        kinds_of(xs)[0] == xs[0].track_kind,
    decreases xs.len(),
{
    if xs.len() > 1 {
        lemma_kinds_of_first(xs.drop_last());
        assert(xs.drop_last()[0] == xs[0]);
        let k = kinds_of(xs.drop_last());
        let x = xs.last().track_kind;
        if !k.contains(x) {
            assert(k.push(x)[0] == k[0]);
        }
    } else {
        assert(xs.drop_last() =~= Seq::<SampleV>::empty());
        let k = kinds_of(xs.drop_last());
        let x = xs.last().track_kind;
        assert(k.len() == 0);
        assert(!k.contains(x));
        assert(kinds_of(xs) == k.push(x));
        assert(k.push(x)[0] == x);
    }
}

/// Tracks of the same kinds, index by index, have the same first track of a kind.
pub proof fn lemma_track_of_same_kinds(a: Seq<TrackV>, b: Seq<TrackV>, kind: TrackKind)
    requires
        a.len() == b.len(),
        forall|i: int| 0 <= i < a.len() ==> (#[trigger] a[i]).track_kind == b[i].track_kind,
    ensures
        track_of(a, kind) == track_of(b, kind),
    decreases a.len(),
{
    if a.len() > 0 {
        let da = a.drop_last();
        let db = b.drop_last();
        assert forall|i: int| 0 <= i < da.len() implies (#[trigger] da[i]).track_kind == db[i].track_kind by {
            assert(da[i] == a[i]);
            assert(db[i] == b[i]);
        }
        lemma_track_of_same_kinds(da, db, kind);
    }
}

/// What resolving a segment gives: distinct track kinds, the existing tracks
/// kept in place with their kinds, at most three resolved tracks, each on a
/// track.
pub proof fn lemma_resolve_segment_props(tracks: Seq<TrackV>, xs: Seq<SampleV>)
    requires
        kinds_distinct(tracks),
    ensures
        resolve_segment(tracks, xs) matches Ok((t, rs)) ==> {
            &&& kinds_distinct(t)
            &&& tracks.len() <= t.len()
            &&& rs.len() <= 3
            &&& rs.len() == kinds_of(xs).len()
            &&& forall|i: int| 0 <= i < tracks.len() ==> (#[trigger] t[i]).track_kind == tracks[i].track_kind
            &&& forall|k: int| 0 <= k < rs.len() ==> 0 <= (#[trigger] rs[k]).track_index < t.len()
            &&& xs.len() > 0 ==> track_of(t, xs[0].track_kind) is Some
        },
{
    reveal(resolve_segment);
    lemma_resolve_kinds_props(tracks, xs, kinds_of(xs));
    if xs.len() > 0 {
        lemma_kinds_of_first(xs);
        match resolve_kinds(tracks, xs, kinds_of(xs)) {
            Ok((t, rs)) => {
                let i = rs[0].track_index;
                assert(t[i].track_kind == xs[0].track_kind);
                if track_of(t, xs[0].track_kind) is None {
                    lemma_track_of_none(t, xs[0].track_kind);
                }
            },
            Err(_) => {},
        }
    }
    lemma_resolve_kinds_props(tracks, xs, kinds_of(xs));
    lemma_kinds_of_distinct(xs);
    lemma_distinct_kinds_len(kinds_of(xs));
    match resolve_kinds(tracks, xs, kinds_of(xs)) {
        Ok((t, rs)) => {
            let p = |r: ResolvedV| 0 <= r.track_index < t.len();
            assert forall|k: int| 0 <= k < rs.len() implies p(#[trigger] rs[k]) by {}
            lemma_sort_elems(rs, p);
        },
        Err(_) => {},
    }
}

/// What resolving a segment gives of durations and decode times: each
/// resolved track's total is the sum of the durations of its kind's samples,
/// on a track of a kind of the samples; no two resolved tracks share a
/// track; every kind of the samples has its resolved track; and the tracks
/// keep their decode times (a new one starts at 0).
pub proof fn lemma_resolve_segment_times(tracks: Seq<TrackV>, xs: Seq<SampleV>)
    requires
        kinds_distinct(tracks),
    ensures
        resolve_segment(tracks, xs) matches Ok((t, rs)) ==> {
            &&& forall|k: int|
                0 <= k < rs.len() ==> 0 <= (#[trigger] rs[k]).track_index < t.len() && rs[k].total_duration
                    == durations(of_kind(xs, t[rs[k].track_index].track_kind)) && kinds_of(xs).contains(
                    t[rs[k].track_index].track_kind,
                )
            &&& forall|a: int, b: int|
                0 <= a < rs.len() && 0 <= b < rs.len() && a != b ==> (#[trigger] rs[a]).track_index
                    != (#[trigger] rs[b]).track_index
            &&& forall|kind: TrackKind|
                #[trigger] kinds_of(xs).contains(kind) ==> exists|k: int|
                    0 <= k < rs.len() && t[(#[trigger] rs[k]).track_index].track_kind == kind
            &&& forall|i: int|
                0 <= i < t.len() ==> (#[trigger] t[i]).decode_time == if i < tracks.len() {
                    tracks[i].decode_time
                } else {
                    0
                }
        },
{
    reveal(resolve_segment);
    let kinds = kinds_of(xs);
    lemma_resolve_kinds_props(tracks, xs, kinds);
    lemma_resolve_kinds_times(tracks, xs, kinds);
    lemma_kinds_of_distinct(xs);
    match resolve_kinds(tracks, xs, kinds) {
        Ok((t, rs)) => {
            let sorted = sort_by_offset(rs);
            let p = |r: ResolvedV|
                0 <= r.track_index < t.len() && r.total_duration == durations(of_kind(xs, t[r.track_index].track_kind))
                    && kinds.contains(t[r.track_index].track_kind);
            assert forall|k: int| 0 <= k < rs.len() implies p(#[trigger] rs[k]) by {
                assert(kinds.contains(kinds[k]));
            }
            lemma_sort_elems(rs, p);
            let rel = |x: ResolvedV, y: ResolvedV| x.track_index != y.track_index;
            assert forall|a: int, b: int| 0 <= a < rs.len() && 0 <= b < rs.len() && a != b implies rel(
                rs[a],
                rs[b],
            ) by {
                assert(kinds[a] != kinds[b]);
            }
            lemma_sort_pairwise(rs, rel);
            lemma_sort_ms(rs);
            assert forall|kind: TrackKind| #[trigger] kinds.contains(kind) implies exists|k: int|
                0 <= k < sorted.len() && t[(#[trigger] sorted[k]).track_index].track_kind == kind by {
                broadcast use vstd::seq_lib::group_to_multiset_ensures;

                let j = choose|j: int| 0 <= j < kinds.len() && kinds[j] == kind;
                assert(rs.contains(rs[j]));
                assert(rs.to_multiset().count(rs[j]) > 0);
                assert(sorted.contains(rs[j]));
                let k = choose|k: int| 0 <= k < sorted.len() && sorted[k] == rs[j];
                assert(t[sorted[k].track_index].track_kind == kind);
            }
            if contiguous(sorted) {
                assert forall|a: int, b: int| 0 <= a < sorted.len() && 0 <= b < sorted.len() && a != b implies (
                #[trigger] sorted[a]).track_index != (#[trigger] sorted[b]).track_index by {
                    assert(rel(sorted[a], sorted[b]));
                }
                assert forall|k: int| 0 <= k < sorted.len() implies 0 <= (#[trigger] sorted[k]).track_index < t.len()
                    && sorted[k].total_duration == durations(of_kind(xs, t[sorted[k].track_index].track_kind))
                    && kinds_of(xs).contains(t[sorted[k].track_index].track_kind) by {
                    assert(p(sorted[k]));
                }
            }
        },
        Err(_) => {},
    }
}

/// Every sample entry the samples carry is among `es`.
pub open spec fn carries(xs: Seq<SampleV>, es: Seq<SampleEntryV>) -> bool {
    forall|j: int| 0 <= j < xs.len() && (#[trigger] xs[j]).sample_entry is Some ==> es.contains(xs[j].sample_entry->0)
}

proof fn lemma_prefix_trans(a: Seq<SampleEntryV>, b: Seq<SampleEntryV>, c: Seq<SampleEntryV>)
    requires
        a.is_prefix_of(b),
        b.is_prefix_of(c),
    ensures
        a.is_prefix_of(c),
{
    assert forall|k: int| 0 <= k < a.len() implies a[k] == c[k] by {
        assert(a[k] == b.subrange(0, a.len() as int)[k]);
        assert(b[k] == c.subrange(0, b.len() as int)[k]);
    }
    assert(a =~= c.subrange(0, a.len() as int));
}

proof fn lemma_prefix_carries(xs: Seq<SampleV>, a: Seq<SampleEntryV>, b: Seq<SampleEntryV>)
    requires
        carries(xs, a),
        a.is_prefix_of(b),
    ensures
        carries(xs, b),
{
    assert forall|j: int| 0 <= j < xs.len() && (#[trigger] xs[j]).sample_entry is Some implies b.contains(
        xs[j].sample_entry->0,
    ) by {
        let k = choose|k: int| 0 <= k < a.len() && a[k] == xs[j].sample_entry->0;
        assert(a[k] == b.subrange(0, a.len() as int)[k]);
    }
}

proof fn lemma_entry_index_some(es: Seq<SampleEntryV>, e: SampleEntryV)
    ensures
        entry_index(es, e) matches Some(i) ==> 0 <= i < es.len() && es[i] == e,
    decreases es.len(),
{
    if es.len() > 0 {
        lemma_entry_index_some(es.drop_last(), e);
    }
}

/// Resolving samples keeps the entries known before and holds every entry
/// the samples carry.
proof fn lemma_run_all_entries(kind: TrackKind, ts: u32, st: RunState, xs: Seq<SampleV>)
    ensures
        run_all(kind, ts, st, xs) matches Ok(s2) ==> st.entries.is_prefix_of(s2.entries) && carries(xs, s2.entries),
    decreases xs.len(),
{
    if xs.len() > 0 {
        let d = xs.drop_last();
        lemma_run_all_entries(kind, ts, st, d);
        match run_all(kind, ts, st, d) {
            Ok(s1) => {
                let x = xs.last();
                match run_step(kind, ts, s1, x) {
                    Ok(s2) => {
                        assert(s1.entries.is_prefix_of(s2.entries)) by {
                            match x.sample_entry {
                                Some(e) => {
                                    if entry_index(s1.entries, e) is None {
                                        assert(s1.entries =~= s1.entries.push(e).subrange(0, s1.entries.len() as int));
                                    } else {
                                        assert(s1.entries =~= s1.entries.subrange(0, s1.entries.len() as int));
                                    }
                                },
                                None => {
                                    assert(s1.entries =~= s1.entries.subrange(0, s1.entries.len() as int));
                                },
                            }
                        }
                        lemma_prefix_trans(st.entries, s1.entries, s2.entries);
                        lemma_prefix_carries(d, s1.entries, s2.entries);
                        assert forall|j: int| 0 <= j < xs.len() && (#[trigger] xs[j]).sample_entry is Some implies s2.entries.contains(
                            xs[j].sample_entry->0,
                        ) by {
                            if j < d.len() {
                                assert(xs[j] == d[j]);
                            } else {
                                let e = x.sample_entry->0;
                                lemma_entry_index_some(s1.entries, e);
                                match entry_index(s1.entries, e) {
                                    Some(k) => {
                                        assert(s2.entries[k] == e);
                                    },
                                    None => {
                                        assert(s2.entries[s1.entries.len() as int] == e);
                                    },
                                }
                            }
                        }
                    },
                    Err(_) => {},
                }
            },
            Err(_) => {},
        }
    }
}

/// Resolving a kind keeps every track's entries as a prefix, and its track
/// holds every entry its samples carry.
proof fn lemma_resolve_kind_entries(tracks: Seq<TrackV>, xs: Seq<SampleV>, kind: TrackKind)
    ensures
        resolve_kind(tracks, xs, kind) matches Ok((t, r)) ==> {
            &&& tracks.len() <= t.len()
            &&& forall|i: int|
                0 <= i < tracks.len() ==> (#[trigger] tracks[i]).sample_entries.is_prefix_of(t[i].sample_entries)
            &&& 0 <= r.track_index < t.len()
            &&& carries(of_kind(xs, kind), t[r.track_index].sample_entries)
        },
{
    let ks = of_kind(xs, kind);
    lemma_track_of_some(tracks, kind);
    match ensure_track(tracks, kind, ks[0].timescale) {
        Ok((t1, i)) => {
            assert(0 <= i < t1.len());
            lemma_run_all_entries(kind, t1[i].timescale, run_start(t1[i]), ks);
            match run_all(kind, t1[i].timescale, run_start(t1[i]), ks) {
                Ok(st) => match description_index(st.segment_entry) {
                    Ok(sdi) => {
                        let tr = t1[i];
                        let t = t1.update(i, TrackV { sample_entries: st.entries, current: st.current, ..tr });
                        assert(resolve_kind(tracks, xs, kind) matches Ok((tt, rr)) && tt == t && rr.track_index == i);
                        assert forall|a: int| 0 <= a < tracks.len() implies (#[trigger] tracks[a]).sample_entries.is_prefix_of(
                            t[a].sample_entries,
                        ) by {
                            assert(t1[a] == tracks[a]);
                            if a == i {
                                assert(t[a].sample_entries == st.entries);
                            } else {
                                assert(t[a] == tracks[a]);
                                assert(tracks[a].sample_entries =~= tracks[a].sample_entries.subrange(
                                    0,
                                    tracks[a].sample_entries.len() as int,
                                ));
                            }
                        }
                    },
                    Err(_) => {},
                },
                Err(_) => {},
            }
        },
        Err(_) => {},
    }
}

/// Resolving the kinds in turn keeps every track's entries as a prefix,
/// and each kind's track holds every entry its samples carry.
proof fn lemma_resolve_kinds_entries(tracks: Seq<TrackV>, xs: Seq<SampleV>, kinds: Seq<TrackKind>)
    ensures
        resolve_kinds(tracks, xs, kinds) matches Ok((t, rs)) ==> {
            &&& tracks.len() <= t.len()
            &&& rs.len() == kinds.len()
            &&& forall|i: int|
                0 <= i < tracks.len() ==> (#[trigger] tracks[i]).sample_entries.is_prefix_of(t[i].sample_entries)
            &&& forall|k: int|
                0 <= k < rs.len() ==> 0 <= (#[trigger] rs[k]).track_index < t.len() && carries(
                    of_kind(xs, kinds[k]),
                    t[rs[k].track_index].sample_entries,
                )
        },
    decreases kinds.len(),
{
    if kinds.len() > 0 {
        lemma_resolve_kinds_entries(tracks, xs, kinds.drop_last());
        match resolve_kinds(tracks, xs, kinds.drop_last()) {
            Ok((t, rs)) => {
                lemma_resolve_kind_entries(t, xs, kinds.last());
                match resolve_kind(t, xs, kinds.last()) {
                    Ok((t2, r)) => {
                        let rs2 = rs.push(r);
                        assert forall|i: int| 0 <= i < tracks.len() implies (#[trigger] tracks[i]).sample_entries.is_prefix_of(
                            t2[i].sample_entries,
                        ) by {
                            lemma_prefix_trans(tracks[i].sample_entries, t[i].sample_entries, t2[i].sample_entries);
                        }
                        assert forall|k: int| 0 <= k < rs2.len() implies 0 <= (#[trigger] rs2[k]).track_index < t2.len()
                            && carries(of_kind(xs, kinds[k]), t2[rs2[k].track_index].sample_entries) by {
                            if k < rs.len() {
                                assert(rs2[k] == rs[k]);
                                assert(kinds.drop_last()[k] == kinds[k]);
                                let ti = rs[k].track_index;
                                lemma_prefix_carries(of_kind(xs, kinds[k]), t[ti].sample_entries, t2[ti].sample_entries);
                            }
                        }
                    },
                    Err(_) => {},
                }
            },
            Err(_) => {},
        }
    }
}

/// A sample is among the samples of its kind.
proof fn lemma_of_kind_contains(xs: Seq<SampleV>, j: int)
    requires
        0 <= j < xs.len(),
    ensures
        of_kind(xs, xs[j].track_kind).contains(xs[j]),
        kinds_of(xs).contains(xs[j].track_kind),
    decreases xs.len(),
{
    let kind = xs[j].track_kind;
    let d = xs.drop_last();
    if j < xs.len() - 1 {
        assert(d[j] == xs[j]);
        lemma_of_kind_contains(d, j);
        let o = of_kind(d, kind);
        let a = choose|a: int| 0 <= a < o.len() && o[a] == xs[j];
        if xs.last().track_kind == kind {
            assert(o.push(xs.last())[a] == xs[j]);
        }
        let k = kinds_of(d);
        let b = choose|b: int| 0 <= b < k.len() && k[b] == kind;
        if !k.contains(xs.last().track_kind) {
            assert(k.push(xs.last().track_kind)[b] == kind);
        }
    } else {
        let o = of_kind(d, kind);
        assert(o.push(xs[j])[o.len() as int] == xs[j]);
        let k = kinds_of(d);
        if !k.contains(kind) {
            assert(k.push(kind)[k.len() as int] == kind);
        }
    }
}

/// Resolving a segment keeps every track's sample entries as a prefix, and
/// the track of each sample's kind holds every entry the samples carry.
pub proof fn lemma_resolve_segment_entries(tracks: Seq<TrackV>, xs: Seq<SampleV>)
    requires
        kinds_distinct(tracks),
    ensures
        resolve_segment(tracks, xs) matches Ok((t, rs)) ==> {
            &&& forall|i: int|
                0 <= i < tracks.len() ==> (#[trigger] tracks[i]).sample_entries.is_prefix_of(t[i].sample_entries)
            &&& forall|j: int|
                0 <= j < xs.len() && (#[trigger] xs[j]).sample_entry is Some ==> exists|i: int|
                    0 <= i < t.len() && (#[trigger] t[i]).track_kind == xs[j].track_kind
                        && t[i].sample_entries.contains(xs[j].sample_entry->0)
        },
{
    reveal(resolve_segment);
    let kinds = kinds_of(xs);
    lemma_resolve_kinds_props(tracks, xs, kinds);
    lemma_resolve_kinds_entries(tracks, xs, kinds);
    match resolve_kinds(tracks, xs, kinds) {
        Ok((t, rs)) => {
            assert forall|j: int| 0 <= j < xs.len() && (#[trigger] xs[j]).sample_entry is Some implies exists|i: int|
                0 <= i < t.len() && (#[trigger] t[i]).track_kind == xs[j].track_kind && t[i].sample_entries.contains(
                    xs[j].sample_entry->0,
                ) by {
                lemma_of_kind_contains(xs, j);
                let kind = xs[j].track_kind;
                let p = choose|p: int| 0 <= p < kinds.len() && kinds[p] == kind;
                let i = rs[p].track_index;
                let o = of_kind(xs, kind);
                let a = choose|a: int| 0 <= a < o.len() && o[a] == xs[j];
                assert(carries(o, t[i].sample_entries));
                assert(o[a].sample_entry is Some);
                assert(t[i].track_kind == kind);
            }
        },
        Err(_) => {},
    }
}

/// Inserting at `j` in a list whose entries from `j` on have a greater offset
/// and whose entry before `j` has an offset not greater is the sorted insertion.
proof fn lemma_sorted_insert_at(s: Seq<ResolvedV>, x: ResolvedV, j: int)
    requires
        0 <= j <= s.len(),
        j == 0 || s[j - 1].first_data_offset <= x.first_data_offset,
        forall|k: int| j <= k < s.len() ==> (#[trigger] s[k]).first_data_offset > x.first_data_offset,
    ensures
        sorted_insert(s, x) == s.take(j).push(x) + s.skip(j),
    decreases s.len(),
{
    if j == s.len() {
        if s.len() == 0 {
            assert(s.take(j).push(x) + s.skip(j) =~= seq![x]);
        } else {
            assert(s.take(j) =~= s);
            assert(s.skip(j) =~= Seq::<ResolvedV>::empty());
            assert(s.take(j).push(x) + s.skip(j) =~= s.push(x));
        }
    } else {
        let d = s.drop_last();
        assert(s.last().first_data_offset > x.first_data_offset);
        assert forall|k: int| j <= k < d.len() implies (#[trigger] d[k]).first_data_offset > x.first_data_offset by {
            assert(d[k] == s[k]);
        }
        if j > 0 {
            assert(d[j - 1] == s[j - 1]);
        }
        lemma_sorted_insert_at(d, x, j);
        assert(d.take(j) =~= s.take(j));
        assert((d.take(j).push(x) + d.skip(j)).push(s.last()) =~= s.take(j).push(x) + s.skip(j));
    }
}

/// Sorts the resolved tracks stably by first data offset.
fn sort_resolved(rs: Vec<ResolvedSegmentTrack>) -> (r: Vec<ResolvedSegmentTrack>)
    ensures
        resolved_view(r@) == sort_by_offset(resolved_view(rs@)),
{
    let ghost input = resolved_view(rs@);
    let mut rest = rs;
    let mut out: Vec<ResolvedSegmentTrack> = Vec::new();
    let ghost mut i: int = 0;
    proof {
        assert(input.take(0) =~= Seq::<ResolvedV>::empty());
        assert(resolved_view(out@) =~= Seq::<ResolvedV>::empty());
        assert(resolved_view(rest@) =~= input.skip(0));
    }
    while rest.len() > 0
        invariant
            0 <= i <= input.len(),
            rest@.len() == input.len() - i,
            resolved_view(rest@) == input.skip(i),
            resolved_view(out@) == sort_by_offset(input.take(i)),
        decreases rest@.len(),
    {
        let ghost before_rest = rest@;
        let x = rest.remove(0);
        proof {
            assert(resolved_view(before_rest)[0] == x@);
            assert(input.skip(i)[0] == input[i]);
            assert(input[i] == x@);
            let rb = resolved_view(before_rest);
            assert forall|m: int| 0 <= m < resolved_view(rest@).len() implies resolved_view(rest@)[m]
                == input.skip(i + 1)[m] by {
                assert(rest@[m] == before_rest[m + 1]);
                assert(rb[m + 1] == input.skip(i)[m + 1]);
            }
            assert(resolved_view(rest@) =~= input.skip(i + 1));
        }
        let ghost o = resolved_view(out@);
        let mut j = out.len();
        while j > 0 && out[j - 1].first_data_offset > x.first_data_offset
            invariant
                j <= out@.len(),
                o == resolved_view(out@),
                forall|k: int| j <= k < o.len() ==> (#[trigger] o[k]).first_data_offset > x.first_data_offset,
            decreases j,
        {
            j = j - 1;
        }
        proof {
            if j > 0 {
                assert(o[j - 1] == out@[j - 1]@);
            }
            lemma_sorted_insert_at(o, x@, j as int);
            assert(input.take(i + 1).drop_last() =~= input.take(i));
            assert(input.take(i + 1).last() == x@);
        }
        let ghost xv = x@;
        out.insert(j, x);
        proof {
            assert(resolved_view(out@) =~= o.take(j as int).push(xv) + o.skip(j as int));
            i = i + 1;
        }
    }
    assert(input.skip(i).len() == 0);
    assert(input.take(i) =~= input);
    out
}

/// Whether the payload ranges of the sorted tracks follow one another from 0.
fn check_contiguous(sorted: &Vec<ResolvedSegmentTrack>) -> (r: bool)
    ensures
        r == contiguous(resolved_view(sorted@)),
{
    let ghost sv = resolved_view(sorted@);
    let mut expected: u64 = 0;
    let mut k: usize = 0;
    while k < sorted.len()
        invariant
            k <= sorted@.len(),
            sv == resolved_view(sorted@),
            expected == if k == 0 { 0 } else { sv[k - 1].payload_end },
            forall|m: int| 0 <= m < k ==> #[trigger] starts_after_previous(sv, m),
        decreases sorted@.len() - k,
    {
        assert(sv[k as int] == sorted@[k as int]@);
        if sorted[k].first_data_offset != expected {
            assert(!starts_after_previous(sv, k as int));
            return false;
        }
        assert(starts_after_previous(sv, k as int));
        expected = sorted[k].payload_end;
        k = k + 1;
    }
    true
}

/// Resolves the samples of a segment against the tracks.
pub(crate) fn resolve_segment_tracks(tracks: &mut Vec<TrackEntry>, samples: &[Sample]) -> (r: Result<
    Vec<ResolvedSegmentTrack>,
    MuxError,
>)
    requires
        kinds_distinct(tracks_view(old(tracks)@)),
    ensures
        match resolve_segment(tracks_view(old(tracks)@), samples_view(samples@)) {
            Ok((t, rs)) => r matches Ok(x) && resolved_view(x@) == rs && tracks_view(final(tracks)@) == t,
            Err(e) => r matches Err(x) && x@ == e,
        },
{
    reveal(resolve_segment);
    let ghost xs = samples_view(samples@);
    let ghost tracks0 = tracks_view(tracks@);
    let kinds = ordered_kinds(samples);
    let mut rs: Vec<ResolvedSegmentTrack> = Vec::new();
    let mut i: usize = 0;
    proof {
        assert(kinds@.take(0) =~= Seq::<TrackKind>::empty());
        assert(resolved_view(rs@) =~= Seq::<ResolvedV>::empty());
    }
    while i < kinds.len()
        invariant
            i <= kinds@.len(),
            kinds@ == kinds_of(xs),
            xs == samples_view(samples@),
            tracks0 == tracks_view(old(tracks)@),
            kinds_distinct(tracks_view(tracks@)),
            resolve_kinds(tracks0, xs, kinds@.take(i as int)) == Ok::<(Seq<TrackV>, Seq<ResolvedV>), MuxErrorV>(
                (tracks_view(tracks@), resolved_view(rs@)),
            ),
        decreases kinds@.len() - i,
    {
        let kind = kinds[i];
        proof {
            assert(kinds@.contains(kind));
            lemma_kinds_of_nonempty(xs, kind);
            lemma_kinds_distinct_len(tracks_view(tracks@));
            lemma_resolve_kind_distinct(tracks_view(tracks@), xs, kind);
            assert(kinds@.take(i + 1).drop_last() =~= kinds@.take(i as int));
            assert(kinds@.take(i + 1).last() == kind);
        }
        let ghost tv = tracks_view(tracks@);
        let ghost rv = resolved_view(rs@);
        match resolve_kind_exec(tracks, samples, kind) {
            Ok(x) => {
                let ghost xv = x@;
                rs.push(x);
                proof {
                    assert(resolved_view(rs@) =~= rv.push(xv));
                }
            },
            Err(e) => {
                proof {
                    reveal(resolve_segment);
                    assert(resolve_kinds(tracks0, xs, kinds@.take(i + 1)) == Err::<(Seq<TrackV>, Seq<ResolvedV>), MuxErrorV>(e@));
                    lemma_resolve_kinds_err(tracks0, xs, kinds@, i + 1, e@);
                }
                return Err(e);
            },
        }
        i = i + 1;
    }
    assert(kinds@.take(i as int) =~= kinds@);
    let sorted = sort_resolved(rs);
    if !check_contiguous(&sorted) {
        return Err(
            MuxError::EncodeError(
                Error::invalid_input("track payload ranges must be contiguous and ordered by data_offset"),
            ),
        );
    }
    Ok(sorted)
}

} // verus!
