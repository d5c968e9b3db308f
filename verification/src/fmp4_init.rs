//! The initialization segment of the fragmented MP4 muxer: what the tracks
//! learned so far make of `ftyp` and of `moov` (empty sample tables, `mvex`).
use vstd::prelude::*;
use vstd::utf8::encode_utf8;

use crate::bytes::box_bytes;
use crate::error::{Error, ErrorKind};
use crate::fmp4::{tracks_view, TrackEntry, TrackV};
use crate::init_boxes::{
    cat, dinf_bytes, ftyp_bytes, hdlr_bytes, language_code, mdhd_bytes, media_header_bytes, mehd_bytes,
    mvhd_bytes, opt_box, push_dinf, push_ftyp, push_hdlr, push_mdhd, push_media_header, push_mehd,
    push_mvhd, push_stbl, push_tkhd, push_trex, put_box, stbl_bytes, tkhd_bytes, trex_bytes, MediaHeader,
};
use crate::mux::{MuxError, MuxErrorV, OptionsV, SegmentMuxerOptions, TrackKind, TrackMetadataV};
use crate::sample_entry::{SampleEntry, SampleEntryV};
use crate::text::string_bytes;

verus! {

// ===== what a track's kind and sample entry decide =====

/// What a track's kind and first sample entry decide of its `trak`.
#[derive(Debug, Clone, Copy, PartialEq, Eq, Structural)]
pub struct TrakDerivation {
    /// `tkhd` volume (8.8 fixed point)
    pub volume: u16,
    /// `tkhd` width (16.16 fixed point)
    pub width: u32,
    /// `tkhd` height (16.16 fixed point)
    pub height: u32,
    /// `hdlr` handler type
    pub handler_type: u32,
    /// The media header of `minf`
    pub media_header: MediaHeader,
}

/// Width and height of a visual sample entry.
pub open spec fn visual_size(e: SampleEntryV) -> Option<(u16, u16)> {
    match e {
        SampleEntryV::Avc1(b) => Some((b.fields.width, b.fields.height)),
        SampleEntryV::Mp4v(b) => Some((b.fields.width, b.fields.height)),
        SampleEntryV::Hev1(b) => Some((b.fields.width, b.fields.height)),
        SampleEntryV::Hvc1(b) => Some((b.fields.width, b.fields.height)),
        SampleEntryV::Vp08(b) => Some((b.fields.width, b.fields.height)),
        SampleEntryV::Vp09(b) => Some((b.fields.width, b.fields.height)),
        SampleEntryV::Av01(b) => Some((b.fields.width, b.fields.height)),
        _ => None,
    }
}

/// The `tkhd` size (16.16) of a video track: that of a visual entry, whose
/// integer parts must fit `i16`; zero for other entries.
pub open spec fn video_dimensions(e: SampleEntryV) -> Result<(u32, u32), MuxErrorV> {
    match visual_size(e) {
        Some((w, h)) => if w > 0x7FFF || h > 0x7FFF {
            Err(MuxErrorV::EncodeError(ErrorKind::InvalidData))
        } else {
            Ok(((w * 0x10000) as u32, (h * 0x10000) as u32))
        },
        None => Ok((0, 0)),
    }
}

/// Handler type and media header of a subtitle track: `subt` + `sthd` for
/// `stpp`, `text` + `sthd` for `wvtt`, `text` + `nmhd` for `tx3g`, `subt` +
/// `sthd` for any other entry.
pub open spec fn subtitle_attributes(e: SampleEntryV) -> (u32, MediaHeader) {
    match e {
        SampleEntryV::Stpp(_) => (0x7375_6274u32, MediaHeader::Sthd),
        SampleEntryV::Wvtt(_) => (0x7465_7874u32, MediaHeader::Sthd),
        SampleEntryV::Tx3g(_) => (0x7465_7874u32, MediaHeader::Nmhd),
        _ => (0x7375_6274u32, MediaHeader::Sthd),
    }
}

/// The attributes of a track's `trak`: video tracks are silent, sized by
/// their entry, handled by `vide` with `vmhd`; audio tracks have full volume,
/// no size, `soun` and `smhd`; subtitle tracks are silent and unsized, their
/// handler and media header set by their entry.
pub open spec fn trak_attributes(kind: TrackKind, e: SampleEntryV) -> Result<TrakDerivation, MuxErrorV> {
    match kind {
        TrackKind::Video => match video_dimensions(e) {
            Ok((w, h)) => Ok(
                TrakDerivation {
                    volume: 0,
                    width: w,
                    height: h,
                    handler_type: 0x7669_6465,
                    media_header: MediaHeader::Vmhd,
                },
            ),
            Err(x) => Err(x),
        },
        TrackKind::Audio => Ok(
            TrakDerivation {
                volume: 0x0100,
                width: 0,
                height: 0,
                handler_type: 0x736F_756E,
                media_header: MediaHeader::Smhd,
            },
        ),
        TrackKind::Subtitle => Ok(
            TrakDerivation {
                volume: 0,
                width: 0,
                height: 0,
                handler_type: subtitle_attributes(e).0,
                media_header: subtitle_attributes(e).1,
            },
        ),
    }
}

/// Video and audio tracks: a video track is handled by 'vide' with `vmhd`,
/// silent, and sized by its first entry (16.16, when a visual entry's width
/// and height fit 15 bits; 0 for an entry without a size); an audio track is
/// handled by 'soun' with `smhd`, at full volume (1.0), and unsized.
pub proof fn lemma_media_handlers(t: TrackV)
    requires
        t.track_kind != TrackKind::Subtitle,
        t.sample_entries.len() > 0,
    ensures
        t.track_kind == TrackKind::Audio ==> (track_attributes(t) matches Ok(a) && a.handler_type == 0x736F_756E
            && a.media_header == MediaHeader::Smhd && a.volume == 0x0100 && a.width == 0 && a.height == 0),
        t.track_kind == TrackKind::Video ==> match visual_size(t.sample_entries[0]) {
            Some((w, h)) => if w <= 0x7FFF && h <= 0x7FFF {
                track_attributes(t) matches Ok(a) && a.handler_type == 0x7669_6465 && a.media_header
                    == MediaHeader::Vmhd && a.volume == 0 && a.width == w * 0x10000 && a.height == h * 0x10000
            } else {
                track_attributes(t) is Err
            },
            None => track_attributes(t) matches Ok(a) && a.handler_type == 0x7669_6465 && a.width == 0
                && a.height == 0,
        },
{
    reveal(track_attributes);
}

/// The handler and media header of a subtitle track follow its first sample
/// entry: TTML (`stpp`) gives a subtitle track ('subt' with `sthd`), WebVTT
/// (`wvtt`) a text track ('text' with `sthd`), 3GPP timed text (`tx3g`) a text
/// track with a null media header ('text' with `nmhd`), and any other entry
/// 'subt' with `sthd`; subtitle tracks are silent and unsized.
pub proof fn lemma_subtitle_handlers(t: TrackV)
    requires
        t.track_kind == TrackKind::Subtitle,
        t.sample_entries.len() > 0,
    ensures
        track_attributes(t) matches Ok(a) && a.volume == 0 && a.width == 0 && a.height == 0 && match t.sample_entries[0] {
            SampleEntryV::Stpp(_) => a.handler_type == 0x7375_6274 && a.media_header == MediaHeader::Sthd,
            SampleEntryV::Wvtt(_) => a.handler_type == 0x7465_7874 && a.media_header == MediaHeader::Sthd,
            SampleEntryV::Tx3g(_) => a.handler_type == 0x7465_7874 && a.media_header == MediaHeader::Nmhd,
            _ => a.handler_type == 0x7375_6274 && a.media_header == MediaHeader::Sthd,
        },
{
    reveal(track_attributes);
}

/// The `tkhd` width and height (16.16) for a video track's sample entry.
pub fn extract_video_dimensions(sample_entry: &SampleEntry) -> (r: Result<(u32, u32), MuxError>)
    ensures
        match video_dimensions(sample_entry@) {
            Ok(d) => r matches Ok(x) && x == d,
            Err(e) => r matches Err(x) && x@ == e,
        },
{
    match sample_entry.video_resolution() {
        Some((w, h)) => {
            if w > 0x7FFF {
                return Err(MuxError::EncodeError(Error::invalid_data("video width exceeds i16::MAX")));
            }
            if h > 0x7FFF {
                return Err(MuxError::EncodeError(Error::invalid_data("video height exceeds i16::MAX")));
            }
            Ok(((w as u32) * 0x10000, (h as u32) * 0x10000))
        },
        None => Ok((0, 0)),
    }
}

/// Handler type and media header for a subtitle track's sample entry.
pub fn subtitle_trak_attributes(sample_entry: &SampleEntry) -> (r: (u32, MediaHeader))
    ensures
        r == subtitle_attributes(sample_entry@),
{
    match sample_entry {
        SampleEntry::Stpp(_) => (0x7375_6274, MediaHeader::Sthd),
        SampleEntry::Wvtt(_) => (0x7465_7874, MediaHeader::Sthd),
        SampleEntry::Tx3g(_) => (0x7465_7874, MediaHeader::Nmhd),
        _ => (0x7375_6274, MediaHeader::Sthd),
    }
}

/// The `trak` attributes for a track of `track_kind` described by `sample_entry`.
pub fn derive_trak_attributes(track_kind: TrackKind, sample_entry: &SampleEntry) -> (r: Result<
    TrakDerivation,
    MuxError,
>)
    ensures
        match trak_attributes(track_kind, sample_entry@) {
            Ok(d) => r matches Ok(x) && x == d,
            Err(e) => r matches Err(x) && x@ == e,
        },
{
    match track_kind {
        TrackKind::Video => {
            let (width, height) = match extract_video_dimensions(sample_entry) {
                Ok(d) => d,
                Err(e) => {
                    return Err(e);
                },
            };
            Ok(
                TrakDerivation {
                    volume: 0,
                    width,
                    height,
                    handler_type: 0x7669_6465,
                    media_header: MediaHeader::Vmhd,
                },
            )
        },
        TrackKind::Audio => Ok(
            TrakDerivation {
                volume: 0x0100,
                width: 0,
                height: 0,
                handler_type: 0x736F_756E,
                media_header: MediaHeader::Smhd,
            },
        ),
        TrackKind::Subtitle => {
            let (handler_type, media_header) = subtitle_trak_attributes(sample_entry);
            Ok(TrakDerivation { volume: 0, width: 0, height: 0, handler_type, media_header })
        },
    }
}

// ===== ftyp =====

/// The brand a sample entry adds to `ftyp`: `avc1`, `hev1`, `hvc1` and `av01`
/// entries add their own type.
pub open spec fn entry_brand(e: SampleEntryV) -> Option<u32> {
    match e {
        SampleEntryV::Avc1(_) => Some(0x6176_6331u32),
        SampleEntryV::Hev1(_) => Some(0x6865_7631u32),
        SampleEntryV::Hvc1(_) => Some(0x6876_6331u32),
        SampleEntryV::Av01(_) => Some(0x6176_3031u32),
        _ => None,
    }
}

/// Some sample entry of some track adds `brand`.
pub open spec fn uses_brand(tracks: Seq<TrackV>, brand: u32) -> bool {
    exists|i: int, j: int|
        0 <= i < tracks.len() && 0 <= j < tracks[i].sample_entries.len() && #[trigger] entry_brand(
            tracks[i].sample_entries[j],
        ) == Some(brand)
}

/// The brand when it is used, else nothing.
pub open spec fn brand_if_used(tracks: Seq<TrackV>, brand: u32) -> Seq<u32> {
    if uses_brand(tracks, brand) {
        seq![brand]
    } else {
        Seq::empty()
    }
}

/// Compatible brands: `isom`, `iso5`, `iso6`, `mp41`, then `avc1`, `hev1`,
/// `hvc1` and `av01` for those the tracks' sample entries use.
pub open spec fn compatible_brands(tracks: Seq<TrackV>) -> Seq<u32> {
    seq![0x6973_6F6Du32, 0x6973_6F35u32, 0x6973_6F36u32, 0x6D70_3431u32] + brand_if_used(
        tracks,
        0x6176_6331,
    ) + brand_if_used(tracks, 0x6865_7631) + brand_if_used(tracks, 0x6876_6331) + brand_if_used(
        tracks,
        0x6176_3031,
    )
}

/// `ftyp` of the initialization segment: major brand `iso5`, minor version 0.
pub open spec fn init_ftyp_bytes(tracks: Seq<TrackV>) -> Seq<u8> {
    ftyp_bytes(0x6973_6F35, 0, compatible_brands(tracks))
}

fn sample_entry_brand(e: &SampleEntry) -> (r: Option<u32>)
    ensures
        r == entry_brand(e@),
{
    match e {
        SampleEntry::Avc1(_) => Some(0x6176_6331),
        SampleEntry::Hev1(_) => Some(0x6865_7631),
        SampleEntry::Hvc1(_) => Some(0x6876_6331),
        SampleEntry::Av01(_) => Some(0x6176_3031),
        _ => None,
    }
}

fn track_uses_brand(t: &TrackEntry, brand: u32) -> (r: bool)
    ensures
        r == exists|j: int| 0 <= j < t@.sample_entries.len() && #[trigger] entry_brand(t@.sample_entries[j]) == Some(brand),
{
    let mut j: usize = 0;
    while j < t.sample_entries.len()
        invariant
            j <= t.sample_entries@.len(),
            forall|k: int| 0 <= k < j ==> #[trigger] entry_brand(t@.sample_entries[k]) != Some(brand),
        decreases t.sample_entries@.len() - j,
    {
        assert(t@.sample_entries[j as int] == t.sample_entries@[j as int]@);
        if sample_entry_brand(&t.sample_entries[j]) == Some(brand) {
            return true;
        }
        j = j + 1;
    }
    false
}

fn tracks_use_brand(tracks: &Vec<TrackEntry>, brand: u32) -> (r: bool)
    ensures
        r == uses_brand(tracks_view(tracks@), brand),
{
    let ghost v = tracks_view(tracks@);
    let mut i: usize = 0;
    while i < tracks.len()
        invariant
            i <= tracks@.len(),
            v == tracks_view(tracks@),
            forall|a: int, j: int|
                0 <= a < i && 0 <= j < v[a].sample_entries.len() ==> #[trigger] entry_brand(
                    v[a].sample_entries[j],
                ) != Some(brand),
        decreases tracks@.len() - i,
    {
        assert(v[i as int] == tracks@[i as int]@);
        if track_uses_brand(&tracks[i], brand) {
            return true;
        }
        i = i + 1;
    }
    false
}

/// The `ftyp` of the initialization segment for the tracks.
fn build_ftyp(tracks: &Vec<TrackEntry>) -> (r: Vec<u8>)
    ensures
        r@ == init_ftyp_bytes(tracks_view(tracks@)),
{
    let ghost v = tracks_view(tracks@);
    let mut brands: Vec<u32> = vec![0x6973_6F6D, 0x6973_6F35, 0x6973_6F36, 0x6D70_3431];
    let ghost b0 = brands@;
    assert(b0 =~= seq![0x6973_6F6Du32, 0x6973_6F35u32, 0x6973_6F36u32, 0x6D70_3431u32]);
    if tracks_use_brand(tracks, 0x6176_6331) {
        brands.push(0x6176_6331);
    }
    assert(brands@ =~= b0 + brand_if_used(v, 0x6176_6331));
    let ghost b1 = brands@;
    if tracks_use_brand(tracks, 0x6865_7631) {
        brands.push(0x6865_7631);
    }
    assert(brands@ =~= b1 + brand_if_used(v, 0x6865_7631));
    let ghost b2 = brands@;
    if tracks_use_brand(tracks, 0x6876_6331) {
        brands.push(0x6876_6331);
    }
    assert(brands@ =~= b2 + brand_if_used(v, 0x6876_6331));
    let ghost b3 = brands@;
    if tracks_use_brand(tracks, 0x6176_3031) {
        brands.push(0x6176_3031);
    }
    assert(brands@ =~= b3 + brand_if_used(v, 0x6176_3031));
    assert(brands@ =~= compatible_brands(v));
    let mut out: Vec<u8> = Vec::new();
    push_ftyp(&mut out, 0x6973_6F35, 0, &brands);
    assert(out@ =~= init_ftyp_bytes(v));
    out
}

// ===== moov =====

/// The metadata the options give tracks of `kind`.
pub open spec fn metadata_for(o: OptionsV, kind: TrackKind) -> TrackMetadataV {
    match kind {
        TrackKind::Audio => o.audio_track,
        TrackKind::Video => o.video_track,
        TrackKind::Subtitle => o.subtitle_track,
    }
}

/// Seconds from 1904-01-01 (the MP4 epoch) to 1970-01-01 (the UNIX epoch).
pub const MP4_EPOCH_OFFSET: u64 = 2_082_844_800;

/// A UNIX time in seconds as an MP4 time (seconds since 1904).
pub open spec fn mp4_time(unix_secs: u64) -> u64 {
    (unix_secs + MP4_EPOCH_OFFSET) as u64
}

/// The attributes of a track's `trak`, from its first sample entry; a track
/// without a sample entry has none.
#[verifier::opaque]
pub open spec fn track_attributes(t: TrackV) -> Result<TrakDerivation, MuxErrorV> {
    if t.sample_entries.len() == 0 {
        Err(MuxErrorV::MissingSampleEntry(t.track_kind))
    } else {
        trak_attributes(t.track_kind, t.sample_entries[0])
    }
}

/// The first error among the tracks' attributes, in track order.
pub open spec fn first_track_error(ts: Seq<TrackV>) -> Option<MuxErrorV>
    decreases ts.len(),
{
    if ts.len() == 0 {
        None
    } else {
        match first_track_error(ts.drop_last()) {
            Some(e) => Some(e),
            None => match track_attributes(ts.last()) {
                Err(e) => Some(e),
                Ok(_) => None,
            },
        }
    }
}

/// `minf` of a track: the media header, `dinf`, and `stbl` with the entries.
pub open spec fn minf_bytes(m: MediaHeader, es: Seq<SampleEntryV>) -> Option<Seq<u8>> {
    opt_box(0x6D69_6E66, cat(Some(media_header_bytes(m) + dinf_bytes()), stbl_bytes(es)))
}

/// `mdia` of a track: `mdhd`, `hdlr`, `minf`.
pub open spec fn mdia_bytes(
    time: u64,
    timescale: u32,
    meta: TrackMetadataV,
    a: TrakDerivation,
    es: Seq<SampleEntryV>,
) -> Option<Seq<u8>> {
    opt_box(
        0x6D64_6961,
        cat(
            Some(mdhd_bytes(time, timescale, language_code(meta.language))),
            cat(hdlr_bytes(a.handler_type, encode_utf8(meta.name)), minf_bytes(a.media_header, es)),
        ),
    )
}

/// `trak` of an initialization segment: `tkhd`, then `mdia` with `mdhd`
/// (timescale, language), `hdlr` (handler type, name) and `minf` (media
/// header, `dinf`, `stbl` with the track's sample entries).
#[verifier::opaque]
pub open spec fn trak_bytes(o: OptionsV, t: TrackV, a: TrakDerivation, time: u64) -> Option<Seq<u8>> {
    opt_box(
        0x7472_616B,
        cat(
            Some(tkhd_bytes(time, t.track_id, a.volume, a.width, a.height)),
            mdia_bytes(time, t.timescale, metadata_for(o, t.track_kind), a, t.sample_entries),
        ),
    )
}

/// The `trak` boxes of the tracks, in order.
pub open spec fn traks_bytes(o: OptionsV, ts: Seq<TrackV>, time: u64) -> Option<Seq<u8>>
    decreases ts.len(),
{
    if ts.len() == 0 {
        Some(Seq::empty())
    } else {
        cat(
            traks_bytes(o, ts.drop_last(), time),
            trak_bytes(o, ts.last(), track_attributes(ts.last())->Ok_0, time),
        )
    }
}

/// One `trex` per track, in order.
pub open spec fn trexs_bytes(ts: Seq<TrackV>) -> Seq<u8>
    decreases ts.len(),
{
    if ts.len() == 0 {
        Seq::empty()
    } else {
        trexs_bytes(ts.drop_last()) + trex_bytes(ts.last().track_id)
    }
}

/// `moov` of the initialization segment: `mvhd` (creation time, next track
/// id), the `trak` boxes, and `mvex` with `mehd` and a `trex` per track.
pub open spec fn moov_bytes(o: OptionsV, ts: Seq<TrackV>) -> Option<Seq<u8>> {
    let time = mp4_time(o.creation_timestamp);
    match traks_bytes(o, ts, time) {
        Some(traks) => moov_around(time, ts, traks),
        None => None,
    }
}

/// `moov` around the given `trak` boxes.
pub open spec fn moov_around(time: u64, ts: Seq<TrackV>, traks: Seq<u8>) -> Option<Seq<u8>> {
    match opt_box(0x6D76_6578, Some(mehd_bytes() + trexs_bytes(ts))) {
        Some(mvex) => opt_box(0x6D6F_6F76, Some(mvhd_bytes(time, (ts.len() + 1) as u32) + traks + mvex)),
        None => None,
    }
}

/// `moov` of the initialization segment. There is none without a track, nor
/// when a track has no sample entry or cannot be described (the first such
/// error, in track order); `Err(None)` stands for a box that cannot be
/// encoded.
pub open spec fn init_moov(o: OptionsV, ts: Seq<TrackV>) -> Result<Seq<u8>, Option<MuxErrorV>> {
    if ts.len() == 0 {
        Err(Some(MuxErrorV::EmptyTracks))
    } else {
        match first_track_error(ts) {
            Some(e) => Err(Some(e)),
            None => match moov_bytes(o, ts) {
                Some(mv) => Ok(mv),
                None => Err(None),
            },
        }
    }
}

/// The initialization segment: `ftyp`, then `moov`.
#[verifier::opaque]
pub open spec fn init_segment(o: OptionsV, ts: Seq<TrackV>) -> Result<Seq<u8>, Option<MuxErrorV>> {
    match init_moov(o, ts) {
        Ok(mv) => Ok(init_ftyp_bytes(ts) + mv),
        Err(e) => Err(e),
    }
}

/// A result of bytes against its specification, where `Err(None)` stands for
/// a box that cannot be encoded: an `EncodeError` of kind `InvalidInput`.
pub open spec fn bytes_outcome(r: Result<Vec<u8>, MuxError>, s: Result<Seq<u8>, Option<MuxErrorV>>) -> bool {
    match s {
        Ok(b) => r matches Ok(v) && v@ == b,
        Err(Some(e)) => r matches Err(x) && x@ == e,
        Err(None) => r matches Err(x) && x@ == MuxErrorV::EncodeError(ErrorKind::InvalidInput),
    }
}

fn push_minf(out: &mut Vec<u8>, m: MediaHeader, es: &Vec<SampleEntry>) -> (r: Result<(), MuxError>)
    ensures
        r is Ok <==> minf_bytes(m, crate::mux::entries_view(es@)) is Some,
        r is Ok ==> final(out)@ == old(out)@ + minf_bytes(m, crate::mux::entries_view(es@))->0,
        r matches Err(e) ==> e@ == MuxErrorV::EncodeError(ErrorKind::InvalidInput),
{
    let mut minf: Vec<u8> = Vec::new();
    push_media_header(&mut minf, m);
    push_dinf(&mut minf);
    match push_stbl(&mut minf, es) {
        Ok(()) => {},
        Err(e) => {
            return Err(MuxError::EncodeError(e));
        },
    }
    match put_box(out, 0x6D69_6E66, &minf) {
        Ok(()) => Ok(()),
        Err(e) => Err(MuxError::EncodeError(e)),
    }
}

#[verifier::rlimit(30)]
fn push_mdia(
    out: &mut Vec<u8>,
    time: u64,
    timescale: u32,
    meta: &crate::mux::TrackMetadata,
    a: TrakDerivation,
    es: &Vec<SampleEntry>,
) -> (r: Result<(), MuxError>)
    ensures
        r is Ok <==> mdia_bytes(time, timescale, meta@, a, crate::mux::entries_view(es@)) is Some,
        r is Ok ==> final(out)@ == old(out)@ + mdia_bytes(
            time,
            timescale,
            meta@,
            a,
            crate::mux::entries_view(es@),
        )->0,
        r matches Err(e) ==> e@ == MuxErrorV::EncodeError(ErrorKind::InvalidInput),
{
    let ghost minf_b = minf_bytes(a.media_header, crate::mux::entries_view(es@));
    let mut mdia: Vec<u8> = Vec::new();
    push_mdhd(&mut mdia, time, timescale, &meta.language);
    let name = string_bytes(&meta.name);
    match push_hdlr(&mut mdia, a.handler_type, name) {
        Ok(()) => {},
        Err(e) => {
            return Err(MuxError::EncodeError(e));
        },
    }
    let ghost head = mdia@;
    match push_minf(&mut mdia, a.media_header, es) {
        Ok(()) => {},
        Err(e) => {
            return Err(e);
        },
    }
    assert(mdia@ == head + minf_b->0);
    match put_box(out, 0x6D64_6961, &mdia) {
        Ok(()) => Ok(()),
        Err(e) => Err(MuxError::EncodeError(e)),
    }
}

/// Writes the `trak` of a track whose attributes are `a`.
fn build_init_trak(
    out: &mut Vec<u8>,
    options: &SegmentMuxerOptions,
    entry: &TrackEntry,
    a: TrakDerivation,
    time: u64,
) -> (r: Result<(), MuxError>)
    ensures
        r is Ok <==> trak_bytes(options@, entry@, a, time) is Some,
        r is Ok ==> final(out)@ == old(out)@ + trak_bytes(options@, entry@, a, time)->0,
        r matches Err(e) ==> e@ == MuxErrorV::EncodeError(ErrorKind::InvalidInput),
{
    reveal(trak_bytes);
    let meta = options.track_metadata(entry.track_kind);
    assert(meta@ == metadata_for(options@, entry.track_kind));
    let mut trak: Vec<u8> = Vec::new();
    push_tkhd(&mut trak, time, entry.track_id, a.volume, a.width, a.height);
    match push_mdia(&mut trak, time, entry.timescale, meta, a, &entry.sample_entries) {
        Ok(()) => {},
        Err(e) => {
            return Err(e);
        },
    }
    match put_box(out, 0x7472_616B, &trak) {
        Ok(()) => Ok(()),
        Err(e) => Err(MuxError::EncodeError(e)),
    }
}

// ===== laws of the initialization segment =====

/// Without a track error, every track has its attributes; no track error is
/// `EmptyTracks`.
proof fn lemma_first_track_error_props(ts: Seq<TrackV>)
    ensures
        first_track_error(ts) != Some(MuxErrorV::EmptyTracks),
        first_track_error(ts) is None ==> forall|i: int| 0 <= i < ts.len() ==> (#[trigger] track_attributes(ts[i])) is Ok,
    decreases ts.len(),
{
    reveal(track_attributes);
    if ts.len() > 0 {
        lemma_first_track_error_props(ts.drop_last());
        if first_track_error(ts) is None {
            assert forall|i: int| 0 <= i < ts.len() implies (#[trigger] track_attributes(ts[i])) is Ok by {
                if i < ts.len() - 1 {
                    assert(ts.drop_last()[i] == ts[i]);
                }
            }
        }
    }
}

/// The initialization segment is refused with `EmptyTracks` exactly when
/// there is no track.
pub proof fn lemma_init_segment_empty(o: OptionsV, ts: Seq<TrackV>)
    ensures
        init_segment(o, ts) == Err::<Seq<u8>, Option<MuxErrorV>>(Some(MuxErrorV::EmptyTracks)) <==> ts.len() == 0,
{
    reveal(init_segment);
    lemma_first_track_error_props(ts);
}

/// The `trak` of each track, in order.
pub open spec fn trak_list(o: OptionsV, ts: Seq<TrackV>, time: u64) -> Seq<Seq<u8>> {
    Seq::new(ts.len(), |i: int| trak_bytes(o, ts[i], track_attributes(ts[i])->Ok_0, time)->0)
}

/// The `trex` of each track, in order.
pub open spec fn trex_list(ts: Seq<TrackV>) -> Seq<Seq<u8>> {
    Seq::new(ts.len(), |i: int| trex_bytes(ts[i].track_id))
}

proof fn lemma_traks_are_list(o: OptionsV, ts: Seq<TrackV>, time: u64)
    ensures
        traks_bytes(o, ts, time) matches Some(b) ==> b == trak_list(o, ts, time).flatten_alt() && forall|i: int|
            0 <= i < ts.len() ==> (#[trigger] trak_bytes(o, ts[i], track_attributes(ts[i])->Ok_0, time)) is Some,
    decreases ts.len(),
{
    if ts.len() > 0 {
        let p = ts.drop_last();
        lemma_traks_are_list(o, p, time);
        assert(trak_list(o, p, time) =~= trak_list(o, ts, time).drop_last());
        if traks_bytes(o, ts, time) is Some {
            assert forall|i: int| 0 <= i < ts.len() implies (#[trigger] trak_bytes(
                o,
                ts[i],
                track_attributes(ts[i])->Ok_0,
                time,
            )) is Some by {
                if i < ts.len() - 1 {
                    assert(p[i] == ts[i]);
                }
            }
        }
    }
}

proof fn lemma_trexs_are_list(ts: Seq<TrackV>)
    ensures
        trexs_bytes(ts) == trex_list(ts).flatten_alt(),
    decreases ts.len(),
{
    if ts.len() > 0 {
        lemma_trexs_are_list(ts.drop_last());
        assert(trex_list(ts.drop_last()) =~= trex_list(ts).drop_last());
    }
}

/// The layout of an initialization segment: `ftyp` (major brand `iso5` and
/// the compatible brands of the tracks' sample entries), then `moov` with
/// `mvhd` (the creation time, and as next track id one more than the number
/// of tracks), one `trak` per track in the order the tracks were first seen,
/// and `mvex` with `mehd` and one `trex` per track in the same order (in a
/// muxer, the `i`-th track seen has id `i + 1`). It needs a track, and every
/// track must have its attributes.
pub proof fn lemma_init_segment_layout(o: OptionsV, ts: Seq<TrackV>)
    ensures
        init_segment(o, ts) matches Ok(b) ==> {
            let time = mp4_time(o.creation_timestamp);
            &&& ts.len() > 0
            &&& forall|i: int| 0 <= i < ts.len() ==> (#[trigger] track_attributes(ts[i])) is Ok
            &&& forall|i: int|
                0 <= i < ts.len() ==> (#[trigger] trak_bytes(o, ts[i], track_attributes(ts[i])->Ok_0, time)) is Some
            &&& b == init_ftyp_bytes(ts) + box_bytes(
                0x6D6F_6F76,
                mvhd_bytes(time, (ts.len() + 1) as u32) + trak_list(o, ts, time).flatten_alt() + box_bytes(
                    0x6D76_6578,
                    mehd_bytes() + trex_list(ts).flatten_alt(),
                ),
            )
        },
{
    reveal(init_segment);
    lemma_first_track_error_props(ts);
    lemma_traks_are_list(o, ts, mp4_time(o.creation_timestamp));
    lemma_trexs_are_list(ts);
}

/// The `trak` of the `i`-th track: `tkhd` with the track's id and the
/// attributes of its first sample entry, then `mdia` with the track's
/// timescale, its metadata, and all its sample entries in the order they
/// were first seen.
pub proof fn lemma_trak_layout(o: OptionsV, ts: Seq<TrackV>, time: u64, i: int)
    requires
        0 <= i < ts.len(),
        trak_bytes(o, ts[i], track_attributes(ts[i])->Ok_0, time) is Some,
    ensures
        ({
            let a = track_attributes(ts[i])->Ok_0;
            let mdia = mdia_bytes(time, ts[i].timescale, metadata_for(o, ts[i].track_kind), a, ts[i].sample_entries);
            &&& mdia is Some
            &&& trak_list(o, ts, time)[i] == box_bytes(
                0x7472_616B,
                tkhd_bytes(time, ts[i].track_id, a.volume, a.width, a.height) + mdia->0,
            )
        }),
{
    reveal(trak_bytes);
}

proof fn lemma_first_track_error_prefix(ts: Seq<TrackV>, n: int, e: MuxErrorV)
    requires
        0 <= n <= ts.len(),
        first_track_error(ts.take(n)) == Some(e),
    ensures
        first_track_error(ts) == Some(e),
    decreases ts.len() - n,
{
    if n < ts.len() {
        assert(ts.take(n + 1).drop_last() =~= ts.take(n));
        lemma_first_track_error_prefix(ts, n + 1, e);
    } else {
        assert(ts.take(n) =~= ts);
    }
}

proof fn lemma_traks_prefix_none(o: OptionsV, ts: Seq<TrackV>, time: u64, n: int)
    requires
        0 <= n <= ts.len(),
        traks_bytes(o, ts.take(n), time) is None,
    ensures
        traks_bytes(o, ts, time) is None,
    decreases ts.len() - n,
{
    if n < ts.len() {
        assert(ts.take(n + 1).drop_last() =~= ts.take(n));
        lemma_traks_prefix_none(o, ts, time, n + 1);
    } else {
        assert(ts.take(n) =~= ts);
    }
}

/// The `moov` of the initialization segment for the tracks.
fn build_init_moov(options: &SegmentMuxerOptions, tracks: &Vec<TrackEntry>) -> (r: Result<Vec<u8>, MuxError>)
    requires
        tracks@.len() < 0xFFFF_FFFF,
        options.creation_timestamp <= u64::MAX - MP4_EPOCH_OFFSET,
    ensures
        bytes_outcome(r, init_moov(options@, tracks_view(tracks@))),
{
    let ghost tv = tracks_view(tracks@);
    let ghost o = options@;
    if tracks.len() == 0 {
        return Err(MuxError::EmptyTracks);
    }
    let time = options.creation_timestamp + MP4_EPOCH_OFFSET;
    let mut attrs: Vec<TrakDerivation> = Vec::new();
    let mut i: usize = 0;
    while i < tracks.len()
        invariant
            i <= tracks@.len(),
            tv == tracks_view(tracks@),
            attrs@.len() == i,
            first_track_error(tv.take(i as int)) is None,
            forall|k: int| 0 <= k < i ==> track_attributes(#[trigger] tv[k]) == Ok::<TrakDerivation, MuxErrorV>(attrs@[k]),
        decreases tracks@.len() - i,
    {
        let t = &tracks[i];
        assert(tv[i as int] == t@);
        assert(tv.take(i + 1).drop_last() =~= tv.take(i as int));
        reveal(track_attributes);
        if t.sample_entries.len() == 0 {
            proof {
                lemma_first_track_error_prefix(tv, i + 1, MuxErrorV::MissingSampleEntry(t.track_kind));
            }
            return Err(MuxError::MissingSampleEntry { track_kind: t.track_kind });
        }
        assert(t@.sample_entries[0] == t.sample_entries@[0]@);
        match derive_trak_attributes(t.track_kind, &t.sample_entries[0]) {
            Ok(a) => {
                attrs.push(a);
            },
            Err(e) => {
                proof {
                    lemma_first_track_error_prefix(tv, i + 1, e@);
                }
                return Err(e);
            },
        }
        i = i + 1;
    }
    assert(tv.take(i as int) =~= tv);
    let mut traks: Vec<u8> = Vec::new();
    let mut j: usize = 0;
    proof {
        assert(tv.take(0) =~= Seq::<TrackV>::empty());
    }
    while j < tracks.len()
        invariant
            j <= tracks@.len(),
            tv == tracks_view(tracks@),
            o == options@,
            time == mp4_time(o.creation_timestamp),
            tv.len() > 0,
            first_track_error(tv) is None,
            attrs@.len() == tracks@.len(),
            forall|k: int| 0 <= k < tracks@.len() ==> track_attributes(#[trigger] tv[k]) == Ok::<TrakDerivation, MuxErrorV>(attrs@[k]),
            traks_bytes(o, tv.take(j as int), time) is Some,
            traks@ == traks_bytes(o, tv.take(j as int), time)->0,
        decreases tracks@.len() - j,
    {
        let t = &tracks[j];
        assert(tv[j as int] == t@);
        assert(tv.take(j + 1).drop_last() =~= tv.take(j as int));
        assert(tv.take(j + 1).last() == t@);
        assert(track_attributes(tv[j as int])->Ok_0 == attrs@[j as int]);
        match build_init_trak(&mut traks, options, t, attrs[j], time) {
            Ok(()) => {},
            Err(e) => {
                proof {
                    lemma_traks_prefix_none(o, tv, time, j + 1);
                }
                return Err(e);
            },
        }
        j = j + 1;
    }
    assert(tv.take(j as int) =~= tv);
    assemble_moov(tracks, time, traks)
}

fn assemble_moov(tracks: &Vec<TrackEntry>, time: u64, traks: Vec<u8>) -> (r: Result<Vec<u8>, MuxError>)
    requires
        tracks@.len() < 0xFFFF_FFFF,
    ensures
        bytes_outcome(
            r,
            match moov_around(time, tracks_view(tracks@), traks@) {
                Some(b) => Ok(b),
                None => Err(None),
            },
        ),
{
    let ghost tv = tracks_view(tracks@);
    let mut traks = traks;
    let mut mvex: Vec<u8> = Vec::new();
    push_mehd(&mut mvex);
    let ghost head = mvex@;
    let mut k: usize = 0;
    while k < tracks.len()
        invariant
            k <= tracks@.len(),
            tv == tracks_view(tracks@),
            mvex@ == head + trexs_bytes(tv.take(k as int)),
        decreases tracks@.len() - k,
    {
        assert(tv[k as int] == tracks@[k as int]@);
        assert(tv.take(k + 1).drop_last() =~= tv.take(k as int));
        push_trex(&mut mvex, tracks[k].track_id);
        k = k + 1;
    }
    assert(tv.take(k as int) =~= tv);
    let ghost tr = traks@;
    let mut moov: Vec<u8> = Vec::new();
    push_mvhd(&mut moov, time, (tracks.len() + 1) as u32);
    moov.append(&mut traks);
    let ghost head2 = moov@;
    match put_box(&mut moov, 0x6D76_6578, &mvex) {
        Ok(()) => {},
        Err(e) => {
            return Err(MuxError::EncodeError(e));
        },
    }
    assert(moov@ =~= mvhd_bytes(time, (tracks@.len() + 1) as u32) + tr + opt_box(
        0x6D76_6578,
        Some(mehd_bytes() + trexs_bytes(tv)),
    )->0);
    let mut out: Vec<u8> = Vec::new();
    match put_box(&mut out, 0x6D6F_6F76, &moov) {
        Ok(()) => {},
        Err(e) => {
            return Err(MuxError::EncodeError(e));
        },
    }
    Ok(out)
}

/// The initialization segment (`ftyp` + `moov`) for the tracks.
pub(crate) fn build_init_segment(options: &SegmentMuxerOptions, tracks: &Vec<TrackEntry>) -> (r: Result<
    Vec<u8>,
    MuxError,
>)
    requires
        tracks@.len() < 0xFFFF_FFFF,
        options.creation_timestamp <= u64::MAX - MP4_EPOCH_OFFSET,
    ensures
        bytes_outcome(r, init_segment(options@, tracks_view(tracks@))),
{
    reveal(init_segment);
    let mut moov = match build_init_moov(options, tracks) {
        Ok(m) => m,
        Err(e) => {
            return Err(e);
        },
    };
    let mut bytes = build_ftyp(tracks);
    bytes.append(&mut moov);
    Ok(bytes)
}

} // verus!
