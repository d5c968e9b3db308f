//! Scenarios of the fragmented MP4 segment muxer.

use shiguredo_mp4::aac::{
    build_mp4a_box, AudioObjectType, AudioSpecificConfig, ChannelConfiguration, Mp4aSampleEntryConfig,
    SamplingFrequency,
};
use shiguredo_mp4::avcc::AvccBox;
use shiguredo_mp4::entry::VisualSampleEntryFields;
use shiguredo_mp4::error::ErrorKind;
use shiguredo_mp4::mux::{MuxError, Sample, SegmentMuxerOptions, TrackKind, TrackMetadata};
use shiguredo_mp4::sample_entries::Avc1Box;
use shiguredo_mp4::sample_entry::SampleEntry;
use shiguredo_mp4::segment_muxer::Fmp4SegmentMuxer;
use shiguredo_mp4::subtitle::{VttCBox, WvttBox};

fn be32(b: &[u8], at: usize) -> u32 {
    u32::from_be_bytes([b[at], b[at + 1], b[at + 2], b[at + 3]])
}

/// The (type, start, end) of the boxes laid one after the other in `b`.
fn boxes(b: &[u8]) -> Vec<([u8; 4], usize, usize)> {
    let mut out = Vec::new();
    let mut at = 0;
    while at + 8 <= b.len() {
        let size = be32(b, at) as usize;
        let ty = [b[at + 4], b[at + 5], b[at + 6], b[at + 7]];
        out.push((ty, at, at + size));
        at += size;
    }
    out
}

/// The payload of the first child box of type `ty` inside `payload`.
fn child<'a>(payload: &'a [u8], ty: &[u8; 4]) -> &'a [u8] {
    for (t, s, e) in boxes(payload) {
        if &t == ty {
            return &payload[s + 8..e];
        }
    }
    panic!("no {:?} box", std::str::from_utf8(ty));
}

fn avc1(width: u16, height: u16, profile: u8) -> SampleEntry {
    let high = matches!(profile, 100 | 110 | 122 | 144);
    SampleEntry::Avc1(Avc1Box {
        visual: VisualSampleEntryFields {
            data_reference_index: 1,
            width,
            height,
            horizresolution: VisualSampleEntryFields::default_horizresolution(),
            vertresolution: VisualSampleEntryFields::default_vertresolution(),
            frame_count: 1,
            compressorname: VisualSampleEntryFields::null_compressorname(),
            depth: VisualSampleEntryFields::DEFAULT_DEPTH,
        },
        avcc_box: AvccBox {
            avc_profile_indication: profile,
            profile_compatibility: 0,
            avc_level_indication: 40,
            length_size_minus_one: 3,
            sps_list: vec![vec![0x67, 0x64, 0x00, 0x28]],
            pps_list: vec![vec![0x68, 0xEE, 0x3C, 0x80]],
            chroma_format: if high { Some(1) } else { None },
            bit_depth_luma_minus8: if high { Some(0) } else { None },
            bit_depth_chroma_minus8: if high { Some(0) } else { None },
            sps_ext_list: vec![],
        },
        unknown_boxes: vec![],
    })
}

fn mp4a() -> SampleEntry {
    let asc = AudioSpecificConfig {
        audio_object_type: AudioObjectType::AacLc,
        sampling_frequency: SamplingFrequency::from_hz(48000).unwrap(),
        channel_configuration: ChannelConfiguration::Stereo,
    };
    let config = Mp4aSampleEntryConfig { es_id: 1, buffer_size_db: 0, max_bitrate: 128000, avg_bitrate: 128000 };
    SampleEntry::Mp4a(build_mp4a_box(&asc, &config).unwrap())
}

fn video(entry: Option<SampleEntry>, offset: u64, size: usize, keyframe: bool) -> Sample {
    Sample {
        track_kind: TrackKind::Video,
        timescale: 90000,
        sample_entry: entry,
        duration: 3000,
        keyframe,
        composition_time_offset: None,
        data_offset: offset,
        data_size: size,
    }
}

fn audio(entry: Option<SampleEntry>, offset: u64, size: usize) -> Sample {
    Sample {
        track_kind: TrackKind::Audio,
        timescale: 48000,
        sample_entry: entry,
        duration: 1024,
        keyframe: true,
        composition_time_offset: None,
        data_offset: offset,
        data_size: size,
    }
}

fn kind_of(e: MuxError) -> Option<ErrorKind> {
    match e {
        MuxError::EncodeError(x) => Some(x.kind),
        _ => None,
    }
}

#[test]
fn init_segment_needs_a_track() {
    let muxer = Fmp4SegmentMuxer::new().unwrap();
    assert!(matches!(muxer.init_segment_bytes(), Err(MuxError::EmptyTracks)));
    assert!(matches!(muxer.mfra_bytes(), Err(MuxError::EmptyTracks)));
}

#[test]
fn empty_samples_are_rejected() {
    let mut muxer = Fmp4SegmentMuxer::new().unwrap();
    assert!(matches!(muxer.create_media_segment_metadata(&[]), Err(MuxError::EmptySamples)));
    assert!(matches!(muxer.create_media_segment_metadata_with_sidx(&[]), Err(MuxError::EmptySamples)));
}

#[test]
fn media_segment_is_moof_and_mdat_header() {
    let mut muxer = Fmp4SegmentMuxer::new().unwrap();
    let samples = vec![
        video(Some(avc1(1920, 1080, 100)), 0, 1000, true),
        video(None, 1000, 200, false),
        video(None, 1200, 300, false),
    ];
    let seg = muxer.create_media_segment_metadata(&samples).unwrap();
    let bs = boxes(&seg);
    assert_eq!(bs.len(), 2);
    assert_eq!(&bs[0].0, b"moof");
    assert_eq!(&bs[1].0, b"mdat");
    // The mdat header announces the payload, which follows the returned bytes.
    assert_eq!(bs[1].2 - bs[1].1, 8 + 1500);
    assert_eq!(bs[1].1 + 8, seg.len());

    let moof = &seg[8..bs[0].2];
    let mfhd = child(moof, b"mfhd");
    assert_eq!(be32(mfhd, 4), 1);
    let traf = child(moof, b"traf");
    let tfhd = child(traf, b"tfhd");
    assert_eq!(be32(tfhd, 0), 0x0002_0000);
    assert_eq!(be32(tfhd, 4), 1);
    let tfdt = child(traf, b"tfdt");
    assert_eq!(be32(tfdt, 4), 0);
    let trun = child(traf, b"trun");
    assert_eq!(be32(trun, 0), 0x0000_0701);
    assert_eq!(be32(trun, 4), 3);
    // The data offset counts from the start of the moof to the payload.
    assert_eq!(be32(trun, 8) as usize, seg.len());
    assert_eq!(be32(trun, 12), 3000);
    assert_eq!(be32(trun, 16), 1000);
    assert_eq!(be32(trun, 20), 0x0200_0000);
    assert_eq!(be32(trun, 32), 0x0101_0000);
}

#[test]
fn sequence_numbers_and_decode_times_advance() {
    let mut muxer = Fmp4SegmentMuxer::new().unwrap();
    let first = vec![video(Some(avc1(640, 480, 66)), 0, 10, true), video(None, 10, 10, false)];
    muxer.create_media_segment_metadata(&first).unwrap();
    let second = vec![video(None, 0, 5, true)];
    let seg = muxer.create_media_segment_metadata(&second).unwrap();
    let moof = &seg[8..be32(&seg, 0) as usize];
    assert_eq!(be32(child(moof, b"mfhd"), 4), 2);
    let traf = child(moof, b"traf");
    assert_eq!(be32(child(traf, b"tfdt"), 4), 6000);
}

#[test]
fn errors_leave_the_muxer_unchanged() {
    let mut muxer = Fmp4SegmentMuxer::new().unwrap();
    // A track without a sample entry cannot be described.
    let err = muxer.create_media_segment_metadata(&[video(None, 0, 10, true)]).unwrap_err();
    assert!(matches!(err, MuxError::MissingSampleEntry { track_kind: TrackKind::Video }));
    assert!(matches!(muxer.init_segment_bytes(), Err(MuxError::EmptyTracks)));

    muxer.create_media_segment_metadata(&[video(Some(avc1(640, 480, 66)), 0, 10, true)]).unwrap();
    // Another timescale for the same track is refused.
    let mut other = video(None, 0, 10, true);
    other.timescale = 1000;
    let err = muxer.create_media_segment_metadata(&[other]).unwrap_err();
    assert!(matches!(err, MuxError::TimescaleMismatch { track_kind: TrackKind::Video, expected: 90000, actual: 1000 }));
    // The sequence number did not move.
    let seg = muxer.create_media_segment_metadata(&[video(None, 0, 10, true)]).unwrap();
    let moof = &seg[8..be32(&seg, 0) as usize];
    assert_eq!(be32(child(moof, b"mfhd"), 4), 2);
}

#[test]
fn mixed_sample_entries_are_rejected() {
    let mut muxer = Fmp4SegmentMuxer::new().unwrap();
    let samples = vec![video(Some(avc1(640, 480, 66)), 0, 10, true), video(Some(avc1(1280, 720, 77)), 10, 10, true)];
    let err = muxer.create_media_segment_metadata(&samples).unwrap_err();
    assert!(matches!(err, MuxError::MixedSampleEntries { track_kind: TrackKind::Video }));
}

#[test]
fn payloads_must_be_contiguous() {
    let mut muxer = Fmp4SegmentMuxer::new().unwrap();
    let gap = vec![video(Some(avc1(640, 480, 66)), 0, 10, true), video(None, 11, 10, false)];
    assert_eq!(kind_of(muxer.create_media_segment_metadata(&gap).unwrap_err()), Some(ErrorKind::InvalidInput));
    let late_start = vec![video(Some(avc1(640, 480, 66)), 4, 10, true)];
    assert_eq!(
        kind_of(muxer.create_media_segment_metadata(&late_start).unwrap_err()),
        Some(ErrorKind::InvalidInput)
    );
}

#[test]
fn tracks_follow_their_payload_order() {
    let mut muxer = Fmp4SegmentMuxer::new().unwrap();
    // Video samples come first in the list, but the audio payload comes first in the mdat.
    let samples = vec![
        video(Some(avc1(640, 480, 66)), 100, 50, true),
        audio(Some(mp4a()), 0, 60),
        audio(None, 60, 40),
    ];
    let seg = muxer.create_media_segment_metadata(&samples).unwrap();
    let moof = &seg[8..be32(&seg, 0) as usize];
    let trafs: Vec<&[u8]> = boxes(moof).into_iter().filter(|(t, _, _)| t == b"traf").map(|(_, s, e)| &moof[s + 8..e]).collect();
    assert_eq!(trafs.len(), 2);
    // The audio track (id 2) comes first, then the video track (id 1).
    assert_eq!(be32(child(trafs[0], b"tfhd"), 4), 2);
    assert_eq!(be32(child(trafs[1], b"tfhd"), 4), 1);
    assert_eq!(be32(child(trafs[0], b"trun"), 8) as usize, seg.len());
    assert_eq!(be32(child(trafs[1], b"trun"), 8) as usize, seg.len() + 100);
    // mdat payload size is the end of the last payload.
    let mdat = boxes(&seg)[1];
    assert_eq!(mdat.2 - mdat.1, 8 + 150);
}

#[test]
fn init_segment_reflects_tracks() {
    let options = SegmentMuxerOptions {
        creation_timestamp: 0,
        audio_track: TrackMetadata::default(),
        video_track: TrackMetadata { language: *b"jpn", name: "Video".to_string() },
        subtitle_track: TrackMetadata::default(),
    };
    let mut muxer = Fmp4SegmentMuxer::with_options(options).unwrap();
    let samples = vec![video(Some(avc1(1920, 1080, 100)), 0, 10, true), audio(Some(mp4a()), 10, 10)];
    muxer.create_media_segment_metadata(&samples).unwrap();
    let init = muxer.init_segment_bytes().unwrap();
    let bs = boxes(&init);
    assert_eq!(&bs[0].0, b"ftyp");
    assert_eq!(&bs[1].0, b"moov");
    assert_eq!(bs[1].2, init.len());
    let ftyp = &init[8..bs[0].2];
    assert_eq!(&ftyp[0..4], b"iso5");
    assert_eq!(&ftyp[8..], b"isomiso5iso6mp41avc1");

    let moov = &init[bs[1].1 + 8..];
    let mvhd = child(moov, b"mvhd");
    // 1970-01-01 is 2082844800 seconds after 1904-01-01.
    assert_eq!(be32(mvhd, 4), 2_082_844_800);
    assert_eq!(be32(mvhd, 12), 1000);
    assert_eq!(be32(mvhd, mvhd.len() - 4), 3);
    let traks: Vec<&[u8]> = boxes(moov).into_iter().filter(|(t, _, _)| t == b"trak").map(|(_, s, e)| &moov[s + 8..e]).collect();
    assert_eq!(traks.len(), 2);
    let tkhd = child(traks[0], b"tkhd");
    assert_eq!(be32(tkhd, 12), 1);
    assert_eq!(be32(tkhd, tkhd.len() - 8), 1920 << 16);
    assert_eq!(be32(tkhd, tkhd.len() - 4), 1080 << 16);
    let mdia = child(traks[0], b"mdia");
    let mdhd = child(mdia, b"mdhd");
    assert_eq!(be32(mdhd, 12), 90000);
    // "jpn" packed in three 5-bit letters.
    let jpn = ((b'j' - 0x60) as u32) << 10 | ((b'p' - 0x60) as u32) << 5 | (b'n' - 0x60) as u32;
    assert_eq!(u16::from_be_bytes([mdhd[20], mdhd[21]]) as u32, jpn);
    let hdlr = child(mdia, b"hdlr");
    assert_eq!(&hdlr[8..12], b"vide");
    assert_eq!(&hdlr[24..], b"Video\0");
    let minf = child(mdia, b"minf");
    child(minf, b"vmhd");
    let stsd = child(child(minf, b"stbl"), b"stsd");
    assert_eq!(be32(stsd, 4), 1);
    assert_eq!(&stsd[12..16], b"avc1");

    let audio_mdia = child(traks[1], b"mdia");
    assert_eq!(&child(audio_mdia, b"hdlr")[8..12], b"soun");
    child(child(audio_mdia, b"minf"), b"smhd");
    let audio_tkhd = child(traks[1], b"tkhd");
    assert_eq!(u16::from_be_bytes([audio_tkhd[36], audio_tkhd[37]]), 0x0100);

    let mvex = child(moov, b"mvex");
    let trexs: Vec<_> = boxes(mvex).into_iter().filter(|(t, _, _)| t == b"trex").collect();
    assert_eq!(trexs.len(), 2);
}

#[test]
fn subtitle_tracks_use_their_entry_handler() {
    let mut muxer = Fmp4SegmentMuxer::new().unwrap();
    let wvtt = SampleEntry::Wvtt(WvttBox {
        data_reference_index: 1,
        vttc_box: VttCBox { config: "WEBVTT".to_string() },
        unknown_boxes: vec![],
    });
    let sample = Sample {
        track_kind: TrackKind::Subtitle,
        timescale: 1000,
        sample_entry: Some(wvtt),
        duration: 2000,
        keyframe: true,
        composition_time_offset: None,
        data_offset: 0,
        data_size: 20,
    };
    muxer.create_media_segment_metadata(&[sample]).unwrap();
    let init = muxer.init_segment_bytes().unwrap();
    let moov = &init[be32(&init, 0) as usize + 8..];
    let mdia = child(child(moov, b"trak"), b"mdia");
    assert_eq!(&child(mdia, b"hdlr")[8..12], b"text");
    child(child(mdia, b"minf"), b"sthd");
}

#[test]
fn oversized_video_is_rejected_at_init() {
    let mut muxer = Fmp4SegmentMuxer::new().unwrap();
    muxer.create_media_segment_metadata(&[video(Some(avc1(0x8000, 480, 66)), 0, 10, true)]).unwrap();
    assert_eq!(kind_of(muxer.init_segment_bytes().unwrap_err()), Some(ErrorKind::InvalidData));
}

#[test]
fn composition_offsets_choose_the_trun_version() {
    let mut muxer = Fmp4SegmentMuxer::new().unwrap();
    let mut a = video(Some(avc1(640, 480, 66)), 0, 10, true);
    a.composition_time_offset = Some(-3000);
    let b = video(None, 10, 10, false);
    let seg = muxer.create_media_segment_metadata(&[a, b]).unwrap();
    let moof = &seg[8..be32(&seg, 0) as usize];
    let trun = child(child(moof, b"traf"), b"trun");
    // version 1, with offsets
    assert_eq!(be32(trun, 0), 0x0100_0F01);
    assert_eq!(be32(trun, 24) as i32, -3000);
    assert_eq!(be32(trun, 40), 0);

    let mut c = video(None, 0, 10, true);
    c.composition_time_offset = Some(-1);
    let mut d = video(None, 10, 10, true);
    d.composition_time_offset = Some(i32::MAX as i64 + 1);
    assert!(matches!(muxer.create_media_segment_metadata(&[c, d]), Err(MuxError::EncodeError(_))));
}

#[test]
fn sidx_heads_the_segment() {
    let mut muxer = Fmp4SegmentMuxer::new().unwrap();
    let mut first = video(Some(avc1(640, 480, 66)), 0, 100, false);
    first.composition_time_offset = Some(6000);
    let mut second = video(None, 100, 50, true);
    second.composition_time_offset = Some(0);
    let bytes = muxer.create_media_segment_metadata_with_sidx(&[first, second]).unwrap();
    let bs = boxes(&bytes);
    assert_eq!(&bs[0].0, b"sidx");
    assert_eq!(&bs[1].0, b"moof");
    let sidx = &bytes[8..bs[0].2];
    assert_eq!(be32(sidx, 4), 1);
    assert_eq!(be32(sidx, 8), 90000);
    // The earliest presentation time is that of the second sample (3000 + 0).
    assert_eq!(be32(sidx, 12), 3000);
    assert_eq!(u16::from_be_bytes([sidx[22], sidx[23]]), 1);
    // Referenced size: the moof, the mdat header and the payload.
    assert_eq!(be32(sidx, 24) as usize, bytes.len() - bs[0].2 + 150);
    assert_eq!(be32(sidx, 28), 6000);
    // The second sample (a keyframe) starts the subsegment: SAP of type 1.
    assert_eq!(be32(sidx, 32), 0x9000_0000);
}

#[test]
fn negative_earliest_presentation_time_overflows() {
    let mut muxer = Fmp4SegmentMuxer::new().unwrap();
    let mut s = video(Some(avc1(640, 480, 66)), 0, 10, true);
    s.composition_time_offset = Some(-1);
    assert!(matches!(muxer.create_media_segment_metadata_with_sidx(&[s]), Err(MuxError::Overflow)));
    // Nothing was learned.
    assert!(matches!(muxer.init_segment_bytes(), Err(MuxError::EmptyTracks)));
}

#[test]
fn sidx_duration_overflow_leaves_the_muxer_unchanged() {
    let mut muxer = Fmp4SegmentMuxer::new().unwrap();
    let mut first = video(Some(avc1(640, 480, 66)), 0, 10, true);
    first.duration = u32::MAX;
    let mut second = video(None, 10, 10, false);
    second.duration = u32::MAX;
    let err = muxer.create_media_segment_metadata_with_sidx(&[first, second]).unwrap_err();
    assert_eq!(kind_of(err), Some(ErrorKind::InvalidData));
    // No track was learned and no segment was counted.
    assert!(matches!(muxer.init_segment_bytes(), Err(MuxError::EmptyTracks)));
    assert!(matches!(muxer.mfra_bytes(), Err(MuxError::EmptyTracks)));
    let seg = muxer.create_media_segment_metadata(&[video(Some(avc1(640, 480, 66)), 0, 10, true)]).unwrap();
    let moof = &seg[8..be32(&seg, 0) as usize];
    assert_eq!(be32(child(moof, b"mfhd"), 4), 1);
    let traf = child(moof, b"traf");
    assert_eq!(be32(child(traf, b"tfdt"), 4), 0);
}

#[test]
fn large_payload_takes_a_16_byte_mdat_header() {
    let mut muxer = Fmp4SegmentMuxer::new().unwrap();
    let samples = vec![
        video(Some(avc1(640, 480, 66)), 0, 0x8000_0000, true),
        video(None, 0x8000_0000, 0x8000_0000, false),
    ];
    let seg = muxer.create_media_segment_metadata(&samples).unwrap();
    let moof_len = be32(&seg, 0) as usize;
    assert_eq!(seg.len(), moof_len + 16);
    let header = &seg[moof_len..];
    assert_eq!(be32(header, 0), 1);
    assert_eq!(&header[4..8], b"mdat");
    let size = u64::from_be_bytes(header[8..16].try_into().unwrap());
    assert_eq!(size, 16 + 0x1_0000_0000);
    // The payload of exactly u32::MAX - 8 bytes still fits the 8-byte header.
    let mut other = Fmp4SegmentMuxer::new().unwrap();
    let fits = vec![video(Some(avc1(640, 480, 66)), 0, 0xFFFF_FFF7, true)];
    let seg = other.create_media_segment_metadata(&fits).unwrap();
    let moof_len = be32(&seg, 0) as usize;
    assert_eq!(seg.len(), moof_len + 8);
    assert_eq!(be32(&seg, moof_len), 0xFFFF_FFFF);
}

#[test]
fn a_series_of_segments_counts_bytes_and_times() {
    let mut muxer = Fmp4SegmentMuxer::new().unwrap();
    let mut written = 0u64;
    let mut positions = Vec::new();
    for (i, entry) in [Some(avc1(640, 480, 66)), None, None].into_iter().enumerate() {
        let samples = vec![video(entry, 0, 100, true), video(None, 100, 20, false), audio(
            if i == 0 { Some(mp4a()) } else { None },
            120,
            30,
        )];
        let seg = muxer.create_media_segment_metadata(&samples).unwrap();
        positions.push(written);
        let moof = &seg[8..be32(&seg, 0) as usize];
        assert_eq!(be32(child(moof, b"mfhd"), 4), i as u32 + 1);
        let trafs: Vec<&[u8]> = boxes(moof).into_iter().filter(|(t, _, _)| t == b"traf").map(|(_, s, e)| &moof[s + 8..e]).collect();
        // video then audio, in the order of their payloads
        assert_eq!(be32(child(trafs[0], b"tfdt"), 4), 6000 * i as u32);
        assert_eq!(be32(child(trafs[1], b"tfdt"), 4), 1024 * i as u32);
        written += seg.len() as u64 + 150;
    }
    // a failing call in between changes nothing
    assert!(muxer.create_media_segment_metadata(&[]).is_err());
    let init = muxer.init_segment_bytes().unwrap();
    let mfra = muxer.mfra_bytes().unwrap();
    let tfras: Vec<&[u8]> = boxes(&mfra[8..]).into_iter().filter(|(t, _, _)| t == b"tfra").map(|(_, s, e)| &mfra[8 + s + 8..8 + e]).collect();
    assert_eq!(tfras.len(), 2);
    for tfra in tfras {
        assert_eq!(be32(tfra, 12), 3);
        for (j, pos) in positions.iter().enumerate() {
            // version 0 entries: time, moof_offset, then three one-byte numbers
            let at = 16 + j * 11;
            assert_eq!(be32(tfra, at + 4) as u64, init.len() as u64 + pos);
        }
    }
}

#[test]
fn mfra_points_at_each_moof() {
    let mut muxer = Fmp4SegmentMuxer::new().unwrap();
    let seg1 = muxer.create_media_segment_metadata(&[video(Some(avc1(640, 480, 66)), 0, 100, true)]).unwrap();
    let seg2 = muxer.create_media_segment_metadata_with_sidx(&[video(None, 0, 50, true)]).unwrap();
    let init = muxer.init_segment_bytes().unwrap();
    let mfra = muxer.mfra_bytes().unwrap();
    assert_eq!(&mfra[4..8], b"mfra");
    assert_eq!(be32(&mfra, 0) as usize, mfra.len());
    let payload = &mfra[8..];
    let tfra = child(payload, b"tfra");
    assert_eq!(be32(tfra, 4), 1);
    assert_eq!(be32(tfra, 12), 2);
    // version 0 entries: time, moof offset, traf/trun/sample numbers (1 byte each)
    assert_eq!(be32(tfra, 16), 0);
    assert_eq!(be32(tfra, 20) as usize, init.len());
    assert_eq!(&tfra[24..27], &[1, 1, 1]);
    assert_eq!(be32(tfra, 27), 3000);
    let sidx_len = be32(&seg2, 0) as usize;
    assert_eq!(be32(tfra, 31) as usize, init.len() + seg1.len() + 100 + sidx_len);
    let mfro = child(payload, b"mfro");
    assert_eq!(be32(mfro, 4) as usize, mfra.len());
}

#[test]
fn new_sample_entries_are_added_to_stsd() {
    let mut muxer = Fmp4SegmentMuxer::new().unwrap();
    muxer.create_media_segment_metadata(&[video(Some(avc1(640, 480, 66)), 0, 10, true)]).unwrap();
    let seg = muxer.create_media_segment_metadata(&[video(Some(avc1(1280, 720, 77)), 0, 10, true)]).unwrap();
    // The second entry is the track's second sample description.
    let moof = &seg[8..be32(&seg, 0) as usize];
    let tfhd = child(child(moof, b"traf"), b"tfhd");
    assert_eq!(be32(tfhd, 0), 0x0002_0002);
    assert_eq!(be32(tfhd, 8), 2);
    // A sample without an entry keeps using the current one.
    let seg = muxer.create_media_segment_metadata(&[video(None, 0, 10, true)]).unwrap();
    let moof = &seg[8..be32(&seg, 0) as usize];
    let tfhd = child(child(moof, b"traf"), b"tfhd");
    assert_eq!(be32(tfhd, 8), 2);
    // Going back to the first entry needs no sample description index.
    let seg = muxer.create_media_segment_metadata(&[video(Some(avc1(640, 480, 66)), 0, 10, true)]).unwrap();
    let moof = &seg[8..be32(&seg, 0) as usize];
    let tfhd = child(child(moof, b"traf"), b"tfhd");
    assert_eq!(be32(tfhd, 0), 0x0002_0000);

    let init = muxer.init_segment_bytes().unwrap();
    let moov = &init[be32(&init, 0) as usize + 8..];
    let stbl = child(child(child(child(moov, b"trak"), b"mdia"), b"minf"), b"stbl");
    let stsd = child(stbl, b"stsd");
    assert_eq!(be32(stsd, 4), 2);
    let entries = boxes(&stsd[8..]);
    assert_eq!(entries.len(), 2);
    assert_eq!(&entries[0].0, b"avc1");
    assert_eq!(&entries[1].0, b"avc1");
}

#[test]
fn each_segment_adds_one_random_access_entry_per_track() {
    let mut muxer = Fmp4SegmentMuxer::new().unwrap();
    muxer
        .create_media_segment_metadata(&[video(Some(avc1(640, 480, 66)), 0, 10, true), audio(Some(mp4a()), 10, 10)])
        .unwrap();
    muxer.create_media_segment_metadata(&[audio(None, 0, 10), audio(None, 10, 10)]).unwrap();
    let mfra = muxer.mfra_bytes().unwrap();
    let tfras: Vec<&[u8]> = boxes(&mfra[8..]).into_iter().filter(|(t, _, _)| t == b"tfra").map(|(_, s, e)| &mfra[8 + s + 8..8 + e]).collect();
    assert_eq!(tfras.len(), 2);
    // video: one segment; audio: two segments, the second at decode time 1024
    assert_eq!(be32(tfras[0], 4), 1);
    assert_eq!(be32(tfras[0], 12), 1);
    assert_eq!(be32(tfras[1], 4), 2);
    assert_eq!(be32(tfras[1], 12), 2);
    assert_eq!(be32(tfras[1], 16 + 11), 1024);
    // in the first segment the audio fragment is the second traf
    assert_eq!(tfras[1][16 + 8], 2);
    assert_eq!(tfras[1][16 + 11 + 8], 1);
}

#[test]
fn earliest_presentation_ties_keep_the_first_sample() {
    let mut muxer = Fmp4SegmentMuxer::new().unwrap();
    // Both samples are presented at 6000; the first one (not a keyframe) decides.
    let mut first = video(Some(avc1(640, 480, 66)), 0, 10, false);
    first.composition_time_offset = Some(6000);
    let mut second = video(None, 10, 10, true);
    second.composition_time_offset = Some(3000);
    let bytes = muxer.create_media_segment_metadata_with_sidx(&[first, second]).unwrap();
    let sidx = &bytes[8..be32(&bytes, 0) as usize];
    assert_eq!(be32(sidx, 12), 6000);
    assert_eq!(be32(sidx, 32), 0);
}
