//! Error kinds of encoding and decoding, box size forms, and edge cases of the encoders and the muxer.

use shiguredo_mp4::aac::{
    encode_audio_specific_config, AudioObjectType, AudioSpecificConfig, ChannelConfiguration, SamplingFrequency,
};
use shiguredo_mp4::avcc::AvccBox;
use shiguredo_mp4::codec::{BoxSize, BoxType, UnknownBox};
use shiguredo_mp4::config_simple::DopsBox;
use shiguredo_mp4::error::ErrorKind;
use shiguredo_mp4::hvcc::HvccBox;
use shiguredo_mp4::mux::{MuxError, SegmentMuxerOptions, TrackMetadata};
use shiguredo_mp4::sample_entry::SampleEntry;
use shiguredo_mp4::segment_muxer::Fmp4SegmentMuxer;

fn avcc(sps: usize) -> AvccBox {
    AvccBox {
        avc_profile_indication: 66,
        profile_compatibility: 0,
        avc_level_indication: 30,
        length_size_minus_one: 3,
        sps_list: vec![vec![0x67, 0x42]; sps],
        pps_list: vec![vec![0x68]],
        chroma_format: None,
        bit_depth_luma_minus8: None,
        bit_depth_chroma_minus8: None,
        sps_ext_list: vec![],
    }
}

fn hvcc() -> HvccBox {
    HvccBox {
        general_profile_space: 0,
        general_tier_flag: 0,
        general_profile_idc: 1,
        general_profile_compatibility_flags: 0x6000_0000,
        general_constraint_indicator_flags: 0,
        general_level_idc: 93,
        min_spatial_segmentation_idc: 0,
        parallelism_type: 0,
        chroma_format_idc: 1,
        bit_depth_luma_minus8: 0,
        bit_depth_chroma_minus8: 0,
        avg_frame_rate: 0,
        constant_frame_rate: 0,
        num_temporal_layers: 1,
        temporal_id_nested: 1,
        length_size_minus_one: 3,
        nalu_arrays: vec![],
    }
}

#[test]
fn avcc_encode_errors_are_invalid_input() {
    assert!(avcc(31).encode_to_vec().is_ok());
    assert_eq!(avcc(32).encode_to_vec().unwrap_err().kind, ErrorKind::InvalidInput);
    let mut high = avcc(1);
    high.avc_profile_indication = 100;
    assert_eq!(high.encode_to_vec().unwrap_err().kind, ErrorKind::InvalidInput);
    let mut long = avcc(1);
    long.pps_list = vec![vec![0; 65536]];
    assert_eq!(long.encode_to_vec().unwrap_err().kind, ErrorKind::InvalidInput);
}

#[test]
fn hvcc_decode_errors_are_invalid_data() {
    let mut bytes = hvcc().encode_to_vec().unwrap();
    let n = bytes.len();
    assert_eq!(HvccBox::decode(&bytes).unwrap(), (hvcc(), n));
    // configurationVersion other than 1
    bytes[8] = 2;
    assert_eq!(HvccBox::decode(&bytes).unwrap_err().kind, ErrorKind::InvalidData);
    // truncated payload
    let short = vec![0, 0, 0, 12, b'h', b'v', b'c', b'C', 1, 0, 0, 0];
    assert_eq!(HvccBox::decode(&short).unwrap_err().kind, ErrorKind::InvalidData);
    // another box type
    let mut other = hvcc().encode_to_vec().unwrap();
    other[4] = b'x';
    assert_eq!(HvccBox::decode(&other).unwrap_err().kind, ErrorKind::InvalidData);
}

#[test]
fn dops_channel_mapping_family_is_unsupported() {
    // dOps payload with ChannelMappingFamily 1
    let bytes = vec![0, 0, 0, 19, b'd', b'O', b'p', b's', 0, 2, 0, 0, 0, 0, 0xBB, 0x80, 0, 0, 1];
    assert_eq!(DopsBox::decode(&bytes).unwrap_err().kind, ErrorKind::Unsupported);
}

/// The header of an unknown box is written back in the form it was read.
#[test]
fn unknown_box_keeps_its_size_form() {
    // 64-bit size
    let large = vec![0, 0, 0, 1, b'a', b'b', b'c', b'd', 0, 0, 0, 0, 0, 0, 0, 19, 7, 8, 9];
    let (b, n) = UnknownBox::decode(&large).unwrap();
    assert_eq!(n, 19);
    assert_eq!(b.box_size, BoxSize::U64(19));
    assert_eq!(b.payload, vec![7, 8, 9]);
    assert_eq!(b.encode_to_vec().unwrap(), large);

    // size 0: the box runs to the end of the data
    let open = vec![0, 0, 0, 0, b'a', b'b', b'c', b'd', 1, 2];
    let (b, n) = UnknownBox::decode(&open).unwrap();
    assert_eq!(n, 10);
    assert_eq!(b.box_size, BoxSize::U32(0));
    assert_eq!(b.encode_to_vec().unwrap(), open);
    let (e, _) = SampleEntry::decode(&open).unwrap();
    assert_eq!(e.encode_to_vec().unwrap(), open);

    // the size form chosen for a payload
    let t = BoxType::from_fourcc(*b"abcd");
    assert_eq!(BoxSize::with_payload_size(t, 3), BoxSize::U32(11));
    assert_eq!(BoxSize::with_payload_size(t, 0xFFFF_FFF7), BoxSize::U32(0xFFFF_FFFF));
    assert_eq!(BoxSize::with_payload_size(t, 0xFFFF_FFF8), BoxSize::U64(0x1_0000_0008));
}

/// Every frequency encodes with AAC-LC in the first five bits and the three
/// GASpecificConfig flags at 0 in the last byte.
#[test]
fn asc_encoding_starts_with_aac_lc_and_ends_with_zero_flags() {
    for hz in [96000u32, 48000, 44100, 7350, 1, 12345, 0xFF_FFFF] {
        let c = AudioSpecificConfig {
            audio_object_type: AudioObjectType::AacLc,
            sampling_frequency: SamplingFrequency::from_hz(hz).unwrap(),
            channel_configuration: ChannelConfiguration::SevenPointOne,
        };
        let out = encode_audio_specific_config(&c);
        let standard = [96000, 48000, 44100, 7350].contains(&hz);
        assert_eq!(out.len(), if standard { 2 } else { 5 });
        assert_eq!(out[0] >> 3, 2);
        assert_eq!(out[out.len() - 1] & 0x07, 0);
    }
}

/// Without a track the initialization segment and `mfra` are refused with
/// `EmptyTracks`, whatever the creation time.
#[test]
fn empty_tracks_before_the_creation_time_is_used() {
    let options = SegmentMuxerOptions {
        creation_timestamp: u64::MAX,
        audio_track: TrackMetadata::default(),
        video_track: TrackMetadata::default(),
        subtitle_track: TrackMetadata::default(),
    };
    let muxer = Fmp4SegmentMuxer::with_options(options).unwrap();
    assert!(matches!(muxer.init_segment_bytes(), Err(MuxError::EmptyTracks)));
    assert!(matches!(muxer.mfra_bytes(), Err(MuxError::EmptyTracks)));
}
