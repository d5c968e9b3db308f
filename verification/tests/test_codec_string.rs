//! RFC 6381 `codecs` strings of sample entries.

use shiguredo_mp4::avcc::AvccBox;
use shiguredo_mp4::codec::{BoxSize, BoxType, UnknownBox};
use shiguredo_mp4::codec_string::from_sample_entry;
use shiguredo_mp4::config_simple::{Av1cBox, DopsBox, VpccBox};
use shiguredo_mp4::entry::{AudioSampleEntryFields, FixedPointNumber, VisualSampleEntryFields};
use shiguredo_mp4::error::ErrorKind;
use shiguredo_mp4::esds::{
    DecoderConfigDescriptor, DecoderSpecificInfo, EsDescriptor, EsdsBox, SlConfigDescriptor,
};
use shiguredo_mp4::hvcc::HvccBox;
use shiguredo_mp4::sample_entries::{
    Av01Box, Avc1Box, Hev1Box, Hvc1Box, Mp4aBox, Mp4vBox, OpusBox, Vp08Box, Vp09Box,
};
use shiguredo_mp4::sample_entry::SampleEntry;
use shiguredo_mp4::subtitle::VttCBox;

fn visual() -> VisualSampleEntryFields {
    VisualSampleEntryFields {
        data_reference_index: VisualSampleEntryFields::DEFAULT_DATA_REFERENCE_INDEX,
        width: 1920,
        height: 1080,
        horizresolution: VisualSampleEntryFields::default_horizresolution(),
        vertresolution: VisualSampleEntryFields::default_vertresolution(),
        frame_count: VisualSampleEntryFields::DEFAULT_FRAME_COUNT,
        compressorname: VisualSampleEntryFields::null_compressorname(),
        depth: VisualSampleEntryFields::DEFAULT_DEPTH,
    }
}

fn audio() -> AudioSampleEntryFields {
    AudioSampleEntryFields {
        data_reference_index: AudioSampleEntryFields::DEFAULT_DATA_REFERENCE_INDEX,
        channelcount: 2,
        samplesize: AudioSampleEntryFields::DEFAULT_SAMPLESIZE,
        samplerate: FixedPointNumber::new(48000, 0),
    }
}

fn esds(object_type_indication: u8, stream_type: u8, info: Option<Vec<u8>>) -> EsdsBox {
    EsdsBox {
        es: EsDescriptor {
            es_id: 1,
            stream_priority: 0,
            depends_on_es_id: None,
            url_string: None,
            ocr_es_id: None,
            dec_config_descr: DecoderConfigDescriptor {
                object_type_indication,
                stream_type,
                up_stream: 0,
                buffer_size_db: 0,
                max_bitrate: 0,
                avg_bitrate: 0,
                dec_specific_info: info.map(|payload| DecoderSpecificInfo { payload }),
            },
            sl_config_descr: SlConfigDescriptor,
        },
    }
}

fn hvcc(profile_idc: u8, compatibility: u32, tier: u8, level: u8, constraints: u64) -> HvccBox {
    HvccBox {
        general_profile_space: 0,
        general_tier_flag: tier,
        general_profile_idc: profile_idc,
        general_profile_compatibility_flags: compatibility,
        general_constraint_indicator_flags: constraints,
        general_level_idc: level,
        min_spatial_segmentation_idc: 0,
        parallelism_type: 0,
        chroma_format_idc: 1,
        bit_depth_luma_minus8: 0,
        bit_depth_chroma_minus8: 0,
        avg_frame_rate: 0,
        constant_frame_rate: 0,
        num_temporal_layers: 1,
        temporal_id_nested: 1,
        length_size_minus_one: 3,
        nalu_arrays: vec![],
    }
}

fn vpcc(profile: u8, level: u8, bit_depth: u8) -> VpccBox {
    VpccBox {
        profile,
        level,
        bit_depth,
        chroma_subsampling: 1,
        video_full_range_flag: 0,
        colour_primaries: 1,
        transfer_characteristics: 1,
        matrix_coefficients: 1,
        codec_initialization_data: vec![],
    }
}

#[test]
fn avc1_high_profile_level_4() {
    let entry = SampleEntry::Avc1(Avc1Box {
        visual: visual(),
        avcc_box: AvccBox {
            avc_profile_indication: 100,
            profile_compatibility: 0,
            avc_level_indication: 40,
            length_size_minus_one: 3,
            sps_list: vec![],
            pps_list: vec![],
            chroma_format: None,
            bit_depth_luma_minus8: None,
            bit_depth_chroma_minus8: None,
            sps_ext_list: vec![],
        },
        unknown_boxes: vec![],
    });
    assert_eq!(from_sample_entry(&entry).unwrap(), "avc1.640028");
}

#[test]
fn hev1_main_profile() {
    let entry = SampleEntry::Hev1(Hev1Box {
        visual: visual(),
        hvcc_box: hvcc(1, 0x6000_0000, 0, 93, 0xB000_0000_0000),
        unknown_boxes: vec![],
    });
    assert_eq!(from_sample_entry(&entry).unwrap(), "hev1.1.6.L93.B0");
}

#[test]
fn hvc1_high_tier() {
    let entry = SampleEntry::Hvc1(Hvc1Box {
        visual: visual(),
        hvcc_box: hvcc(2, 0x2000_0000, 1, 120, 0),
        unknown_boxes: vec![],
    });
    assert_eq!(from_sample_entry(&entry).unwrap(), "hvc1.2.4.H120.00");
}

#[test]
fn av01_main_profile() {
    let entry = SampleEntry::Av01(Av01Box {
        visual: visual(),
        av1c_box: Av1cBox {
            seq_profile: 0,
            seq_level_idx_0: 1,
            seq_tier_0: 0,
            high_bitdepth: 0,
            twelve_bit: 0,
            monochrome: 0,
            chroma_subsampling_x: 1,
            chroma_subsampling_y: 1,
            chroma_sample_position: 0,
            initial_presentation_delay_minus_one: None,
            config_obus: vec![],
        },
        unknown_boxes: vec![],
    });
    assert_eq!(from_sample_entry(&entry).unwrap(), "av01.0.01M.08");
}

#[test]
fn vp09_and_vp08() {
    let vp09 = SampleEntry::Vp09(Vp09Box { visual: visual(), vpcc_box: vpcc(0, 31, 8), unknown_boxes: vec![] });
    assert_eq!(from_sample_entry(&vp09).unwrap(), "vp09.00.31.08");
    let vp08 = SampleEntry::Vp08(Vp08Box { visual: visual(), vpcc_box: vpcc(0, 10, 8), unknown_boxes: vec![] });
    assert_eq!(from_sample_entry(&vp08).unwrap(), "vp08.00.10.08");
}

#[test]
fn mp4a_aac_lc() {
    let entry = SampleEntry::Mp4a(Mp4aBox {
        audio: audio(),
        esds_box: esds(0x40, 0x05, Some(vec![0x11, 0x90])),
        unknown_boxes: vec![],
    });
    assert_eq!(from_sample_entry(&entry).unwrap(), "mp4a.40.2");
}

#[test]
fn mp4a_without_audio_specific_config_is_invalid_data() {
    let entry = SampleEntry::Mp4a(Mp4aBox {
        audio: audio(),
        esds_box: esds(0x40, 0x05, None),
        unknown_boxes: vec![],
    });
    assert_eq!(from_sample_entry(&entry).unwrap_err().kind, ErrorKind::InvalidData);
}

#[test]
fn mp4v_visual_and_mpeg2() {
    let visual_entry = SampleEntry::Mp4v(Mp4vBox {
        visual: visual(),
        esds_box: esds(0x20, 0x04, Some(vec![0x00, 0x00, 0x01, 0xB0, 0x09, 0x00])),
        unknown_boxes: vec![],
    });
    assert_eq!(from_sample_entry(&visual_entry).unwrap(), "mp4v.20.9");
    let mpeg2 = SampleEntry::Mp4v(Mp4vBox {
        visual: visual(),
        esds_box: esds(0x61, 0x04, None),
        unknown_boxes: vec![],
    });
    assert_eq!(from_sample_entry(&mpeg2).unwrap(), "mp4v.61");
}

#[test]
fn opus_is_its_fourcc() {
    let entry = SampleEntry::Opus(OpusBox {
        audio: audio(),
        dops_box: DopsBox { output_channel_count: 2, pre_skip: 312, input_sample_rate: 48000, output_gain: 0 },
        unknown_boxes: vec![],
    });
    assert_eq!(from_sample_entry(&entry).unwrap(), "Opus");
}

#[test]
fn unknown_entry_is_unsupported() {
    let entry = SampleEntry::Unknown(UnknownBox {
        box_type: BoxType::from_fourcc(*b"abcd"),
        box_size: BoxSize::U32(11),
        payload: vec![1, 2, 3],
    });
    assert_eq!(from_sample_entry(&entry).unwrap_err().kind, ErrorKind::Unsupported);
}

#[test]
fn vttc_box_rejects_invalid_utf8() {
    let good = VttCBox { config: "WEBVTT é".to_string() };
    let mut bytes = good.encode_to_vec().unwrap();
    let (decoded, _) = VttCBox::decode(&bytes).unwrap();
    assert_eq!(decoded.config, "WEBVTT é");
    // Break the two-byte sequence of 'é'.
    let last = bytes.len() - 1;
    bytes[last] = 0xFF;
    assert!(VttCBox::decode(&bytes).is_err());
}
