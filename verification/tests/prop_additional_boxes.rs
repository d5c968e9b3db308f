//! Encode/decode round trips of sample entry boxes and their parts, over
//! values drawn from a fixed-seed generator.

use shiguredo_mp4::avcc::AvccBox;
use shiguredo_mp4::codec::{BoxSize, BoxType, UnknownBox};
use shiguredo_mp4::config_simple::{Av1cBox, DopsBox, VpccBox};
use shiguredo_mp4::dfla::{DflaBox, FlacMetadataBlock};
use shiguredo_mp4::entry::{AudioSampleEntryFields, FixedPointNumber, VisualSampleEntryFields};
use shiguredo_mp4::esds::{
    DecoderConfigDescriptor, DecoderSpecificInfo, EsDescriptor, EsdsBox, SlConfigDescriptor,
};
use shiguredo_mp4::hvcc::HvccBox;
use shiguredo_mp4::sample_entries::{
    Av01Box, Avc1Box, FlacBox, Hev1Box, Hvc1Box, Mp4aBox, Mp4vBox, OpusBox, Vp08Box, Vp09Box,
};
use shiguredo_mp4::sample_entry::SampleEntry;
use shiguredo_mp4::subtitle::{StppBox, VttCBox, WvttBox};
use shiguredo_mp4::tx3g::{BoxRecord, FontRecord, FtabBox, StyleRecord, Tx3gBox};

/// Number of cases per test
const CASES: usize = 100;

/// A small deterministic generator (xorshift64*).
struct Gen(u64);

impl Gen {
    fn new(seed: u64) -> Self {
        Gen(seed | 1)
    }

    fn next(&mut self) -> u64 {
        let mut x = self.0;
        x ^= x >> 12;
        x ^= x << 25;
        x ^= x >> 27;
        self.0 = x;
        x.wrapping_mul(0x2545_F491_4F6C_DD1D)
    }

    /// A value in `lo..=hi`.
    fn range(&mut self, lo: u64, hi: u64) -> u64 {
        lo + self.next() % (hi - lo + 1)
    }

    fn u8(&mut self) -> u8 {
        self.next() as u8
    }

    fn u16(&mut self) -> u16 {
        self.next() as u16
    }

    fn u32(&mut self) -> u32 {
        self.next() as u32
    }

    fn bool(&mut self) -> bool {
        self.next() & 1 == 1
    }

    fn bytes(&mut self, n: usize) -> Vec<u8> {
        (0..n).map(|_| self.u8()).collect()
    }

    fn array<const N: usize>(&mut self) -> [u8; N] {
        let mut a = [0u8; N];
        for b in a.iter_mut() {
            *b = self.u8();
        }
        a
    }

    /// A string without null characters, of up to `max` characters.
    fn text(&mut self, max: u64) -> String {
        let len = self.range(0, max);
        let mut s = String::new();
        while (s.chars().count() as u64) < len {
            let c = match self.range(0, 3) {
                0 => char::from_u32(self.range(0x20, 0x7E) as u32),
                1 => char::from_u32(self.range(0x80, 0x7FF) as u32),
                2 => char::from_u32(self.range(0x3040, 0x30FF) as u32),
                _ => char::from_u32(self.range(0x1F300, 0x1F5FF) as u32),
            };
            if let Some(c) = c {
                s.push(c);
            }
        }
        s
    }
}

fn audio_fields(g: &mut Gen) -> AudioSampleEntryFields {
    AudioSampleEntryFields {
        data_reference_index: g.range(1, u16::MAX as u64) as u16,
        channelcount: g.range(1, 8) as u16,
        samplesize: g.u16(),
        samplerate: FixedPointNumber::new(g.u16(), g.u16()),
    }
}

fn visual_fields(g: &mut Gen) -> VisualSampleEntryFields {
    VisualSampleEntryFields {
        data_reference_index: g.range(1, u16::MAX as u64) as u16,
        width: g.range(1, 4096) as u16,
        height: g.range(1, 4096) as u16,
        horizresolution: FixedPointNumber::new(g.u16(), g.u16()),
        vertresolution: FixedPointNumber::new(g.u16(), g.u16()),
        frame_count: g.u16(),
        compressorname: g.array::<32>(),
        depth: g.u16(),
    }
}

fn dops_box(g: &mut Gen) -> DopsBox {
    DopsBox {
        output_channel_count: g.range(1, 8) as u8,
        pre_skip: g.u16(),
        input_sample_rate: g.u32(),
        output_gain: g.u16() as i16,
    }
}

fn dec_specific_info(g: &mut Gen) -> Option<DecoderSpecificInfo> {
    if g.bool() {
        let n = g.range(0, 19) as usize;
        Some(DecoderSpecificInfo { payload: g.bytes(n) })
    } else {
        None
    }
}

fn aac_esds_box(g: &mut Gen) -> EsdsBox {
    EsdsBox {
        es: EsDescriptor {
            es_id: g.range(1, u16::MAX as u64) as u16,
            stream_priority: g.range(0, 31) as u8,
            depends_on_es_id: None,
            url_string: None,
            ocr_es_id: None,
            dec_config_descr: DecoderConfigDescriptor {
                object_type_indication: 0x40,
                stream_type: 0x05,
                up_stream: 0,
                buffer_size_db: 0,
                max_bitrate: g.u32(),
                avg_bitrate: g.u32(),
                dec_specific_info: dec_specific_info(g),
            },
            sl_config_descr: SlConfigDescriptor,
        },
    }
}

fn mpeg2_video_esds_box(g: &mut Gen) -> EsdsBox {
    EsdsBox {
        es: EsDescriptor {
            es_id: g.range(1, u16::MAX as u64) as u16,
            stream_priority: g.range(0, 31) as u8,
            depends_on_es_id: None,
            url_string: None,
            ocr_es_id: None,
            dec_config_descr: DecoderConfigDescriptor {
                object_type_indication: g.range(0x60, 0x65) as u8,
                stream_type: 0x04,
                up_stream: 0,
                buffer_size_db: g.u32() & 0x00FF_FFFF,
                max_bitrate: g.u32(),
                avg_bitrate: g.u32(),
                dec_specific_info: dec_specific_info(g),
            },
            sl_config_descr: SlConfigDescriptor,
        },
    }
}

fn dfla_box(g: &mut Gen) -> DflaBox {
    DflaBox {
        metadata_blocks: vec![FlacMetadataBlock {
            last_metadata_block_flag: 1,
            block_type: FlacMetadataBlock::BLOCK_TYPE_STREAMINFO,
            block_data: g.bytes(34),
        }],
    }
}

fn nal_list(g: &mut Gen, max_count: u64) -> Vec<Vec<u8>> {
    let n = g.range(0, max_count);
    (0..n)
        .map(|_| {
            let len = g.range(0, 29) as usize;
            g.bytes(len)
        })
        .collect()
}

fn avcc_box(g: &mut Gen) -> AvccBox {
    let profiles = [66u8, 77, 88];
    AvccBox {
        avc_profile_indication: profiles[g.range(0, 2) as usize],
        profile_compatibility: g.u8(),
        avc_level_indication: g.u8(),
        length_size_minus_one: g.range(0, 3) as u8,
        sps_list: nal_list(g, 31),
        pps_list: nal_list(g, 40),
        chroma_format: None,
        bit_depth_luma_minus8: None,
        bit_depth_chroma_minus8: None,
        sps_ext_list: vec![],
    }
}

fn hvcc_box(g: &mut Gen) -> HvccBox {
    HvccBox {
        general_profile_space: g.range(0, 3) as u8,
        general_tier_flag: g.bool() as u8,
        general_profile_idc: g.range(0, 31) as u8,
        general_profile_compatibility_flags: g.u32(),
        general_constraint_indicator_flags: 0,
        general_level_idc: g.u8(),
        min_spatial_segmentation_idc: 0,
        parallelism_type: 0,
        chroma_format_idc: 1,
        bit_depth_luma_minus8: 0,
        bit_depth_chroma_minus8: 0,
        avg_frame_rate: 0,
        constant_frame_rate: 0,
        num_temporal_layers: 1,
        temporal_id_nested: 1,
        length_size_minus_one: g.range(0, 3) as u8,
        nalu_arrays: vec![],
    }
}

fn vpcc_box(g: &mut Gen) -> VpccBox {
    VpccBox {
        profile: g.u8(),
        level: g.u8(),
        bit_depth: g.range(0, 15) as u8,
        chroma_subsampling: g.range(0, 7) as u8,
        video_full_range_flag: g.bool() as u8,
        colour_primaries: 1,
        transfer_characteristics: 1,
        matrix_coefficients: 1,
        codec_initialization_data: vec![],
    }
}

fn av1c_box(g: &mut Gen) -> Av1cBox {
    Av1cBox {
        seq_profile: g.range(0, 7) as u8,
        seq_level_idx_0: g.range(0, 31) as u8,
        seq_tier_0: g.bool() as u8,
        high_bitdepth: 0,
        twelve_bit: 0,
        monochrome: 0,
        chroma_subsampling_x: 1,
        chroma_subsampling_y: 1,
        chroma_sample_position: 0,
        initial_presentation_delay_minus_one: None,
        config_obus: vec![],
    }
}

/// An unknown child box, of a type that no sample entry gives a meaning to.
fn unknown_box(g: &mut Gen) -> UnknownBox {
    let n = g.range(0, 63) as usize;
    let box_type = BoxType::from_fourcc([b'x', b'y', g.range(b'a' as u64, b'z' as u64) as u8, b'0']);
    let payload = g.bytes(n);
    UnknownBox { box_type, box_size: BoxSize::with_payload_size(box_type, payload.len() as u64), payload }
}

fn unknown_boxes(g: &mut Gen) -> Vec<UnknownBox> {
    let n = g.range(0, 2);
    (0..n).map(|_| unknown_box(g)).collect()
}

fn stpp_box(g: &mut Gen) -> StppBox {
    StppBox {
        data_reference_index: g.range(1, u16::MAX as u64) as u16,
        namespace: g.text(100),
        schema_location: g.text(100),
        auxiliary_mime_types: g.text(100),
        unknown_boxes: unknown_boxes(g),
    }
}

fn vttc_box(g: &mut Gen) -> VttCBox {
    let mut config = g.text(100);
    if g.bool() {
        config.push('\n');
        config.push('\0');
        config.push_str("WEBVTT");
    }
    VttCBox { config }
}

fn wvtt_box(g: &mut Gen) -> WvttBox {
    WvttBox {
        data_reference_index: g.range(1, u16::MAX as u64) as u16,
        vttc_box: vttc_box(g),
        unknown_boxes: unknown_boxes(g),
    }
}

fn box_record(g: &mut Gen) -> BoxRecord {
    BoxRecord {
        top: g.u16() as i16,
        left: g.u16() as i16,
        bottom: g.u16() as i16,
        right: g.u16() as i16,
    }
}

fn style_record(g: &mut Gen) -> StyleRecord {
    StyleRecord {
        start_char: g.u16(),
        end_char: g.u16(),
        font_id: g.u16(),
        face_style_flags: g.u8(),
        font_size: g.u8(),
        text_color_rgba: g.array::<4>(),
    }
}

fn ftab_box(g: &mut Gen) -> FtabBox {
    let n = g.range(0, 8);
    FtabBox {
        entries: (0..n)
            .map(|_| {
                let len = g.range(0, 255) as usize;
                FontRecord { font_id: g.u16(), font_name: g.bytes(len) }
            })
            .collect(),
    }
}

fn tx3g_box(g: &mut Gen) -> Tx3gBox {
    Tx3gBox {
        data_reference_index: g.range(1, u16::MAX as u64) as u16,
        display_flags: g.u32(),
        horizontal_justification: g.u8() as i8,
        vertical_justification: g.u8() as i8,
        background_color_rgba: g.array::<4>(),
        default_text_box: box_record(g),
        default_style: style_record(g),
        ftab_box: ftab_box(g),
        unknown_boxes: unknown_boxes(g),
    }
}

#[test]
fn unknown_box_roundtrip() {
    let mut g = Gen::new(0x5eed_0001);
    for _ in 0..CASES {
        let box_type = BoxType::from_fourcc(g.array::<4>());
        let n = g.range(0, 99) as usize;
        let payload = g.bytes(n);
        let unknown = UnknownBox {
            box_type,
            box_size: BoxSize::with_payload_size(box_type, payload.len() as u64),
            payload: payload.clone(),
        };
        let encoded = unknown.encode_to_vec().expect("a small box encodes");
        let (decoded, size) = UnknownBox::decode(&encoded).expect("an encoded box decodes");
        assert_eq!(size, encoded.len());
        assert_eq!(decoded.payload, payload);
    }
}

#[test]
fn opus_box_roundtrip() {
    let mut g = Gen::new(0x5eed_0002);
    for _ in 0..CASES {
        let opus = OpusBox { audio: audio_fields(&mut g), dops_box: dops_box(&mut g), unknown_boxes: vec![] };
        let encoded = opus.encode_to_vec().expect("encodes");
        let (decoded, size) = OpusBox::decode(&encoded).expect("decodes");
        assert_eq!(size, encoded.len());
        assert_eq!(decoded.audio.channelcount, opus.audio.channelcount);
        assert_eq!(decoded.dops_box.output_channel_count, opus.dops_box.output_channel_count);
    }
}

#[test]
fn mp4a_box_roundtrip() {
    let mut g = Gen::new(0x5eed_0003);
    for _ in 0..CASES {
        let mp4a = Mp4aBox { audio: audio_fields(&mut g), esds_box: aac_esds_box(&mut g), unknown_boxes: vec![] };
        let encoded = mp4a.encode_to_vec().expect("encodes");
        let (decoded, size) = Mp4aBox::decode(&encoded).expect("decodes");
        assert_eq!(size, encoded.len());
        assert_eq!(decoded.audio.channelcount, mp4a.audio.channelcount);
        assert_eq!(decoded.esds_box.es.es_id, mp4a.esds_box.es.es_id);
    }
}

#[test]
fn mp4v_box_roundtrip() {
    let mut g = Gen::new(0x5eed_0004);
    for _ in 0..CASES {
        let mp4v = Mp4vBox {
            visual: visual_fields(&mut g),
            esds_box: mpeg2_video_esds_box(&mut g),
            unknown_boxes: vec![],
        };
        let expected_resolution = (mp4v.visual.width, mp4v.visual.height);
        let entry = SampleEntry::Mp4v(mp4v);
        let encoded = entry.encode_to_vec().expect("encodes");
        let (decoded, size) = SampleEntry::decode(&encoded).expect("decodes");
        assert_eq!(size, encoded.len());
        assert_eq!(decoded, entry);
        assert_eq!(decoded.video_resolution(), Some(expected_resolution));
    }
}

#[test]
fn flac_box_roundtrip() {
    let mut g = Gen::new(0x5eed_0005);
    for _ in 0..CASES {
        let flac = FlacBox { audio: audio_fields(&mut g), dfla_box: dfla_box(&mut g), unknown_boxes: vec![] };
        let encoded = flac.encode_to_vec().expect("encodes");
        let (decoded, size) = FlacBox::decode(&encoded).expect("decodes");
        assert_eq!(size, encoded.len());
        assert_eq!(decoded.audio.channelcount, flac.audio.channelcount);
        assert_eq!(decoded.dfla_box.metadata_blocks.len(), 1);
    }
}

#[test]
fn dfla_box_roundtrip() {
    let mut g = Gen::new(0x5eed_0006);
    for _ in 0..CASES {
        let dfla = dfla_box(&mut g);
        let encoded = dfla.encode_to_vec().expect("encodes");
        let (decoded, size) = DflaBox::decode(&encoded).expect("decodes");
        assert_eq!(size, encoded.len());
        assert_eq!(decoded.metadata_blocks.len(), dfla.metadata_blocks.len());
        assert_eq!(decoded.metadata_blocks[0].block_type, 0);
    }
}

#[test]
fn avc1_box_roundtrip() {
    let mut g = Gen::new(0x5eed_0007);
    for _ in 0..CASES {
        let avc1 = Avc1Box { visual: visual_fields(&mut g), avcc_box: avcc_box(&mut g), unknown_boxes: vec![] };
        let encoded = avc1.encode_to_vec().expect("encodes");
        let (decoded, size) = Avc1Box::decode(&encoded).expect("decodes");
        assert_eq!(size, encoded.len());
        assert_eq!(decoded.visual.width, avc1.visual.width);
        assert_eq!(decoded.visual.height, avc1.visual.height);
        assert_eq!(decoded.avcc_box.avc_profile_indication, avc1.avcc_box.avc_profile_indication);
    }
}

#[test]
fn hev1_box_roundtrip() {
    let mut g = Gen::new(0x5eed_0008);
    for _ in 0..CASES {
        let hev1 = Hev1Box { visual: visual_fields(&mut g), hvcc_box: hvcc_box(&mut g), unknown_boxes: vec![] };
        let encoded = hev1.encode_to_vec().expect("encodes");
        let (decoded, size) = Hev1Box::decode(&encoded).expect("decodes");
        assert_eq!(size, encoded.len());
        assert_eq!(decoded.visual.width, hev1.visual.width);
        assert_eq!(decoded.visual.height, hev1.visual.height);
    }
}

#[test]
fn hvc1_box_roundtrip() {
    let mut g = Gen::new(0x5eed_0009);
    for _ in 0..CASES {
        let hvc1 = Hvc1Box { visual: visual_fields(&mut g), hvcc_box: hvcc_box(&mut g), unknown_boxes: vec![] };
        let encoded = hvc1.encode_to_vec().expect("encodes");
        let (decoded, size) = Hvc1Box::decode(&encoded).expect("decodes");
        assert_eq!(size, encoded.len());
        assert_eq!(decoded.visual.width, hvc1.visual.width);
        assert_eq!(decoded.visual.height, hvc1.visual.height);
    }
}

#[test]
fn vp08_box_roundtrip() {
    let mut g = Gen::new(0x5eed_000a);
    for _ in 0..CASES {
        let vp08 = Vp08Box { visual: visual_fields(&mut g), vpcc_box: vpcc_box(&mut g), unknown_boxes: vec![] };
        let encoded = vp08.encode_to_vec().expect("encodes");
        let (decoded, size) = Vp08Box::decode(&encoded).expect("decodes");
        assert_eq!(size, encoded.len());
        assert_eq!(decoded.visual.width, vp08.visual.width);
        assert_eq!(decoded.visual.height, vp08.visual.height);
    }
}

#[test]
fn vp09_box_roundtrip() {
    let mut g = Gen::new(0x5eed_000b);
    for _ in 0..CASES {
        let vp09 = Vp09Box { visual: visual_fields(&mut g), vpcc_box: vpcc_box(&mut g), unknown_boxes: vec![] };
        let encoded = vp09.encode_to_vec().expect("encodes");
        let (decoded, size) = Vp09Box::decode(&encoded).expect("decodes");
        assert_eq!(size, encoded.len());
        assert_eq!(decoded.visual.width, vp09.visual.width);
        assert_eq!(decoded.visual.height, vp09.visual.height);
    }
}

#[test]
fn av01_box_roundtrip() {
    let mut g = Gen::new(0x5eed_000c);
    for _ in 0..CASES {
        let av01 = Av01Box { visual: visual_fields(&mut g), av1c_box: av1c_box(&mut g), unknown_boxes: vec![] };
        let encoded = av01.encode_to_vec().expect("encodes");
        let (decoded, size) = Av01Box::decode(&encoded).expect("decodes");
        assert_eq!(size, encoded.len());
        assert_eq!(decoded.visual.width, av01.visual.width);
        assert_eq!(decoded.visual.height, av01.visual.height);
    }
}

#[test]
fn stpp_box_roundtrip() {
    let mut g = Gen::new(0x5eed_000d);
    for _ in 0..CASES {
        let stpp = stpp_box(&mut g);
        let encoded = stpp.encode_to_vec().expect("encodes");
        let (decoded, size) = StppBox::decode(&encoded).expect("decodes");
        assert_eq!(size, encoded.len());
        assert_eq!(decoded.data_reference_index, stpp.data_reference_index);
        assert_eq!(&decoded.namespace, &stpp.namespace);
        assert_eq!(&decoded.schema_location, &stpp.schema_location);
        assert_eq!(&decoded.auxiliary_mime_types, &stpp.auxiliary_mime_types);
        assert_eq!(&decoded.unknown_boxes, &stpp.unknown_boxes);
    }
}

#[test]
fn vttc_box_roundtrip() {
    let mut g = Gen::new(0x5eed_000e);
    for _ in 0..CASES {
        let vttc = vttc_box(&mut g);
        let encoded = vttc.encode_to_vec().expect("encodes");
        let (decoded, size) = VttCBox::decode(&encoded).expect("decodes");
        assert_eq!(size, encoded.len());
        assert_eq!(&decoded.config, &vttc.config);
    }
}

#[test]
fn wvtt_box_roundtrip() {
    let mut g = Gen::new(0x5eed_000f);
    for _ in 0..CASES {
        let wvtt = wvtt_box(&mut g);
        let encoded = wvtt.encode_to_vec().expect("encodes");
        let (decoded, size) = WvttBox::decode(&encoded).expect("decodes");
        assert_eq!(size, encoded.len());
        assert_eq!(decoded.data_reference_index, wvtt.data_reference_index);
        assert_eq!(&decoded.vttc_box, &wvtt.vttc_box);
        assert_eq!(&decoded.unknown_boxes, &wvtt.unknown_boxes);
    }
}

#[test]
fn box_record_roundtrip() {
    let mut g = Gen::new(0x5eed_0010);
    for _ in 0..CASES {
        let record = box_record(&mut g);
        let encoded = record.encode_to_vec();
        assert_eq!(encoded.len(), 8);
        let (decoded, size) = BoxRecord::decode(&encoded).expect("decodes");
        assert_eq!(size, encoded.len());
        assert_eq!(decoded, record);
    }
}

#[test]
fn style_record_roundtrip() {
    let mut g = Gen::new(0x5eed_0011);
    for _ in 0..CASES {
        let record = style_record(&mut g);
        let encoded = record.encode_to_vec();
        assert_eq!(encoded.len(), 12);
        let (decoded, size) = StyleRecord::decode(&encoded).expect("decodes");
        assert_eq!(size, encoded.len());
        assert_eq!(decoded, record);
    }
}

#[test]
fn ftab_box_roundtrip() {
    let mut g = Gen::new(0x5eed_0012);
    for _ in 0..CASES {
        let ftab = ftab_box(&mut g);
        let encoded = ftab.encode_to_vec().expect("encodes");
        let (decoded, size) = FtabBox::decode(&encoded).expect("decodes");
        assert_eq!(size, encoded.len());
        assert_eq!(&decoded.entries, &ftab.entries);
    }
}

#[test]
fn tx3g_box_roundtrip() {
    let mut g = Gen::new(0x5eed_0013);
    for _ in 0..CASES {
        let tx3g = tx3g_box(&mut g);
        let encoded = tx3g.encode_to_vec().expect("encodes");
        let (decoded, size) = Tx3gBox::decode(&encoded).expect("decodes");
        assert_eq!(size, encoded.len());
        assert_eq!(decoded.data_reference_index, tx3g.data_reference_index);
        assert_eq!(decoded.display_flags, tx3g.display_flags);
        assert_eq!(decoded.horizontal_justification, tx3g.horizontal_justification);
        assert_eq!(decoded.vertical_justification, tx3g.vertical_justification);
        assert_eq!(decoded.background_color_rgba, tx3g.background_color_rgba);
        assert_eq!(decoded.default_text_box, tx3g.default_text_box);
        assert_eq!(decoded.default_style, tx3g.default_style);
        assert_eq!(&decoded.ftab_box, &tx3g.ftab_box);
        assert_eq!(&decoded.unknown_boxes, &tx3g.unknown_boxes);
    }
}
