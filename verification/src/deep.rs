//! Value equality and copies of sample entries, stated over their views.
use vstd::prelude::*;

use crate::avcc::AvccBox;
use crate::codec::{unknowns_view, UnknownBox};
use crate::config_simple::{Av1cBox, VpccBox};
use crate::dfla::{blocks_view, DflaBox, FlacMetadataBlock};
use crate::entry::VisualSampleEntryFields;
use crate::esds::{DecoderConfigDescriptor, DecoderSpecificInfo, EsDescriptor, EsdsBox};
use crate::hvcc::{arrays_view, HvccBox, HvccNalUintArray};
use crate::nal_list::nal_view;
use crate::sample_entries::{
    Av01Box, Avc1Box, FlacBox, Hev1Box, Hvc1Box, Mp4aBox, Mp4vBox, OpusBox, Vp08Box, Vp09Box,
};
use crate::sample_entry::SampleEntry;
use crate::subtitle::{StppBox, VttCBox, WvttBox};
use crate::tx3g::{fonts_view, FontRecord, FtabBox, StyleRecord, Tx3gBox};

verus! {

// ----- bytes and lists -----

/// Whether two byte strings are equal.
pub fn bytes_eq(a: &[u8], b: &[u8]) -> (r: bool)
    ensures
        r == (a@ == b@),
{
    if a.len() != b.len() {
        return false;
    }
    let mut i: usize = 0;
    while i < a.len()
        invariant
            a@.len() == b@.len(),
            i <= a@.len(),
            forall|j: int| 0 <= j < i ==> a@[j] == b@[j],
        decreases a@.len() - i,
    {
        if a[i] != b[i] {
            return false;
        }
        i = i + 1;
    }
    assert(a@ =~= b@);
    true
}

fn bytes_clone(a: &Vec<u8>) -> (r: Vec<u8>)
    ensures
        r@ == a@,
{
    vstd::slice::slice_to_vec(a.as_slice())
}

fn nal_eq(a: &Vec<Vec<u8>>, b: &Vec<Vec<u8>>) -> (r: bool)
    ensures
        r == (nal_view(a@) == nal_view(b@)),
{
    if a.len() != b.len() {
        assert(nal_view(a@).len() != nal_view(b@).len());
        return false;
    }
    let mut i: usize = 0;
    while i < a.len()
        invariant
            a@.len() == b@.len(),
            i <= a@.len(),
            forall|j: int| 0 <= j < i ==> a@[j]@ == b@[j]@,
        decreases a@.len() - i,
    {
        if !bytes_eq(a[i].as_slice(), b[i].as_slice()) {
            assert(nal_view(a@)[i as int] != nal_view(b@)[i as int]);
            return false;
        }
        i = i + 1;
    }
    assert(nal_view(a@) =~= nal_view(b@));
    true
}

fn nal_clone(a: &Vec<Vec<u8>>) -> (r: Vec<Vec<u8>>)
    ensures
        nal_view(r@) == nal_view(a@),
{
    let mut r: Vec<Vec<u8>> = Vec::new();
    let mut i: usize = 0;
    while i < a.len()
        invariant
            i <= a@.len(),
            r@.len() == i,
            forall|j: int| 0 <= j < i ==> r@[j]@ == a@[j]@,
        decreases a@.len() - i,
    {
        r.push(bytes_clone(&a[i]));
        i = i + 1;
    }
    assert(nal_view(r@) =~= nal_view(a@));
    r
}

fn unknowns_eq(a: &Vec<UnknownBox>, b: &Vec<UnknownBox>) -> (r: bool)
    ensures
        r == (unknowns_view(a@) == unknowns_view(b@)),
{
    if a.len() != b.len() {
        assert(unknowns_view(a@).len() != unknowns_view(b@).len());
        return false;
    }
    let mut i: usize = 0;
    while i < a.len()
        invariant
            a@.len() == b@.len(),
            i <= a@.len(),
            forall|j: int| 0 <= j < i ==> a@[j]@ == b@[j]@,
        decreases a@.len() - i,
    {
        if a[i].box_type.code != b[i].box_type.code || a[i].box_size != b[i].box_size || !bytes_eq(
            a[i].payload.as_slice(),
            b[i].payload.as_slice(),
        ) {
            assert(unknowns_view(a@)[i as int] != unknowns_view(b@)[i as int]);
            return false;
        }
        i = i + 1;
    }
    assert(unknowns_view(a@) =~= unknowns_view(b@));
    true
}

fn unknowns_clone(a: &Vec<UnknownBox>) -> (r: Vec<UnknownBox>)
    ensures
        unknowns_view(r@) == unknowns_view(a@),
{
    let mut r: Vec<UnknownBox> = Vec::new();
    let mut i: usize = 0;
    while i < a.len()
        invariant
            i <= a@.len(),
            r@.len() == i,
            forall|j: int| 0 <= j < i ==> r@[j]@ == a@[j]@,
        decreases a@.len() - i,
    {
        r.push(UnknownBox { box_type: a[i].box_type, box_size: a[i].box_size, payload: bytes_clone(&a[i].payload) });
        i = i + 1;
    }
    assert(unknowns_view(r@) =~= unknowns_view(a@));
    r
}

fn opt_string_eq(a: &Option<String>, b: &Option<String>) -> (r: bool)
    ensures
        r == (match a {
            Some(s) => Some(s@),
            None => None,
        } == match b {
            Some(s) => Some(s@),
            None => None,
        }),
{
    match (a, b) {
        (Some(x), Some(y)) => x.eq(y),
        (None, None) => true,
        _ => false,
    }
}

fn opt_string_clone(a: &Option<String>) -> (r: Option<String>)
    ensures
        match r {
            Some(s) => Some(s@),
            None => None,
        } == match a {
            Some(s) => Some(s@),
            None => None,
        },
{
    match a {
        Some(s) => Some(s.clone()),
        None => None,
    }
}

// ----- fields -----

fn visual_eq(a: &VisualSampleEntryFields, b: &VisualSampleEntryFields) -> (r: bool)
    ensures
        r == (a@ == b@),
{
    a.data_reference_index == b.data_reference_index && a.width == b.width && a.height == b.height
        && a.horizresolution.integer == b.horizresolution.integer && a.horizresolution.fraction
        == b.horizresolution.fraction && a.vertresolution.integer == b.vertresolution.integer
        && a.vertresolution.fraction == b.vertresolution.fraction && a.frame_count == b.frame_count
        && bytes_eq(a.compressorname.as_slice(), b.compressorname.as_slice()) && a.depth == b.depth
}

fn style_eq(a: &StyleRecord, b: &StyleRecord) -> (r: bool)
    ensures
        r == (a@ == b@),
{
    a.start_char == b.start_char && a.end_char == b.end_char && a.font_id == b.font_id
        && a.face_style_flags == b.face_style_flags && a.font_size == b.font_size && bytes_eq(
        a.text_color_rgba.as_slice(),
        b.text_color_rgba.as_slice(),
    )
}

// ----- configuration boxes -----

fn avcc_eq(a: &AvccBox, b: &AvccBox) -> (r: bool)
    ensures
        r == (a@ == b@),
{
    a.avc_profile_indication == b.avc_profile_indication && a.profile_compatibility
        == b.profile_compatibility && a.avc_level_indication == b.avc_level_indication
        && a.length_size_minus_one == b.length_size_minus_one && nal_eq(&a.sps_list, &b.sps_list)
        && nal_eq(&a.pps_list, &b.pps_list) && a.chroma_format == b.chroma_format
        && a.bit_depth_luma_minus8 == b.bit_depth_luma_minus8 && a.bit_depth_chroma_minus8
        == b.bit_depth_chroma_minus8 && nal_eq(&a.sps_ext_list, &b.sps_ext_list)
}

fn avcc_clone(a: &AvccBox) -> (r: AvccBox)
    ensures
        r@ == a@,
{
    AvccBox {
        avc_profile_indication: a.avc_profile_indication,
        profile_compatibility: a.profile_compatibility,
        avc_level_indication: a.avc_level_indication,
        length_size_minus_one: a.length_size_minus_one,
        sps_list: nal_clone(&a.sps_list),
        pps_list: nal_clone(&a.pps_list),
        chroma_format: a.chroma_format,
        bit_depth_luma_minus8: a.bit_depth_luma_minus8,
        bit_depth_chroma_minus8: a.bit_depth_chroma_minus8,
        sps_ext_list: nal_clone(&a.sps_ext_list),
    }
}

fn hvcc_arrays_eq(a: &Vec<HvccNalUintArray>, b: &Vec<HvccNalUintArray>) -> (r: bool)
    ensures
        r == (arrays_view(a@) == arrays_view(b@)),
{
    if a.len() != b.len() {
        assert(arrays_view(a@).len() != arrays_view(b@).len());
        return false;
    }
    let mut i: usize = 0;
    while i < a.len()
        invariant
            a@.len() == b@.len(),
            i <= a@.len(),
            forall|j: int| 0 <= j < i ==> a@[j]@ == b@[j]@,
        decreases a@.len() - i,
    {
        if a[i].array_completeness != b[i].array_completeness || a[i].nal_unit_type
            != b[i].nal_unit_type || !nal_eq(&a[i].nalus, &b[i].nalus) {
            assert(arrays_view(a@)[i as int] != arrays_view(b@)[i as int]);
            return false;
        }
        i = i + 1;
    }
    assert(arrays_view(a@) =~= arrays_view(b@));
    true
}

fn hvcc_arrays_clone(a: &Vec<HvccNalUintArray>) -> (r: Vec<HvccNalUintArray>)
    ensures
        arrays_view(r@) == arrays_view(a@),
{
    let mut r: Vec<HvccNalUintArray> = Vec::new();
    let mut i: usize = 0;
    while i < a.len()
        invariant
            i <= a@.len(),
            r@.len() == i,
            forall|j: int| 0 <= j < i ==> r@[j]@ == a@[j]@,
        decreases a@.len() - i,
    {
        r.push(
            HvccNalUintArray {
                array_completeness: a[i].array_completeness,
                nal_unit_type: a[i].nal_unit_type,
                nalus: nal_clone(&a[i].nalus),
            },
        );
        i = i + 1;
    }
    assert(arrays_view(r@) =~= arrays_view(a@));
    r
}

fn hvcc_eq(a: &HvccBox, b: &HvccBox) -> (r: bool)
    ensures
        r == (a@ == b@),
{
    a.general_profile_space == b.general_profile_space && a.general_tier_flag
        == b.general_tier_flag && a.general_profile_idc == b.general_profile_idc
        && a.general_profile_compatibility_flags == b.general_profile_compatibility_flags
        && a.general_constraint_indicator_flags == b.general_constraint_indicator_flags
        && a.general_level_idc == b.general_level_idc && a.min_spatial_segmentation_idc
        == b.min_spatial_segmentation_idc && a.parallelism_type == b.parallelism_type
        && a.chroma_format_idc == b.chroma_format_idc && a.bit_depth_luma_minus8
        == b.bit_depth_luma_minus8 && a.bit_depth_chroma_minus8 == b.bit_depth_chroma_minus8
        && a.avg_frame_rate == b.avg_frame_rate && a.constant_frame_rate == b.constant_frame_rate
        && a.num_temporal_layers == b.num_temporal_layers && a.temporal_id_nested
        == b.temporal_id_nested && a.length_size_minus_one == b.length_size_minus_one
        && hvcc_arrays_eq(&a.nalu_arrays, &b.nalu_arrays)
}

fn hvcc_clone(a: &HvccBox) -> (r: HvccBox)
    ensures
        r@ == a@,
{
    HvccBox {
        general_profile_space: a.general_profile_space,
        general_tier_flag: a.general_tier_flag,
        general_profile_idc: a.general_profile_idc,
        general_profile_compatibility_flags: a.general_profile_compatibility_flags,
        general_constraint_indicator_flags: a.general_constraint_indicator_flags,
        general_level_idc: a.general_level_idc,
        min_spatial_segmentation_idc: a.min_spatial_segmentation_idc,
        parallelism_type: a.parallelism_type,
        chroma_format_idc: a.chroma_format_idc,
        bit_depth_luma_minus8: a.bit_depth_luma_minus8,
        bit_depth_chroma_minus8: a.bit_depth_chroma_minus8,
        avg_frame_rate: a.avg_frame_rate,
        constant_frame_rate: a.constant_frame_rate,
        num_temporal_layers: a.num_temporal_layers,
        temporal_id_nested: a.temporal_id_nested,
        length_size_minus_one: a.length_size_minus_one,
        nalu_arrays: hvcc_arrays_clone(&a.nalu_arrays),
    }
}

fn vpcc_eq(a: &VpccBox, b: &VpccBox) -> (r: bool)
    ensures
        r == (a@ == b@),
{
    a.profile == b.profile && a.level == b.level && a.bit_depth == b.bit_depth
        && a.chroma_subsampling == b.chroma_subsampling && a.video_full_range_flag
        == b.video_full_range_flag && a.colour_primaries == b.colour_primaries
        && a.transfer_characteristics == b.transfer_characteristics && a.matrix_coefficients
        == b.matrix_coefficients && bytes_eq(
        a.codec_initialization_data.as_slice(),
        b.codec_initialization_data.as_slice(),
    )
}

fn vpcc_clone(a: &VpccBox) -> (r: VpccBox)
    ensures
        r@ == a@,
{
    VpccBox {
        profile: a.profile,
        level: a.level,
        bit_depth: a.bit_depth,
        chroma_subsampling: a.chroma_subsampling,
        video_full_range_flag: a.video_full_range_flag,
        colour_primaries: a.colour_primaries,
        transfer_characteristics: a.transfer_characteristics,
        matrix_coefficients: a.matrix_coefficients,
        codec_initialization_data: bytes_clone(&a.codec_initialization_data),
    }
}

fn av1c_eq(a: &Av1cBox, b: &Av1cBox) -> (r: bool)
    ensures
        r == (a@ == b@),
{
    a.seq_profile == b.seq_profile && a.seq_level_idx_0 == b.seq_level_idx_0 && a.seq_tier_0
        == b.seq_tier_0 && a.high_bitdepth == b.high_bitdepth && a.twelve_bit == b.twelve_bit
        && a.monochrome == b.monochrome && a.chroma_subsampling_x == b.chroma_subsampling_x
        && a.chroma_subsampling_y == b.chroma_subsampling_y && a.chroma_sample_position
        == b.chroma_sample_position && a.initial_presentation_delay_minus_one
        == b.initial_presentation_delay_minus_one && bytes_eq(
        a.config_obus.as_slice(),
        b.config_obus.as_slice(),
    )
}

fn av1c_clone(a: &Av1cBox) -> (r: Av1cBox)
    ensures
        r@ == a@,
{
    Av1cBox {
        seq_profile: a.seq_profile,
        seq_level_idx_0: a.seq_level_idx_0,
        seq_tier_0: a.seq_tier_0,
        high_bitdepth: a.high_bitdepth,
        twelve_bit: a.twelve_bit,
        monochrome: a.monochrome,
        chroma_subsampling_x: a.chroma_subsampling_x,
        chroma_subsampling_y: a.chroma_subsampling_y,
        chroma_sample_position: a.chroma_sample_position,
        initial_presentation_delay_minus_one: a.initial_presentation_delay_minus_one,
        config_obus: bytes_clone(&a.config_obus),
    }
}

fn dcd_eq(a: &DecoderConfigDescriptor, b: &DecoderConfigDescriptor) -> (r: bool)
    ensures
        r == (a@ == b@),
{
    let dsi = match (&a.dec_specific_info, &b.dec_specific_info) {
        (Some(x), Some(y)) => bytes_eq(x.payload.as_slice(), y.payload.as_slice()),
        (None, None) => true,
        _ => false,
    };
    a.object_type_indication == b.object_type_indication && a.stream_type == b.stream_type
        && a.up_stream == b.up_stream && a.buffer_size_db == b.buffer_size_db && a.max_bitrate
        == b.max_bitrate && a.avg_bitrate == b.avg_bitrate && dsi
}

fn dcd_clone(a: &DecoderConfigDescriptor) -> (r: DecoderConfigDescriptor)
    ensures
        r@ == a@,
{
    DecoderConfigDescriptor {
        object_type_indication: a.object_type_indication,
        stream_type: a.stream_type,
        up_stream: a.up_stream,
        buffer_size_db: a.buffer_size_db,
        max_bitrate: a.max_bitrate,
        avg_bitrate: a.avg_bitrate,
        dec_specific_info: match &a.dec_specific_info {
            Some(x) => Some(DecoderSpecificInfo { payload: bytes_clone(&x.payload) }),
            None => None,
        },
    }
}

fn esds_eq(a: &EsdsBox, b: &EsdsBox) -> (r: bool)
    ensures
        r == (a@ == b@),
{
    a.es.es_id == b.es.es_id && a.es.stream_priority == b.es.stream_priority
        && a.es.depends_on_es_id == b.es.depends_on_es_id && opt_string_eq(
        &a.es.url_string,
        &b.es.url_string,
    ) && a.es.ocr_es_id == b.es.ocr_es_id && dcd_eq(&a.es.dec_config_descr, &b.es.dec_config_descr)
}

fn esds_clone(a: &EsdsBox) -> (r: EsdsBox)
    ensures
        r@ == a@,
{
    EsdsBox {
        es: EsDescriptor {
            es_id: a.es.es_id,
            stream_priority: a.es.stream_priority,
            depends_on_es_id: a.es.depends_on_es_id,
            url_string: opt_string_clone(&a.es.url_string),
            ocr_es_id: a.es.ocr_es_id,
            dec_config_descr: dcd_clone(&a.es.dec_config_descr),
            sl_config_descr: a.es.sl_config_descr,
        },
    }
}

fn dfla_eq(a: &DflaBox, b: &DflaBox) -> (r: bool)
    ensures
        r == (a@ == b@),
{
    let x = &a.metadata_blocks;
    let y = &b.metadata_blocks;
    if x.len() != y.len() {
        assert(blocks_view(x@).len() != blocks_view(y@).len());
        return false;
    }
    let mut i: usize = 0;
    while i < x.len()
        invariant
            x@.len() == y@.len(),
            i <= x@.len(),
            x@ == a.metadata_blocks@,
            y@ == b.metadata_blocks@,
            forall|j: int| 0 <= j < i ==> x@[j]@ == y@[j]@,
        decreases x@.len() - i,
    {
        if x[i].last_metadata_block_flag != y[i].last_metadata_block_flag || x[i].block_type
            != y[i].block_type || !bytes_eq(x[i].block_data.as_slice(), y[i].block_data.as_slice()) {
            assert(blocks_view(x@)[i as int] != blocks_view(y@)[i as int]);
            return false;
        }
        i = i + 1;
    }
    assert(blocks_view(x@) =~= blocks_view(y@));
    true
}

fn dfla_clone(a: &DflaBox) -> (r: DflaBox)
    ensures
        r@ == a@,
{
    let x = &a.metadata_blocks;
    let mut r: Vec<FlacMetadataBlock> = Vec::new();
    let mut i: usize = 0;
    while i < x.len()
        invariant
            i <= x@.len(),
            r@.len() == i,
            forall|j: int| 0 <= j < i ==> r@[j]@ == x@[j]@,
        decreases x@.len() - i,
    {
        r.push(
            FlacMetadataBlock {
                last_metadata_block_flag: x[i].last_metadata_block_flag,
                block_type: x[i].block_type,
                block_data: bytes_clone(&x[i].block_data),
            },
        );
        i = i + 1;
    }
    assert(blocks_view(r@) =~= blocks_view(x@));
    DflaBox { metadata_blocks: r }
}

fn ftab_eq(a: &FtabBox, b: &FtabBox) -> (r: bool)
    ensures
        r == (a@ == b@),
{
    let x = &a.entries;
    let y = &b.entries;
    if x.len() != y.len() {
        assert(fonts_view(x@).len() != fonts_view(y@).len());
        return false;
    }
    let mut i: usize = 0;
    while i < x.len()
        invariant
            x@.len() == y@.len(),
            i <= x@.len(),
            x@ == a.entries@,
            y@ == b.entries@,
            forall|j: int| 0 <= j < i ==> x@[j]@ == y@[j]@,
        decreases x@.len() - i,
    {
        if x[i].font_id != y[i].font_id || !bytes_eq(x[i].font_name.as_slice(), y[i].font_name.as_slice()) {
            assert(fonts_view(x@)[i as int] != fonts_view(y@)[i as int]);
            return false;
        }
        i = i + 1;
    }
    assert(fonts_view(x@) =~= fonts_view(y@));
    true
}

fn ftab_clone(a: &FtabBox) -> (r: FtabBox)
    ensures
        r@ == a@,
{
    let x = &a.entries;
    let mut r: Vec<FontRecord> = Vec::new();
    let mut i: usize = 0;
    while i < x.len()
        invariant
            i <= x@.len(),
            r@.len() == i,
            forall|j: int| 0 <= j < i ==> r@[j]@ == x@[j]@,
        decreases x@.len() - i,
    {
        r.push(FontRecord { font_id: x[i].font_id, font_name: bytes_clone(&x[i].font_name) });
        i = i + 1;
    }
    assert(fonts_view(r@) =~= fonts_view(x@));
    FtabBox { entries: r }
}

// ----- sample entries -----

/// Whether two sample entries have the same value.
pub fn sample_entry_eq(a: &SampleEntry, b: &SampleEntry) -> (r: bool)
    ensures
        r == (a@ == b@),
{
    match (a, b) {
        (SampleEntry::Avc1(x), SampleEntry::Avc1(y)) => visual_eq(&x.visual, &y.visual) && avcc_eq(
            &x.avcc_box,
            &y.avcc_box,
        ) && unknowns_eq(&x.unknown_boxes, &y.unknown_boxes),
        (SampleEntry::Mp4v(x), SampleEntry::Mp4v(y)) => visual_eq(&x.visual, &y.visual) && esds_eq(
            &x.esds_box,
            &y.esds_box,
        ) && unknowns_eq(&x.unknown_boxes, &y.unknown_boxes),
        (SampleEntry::Hev1(x), SampleEntry::Hev1(y)) => visual_eq(&x.visual, &y.visual) && hvcc_eq(
            &x.hvcc_box,
            &y.hvcc_box,
        ) && unknowns_eq(&x.unknown_boxes, &y.unknown_boxes),
        (SampleEntry::Hvc1(x), SampleEntry::Hvc1(y)) => visual_eq(&x.visual, &y.visual) && hvcc_eq(
            &x.hvcc_box,
            &y.hvcc_box,
        ) && unknowns_eq(&x.unknown_boxes, &y.unknown_boxes),
        (SampleEntry::Vp08(x), SampleEntry::Vp08(y)) => visual_eq(&x.visual, &y.visual) && vpcc_eq(
            &x.vpcc_box,
            &y.vpcc_box,
        ) && unknowns_eq(&x.unknown_boxes, &y.unknown_boxes),
        (SampleEntry::Vp09(x), SampleEntry::Vp09(y)) => visual_eq(&x.visual, &y.visual) && vpcc_eq(
            &x.vpcc_box,
            &y.vpcc_box,
        ) && unknowns_eq(&x.unknown_boxes, &y.unknown_boxes),
        (SampleEntry::Av01(x), SampleEntry::Av01(y)) => visual_eq(&x.visual, &y.visual) && av1c_eq(
            &x.av1c_box,
            &y.av1c_box,
        ) && unknowns_eq(&x.unknown_boxes, &y.unknown_boxes),
        (SampleEntry::Opus(x), SampleEntry::Opus(y)) => x.audio == y.audio && x.dops_box
            == y.dops_box && unknowns_eq(&x.unknown_boxes, &y.unknown_boxes),
        (SampleEntry::Mp4a(x), SampleEntry::Mp4a(y)) => x.audio == y.audio && esds_eq(
            &x.esds_box,
            &y.esds_box,
        ) && unknowns_eq(&x.unknown_boxes, &y.unknown_boxes),
        (SampleEntry::Flac(x), SampleEntry::Flac(y)) => x.audio == y.audio && dfla_eq(
            &x.dfla_box,
            &y.dfla_box,
        ) && unknowns_eq(&x.unknown_boxes, &y.unknown_boxes),
        (SampleEntry::Stpp(x), SampleEntry::Stpp(y)) => x.data_reference_index
            == y.data_reference_index && x.namespace == y.namespace && x.schema_location
            == y.schema_location && x.auxiliary_mime_types == y.auxiliary_mime_types && unknowns_eq(
            &x.unknown_boxes,
            &y.unknown_boxes,
        ),
        (SampleEntry::Wvtt(x), SampleEntry::Wvtt(y)) => x.data_reference_index
            == y.data_reference_index && x.vttc_box.config == y.vttc_box.config && unknowns_eq(
            &x.unknown_boxes,
            &y.unknown_boxes,
        ),
        (SampleEntry::Tx3g(x), SampleEntry::Tx3g(y)) => x.data_reference_index
            == y.data_reference_index && x.display_flags == y.display_flags
            && x.horizontal_justification == y.horizontal_justification
            && x.vertical_justification == y.vertical_justification && bytes_eq(
            x.background_color_rgba.as_slice(),
            y.background_color_rgba.as_slice(),
        ) && x.default_text_box == y.default_text_box && style_eq(
            &x.default_style,
            &y.default_style,
        ) && ftab_eq(&x.ftab_box, &y.ftab_box) && unknowns_eq(&x.unknown_boxes, &y.unknown_boxes),
        (SampleEntry::Unknown(x), SampleEntry::Unknown(y)) => x.box_type.code == y.box_type.code
            && x.box_size == y.box_size && bytes_eq(x.payload.as_slice(), y.payload.as_slice()),
        _ => false,
    }
}

/// A copy of a sample entry, with the same value.
pub fn sample_entry_clone(a: &SampleEntry) -> (r: SampleEntry)
    ensures
        r@ == a@,
{
    match a {
        SampleEntry::Avc1(x) => SampleEntry::Avc1(
            Avc1Box {
                visual: x.visual,
                avcc_box: avcc_clone(&x.avcc_box),
                unknown_boxes: unknowns_clone(&x.unknown_boxes),
            },
        ),
        SampleEntry::Mp4v(x) => SampleEntry::Mp4v(
            Mp4vBox {
                visual: x.visual,
                esds_box: esds_clone(&x.esds_box),
                unknown_boxes: unknowns_clone(&x.unknown_boxes),
            },
        ),
        SampleEntry::Hev1(x) => SampleEntry::Hev1(
            Hev1Box {
                visual: x.visual,
                hvcc_box: hvcc_clone(&x.hvcc_box),
                unknown_boxes: unknowns_clone(&x.unknown_boxes),
            },
        ),
        SampleEntry::Hvc1(x) => SampleEntry::Hvc1(
            Hvc1Box {
                visual: x.visual,
                hvcc_box: hvcc_clone(&x.hvcc_box),
                unknown_boxes: unknowns_clone(&x.unknown_boxes),
            },
        ),
        SampleEntry::Vp08(x) => SampleEntry::Vp08(
            Vp08Box {
                visual: x.visual,
                vpcc_box: vpcc_clone(&x.vpcc_box),
                unknown_boxes: unknowns_clone(&x.unknown_boxes),
            },
        ),
        SampleEntry::Vp09(x) => SampleEntry::Vp09(
            Vp09Box {
                visual: x.visual,
                vpcc_box: vpcc_clone(&x.vpcc_box),
                unknown_boxes: unknowns_clone(&x.unknown_boxes),
            },
        ),
        SampleEntry::Av01(x) => SampleEntry::Av01(
            Av01Box {
                visual: x.visual,
                av1c_box: av1c_clone(&x.av1c_box),
                unknown_boxes: unknowns_clone(&x.unknown_boxes),
            },
        ),
        SampleEntry::Opus(x) => SampleEntry::Opus(
            OpusBox {
                audio: x.audio,
                dops_box: x.dops_box,
                unknown_boxes: unknowns_clone(&x.unknown_boxes),
            },
        ),
        SampleEntry::Mp4a(x) => SampleEntry::Mp4a(
            Mp4aBox {
                audio: x.audio,
                esds_box: esds_clone(&x.esds_box),
                unknown_boxes: unknowns_clone(&x.unknown_boxes),
            },
        ),
        SampleEntry::Flac(x) => SampleEntry::Flac(
            FlacBox {
                audio: x.audio,
                dfla_box: dfla_clone(&x.dfla_box),
                unknown_boxes: unknowns_clone(&x.unknown_boxes),
            },
        ),
        SampleEntry::Stpp(x) => SampleEntry::Stpp(
            StppBox {
                data_reference_index: x.data_reference_index,
                namespace: x.namespace.clone(),
                schema_location: x.schema_location.clone(),
                auxiliary_mime_types: x.auxiliary_mime_types.clone(),
                unknown_boxes: unknowns_clone(&x.unknown_boxes),
            },
        ),
        SampleEntry::Wvtt(x) => SampleEntry::Wvtt(
            WvttBox {
                data_reference_index: x.data_reference_index,
                vttc_box: VttCBox { config: x.vttc_box.config.clone() },
                unknown_boxes: unknowns_clone(&x.unknown_boxes),
            },
        ),
        SampleEntry::Tx3g(x) => SampleEntry::Tx3g(
            Tx3gBox {
                data_reference_index: x.data_reference_index,
                display_flags: x.display_flags,
                horizontal_justification: x.horizontal_justification,
                vertical_justification: x.vertical_justification,
                background_color_rgba: x.background_color_rgba,
                default_text_box: x.default_text_box,
                default_style: x.default_style,
                ftab_box: ftab_clone(&x.ftab_box),
                unknown_boxes: unknowns_clone(&x.unknown_boxes),
            },
        ),
        SampleEntry::Unknown(x) => SampleEntry::Unknown(
            UnknownBox { box_type: x.box_type, box_size: x.box_size, payload: bytes_clone(&x.payload) },
        ),
    }
}

} // verus!
