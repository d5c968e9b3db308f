//! `esds` and the MPEG-4 elementary stream descriptors it carries
//! (ISO/IEC 14496-1 and 14496-14).
use vstd::prelude::*;
use vstd::utf8::{decode_utf8, encode_utf8, valid_utf8};

use crate::bytes::{
    be16, be24, be32, get16, get24, get32, lemma_get16, lemma_get24, lemma_get32, push_slice,
    push_u16, push_u24, push_u32, push_u8, read_u16, read_u24, read_u32,
};
use crate::codec::{full_header_bytes, push_full_header, BoxCodec};
use crate::descriptor::{
    desc_bytes, lemma_desc_roundtrip, lemma_size_bytes_small, parse_desc, size_bytes, split_desc, write_desc,
    MAX_DESCRIPTOR_SIZE,
};
use crate::codec::{box_encodable, box_of, decode_box, encode_box_to_vec, parse_box};
use crate::error::{Error, ErrorKind};
use crate::text::{string_bytes, string_from_bytes};

verus! {

/// `DecoderSpecificInfo` (tag 5): codec specific bytes, such as an AAC
/// `AudioSpecificConfig`.
#[derive(Debug, Clone, PartialEq, Eq, Hash)]
pub struct DecoderSpecificInfo {
    /// The bytes
    pub payload: Vec<u8>,
}

/// `SLConfigDescriptor` (tag 6); always written with `predefined = 2`.
#[derive(Debug, Clone, Copy, PartialEq, Eq, Hash)]
pub struct SlConfigDescriptor;

/// `DecoderConfigDescriptor` (tag 4).
#[derive(Debug, Clone, PartialEq, Eq, Hash)]
pub struct DecoderConfigDescriptor {
    /// `objectTypeIndication`
    pub object_type_indication: u8,
    /// `streamType` (6 bits)
    pub stream_type: u8,
    /// `upStream` (1 bit)
    pub up_stream: u8,
    /// `bufferSizeDB` (24 bits)
    pub buffer_size_db: u32,
    /// `maxBitrate`
    pub max_bitrate: u32,
    /// `avgBitrate`
    pub avg_bitrate: u32,
    /// `DecoderSpecificInfo`, if any
    pub dec_specific_info: Option<DecoderSpecificInfo>,
}

impl DecoderConfigDescriptor {
    /// `objectTypeIndication` of MPEG-4 audio (ISO/IEC 14496-3)
    pub const OBJECT_TYPE_INDICATION_AUDIO_ISO_IEC_14496_3: u8 = 0x40;

    /// `streamType` of audio streams
    pub const STREAM_TYPE_AUDIO: u8 = 0x05;

    /// `upStream` of streams that flow downstream
    pub const UP_STREAM_FALSE: u8 = 0;
}

/// `ES_Descriptor` (tag 3).
#[derive(Debug, Clone, PartialEq, Eq, Hash)]
pub struct EsDescriptor {
    /// `ES_ID`
    pub es_id: u16,
    /// `streamPriority` (5 bits)
    pub stream_priority: u8,
    /// `dependsOn_ES_ID`, if any
    pub depends_on_es_id: Option<u16>,
    /// `URLstring`, if any
    pub url_string: Option<String>,
    /// `OCR_ES_Id`, if any
    pub ocr_es_id: Option<u16>,
    /// Decoder configuration
    pub dec_config_descr: DecoderConfigDescriptor,
    /// Sync layer configuration
    pub sl_config_descr: SlConfigDescriptor,
}

impl EsDescriptor {
    /// Smallest `ES_ID` (0 is reserved)
    pub const MIN_ES_ID: u16 = 1;

    /// Lowest `streamPriority`
    pub const LOWEST_STREAM_PRIORITY: u8 = 0;
}

/// `esds`: elementary stream descriptor box.
#[derive(Debug, Clone, PartialEq, Eq, Hash)]
pub struct EsdsBox {
    /// The `ES_Descriptor`
    pub es: EsDescriptor,
}

impl EsdsBox {
    /// Box type `esds`
    pub const TYPE: u32 = 0x65736473;
}

/// The value of a [`DecoderConfigDescriptor`].
pub struct DecoderConfigV {
    pub object_type_indication: u8,
    pub stream_type: u8,
    pub up_stream: u8,
    pub buffer_size_db: u32,
    pub max_bitrate: u32,
    pub avg_bitrate: u32,
    pub dec_specific_info: Option<Seq<u8>>,
}

/// The value of an [`EsDescriptor`].
pub struct EsDescriptorV {
    pub es_id: u16,
    pub stream_priority: u8,
    pub depends_on_es_id: Option<u16>,
    pub url_string: Option<Seq<char>>,
    pub ocr_es_id: Option<u16>,
    pub dec_config_descr: DecoderConfigV,
}

/// The value of an [`EsdsBox`].
pub struct EsdsBoxV {
    pub es: EsDescriptorV,
}

impl View for DecoderConfigDescriptor {
    type V = DecoderConfigV;

    open spec fn view(&self) -> DecoderConfigV {
        DecoderConfigV {
            object_type_indication: self.object_type_indication,
            stream_type: self.stream_type,
            up_stream: self.up_stream,
            buffer_size_db: self.buffer_size_db,
            max_bitrate: self.max_bitrate,
            avg_bitrate: self.avg_bitrate,
            dec_specific_info: match self.dec_specific_info {
                Some(d) => Some(d.payload@),
                None => None,
            },
        }
    }
}

impl View for EsDescriptor {
    type V = EsDescriptorV;

    open spec fn view(&self) -> EsDescriptorV {
        EsDescriptorV {
            es_id: self.es_id,
            stream_priority: self.stream_priority,
            depends_on_es_id: self.depends_on_es_id,
            url_string: match self.url_string {
                Some(s) => Some(s@),
                None => None,
            },
            ocr_es_id: self.ocr_es_id,
            dec_config_descr: self.dec_config_descr@,
        }
    }
}

impl View for EsdsBox {
    type V = EsdsBoxV;

    open spec fn view(&self) -> EsdsBoxV {
        EsdsBoxV { es: self.es@ }
    }
}

// ----- DecoderConfigDescriptor -----

/// The `DecoderSpecificInfo` descriptor, or nothing.
pub open spec fn dsi_bytes(d: Option<Seq<u8>>) -> Seq<u8> {
    match d {
        Some(p) => desc_bytes(5, p),
        None => Seq::empty(),
    }
}

/// Byte 1 of a decoder configuration: stream type, up-stream bit, reserved bit.
pub open spec fn dcd_type_byte(v: DecoderConfigV) -> u8 {
    (v.stream_type * 4 + v.up_stream * 2 + 1) as u8
}

/// The payload of a `DecoderConfigDescriptor`.
pub open spec fn dcd_payload(v: DecoderConfigV) -> Seq<u8> {
    seq![v.object_type_indication, dcd_type_byte(v)] + be24(v.buffer_size_db) + be32(
        v.max_bitrate,
    ) + be32(v.avg_bitrate) + dsi_bytes(v.dec_specific_info)
}

pub open spec fn dcd_bytes(v: DecoderConfigV) -> Seq<u8> {
    desc_bytes(4, dcd_payload(v))
}

/// A `DecoderConfigDescriptor` payload: 13 fixed bytes, then a
/// `DecoderSpecificInfo` when the next tag is 5; other bytes are ignored.
pub open spec fn parse_dcd_payload(p: Seq<u8>) -> Option<DecoderConfigV> {
    if p.len() < 13 {
        None
    } else {
        let rest = p.skip(13);
        let dsi: Option<Option<Seq<u8>>> = if rest.len() > 0 && rest[0] == 5 {
            match parse_desc(rest) {
                Some((_, h, e)) => Some(Some(rest.subrange(h, e))),
                None => None,
            }
        } else {
            Some(None)
        };
        match dsi {
            None => None,
            Some(d) => Some(
                DecoderConfigV {
                    object_type_indication: p[0],
                    stream_type: p[1] / 4,
                    up_stream: (p[1] / 2) % 2,
                    buffer_size_db: get24(p, 2),
                    max_bitrate: get32(p, 5),
                    avg_bitrate: get32(p, 9),
                    dec_specific_info: d,
                },
            ),
        }
    }
}

/// The `DecoderConfigDescriptor` at the start of `s` and where it ends.
pub open spec fn parse_dcd(s: Seq<u8>) -> Option<(DecoderConfigV, int)> {
    match parse_desc(s) {
        Some((t, h, e)) => if t == 4 {
            match parse_dcd_payload(s.subrange(h, e)) {
                Some(v) => Some((v, e)),
                None => None,
            }
        } else {
            None
        },
        None => None,
    }
}

pub open spec fn dcd_encodable(v: DecoderConfigV) -> bool {
    &&& v.stream_type < 64
    &&& v.up_stream < 2
    &&& v.buffer_size_db < 0x100_0000
    &&& v.dec_specific_info matches Some(p) ==> p.len() <= MAX_DESCRIPTOR_SIZE
    &&& dcd_payload(v).len() <= MAX_DESCRIPTOR_SIZE
}

proof fn lemma_dcd_payload_roundtrip(v: DecoderConfigV)
    requires
        dcd_encodable(v),
    ensures
        parse_dcd_payload(dcd_payload(v)) == Some(v),
{
    let p = dcd_payload(v);
    assert(p.subrange(2, 5) =~= be24(v.buffer_size_db));
    assert(p.subrange(5, 9) =~= be32(v.max_bitrate));
    assert(p.subrange(9, 13) =~= be32(v.avg_bitrate));
    lemma_get24(p, 2, v.buffer_size_db);
    lemma_get32(p, 5, v.max_bitrate);
    lemma_get32(p, 9, v.avg_bitrate);
    let rest = p.skip(13);
    assert(rest =~= dsi_bytes(v.dec_specific_info));
    match v.dec_specific_info {
        Some(d) => {
            lemma_desc_roundtrip(5, d, Seq::<u8>::empty());
            assert(desc_bytes(5, d) + Seq::<u8>::empty() =~= rest);
        },
        None => {},
    }
    let b = dcd_type_byte(v);
    assert(b / 4 == v.stream_type);
    assert((b / 2) % 2 == v.up_stream);
}

proof fn lemma_dcd_roundtrip(v: DecoderConfigV, rest: Seq<u8>)
    requires
        dcd_encodable(v),
    ensures
        parse_dcd(dcd_bytes(v) + rest) == Some((v, dcd_bytes(v).len() as int)),
        (dcd_bytes(v) + rest).skip(dcd_bytes(v).len() as int) == rest,
{
    lemma_desc_roundtrip(4, dcd_payload(v), rest);
    lemma_dcd_payload_roundtrip(v);
}

// ----- SLConfigDescriptor -----

/// The `SLConfigDescriptor` with `predefined = 2`.
pub open spec fn sl_bytes() -> Seq<u8> {
    desc_bytes(6, seq![2u8])
}

/// An `SLConfigDescriptor` with `predefined = 2` starts `s`.
pub open spec fn parse_sl(s: Seq<u8>) -> bool {
    match parse_desc(s) {
        Some((t, h, e)) => t == 6 && h < e && s[h] == 2,
        None => false,
    }
}

// ----- ES_Descriptor -----

/// A 16-bit field, or nothing.
pub open spec fn opt16_bytes(o: Option<u16>) -> Seq<u8> {
    match o {
        Some(x) => be16(x),
        None => Seq::empty(),
    }
}

/// A URL: its length in bytes, then its UTF-8 bytes; or nothing.
pub open spec fn url_bytes(u: Option<Seq<char>>) -> Seq<u8> {
    match u {
        Some(c) => seq![encode_utf8(c).len() as u8] + encode_utf8(c),
        None => Seq::empty(),
    }
}

/// Flags byte: dependence, URL and OCR flags, stream priority.
pub open spec fn es_flags(v: EsDescriptorV) -> u8 {
    ((if v.depends_on_es_id is Some {
        128int
    } else {
        0
    }) + (if v.url_string is Some {
        64int
    } else {
        0
    }) + (if v.ocr_es_id is Some {
        32int
    } else {
        0
    }) + v.stream_priority) as u8
}

/// The payload of an `ES_Descriptor`.
pub open spec fn es_payload(v: EsDescriptorV) -> Seq<u8> {
    be16(v.es_id) + seq![es_flags(v)] + opt16_bytes(v.depends_on_es_id) + url_bytes(v.url_string)
        + opt16_bytes(v.ocr_es_id) + dcd_bytes(v.dec_config_descr) + sl_bytes()
}

pub open spec fn es_bytes(v: EsDescriptorV) -> Seq<u8> {
    desc_bytes(3, es_payload(v))
}

/// An optional 16-bit field at `o`, and the offset after it.
pub open spec fn parse_opt16(p: Seq<u8>, o: int, present: bool) -> Option<(Option<u16>, int)> {
    if !present {
        Some((None, o))
    } else if o + 2 > p.len() {
        None
    } else {
        Some((Some(get16(p, o)), o + 2))
    }
}

/// An optional URL at `o` (length byte, then UTF-8 bytes), and the offset after it.
pub open spec fn parse_url(p: Seq<u8>, o: int, present: bool) -> Option<(Option<Seq<char>>, int)> {
    if !present {
        Some((None, o))
    } else if o + 1 > p.len() || o + 1 + p[o] > p.len() {
        None
    } else {
        let b = p.subrange(o + 1, o + 1 + p[o]);
        if valid_utf8(b) {
            Some((Some(decode_utf8(b)), o + 1 + p[o]))
        } else {
            None
        }
    }
}

/// The optional fields of an `ES_Descriptor` payload as its flags byte
/// announces them, and the offset after them.
pub open spec fn parse_es_opts(p: Seq<u8>) -> Option<
    (Option<u16>, Option<Seq<char>>, Option<u16>, int),
> {
    let f = p[2];
    match parse_opt16(p, 3, f / 128 == 1) {
        None => None,
        Some((dep, o1)) => match parse_url(p, o1, (f / 64) % 2 == 1) {
            None => None,
            Some((url, o2)) => match parse_opt16(p, o2, (f / 32) % 2 == 1) {
                None => None,
                Some((ocr, o3)) => Some((dep, url, ocr, o3)),
            },
        },
    }
}

/// The `DecoderConfigDescriptor` at `o` followed by an `SLConfigDescriptor`.
pub open spec fn parse_es_tail(p: Seq<u8>, o: int) -> Option<DecoderConfigV> {
    match parse_dcd(p.skip(o)) {
        None => None,
        Some((dec, k)) => if parse_sl(p.skip(o + k)) {
            Some(dec)
        } else {
            None
        },
    }
}

/// An `ES_Descriptor` payload: ES id, flags and the optional fields, then a
/// `DecoderConfigDescriptor` and an `SLConfigDescriptor`; bytes after them
/// are ignored.
pub open spec fn parse_es_payload(p: Seq<u8>) -> Option<EsDescriptorV> {
    if p.len() < 3 {
        None
    } else {
        match parse_es_opts(p) {
            None => None,
            Some((dep, url, ocr, o3)) => match parse_es_tail(p, o3) {
                None => None,
                Some(dec) => Some(
                    EsDescriptorV {
                        es_id: get16(p, 0),
                        stream_priority: p[2] % 32,
                        depends_on_es_id: dep,
                        url_string: url,
                        ocr_es_id: ocr,
                        dec_config_descr: dec,
                    },
                ),
            },
        }
    }
}

/// The `ES_Descriptor` at the start of `s`.
pub open spec fn parse_es(s: Seq<u8>) -> Option<EsDescriptorV> {
    match parse_desc(s) {
        Some((t, h, e)) => if t == 3 {
            parse_es_payload(s.subrange(h, e))
        } else {
            None
        },
        None => None,
    }
}

pub open spec fn es_encodable(v: EsDescriptorV) -> bool {
    &&& v.stream_priority < 32
    &&& v.url_string matches Some(c) ==> encode_utf8(c).len() <= 255
    &&& dcd_encodable(v.dec_config_descr)
    &&& es_payload(v).len() <= MAX_DESCRIPTOR_SIZE
}

proof fn lemma_es_flags(v: EsDescriptorV)
    requires
        v.stream_priority < 32,
    ensures
        (es_flags(v) / 128 == 1) == (v.depends_on_es_id is Some),
        ((es_flags(v) / 64) % 2 == 1) == (v.url_string is Some),
        ((es_flags(v) / 32) % 2 == 1) == (v.ocr_es_id is Some),
        es_flags(v) % 32 == v.stream_priority,
{
}

proof fn lemma_opt16(o: Option<u16>, pre: Seq<u8>, rest: Seq<u8>)
    ensures
        parse_opt16(pre + opt16_bytes(o) + rest, pre.len() as int, o is Some) == Some(
            (o, pre.len() + opt16_bytes(o).len() as int),
        ),
{
    match o {
        Some(x) => {
            let s = pre + opt16_bytes(o) + rest;
            assert(s.subrange(pre.len() as int, pre.len() as int + 2) =~= be16(x));
            lemma_get16(s, pre.len() as int, x);
        },
        None => {},
    }
}

proof fn lemma_url(u: Option<Seq<char>>, pre: Seq<u8>, rest: Seq<u8>)
    requires
        u matches Some(c) ==> encode_utf8(c).len() <= 255,
    ensures
        parse_url(pre + url_bytes(u) + rest, pre.len() as int, u is Some) == Some(
            (u, pre.len() + url_bytes(u).len() as int),
        ),
{
    match u {
        Some(c) => {
            let s = pre + url_bytes(u) + rest;
            let b = encode_utf8(c);
            let o = pre.len() as int;
            assert(s[o] == b.len() as u8);
            assert(s.subrange(o + 1, o + 1 + b.len() as int) =~= b);
            vstd::utf8::encode_utf8_valid_utf8(c);
            vstd::utf8::encode_utf8_decode_utf8(c);
        },
        None => {},
    }
}

proof fn lemma_es_opts_roundtrip(v: EsDescriptorV, tail: Seq<u8>)
    requires
        es_encodable(v),
    ensures
        parse_es_opts(
            be16(v.es_id) + seq![es_flags(v)] + opt16_bytes(v.depends_on_es_id) + url_bytes(
                v.url_string,
            ) + opt16_bytes(v.ocr_es_id) + tail,
        ) == Some(
            (
                v.depends_on_es_id,
                v.url_string,
                v.ocr_es_id,
                3 + opt16_bytes(v.depends_on_es_id).len() as int + url_bytes(v.url_string).len() as int
                    + opt16_bytes(v.ocr_es_id).len() as int,
            ),
        ),
{
    let h = be16(v.es_id) + seq![es_flags(v)];
    let d = opt16_bytes(v.depends_on_es_id);
    let u = url_bytes(v.url_string);
    let o = opt16_bytes(v.ocr_es_id);
    let p = h + d + u + o + tail;
    assert(p =~= h + d + (u + o + tail));
    lemma_opt16(v.depends_on_es_id, h, u + o + tail);
    assert(p =~= (h + d) + u + (o + tail));
    lemma_url(v.url_string, h + d, o + tail);
    assert(p =~= (h + d + u) + o + tail);
    lemma_opt16(v.ocr_es_id, h + d + u, tail);
    assert(p[2] == es_flags(v));
    lemma_es_flags(v);
}

proof fn lemma_es_tail_roundtrip(dec: DecoderConfigV, pre: Seq<u8>)
    requires
        dcd_encodable(dec),
    ensures
        parse_es_tail(pre + dcd_bytes(dec) + sl_bytes(), pre.len() as int) == Some(dec),
{
    let p = pre + dcd_bytes(dec) + sl_bytes();
    assert(p.skip(pre.len() as int) =~= dcd_bytes(dec) + sl_bytes());
    lemma_dcd_roundtrip(dec, sl_bytes());
    let k = dcd_bytes(dec).len() as int;
    assert(p.skip(pre.len() + k) =~= sl_bytes());
    lemma_desc_roundtrip(6, seq![2u8], Seq::<u8>::empty());
    assert(sl_bytes() + Seq::<u8>::empty() =~= sl_bytes());
}

proof fn lemma_es_payload_roundtrip(v: EsDescriptorV)
    requires
        es_encodable(v),
    ensures
        parse_es_payload(es_payload(v)) == Some(v),
{
    let p = es_payload(v);
    let pre = be16(v.es_id) + seq![es_flags(v)] + opt16_bytes(v.depends_on_es_id) + url_bytes(
        v.url_string,
    ) + opt16_bytes(v.ocr_es_id);
    let tail = dcd_bytes(v.dec_config_descr) + sl_bytes();
    assert(p =~= pre + tail);
    lemma_es_opts_roundtrip(v, tail);
    assert(p =~= pre + dcd_bytes(v.dec_config_descr) + sl_bytes());
    lemma_es_tail_roundtrip(v.dec_config_descr, pre);
    assert(p.subrange(0, 2) =~= be16(v.es_id));
    lemma_get16(p, 0, v.es_id);
    lemma_es_flags(v);
}

// ----- esds -----

/// `esds` payload: full box header (version 0, flags 0), then the `ES_Descriptor`.
pub open spec fn esds_bytes(v: EsdsBoxV) -> Seq<u8> {
    full_header_bytes(0, 0) + es_bytes(v.es)
}

/// `esds` payload decoding: version 0 and an `ES_Descriptor`.
pub open spec fn parse_esds(p: Seq<u8>) -> Option<EsdsBoxV> {
    if p.len() < 4 || p[0] != 0 {
        None
    } else {
        match parse_es(p.skip(4)) {
            Some(es) => Some(EsdsBoxV { es }),
            None => None,
        }
    }
}

/// Appends a `DecoderConfigDescriptor`.
pub fn encode_dcd(d: &DecoderConfigDescriptor, out: &mut Vec<u8>) -> (r: Result<(), Error>)
    ensures
        r matches Err(e) ==> e.kind == ErrorKind::InvalidInput,
        r is Ok <==> dcd_encodable(d@),
        r is Ok ==> final(out)@ == old(out)@ + dcd_bytes(d@),
{
    if d.stream_type >= 64 || d.up_stream >= 2 {
        return Err(Error::invalid_input("DecoderConfigDescriptor bit field out of range"));
    }
    if d.buffer_size_db > 0xFF_FFFF {
        return Err(Error::invalid_input("buffer_size_db must fit in 24 bits"));
    }
    let mut p: Vec<u8> = Vec::new();
    push_u8(&mut p, d.object_type_indication);
    push_u8(&mut p, d.stream_type * 4 + d.up_stream * 2 + 1);
    push_u24(&mut p, d.buffer_size_db);
    push_u32(&mut p, d.max_bitrate);
    push_u32(&mut p, d.avg_bitrate);
    match &d.dec_specific_info {
        Some(dsi) => {
            match write_desc(&mut p, 5, &dsi.payload) {
                Ok(()) => {},
                Err(e) => {
                    return Err(e);
                },
            }
        },
        None => {},
    }
    assert(p@ =~= dcd_payload(d@));
    write_desc(out, 4, &p)
}

/// Appends an `ES_Descriptor`.
pub fn encode_es(es: &EsDescriptor, out: &mut Vec<u8>) -> (r: Result<(), Error>)
    ensures
        r matches Err(e) ==> e.kind == ErrorKind::InvalidInput,
        r is Ok <==> es_encodable(es@),
        r is Ok ==> final(out)@ == old(out)@ + es_bytes(es@),
{
    if es.stream_priority >= 32 {
        return Err(Error::invalid_input("streamPriority out of range"));
    }
    let mut p: Vec<u8> = Vec::new();
    push_u16(&mut p, es.es_id);
    let flags: u8 = (if es.depends_on_es_id.is_some() {
        128u8
    } else {
        0
    }) + (if es.url_string.is_some() {
        64u8
    } else {
        0
    }) + (if es.ocr_es_id.is_some() {
        32u8
    } else {
        0
    }) + es.stream_priority;
    push_u8(&mut p, flags);
    match es.depends_on_es_id {
        Some(x) => push_u16(&mut p, x),
        None => {},
    }
    match &es.url_string {
        Some(s) => {
            let b = string_bytes(s);
            if b.len() > 255 {
                return Err(Error::invalid_input("URL string is too long"));
            }
            push_u8(&mut p, b.len() as u8);
            push_slice(&mut p, b);
        },
        None => {},
    }
    match es.ocr_es_id {
        Some(x) => push_u16(&mut p, x),
        None => {},
    }
    let ghost before_dcd = p@;
    match encode_dcd(&es.dec_config_descr, &mut p) {
        Ok(()) => {},
        Err(e) => {
            return Err(e);
        },
    }
    push_u8(&mut p, 6);
    push_u8(&mut p, 1);
    push_u8(&mut p, 2);
    proof {
        lemma_size_bytes_small(1);
        assert(seq![6u8, 1u8, 2u8] =~= sl_bytes());
        assert(before_dcd =~= be16(es.es_id) + seq![es_flags(es@)] + opt16_bytes(es.depends_on_es_id)
            + url_bytes(es@.url_string) + opt16_bytes(es.ocr_es_id));
        assert(p@ =~= es_payload(es@));
    }
    write_desc(out, 3, &p)
}

/// Reads the `DecoderConfigDescriptor` at `pos`; returns it and where it ends.
pub fn decode_dcd(buf: &[u8], pos: usize) -> (r: Result<(DecoderConfigDescriptor, usize), Error>)
    requires
        pos <= buf@.len(),
    ensures
        r matches Err(e) ==> e.kind == ErrorKind::InvalidData,
        r is Ok <==> parse_dcd(buf@.skip(pos as int)) is Some,
        r matches Ok((d, e)) ==> parse_dcd(buf@.skip(pos as int)) == Some((d@, e - pos)) && pos
            <= e <= buf@.len(),
{
    let ghost s = buf@.skip(pos as int);
    let (t, h, e) = match split_desc(buf, pos) {
        Ok(x) => x,
        Err(err) => {
            return Err(err);
        },
    };
    if t != 4 {
        return Err(Error::invalid_data("expected a DecoderConfigDescriptor"));
    }
    let p = vstd::slice::slice_subrange(buf, h, e);
    assert(p@ =~= s.subrange(h - pos, e - pos));
    if p.len() < 13 {
        return Err(Error::invalid_data("DecoderConfigDescriptor is truncated"));
    }
    let b1 = p[1];
    let bsdb = match read_u24(p, 2) {
        Ok(x) => x,
        Err(err) => {
            return Err(err);
        },
    };
    let maxb = match read_u32(p, 5) {
        Ok(x) => x,
        Err(err) => {
            return Err(err);
        },
    };
    let avgb = match read_u32(p, 9) {
        Ok(x) => x,
        Err(err) => {
            return Err(err);
        },
    };
    let mut dsi: Option<DecoderSpecificInfo> = None;
    if p.len() > 13 && p[13] == 5 {
        let (_, dh, de) = match split_desc(p, 13) {
            Ok(x) => x,
            Err(err) => {
                return Err(err);
            },
        };
        let payload = vstd::slice::slice_to_vec(vstd::slice::slice_subrange(p, dh, de));
        assert(payload@ =~= p@.skip(13).subrange(dh - 13, de - 13));
        dsi = Some(DecoderSpecificInfo { payload });
    }
    let d = DecoderConfigDescriptor {
        object_type_indication: p[0],
        stream_type: b1 / 4,
        up_stream: (b1 / 2) % 2,
        buffer_size_db: bsdb,
        max_bitrate: maxb,
        avg_bitrate: avgb,
        dec_specific_info: dsi,
    };
    Ok((d, e))
}

/// Reads an optional 16-bit field at `o`.
fn decode_opt16(p: &[u8], o: usize, present: bool) -> (r: Result<(Option<u16>, usize), Error>)
    requires
        o <= p@.len(),
    ensures
        r matches Err(e) ==> e.kind == ErrorKind::InvalidData,
        r is Ok <==> parse_opt16(p@, o as int, present) is Some,
        r matches Ok((v, e)) ==> parse_opt16(p@, o as int, present) == Some((v, e as int)) && e
            <= p@.len(),
{
    if !present {
        return Ok((None, o));
    }
    if p.len() - o < 2 {
        return Err(Error::invalid_data("descriptor field is truncated"));
    }
    match read_u16(p, o) {
        Ok(x) => Ok((Some(x), o + 2)),
        Err(err) => Err(err),
    }
}

/// Reads an optional URL at `o`.
fn decode_url(p: &[u8], o: usize, present: bool) -> (r: Result<(Option<String>, usize), Error>)
    requires
        o <= p@.len(),
    ensures
        r matches Err(e) ==> e.kind == ErrorKind::InvalidData,
        r is Ok <==> parse_url(p@, o as int, present) is Some,
        r matches Ok((v, e)) ==> parse_url(p@, o as int, present) == Some(
            (
                match v {
                    Some(s) => Some(s@),
                    None => None,
                },
                e as int,
            ),
        ) && e <= p@.len(),
{
    if !present {
        return Ok((None, o));
    }
    if o >= p.len() {
        return Err(Error::invalid_data("URL length is truncated"));
    }
    let n = p[o] as usize;
    if n > p.len() - o - 1 {
        return Err(Error::invalid_data("URL string exceeds the descriptor"));
    }
    let b = vstd::slice::slice_subrange(p, o + 1, o + 1 + n);
    match string_from_bytes(b) {
        Some(s) => Ok((Some(s), o + 1 + n)),
        None => Err(Error::invalid_data("URL string is not valid UTF-8")),
    }
}

/// Reads the optional fields of an `ES_Descriptor` payload.
fn decode_es_opts(p: &[u8]) -> (r: Result<(Option<u16>, Option<String>, Option<u16>, usize), Error>)
    requires
        p@.len() >= 3,
    ensures
        r matches Err(e) ==> e.kind == ErrorKind::InvalidData,
        r is Ok <==> parse_es_opts(p@) is Some,
        r matches Ok((dep, url, ocr, o)) ==> parse_es_opts(p@) == Some(
            (
                dep,
                match url {
                    Some(s) => Some(s@),
                    None => None,
                },
                ocr,
                o as int,
            ),
        ) && o <= p@.len(),
{
    let f = p[2];
    let (dep, o1) = match decode_opt16(p, 3, f / 128 == 1) {
        Ok(x) => x,
        Err(err) => {
            return Err(err);
        },
    };
    let (url, o2) = match decode_url(p, o1, (f / 64) % 2 == 1) {
        Ok(x) => x,
        Err(err) => {
            return Err(err);
        },
    };
    let (ocr, o3) = match decode_opt16(p, o2, (f / 32) % 2 == 1) {
        Ok(x) => x,
        Err(err) => {
            return Err(err);
        },
    };
    Ok((dep, url, ocr, o3))
}

/// Reads the `DecoderConfigDescriptor` at `o` and the `SLConfigDescriptor` after it.
fn decode_es_tail(p: &[u8], o: usize) -> (r: Result<DecoderConfigDescriptor, Error>)
    requires
        o <= p@.len(),
    ensures
        r matches Err(e) ==> e.kind == ErrorKind::InvalidData,
        r is Ok <==> parse_es_tail(p@, o as int) is Some,
        r matches Ok(d) ==> parse_es_tail(p@, o as int) == Some(d@),
{
    let (dec, e) = match decode_dcd(p, o) {
        Ok(x) => x,
        Err(err) => {
            return Err(err);
        },
    };
    assert(p@.skip(e as int) =~= p@.skip(o as int).skip(e - o));
    let (t, h, se) = match split_desc(p, e) {
        Ok(x) => x,
        Err(err) => {
            return Err(err);
        },
    };
    if t != 6 || h >= se || p[h] != 2 {
        return Err(Error::invalid_data("expected an SLConfigDescriptor with predefined 2"));
    }
    Ok(dec)
}

/// Reads an `ES_Descriptor` payload.
pub fn decode_es_payload(p: &[u8]) -> (r: Result<EsDescriptor, Error>)
    ensures
        r matches Err(e) ==> e.kind == ErrorKind::InvalidData,
        r is Ok <==> parse_es_payload(p@) is Some,
        r matches Ok(es) ==> parse_es_payload(p@) == Some(es@),
{
    if p.len() < 3 {
        return Err(Error::invalid_data("ES_Descriptor is truncated"));
    }
    let es_id = match read_u16(p, 0) {
        Ok(x) => x,
        Err(err) => {
            return Err(err);
        },
    };
    let (dep, url, ocr, o3) = match decode_es_opts(p) {
        Ok(x) => x,
        Err(err) => {
            return Err(err);
        },
    };
    let dec = match decode_es_tail(p, o3) {
        Ok(x) => x,
        Err(err) => {
            return Err(err);
        },
    };
    Ok(
        EsDescriptor {
            es_id,
            stream_priority: p[2] % 32,
            depends_on_es_id: dep,
            url_string: url,
            ocr_es_id: ocr,
            dec_config_descr: dec,
            sl_config_descr: SlConfigDescriptor,
        },
    )
}

impl BoxCodec for EsdsBox {
    open spec fn decode_error_kind(k: ErrorKind) -> bool {
        k == ErrorKind::InvalidData
    }

    open spec fn spec_box_type() -> u32 {
        0x65736473
    }

    open spec fn encodable(v: EsdsBoxV) -> bool {
        es_encodable(v.es)
    }

    open spec fn valid(v: EsdsBoxV) -> bool {
        es_encodable(v.es)
    }

    open spec fn payload_bytes(v: EsdsBoxV) -> Seq<u8> {
        esds_bytes(v)
    }

    open spec fn parse_payload(p: Seq<u8>) -> Option<EsdsBoxV> {
        parse_esds(p)
    }

    proof fn lemma_payload_roundtrip(v: EsdsBoxV) {
        let p = esds_bytes(v);
        assert(p.skip(4) =~= es_bytes(v.es) + Seq::<u8>::empty());
        lemma_desc_roundtrip(3, es_payload(v.es), Seq::<u8>::empty());
        lemma_es_payload_roundtrip(v.es);
    }

    fn box_type_code() -> (r: u32) {
        Self::TYPE
    }

    fn encode_payload(&self, out: &mut Vec<u8>) -> (r: Result<(), Error>) {
        let mut body: Vec<u8> = Vec::new();
        match encode_es(&self.es, &mut body) {
            Ok(()) => {},
            Err(e) => {
                return Err(e);
            },
        }
        push_full_header(out, 0, 0);
        push_slice(out, body.as_slice());
        assert(out@ =~= old(out)@ + esds_bytes(self@));
        Ok(())
    }

    fn decode_payload(p: &[u8]) -> (r: Result<Self, Error>) {
        if p.len() < 4 {
            return Err(Error::invalid_data("esds box is truncated"));
        }
        if p[0] != 0 {
            return Err(Error::invalid_data("Unsupported esds version"));
        }
        let (t, h, e) = match split_desc(p, 4) {
            Ok(x) => x,
            Err(err) => {
                return Err(err);
            },
        };
        if t != 3 {
            return Err(Error::invalid_data("expected an ES_Descriptor"));
        }
        let body = vstd::slice::slice_subrange(p, h, e);
        assert(body@ =~= p@.skip(4).subrange(h - 4, e - 4));
        match decode_es_payload(body) {
            Ok(es) => Ok(EsdsBox { es }),
            Err(err) => Err(err),
        }
    }
}

impl EsdsBox {
    /// The bytes of the box. Fails when it cannot be encoded.
    pub fn encode_to_vec(&self) -> (r: Result<Vec<u8>, Error>)
        ensures
            r matches Err(e) ==> e.kind == ErrorKind::InvalidInput,
            r is Ok <==> box_encodable::<EsdsBox>(self@),
            r matches Ok(v) ==> v@ == box_of::<EsdsBox>(self@),
    {
        encode_box_to_vec(self)
    }

    /// Decodes the box at the start of `buf`; returns it and its size.
    pub fn decode(buf: &[u8]) -> (r: Result<(EsdsBox, usize), Error>)
        ensures
            r matches Err(e) ==> e.kind == ErrorKind::InvalidData,
            r is Ok <==> parse_box::<EsdsBox>(buf@) is Some,
            r matches Ok((v, n)) ==> parse_box::<EsdsBox>(buf@) == Some((v@, n as int)),
    {
        decode_box(buf)
    }
}

} // verus!
