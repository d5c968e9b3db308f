//! Sample entries (children of `stsd`) built from fixed fields, a decoder
//! configuration box and other child boxes.
use vstd::prelude::*;

use crate::codec::{
    box_encodable, box_of, decode_box, encode_box_to_vec, parse_box, unknowns_view, BoxCodec,
    UnknownBox,
};
use crate::avcc::{AvccBox, AvccBoxV};
use crate::config_simple::{Av1cBox, Av1cBoxV, DopsBox, VpccBox, VpccBoxV};
use crate::dfla::{DflaBox, DflaBoxV};
use crate::esds::{EsdsBox, EsdsBoxV};
use crate::hvcc::{HvccBox, HvccBoxV};
use crate::entry::{
    decode_entry, encode_entry, entry_bytes, entry_encodable, entry_valid, lemma_entry_roundtrip,
    parse_entry, AudioSampleEntryFields, EntryV, VisualFieldsV, VisualSampleEntryFields,
};
use crate::error::{Error, ErrorKind};

verus! {

/// VP8 sample entry (`vp08`).
#[derive(Debug, Clone, PartialEq, Eq, Hash)]
pub struct Vp08Box {
    /// Fields shared by visual sample entries
    pub visual: VisualSampleEntryFields,
    /// Decoder configuration box
    pub vpcc_box: VpccBox,
    /// Other child boxes, kept as they are
    pub unknown_boxes: Vec<UnknownBox>,
}

impl View for Vp08Box {
    type V = EntryV<VisualFieldsV, VpccBoxV>;

    open spec fn view(&self) -> EntryV<VisualFieldsV, VpccBoxV> {
        EntryV {
            fields: self.visual@,
            config: self.vpcc_box@,
            unknown_boxes: unknowns_view(self.unknown_boxes@),
        }
    }
}

impl Vp08Box {
    /// Box type `vp08`
    pub const TYPE: u32 = 0x76703038;

    /// The bytes of the box. Fails when it cannot be encoded.
    pub fn encode_to_vec(&self) -> (r: Result<Vec<u8>, Error>)
        ensures
            r matches Err(e) ==> e.kind == ErrorKind::InvalidInput,
            r is Ok <==> box_encodable::<Vp08Box>(self@),
            r matches Ok(v) ==> v@ == box_of::<Vp08Box>(self@),
    {
        encode_box_to_vec(self)
    }

    /// Decodes the box at the start of `buf`; returns it and its size.
    pub fn decode(buf: &[u8]) -> (r: Result<(Vp08Box, usize), Error>)
        ensures
            r matches Err(e) ==> e.kind == ErrorKind::InvalidData,
            r is Ok <==> parse_box::<Vp08Box>(buf@) is Some,
            r matches Ok((v, n)) ==> parse_box::<Vp08Box>(buf@) == Some((v@, n as int)),
    {
        decode_box(buf)
    }
}

impl BoxCodec for Vp08Box {
    open spec fn decode_error_kind(k: ErrorKind) -> bool {
        k == ErrorKind::InvalidData
    }

    open spec fn spec_box_type() -> u32 {
        0x76703038
    }

    open spec fn encodable(v: EntryV<VisualFieldsV, VpccBoxV>) -> bool {
        entry_encodable::<VisualSampleEntryFields, VpccBox>(v)
    }

    open spec fn valid(v: EntryV<VisualFieldsV, VpccBoxV>) -> bool {
        entry_valid::<VisualSampleEntryFields, VpccBox>(v)
    }

    open spec fn payload_bytes(v: EntryV<VisualFieldsV, VpccBoxV>) -> Seq<u8> {
        entry_bytes::<VisualSampleEntryFields, VpccBox>(v)
    }

    open spec fn parse_payload(p: Seq<u8>) -> Option<EntryV<VisualFieldsV, VpccBoxV>> {
        parse_entry::<VisualSampleEntryFields, VpccBox>(p)
    }

    proof fn lemma_payload_roundtrip(v: EntryV<VisualFieldsV, VpccBoxV>) {
        lemma_entry_roundtrip::<VisualSampleEntryFields, VpccBox>(v);
    }

    fn box_type_code() -> (r: u32) {
        Self::TYPE
    }

    fn encode_payload(&self, out: &mut Vec<u8>) -> (r: Result<(), Error>) {
        encode_entry(&self.visual, &self.vpcc_box, &self.unknown_boxes, out)
    }

    fn decode_payload(p: &[u8]) -> (r: Result<Self, Error>) {
        match decode_entry::<VisualSampleEntryFields, VpccBox>(p) {
            Ok((f, c, us)) => Ok(Vp08Box { visual: f, vpcc_box: c, unknown_boxes: us }),
            Err(e) => Err(e),
        }
    }
}

/// VP9 sample entry (`vp09`).
#[derive(Debug, Clone, PartialEq, Eq, Hash)]
pub struct Vp09Box {
    /// Fields shared by visual sample entries
    pub visual: VisualSampleEntryFields,
    /// Decoder configuration box
    pub vpcc_box: VpccBox,
    /// Other child boxes, kept as they are
    pub unknown_boxes: Vec<UnknownBox>,
}

impl View for Vp09Box {
    type V = EntryV<VisualFieldsV, VpccBoxV>;

    open spec fn view(&self) -> EntryV<VisualFieldsV, VpccBoxV> {
        EntryV {
            fields: self.visual@,
            config: self.vpcc_box@,
            unknown_boxes: unknowns_view(self.unknown_boxes@),
        }
    }
}

impl Vp09Box {
    /// Box type `vp09`
    pub const TYPE: u32 = 0x76703039;

    /// The bytes of the box. Fails when it cannot be encoded.
    pub fn encode_to_vec(&self) -> (r: Result<Vec<u8>, Error>)
        ensures
            r matches Err(e) ==> e.kind == ErrorKind::InvalidInput,
            r is Ok <==> box_encodable::<Vp09Box>(self@),
            r matches Ok(v) ==> v@ == box_of::<Vp09Box>(self@),
    {
        encode_box_to_vec(self)
    }

    /// Decodes the box at the start of `buf`; returns it and its size.
    pub fn decode(buf: &[u8]) -> (r: Result<(Vp09Box, usize), Error>)
        ensures
            r matches Err(e) ==> e.kind == ErrorKind::InvalidData,
            r is Ok <==> parse_box::<Vp09Box>(buf@) is Some,
            r matches Ok((v, n)) ==> parse_box::<Vp09Box>(buf@) == Some((v@, n as int)),
    {
        decode_box(buf)
    }
}

impl BoxCodec for Vp09Box {
    open spec fn decode_error_kind(k: ErrorKind) -> bool {
        k == ErrorKind::InvalidData
    }

    open spec fn spec_box_type() -> u32 {
        0x76703039
    }

    open spec fn encodable(v: EntryV<VisualFieldsV, VpccBoxV>) -> bool {
        entry_encodable::<VisualSampleEntryFields, VpccBox>(v)
    }

    open spec fn valid(v: EntryV<VisualFieldsV, VpccBoxV>) -> bool {
        entry_valid::<VisualSampleEntryFields, VpccBox>(v)
    }

    open spec fn payload_bytes(v: EntryV<VisualFieldsV, VpccBoxV>) -> Seq<u8> {
        entry_bytes::<VisualSampleEntryFields, VpccBox>(v)
    }

    open spec fn parse_payload(p: Seq<u8>) -> Option<EntryV<VisualFieldsV, VpccBoxV>> {
        parse_entry::<VisualSampleEntryFields, VpccBox>(p)
    }

    proof fn lemma_payload_roundtrip(v: EntryV<VisualFieldsV, VpccBoxV>) {
        lemma_entry_roundtrip::<VisualSampleEntryFields, VpccBox>(v);
    }

    fn box_type_code() -> (r: u32) {
        Self::TYPE
    }

    fn encode_payload(&self, out: &mut Vec<u8>) -> (r: Result<(), Error>) {
        encode_entry(&self.visual, &self.vpcc_box, &self.unknown_boxes, out)
    }

    fn decode_payload(p: &[u8]) -> (r: Result<Self, Error>) {
        match decode_entry::<VisualSampleEntryFields, VpccBox>(p) {
            Ok((f, c, us)) => Ok(Vp09Box { visual: f, vpcc_box: c, unknown_boxes: us }),
            Err(e) => Err(e),
        }
    }
}

/// AV1 sample entry (`av01`).
#[derive(Debug, Clone, PartialEq, Eq, Hash)]
pub struct Av01Box {
    /// Fields shared by visual sample entries
    pub visual: VisualSampleEntryFields,
    /// Decoder configuration box
    pub av1c_box: Av1cBox,
    /// Other child boxes, kept as they are
    pub unknown_boxes: Vec<UnknownBox>,
}

impl View for Av01Box {
    type V = EntryV<VisualFieldsV, Av1cBoxV>;

    open spec fn view(&self) -> EntryV<VisualFieldsV, Av1cBoxV> {
        EntryV {
            fields: self.visual@,
            config: self.av1c_box@,
            unknown_boxes: unknowns_view(self.unknown_boxes@),
        }
    }
}

impl Av01Box {
    /// Box type `av01`
    pub const TYPE: u32 = 0x61763031;

    /// The bytes of the box. Fails when it cannot be encoded.
    pub fn encode_to_vec(&self) -> (r: Result<Vec<u8>, Error>)
        ensures
            r matches Err(e) ==> e.kind == ErrorKind::InvalidInput,
            r is Ok <==> box_encodable::<Av01Box>(self@),
            r matches Ok(v) ==> v@ == box_of::<Av01Box>(self@),
    {
        encode_box_to_vec(self)
    }

    /// Decodes the box at the start of `buf`; returns it and its size.
    pub fn decode(buf: &[u8]) -> (r: Result<(Av01Box, usize), Error>)
        ensures
            r matches Err(e) ==> e.kind == ErrorKind::InvalidData,
            r is Ok <==> parse_box::<Av01Box>(buf@) is Some,
            r matches Ok((v, n)) ==> parse_box::<Av01Box>(buf@) == Some((v@, n as int)),
    {
        decode_box(buf)
    }
}

impl BoxCodec for Av01Box {
    open spec fn decode_error_kind(k: ErrorKind) -> bool {
        k == ErrorKind::InvalidData
    }

    open spec fn spec_box_type() -> u32 {
        0x61763031
    }

    open spec fn encodable(v: EntryV<VisualFieldsV, Av1cBoxV>) -> bool {
        entry_encodable::<VisualSampleEntryFields, Av1cBox>(v)
    }

    open spec fn valid(v: EntryV<VisualFieldsV, Av1cBoxV>) -> bool {
        entry_valid::<VisualSampleEntryFields, Av1cBox>(v)
    }

    open spec fn payload_bytes(v: EntryV<VisualFieldsV, Av1cBoxV>) -> Seq<u8> {
        entry_bytes::<VisualSampleEntryFields, Av1cBox>(v)
    }

    open spec fn parse_payload(p: Seq<u8>) -> Option<EntryV<VisualFieldsV, Av1cBoxV>> {
        parse_entry::<VisualSampleEntryFields, Av1cBox>(p)
    }

    proof fn lemma_payload_roundtrip(v: EntryV<VisualFieldsV, Av1cBoxV>) {
        lemma_entry_roundtrip::<VisualSampleEntryFields, Av1cBox>(v);
    }

    fn box_type_code() -> (r: u32) {
        Self::TYPE
    }

    fn encode_payload(&self, out: &mut Vec<u8>) -> (r: Result<(), Error>) {
        encode_entry(&self.visual, &self.av1c_box, &self.unknown_boxes, out)
    }

    fn decode_payload(p: &[u8]) -> (r: Result<Self, Error>) {
        match decode_entry::<VisualSampleEntryFields, Av1cBox>(p) {
            Ok((f, c, us)) => Ok(Av01Box { visual: f, av1c_box: c, unknown_boxes: us }),
            Err(e) => Err(e),
        }
    }
}

/// Opus sample entry (`Opus`).
#[derive(Debug, Clone, PartialEq, Eq, Hash)]
pub struct OpusBox {
    /// Fields shared by audio sample entries
    pub audio: AudioSampleEntryFields,
    /// Decoder configuration box
    pub dops_box: DopsBox,
    /// Other child boxes, kept as they are
    pub unknown_boxes: Vec<UnknownBox>,
}

impl View for OpusBox {
    type V = EntryV<AudioSampleEntryFields, DopsBox>;

    open spec fn view(&self) -> EntryV<AudioSampleEntryFields, DopsBox> {
        EntryV {
            fields: self.audio@,
            config: self.dops_box@,
            unknown_boxes: unknowns_view(self.unknown_boxes@),
        }
    }
}

impl OpusBox {
    /// Box type `Opus`
    pub const TYPE: u32 = 0x4F707573;

    /// The bytes of the box. Fails when it cannot be encoded.
    pub fn encode_to_vec(&self) -> (r: Result<Vec<u8>, Error>)
        ensures
            r matches Err(e) ==> e.kind == ErrorKind::InvalidInput,
            r is Ok <==> box_encodable::<OpusBox>(self@),
            r matches Ok(v) ==> v@ == box_of::<OpusBox>(self@),
    {
        encode_box_to_vec(self)
    }

    /// Decodes the box at the start of `buf`; returns it and its size.
    pub fn decode(buf: &[u8]) -> (r: Result<(OpusBox, usize), Error>)
        ensures
            r matches Err(e) ==> e.kind == ErrorKind::InvalidData || e.kind == ErrorKind::Unsupported,
            r is Ok <==> parse_box::<OpusBox>(buf@) is Some,
            r matches Ok((v, n)) ==> parse_box::<OpusBox>(buf@) == Some((v@, n as int)),
    {
        decode_box(buf)
    }
}

impl BoxCodec for OpusBox {
    /// As for its `dOps` box: a channel mapping family other than 0 is
    /// `Unsupported`.
    open spec fn decode_error_kind(k: ErrorKind) -> bool {
        k == ErrorKind::InvalidData || k == ErrorKind::Unsupported
    }

    open spec fn spec_box_type() -> u32 {
        0x4F707573
    }

    open spec fn encodable(v: EntryV<AudioSampleEntryFields, DopsBox>) -> bool {
        entry_encodable::<AudioSampleEntryFields, DopsBox>(v)
    }

    open spec fn valid(v: EntryV<AudioSampleEntryFields, DopsBox>) -> bool {
        entry_valid::<AudioSampleEntryFields, DopsBox>(v)
    }

    open spec fn payload_bytes(v: EntryV<AudioSampleEntryFields, DopsBox>) -> Seq<u8> {
        entry_bytes::<AudioSampleEntryFields, DopsBox>(v)
    }

    open spec fn parse_payload(p: Seq<u8>) -> Option<EntryV<AudioSampleEntryFields, DopsBox>> {
        parse_entry::<AudioSampleEntryFields, DopsBox>(p)
    }

    proof fn lemma_payload_roundtrip(v: EntryV<AudioSampleEntryFields, DopsBox>) {
        lemma_entry_roundtrip::<AudioSampleEntryFields, DopsBox>(v);
    }

    fn box_type_code() -> (r: u32) {
        Self::TYPE
    }

    fn encode_payload(&self, out: &mut Vec<u8>) -> (r: Result<(), Error>) {
        encode_entry(&self.audio, &self.dops_box, &self.unknown_boxes, out)
    }

    fn decode_payload(p: &[u8]) -> (r: Result<Self, Error>) {
        match decode_entry::<AudioSampleEntryFields, DopsBox>(p) {
            Ok((f, c, us)) => Ok(OpusBox { audio: f, dops_box: c, unknown_boxes: us }),
            Err(e) => Err(e),
        }
    }
}

/// H.264 (AVC) sample entry (`avc1`, ISO/IEC 14496-15).
#[derive(Debug, Clone, PartialEq, Eq, Hash)]
pub struct Avc1Box {
    /// Fields shared by visual sample entries
    pub visual: VisualSampleEntryFields,
    /// Decoder configuration box
    pub avcc_box: AvccBox,
    /// Other child boxes, kept as they are
    pub unknown_boxes: Vec<UnknownBox>,
}

impl View for Avc1Box {
    type V = EntryV<VisualFieldsV, AvccBoxV>;

    open spec fn view(&self) -> EntryV<VisualFieldsV, AvccBoxV> {
        EntryV {
            fields: self.visual@,
            config: self.avcc_box@,
            unknown_boxes: unknowns_view(self.unknown_boxes@),
        }
    }
}

impl Avc1Box {
    /// Box type `avc1`
    pub const TYPE: u32 = 0x61766331;

    /// The bytes of the box. Fails when it cannot be encoded.
    pub fn encode_to_vec(&self) -> (r: Result<Vec<u8>, Error>)
        ensures
            r matches Err(e) ==> e.kind == ErrorKind::InvalidInput,
            r is Ok <==> box_encodable::<Avc1Box>(self@),
            r matches Ok(v) ==> v@ == box_of::<Avc1Box>(self@),
    {
        encode_box_to_vec(self)
    }

    /// Decodes the box at the start of `buf`; returns it and its size.
    pub fn decode(buf: &[u8]) -> (r: Result<(Avc1Box, usize), Error>)
        ensures
            r matches Err(e) ==> e.kind == ErrorKind::InvalidData,
            r is Ok <==> parse_box::<Avc1Box>(buf@) is Some,
            r matches Ok((v, n)) ==> parse_box::<Avc1Box>(buf@) == Some((v@, n as int)),
    {
        decode_box(buf)
    }
}

impl BoxCodec for Avc1Box {
    open spec fn decode_error_kind(k: ErrorKind) -> bool {
        k == ErrorKind::InvalidData
    }

    open spec fn spec_box_type() -> u32 {
        0x61766331
    }

    open spec fn encodable(v: EntryV<VisualFieldsV, AvccBoxV>) -> bool {
        entry_encodable::<VisualSampleEntryFields, AvccBox>(v)
    }

    open spec fn valid(v: EntryV<VisualFieldsV, AvccBoxV>) -> bool {
        entry_valid::<VisualSampleEntryFields, AvccBox>(v)
    }

    open spec fn payload_bytes(v: EntryV<VisualFieldsV, AvccBoxV>) -> Seq<u8> {
        entry_bytes::<VisualSampleEntryFields, AvccBox>(v)
    }

    open spec fn parse_payload(p: Seq<u8>) -> Option<EntryV<VisualFieldsV, AvccBoxV>> {
        parse_entry::<VisualSampleEntryFields, AvccBox>(p)
    }

    proof fn lemma_payload_roundtrip(v: EntryV<VisualFieldsV, AvccBoxV>) {
        lemma_entry_roundtrip::<VisualSampleEntryFields, AvccBox>(v);
    }

    fn box_type_code() -> (r: u32) {
        Self::TYPE
    }

    fn encode_payload(&self, out: &mut Vec<u8>) -> (r: Result<(), Error>) {
        encode_entry(&self.visual, &self.avcc_box, &self.unknown_boxes, out)
    }

    fn decode_payload(p: &[u8]) -> (r: Result<Self, Error>) {
        match decode_entry::<VisualSampleEntryFields, AvccBox>(p) {
            Ok((f, c, us)) => Ok(Avc1Box { visual: f, avcc_box: c, unknown_boxes: us }),
            Err(e) => Err(e),
        }
    }
}

/// MPEG-4 Visual sample entry (`mp4v`, ISO/IEC 14496-14).
#[derive(Debug, Clone, PartialEq, Eq, Hash)]
pub struct Mp4vBox {
    /// Fields shared by visual sample entries
    pub visual: VisualSampleEntryFields,
    /// Decoder configuration box
    pub esds_box: EsdsBox,
    /// Other child boxes, kept as they are
    pub unknown_boxes: Vec<UnknownBox>,
}

impl View for Mp4vBox {
    type V = EntryV<VisualFieldsV, EsdsBoxV>;

    open spec fn view(&self) -> EntryV<VisualFieldsV, EsdsBoxV> {
        EntryV {
            fields: self.visual@,
            config: self.esds_box@,
            unknown_boxes: unknowns_view(self.unknown_boxes@),
        }
    }
}

impl Mp4vBox {
    /// Box type `mp4v`
    pub const TYPE: u32 = 0x6D703476;

    /// The bytes of the box. Fails when it cannot be encoded.
    pub fn encode_to_vec(&self) -> (r: Result<Vec<u8>, Error>)
        ensures
            r matches Err(e) ==> e.kind == ErrorKind::InvalidInput,
            r is Ok <==> box_encodable::<Mp4vBox>(self@),
            r matches Ok(v) ==> v@ == box_of::<Mp4vBox>(self@),
    {
        encode_box_to_vec(self)
    }

    /// Decodes the box at the start of `buf`; returns it and its size.
    pub fn decode(buf: &[u8]) -> (r: Result<(Mp4vBox, usize), Error>)
        ensures
            r matches Err(e) ==> e.kind == ErrorKind::InvalidData,
            r is Ok <==> parse_box::<Mp4vBox>(buf@) is Some,
            r matches Ok((v, n)) ==> parse_box::<Mp4vBox>(buf@) == Some((v@, n as int)),
    {
        decode_box(buf)
    }
}

impl BoxCodec for Mp4vBox {
    open spec fn decode_error_kind(k: ErrorKind) -> bool {
        k == ErrorKind::InvalidData
    }

    open spec fn spec_box_type() -> u32 {
        0x6D703476
    }

    open spec fn encodable(v: EntryV<VisualFieldsV, EsdsBoxV>) -> bool {
        entry_encodable::<VisualSampleEntryFields, EsdsBox>(v)
    }

    open spec fn valid(v: EntryV<VisualFieldsV, EsdsBoxV>) -> bool {
        entry_valid::<VisualSampleEntryFields, EsdsBox>(v)
    }

    open spec fn payload_bytes(v: EntryV<VisualFieldsV, EsdsBoxV>) -> Seq<u8> {
        entry_bytes::<VisualSampleEntryFields, EsdsBox>(v)
    }

    open spec fn parse_payload(p: Seq<u8>) -> Option<EntryV<VisualFieldsV, EsdsBoxV>> {
        parse_entry::<VisualSampleEntryFields, EsdsBox>(p)
    }

    proof fn lemma_payload_roundtrip(v: EntryV<VisualFieldsV, EsdsBoxV>) {
        lemma_entry_roundtrip::<VisualSampleEntryFields, EsdsBox>(v);
    }

    fn box_type_code() -> (r: u32) {
        Self::TYPE
    }

    fn encode_payload(&self, out: &mut Vec<u8>) -> (r: Result<(), Error>) {
        encode_entry(&self.visual, &self.esds_box, &self.unknown_boxes, out)
    }

    fn decode_payload(p: &[u8]) -> (r: Result<Self, Error>) {
        match decode_entry::<VisualSampleEntryFields, EsdsBox>(p) {
            Ok((f, c, us)) => Ok(Mp4vBox { visual: f, esds_box: c, unknown_boxes: us }),
            Err(e) => Err(e),
        }
    }
}

/// H.265 (HEVC) sample entry whose parameter sets may be in-band (`hev1`).
#[derive(Debug, Clone, PartialEq, Eq, Hash)]
pub struct Hev1Box {
    /// Fields shared by visual sample entries
    pub visual: VisualSampleEntryFields,
    /// Decoder configuration box
    pub hvcc_box: HvccBox,
    /// Other child boxes, kept as they are
    pub unknown_boxes: Vec<UnknownBox>,
}

impl View for Hev1Box {
    type V = EntryV<VisualFieldsV, HvccBoxV>;

    open spec fn view(&self) -> EntryV<VisualFieldsV, HvccBoxV> {
        EntryV {
            fields: self.visual@,
            config: self.hvcc_box@,
            unknown_boxes: unknowns_view(self.unknown_boxes@),
        }
    }
}

impl Hev1Box {
    /// Box type `hev1`
    pub const TYPE: u32 = 0x68657631;

    /// The bytes of the box. Fails when it cannot be encoded.
    pub fn encode_to_vec(&self) -> (r: Result<Vec<u8>, Error>)
        ensures
            r matches Err(e) ==> e.kind == ErrorKind::InvalidInput,
            r is Ok <==> box_encodable::<Hev1Box>(self@),
            r matches Ok(v) ==> v@ == box_of::<Hev1Box>(self@),
    {
        encode_box_to_vec(self)
    }

    /// Decodes the box at the start of `buf`; returns it and its size.
    pub fn decode(buf: &[u8]) -> (r: Result<(Hev1Box, usize), Error>)
        ensures
            r matches Err(e) ==> e.kind == ErrorKind::InvalidData,
            r is Ok <==> parse_box::<Hev1Box>(buf@) is Some,
            r matches Ok((v, n)) ==> parse_box::<Hev1Box>(buf@) == Some((v@, n as int)),
    {
        decode_box(buf)
    }
}

impl BoxCodec for Hev1Box {
    open spec fn decode_error_kind(k: ErrorKind) -> bool {
        k == ErrorKind::InvalidData
    }

    open spec fn spec_box_type() -> u32 {
        0x68657631
    }

    open spec fn encodable(v: EntryV<VisualFieldsV, HvccBoxV>) -> bool {
        entry_encodable::<VisualSampleEntryFields, HvccBox>(v)
    }

    open spec fn valid(v: EntryV<VisualFieldsV, HvccBoxV>) -> bool {
        entry_valid::<VisualSampleEntryFields, HvccBox>(v)
    }

    open spec fn payload_bytes(v: EntryV<VisualFieldsV, HvccBoxV>) -> Seq<u8> {
        entry_bytes::<VisualSampleEntryFields, HvccBox>(v)
    }

    open spec fn parse_payload(p: Seq<u8>) -> Option<EntryV<VisualFieldsV, HvccBoxV>> {
        parse_entry::<VisualSampleEntryFields, HvccBox>(p)
    }

    proof fn lemma_payload_roundtrip(v: EntryV<VisualFieldsV, HvccBoxV>) {
        lemma_entry_roundtrip::<VisualSampleEntryFields, HvccBox>(v);
    }

    fn box_type_code() -> (r: u32) {
        Self::TYPE
    }

    fn encode_payload(&self, out: &mut Vec<u8>) -> (r: Result<(), Error>) {
        encode_entry(&self.visual, &self.hvcc_box, &self.unknown_boxes, out)
    }

    fn decode_payload(p: &[u8]) -> (r: Result<Self, Error>) {
        match decode_entry::<VisualSampleEntryFields, HvccBox>(p) {
            Ok((f, c, us)) => Ok(Hev1Box { visual: f, hvcc_box: c, unknown_boxes: us }),
            Err(e) => Err(e),
        }
    }
}

/// H.265 (HEVC) sample entry whose parameter sets are all in `hvcC` (`hvc1`).
#[derive(Debug, Clone, PartialEq, Eq, Hash)]
pub struct Hvc1Box {
    /// Fields shared by visual sample entries
    pub visual: VisualSampleEntryFields,
    /// Decoder configuration box
    pub hvcc_box: HvccBox,
    /// Other child boxes, kept as they are
    pub unknown_boxes: Vec<UnknownBox>,
}

impl View for Hvc1Box {
    type V = EntryV<VisualFieldsV, HvccBoxV>;

    open spec fn view(&self) -> EntryV<VisualFieldsV, HvccBoxV> {
        EntryV {
            fields: self.visual@,
            config: self.hvcc_box@,
            unknown_boxes: unknowns_view(self.unknown_boxes@),
        }
    }
}

impl Hvc1Box {
    /// Box type `hvc1`
    pub const TYPE: u32 = 0x68766331;

    /// The bytes of the box. Fails when it cannot be encoded.
    pub fn encode_to_vec(&self) -> (r: Result<Vec<u8>, Error>)
        ensures
            r matches Err(e) ==> e.kind == ErrorKind::InvalidInput,
            r is Ok <==> box_encodable::<Hvc1Box>(self@),
            r matches Ok(v) ==> v@ == box_of::<Hvc1Box>(self@),
    {
        encode_box_to_vec(self)
    }

    /// Decodes the box at the start of `buf`; returns it and its size.
    pub fn decode(buf: &[u8]) -> (r: Result<(Hvc1Box, usize), Error>)
        ensures
            r matches Err(e) ==> e.kind == ErrorKind::InvalidData,
            r is Ok <==> parse_box::<Hvc1Box>(buf@) is Some,
            r matches Ok((v, n)) ==> parse_box::<Hvc1Box>(buf@) == Some((v@, n as int)),
    {
        decode_box(buf)
    }
}

impl BoxCodec for Hvc1Box {
    open spec fn decode_error_kind(k: ErrorKind) -> bool {
        k == ErrorKind::InvalidData
    }

    open spec fn spec_box_type() -> u32 {
        0x68766331
    }

    open spec fn encodable(v: EntryV<VisualFieldsV, HvccBoxV>) -> bool {
        entry_encodable::<VisualSampleEntryFields, HvccBox>(v)
    }

    open spec fn valid(v: EntryV<VisualFieldsV, HvccBoxV>) -> bool {
        entry_valid::<VisualSampleEntryFields, HvccBox>(v)
    }

    open spec fn payload_bytes(v: EntryV<VisualFieldsV, HvccBoxV>) -> Seq<u8> {
        entry_bytes::<VisualSampleEntryFields, HvccBox>(v)
    }

    open spec fn parse_payload(p: Seq<u8>) -> Option<EntryV<VisualFieldsV, HvccBoxV>> {
        parse_entry::<VisualSampleEntryFields, HvccBox>(p)
    }

    proof fn lemma_payload_roundtrip(v: EntryV<VisualFieldsV, HvccBoxV>) {
        lemma_entry_roundtrip::<VisualSampleEntryFields, HvccBox>(v);
    }

    fn box_type_code() -> (r: u32) {
        Self::TYPE
    }

    fn encode_payload(&self, out: &mut Vec<u8>) -> (r: Result<(), Error>) {
        encode_entry(&self.visual, &self.hvcc_box, &self.unknown_boxes, out)
    }

    fn decode_payload(p: &[u8]) -> (r: Result<Self, Error>) {
        match decode_entry::<VisualSampleEntryFields, HvccBox>(p) {
            Ok((f, c, us)) => Ok(Hvc1Box { visual: f, hvcc_box: c, unknown_boxes: us }),
            Err(e) => Err(e),
        }
    }
}

/// MPEG-4 audio (mostly AAC) sample entry (`mp4a`, ISO/IEC 14496-14).
#[derive(Debug, Clone, PartialEq, Eq, Hash)]
pub struct Mp4aBox {
    /// Fields shared by audio sample entries
    pub audio: AudioSampleEntryFields,
    /// Decoder configuration box
    pub esds_box: EsdsBox,
    /// Other child boxes, kept as they are
    pub unknown_boxes: Vec<UnknownBox>,
}

impl View for Mp4aBox {
    type V = EntryV<AudioSampleEntryFields, EsdsBoxV>;

    open spec fn view(&self) -> EntryV<AudioSampleEntryFields, EsdsBoxV> {
        EntryV {
            fields: self.audio@,
            config: self.esds_box@,
            unknown_boxes: unknowns_view(self.unknown_boxes@),
        }
    }
}

impl Mp4aBox {
    /// Box type `mp4a`
    pub const TYPE: u32 = 0x6D703461;

    /// The bytes of the box. Fails when it cannot be encoded.
    pub fn encode_to_vec(&self) -> (r: Result<Vec<u8>, Error>)
        ensures
            r matches Err(e) ==> e.kind == ErrorKind::InvalidInput,
            r is Ok <==> box_encodable::<Mp4aBox>(self@),
            r matches Ok(v) ==> v@ == box_of::<Mp4aBox>(self@),
    {
        encode_box_to_vec(self)
    }

    /// Decodes the box at the start of `buf`; returns it and its size.
    pub fn decode(buf: &[u8]) -> (r: Result<(Mp4aBox, usize), Error>)
        ensures
            r matches Err(e) ==> e.kind == ErrorKind::InvalidData,
            r is Ok <==> parse_box::<Mp4aBox>(buf@) is Some,
            r matches Ok((v, n)) ==> parse_box::<Mp4aBox>(buf@) == Some((v@, n as int)),
    {
        decode_box(buf)
    }
}

impl BoxCodec for Mp4aBox {
    open spec fn decode_error_kind(k: ErrorKind) -> bool {
        k == ErrorKind::InvalidData
    }

    open spec fn spec_box_type() -> u32 {
        0x6D703461
    }

    open spec fn encodable(v: EntryV<AudioSampleEntryFields, EsdsBoxV>) -> bool {
        entry_encodable::<AudioSampleEntryFields, EsdsBox>(v)
    }

    open spec fn valid(v: EntryV<AudioSampleEntryFields, EsdsBoxV>) -> bool {
        entry_valid::<AudioSampleEntryFields, EsdsBox>(v)
    }

    open spec fn payload_bytes(v: EntryV<AudioSampleEntryFields, EsdsBoxV>) -> Seq<u8> {
        entry_bytes::<AudioSampleEntryFields, EsdsBox>(v)
    }

    open spec fn parse_payload(p: Seq<u8>) -> Option<EntryV<AudioSampleEntryFields, EsdsBoxV>> {
        parse_entry::<AudioSampleEntryFields, EsdsBox>(p)
    }

    proof fn lemma_payload_roundtrip(v: EntryV<AudioSampleEntryFields, EsdsBoxV>) {
        lemma_entry_roundtrip::<AudioSampleEntryFields, EsdsBox>(v);
    }

    fn box_type_code() -> (r: u32) {
        Self::TYPE
    }

    fn encode_payload(&self, out: &mut Vec<u8>) -> (r: Result<(), Error>) {
        encode_entry(&self.audio, &self.esds_box, &self.unknown_boxes, out)
    }

    fn decode_payload(p: &[u8]) -> (r: Result<Self, Error>) {
        match decode_entry::<AudioSampleEntryFields, EsdsBox>(p) {
            Ok((f, c, us)) => Ok(Mp4aBox { audio: f, esds_box: c, unknown_boxes: us }),
            Err(e) => Err(e),
        }
    }
}

/// FLAC sample entry (`fLaC`).
#[derive(Debug, Clone, PartialEq, Eq, Hash)]
pub struct FlacBox {
    /// Fields shared by audio sample entries
    pub audio: AudioSampleEntryFields,
    /// Decoder configuration box
    pub dfla_box: DflaBox,
    /// Other child boxes, kept as they are
    pub unknown_boxes: Vec<UnknownBox>,
}

impl View for FlacBox {
    type V = EntryV<AudioSampleEntryFields, DflaBoxV>;

    open spec fn view(&self) -> EntryV<AudioSampleEntryFields, DflaBoxV> {
        EntryV {
            fields: self.audio@,
            config: self.dfla_box@,
            unknown_boxes: unknowns_view(self.unknown_boxes@),
        }
    }
}

impl FlacBox {
    /// Box type `fLaC`
    pub const TYPE: u32 = 0x664C6143;

    /// The bytes of the box. Fails when it cannot be encoded.
    pub fn encode_to_vec(&self) -> (r: Result<Vec<u8>, Error>)
        ensures
            r matches Err(e) ==> e.kind == ErrorKind::InvalidInput,
            r is Ok <==> box_encodable::<FlacBox>(self@),
            r matches Ok(v) ==> v@ == box_of::<FlacBox>(self@),
    {
        encode_box_to_vec(self)
    }

    /// Decodes the box at the start of `buf`; returns it and its size.
    pub fn decode(buf: &[u8]) -> (r: Result<(FlacBox, usize), Error>)
        ensures
            r matches Err(e) ==> e.kind == ErrorKind::InvalidData,
            r is Ok <==> parse_box::<FlacBox>(buf@) is Some,
            r matches Ok((v, n)) ==> parse_box::<FlacBox>(buf@) == Some((v@, n as int)),
    {
        decode_box(buf)
    }
}

impl BoxCodec for FlacBox {
    open spec fn decode_error_kind(k: ErrorKind) -> bool {
        k == ErrorKind::InvalidData
    }

    open spec fn spec_box_type() -> u32 {
        0x664C6143
    }

    open spec fn encodable(v: EntryV<AudioSampleEntryFields, DflaBoxV>) -> bool {
        entry_encodable::<AudioSampleEntryFields, DflaBox>(v)
    }

    open spec fn valid(v: EntryV<AudioSampleEntryFields, DflaBoxV>) -> bool {
        entry_valid::<AudioSampleEntryFields, DflaBox>(v)
    }

    open spec fn payload_bytes(v: EntryV<AudioSampleEntryFields, DflaBoxV>) -> Seq<u8> {
        entry_bytes::<AudioSampleEntryFields, DflaBox>(v)
    }

    open spec fn parse_payload(p: Seq<u8>) -> Option<EntryV<AudioSampleEntryFields, DflaBoxV>> {
        parse_entry::<AudioSampleEntryFields, DflaBox>(p)
    }

    proof fn lemma_payload_roundtrip(v: EntryV<AudioSampleEntryFields, DflaBoxV>) {
        lemma_entry_roundtrip::<AudioSampleEntryFields, DflaBox>(v);
    }

    fn box_type_code() -> (r: u32) {
        Self::TYPE
    }

    fn encode_payload(&self, out: &mut Vec<u8>) -> (r: Result<(), Error>) {
        encode_entry(&self.audio, &self.dfla_box, &self.unknown_boxes, out)
    }

    fn decode_payload(p: &[u8]) -> (r: Result<Self, Error>) {
        match decode_entry::<AudioSampleEntryFields, DflaBox>(p) {
            Ok((f, c, us)) => Ok(FlacBox { audio: f, dfla_box: c, unknown_boxes: us }),
            Err(e) => Err(e),
        }
    }
}

} // verus!
