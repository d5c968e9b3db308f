//! Subtitle sample entries: `stpp` (XML subtitles), `wvtt` (WebVTT) with its
//! `vttC` configuration.
use vstd::prelude::*;
use vstd::utf8::{decode_utf8, encode_utf8, valid_utf8};

use crate::bytes::{be16, get16, lemma_get16, push_slice, push_u16, push_u8, read_u16};
use crate::codec::{
    box_encodable, box_of, decode_box, decode_unknowns, encode_box_to_vec, encode_unknowns,
    lemma_parse_unknowns_roundtrip, parse_box, parse_unknowns, unknowns_bytes, unknowns_valid,
    unknowns_view, BoxCodec, UnknownBox, UnknownBoxV,
};
use crate::entry::{
    decode_entry, encode_entry, entry_bytes, entry_encodable, entry_valid, lemma_entry_roundtrip,
    parse_entry, push_zeros, zeros, EntryFields, EntryV,
};
use crate::error::{Error, ErrorKind};
use crate::text::{string_bytes, string_from_bytes};

verus! {

// ----- null-terminated UTF-8 strings -----

/// A string as a null-terminated field: its UTF-8 bytes, then 0.
pub open spec fn cstr_bytes(c: Seq<char>) -> Seq<u8> {
    encode_utf8(c) + seq![0u8]
}

/// The string can be written as a null-terminated field: it holds no NUL.
pub open spec fn cstr_ok(c: Seq<char>) -> bool {
    forall|i: int| 0 <= i < encode_utf8(c).len() ==> #[trigger] encode_utf8(c)[i] != 0
}

/// Index of the first 0 byte of `s`.
pub open spec fn find_zero(s: Seq<u8>) -> Option<nat>
    decreases s.len(),
{
    if s.len() == 0 {
        None
    } else if s[0] == 0 {
        Some(0)
    } else {
        match find_zero(s.drop_first()) {
            Some(i) => Some(i + 1),
            None => None,
        }
    }
}

/// A null-terminated UTF-8 string at the start of `s` and the number of bytes
/// it takes, terminator included.
pub open spec fn parse_cstr(s: Seq<u8>) -> Option<(Seq<char>, int)> {
    match find_zero(s) {
        Some(j) => if valid_utf8(s.take(j as int)) {
            Some((decode_utf8(s.take(j as int)), j as int + 1))
        } else {
            None
        },
        None => None,
    }
}

proof fn lemma_find_zero(x: Seq<u8>, rest: Seq<u8>)
    requires
        forall|i: int| 0 <= i < x.len() ==> #[trigger] x[i] != 0,
    ensures
        find_zero(x + seq![0u8] + rest) == Some(x.len()),
    decreases x.len(),
{
    let s = x + seq![0u8] + rest;
    if x.len() == 0 {
        assert(s[0] == 0);
    } else {
        lemma_find_zero(x.drop_first(), rest);
        assert(s.drop_first() =~= x.drop_first() + seq![0u8] + rest);
        assert(s[0] == x[0]);
    }
}

proof fn lemma_find_zero_bound(s: Seq<u8>)
    ensures
        find_zero(s) matches Some(j) ==> j < s.len() && s[j as int] == 0 && forall|i: int|
            0 <= i < j ==> #[trigger] s[i] != 0,
    decreases s.len(),
{
    if s.len() > 0 && s[0] != 0 {
        lemma_find_zero_bound(s.drop_first());
        if let Some(j) = find_zero(s.drop_first()) {
            assert forall|i: int| 0 <= i < j + 1 implies #[trigger] s[i] != 0 by {
                if i > 0 {
                    assert(s[i] == s.drop_first()[i - 1]);
                }
            }
        }
    }
}

proof fn lemma_find_zero_none(s: Seq<u8>)
    requires
        forall|i: int| 0 <= i < s.len() ==> #[trigger] s[i] != 0,
    ensures
        find_zero(s) is None,
    decreases s.len(),
{
    if s.len() > 0 {
        assert(s[0] != 0);
        assert forall|i: int| 0 <= i < s.drop_first().len() implies #[trigger] s.drop_first()[i]
            != 0 by {
            assert(s.drop_first()[i] == s[i + 1]);
        }
        lemma_find_zero_none(s.drop_first());
    }
}

proof fn lemma_find_zero_at(s: Seq<u8>, j: nat)
    requires
        j < s.len(),
        s[j as int] == 0,
        forall|i: int| 0 <= i < j ==> #[trigger] s[i] != 0,
    ensures
        find_zero(s) == Some(j),
    decreases j,
{
    if j > 0 {
        assert(s[0] != 0);
        assert forall|i: int| 0 <= i < j - 1 implies #[trigger] s.drop_first()[i] != 0 by {
            assert(s.drop_first()[i] == s[i + 1]);
        }
        lemma_find_zero_at(s.drop_first(), (j - 1) as nat);
    }
}

pub proof fn lemma_cstr_roundtrip(c: Seq<char>, rest: Seq<u8>)
    requires
        cstr_ok(c),
    ensures
        parse_cstr(cstr_bytes(c) + rest) == Some((c, cstr_bytes(c).len() as int)),
        (cstr_bytes(c) + rest).skip(cstr_bytes(c).len() as int) == rest,
{
    let x = encode_utf8(c);
    let s = cstr_bytes(c) + rest;
    assert(s =~= x + seq![0u8] + rest);
    lemma_find_zero(x, rest);
    assert(s.take(x.len() as int) =~= x);
    vstd::utf8::encode_utf8_valid_utf8(c);
    vstd::utf8::encode_utf8_decode_utf8(c);
    assert(s.skip(cstr_bytes(c).len() as int) =~= rest);
}

/// Appends a string as a null-terminated field. Fails when it holds a NUL.
pub fn encode_cstr(s: &String, out: &mut Vec<u8>) -> (r: Result<(), Error>)
    ensures
        r matches Err(e) ==> e.kind == ErrorKind::InvalidInput,
        r is Ok <==> cstr_ok(s@),
        r is Ok ==> final(out)@ == old(out)@ + cstr_bytes(s@),
{
    let b = string_bytes(s);
    let mut i: usize = 0;
    while i < b.len()
        invariant
            i <= b@.len(),
            b@ == encode_utf8(s@),
            forall|j: int| 0 <= j < i ==> #[trigger] b@[j] != 0,
        decreases b@.len() - i,
    {
        if b[i] == 0 {
            return Err(Error::invalid_input("string holds a NUL character"));
        }
        i = i + 1;
    }
    push_slice(out, b);
    push_u8(out, 0);
    assert(out@ =~= old(out)@ + cstr_bytes(s@));
    Ok(())
}

/// Reads a null-terminated UTF-8 string at `pos`; returns it and the offset after it.
pub fn decode_cstr(p: &[u8], pos: usize) -> (r: Result<(String, usize), Error>)
    requires
        pos <= p@.len(),
    ensures
        r matches Err(e) ==> e.kind == ErrorKind::InvalidData,
        r is Ok <==> parse_cstr(p@.skip(pos as int)) is Some,
        r matches Ok((s, e)) ==> parse_cstr(p@.skip(pos as int)) == Some((s@, e - pos)) && pos
            <= e <= p@.len(),
{
    let ghost t = p@.skip(pos as int);
    let mut j: usize = pos;
    while j < p.len() && p[j] != 0
        invariant
            pos <= j <= p@.len(),
            t == p@.skip(pos as int),
            forall|i: int| 0 <= i < j - pos ==> #[trigger] t[i] != 0,
        decreases p@.len() - j,
    {
        j = j + 1;
    }
    if j >= p.len() {
        proof {
            lemma_find_zero_none(t);
        }
        return Err(Error::invalid_data("string is not null-terminated"));
    }
    proof {
        lemma_find_zero_at(t, (j - pos) as nat);
    }
    let bytes = vstd::slice::slice_subrange(p, pos, j);
    assert(bytes@ =~= t.take(j - pos));
    match string_from_bytes(bytes) {
        Some(s) => Ok((s, j + 1)),
        None => Err(Error::invalid_data("string is not valid UTF-8")),
    }
}

// ----- data reference index after six reserved bytes -----

/// Six reserved bytes, then the data reference index (never 0), as at the
/// start of every sample entry.
impl EntryFields for u16 {
    open spec fn fields_len() -> nat {
        8
    }

    open spec fn fields_valid(v: u16) -> bool {
        v != 0
    }

    open spec fn fields_bytes(v: u16) -> Seq<u8> {
        zeros(6) + be16(v)
    }

    open spec fn parse_fields(p: Seq<u8>) -> Option<u16> {
        if p.len() < 8 || get16(p, 6) == 0 {
            None
        } else {
            Some(get16(p, 6))
        }
    }

    proof fn lemma_fields_roundtrip(v: u16, rest: Seq<u8>) {
        let p = zeros(6) + be16(v) + rest;
        assert(p.subrange(6, 8) =~= be16(v));
        lemma_get16(p, 6, v);
    }

    proof fn lemma_parse_fields_len(p: Seq<u8>) {
    }

    fn fields_length() -> (r: usize) {
        8
    }

    fn encode_fields(&self, out: &mut Vec<u8>) {
        push_zeros(out, 6);
        push_u16(out, *self);
        assert(out@ =~= old(out)@ + zeros(6) + be16(*self));
    }

    fn decode_fields(p: &[u8]) -> (r: Result<Self, Error>) {
        if p.len() < 8 {
            return Err(Error::invalid_data("sample entry fields are truncated"));
        }
        let v = match read_u16(p, 6) {
            Ok(v) => v,
            Err(e) => {
                return Err(e);
            },
        };
        if v == 0 {
            return Err(Error::invalid_data("data_reference_index must not be 0"));
        }
        Ok(v)
    }
}

// ----- vttC -----

/// `vttC`: WebVTT configuration; the payload is the configuration text in
/// UTF-8, with no terminator.
#[derive(Debug, Clone, PartialEq, Eq, Hash)]
pub struct VttCBox {
    /// The configuration text (starts with a `WEBVTT` line)
    pub config: String,
}

/// The value of a [`VttCBox`].
pub struct VttCBoxV {
    pub config: Seq<char>,
}

impl View for VttCBox {
    type V = VttCBoxV;

    open spec fn view(&self) -> VttCBoxV {
        VttCBoxV { config: self.config@ }
    }
}

impl VttCBox {
    /// Box type `vttC`
    pub const TYPE: u32 = 0x76747443;

    /// The bytes of the box. Fails when it cannot be encoded.
    pub fn encode_to_vec(&self) -> (r: Result<Vec<u8>, Error>)
        ensures
            r matches Err(e) ==> e.kind == ErrorKind::InvalidInput,
            r is Ok <==> box_encodable::<VttCBox>(self@),
            r matches Ok(v) ==> v@ == box_of::<VttCBox>(self@),
    {
        encode_box_to_vec(self)
    }

    /// Decodes the box at the start of `buf`; returns it and its size.
    pub fn decode(buf: &[u8]) -> (r: Result<(VttCBox, usize), Error>)
        ensures
            r matches Err(e) ==> e.kind == ErrorKind::InvalidData || e.kind == ErrorKind::InvalidInput,
            r is Ok <==> parse_box::<VttCBox>(buf@) is Some,
            r matches Ok((v, n)) ==> parse_box::<VttCBox>(buf@) == Some((v@, n as int)),
    {
        decode_box(buf)
    }
}

impl BoxCodec for VttCBox {
    /// A configuration that is not UTF-8 is `InvalidInput`.
    open spec fn decode_error_kind(k: ErrorKind) -> bool {
        k == ErrorKind::InvalidInput
    }

    open spec fn spec_box_type() -> u32 {
        0x76747443
    }

    open spec fn encodable(v: VttCBoxV) -> bool {
        true
    }

    open spec fn valid(v: VttCBoxV) -> bool {
        true
    }

    open spec fn payload_bytes(v: VttCBoxV) -> Seq<u8> {
        encode_utf8(v.config)
    }

    /// The whole payload is the text; it must be valid UTF-8.
    open spec fn parse_payload(p: Seq<u8>) -> Option<VttCBoxV> {
        if valid_utf8(p) {
            Some(VttCBoxV { config: decode_utf8(p) })
        } else {
            None
        }
    }

    proof fn lemma_payload_roundtrip(v: VttCBoxV) {
        vstd::utf8::encode_utf8_valid_utf8(v.config);
        vstd::utf8::encode_utf8_decode_utf8(v.config);
    }

    fn box_type_code() -> (r: u32) {
        Self::TYPE
    }

    fn encode_payload(&self, out: &mut Vec<u8>) -> (r: Result<(), Error>) {
        push_slice(out, string_bytes(&self.config));
        Ok(())
    }

    fn decode_payload(p: &[u8]) -> (r: Result<Self, Error>) {
        match string_from_bytes(p) {
            Some(config) => Ok(VttCBox { config }),
            None => Err(Error::invalid_input("vttC.config is not valid UTF-8")),
        }
    }
}

// ----- wvtt -----

/// WebVTT sample entry (`wvtt`, ISO/IEC 14496-30).
#[derive(Debug, Clone, PartialEq, Eq, Hash)]
pub struct WvttBox {
    /// Data reference index (1-based index into `dref`, never 0)
    pub data_reference_index: u16,
    /// WebVTT configuration box
    pub vttc_box: VttCBox,
    /// Other child boxes, kept as they are
    pub unknown_boxes: Vec<UnknownBox>,
}

impl View for WvttBox {
    type V = EntryV<u16, VttCBoxV>;

    open spec fn view(&self) -> EntryV<u16, VttCBoxV> {
        EntryV {
            fields: self.data_reference_index,
            config: self.vttc_box@,
            unknown_boxes: unknowns_view(self.unknown_boxes@),
        }
    }
}

impl WvttBox {
    /// Box type `wvtt`
    pub const TYPE: u32 = 0x77767474;

    /// Default data reference index (1)
    pub const DEFAULT_DATA_REFERENCE_INDEX: u16 = 1;

    /// The bytes of the box. Fails when it cannot be encoded.
    pub fn encode_to_vec(&self) -> (r: Result<Vec<u8>, Error>)
        ensures
            r matches Err(e) ==> e.kind == ErrorKind::InvalidInput,
            r is Ok <==> box_encodable::<WvttBox>(self@),
            r matches Ok(v) ==> v@ == box_of::<WvttBox>(self@),
    {
        encode_box_to_vec(self)
    }

    /// Decodes the box at the start of `buf`; returns it and its size.
    pub fn decode(buf: &[u8]) -> (r: Result<(WvttBox, usize), Error>)
        ensures
            r matches Err(e) ==> e.kind == ErrorKind::InvalidData || e.kind == ErrorKind::InvalidInput,
            r is Ok <==> parse_box::<WvttBox>(buf@) is Some,
            r matches Ok((v, n)) ==> parse_box::<WvttBox>(buf@) == Some((v@, n as int)),
    {
        decode_box(buf)
    }
}

impl BoxCodec for WvttBox {
    /// As for its `vttC` box: a configuration that is not UTF-8 is
    /// `InvalidInput`.
    open spec fn decode_error_kind(k: ErrorKind) -> bool {
        k == ErrorKind::InvalidData || k == ErrorKind::InvalidInput
    }

    open spec fn spec_box_type() -> u32 {
        0x77767474
    }

    open spec fn encodable(v: EntryV<u16, VttCBoxV>) -> bool {
        entry_encodable::<u16, VttCBox>(v)
    }

    open spec fn valid(v: EntryV<u16, VttCBoxV>) -> bool {
        entry_valid::<u16, VttCBox>(v)
    }

    open spec fn payload_bytes(v: EntryV<u16, VttCBoxV>) -> Seq<u8> {
        entry_bytes::<u16, VttCBox>(v)
    }

    open spec fn parse_payload(p: Seq<u8>) -> Option<EntryV<u16, VttCBoxV>> {
        parse_entry::<u16, VttCBox>(p)
    }

    proof fn lemma_payload_roundtrip(v: EntryV<u16, VttCBoxV>) {
        lemma_entry_roundtrip::<u16, VttCBox>(v);
    }

    fn box_type_code() -> (r: u32) {
        Self::TYPE
    }

    fn encode_payload(&self, out: &mut Vec<u8>) -> (r: Result<(), Error>) {
        encode_entry(&self.data_reference_index, &self.vttc_box, &self.unknown_boxes, out)
    }

    fn decode_payload(p: &[u8]) -> (r: Result<Self, Error>) {
        match decode_entry::<u16, VttCBox>(p) {
            Ok((f, c, us)) => Ok(WvttBox { data_reference_index: f, vttc_box: c, unknown_boxes: us }),
            Err(e) => Err(e),
        }
    }
}

// ----- stpp -----

/// XML subtitle sample entry (`stpp`, ISO/IEC 14496-30).
#[derive(Debug, Clone, PartialEq, Eq, Hash)]
pub struct StppBox {
    /// Data reference index (1-based index into `dref`, never 0)
    pub data_reference_index: u16,
    /// Space-separated XML namespaces (may be empty)
    pub namespace: String,
    /// Space-separated schema locations (may be empty)
    pub schema_location: String,
    /// Space-separated auxiliary MIME types (may be empty)
    pub auxiliary_mime_types: String,
    /// Child boxes (`btrt`, `m4ds`, ...), kept as they are
    pub unknown_boxes: Vec<UnknownBox>,
}

/// The value of a [`StppBox`].
pub struct StppBoxV {
    pub data_reference_index: u16,
    pub namespace: Seq<char>,
    pub schema_location: Seq<char>,
    pub auxiliary_mime_types: Seq<char>,
    pub unknown_boxes: Seq<UnknownBoxV>,
}

impl View for StppBox {
    type V = StppBoxV;

    open spec fn view(&self) -> StppBoxV {
        StppBoxV {
            data_reference_index: self.data_reference_index,
            namespace: self.namespace@,
            schema_location: self.schema_location@,
            auxiliary_mime_types: self.auxiliary_mime_types@,
            unknown_boxes: unknowns_view(self.unknown_boxes@),
        }
    }
}

/// `stpp` payload: reserved bytes, data reference index, the three strings
/// null-terminated, then the child boxes.
pub open spec fn stpp_bytes(v: StppBoxV) -> Seq<u8> {
    zeros(6) + be16(v.data_reference_index) + cstr_bytes(v.namespace) + cstr_bytes(
        v.schema_location,
    ) + cstr_bytes(v.auxiliary_mime_types) + unknowns_bytes(v.unknown_boxes)
}

/// The three strings of an `stpp` payload from offset 8, and the offset after them.
pub open spec fn parse_stpp_strings(p: Seq<u8>) -> Option<(Seq<char>, Seq<char>, Seq<char>, int)> {
    match parse_cstr(p.skip(8)) {
        None => None,
        Some((ns, k1)) => match parse_cstr(p.skip(8 + k1)) {
            None => None,
            Some((sl, k2)) => match parse_cstr(p.skip(8 + k1 + k2)) {
                None => None,
                Some((am, k3)) => Some((ns, sl, am, 8 + k1 + k2 + k3)),
            },
        },
    }
}

/// `stpp` payload decoding: data reference index not 0, three null-terminated
/// UTF-8 strings, then boxes up to the end.
pub open spec fn parse_stpp(p: Seq<u8>) -> Option<StppBoxV> {
    if p.len() < 8 || get16(p, 6) == 0 {
        None
    } else {
        match parse_stpp_strings(p) {
            None => None,
            Some((ns, sl, am, o)) => match parse_unknowns(p.skip(o)) {
                None => None,
                Some(us) => Some(
                    StppBoxV {
                        data_reference_index: get16(p, 6),
                        namespace: ns,
                        schema_location: sl,
                        auxiliary_mime_types: am,
                        unknown_boxes: us,
                    },
                ),
            },
        }
    }
}

proof fn lemma_stpp_strings(v: StppBoxV)
    requires
        cstr_ok(v.namespace),
        cstr_ok(v.schema_location),
        cstr_ok(v.auxiliary_mime_types),
    ensures
        parse_stpp_strings(stpp_bytes(v)) == Some(
            (
                v.namespace,
                v.schema_location,
                v.auxiliary_mime_types,
                8 + cstr_bytes(v.namespace).len() as int + cstr_bytes(v.schema_location).len() as int
                    + cstr_bytes(v.auxiliary_mime_types).len() as int,
            ),
        ),
{
    let p = stpp_bytes(v);
    let a = cstr_bytes(v.namespace);
    let b = cstr_bytes(v.schema_location);
    let c = cstr_bytes(v.auxiliary_mime_types);
    let u = unknowns_bytes(v.unknown_boxes);
    assert(p.skip(8) =~= a + (b + c + u));
    lemma_cstr_roundtrip(v.namespace, b + c + u);
    assert(p.skip(8 + a.len() as int) =~= b + (c + u));
    lemma_cstr_roundtrip(v.schema_location, c + u);
    assert(p.skip(8 + a.len() as int + b.len() as int) =~= c + u);
    lemma_cstr_roundtrip(v.auxiliary_mime_types, u);
}

impl StppBox {
    /// Box type `stpp`
    pub const TYPE: u32 = 0x73747070;

    /// Default data reference index (1)
    pub const DEFAULT_DATA_REFERENCE_INDEX: u16 = 1;

    /// The bytes of the box. Fails when it cannot be encoded.
    pub fn encode_to_vec(&self) -> (r: Result<Vec<u8>, Error>)
        ensures
            r matches Err(e) ==> e.kind == ErrorKind::InvalidInput,
            r is Ok <==> box_encodable::<StppBox>(self@),
            r matches Ok(v) ==> v@ == box_of::<StppBox>(self@),
    {
        encode_box_to_vec(self)
    }

    /// Decodes the box at the start of `buf`; returns it and its size.
    pub fn decode(buf: &[u8]) -> (r: Result<(StppBox, usize), Error>)
        ensures
            r matches Err(e) ==> e.kind == ErrorKind::InvalidData || e.kind == ErrorKind::InvalidInput,
            r is Ok <==> parse_box::<StppBox>(buf@) is Some,
            r matches Ok((v, n)) ==> parse_box::<StppBox>(buf@) == Some((v@, n as int)),
    {
        decode_box(buf)
    }
}

impl BoxCodec for StppBox {
    /// A string that is not UTF-8 is `InvalidInput`; a truncated payload is
    /// `InvalidData`.
    open spec fn decode_error_kind(k: ErrorKind) -> bool {
        k == ErrorKind::InvalidData || k == ErrorKind::InvalidInput
    }

    open spec fn spec_box_type() -> u32 {
        0x73747070
    }

    /// No string holds a NUL.
    open spec fn encodable(v: StppBoxV) -> bool {
        &&& cstr_ok(v.namespace)
        &&& cstr_ok(v.schema_location)
        &&& cstr_ok(v.auxiliary_mime_types)
    }

    /// It can be encoded, its data reference index is not 0, and the size
    /// field of every child box gives its length.
    open spec fn valid(v: StppBoxV) -> bool {
        Self::encodable(v) && v.data_reference_index != 0 && unknowns_valid(v.unknown_boxes)
    }

    open spec fn payload_bytes(v: StppBoxV) -> Seq<u8> {
        stpp_bytes(v)
    }

    open spec fn parse_payload(p: Seq<u8>) -> Option<StppBoxV> {
        parse_stpp(p)
    }

    proof fn lemma_payload_roundtrip(v: StppBoxV) {
        let p = stpp_bytes(v);
        lemma_stpp_strings(v);
        let o = 8 + cstr_bytes(v.namespace).len() as int + cstr_bytes(v.schema_location).len() as int
            + cstr_bytes(v.auxiliary_mime_types).len() as int;
        assert(p.skip(o) =~= unknowns_bytes(v.unknown_boxes));
        lemma_parse_unknowns_roundtrip(v.unknown_boxes);
        assert(p.subrange(6, 8) =~= be16(v.data_reference_index));
        lemma_get16(p, 6, v.data_reference_index);
    }

    fn box_type_code() -> (r: u32) {
        Self::TYPE
    }

    fn encode_payload(&self, out: &mut Vec<u8>) -> (r: Result<(), Error>) {
        let mut p: Vec<u8> = Vec::new();
        push_zeros(&mut p, 6);
        push_u16(&mut p, self.data_reference_index);
        match encode_cstr(&self.namespace, &mut p) {
            Ok(()) => {},
            Err(e) => {
                return Err(e);
            },
        }
        match encode_cstr(&self.schema_location, &mut p) {
            Ok(()) => {},
            Err(e) => {
                return Err(e);
            },
        }
        match encode_cstr(&self.auxiliary_mime_types, &mut p) {
            Ok(()) => {},
            Err(e) => {
                return Err(e);
            },
        }
        match encode_unknowns(&self.unknown_boxes, &mut p) {
            Ok(()) => {},
            Err(e) => {
                return Err(e);
            },
        }
        assert(p@ =~= stpp_bytes(self@));
        push_slice(out, p.as_slice());
        Ok(())
    }

    fn decode_payload(p: &[u8]) -> (r: Result<Self, Error>) {
        if p.len() < 8 {
            return Err(Error::invalid_data("stpp box is truncated"));
        }
        let dri = match read_u16(p, 6) {
            Ok(v) => v,
            Err(e) => {
                return Err(e);
            },
        };
        if dri == 0 {
            return Err(Error::invalid_data("data_reference_index must not be 0"));
        }
        let (ns, o1) = match decode_cstr(p, 8) {
            Ok(x) => x,
            Err(_) => {
                return Err(Error::invalid_input("stpp.namespace is not a valid string"));
            },
        };
        assert(p@.skip(o1 as int) =~= p@.skip(8 + (o1 - 8)));
        let (sl, o2) = match decode_cstr(p, o1) {
            Ok(x) => x,
            Err(_) => {
                return Err(Error::invalid_input("stpp.schema_location is not a valid string"));
            },
        };
        assert(p@.skip(o2 as int) =~= p@.skip(8 + (o1 - 8) + (o2 - o1)));
        let (am, o3) = match decode_cstr(p, o2) {
            Ok(x) => x,
            Err(_) => {
                return Err(Error::invalid_input("stpp.auxiliary_mime_types is not a valid string"));
            },
        };
        let tail = vstd::slice::slice_subrange(p, o3, p.len());
        assert(tail@ =~= p@.skip(o3 as int));
        match decode_unknowns(tail) {
            Ok(us) => Ok(
                StppBox {
                    data_reference_index: dri,
                    namespace: ns,
                    schema_location: sl,
                    auxiliary_mime_types: am,
                    unknown_boxes: us,
                },
            ),
            Err(e) => Err(e),
        }
    }
}

} // verus!
