//! 3GPP timed text (3GPP TS 26.245): the `tx3g` sample entry, its records and
//! the `ftab` font table.
use vstd::prelude::*;

use crate::bytes::{
    be16, be32, get16, get32, lemma_get16, lemma_get32, push_slice, push_u16, push_u32, push_u8,
    read_u16, read_u32,
};
use crate::codec::{
    box_encodable, box_of, decode_box, encode_box_to_vec, parse_box, unknowns_view, BoxCodec,
    UnknownBox,
};
use crate::entry::{
    decode_entry, encode_entry, entry_bytes, entry_encodable, entry_valid, lemma_entry_roundtrip,
    parse_entry, push_zeros, zeros, EntryFields, EntryV,
};
use crate::error::{Error, ErrorKind};

verus! {

// ----- BoxRecord -----

/// Text box rectangle (8 bytes).
#[derive(Debug, Default, Clone, Copy, PartialEq, Eq, Hash, Structural)]
pub struct BoxRecord {
    /// Top edge
    pub top: i16,
    /// Left edge
    pub left: i16,
    /// Bottom edge
    pub bottom: i16,
    /// Right edge
    pub right: i16,
}

impl View for BoxRecord {
    type V = BoxRecord;

    open spec fn view(&self) -> BoxRecord {
        *self
    }
}

/// The four edges, big-endian.
pub open spec fn box_record_bytes(b: BoxRecord) -> Seq<u8> {
    be16(b.top as u16) + be16(b.left as u16) + be16(b.bottom as u16) + be16(b.right as u16)
}

/// The record at `s[o..o + 8]`.
pub open spec fn box_record_at(s: Seq<u8>, o: int) -> BoxRecord {
    BoxRecord {
        top: get16(s, o) as i16,
        left: get16(s, o + 2) as i16,
        bottom: get16(s, o + 4) as i16,
        right: get16(s, o + 6) as i16,
    }
}

proof fn lemma_i16_u16(v: i16)
    ensures
        (v as u16) as i16 == v,
{
    assert((v as u16) as i16 == v) by (bit_vector);
}

proof fn lemma_box_record_at(b: BoxRecord, pre: Seq<u8>, rest: Seq<u8>)
    ensures
        box_record_at(pre + box_record_bytes(b) + rest, pre.len() as int) == b,
{
    let s = pre + box_record_bytes(b) + rest;
    let o = pre.len() as int;
    assert(s.subrange(o, o + 2) =~= be16(b.top as u16));
    assert(s.subrange(o + 2, o + 4) =~= be16(b.left as u16));
    assert(s.subrange(o + 4, o + 6) =~= be16(b.bottom as u16));
    assert(s.subrange(o + 6, o + 8) =~= be16(b.right as u16));
    lemma_get16(s, o, b.top as u16);
    lemma_get16(s, o + 2, b.left as u16);
    lemma_get16(s, o + 4, b.bottom as u16);
    lemma_get16(s, o + 6, b.right as u16);
    lemma_i16_u16(b.top);
    lemma_i16_u16(b.left);
    lemma_i16_u16(b.bottom);
    lemma_i16_u16(b.right);
}

fn push_box_record(b: &BoxRecord, out: &mut Vec<u8>)
    ensures
        final(out)@ == old(out)@ + box_record_bytes(*b),
{
    push_u16(out, b.top as u16);
    push_u16(out, b.left as u16);
    push_u16(out, b.bottom as u16);
    push_u16(out, b.right as u16);
    assert(out@ =~= old(out)@ + box_record_bytes(*b));
}

fn read_box_record(p: &[u8], o: usize) -> (r: BoxRecord)
    requires
        o + 8 <= p@.len(),
    ensures
        r == box_record_at(p@, o as int),
{
    let n = p.len();
    assert(o + 8 <= n);
    let top = read_u16(p, o);
    let left = read_u16(p, o + 2);
    let bottom = read_u16(p, o + 4);
    let right = read_u16(p, o + 6);
    match (top, left, bottom, right) {
        (Ok(t), Ok(l), Ok(b), Ok(r)) => BoxRecord {
            top: #[verifier::truncate] (t as i16),
            left: #[verifier::truncate] (l as i16),
            bottom: #[verifier::truncate] (b as i16),
            right: #[verifier::truncate] (r as i16),
        },
        _ => BoxRecord { top: 0, left: 0, bottom: 0, right: 0 },
    }
}

impl BoxRecord {
    /// The 8 bytes of the record.
    pub fn encode_to_vec(&self) -> (r: Vec<u8>)
        ensures
            r@ == box_record_bytes(*self),
    {
        let mut out: Vec<u8> = Vec::new();
        push_box_record(self, &mut out);
        assert(out@ =~= box_record_bytes(*self));
        out
    }

    /// Reads a record from the start of `buf`; returns it and its size (8).
    pub fn decode(buf: &[u8]) -> (r: Result<(BoxRecord, usize), Error>)
        ensures
            r matches Err(e) ==> e.kind == ErrorKind::InsufficientBuffer,
            r is Ok <==> buf@.len() >= 8,
            r matches Ok((b, n)) ==> b == box_record_at(buf@, 0) && n == 8,
    {
        if buf.len() < 8 {
            return Err(Error::insufficient_buffer("BoxRecord needs 8 bytes"));
        }
        Ok((read_box_record(buf, 0), 8))
    }
}

// ----- StyleRecord -----

/// Default text style (12 bytes).
#[derive(Debug, Default, Clone, Copy, PartialEq, Eq, Hash)]
pub struct StyleRecord {
    /// First character the style applies to
    pub start_char: u16,
    /// End character of the style
    pub end_char: u16,
    /// Font identifier (an entry of the `ftab` box)
    pub font_id: u16,
    /// Face style flags (bold, italic, underline)
    pub face_style_flags: u8,
    /// Font size in pixels
    pub font_size: u8,
    /// Text colour (RGBA)
    pub text_color_rgba: [u8; 4],
}

/// The value of a [`StyleRecord`].
pub struct StyleRecordV {
    pub start_char: u16,
    pub end_char: u16,
    pub font_id: u16,
    pub face_style_flags: u8,
    pub font_size: u8,
    pub text_color_rgba: Seq<u8>,
}

impl View for StyleRecord {
    type V = StyleRecordV;

    open spec fn view(&self) -> StyleRecordV {
        StyleRecordV {
            start_char: self.start_char,
            end_char: self.end_char,
            font_id: self.font_id,
            face_style_flags: self.face_style_flags,
            font_size: self.font_size,
            text_color_rgba: self.text_color_rgba@,
        }
    }
}

pub open spec fn style_record_bytes(v: StyleRecordV) -> Seq<u8> {
    be16(v.start_char) + be16(v.end_char) + be16(v.font_id) + seq![
        v.face_style_flags,
        v.font_size,
    ] + v.text_color_rgba
}

/// The record at `s[o..o + 12]`.
pub open spec fn style_record_at(s: Seq<u8>, o: int) -> StyleRecordV {
    StyleRecordV {
        start_char: get16(s, o),
        end_char: get16(s, o + 2),
        font_id: get16(s, o + 4),
        face_style_flags: s[o + 6],
        font_size: s[o + 7],
        text_color_rgba: s.subrange(o + 8, o + 12),
    }
}

proof fn lemma_style_record_at(v: StyleRecordV, pre: Seq<u8>, rest: Seq<u8>)
    requires
        v.text_color_rgba.len() == 4,
    ensures
        style_record_at(pre + style_record_bytes(v) + rest, pre.len() as int) == v,
        style_record_bytes(v).len() == 12,
{
    let s = pre + style_record_bytes(v) + rest;
    let o = pre.len() as int;
    assert(s.subrange(o, o + 2) =~= be16(v.start_char));
    assert(s.subrange(o + 2, o + 4) =~= be16(v.end_char));
    assert(s.subrange(o + 4, o + 6) =~= be16(v.font_id));
    assert(s.subrange(o + 8, o + 12) =~= v.text_color_rgba);
    lemma_get16(s, o, v.start_char);
    lemma_get16(s, o + 2, v.end_char);
    lemma_get16(s, o + 4, v.font_id);
}

fn push_style_record(v: &StyleRecord, out: &mut Vec<u8>)
    ensures
        final(out)@ == old(out)@ + style_record_bytes(v@),
{
    push_u16(out, v.start_char);
    push_u16(out, v.end_char);
    push_u16(out, v.font_id);
    push_u8(out, v.face_style_flags);
    push_u8(out, v.font_size);
    push_slice(out, v.text_color_rgba.as_slice());
    assert(out@ =~= old(out)@ + style_record_bytes(v@));
}

fn read_rgba(p: &[u8], o: usize) -> (r: [u8; 4])
    requires
        o + 4 <= p@.len(),
    ensures
        r@ == p@.subrange(o as int, o + 4),
{
    let n = p.len();
    assert(o + 4 <= n);
    let r = [p[o], p[o + 1], p[o + 2], p[o + 3]];
    assert(r@ =~= p@.subrange(o as int, o + 4));
    r
}

fn read_style_record(p: &[u8], o: usize) -> (r: StyleRecord)
    requires
        o + 12 <= p@.len(),
    ensures
        r@ == style_record_at(p@, o as int),
{
    let n = p.len();
    assert(o + 12 <= n);
    let a = read_u16(p, o);
    let b = read_u16(p, o + 2);
    let c = read_u16(p, o + 4);
    let rgba = read_rgba(p, o + 8);
    match (a, b, c) {
        (Ok(a), Ok(b), Ok(c)) => StyleRecord {
            start_char: a,
            end_char: b,
            font_id: c,
            face_style_flags: p[o + 6],
            font_size: p[o + 7],
            text_color_rgba: rgba,
        },
        _ => StyleRecord {
            start_char: 0,
            end_char: 0,
            font_id: 0,
            face_style_flags: 0,
            font_size: 0,
            text_color_rgba: rgba,
        },
    }
}

impl StyleRecord {
    /// The 12 bytes of the record.
    pub fn encode_to_vec(&self) -> (r: Vec<u8>)
        ensures
            r@ == style_record_bytes(self@),
    {
        let mut out: Vec<u8> = Vec::new();
        push_style_record(self, &mut out);
        assert(out@ =~= style_record_bytes(self@));
        out
    }

    /// Reads a record from the start of `buf`; returns it and its size (12).
    pub fn decode(buf: &[u8]) -> (r: Result<(StyleRecord, usize), Error>)
        ensures
            r matches Err(e) ==> e.kind == ErrorKind::InsufficientBuffer,
            r is Ok <==> buf@.len() >= 12,
            r matches Ok((s, n)) ==> s@ == style_record_at(buf@, 0) && n == 12,
    {
        if buf.len() < 12 {
            return Err(Error::insufficient_buffer("StyleRecord needs 12 bytes"));
        }
        Ok((read_style_record(buf, 0), 12))
    }
}

// ----- FontRecord and ftab -----

/// A font table entry: identifier and name (Pascal string of raw bytes).
#[derive(Debug, Clone, PartialEq, Eq, Hash)]
pub struct FontRecord {
    /// Font identifier (referenced by [`StyleRecord::font_id`])
    pub font_id: u16,
    /// Font name bytes (at most 255)
    pub font_name: Vec<u8>,
}

/// The value of a [`FontRecord`].
pub struct FontRecordV {
    pub font_id: u16,
    pub font_name: Seq<u8>,
}

impl View for FontRecord {
    type V = FontRecordV;

    open spec fn view(&self) -> FontRecordV {
        FontRecordV { font_id: self.font_id, font_name: self.font_name@ }
    }
}

/// Identifier, name length, name.
pub open spec fn font_record_bytes(f: FontRecordV) -> Seq<u8> {
    be16(f.font_id) + seq![f.font_name.len() as u8] + f.font_name
}

/// The record at the start of `s` and the number of bytes it takes.
pub open spec fn parse_font_record(s: Seq<u8>) -> Option<(FontRecordV, int)> {
    if s.len() < 3 || 3 + s[2] > s.len() {
        None
    } else {
        Some(
            (
                FontRecordV { font_id: get16(s, 0), font_name: s.subrange(3, 3 + s[2]) },
                3 + s[2] as int,
            ),
        )
    }
}

pub open spec fn fonts_bytes(l: Seq<FontRecordV>) -> Seq<u8>
    decreases l.len(),
{
    if l.len() == 0 {
        Seq::empty()
    } else {
        font_record_bytes(l[0]) + fonts_bytes(l.drop_first())
    }
}

/// `n` records read from the start of `s`.
pub open spec fn parse_fonts(s: Seq<u8>, n: nat) -> Option<Seq<FontRecordV>>
    decreases n,
{
    if n == 0 {
        Some(Seq::empty())
    } else {
        match parse_font_record(s) {
            None => None,
            Some((f, k)) => match parse_fonts(s.skip(k), (n - 1) as nat) {
                None => None,
                Some(l) => Some(seq![f] + l),
            },
        }
    }
}

pub open spec fn fonts_valid(l: Seq<FontRecordV>) -> bool {
    forall|i: int| 0 <= i < l.len() ==> #[trigger] l[i].font_name.len() <= 255
}

pub open spec fn fonts_view(v: Seq<FontRecord>) -> Seq<FontRecordV> {
    v.map_values(|f: FontRecord| f@)
}

pub proof fn lemma_fonts_push(l: Seq<FontRecordV>, f: FontRecordV)
    ensures
        fonts_bytes(l.push(f)) == fonts_bytes(l) + font_record_bytes(f),
    decreases l.len(),
{
    if l.len() == 0 {
        assert(l.push(f).drop_first() =~= Seq::<FontRecordV>::empty());
        assert(fonts_bytes(Seq::<FontRecordV>::empty()) =~= Seq::<u8>::empty());
        assert(l.push(f)[0] == f);
        assert(fonts_bytes(l.push(f)) =~= font_record_bytes(f) + Seq::<u8>::empty());
        assert(fonts_bytes(l) =~= Seq::<u8>::empty());
    } else {
        lemma_fonts_push(l.drop_first(), f);
        assert(l.push(f).drop_first() =~= l.drop_first().push(f));
        assert(fonts_bytes(l.push(f)) =~= fonts_bytes(l) + font_record_bytes(f));
    }
}

pub proof fn lemma_fonts_roundtrip(l: Seq<FontRecordV>, rest: Seq<u8>)
    requires
        fonts_valid(l),
    ensures
        parse_fonts(fonts_bytes(l) + rest, l.len()) == Some(l),
    decreases l.len(),
{
    if l.len() > 0 {
        let f = l[0];
        let t = l.drop_first();
        assert(fonts_valid(t)) by {
            assert forall|i: int| 0 <= i < t.len() implies #[trigger] t[i].font_name.len()
                <= 255 by {
                assert(t[i] == l[i + 1]);
            }
        }
        lemma_fonts_roundtrip(t, rest);
        let s = fonts_bytes(l) + rest;
        assert(f.font_name.len() <= 255);
        assert(s =~= be16(f.font_id) + seq![f.font_name.len() as u8] + f.font_name + (fonts_bytes(
            t,
        ) + rest));
        assert(s.subrange(0, 2) =~= be16(f.font_id));
        lemma_get16(s, 0, f.font_id);
        assert(s.subrange(3, 3 + f.font_name.len() as int) =~= f.font_name);
        assert(s.skip(3 + f.font_name.len() as int) =~= fonts_bytes(t) + rest);
        assert(seq![f] + t =~= l);
    } else {
        assert(l =~= Seq::<FontRecordV>::empty());
    }
}

/// `ftab`: font table.
#[derive(Debug, Default, Clone, PartialEq, Eq, Hash)]
pub struct FtabBox {
    /// Font entries (at most 65535)
    pub entries: Vec<FontRecord>,
}

/// The value of an [`FtabBox`].
pub struct FtabBoxV {
    pub entries: Seq<FontRecordV>,
}

impl View for FtabBox {
    type V = FtabBoxV;

    open spec fn view(&self) -> FtabBoxV {
        FtabBoxV { entries: fonts_view(self.entries@) }
    }
}

/// `ftab` payload: entry count, then the entries.
pub open spec fn ftab_bytes(v: FtabBoxV) -> Seq<u8> {
    be16(v.entries.len() as u16) + fonts_bytes(v.entries)
}

/// `ftab` payload decoding: the announced number of entries; bytes after them are ignored.
pub open spec fn parse_ftab(p: Seq<u8>) -> Option<FtabBoxV> {
    if p.len() < 2 {
        None
    } else {
        match parse_fonts(p.skip(2), get16(p, 0) as nat) {
            Some(l) => Some(FtabBoxV { entries: l }),
            None => None,
        }
    }
}

impl FtabBox {
    /// Box type `ftab`
    pub const TYPE: u32 = 0x66746162;

    /// The bytes of the box. Fails when it cannot be encoded.
    pub fn encode_to_vec(&self) -> (r: Result<Vec<u8>, Error>)
        ensures
            r matches Err(e) ==> e.kind == ErrorKind::InvalidInput,
            r is Ok <==> box_encodable::<FtabBox>(self@),
            r matches Ok(v) ==> v@ == box_of::<FtabBox>(self@),
    {
        encode_box_to_vec(self)
    }

    /// Decodes the box at the start of `buf`; returns it and its size.
    pub fn decode(buf: &[u8]) -> (r: Result<(FtabBox, usize), Error>)
        ensures
            r matches Err(e) ==> e.kind == ErrorKind::InvalidData,
            r is Ok <==> parse_box::<FtabBox>(buf@) is Some,
            r matches Ok((v, n)) ==> parse_box::<FtabBox>(buf@) == Some((v@, n as int)),
    {
        decode_box(buf)
    }
}

impl BoxCodec for FtabBox {
    open spec fn decode_error_kind(k: ErrorKind) -> bool {
        k == ErrorKind::InvalidData
    }

    open spec fn spec_box_type() -> u32 {
        0x66746162
    }

    /// At most 65535 entries, names of at most 255 bytes.
    open spec fn encodable(v: FtabBoxV) -> bool {
        v.entries.len() <= 0xFFFF && fonts_valid(v.entries)
    }

    open spec fn valid(v: FtabBoxV) -> bool {
        Self::encodable(v)
    }

    open spec fn payload_bytes(v: FtabBoxV) -> Seq<u8> {
        ftab_bytes(v)
    }

    open spec fn parse_payload(p: Seq<u8>) -> Option<FtabBoxV> {
        parse_ftab(p)
    }

    proof fn lemma_payload_roundtrip(v: FtabBoxV) {
        let p = ftab_bytes(v);
        assert(p.subrange(0, 2) =~= be16(v.entries.len() as u16));
        lemma_get16(p, 0, v.entries.len() as u16);
        assert(p.skip(2) =~= fonts_bytes(v.entries) + Seq::<u8>::empty());
        lemma_fonts_roundtrip(v.entries, Seq::<u8>::empty());
    }

    fn box_type_code() -> (r: u32) {
        Self::TYPE
    }

    fn encode_payload(&self, out: &mut Vec<u8>) -> (r: Result<(), Error>) {
        if self.entries.len() > 0xFFFF {
            return Err(Error::invalid_input("ftab.entry_count exceeds u16::MAX"));
        }
        let ghost v = fonts_view(self.entries@);
        let mut p: Vec<u8> = Vec::new();
        push_u16(&mut p, self.entries.len() as u16);
        let ghost head = p@;
        let mut i: usize = 0;
        while i < self.entries.len()
            invariant
                i <= self.entries@.len(),
                v == fonts_view(self.entries@),
                fonts_valid(v.take(i as int)),
                p@ == head + fonts_bytes(v.take(i as int)),
            decreases self.entries@.len() - i,
        {
            let f = &self.entries[i];
            assert(f@ == v[i as int]);
            if f.font_name.len() > 255 {
                assert(!(v[i as int].font_name.len() <= 255));
                return Err(Error::invalid_input("FontRecord.font_name_length exceeds u8::MAX"));
            }
            let ghost before = p@;
            push_u16(&mut p, f.font_id);
            push_u8(&mut p, f.font_name.len() as u8);
            push_slice(&mut p, f.font_name.as_slice());
            proof {
                assert(p@ =~= before + font_record_bytes(f@));
                lemma_fonts_push(v.take(i as int), f@);
                assert(v.take(i as int).push(f@) =~= v.take(i + 1));
                assert forall|j: int| 0 <= j < i + 1 implies #[trigger] v.take(i + 1)[j].font_name.len()
                    <= 255 by {
                    if j < i {
                        assert(v.take(i + 1)[j] == v.take(i as int)[j]);
                    }
                }
            }
            i = i + 1;
        }
        assert(v.take(i as int) =~= v);
        assert(p@ =~= ftab_bytes(self@));
        push_slice(out, p.as_slice());
        Ok(())
    }

    fn decode_payload(p: &[u8]) -> (r: Result<Self, Error>) {
        let n = match read_u16(p, 0) {
            Ok(x) => x,
            Err(e) => {
                return Err(e);
            },
        };
        let mut acc: Vec<FontRecord> = Vec::new();
        let mut off: usize = 2;
        let mut i: u16 = 0;
        while i < n
            invariant
                i <= n,
                2 <= off <= p@.len(),
                n == get16(p@, 0),
                parse_fonts(p@.skip(2), n as nat) == match parse_fonts(
                    p@.skip(off as int),
                    (n - i) as nat,
                ) {
                    Some(l) => Some(fonts_view(acc@) + l),
                    None => None,
                },
            decreases n - i,
        {
            let ghost t = p@.skip(off as int);
            if p.len() - off < 3 {
                return Err(Error::invalid_data("FontRecord is truncated"));
            }
            let id = match read_u16(p, off) {
                Ok(x) => x,
                Err(e) => {
                    return Err(e);
                },
            };
            assert(get16(t, 0) == get16(p@, off as int));
            let len = p[off + 2] as usize;
            if len > p.len() - off - 3 {
                return Err(Error::invalid_data("FontRecord exceeds payload boundary"));
            }
            let name = vstd::slice::slice_to_vec(
                vstd::slice::slice_subrange(p, off + 3, off + 3 + len),
            );
            let f = FontRecord { font_id: id, font_name: name };
            proof {
                assert(t.subrange(3, 3 + len as int) =~= name@);
                assert(t.skip(3 + len as int) =~= p@.skip(off + 3 + len));
                let na = fonts_view(acc@.push(f));
                assert(na =~= fonts_view(acc@) + seq![f@]);
                match parse_fonts(p@.skip(off + 3 + len), (n - i - 1) as nat) {
                    Some(l) => {
                        assert(fonts_view(acc@) + (seq![f@] + l) =~= na + l);
                    },
                    None => {},
                }
            }
            acc.push(f);
            off = off + 3 + len;
            i = i + 1;
        }
        proof {
            assert(fonts_view(acc@) + Seq::<FontRecordV>::empty() =~= fonts_view(acc@));
        }
        Ok(FtabBox { entries: acc })
    }
}

// ----- tx3g -----

/// The fixed fields of a `tx3g` sample entry.
#[derive(Debug, Clone, Copy, PartialEq, Eq, Hash)]
pub struct TextSampleEntryFields {
    /// Data reference index (1-based index into `dref`, never 0)
    pub data_reference_index: u16,
    /// Display flags
    pub display_flags: u32,
    /// Horizontal justification (0 left, 1 centred, -1 right)
    pub horizontal_justification: i8,
    /// Vertical justification (0 top, 1 centred, -1 bottom)
    pub vertical_justification: i8,
    /// Background colour (RGBA)
    pub background_color_rgba: [u8; 4],
    /// Default text box
    pub default_text_box: BoxRecord,
    /// Default style
    pub default_style: StyleRecord,
}

/// The value of [`TextSampleEntryFields`].
pub struct TextFieldsV {
    pub data_reference_index: u16,
    pub display_flags: u32,
    pub horizontal_justification: i8,
    pub vertical_justification: i8,
    pub background_color_rgba: Seq<u8>,
    pub default_text_box: BoxRecord,
    pub default_style: StyleRecordV,
}

impl View for TextSampleEntryFields {
    type V = TextFieldsV;

    open spec fn view(&self) -> TextFieldsV {
        TextFieldsV {
            data_reference_index: self.data_reference_index,
            display_flags: self.display_flags,
            horizontal_justification: self.horizontal_justification,
            vertical_justification: self.vertical_justification,
            background_color_rgba: self.background_color_rgba@,
            default_text_box: self.default_text_box,
            default_style: self.default_style@,
        }
    }
}

/// Bytes of the text sample entry fields (38 bytes).
pub open spec fn text_fields_bytes(v: TextFieldsV) -> Seq<u8> {
    zeros(6) + be16(v.data_reference_index) + be32(v.display_flags) + seq![
        v.horizontal_justification as u8,
        v.vertical_justification as u8,
    ] + v.background_color_rgba + box_record_bytes(v.default_text_box) + style_record_bytes(
        v.default_style,
    )
}

/// Text sample entry fields read from the start of `p`; the data reference
/// index must not be 0.
pub open spec fn parse_text_fields(p: Seq<u8>) -> Option<TextFieldsV> {
    if p.len() < 38 || get16(p, 6) == 0 {
        None
    } else {
        Some(
            TextFieldsV {
                data_reference_index: get16(p, 6),
                display_flags: get32(p, 8),
                horizontal_justification: p[12] as i8,
                vertical_justification: p[13] as i8,
                background_color_rgba: p.subrange(14, 18),
                default_text_box: box_record_at(p, 18),
                default_style: style_record_at(p, 26),
            },
        )
    }
}

proof fn lemma_i8_u8(v: i8)
    ensures
        (v as u8) as i8 == v,
{
    assert((v as u8) as i8 == v) by (bit_vector);
}

impl EntryFields for TextSampleEntryFields {
    open spec fn fields_len() -> nat {
        38
    }

    open spec fn fields_valid(v: TextFieldsV) -> bool {
        &&& v.data_reference_index != 0
        &&& v.background_color_rgba.len() == 4
        &&& v.default_style.text_color_rgba.len() == 4
    }

    open spec fn fields_bytes(v: TextFieldsV) -> Seq<u8> {
        text_fields_bytes(v)
    }

    open spec fn parse_fields(p: Seq<u8>) -> Option<TextFieldsV> {
        parse_text_fields(p)
    }

    proof fn lemma_fields_roundtrip(v: TextFieldsV, rest: Seq<u8>) {
        let p = text_fields_bytes(v) + rest;
        let pre1 = zeros(6) + be16(v.data_reference_index) + be32(v.display_flags) + seq![
            v.horizontal_justification as u8,
            v.vertical_justification as u8,
        ] + v.background_color_rgba;
        let sb = style_record_bytes(v.default_style);
        assert(p =~= pre1 + box_record_bytes(v.default_text_box) + (sb + rest));
        lemma_box_record_at(v.default_text_box, pre1, sb + rest);
        assert(p =~= (pre1 + box_record_bytes(v.default_text_box)) + sb + rest);
        lemma_style_record_at(v.default_style, pre1 + box_record_bytes(v.default_text_box), rest);
        assert(p.subrange(6, 8) =~= be16(v.data_reference_index));
        assert(p.subrange(8, 12) =~= be32(v.display_flags));
        assert(p.subrange(14, 18) =~= v.background_color_rgba);
        lemma_get16(p, 6, v.data_reference_index);
        lemma_get32(p, 8, v.display_flags);
        lemma_i8_u8(v.horizontal_justification);
        lemma_i8_u8(v.vertical_justification);
    }

    proof fn lemma_parse_fields_len(p: Seq<u8>) {
    }

    fn fields_length() -> (r: usize) {
        38
    }

    fn encode_fields(&self, out: &mut Vec<u8>) {
        push_zeros(out, 6);
        push_u16(out, self.data_reference_index);
        push_u32(out, self.display_flags);
        push_u8(out, self.horizontal_justification as u8);
        push_u8(out, self.vertical_justification as u8);
        push_slice(out, self.background_color_rgba.as_slice());
        push_box_record(&self.default_text_box, out);
        push_style_record(&self.default_style, out);
        assert(out@ =~= old(out)@ + text_fields_bytes(self@));
    }

    fn decode_fields(p: &[u8]) -> (r: Result<Self, Error>) {
        if p.len() < 38 {
            return Err(Error::invalid_data("tx3g fields are truncated"));
        }
        let dri = match read_u16(p, 6) {
            Ok(x) => x,
            Err(e) => {
                return Err(e);
            },
        };
        if dri == 0 {
            return Err(Error::invalid_data("data_reference_index must not be 0"));
        }
        let flags = match read_u32(p, 8) {
            Ok(x) => x,
            Err(e) => {
                return Err(e);
            },
        };
        Ok(
            TextSampleEntryFields {
                data_reference_index: dri,
                display_flags: flags,
                horizontal_justification: p[12] as i8,
                vertical_justification: p[13] as i8,
                background_color_rgba: read_rgba(p, 14),
                default_text_box: read_box_record(p, 18),
                default_style: read_style_record(p, 26),
            },
        )
    }
}

/// 3GPP timed text sample entry (`tx3g`).
#[derive(Debug, Clone, PartialEq, Eq, Hash)]
pub struct Tx3gBox {
    /// Data reference index (1-based index into `dref`, never 0)
    pub data_reference_index: u16,
    /// Display flags
    pub display_flags: u32,
    /// Horizontal justification (0 left, 1 centred, -1 right)
    pub horizontal_justification: i8,
    /// Vertical justification (0 top, 1 centred, -1 bottom)
    pub vertical_justification: i8,
    /// Background colour (RGBA)
    pub background_color_rgba: [u8; 4],
    /// Default text box
    pub default_text_box: BoxRecord,
    /// Default style
    pub default_style: StyleRecord,
    /// Font table
    pub ftab_box: FtabBox,
    /// Other child boxes, kept as they are
    pub unknown_boxes: Vec<UnknownBox>,
}

impl Tx3gBox {
    /// Box type `tx3g`
    pub const TYPE: u32 = 0x74783367;

    /// Default data reference index (1)
    pub const DEFAULT_DATA_REFERENCE_INDEX: u16 = 1;

    /// The fixed fields of the entry.
    pub fn fields(&self) -> (r: TextSampleEntryFields)
        ensures
            r@ == Self::fields_of(*self),
    {
        TextSampleEntryFields {
            data_reference_index: self.data_reference_index,
            display_flags: self.display_flags,
            horizontal_justification: self.horizontal_justification,
            vertical_justification: self.vertical_justification,
            background_color_rgba: self.background_color_rgba,
            default_text_box: self.default_text_box,
            default_style: self.default_style,
        }
    }

    pub open spec fn fields_of(b: Tx3gBox) -> TextFieldsV {
        TextFieldsV {
            data_reference_index: b.data_reference_index,
            display_flags: b.display_flags,
            horizontal_justification: b.horizontal_justification,
            vertical_justification: b.vertical_justification,
            background_color_rgba: b.background_color_rgba@,
            default_text_box: b.default_text_box,
            default_style: b.default_style@,
        }
    }

    /// The bytes of the box. Fails when it cannot be encoded.
    pub fn encode_to_vec(&self) -> (r: Result<Vec<u8>, Error>)
        ensures
            r matches Err(e) ==> e.kind == ErrorKind::InvalidInput,
            r is Ok <==> box_encodable::<Tx3gBox>(self@),
            r matches Ok(v) ==> v@ == box_of::<Tx3gBox>(self@),
    {
        encode_box_to_vec(self)
    }

    /// Decodes the box at the start of `buf`; returns it and its size.
    pub fn decode(buf: &[u8]) -> (r: Result<(Tx3gBox, usize), Error>)
        ensures
            r matches Err(e) ==> e.kind == ErrorKind::InvalidData,
            r is Ok <==> parse_box::<Tx3gBox>(buf@) is Some,
            r matches Ok((v, n)) ==> parse_box::<Tx3gBox>(buf@) == Some((v@, n as int)),
    {
        decode_box(buf)
    }
}

impl View for Tx3gBox {
    type V = EntryV<TextFieldsV, FtabBoxV>;

    open spec fn view(&self) -> EntryV<TextFieldsV, FtabBoxV> {
        EntryV {
            fields: Self::fields_of(*self),
            config: self.ftab_box@,
            unknown_boxes: unknowns_view(self.unknown_boxes@),
        }
    }
}

impl BoxCodec for Tx3gBox {
    open spec fn decode_error_kind(k: ErrorKind) -> bool {
        k == ErrorKind::InvalidData
    }

    open spec fn spec_box_type() -> u32 {
        0x74783367
    }

    open spec fn encodable(v: EntryV<TextFieldsV, FtabBoxV>) -> bool {
        entry_encodable::<TextSampleEntryFields, FtabBox>(v)
    }

    open spec fn valid(v: EntryV<TextFieldsV, FtabBoxV>) -> bool {
        entry_valid::<TextSampleEntryFields, FtabBox>(v)
    }

    open spec fn payload_bytes(v: EntryV<TextFieldsV, FtabBoxV>) -> Seq<u8> {
        entry_bytes::<TextSampleEntryFields, FtabBox>(v)
    }

    open spec fn parse_payload(p: Seq<u8>) -> Option<EntryV<TextFieldsV, FtabBoxV>> {
        parse_entry::<TextSampleEntryFields, FtabBox>(p)
    }

    proof fn lemma_payload_roundtrip(v: EntryV<TextFieldsV, FtabBoxV>) {
        lemma_entry_roundtrip::<TextSampleEntryFields, FtabBox>(v);
    }

    fn box_type_code() -> (r: u32) {
        Self::TYPE
    }

    fn encode_payload(&self, out: &mut Vec<u8>) -> (r: Result<(), Error>) {
        let f = self.fields();
        encode_entry(&f, &self.ftab_box, &self.unknown_boxes, out)
    }

    fn decode_payload(p: &[u8]) -> (r: Result<Self, Error>) {
        match decode_entry::<TextSampleEntryFields, FtabBox>(p) {
            Ok((f, c, us)) => {
                let b = Tx3gBox {
                    data_reference_index: f.data_reference_index,
                    display_flags: f.display_flags,
                    horizontal_justification: f.horizontal_justification,
                    vertical_justification: f.vertical_justification,
                    background_color_rgba: f.background_color_rgba,
                    default_text_box: f.default_text_box,
                    default_style: f.default_style,
                    ftab_box: c,
                    unknown_boxes: us,
                };
                assert(Self::fields_of(b) == f@);
                Ok(b)
            },
            Err(e) => Err(e),
        }
    }
}

} // verus!
