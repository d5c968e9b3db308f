//! Encoding and decoding of boxes: box types, the [`BoxCodec`] interface that
//! each typed box implements, boxes of unknown type, and lists of child boxes.
use vstd::prelude::*;

use crate::bytes::{
    be24, be32, be64, box_bytes, box_split, get32, get64, lemma_box_split_of_bytes, lemma_get32,
    lemma_get64, push_slice, push_u24, push_u32, push_u64, push_u8, read_u24, read_u32, read_u64,
    read_u8, split_box, write_box,
};
use crate::error::{Error, ErrorKind};

verus! {

/// A four-character box type, as the big-endian `u32` of its four bytes.
#[derive(Debug, Clone, Copy, PartialEq, Eq, Hash, Structural)]
pub struct BoxType {
    /// The four bytes of the type, big-endian.
    pub code: u32,
}

impl BoxType {
    /// The box type with the given four bytes.
    pub fn from_fourcc(bytes: [u8; 4]) -> (r: BoxType)
        ensures
            r.code == bytes[0] as int * 0x100_0000 + bytes[1] as int * 0x1_0000 + bytes[2] as int
                * 0x100 + bytes[3] as int,
    {
        BoxType {
            code: bytes[0] as u32 * 0x100_0000 + bytes[1] as u32 * 0x1_0000 + bytes[2] as u32
                * 0x100 + bytes[3] as u32,
        }
    }

    /// The four bytes of the type.
    pub fn fourcc(&self) -> (r: [u8; 4])
        ensures
            r[0] == (self.code / 0x100_0000) as u8,
            r[1] == ((self.code / 0x1_0000) % 0x100) as u8,
            r[2] == ((self.code / 0x100) % 0x100) as u8,
            r[3] == (self.code % 0x100) as u8,
    {
        [
            (self.code / 0x100_0000) as u8,
            ((self.code / 0x1_0000) % 0x100) as u8,
            ((self.code / 0x100) % 0x100) as u8,
            (self.code % 0x100) as u8,
        ]
    }
}

/// The size field of a box header.
#[derive(Debug, Clone, Copy, PartialEq, Eq, Hash, Structural)]
pub enum BoxSize {
    /// A 32-bit size; 0 for a box that runs to the end of what holds it
    U32(u32),
    /// A 64-bit size, written after a 32-bit size of 1
    U64(u64),
}

/// The size field for a box with `n` bytes of payload: 32 bits when the
/// whole box fits in them, 64 bits otherwise.
pub open spec fn size_for_payload(n: nat) -> BoxSize {
    if 8 + n <= u32::MAX {
        BoxSize::U32((8 + n) as u32)
    } else {
        BoxSize::U64((16 + n) as u64)
    }
}

impl BoxSize {
    /// The size field for a box of `box_type` (a four-character type, whose
    /// header has no extended type) with `payload_size` bytes of payload.
    pub fn with_payload_size(box_type: BoxType, payload_size: u64) -> (r: BoxSize)
        requires
            payload_size <= u64::MAX - 16,
        ensures
            r == size_for_payload(payload_size as nat),
    {
        if payload_size <= 0xFFFF_FFF7 {
            BoxSize::U32((8 + payload_size) as u32)
        } else {
            BoxSize::U64(16 + payload_size)
        }
    }
}

/// The bytes of a box header with type `t` and size field `size`.
pub open spec fn header_bytes(t: u32, size: BoxSize) -> Seq<u8> {
    match size {
        BoxSize::U32(n) => be32(n) + be32(t),
        BoxSize::U64(n) => be32(1) + be32(t) + be64(n),
    }
}

/// The size field of the box header at the start of `s`.
pub open spec fn header_size(s: Seq<u8>) -> BoxSize {
    if get32(s, 0) == 1 {
        BoxSize::U64(get64(s, 8))
    } else {
        BoxSize::U32(get32(s, 0))
    }
}

/// Reads the size field of the box header at the start of `buf`.
fn read_box_size(buf: &[u8]) -> (r: BoxSize)
    requires
        box_split(buf@) is Some,
    ensures
        r == header_size(buf@),
{
    let size = match read_u32(buf, 0) {
        Ok(v) => v,
        Err(_) => 0,
    };
    if size == 1 {
        let large = match read_u64(buf, 8) {
            Ok(v) => v,
            Err(_) => 0,
        };
        BoxSize::U64(large)
    } else {
        BoxSize::U32(size)
    }
}

/// A box whose type has no typed implementation: its type, the size field of
/// its header as it was read (or is to be written), and its raw payload.
#[derive(Debug, Clone, PartialEq, Eq, Hash)]
pub struct UnknownBox {
    /// Box type
    pub box_type: BoxType,
    /// Size field of the header
    pub box_size: BoxSize,
    /// Payload (the bytes after the header)
    pub payload: Vec<u8>,
}

/// The value of an [`UnknownBox`].
pub struct UnknownBoxV {
    pub box_type: u32,
    pub box_size: BoxSize,
    pub payload: Seq<u8>,
}

impl View for UnknownBox {
    type V = UnknownBoxV;

    open spec fn view(&self) -> UnknownBoxV {
        UnknownBoxV { box_type: self.box_type.code, box_size: self.box_size, payload: self.payload@ }
    }
}

/// The bytes of an unknown box: its header with the size field it holds,
/// then its payload.
pub open spec fn unknown_bytes(u: UnknownBoxV) -> Seq<u8> {
    header_bytes(u.box_type, u.box_size) + u.payload
}

/// The size field of an unknown box gives its length (header and payload).
pub open spec fn unknown_valid(u: UnknownBoxV) -> bool {
    match u.box_size {
        BoxSize::U32(n) => n == 8 + u.payload.len(),
        BoxSize::U64(n) => n == 16 + u.payload.len(),
    }
}

/// An unknown box whose size field gives its length splits back into its
/// type, size field and payload, whatever follows it.
pub proof fn lemma_unknown_split(u: UnknownBoxV, rest: Seq<u8>)
    requires
        unknown_valid(u),
    ensures
        ({
            let s = unknown_bytes(u) + rest;
            let h: int = if u.box_size is U32 {
                8
            } else {
                16
            };
            &&& box_split(s) == Some((u.box_type, h, h + u.payload.len()))
            &&& header_size(s) == u.box_size
            &&& s.subrange(h, h + u.payload.len()) == u.payload
            &&& s.skip(h + u.payload.len()) == rest
            &&& unknown_bytes(u).len() == h + u.payload.len()
        }),
{
    let s = unknown_bytes(u) + rest;
    match u.box_size {
        BoxSize::U32(n) => {
            assert(unknown_bytes(u) =~= box_bytes(u.box_type, u.payload));
            lemma_box_split_of_bytes(u.box_type, u.payload, rest);
            assert(s.subrange(0, 4) =~= be32(n));
            lemma_get32(s, 0, n);
        },
        BoxSize::U64(n) => {
            assert(s.subrange(0, 4) =~= be32(1));
            assert(s.subrange(4, 8) =~= be32(u.box_type));
            assert(s.subrange(8, 16) =~= be64(n));
            lemma_get32(s, 0, 1);
            lemma_get32(s, 4, u.box_type);
            lemma_get64(s, 8, n);
            assert(s.subrange(16, 16 + u.payload.len() as int) =~= u.payload);
            assert(s.skip(16 + u.payload.len() as int) =~= rest);
        },
    }
}

/// The bytes of a list of unknown boxes, one after the other.
pub open spec fn unknowns_bytes(us: Seq<UnknownBoxV>) -> Seq<u8>
    decreases us.len(),
{
    if us.len() == 0 {
        Seq::empty()
    } else {
        unknown_bytes(us[0]) + unknowns_bytes(us.drop_first())
    }
}

/// The size field of every box of the list gives its length.
pub open spec fn unknowns_valid(us: Seq<UnknownBoxV>) -> bool {
    forall|i: int| 0 <= i < us.len() ==> unknown_valid(#[trigger] us[i])
}

/// Views of a vector of unknown boxes.
pub open spec fn unknowns_view(v: Seq<UnknownBox>) -> Seq<UnknownBoxV> {
    v.map_values(|u: UnknownBox| u@)
}

impl UnknownBox {
    /// Appends the box: its header with the size field it holds, then its
    /// payload. It never fails.
    pub fn encode(&self, out: &mut Vec<u8>) -> (r: Result<(), Error>)
        ensures
            r is Ok,
            final(out)@ == old(out)@ + unknown_bytes(self@),
    {
        match self.box_size {
            BoxSize::U32(n) => {
                push_u32(out, n);
                push_u32(out, self.box_type.code);
            },
            BoxSize::U64(n) => {
                push_u32(out, 1);
                push_u32(out, self.box_type.code);
                push_u64(out, n);
            },
        }
        push_slice(out, self.payload.as_slice());
        assert(out@ =~= old(out)@ + unknown_bytes(self@));
        Ok(())
    }

    /// The bytes of the box. It never fails.
    pub fn encode_to_vec(&self) -> (r: Result<Vec<u8>, Error>)
        ensures
            r matches Ok(v) && v@ == unknown_bytes(self@),
    {
        let mut out: Vec<u8> = Vec::new();
        match self.encode(&mut out) {
            Ok(()) => {
                assert(out@ =~= unknown_bytes(self@));
                Ok(out)
            },
            Err(e) => Err(e),
        }
    }

    /// Decodes the box at the start of `buf`, whatever its type; returns it and
    /// the number of bytes it spans.
    pub fn decode(buf: &[u8]) -> (r: Result<(UnknownBox, usize), Error>)
        ensures
            r is Ok <==> box_split(buf@) is Some,
            r matches Ok((u, n)) ==> (box_split(buf@) matches Some((t, h, e)) && u@.box_type == t
                && u@.box_size == header_size(buf@) && u@.payload == buf@.subrange(h, e) && n == e),
            r matches Err(e) ==> e.kind == ErrorKind::InvalidData,
    {
        let (t, h, e) = match split_box(buf) {
            Ok(x) => x,
            Err(err) => {
                return Err(err);
            },
        };
        let box_size = read_box_size(buf);
        let payload = vstd::slice::slice_to_vec(vstd::slice::slice_subrange(buf, h, e));
        Ok((UnknownBox { box_type: BoxType { code: t }, box_size, payload }, e))
    }
}

/// Appends a list of unknown boxes.
pub fn encode_unknowns(us: &Vec<UnknownBox>, out: &mut Vec<u8>) -> (r: Result<(), Error>)
    ensures
        r is Ok,
        final(out)@ == old(out)@ + unknowns_bytes(unknowns_view(us@)),
{
    let ghost vs = unknowns_view(us@);
    let mut i: usize = 0;
    while i < us.len()
        invariant
            i <= us@.len(),
            vs == unknowns_view(us@),
            out@ == old(out)@ + unknowns_bytes(vs.take(i as int)),
        decreases us@.len() - i,
    {
        let ghost before = out@;
        let _ = us[i].encode(out);
        proof {
            lemma_unknowns_bytes_push(vs.take(i as int), vs[i as int]);
            assert(vs.take(i as int).push(vs[i as int]) =~= vs.take(i + 1));
        }
        i = i + 1;
    }
    assert(vs.take(us@.len() as int) =~= vs);
    Ok(())
}

/// Appending a box to a list appends its bytes.
pub proof fn lemma_unknowns_bytes_push(us: Seq<UnknownBoxV>, u: UnknownBoxV)
    ensures
        unknowns_bytes(us.push(u)) == unknowns_bytes(us) + unknown_bytes(u),
    decreases us.len(),
{
    if us.len() == 0 {
        assert(us.push(u).drop_first() =~= Seq::<UnknownBoxV>::empty());
        assert(unknowns_bytes(Seq::<UnknownBoxV>::empty()) =~= Seq::<u8>::empty());
        assert(us.push(u)[0] == u);
        assert(unknowns_bytes(us.push(u)) =~= unknown_bytes(u) + Seq::<u8>::empty());
        assert(unknowns_bytes(us) =~= Seq::<u8>::empty());
    } else {
        lemma_unknowns_bytes_push(us.drop_first(), u);
        assert(us.push(u).drop_first() =~= us.drop_first().push(u));
        assert(unknowns_bytes(us.push(u)) =~= unknowns_bytes(us) + unknown_bytes(u));
    }
}

/// A box with a fixed type and a typed payload.
pub trait BoxCodec: Sized + View {
    /// The box type.
    spec fn spec_box_type() -> u32;

    /// The value can be encoded.
    spec fn encodable(v: Self::V) -> bool;

    /// The value can be encoded and decodes back to itself.
    spec fn valid(v: Self::V) -> bool;

    /// The payload written for the value.
    spec fn payload_bytes(v: Self::V) -> Seq<u8>;

    /// The value decoded from a payload, if the payload is accepted.
    spec fn parse_payload(p: Seq<u8>) -> Option<Self::V>;

    /// The kinds of error with which a refused payload is reported.
    spec fn decode_error_kind(k: ErrorKind) -> bool;

    /// Decoding the payload of a valid value gives the value back.
    proof fn lemma_payload_roundtrip(v: Self::V)
        requires
            Self::valid(v),
        ensures
            Self::encodable(v),
            Self::parse_payload(Self::payload_bytes(v)) == Some(v),
    ;

    /// The box type.
    fn box_type_code() -> (r: u32)
        ensures
            r == Self::spec_box_type(),
    ;

    /// Appends the payload.
    fn encode_payload(&self, out: &mut Vec<u8>) -> (r: Result<(), Error>)
        ensures
            r is Ok <==> Self::encodable(self@),
            r is Ok ==> final(out)@ == old(out)@ + Self::payload_bytes(self@),
            r matches Err(e) ==> e.kind == ErrorKind::InvalidInput,
    ;

    /// Decodes a payload.
    fn decode_payload(p: &[u8]) -> (r: Result<Self, Error>)
        ensures
            r is Ok <==> Self::parse_payload(p@) is Some,
            r matches Ok(v) ==> Self::parse_payload(p@) == Some(v@),
            r matches Err(e) ==> Self::decode_error_kind(e.kind),
    ;
}

/// The bytes of a typed box.
pub open spec fn box_of<B: BoxCodec>(v: B::V) -> Seq<u8> {
    box_bytes(B::spec_box_type(), B::payload_bytes(v))
}

/// The typed box can be written: its payload can be, and its size fits in 32 bits.
pub open spec fn box_encodable<B: BoxCodec>(v: B::V) -> bool {
    B::encodable(v) && 8 + B::payload_bytes(v).len() <= u32::MAX
}

/// The typed box at the start of `s` and the number of bytes it spans.
pub open spec fn parse_box<B: BoxCodec>(s: Seq<u8>) -> Option<(B::V, int)> {
    match box_split(s) {
        Some((t, h, e)) => if t == B::spec_box_type() {
            match B::parse_payload(s.subrange(h, e)) {
                Some(v) => Some((v, e)),
                None => None,
            }
        } else {
            None
        },
        None => None,
    }
}

/// Appends a typed box.
pub fn encode_box<B: BoxCodec>(b: &B, out: &mut Vec<u8>) -> (r: Result<(), Error>)
    ensures
        r is Ok <==> box_encodable::<B>(b@),
        r is Ok ==> final(out)@ == old(out)@ + box_of::<B>(b@),
        r matches Err(e) ==> e.kind == ErrorKind::InvalidInput,
{
    let mut payload: Vec<u8> = Vec::new();
    match b.encode_payload(&mut payload) {
        Ok(()) => {},
        Err(e) => {
            return Err(e);
        },
    }
    assert(payload@ =~= B::payload_bytes(b@));
    write_box(out, B::box_type_code(), &payload)
}

/// The bytes of a typed box.
pub fn encode_box_to_vec<B: BoxCodec>(b: &B) -> (r: Result<Vec<u8>, Error>)
    ensures
        r is Ok <==> box_encodable::<B>(b@),
        r matches Ok(v) ==> v@ == box_of::<B>(b@),
        r matches Err(e) ==> e.kind == ErrorKind::InvalidInput,
{
    let mut out: Vec<u8> = Vec::new();
    match encode_box(b, &mut out) {
        Ok(()) => {
            assert(out@ =~= box_of::<B>(b@));
            Ok(out)
        },
        Err(e) => Err(e),
    }
}

/// Decodes the typed box at the start of `buf`; returns it and the number of
/// bytes it spans.
pub fn decode_box<B: BoxCodec>(buf: &[u8]) -> (r: Result<(B, usize), Error>)
    ensures
        r is Ok <==> parse_box::<B>(buf@) is Some,
        r matches Ok((v, n)) ==> parse_box::<B>(buf@) == Some((v@, n as int)),
        r matches Err(e) ==> e.kind == ErrorKind::InvalidData || B::decode_error_kind(e.kind),
{
    let (t, h, e) = match split_box(buf) {
        Ok(x) => x,
        Err(err) => {
            return Err(err);
        },
    };
    if t != B::box_type_code() {
        return Err(Error::invalid_data("unexpected box type"));
    }
    let payload = vstd::slice::slice_subrange(buf, h, e);
    match B::decode_payload(payload) {
        Ok(v) => Ok((v, e)),
        Err(err) => Err(err),
    }
}

/// A valid typed box decodes back from its bytes, whatever follows them.
pub proof fn lemma_box_roundtrip<B: BoxCodec>(v: B::V, rest: Seq<u8>)
    requires
        B::valid(v),
        8 + B::payload_bytes(v).len() <= u32::MAX,
    ensures
        box_encodable::<B>(v),
        parse_box::<B>(box_of::<B>(v) + rest) == Some((v, box_of::<B>(v).len() as int)),
{
    B::lemma_payload_roundtrip(v);
    lemma_box_split_of_bytes(B::spec_box_type(), B::payload_bytes(v), rest);
}

/// Children of a sample entry after its fixed fields: the first box of type
/// `C` is the configuration box, every other box is kept as unknown.
pub open spec fn parse_children<C: BoxCodec>(s: Seq<u8>, found: bool) -> Option<
    (Option<C::V>, Seq<UnknownBoxV>),
>
    decreases s.len(),
{
    if s.len() == 0 {
        Some((None, Seq::empty()))
    } else {
        match box_split(s) {
            None => None,
            Some((t, h, e)) => {
                if 8 <= h <= e <= s.len() {
                    if t == C::spec_box_type() && !found {
                        match C::parse_payload(s.subrange(h, e)) {
                            None => None,
                            Some(c) => match parse_children::<C>(s.skip(e), true) {
                                Some((_, us)) => Some((Some(c), us)),
                                None => None,
                            },
                        }
                    } else {
                        match parse_children::<C>(s.skip(e), found) {
                            Some((oc, us)) => Some(
                                (
                                    oc,
                                    seq![UnknownBoxV { box_type: t, box_size: header_size(s), payload: s.subrange(h, e) }]
                                        + us,
                                ),
                            ),
                            None => None,
                        }
                    }
                } else {
                    None
                }
            },
        }
    }
}

/// Decodes the children of a sample entry (see [`parse_children`]).
pub fn decode_children<C: BoxCodec>(s: &[u8], found: bool) -> (r: Result<
    (Option<C>, Vec<UnknownBox>),
    Error,
>)
    ensures
        r is Ok <==> parse_children::<C>(s@, found) is Some,
        r matches Ok((oc, us)) ==> parse_children::<C>(s@, found) == Some(
            (
                match oc {
                    Some(c) => Some(c@),
                    None => None,
                },
                unknowns_view(us@),
            ),
        ),
        r matches Err(e) ==> e.kind == ErrorKind::InvalidData || C::decode_error_kind(e.kind),
    decreases s@.len(),
{
    if s.len() == 0 {
        let us: Vec<UnknownBox> = Vec::new();
        assert(unknowns_view(us@) =~= Seq::<UnknownBoxV>::empty());
        return Ok((None, us));
    }
    let (t, h, e) = match split_box(s) {
        Ok(x) => x,
        Err(err) => {
            return Err(err);
        },
    };
    proof {
        crate::bytes::lemma_box_split_bounds(s@);
    }
    let tail = vstd::slice::slice_subrange(s, e, s.len());
    assert(tail@ =~= s@.skip(e as int));
    if t == C::box_type_code() && !found {
        let c = match C::decode_payload(vstd::slice::slice_subrange(s, h, e)) {
            Ok(c) => c,
            Err(err) => {
                return Err(err);
            },
        };
        match decode_children::<C>(tail, true) {
            Ok((_, us)) => Ok((Some(c), us)),
            Err(err) => Err(err),
        }
    } else {
        match decode_children::<C>(tail, found) {
            Ok((oc, us)) => {
                let box_size = read_box_size(s);
                let payload = vstd::slice::slice_to_vec(vstd::slice::slice_subrange(s, h, e));
                let ub = UnknownBox { box_type: BoxType { code: t }, box_size, payload };
                let ghost old_us = us@;
                let mut us = us;
                us.insert(0, ub);
                proof {
                    assert(us@ =~= seq![ub] + old_us);
                    assert(unknowns_view(us@) =~= seq![ub@] + unknowns_view(old_us));
                }
                Ok((oc, us))
            },
            Err(err) => Err(err),
        }
    }
}

/// The children written for a configuration box `c` followed by unknown
/// boxes `us` decode back to `c` and `us`, provided none of the unknown boxes
/// could be taken for the configuration box.
pub proof fn lemma_children_roundtrip<C: BoxCodec>(c: C::V, us: Seq<UnknownBoxV>)
    requires
        C::valid(c),
        8 + C::payload_bytes(c).len() <= u32::MAX,
        unknowns_valid(us),
    ensures
        parse_children::<C>(box_of::<C>(c) + unknowns_bytes(us), false) == Some((Some(c), us)),
{
    C::lemma_payload_roundtrip(c);
    let s = box_of::<C>(c) + unknowns_bytes(us);
    lemma_box_split_of_bytes(C::spec_box_type(), C::payload_bytes(c), unknowns_bytes(us));
    lemma_unknowns_roundtrip::<C>(us);
    assert(s.len() > 0);
}

/// Unknown boxes written after the configuration box decode back as unknown boxes.
pub proof fn lemma_unknowns_roundtrip<C: BoxCodec>(us: Seq<UnknownBoxV>)
    requires
        unknowns_valid(us),
    ensures
        parse_children::<C>(unknowns_bytes(us), true) == Some((None::<C::V>, us)),
    decreases us.len(),
{
    if us.len() == 0 {
        assert(unknowns_bytes(us) =~= Seq::<u8>::empty());
        assert(us =~= Seq::<UnknownBoxV>::empty());
    } else {
        let u = us[0];
        let rest = us.drop_first();
        assert(unknowns_valid(rest));
        lemma_unknowns_roundtrip::<C>(rest);
        assert(unknown_valid(u));
        let rb = unknowns_bytes(rest);
        lemma_unknown_split(u, rb);
        let s = unknowns_bytes(us);
        assert(s == unknown_bytes(u) + rb);
        assert(s.len() > 0);
        assert(parse_children::<C>(rb, true) == Some((None::<C::V>, rest)));
        assert(seq![UnknownBoxV { box_type: u.box_type, box_size: u.box_size, payload: u.payload }] + rest =~= us);
    }
}

/// Boxes one after the other up to the end of `s`, each kept as unknown.
pub open spec fn parse_unknowns(s: Seq<u8>) -> Option<Seq<UnknownBoxV>>
    decreases s.len(),
{
    if s.len() == 0 {
        Some(Seq::empty())
    } else {
        match box_split(s) {
            None => None,
            Some((t, h, e)) => if 8 <= h <= e <= s.len() {
                match parse_unknowns(s.skip(e)) {
                    Some(us) => Some(seq![UnknownBoxV { box_type: t, box_size: header_size(s), payload: s.subrange(h, e) }] + us),
                    None => None,
                }
            } else {
                None
            },
        }
    }
}

/// Decodes boxes up to the end of `s` as unknown boxes.
pub fn decode_unknowns(s: &[u8]) -> (r: Result<Vec<UnknownBox>, Error>)
    ensures
        r matches Err(e) ==> e.kind == ErrorKind::InvalidData,
        r is Ok <==> parse_unknowns(s@) is Some,
        r matches Ok(us) ==> parse_unknowns(s@) == Some(unknowns_view(us@)),
    decreases s@.len(),
{
    if s.len() == 0 {
        let us: Vec<UnknownBox> = Vec::new();
        assert(unknowns_view(us@) =~= Seq::<UnknownBoxV>::empty());
        return Ok(us);
    }
    let (t, h, e) = match split_box(s) {
        Ok(x) => x,
        Err(err) => {
            return Err(err);
        },
    };
    proof {
        crate::bytes::lemma_box_split_bounds(s@);
    }
    let tail = vstd::slice::slice_subrange(s, e, s.len());
    assert(tail@ =~= s@.skip(e as int));
    match decode_unknowns(tail) {
        Ok(us) => {
            let box_size = read_box_size(s);
            let payload = vstd::slice::slice_to_vec(vstd::slice::slice_subrange(s, h, e));
            let ub = UnknownBox { box_type: BoxType { code: t }, box_size, payload };
            let ghost old_us = us@;
            let mut us = us;
            us.insert(0, ub);
            proof {
                assert(us@ =~= seq![ub] + old_us);
                assert(unknowns_view(us@) =~= seq![ub@] + unknowns_view(old_us));
            }
            Ok(us)
        },
        Err(err) => Err(err),
    }
}

proof fn lemma_parse_unknowns_cons(u: UnknownBoxV, rb: Seq<u8>)
    requires
        unknown_valid(u),
    ensures
        parse_unknowns(unknown_bytes(u) + rb) == match parse_unknowns(rb) {
            Some(r) => Some(seq![u] + r),
            None => None,
        },
{
    lemma_unknown_split(u, rb);
    let s = unknown_bytes(u) + rb;
    assert(s.len() > 0);
    assert(UnknownBoxV { box_type: u.box_type, box_size: u.box_size, payload: u.payload } == u);
}

/// Unknown boxes decode back from their bytes.
pub proof fn lemma_parse_unknowns_roundtrip(us: Seq<UnknownBoxV>)
    requires
        unknowns_valid(us),
    ensures
        parse_unknowns(unknowns_bytes(us)) == Some(us),
    decreases us.len(),
{
    if us.len() == 0 {
        assert(unknowns_bytes(us) =~= Seq::<u8>::empty());
        assert(us =~= Seq::<UnknownBoxV>::empty());
    } else {
        let u = us[0];
        let rest = us.drop_first();
        assert(unknowns_valid(rest));
        lemma_parse_unknowns_roundtrip(rest);
        assert(unknown_valid(u));
        lemma_parse_unknowns_cons(u, unknowns_bytes(rest));
        assert(unknowns_bytes(us) == unknown_bytes(u) + unknowns_bytes(rest));
        assert(seq![u] + rest =~= us);
    }
}

/// The bytes of a full box header: 8-bit version and 24-bit flags.
pub open spec fn full_header_bytes(version: u8, flags: u32) -> Seq<u8> {
    seq![version] + be24(flags)
}

/// Appends a full box header.
pub fn push_full_header(out: &mut Vec<u8>, version: u8, flags: u32)
    ensures
        final(out)@ == old(out)@ + full_header_bytes(version, flags),
{
    push_u8(out, version);
    push_u24(out, flags);
    assert(out@ =~= old(out)@ + full_header_bytes(version, flags));
}

} // verus!
