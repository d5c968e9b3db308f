//! Big-endian integers and ISO BMFF box framing over byte sequences.
use vstd::prelude::*;

use crate::error::{Error, ErrorKind};

verus! {

/// Big-endian bytes of a `u16`.
pub open spec fn be16(v: u16) -> Seq<u8> {
    seq![(v / 0x100) as u8, (v % 0x100) as u8]
}

/// Big-endian bytes of the low 24 bits of a `u32`.
pub open spec fn be24(v: u32) -> Seq<u8> {
    seq![((v / 0x1_0000) % 0x100) as u8, ((v / 0x100) % 0x100) as u8, (v % 0x100) as u8]
}

/// Big-endian bytes of a `u32`.
pub open spec fn be32(v: u32) -> Seq<u8> {
    seq![
        (v / 0x100_0000) as u8,
        ((v / 0x1_0000) % 0x100) as u8,
        ((v / 0x100) % 0x100) as u8,
        (v % 0x100) as u8,
    ]
}

/// Big-endian bytes of a `u64`.
pub open spec fn be64(v: u64) -> Seq<u8> {
    be32((v / 0x1_0000_0000) as u32) + be32((v % 0x1_0000_0000) as u32)
}

/// The `u16` stored big-endian at `s[i..i + 2]`.
pub open spec fn get16(s: Seq<u8>, i: int) -> u16 {
    (s[i] as int * 0x100 + s[i + 1] as int) as u16
}

/// The `u32` stored big-endian in the 3 bytes `s[i..i + 3]`.
pub open spec fn get24(s: Seq<u8>, i: int) -> u32 {
    (s[i] as int * 0x1_0000 + s[i + 1] as int * 0x100 + s[i + 2] as int) as u32
}

/// The `u32` stored big-endian at `s[i..i + 4]`.
pub open spec fn get32(s: Seq<u8>, i: int) -> u32 {
    (s[i] as int * 0x100_0000 + s[i + 1] as int * 0x1_0000 + s[i + 2] as int * 0x100 + s[i
        + 3] as int) as u32
}

/// The `u64` stored big-endian at `s[i..i + 8]`.
pub open spec fn get64(s: Seq<u8>, i: int) -> u64 {
    (get32(s, i) as int * 0x1_0000_0000 + get32(s, i + 4) as int) as u64
}

pub proof fn lemma_get16(s: Seq<u8>, i: int, v: u16)
    requires
        0 <= i,
        i + 2 <= s.len(),
        s.subrange(i, i + 2) == be16(v),
    ensures
        get16(s, i) == v,
{
    assert(s[i] == s.subrange(i, i + 2)[0]);
    assert(s[i + 1] == s.subrange(i, i + 2)[1]);
}

pub proof fn lemma_get24(s: Seq<u8>, i: int, v: u32)
    requires
        0 <= i,
        i + 3 <= s.len(),
        s.subrange(i, i + 3) == be24(v),
        v < 0x100_0000,
    ensures
        get24(s, i) == v,
{
    assert(s[i] == s.subrange(i, i + 3)[0]);
    assert(s[i + 1] == s.subrange(i, i + 3)[1]);
    assert(s[i + 2] == s.subrange(i, i + 3)[2]);
}

pub proof fn lemma_get32(s: Seq<u8>, i: int, v: u32)
    requires
        0 <= i,
        i + 4 <= s.len(),
        s.subrange(i, i + 4) == be32(v),
    ensures
        get32(s, i) == v,
{
    assert(s[i] == s.subrange(i, i + 4)[0]);
    assert(s[i + 1] == s.subrange(i, i + 4)[1]);
    assert(s[i + 2] == s.subrange(i, i + 4)[2]);
    assert(s[i + 3] == s.subrange(i, i + 4)[3]);
}

pub proof fn lemma_get64(s: Seq<u8>, i: int, v: u64)
    requires
        0 <= i,
        i + 8 <= s.len(),
        s.subrange(i, i + 8) == be64(v),
    ensures
        get64(s, i) == v,
{
    let hi = (v / 0x1_0000_0000) as u32;
    let lo = (v % 0x1_0000_0000) as u32;
    let w = s.subrange(i, i + 8);
    assert(w =~= be32(hi) + be32(lo));
    assert(s.subrange(i, i + 4) =~= w.subrange(0, 4));
    assert(w.subrange(0, 4) =~= be32(hi));
    assert(s.subrange(i + 4, i + 8) =~= w.subrange(4, 8));
    assert(w.subrange(4, 8) =~= be32(lo));
    lemma_get32(s, i, hi);
    lemma_get32(s, i + 4, lo);
    assert(hi as int * 0x1_0000_0000 + lo as int == v) by (nonlinear_arith)
        requires
            hi == v / 0x1_0000_0000,
            lo == v % 0x1_0000_0000,
    ;
}

/// Appends one byte.
pub fn push_u8(out: &mut Vec<u8>, v: u8)
    ensures
        final(out)@ == old(out)@ + seq![v],
{
    out.push(v);
    assert(out@ =~= old(out)@ + seq![v]);
}

/// Appends a big-endian `u16`.
pub fn push_u16(out: &mut Vec<u8>, v: u16)
    ensures
        final(out)@ == old(out)@ + be16(v),
{
    out.push((v / 0x100) as u8);
    out.push((v % 0x100) as u8);
    assert(out@ =~= old(out)@ + be16(v));
}

/// Appends the low 24 bits of `v`, big-endian.
pub fn push_u24(out: &mut Vec<u8>, v: u32)
    ensures
        final(out)@ == old(out)@ + be24(v),
{
    out.push(((v / 0x1_0000) % 0x100) as u8);
    out.push(((v / 0x100) % 0x100) as u8);
    out.push((v % 0x100) as u8);
    assert(out@ =~= old(out)@ + be24(v));
}

/// Appends a big-endian `u32`.
pub fn push_u32(out: &mut Vec<u8>, v: u32)
    ensures
        final(out)@ == old(out)@ + be32(v),
{
    out.push((v / 0x100_0000) as u8);
    out.push(((v / 0x1_0000) % 0x100) as u8);
    out.push(((v / 0x100) % 0x100) as u8);
    out.push((v % 0x100) as u8);
    assert(out@ =~= old(out)@ + be32(v));
}

/// Appends a big-endian `u64`.
pub fn push_u64(out: &mut Vec<u8>, v: u64)
    ensures
        final(out)@ == old(out)@ + be64(v),
{
    push_u32(out, (v / 0x1_0000_0000) as u32);
    push_u32(out, (v % 0x1_0000_0000) as u32);
    assert(out@ =~= old(out)@ + be64(v));
}

/// Appends a byte slice.
pub fn push_slice(out: &mut Vec<u8>, data: &[u8])
    ensures
        final(out)@ == old(out)@ + data@,
{
    let mut i: usize = 0;
    while i < data.len()
        invariant
            i <= data@.len(),
            out@ == old(out)@ + data@.take(i as int),
        decreases data@.len() - i,
    {
        out.push(data[i]);
        i = i + 1;
        assert(out@ =~= old(out)@ + data@.take(i as int));
    }
    assert(data@.take(data@.len() as int) =~= data@);
}

/// Reads the byte at `pos`.
pub fn read_u8(buf: &[u8], pos: usize) -> (r: Result<u8, Error>)
    ensures
        r is Ok <==> pos + 1 <= buf@.len(),
        r matches Ok(v) ==> v == buf@[pos as int],
        r matches Err(e) ==> e.kind == ErrorKind::InvalidData,
{
    if pos >= buf.len() {
        return Err(Error::invalid_data("unexpected end of data"));
    }
    Ok(buf[pos])
}

/// Reads the big-endian `u16` at `pos`.
pub fn read_u16(buf: &[u8], pos: usize) -> (r: Result<u16, Error>)
    ensures
        r is Ok <==> pos + 2 <= buf@.len(),
        r matches Ok(v) ==> v == get16(buf@, pos as int),
        r matches Err(e) ==> e.kind == ErrorKind::InvalidData,
{
    if pos >= buf.len() || buf.len() - pos < 2 {
        return Err(Error::invalid_data("unexpected end of data"));
    }
    let v = buf[pos] as u16 * 0x100 + buf[pos + 1] as u16;
    Ok(v)
}

/// Reads the big-endian 24-bit value at `pos`.
pub fn read_u24(buf: &[u8], pos: usize) -> (r: Result<u32, Error>)
    ensures
        r is Ok <==> pos + 3 <= buf@.len(),
        r matches Ok(v) ==> v == get24(buf@, pos as int) && v < 0x100_0000,
        r matches Err(e) ==> e.kind == ErrorKind::InvalidData,
{
    if pos >= buf.len() || buf.len() - pos < 3 {
        return Err(Error::invalid_data("unexpected end of data"));
    }
    let v = buf[pos] as u32 * 0x1_0000 + buf[pos + 1] as u32 * 0x100 + buf[pos + 2] as u32;
    Ok(v)
}

/// Reads the big-endian `u32` at `pos`.
pub fn read_u32(buf: &[u8], pos: usize) -> (r: Result<u32, Error>)
    ensures
        r is Ok <==> pos + 4 <= buf@.len(),
        r matches Ok(v) ==> v == get32(buf@, pos as int),
        r matches Err(e) ==> e.kind == ErrorKind::InvalidData,
{
    if pos >= buf.len() || buf.len() - pos < 4 {
        return Err(Error::invalid_data("unexpected end of data"));
    }
    let v = buf[pos] as u32 * 0x100_0000 + buf[pos + 1] as u32 * 0x1_0000 + buf[pos + 2] as u32
        * 0x100 + buf[pos + 3] as u32;
    Ok(v)
}

/// Reads the big-endian `u64` at `pos`.
pub fn read_u64(buf: &[u8], pos: usize) -> (r: Result<u64, Error>)
    ensures
        r is Ok <==> pos + 8 <= buf@.len(),
        r matches Ok(v) ==> v == get64(buf@, pos as int),
        r matches Err(e) ==> e.kind == ErrorKind::InvalidData,
{
    if pos >= buf.len() || buf.len() - pos < 8 {
        return Err(Error::invalid_data("unexpected end of data"));
    }
    let hi = match read_u32(buf, pos) {
        Ok(v) => v,
        Err(e) => {
            return Err(e);
        },
    };
    let lo = match read_u32(buf, pos + 4) {
        Ok(v) => v,
        Err(e) => {
            return Err(e);
        },
    };
    Ok(hi as u64 * 0x1_0000_0000 + lo as u64)
}

/// The bytes of a box: 32-bit size (header included), 32-bit type, payload.
pub open spec fn box_bytes(box_type: u32, payload: Seq<u8>) -> Seq<u8> {
    be32((8 + payload.len()) as u32) + be32(box_type) + payload
}

/// The box at the start of `s`: its type, where its payload starts, and where
/// the box ends.
///
/// A size of 1 means a 64-bit size follows the type; a size of 0 means the box
/// runs to the end of `s`. The size must cover the header and fit in `s`.
pub open spec fn box_split(s: Seq<u8>) -> Option<(u32, int, int)> {
    if s.len() < 8 {
        None
    } else {
        let size = get32(s, 0);
        let box_type = get32(s, 4);
        if size == 1 {
            if s.len() < 16 {
                None
            } else {
                let large = get64(s, 8);
                if 16 <= large && large <= s.len() {
                    Some((box_type, 16, large as int))
                } else {
                    None
                }
            }
        } else if size == 0 {
            Some((box_type, 8, s.len() as int))
        } else if 8 <= size && size <= s.len() {
            Some((box_type, 8, size as int))
        } else {
            None
        }
    }
}

/// A box split from a sequence lies within it and has a non-empty header.
pub proof fn lemma_box_split_bounds(s: Seq<u8>)
    ensures
        box_split(s) matches Some((t, h, e)) ==> 8 <= h <= e <= s.len(),
{
}

/// A framed box splits back into its type and payload.
pub proof fn lemma_box_split_of_bytes(box_type: u32, payload: Seq<u8>, rest: Seq<u8>)
    requires
        8 + payload.len() <= u32::MAX,
    ensures
        box_split(box_bytes(box_type, payload) + rest) == Some(
            (box_type, 8int, 8 + payload.len() as int),
        ),
        (box_bytes(box_type, payload) + rest).subrange(8, 8 + payload.len() as int) == payload,
        (box_bytes(box_type, payload) + rest).skip(8 + payload.len() as int) == rest,
{
    let b = box_bytes(box_type, payload) + rest;
    let size = (8 + payload.len()) as u32;
    assert(b.subrange(0, 4) =~= be32(size));
    assert(b.subrange(4, 8) =~= be32(box_type));
    lemma_get32(b, 0, size);
    lemma_get32(b, 4, box_type);
    assert(b.subrange(8, 8 + payload.len() as int) =~= payload);
    assert(b.skip(8 + payload.len() as int) =~= rest);
}

/// Appends a box with the given type and payload. Fails when the box size
/// does not fit in 32 bits.
pub fn write_box(out: &mut Vec<u8>, box_type: u32, payload: &Vec<u8>) -> (r: Result<(), Error>)
    ensures
        r is Ok <==> 8 + payload@.len() <= u32::MAX,
        r is Ok ==> final(out)@ == old(out)@ + box_bytes(box_type, payload@),
        r is Err ==> final(out)@ == old(out)@,
        r matches Err(e) ==> e.kind == ErrorKind::InvalidInput,
{
    if payload.len() > 0xFFFF_FFF7 {
        return Err(Error::invalid_input("box size exceeds u32::MAX"));
    }
    push_u32(out, (8 + payload.len()) as u32);
    push_u32(out, box_type);
    push_slice(out, payload.as_slice());
    assert(out@ =~= old(out)@ + box_bytes(box_type, payload@));
    Ok(())
}

/// Reads the header of the box at the start of `buf`: its type, where its
/// payload starts and where it ends.
pub fn split_box(buf: &[u8]) -> (r: Result<(u32, usize, usize), Error>)
    ensures
        r is Ok <==> box_split(buf@) is Some,
        r matches Ok((t, h, e)) ==> box_split(buf@) == Some((t, h as int, e as int)),
        r matches Err(e) ==> e.kind == ErrorKind::InvalidData,
{
    let size = match read_u32(buf, 0) {
        Ok(v) => v,
        Err(e) => {
            return Err(e);
        },
    };
    let box_type = match read_u32(buf, 4) {
        Ok(v) => v,
        Err(e) => {
            return Err(e);
        },
    };
    if size == 1 {
        let large = match read_u64(buf, 8) {
            Ok(v) => v,
            Err(e) => {
                return Err(e);
            },
        };
        if large < 16 || large > buf.len() as u64 {
            return Err(Error::invalid_data("box size does not fit the data"));
        }
        Ok((box_type, 16, large as usize))
    } else if size == 0 {
        Ok((box_type, 8, buf.len()))
    } else {
        if size < 8 || size as usize > buf.len() {
            return Err(Error::invalid_data("box size does not fit the data"));
        }
        Ok((box_type, 8, size as usize))
    }
}

} // verus!
