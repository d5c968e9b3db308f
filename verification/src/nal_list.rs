//! Lists of byte strings each prefixed by its 16-bit length, as used for the
//! parameter sets of `avcC` and `hvcC`.
use vstd::prelude::*;

use crate::bytes::{be16, get16, lemma_get16, push_slice, push_u16, read_u16};
use crate::error::{Error, ErrorKind};

verus! {

/// One item: its length (16 bits, big-endian), then its bytes.
pub open spec fn nal_item(x: Seq<u8>) -> Seq<u8> {
    be16(x.len() as u16) + x
}

/// The items one after the other.
pub open spec fn nal_list_bytes(l: Seq<Seq<u8>>) -> Seq<u8>
    decreases l.len(),
{
    if l.len() == 0 {
        Seq::empty()
    } else {
        nal_item(l[0]) + nal_list_bytes(l.drop_first())
    }
}

/// Every item's length fits in 16 bits.
pub open spec fn nal_list_valid(l: Seq<Seq<u8>>) -> bool {
    forall|i: int| 0 <= i < l.len() ==> #[trigger] l[i].len() <= 0xFFFF
}

/// `n` items read from the start of `s`, and the number of bytes they take.
pub open spec fn parse_nal_list(s: Seq<u8>, n: nat) -> Option<(Seq<Seq<u8>>, int)>
    decreases n,
{
    if n == 0 {
        Some((Seq::empty(), 0))
    } else if s.len() < 2 || 2 + get16(s, 0) > s.len() {
        None
    } else {
        let size = get16(s, 0) as int;
        match parse_nal_list(s.skip(2 + size), (n - 1) as nat) {
            Some((l, k)) => Some((seq![s.subrange(2, 2 + size)] + l, 2 + size + k)),
            None => None,
        }
    }
}

/// Views of a vector of byte vectors.
pub open spec fn nal_view(v: Seq<Vec<u8>>) -> Seq<Seq<u8>> {
    v.map_values(|x: Vec<u8>| x@)
}

pub proof fn lemma_nal_list_push(l: Seq<Seq<u8>>, x: Seq<u8>)
    ensures
        nal_list_bytes(l.push(x)) == nal_list_bytes(l) + nal_item(x),
    decreases l.len(),
{
    if l.len() == 0 {
        assert(l.push(x).drop_first() =~= Seq::<Seq<u8>>::empty());
        assert(nal_list_bytes(Seq::<Seq<u8>>::empty()) =~= Seq::<u8>::empty());
        assert(nal_list_bytes(l.push(x)) =~= nal_item(x) + Seq::<u8>::empty());
        assert(nal_list_bytes(l) =~= Seq::<u8>::empty());
    } else {
        lemma_nal_list_push(l.drop_first(), x);
        assert(l.push(x).drop_first() =~= l.drop_first().push(x));
        assert(nal_list_bytes(l.push(x)) =~= nal_list_bytes(l) + nal_item(x));
    }
}

/// A list of valid items reads back from its bytes, whatever follows them.
pub proof fn lemma_nal_list_roundtrip(l: Seq<Seq<u8>>, rest: Seq<u8>)
    requires
        nal_list_valid(l),
    ensures
        parse_nal_list(nal_list_bytes(l) + rest, l.len()) == Some(
            (l, nal_list_bytes(l).len() as int),
        ),
    decreases l.len(),
{
    if l.len() > 0 {
        let x = l[0];
        let t = l.drop_first();
        assert(nal_list_valid(t));
        lemma_nal_list_roundtrip(t, rest);
        let s = nal_list_bytes(l) + rest;
        assert(s =~= be16(x.len() as u16) + x + (nal_list_bytes(t) + rest));
        assert(s.subrange(0, 2) =~= be16(x.len() as u16));
        lemma_get16(s, 0, x.len() as u16);
        assert(s.subrange(2, 2 + x.len() as int) =~= x);
        assert(s.skip(2 + x.len() as int) =~= nal_list_bytes(t) + rest);
        assert(seq![x] + t =~= l);
    } else {
        assert(l =~= Seq::<Seq<u8>>::empty());
    }
}

/// Appends the items.
pub fn encode_nal_list(l: &Vec<Vec<u8>>, out: &mut Vec<u8>) -> (r: Result<(), Error>)
    ensures
        r matches Err(e) ==> e.kind == ErrorKind::InvalidInput,
        r is Ok <==> nal_list_valid(nal_view(l@)),
        r is Ok ==> final(out)@ == old(out)@ + nal_list_bytes(nal_view(l@)),
{
    let ghost v = nal_view(l@);
    let mut i: usize = 0;
    while i < l.len()
        invariant
            i <= l@.len(),
            v == nal_view(l@),
            nal_list_valid(v.take(i as int)),
            out@ == old(out)@ + nal_list_bytes(v.take(i as int)),
        decreases l@.len() - i,
    {
        let item = &l[i];
        if item.len() > 0xFFFF {
            assert(v[i as int].len() > 0xFFFF);
            return Err(Error::invalid_input("parameter set is longer than 65535 bytes"));
        }
        push_u16(out, item.len() as u16);
        push_slice(out, item.as_slice());
        proof {
            lemma_nal_list_push(v.take(i as int), v[i as int]);
            assert(v.take(i as int).push(v[i as int]) =~= v.take(i + 1));
        }
        i = i + 1;
    }
    assert(v.take(l@.len() as int) =~= v);
    Ok(())
}

/// Reads `n` items from `s` starting at `start`; returns them and the offset
/// just after them.
pub fn decode_nal_list(s: &[u8], start: usize, n: usize) -> (r: Result<(Vec<Vec<u8>>, usize), Error>)
    requires
        start <= s@.len(),
    ensures
        r matches Err(e) ==> e.kind == ErrorKind::InvalidData,
        r is Ok <==> parse_nal_list(s@.skip(start as int), n as nat) is Some,
        r matches Ok((l, end)) ==> parse_nal_list(s@.skip(start as int), n as nat) == Some(
            (nal_view(l@), end - start),
        ),
{
    let mut acc: Vec<Vec<u8>> = Vec::new();
    let mut off = start;
    let mut i: usize = 0;
    while i < n
        invariant
            i <= n,
            start <= off <= s@.len(),
            parse_nal_list(s@.skip(start as int), n as nat) == match parse_nal_list(
                s@.skip(off as int),
                (n - i) as nat,
            ) {
                Some((l, k)) => Some((nal_view(acc@) + l, off - start + k)),
                None => None,
            },
        decreases n - i,
    {
        let ghost t = s@.skip(off as int);
        let size = match read_u16(s, off) {
            Ok(v) => v as usize,
            Err(e) => {
                assert(t.len() < 2);
                return Err(e);
            },
        };
        assert(get16(t, 0) == get16(s@, off as int));
        if size > s.len() - off - 2 {
            return Err(Error::invalid_data("parameter set exceeds payload boundary"));
        }
        let item = vstd::slice::slice_to_vec(vstd::slice::slice_subrange(s, off + 2, off + 2 + size));
        proof {
            assert(t.subrange(2, 2 + size as int) =~= item@);
            assert(t.skip(2 + size as int) =~= s@.skip(off + 2 + size));
            let ghost na = nal_view(acc@.push(item));
            assert(na =~= nal_view(acc@) + seq![item@]);
            match parse_nal_list(s@.skip(off + 2 + size), (n - i - 1) as nat) {
                Some((l, k)) => {
                    assert(nal_view(acc@) + (seq![item@] + l) =~= na + l);
                },
                None => {},
            }
        }
        acc.push(item);
        off = off + 2 + size;
        i = i + 1;
    }
    proof {
        assert(nal_view(acc@) + Seq::<Seq<u8>>::empty() =~= nal_view(acc@));
    }
    Ok((acc, off))
}

} // verus!
