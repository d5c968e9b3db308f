//! MPEG-4 Systems descriptor framing (ISO/IEC 14496-1): a tag byte, the
//! payload size in 7-bit groups (high bit set on all but the last byte, at
//! most four bytes), then the payload.
use vstd::prelude::*;

use crate::bytes::{push_slice, push_u8};
use crate::error::{Error, ErrorKind};

verus! {

/// Largest payload size a descriptor can state (28 bits).
pub const MAX_DESCRIPTOR_SIZE: usize = 0x0FFF_FFFF;

/// The size field for `n` in as few bytes as possible.
#[verifier::opaque]
pub open spec fn size_bytes(n: nat) -> Seq<u8> {
    if n < 0x80 {
        seq![n as u8]
    } else if n < 0x4000 {
        seq![(0x80 + n / 0x80) as u8, (n % 0x80) as u8]
    } else if n < 0x20_0000 {
        seq![(0x80 + n / 0x4000) as u8, (0x80 + (n / 0x80) % 0x80) as u8, (n % 0x80) as u8]
    } else {
        seq![
            (0x80 + n / 0x20_0000) as u8,
            (0x80 + (n / 0x4000) % 0x80) as u8,
            (0x80 + (n / 0x80) % 0x80) as u8,
            (n % 0x80) as u8,
        ]
    }
}

/// The size field at the start of `s`: its value and how many bytes it takes.
#[verifier::opaque]
pub open spec fn parse_size(s: Seq<u8>) -> Option<(nat, int)> {
    if s.len() < 1 {
        None
    } else if s[0] < 0x80 {
        Some((s[0] as nat, 1))
    } else if s.len() < 2 {
        None
    } else if s[1] < 0x80 {
        Some(((s[0] % 0x80) as nat * 0x80 + s[1] as nat, 2))
    } else if s.len() < 3 {
        None
    } else if s[2] < 0x80 {
        Some((((s[0] % 0x80) as nat * 0x80 + (s[1] % 0x80) as nat) * 0x80 + s[2] as nat, 3))
    } else if s.len() < 4 {
        None
    } else if s[3] < 0x80 {
        Some(
            (
                (((s[0] % 0x80) as nat * 0x80 + (s[1] % 0x80) as nat) * 0x80 + (s[2]
                    % 0x80) as nat) * 0x80 + s[3] as nat,
                4,
            ),
        )
    } else {
        None
    }
}

/// A descriptor: tag, size, payload.
pub open spec fn desc_bytes(tag: u8, payload: Seq<u8>) -> Seq<u8> {
    seq![tag] + size_bytes(payload.len()) + payload
}

/// The descriptor at the start of `s`: its tag, where its payload starts and
/// where it ends.
pub open spec fn parse_desc(s: Seq<u8>) -> Option<(u8, int, int)> {
    if s.len() < 1 {
        None
    } else {
        match parse_size(s.skip(1)) {
            None => None,
            Some((n, k)) => if 1 + k + n <= s.len() {
                Some((s[0], 1 + k, 1 + k + n))
            } else {
                None
            },
        }
    }
}

pub proof fn lemma_size_roundtrip(n: nat, rest: Seq<u8>)
    requires
        n <= MAX_DESCRIPTOR_SIZE,
    ensures
        parse_size(size_bytes(n) + rest) == Some((n, size_bytes(n).len() as int)),
        1 <= size_bytes(n).len() <= 4,
{
    reveal(size_bytes);
    reveal(parse_size);
    let s = size_bytes(n) + rest;
    if n < 0x80 {
    } else if n < 0x4000 {
        assert(s[0] % 0x80 == n / 0x80);
        assert((n / 0x80) * 0x80 + n % 0x80 == n);
    } else if n < 0x20_0000 {
        assert(s[0] % 0x80 == n / 0x4000);
        assert(s[1] % 0x80 == (n / 0x80) % 0x80);
        assert((n / 0x4000) * 0x80 + (n / 0x80) % 0x80 == n / 0x80);
        assert((n / 0x80) * 0x80 + n % 0x80 == n);
    } else {
        assert(s[0] % 0x80 == n / 0x20_0000);
        assert(s[1] % 0x80 == (n / 0x4000) % 0x80);
        assert(s[2] % 0x80 == (n / 0x80) % 0x80);
        assert((n / 0x20_0000) * 0x80 + (n / 0x4000) % 0x80 == n / 0x4000);
        assert((n / 0x4000) * 0x80 + (n / 0x80) % 0x80 == n / 0x80);
        assert((n / 0x80) * 0x80 + n % 0x80 == n);
    }
}

/// A descriptor reads back from its bytes, whatever follows it.
pub proof fn lemma_desc_roundtrip(tag: u8, payload: Seq<u8>, rest: Seq<u8>)
    requires
        payload.len() <= MAX_DESCRIPTOR_SIZE,
    ensures
        parse_desc(desc_bytes(tag, payload) + rest) == Some(
            (
                tag,
                1 + size_bytes(payload.len()).len() as int,
                desc_bytes(tag, payload).len() as int,
            ),
        ),
        (desc_bytes(tag, payload) + rest).subrange(
            1 + size_bytes(payload.len()).len() as int,
            desc_bytes(tag, payload).len() as int,
        ) == payload,
        (desc_bytes(tag, payload) + rest).skip(desc_bytes(tag, payload).len() as int) == rest,
{
    let s = desc_bytes(tag, payload) + rest;
    let sb = size_bytes(payload.len());
    assert(s.skip(1) =~= sb + (payload + rest));
    lemma_size_roundtrip(payload.len(), payload + rest);
    assert(s.subrange(1 + sb.len() as int, 1 + sb.len() as int + payload.len() as int) =~= payload);
    assert(s.skip(desc_bytes(tag, payload).len() as int) =~= rest);
}

/// Appends a descriptor. Fails when the payload is longer than a size field can state.
pub fn write_desc(out: &mut Vec<u8>, tag: u8, payload: &Vec<u8>) -> (r: Result<(), Error>)
    ensures
        r matches Err(e) ==> e.kind == ErrorKind::InvalidInput,
        r is Ok <==> payload@.len() <= MAX_DESCRIPTOR_SIZE,
        r is Ok ==> final(out)@ == old(out)@ + desc_bytes(tag, payload@),
        r is Err ==> final(out)@ == old(out)@,
{
    let n = payload.len();
    if n > MAX_DESCRIPTOR_SIZE {
        return Err(Error::invalid_input("descriptor payload is too large"));
    }
    push_u8(out, tag);
    if n < 0x80 {
        push_u8(out, n as u8);
    } else if n < 0x4000 {
        push_u8(out, (0x80 + n / 0x80) as u8);
        push_u8(out, (n % 0x80) as u8);
    } else if n < 0x20_0000 {
        push_u8(out, (0x80 + n / 0x4000) as u8);
        push_u8(out, (0x80 + (n / 0x80) % 0x80) as u8);
        push_u8(out, (n % 0x80) as u8);
    } else {
        push_u8(out, (0x80 + n / 0x20_0000) as u8);
        push_u8(out, (0x80 + (n / 0x4000) % 0x80) as u8);
        push_u8(out, (0x80 + (n / 0x80) % 0x80) as u8);
        push_u8(out, (n % 0x80) as u8);
    }
    assert(out@ =~= old(out)@ + seq![tag] + size_bytes(n as nat)) by {
        reveal(size_bytes);
    }
    push_slice(out, payload.as_slice());
    assert(out@ =~= old(out)@ + desc_bytes(tag, payload@));
    Ok(())
}

/// Splits the descriptor at `pos`: its tag, where its payload starts and where it ends.
pub fn split_desc(buf: &[u8], pos: usize) -> (r: Result<(u8, usize, usize), Error>)
    requires
        pos <= buf@.len(),
    ensures
        r matches Err(e) ==> e.kind == ErrorKind::InvalidData,
        r is Ok <==> parse_desc(buf@.skip(pos as int)) is Some,
        r matches Ok((t, h, e)) ==> parse_desc(buf@.skip(pos as int)) == Some(
            (t, h - pos, e - pos),
        ) && pos <= h <= e <= buf@.len(),
{
    let ghost s = buf@.skip(pos as int);
    let ghost t = s.skip(1);
    if pos >= buf.len() {
        return Err(Error::invalid_data("descriptor is truncated"));
    }
    let tag = buf[pos];
    assert(s.skip(1) =~= t);
    let base = pos + 1;
    let avail = buf.len() - base;
    let mut size: usize = 0;
    let mut k: usize = 0;
    let mut done = false;
    while k < 4 && !done
        invariant
            avail == t.len(),
            base == pos + 1,
            base + avail == buf@.len(),
            buf@.len() <= usize::MAX,
            t == buf@.skip(pos + 1),
            s == buf@.skip(pos as int),
            s.skip(1) == t,
            pos < buf@.len(),
            k <= 4,
            k <= avail,
            size < pow128(k as nat),
            !done ==> forall|i: int| 0 <= i < k ==> #[trigger] t[i] >= 0x80,
            !done ==> size == acc_size(t, k as nat),
            done ==> k >= 1 && parse_size(t) == Some((size as nat, k as int)),
        decreases 4 - k + (if done { 0int } else { 1int }),
    {
        if k >= avail {
            proof {
                lemma_parse_size_short(t, k as nat);
            }
            return Err(Error::invalid_data("descriptor size is truncated"));
        }
        let b = buf[base + k];
        assert(b == t[k as int]);
        proof {
            lemma_acc_size_step(t, k as nat);
        }
        size = size * 0x80 + (b % 0x80) as usize;
        k = k + 1;
        if b < 0x80 {
            done = true;
            proof {
                lemma_parse_size_acc(t, k as nat);
            }
        }
    }
    if !done {
        proof {
            lemma_parse_size_none(t);
        }
        return Err(Error::invalid_data("descriptor size field is too long"));
    }
    if size > avail - k {
        return Err(Error::invalid_data("descriptor exceeds the available data"));
    }
    Ok((tag, base + k, base + k + size))
}

/// 128 to the power `k`.
pub open spec fn pow128(k: nat) -> nat
    decreases k,
{
    if k == 0 {
        1
    } else {
        128 * pow128((k - 1) as nat)
    }
}

/// The value of the low 7 bits of the first `k` bytes of `t`, most
/// significant first.
pub open spec fn acc_size(t: Seq<u8>, k: nat) -> nat
    decreases k,
{
    if k == 0 {
        0
    } else {
        acc_size(t, (k - 1) as nat) * 0x80 + (t[k - 1] % 0x80) as nat
    }
}

proof fn lemma_acc_size_step(t: Seq<u8>, k: nat)
    requires
        k < 4,
        acc_size(t, k) < pow128(k),
    ensures
        acc_size(t, k + 1) == acc_size(t, k) * 0x80 + (t[k as int] % 0x80) as nat,
        acc_size(t, k + 1) < pow128(k + 1),
        pow128(k + 1) <= 0x1000_0000,
{
    reveal_with_fuel(pow128, 5);
    assert(acc_size(t, k) * 0x80 + ((t[k as int] % 0x80) as nat) < pow128(k) * 0x80) by (nonlinear_arith)
        requires
            acc_size(t, k) < pow128(k),
            (t[k as int] % 0x80) < 0x80,
    ;
}

proof fn lemma_parse_size_acc(t: Seq<u8>, k: nat)
    requires
        1 <= k <= 4,
        k <= t.len(),
        forall|i: int| 0 <= i < k - 1 ==> #[trigger] t[i] >= 0x80,
        t[k - 1] < 0x80,
    ensures
        parse_size(t) == Some((acc_size(t, k), k as int)),
{
    reveal_with_fuel(acc_size, 5);
    reveal(parse_size);
    if k >= 2 {
        assert(t[0] >= 0x80);
    }
    if k >= 3 {
        assert(t[1] >= 0x80);
    }
    if k >= 4 {
        assert(t[2] >= 0x80);
    }
    assert(t[k - 1] % 0x80 == t[k - 1]);
}

proof fn lemma_parse_size_short(t: Seq<u8>, k: nat)
    requires
        k == t.len(),
        k < 4,
        forall|i: int| 0 <= i < k ==> #[trigger] t[i] >= 0x80,
    ensures
        parse_size(t) is None,
{
    reveal(parse_size);
    if k >= 1 {
        assert(t[0] >= 0x80);
    }
    if k >= 2 {
        assert(t[1] >= 0x80);
    }
    if k >= 3 {
        assert(t[2] >= 0x80);
    }
}

/// A size below 128 takes one byte.
pub proof fn lemma_size_bytes_small(n: nat)
    requires
        n < 0x80,
    ensures
        size_bytes(n) == seq![n as u8],
{
    reveal(size_bytes);
}

proof fn lemma_parse_size_none(t: Seq<u8>)
    requires
        t.len() >= 4,
        forall|i: int| 0 <= i < 4 ==> #[trigger] t[i] >= 0x80,
    ensures
        parse_size(t) is None,
{
    reveal(parse_size);
    assert(t[0] >= 0x80 && t[1] >= 0x80 && t[2] >= 0x80 && t[3] >= 0x80);
}

} // verus!
