//! MSB-first bit reading and writing over byte sequences.
//!
//! The model: bit `i` of a byte sequence is bit `7 - i % 8` of byte `i / 8`
//! ([`bit_at`]); an `n`-bit field read at bit position `p` has the value
//! [`bits_val`]; the bits that a writer emits for an `n`-bit field holding `v`
//! are [`bits_of`].
use vstd::prelude::*;

use crate::error::Error;

verus! {

/// Bit `i` (counted MSB first across the whole sequence) of `s`, as 0 or 1.
pub open spec fn bit_at(s: Seq<u8>, i: int) -> u8 {
    (s[i / 8] >> ((7 - i % 8) as u8)) & 1u8
}

/// Value of the `n` bits of `s` that start at bit position `p` (MSB first).
pub open spec fn bits_val(s: Seq<u8>, p: int, n: nat) -> nat
    decreases n,
{
    if n == 0 {
        0
    } else {
        2 * bits_val(s, p, (n - 1) as nat) + bit_at(s, p + n - 1) as nat
    }
}

/// Value of a sequence of 0/1 digits read MSB first.
pub open spec fn seq_val(b: Seq<u8>) -> nat
    decreases b.len(),
{
    if b.len() == 0 {
        0
    } else {
        2 * seq_val(b.drop_last()) + b.last() as nat
    }
}

/// The `n` low bits of `v`, MSB first, as 0/1 digits.
pub open spec fn bits_of(v: nat, n: nat) -> Seq<u8>
    decreases n,
{
    if n == 0 {
        Seq::empty()
    } else {
        bits_of(v / 2, (n - 1) as nat).push((v % 2) as u8)
    }
}

/// `2` to the power `n`.
pub open spec fn pow2(n: nat) -> nat
    decreases n,
{
    if n == 0 {
        1
    } else {
        2 * pow2((n - 1) as nat)
    }
}

/// Every element of `b` is 0 or 1.
pub open spec fn is_bit_seq(b: Seq<u8>) -> bool {
    forall|i: int| 0 <= i < b.len() ==> #[trigger] b[i] <= 1
}

/// The bits of `s` from position `p` on, `n` of them.
pub open spec fn bit_window(s: Seq<u8>, p: int, n: nat) -> Seq<u8> {
    Seq::new(n, |j: int| bit_at(s, p + j))
}

pub proof fn lemma_bit_le_1(x: u8, k: u8)
    ensures
        (x >> k) & 1u8 <= 1,
{
    assert((x >> k) & 1u8 <= 1) by (bit_vector);
}

pub proof fn lemma_bits_of_shape(v: nat, n: nat)
    ensures
        bits_of(v, n).len() == n,
        is_bit_seq(bits_of(v, n)),
    decreases n,
{
    if n > 0 {
        lemma_bits_of_shape(v / 2, (n - 1) as nat);
    }
}

pub proof fn lemma_pow2_pos(n: nat)
    ensures
        pow2(n) >= 1,
    decreases n,
{
    if n > 0 {
        lemma_pow2_pos((n - 1) as nat);
    }
}

/// Reading back the bits that encode `v` gives `v`, when `v` fits.
pub proof fn lemma_seq_val_bits_of(v: nat, n: nat)
    requires
        v < pow2(n),
    ensures
        seq_val(bits_of(v, n)) == v,
    decreases n,
{
    if n > 0 {
        lemma_bits_of_shape(v / 2, (n - 1) as nat);
        assert(v / 2 < pow2((n - 1) as nat));
        lemma_seq_val_bits_of(v / 2, (n - 1) as nat);
        let b = bits_of(v, n);
        assert(b.drop_last() =~= bits_of(v / 2, (n - 1) as nat));
    }
}

/// The value of a 0/1 sequence is below `2^len`.
pub proof fn lemma_seq_val_bound(b: Seq<u8>)
    requires
        is_bit_seq(b),
    ensures
        seq_val(b) < pow2(b.len()),
    decreases b.len(),
{
    if b.len() > 0 {
        assert(is_bit_seq(b.drop_last()));
        lemma_seq_val_bound(b.drop_last());
        assert(b.last() <= 1);
    }
}

/// A 0/1 sequence is determined by its length and value.
pub proof fn lemma_seq_val_bits_of_inverse(b: Seq<u8>)
    requires
        is_bit_seq(b),
    ensures
        bits_of(seq_val(b), b.len()) == b,
    decreases b.len(),
{
    if b.len() > 0 {
        let p = b.drop_last();
        assert(is_bit_seq(p));
        lemma_seq_val_bits_of_inverse(p);
        assert(b.last() <= 1);
        let v = seq_val(b);
        assert(v / 2 == seq_val(p));
        assert(v % 2 == b.last() as nat);
        assert(bits_of(v, b.len()) =~= p.push(b.last()));
        assert(p.push(b.last()) =~= b);
    }
}

/// [`bits_val`] is the value of the bit window.
pub proof fn lemma_bits_val_window(s: Seq<u8>, p: int, n: nat)
    ensures
        bits_val(s, p, n) == seq_val(bit_window(s, p, n)),
        is_bit_seq(bit_window(s, p, n)),
    decreases n,
{
    let w = bit_window(s, p, n);
    assert forall|j: int| 0 <= j < w.len() implies #[trigger] w[j] <= 1 by {
        lemma_bit_le_1(s[(p + j) / 8], (7 - (p + j) % 8) as u8);
    }
    if n > 0 {
        lemma_bits_val_window(s, p, (n - 1) as nat);
        assert(w.drop_last() =~= bit_window(s, p, (n - 1) as nat));
    }
}

/// If the bits of `s` in a window match `bits`, the field value read there is
/// the value of `bits`.
pub proof fn lemma_bits_val_of_matching(s: Seq<u8>, p: int, bits: Seq<u8>)
    requires
        forall|j: int| 0 <= j < bits.len() ==> bit_at(s, p + j) == #[trigger] bits[j],
    ensures
        bits_val(s, p, bits.len()) == seq_val(bits),
{
    lemma_bits_val_window(s, p, bits.len());
    assert(bit_window(s, p, bits.len()) =~= bits);
}

/// Reading an `n`-bit field equal to `v` pins down each of its bits.
pub proof fn lemma_bits_val_pins_bits(s: Seq<u8>, p: int, n: nat, v: nat)
    requires
        bits_val(s, p, n) == v,
    ensures
        forall|j: int| 0 <= j < n ==> bit_at(s, p + j) == #[trigger] bits_of(v, n)[j],
{
    lemma_bits_val_window(s, p, n);
    lemma_seq_val_bits_of_inverse(bit_window(s, p, n));
    assert forall|j: int| 0 <= j < n implies bit_at(s, p + j) == #[trigger] bits_of(v, n)[j] by {
        assert(bit_window(s, p, n)[j] == bit_at(s, p + j));
    }
}

/// Bytes are equal when all their bits are.
pub proof fn lemma_byte_eq_from_bits(x: u8, y: u8)
    requires
        forall|k: u8| k < 8 ==> #[trigger] ((x >> k) & 1u8) == ((y >> k) & 1u8),
    ensures
        x == y,
{
    let b0 = (x >> 0u8) & 1u8 == (y >> 0u8) & 1u8;
    let b1 = (x >> 1u8) & 1u8 == (y >> 1u8) & 1u8;
    let b2 = (x >> 2u8) & 1u8 == (y >> 2u8) & 1u8;
    let b3 = (x >> 3u8) & 1u8 == (y >> 3u8) & 1u8;
    let b4 = (x >> 4u8) & 1u8 == (y >> 4u8) & 1u8;
    let b5 = (x >> 5u8) & 1u8 == (y >> 5u8) & 1u8;
    let b6 = (x >> 6u8) & 1u8 == (y >> 6u8) & 1u8;
    let b7 = (x >> 7u8) & 1u8 == (y >> 7u8) & 1u8;
    assert(b0 && b1 && b2 && b3 && b4 && b5 && b6 && b7);
    assert(((x >> 0u8) & 1u8 == (y >> 0u8) & 1u8) && ((x >> 1u8) & 1u8 == (y >> 1u8) & 1u8) && ((x
        >> 2u8) & 1u8 == (y >> 2u8) & 1u8) && ((x >> 3u8) & 1u8 == (y >> 3u8) & 1u8) && ((x >> 4u8)
        & 1u8 == (y >> 4u8) & 1u8) && ((x >> 5u8) & 1u8 == (y >> 5u8) & 1u8) && ((x >> 6u8) & 1u8
        == (y >> 6u8) & 1u8) && ((x >> 7u8) & 1u8 == (y >> 7u8) & 1u8) ==> x == y) by (bit_vector);
}

/// Two byte sequences of the same length with the same bits are equal.
pub proof fn lemma_seq_eq_from_bits(a: Seq<u8>, b: Seq<u8>)
    requires
        a.len() == b.len(),
        forall|i: int| 0 <= i < a.len() * 8 ==> #[trigger] bit_at(a, i) == bit_at(b, i),
    ensures
        a == b,
{
    assert forall|m: int| 0 <= m < a.len() implies a[m] == b[m] by {
        assert forall|k: u8| k < 8 implies #[trigger] ((a[m] >> k) & 1u8) == ((b[m] >> k) & 1u8) by {
            let i = m * 8 + (7 - k);
            assert(i / 8 == m);
            assert(i % 8 == 7 - k);
            assert(bit_at(a, i) == bit_at(b, i));
        }
        lemma_byte_eq_from_bits(a[m], b[m]);
    }
    assert(a =~= b);
}

/// `bytes` holds exactly `bits`, MSB first, with the last byte zero padded.
pub open spec fn packs(bytes: Seq<u8>, bits: Seq<u8>) -> bool {
    &&& bytes.len() == (bits.len() + 7) / 8
    &&& forall|i: int| 0 <= i < bits.len() ==> #[trigger] bit_at(bytes, i) == bits[i]
    &&& forall|i: int| bits.len() <= i < bytes.len() * 8 ==> #[trigger] bit_at(bytes, i) == 0
}

/// A bit string has a single packing into bytes.
pub proof fn lemma_packs_unique(a: Seq<u8>, b: Seq<u8>, bits: Seq<u8>)
    requires
        packs(a, bits),
        packs(b, bits),
    ensures
        a == b,
{
    assert forall|i: int| 0 <= i < a.len() * 8 implies #[trigger] bit_at(a, i) == bit_at(b, i) by {
        if i < bits.len() {
        } else {
        }
    }
    lemma_seq_eq_from_bits(a, b);
}

/// MSB-first bit reader over a byte slice.
pub struct BitReader<'a> {
    input: &'a [u8],
    byte_pos: usize,
    bit_pos: u8,
}

impl<'a> BitReader<'a> {
    /// The bytes being read.
    pub closed spec fn data(&self) -> Seq<u8> {
        self.input@
    }

    /// Number of bits read so far.
    pub closed spec fn pos(&self) -> int {
        self.byte_pos * 8 + self.bit_pos
    }

    pub closed spec fn wf(&self) -> bool {
        &&& self.bit_pos < 8
        &&& self.byte_pos <= self.input@.len()
        &&& self.byte_pos == self.input@.len() ==> self.bit_pos == 0
    }

    pub proof fn lemma_pos_bound(&self)
        requires
            self.wf(),
        ensures
            0 <= self.pos() <= self.data().len() * 8,
    {
    }

    pub fn new(input: &'a [u8]) -> (r: Self)
        ensures
            r.wf(),
            r.data() == input@,
            r.pos() == 0,
    {
        BitReader { input, byte_pos: 0, bit_pos: 0 }
    }

    /// Reads one bit; fails when the input is exhausted.
    pub fn read_bit(&mut self) -> (r: Result<u8, Error>)
        requires
            old(self).wf(),
        ensures
            final(self).wf(),
            final(self).data() == old(self).data(),
            r is Ok <==> old(self).pos() < old(self).data().len() * 8,
            r matches Ok(b) ==> b == bit_at(old(self).data(), old(self).pos()) && b <= 1
                && final(self).pos() == old(self).pos() + 1,
            r is Err ==> final(self).pos() == old(self).pos() && r->Err_0.kind
                == crate::error::ErrorKind::InvalidInput,
    {
        if self.byte_pos >= self.input.len() {
            return Err(Error::invalid_input("bit input truncated"));
        }
        let byte = self.input[self.byte_pos];
        let bit = (byte >> (7 - self.bit_pos)) & 1;
        proof {
            let p = self.byte_pos * 8 + self.bit_pos;
            assert(p / 8 == self.byte_pos);
            assert(p % 8 == self.bit_pos);
            lemma_bit_le_1(byte, (7 - self.bit_pos) as u8);
        }
        self.bit_pos = self.bit_pos + 1;
        if self.bit_pos == 8 {
            self.bit_pos = 0;
            self.byte_pos = self.byte_pos + 1;
        }
        Ok(bit)
    }

    /// Reads an `n`-bit field (MSB first); fails when the input is exhausted.
    pub fn read_bits(&mut self, n: u32) -> (r: Result<u32, Error>)
        requires
            old(self).wf(),
            n <= 32,
        ensures
            final(self).wf(),
            final(self).data() == old(self).data(),
            r is Ok <==> old(self).pos() + n <= old(self).data().len() * 8,
            r matches Ok(v) ==> v == bits_val(old(self).data(), old(self).pos(), n as nat)
                && v < pow2(n as nat) && final(self).pos() == old(self).pos() + n,
            r is Err ==> r->Err_0.kind == crate::error::ErrorKind::InvalidInput,
    {
        let ghost p0 = self.pos();
        let mut value: u32 = 0;
        let mut i: u32 = 0;
        while i < n
            invariant
                self.wf(),
                self.data() == old(self).data(),
                p0 == old(self).pos(),
                i <= n <= 32,
                self.pos() == p0 + i,
                p0 + i <= self.data().len() * 8,
                value == bits_val(self.data(), p0, i as nat),
                value < pow2(i as nat),
            decreases n - i,
        {
            let b = self.read_bit();
            match b {
                Ok(bit) => {
                    proof {
                        assert(pow2((i + 1) as nat) == 2 * pow2(i as nat));
                        assert(i < 32);
                        lemma_pow2_32();
                        lemma_pow2_mono((i + 1) as nat, 32);
                    }
                    value = value * 2 + bit as u32;
                    i = i + 1;
                },
                Err(e) => {
                    return Err(e);
                },
            }
        }
        Ok(value)
    }

    /// True when every bit of the input has been read.
    pub fn is_at_end(&self) -> (r: bool)
        requires
            self.wf(),
        ensures
            r <==> self.pos() == self.data().len() * 8,
    {
        self.byte_pos >= self.input.len() && self.bit_pos == 0
    }
}

pub proof fn lemma_pow2_32()
    ensures
        pow2(32) == 0x1_0000_0000,
{
    reveal_with_fuel(pow2, 33);
}

pub proof fn lemma_pow2_mono(a: nat, b: nat)
    requires
        a <= b,
    ensures
        pow2(a) <= pow2(b),
    decreases b,
{
    if a < b {
        lemma_pow2_mono(a, (b - 1) as nat);
        lemma_pow2_pos((b - 1) as nat);
    }
}

/// MSB-first bit writer that produces a byte vector, zero-padding the last byte.
pub struct BitWriter {
    bytes: Vec<u8>,
    bit_pos: u8,
    bits: Ghost<Seq<u8>>,
}

proof fn lemma_set_bit(x: u8, k: u8, b: u8, j: u8)
    requires
        k < 8,
        j < 8,
        b <= 1,
        (x >> ((7 - k) as u8)) & 1u8 == 0,
    ensures
        ((x | (b << ((7 - k) as u8))) >> ((7 - j) as u8)) & 1u8 == if j == k {
            b
        } else {
            (x >> ((7 - j) as u8)) & 1u8
        },
{
    assert(((x | (b << ((7 - k) as u8))) >> ((7 - j) as u8)) & 1u8 == if j == k {
        b
    } else {
        (x >> ((7 - j) as u8)) & 1u8
    }) by (bit_vector)
        requires
            k < 8,
            j < 8,
            b <= 1,
            (x >> ((7 - k) as u8)) & 1u8 == 0,
    ;
}

proof fn lemma_zero_bits(j: u8)
    requires
        j < 8,
    ensures
        (0u8 >> ((7 - j) as u8)) & 1u8 == 0,
{
    assert((0u8 >> ((7 - j) as u8)) & 1u8 == 0) by (bit_vector);
}

impl BitWriter {
    /// The bits written so far, as 0/1 digits.
    pub closed spec fn written(&self) -> Seq<u8> {
        self.bits@
    }

    /// The bytes produced so far.
    pub closed spec fn out(&self) -> Seq<u8> {
        self.bytes@
    }

    pub closed spec fn wf(&self) -> bool {
        &&& self.bit_pos < 8
        &&& self.bit_pos == self.bits@.len() % 8
        &&& self.bytes@.len() == (self.bits@.len() + 7) / 8
        &&& is_bit_seq(self.bits@)
        &&& forall|i: int| 0 <= i < self.bits@.len() ==> #[trigger] bit_at(self.bytes@, i) == self.bits@[i]
        &&& forall|i: int|
            self.bits@.len() <= i < self.bytes@.len() * 8 ==> #[trigger] bit_at(self.bytes@, i) == 0
    }

    /// The bytes of a well-formed writer carry exactly its bits, zero padded.
    pub proof fn lemma_out(&self)
        requires
            self.wf(),
        ensures
            self.out().len() == (self.written().len() + 7) / 8,
            forall|i: int|
                0 <= i < self.written().len() ==> #[trigger] bit_at(self.out(), i)
                    == self.written()[i],
    {
    }

    pub fn new() -> (w: Self)
        ensures
            w.wf(),
            w.written() == Seq::<u8>::empty(),
    {
        BitWriter { bytes: Vec::new(), bit_pos: 0, bits: Ghost(Seq::empty()) }
    }

    /// Appends one bit.
    pub fn push_bit(&mut self, bit: u8)
        requires
            old(self).wf(),
            bit <= 1,
            old(self).written().len() + 1 <= usize::MAX,
        ensures
            final(self).wf(),
            final(self).written() == old(self).written().push(bit),
    {
        let ghost old_bits = self.bits@;
        let ghost old_bytes = self.bytes@;
        let ghost n = old_bits.len() as int;
        let ghost k = self.bit_pos;
        if self.bit_pos == 0 {
            self.bytes.push(0);
        }
        let ghost mid_bytes = self.bytes@;
        let last = self.bytes.len() - 1;
        proof {
            assert(n == last * 8 + k);
            assert(n / 8 == last);
            assert(n % 8 == k);
            if k == 0 {
                assert(mid_bytes[last as int] == 0);
                lemma_zero_bits(0);
            } else {
                assert(mid_bytes == old_bytes);
                assert(n < old_bytes.len() * 8);
                assert(bit_at(old_bytes, n) == 0);
            }
            assert(bit_at(mid_bytes, n) == 0);
        }
        let old_byte = self.bytes[last];
        let new_byte = old_byte | (bit << (7 - self.bit_pos));
        self.bytes.set(last, new_byte);
        self.bit_pos = (self.bit_pos + 1) % 8;
        self.bits = Ghost(old_bits.push(bit));
        proof {
            let nb = self.bytes@;
            assert(nb.len() == last + 1);
            assert forall|i: int| 0 <= i < nb.len() * 8 implies #[trigger] bit_at(nb, i) == if i
                < n {
                old_bits[i]
            } else if i == n {
                bit
            } else {
                0u8
            } by {
                let m = i / 8;
                let j = (i % 8) as u8;
                assert(i == m * 8 + j);
                if m == last {
                    lemma_set_bit(old_byte, k, bit, j);
                    assert(nb[m] == new_byte);
                    if j < k {
                        assert(i < n);
                        assert(mid_bytes == old_bytes);
                        assert(bit_at(mid_bytes, i) == (old_byte >> ((7 - j) as u8)) & 1u8);
                    } else if j > k {
                        assert(i > n);
                        if k == 0 {
                            assert(old_byte == 0);
                            lemma_zero_bits(j);
                        } else {
                            assert(mid_bytes == old_bytes);
                            assert(i < old_bytes.len() * 8);
                            assert(bit_at(old_bytes, i) == 0);
                            assert(bit_at(mid_bytes, i) == (old_byte >> ((7 - j) as u8)) & 1u8);
                        }
                    } else {
                        assert(i == n);
                    }
                } else {
                    assert(m < last);
                    assert(nb[m] == mid_bytes[m]);
                    assert(mid_bytes[m] == old_bytes[m]);
                    assert(i < n);
                    assert(bit_at(nb, i) == bit_at(old_bytes, i));
                }
            }
            let nbits = old_bits.push(bit);
            assert forall|i: int| 0 <= i < nbits.len() implies #[trigger] bit_at(nb, i)
                == nbits[i] by {
                assert(i < nb.len() * 8);
            }
            assert forall|i: int| nbits.len() <= i < nb.len() * 8 implies #[trigger] bit_at(
                nb,
                i,
            ) == 0 by {}
            assert(is_bit_seq(nbits));
        }
    }

    /// Appends the `n` low bits of `v`, MSB first.
    pub fn push_bits(&mut self, v: u32, n: u32)
        requires
            old(self).wf(),
            n <= 32,
            old(self).written().len() + n <= usize::MAX,
        ensures
            final(self).wf(),
            final(self).written() == old(self).written() + bits_of(v as nat, n as nat),
        decreases n,
    {
        if n == 0 {
            assert(old(self).written() + bits_of(v as nat, 0) =~= old(self).written());
        } else {
            self.push_bits(v / 2, n - 1);
            proof {
                lemma_bits_of_shape((v / 2) as nat, (n - 1) as nat);
            }
            self.push_bit((v % 2) as u8);
            assert(old(self).written() + bits_of(v as nat, n as nat) =~= old(self).written()
                + bits_of((v / 2) as nat, (n - 1) as nat) + seq![(v % 2) as u8]);
        }
    }

    /// The bytes written, the last one zero padded.
    pub fn into_bytes(self) -> (r: Vec<u8>)
        requires
            self.wf(),
        ensures
            r@ == self.out(),
            packs(r@, self.written()),
    {
        self.bytes
    }
}

} // verus!
