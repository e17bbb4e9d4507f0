//! Bit-level serialiser: values are packed least-significant-bit first and
//! drained as whole bytes, with a persistent bit cursor so a session can
//! resume mid-byte across driver calls.

use vstd::prelude::*;

verus! {

/// The `n` low bits of `v`, least significant first.
pub open spec fn bits_of(v: u64, n: nat) -> Seq<bool> {
    Seq::new(n, |i: int| (v >> i as u64) & 1 == 1)
}

/// `n` zero bits.
pub open spec fn zero_bits(n: nat) -> Seq<bool> {
    Seq::new(n, |i: int| false)
}

pub open spec fn bit_weight(b: bool, w: u8) -> u8 {
    if b { w } else { 0 }
}

/// The byte formed by bits `8*i .. 8*i + 8` of `s`, least significant first.
pub open spec fn byte_at(s: Seq<bool>, i: int) -> u8
    recommends 0 <= i, 8 * i + 8 <= s.len(),
{
    (bit_weight(s[8 * i + 0], 1) + bit_weight(s[8 * i + 1], 2) + bit_weight(s[8 * i + 2], 4)
        + bit_weight(s[8 * i + 3], 8) + bit_weight(s[8 * i + 4], 16) + bit_weight(
        s[8 * i + 5],
        32,
    ) + bit_weight(s[8 * i + 6], 64) + bit_weight(s[8 * i + 7], 128)) as u8
}

/// All whole bytes of a bit sequence, in order; trailing bits are dropped.
pub open spec fn packed(s: Seq<bool>) -> Seq<u8> {
    Seq::new(s.len() / 8, |i: int| byte_at(s, i))
}

/// Appending bits keeps what was already written as a prefix.
pub proof fn lemma_prefix_append(a: Seq<bool>, t: Seq<bool>)
    ensures
        a.is_prefix_of(a + t),
{
    assert(a =~= (a + t).subrange(0, a.len() as int));
}

pub proof fn lemma_prefix_refl(a: Seq<bool>)
    ensures
        a.is_prefix_of(a),
{
    assert(a =~= a.subrange(0, a.len() as int));
}

pub proof fn lemma_prefix_trans(a: Seq<bool>, b: Seq<bool>, c: Seq<bool>)
    requires
        a.is_prefix_of(b),
        b.is_prefix_of(c),
    ensures
        a.is_prefix_of(c),
{
    assert forall|i: int| 0 <= i < a.len() implies a[i] == c[i] by {
        assert(a[i] == b.subrange(0, a.len() as int)[i]);
        assert(b[i] == c.subrange(0, b.len() as int)[i]);
    }
    assert(a =~= c.subrange(0, a.len() as int));
}

/// A growing sequence of bits, drained in whole bytes from the front.
pub struct BitWriter {
    bits: Vec<bool>,
}

impl View for BitWriter {
    type V = Seq<bool>;

    closed spec fn view(&self) -> Seq<bool> {
        self.bits@
    }
}

impl BitWriter {
    pub fn new() -> (w: BitWriter)
        ensures
            w@ == Seq::<bool>::empty(),
    {
        BitWriter { bits: Vec::new() }
    }

    pub fn bit_len(&self) -> (n: usize)
        ensures
            n == self@.len(),
    {
        self.bits.len()
    }

    /// Append the `n` low bits of `v`, least significant first.
    pub fn write_bits(&mut self, v: u64, n: usize)
        requires
            n <= 64,
        ensures
            final(self)@ == old(self)@ + bits_of(v, n as nat),
    {
        let mut i: usize = 0;
        proof {
            assert(self@ =~= old(self)@ + bits_of(v, 0));
        }
        while i < n
            invariant
                i <= n,
                n <= 64,
                self@ == old(self)@ + bits_of(v, i as nat),
            decreases n - i,
        {
            let b: bool = ((v >> (i as u64)) & 1) == 1;
            proof {
                assert(bits_of(v, (i + 1) as nat) =~= bits_of(v, i as nat).push(b));
            }
            self.bits.push(b);
            i = i + 1;
        }
    }

    /// Pad with zero bits up to the next byte boundary.
    pub fn align_to_byte(&mut self)
        ensures
            final(self)@ == old(self)@ + zero_bits(((8 - old(self)@.len() % 8) % 8) as nat),
            final(self)@.len() % 8 == 0,
    {
        proof {
            assert(self@ =~= old(self)@ + zero_bits(0));
        }
        while self.bits.len() % 8 != 0
            invariant
                self@ == old(self)@ + zero_bits((self@.len() - old(self)@.len()) as nat),
                self@.len() <= old(self)@.len() + ((8 - old(self)@.len() % 8) % 8),
            decreases (8 - self.bits.len() % 8) % 8,
        {
            proof {
                let k = (self@.len() - old(self)@.len()) as nat;
                assert(zero_bits(k + 1) =~= zero_bits(k).push(false));
            }
            self.bits.push(false);
        }
        proof {
            assert(self@ =~= old(self)@ + zero_bits(((8 - old(self)@.len() % 8) % 8) as nat));
        }
    }

    /// Append every bit of another writer (a serialised candidate block).
    pub fn append(&mut self, other: &BitWriter)
        ensures
            final(self)@ == old(self)@ + other@,
    {
        let mut i: usize = 0;
        proof {
            assert(self@ =~= old(self)@ + other@.take(0));
        }
        while i < other.bits.len()
            invariant
                i <= other@.len(),
                self@ == old(self)@ + other@.take(i as int),
            decreases other@.len() - i,
        {
            proof {
                assert(other@.take(i + 1) =~= other@.take(i as int).push(other@[i as int]));
            }
            self.bits.push(other.bits[i]);
            i = i + 1;
        }
        proof {
            assert(other@.take(other@.len() as int) =~= other@);
        }
    }

    /// Remove and return every whole byte written so far; bits past the last
    /// byte boundary stay behind for the next call.
    pub fn extract_bytes(&mut self) -> (out: Vec<u8>)
        ensures
            out@ == packed(old(self)@),
            final(self)@ == old(self)@.skip(8 * (old(self)@.len() / 8) as int),
    {
        let total: usize = self.bits.len();
        let nbytes: usize = total / 8;
        let mut out: Vec<u8> = Vec::new();
        proof {
            assert(out@ =~= packed(self@).take(0));
        }
        let mut i: usize = 0;
        while i < nbytes
            invariant
                i <= nbytes,
                nbytes == self@.len() / 8,
                total == self@.len(),
                self@ == old(self)@,
                out@ == packed(self@).take(i as int),
            decreases nbytes - i,
        {
            let base: usize = 8 * i;
            let mut b: u8 = 0;
            if self.bits[base] {
                b = b + 1;
            }
            if self.bits[base + 1] {
                b = b + 2;
            }
            if self.bits[base + 2] {
                b = b + 4;
            }
            if self.bits[base + 3] {
                b = b + 8;
            }
            if self.bits[base + 4] {
                b = b + 16;
            }
            if self.bits[base + 5] {
                b = b + 32;
            }
            if self.bits[base + 6] {
                b = b + 64;
            }
            if self.bits[base + 7] {
                b = b + 128;
            }
            proof {
                assert(b == byte_at(self@, i as int));
                assert(packed(self@).take(i + 1) =~= packed(self@).take(i as int).push(
                    byte_at(self@, i as int),
                ));
            }
            out.push(b);
            i = i + 1;
        }
        let mut rest: Vec<bool> = Vec::new();
        let mut j: usize = 8 * nbytes;
        proof {
            assert(rest@ =~= self@.subrange(8 * (self@.len() / 8) as int, 8 * (self@.len() / 8) as int));
        }
        while j < total
            invariant
                8 * nbytes <= j <= total,
                nbytes == self@.len() / 8,
                total == self@.len(),
                self@ == old(self)@,
                rest@ == self@.subrange(8 * nbytes as int, j as int),
            decreases total - j,
        {
            proof {
                assert(self@.subrange(8 * nbytes as int, j + 1) =~= self@.subrange(
                    8 * nbytes as int,
                    j as int,
                ).push(self@[j as int]));
            }
            rest.push(self.bits[j]);
            j = j + 1;
        }
        proof {
            assert(out@ =~= packed(old(self)@));
            assert(rest@ =~= old(self)@.skip(8 * (old(self)@.len() / 8) as int));
        }
        self.bits = rest;
        out
    }
}

} // verus!
