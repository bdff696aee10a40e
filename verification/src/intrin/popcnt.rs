//! Counting the set and the clear bits of a packed vector.
use crate::vecs::{LaneCount, Lanes, Packable, Packed, SupportedLanes};
use vstd::arithmetic::div_mod::{lemma_fundamental_div_mod, lemma_fundamental_div_mod_converse};
use vstd::prelude::*;

verus! {

/// Bit `k` of `b`, as 0 or 1.
pub open spec fn bit(b: u8, k: u8) -> nat {
    ((b >> k) & 1) as nat
}

/// The number of set bits of a byte.
pub open spec fn byte_ones(b: u8) -> nat {
    bit(b, 0) + bit(b, 1) + bit(b, 2) + bit(b, 3) + bit(b, 4) + bit(b, 5) + bit(b, 6) + bit(b, 7)
}

/// The number of set bits of a sequence of bytes.
pub open spec fn bytes_ones(s: Seq<u8>) -> nat
    decreases s.len(),
{
    if s.len() == 0 {
        0
    } else {
        bytes_ones(s.drop_last()) + byte_ones(s.last())
    }
}

/// The lanes taken as bytes: lane after lane, each most significant byte
/// first.
pub open spec fn be_u8s<S: Packable>(lanes: Seq<S>) -> Seq<u8> {
    Seq::new(
        lanes.len() * S::SIZE as nat,
        |k: int| lanes[k / S::SIZE as int].be_bytes()[k % S::SIZE as int],
    )
}

/// The number of bits of the lanes.
pub open spec fn total_bits<S: Packable>(lanes: Seq<S>) -> nat {
    lanes.len() * S::SIZE as nat * 8
}

/// The number of set bits of the lanes.
pub open spec fn ones<S: Packable>(lanes: Seq<S>) -> nat {
    bytes_ones(be_u8s(lanes))
}

/// The number of clear bits of the lanes.
pub open spec fn zeroes<S: Packable>(lanes: Seq<S>) -> nat {
    (total_bits(lanes) - ones(lanes)) as nat
}

/// A byte has at most eight set bits.
pub proof fn lemma_byte_ones_bound(b: u8)
    ensures
        byte_ones(b) <= 8,
{
    assert(forall|k: u8| #![auto] (b >> k) & 1 <= 1) by (bit_vector);
}

/// Bytes have at most eight set bits each.
pub proof fn lemma_bytes_ones_bound(s: Seq<u8>)
    ensures
        bytes_ones(s) <= 8 * s.len(),
    decreases s.len(),
{
    if s.len() > 0 {
        lemma_bytes_ones_bound(s.drop_last());
        lemma_byte_ones_bound(s.last());
    }
}

/// Every bit of the lanes is either set or clear: the two counts add up to
/// the number of bits.
pub proof fn lemma_ones_and_zeroes<S: Packable>(lanes: Seq<S>)
    ensures
        ones(lanes) + zeroes(lanes) == total_bits(lanes),
        ones(lanes) <= total_bits(lanes),
{
    lemma_bytes_ones_bound(be_u8s(lanes));
    assert(8 * (lanes.len() * S::SIZE as nat) == lanes.len() * S::SIZE as nat * 8);
}

/// The number of set bits of one scalar.
pub open spec fn scalar_ones<S: Packable>(x: S) -> nat {
    bytes_ones(x.be_bytes())
}

/// The set bits of two runs of bytes in a row are those of both together.
pub proof fn lemma_bytes_ones_concat(s: Seq<u8>, t: Seq<u8>)
    ensures
        bytes_ones(s + t) == bytes_ones(s) + bytes_ones(t),
    decreases t.len(),
{
    if t.len() == 0 {
        assert(s + t =~= s);
    } else {
        assert((s + t).drop_last() =~= s + t.drop_last());
        lemma_bytes_ones_concat(s, t.drop_last());
    }
}

/// One more lane adds its bytes behind those of the others.
pub proof fn lemma_be_u8s_push<S: Packable>(lanes: Seq<S>, x: S)
    ensures
        be_u8s(lanes.push(x)) == be_u8s(lanes) + x.be_bytes(),
{
    S::lemma_size();
    x.lemma_be_bytes();
    let n = lanes.len() as int;
    let size = S::SIZE as int;
    assert((n + 1) * size == n * size + size) by (nonlinear_arith);
    assert(n * size >= 0) by (nonlinear_arith)
        requires
            n >= 0,
            size > 0,
    ;
    let all = be_u8s(lanes.push(x));
    let split = be_u8s(lanes) + x.be_bytes();
    assert forall|k: int| 0 <= k < all.len() implies all[k] == split[k] by {
        if k < n * size {
            lemma_fundamental_div_mod(k, size);
            assert(k / size < n) by (nonlinear_arith)
                requires
                    k == size * (k / size) + k % size,
                    0 <= k % size,
                    k < n * size,
                    size > 0,
            ;
            assert(0 <= k / size) by (nonlinear_arith)
                requires
                    0 <= k,
                    size > 0,
            ;
        } else {
            lemma_fundamental_div_mod_converse(k, size, n, k - n * size);
        }
    }
    assert(all =~= split);
}

/// The set bits of a vector are those of its lanes together.
pub proof fn lemma_ones_push<S: Packable>(lanes: Seq<S>, x: S)
    ensures
        ones(lanes.push(x)) == ones(lanes) + scalar_ones(x),
{
    lemma_be_u8s_push(lanes, x);
    lemma_bytes_ones_concat(be_u8s(lanes), x.be_bytes());
}

/// Lanes with `c` set bits each have `c` set bits per lane together.
pub proof fn lemma_ones_uniform<S: Packable>(lanes: Seq<S>, c: nat)
    requires
        forall|i: int| 0 <= i < lanes.len() ==> scalar_ones(#[trigger] lanes[i]) == c,
    ensures
        ones(lanes) == lanes.len() * c,
    decreases lanes.len(),
{
    if lanes.len() == 0 {
        assert(0 * S::SIZE as nat == 0) by (nonlinear_arith);
        assert(be_u8s(lanes) =~= Seq::<u8>::empty());
        assert(0 * c == 0) by (nonlinear_arith);
    } else {
        let front = lanes.drop_last();
        lemma_ones_uniform(front, c);
        assert(lanes =~= front.push(lanes.last()));
        lemma_ones_push(front, lanes.last());
        assert((front.len() + 1) * c == front.len() * c + c) by (nonlinear_arith);
    }
}

/// All bits set. Where every bit of every lane is set, the count of set bits
/// is the number of bits, and no bit is clear.
pub proof fn lemma_all_ones<S: Packable>(lanes: Seq<S>)
    requires
        forall|i: int| 0 <= i < lanes.len() ==> scalar_ones(#[trigger] lanes[i]) == 8 * S::SIZE,
    ensures
        ones(lanes) == total_bits(lanes),
        zeroes(lanes) == 0,
{
    lemma_ones_uniform(lanes, 8 * S::SIZE as nat);
    assert(lanes.len() * (8 * S::SIZE as nat) == lanes.len() * S::SIZE as nat * 8)
        by (nonlinear_arith);
}

/// One bit per lane. Where one bit of every lane is set, the count of set
/// bits is the number of lanes, and all other bits are clear.
pub proof fn lemma_unit_lanes<S: Packable>(lanes: Seq<S>)
    requires
        forall|i: int| 0 <= i < lanes.len() ==> scalar_ones(#[trigger] lanes[i]) == 1,
    ensures
        ones(lanes) == lanes.len(),
        zeroes(lanes) == total_bits(lanes) - lanes.len(),
{
    lemma_ones_uniform(lanes, 1);
    lemma_ones_and_zeroes(lanes);
    assert(lanes.len() * 1 == lanes.len()) by (nonlinear_arith);
}

/// The scalar 1 has one set bit, and the greatest scalar has all bits set.
pub proof fn lemma_scalar_ones_of_one_and_max()
    ensures
        scalar_ones(1u8) == 1,
        scalar_ones(1u16) == 1,
        scalar_ones(1u32) == 1,
        scalar_ones(1u64) == 1,
        scalar_ones(u8::MAX) == 8,
        scalar_ones(u16::MAX) == 16,
        scalar_ones(u32::MAX) == 32,
        scalar_ones(u64::MAX) == 64,
{
    reveal_with_fuel(bytes_ones, 9);
    assert(byte_ones(0) == 0 && byte_ones(1) == 1 && byte_ones(0xff) == 8) by {
        assert(forall|k: u8| #![auto] k < 8 ==> (0u8 >> k) & 1 == 0) by (bit_vector);
        assert(forall|k: u8| #![auto] 0 < k < 8 ==> (1u8 >> k) & 1 == 0) by (bit_vector);
        assert((1u8 >> 0u8) & 1 == 1) by (bit_vector);
        assert(forall|k: u8| #![auto] k < 8 ==> (0xffu8 >> k) & 1 == 1) by (bit_vector);
    }
    assert(1u8.be_bytes() =~= seq![1u8]);
    assert(u8::MAX.be_bytes() =~= seq![0xffu8]);
    assert(1u16.be_bytes() =~= seq![0u8, 1u8]) by {
        assert((1u16 >> 8) as u8 == 0 && 1u16 as u8 == 1) by (bit_vector);
    }
    assert(u16::MAX.be_bytes() =~= seq![0xffu8, 0xffu8]) by {
        assert((0xffffu16 >> 8) as u8 == 0xff && 0xffffu16 as u8 == 0xff) by (bit_vector);
    }
    assert(1u32.be_bytes() =~= seq![0u8, 0u8, 0u8, 1u8]) by {
        assert((1u32 >> 24) as u8 == 0 && (1u32 >> 16) as u8 == 0 && (1u32 >> 8) as u8 == 0 && 1u32 as u8 == 1)
            by (bit_vector);
    }
    assert(u32::MAX.be_bytes() =~= seq![0xffu8, 0xffu8, 0xffu8, 0xffu8]) by {
        assert((0xffff_ffffu32 >> 24) as u8 == 0xff && (0xffff_ffffu32 >> 16) as u8 == 0xff && (
        0xffff_ffffu32 >> 8) as u8 == 0xff && 0xffff_ffffu32 as u8 == 0xff) by (bit_vector);
    }
    assert(1u64.be_bytes() =~= seq![0u8, 0u8, 0u8, 0u8, 0u8, 0u8, 0u8, 1u8]) by {
        assert((1u64 >> 56) as u8 == 0 && (1u64 >> 48) as u8 == 0 && (1u64 >> 40) as u8 == 0 && (1u64
            >> 32) as u8 == 0 && (1u64 >> 24) as u8 == 0 && (1u64 >> 16) as u8 == 0 && (1u64 >> 8) as u8
            == 0 && 1u64 as u8 == 1) by (bit_vector);
    }
    assert(u64::MAX.be_bytes() =~= seq![
        0xffu8,
        0xffu8,
        0xffu8,
        0xffu8,
        0xffu8,
        0xffu8,
        0xffu8,
        0xffu8,
    ]) by {
        let m = u64::MAX;
        assert((m >> 56) as u8 == 0xff && (m >> 48) as u8 == 0xff && (m >> 40) as u8 == 0xff && (m
            >> 32) as u8 == 0xff && (m >> 24) as u8 == 0xff && (m >> 16) as u8 == 0xff && (m >> 8) as u8
            == 0xff && m as u8 == 0xff) by (bit_vector)
            requires
                m == 0xffff_ffff_ffff_ffffu64,
        ;
    }
}

/// The number of set bits of `b`.
pub fn byte_count_ones(b: u8) -> (n: usize)
    ensures
        n == byte_ones(b),
        n <= 8,
{
    assert(((b >> 1u8) & 0x55) <= b) by (bit_vector);
    let pairs = b - ((b >> 1) & 0x55);
    assert((pairs & 0x33) + ((pairs >> 2u8) & 0x33) <= 0xff) by (bit_vector);
    let nibbles = (pairs & 0x33) + ((pairs >> 2) & 0x33);
    assert(nibbles + (nibbles >> 4u8) <= 0xff) by (bit_vector)
        requires
            nibbles == (pairs & 0x33) + ((pairs >> 2u8) & 0x33),
    ;
    let n = (nibbles + (nibbles >> 4)) & 0x0f;
    assert(n == (b & 1) + ((b >> 1u8) & 1) + ((b >> 2u8) & 1) + ((b >> 3u8) & 1) + ((b >> 4u8) & 1)
        + ((b >> 5u8) & 1) + ((b >> 6u8) & 1) + ((b >> 7u8) & 1) && n <= 8 && (b >> 0u8) == b)
        by (bit_vector)
        requires
            pairs == b - ((b >> 1u8) & 0x55),
            nibbles == (pairs & 0x33) + ((pairs >> 2u8) & 0x33),
            n == ((nibbles + (nibbles >> 4u8)) as u8) & 0x0f,
    ;
    n as usize
}

/// A packed vector whose bits can be counted.
pub trait Popcnt: Packed {
    /// The number of set bits in all lanes.
    fn count_ones(&self) -> (n: usize)
        ensures
            n == ones(self@),
    ;

    /// The number of clear bits in all lanes: what is left of all bits.
    fn count_zeroes(&self) -> (n: usize)
        ensures
            n == Self::WIDTH * Self::Scalar::SIZE * 8 - ones(self@),
            n == zeroes(self@),
    {
        proof {
            Self::lemma_width();
            Self::Scalar::lemma_size();
            self.lemma_view_len();
            lemma_ones_and_zeroes(self@);
            assert(Self::WIDTH * Self::Scalar::SIZE <= 512) by (nonlinear_arith)
                requires
                    Self::WIDTH <= 64,
                    Self::Scalar::SIZE <= 8,
            ;
        }
        (Self::WIDTH * Self::Scalar::SIZE * 8) - self.count_ones()
    }
}

impl<S: Packable, const N: usize> Popcnt for Lanes<S, N> where LaneCount: SupportedLanes<N> {
    fn count_ones(&self) -> (n: usize) {
        let ghost bytes = be_u8s(self@);
        proof {
            Self::lemma_width();
            S::lemma_size();
            self.lemma_view_len();
            assert(bytes.take(0) =~= Seq::<u8>::empty());
        }
        let mut n: usize = 0;
        let mut i: usize = 0;
        while i < Self::WIDTH
            invariant
                i <= Self::WIDTH <= 64,
                0 < S::SIZE <= 8,
                self@.len() == Self::WIDTH,
                bytes == be_u8s(self@),
                n == bytes_ones(bytes.take(i * S::SIZE)),
                n <= 8 * (i * S::SIZE),
            decreases Self::WIDTH - i,
        {
            let x = self.extract(i);
            let mut j: usize = 0;
            while j < S::SIZE
                invariant
                    i < Self::WIDTH <= 64,
                    j <= S::SIZE <= 8,
                    self@.len() == Self::WIDTH,
                    bytes == be_u8s(self@),
                    x == self@[i as int],
                    n == bytes_ones(bytes.take(i * S::SIZE + j)),
                    n <= 8 * (i * S::SIZE + j),
                decreases S::SIZE - j,
            {
                let b = x.be_byte(j);
                proof {
                    let k = i * S::SIZE + j;
                    assert(i * S::SIZE + S::SIZE <= Self::WIDTH * S::SIZE <= 512)
                        by (nonlinear_arith)
                        requires
                            i < Self::WIDTH <= 64,
                            0 < S::SIZE <= 8,
                    ;
                    lemma_fundamental_div_mod_converse(k, S::SIZE as int, i as int, j as int);
                    assert(bytes[k] == b);
                    assert(bytes.take(k + 1).drop_last() =~= bytes.take(k));
                    assert(bytes.take(k + 1).last() == b);
                }
                n += byte_count_ones(b);
                j += 1;
            }
            proof {
                assert(i * S::SIZE + S::SIZE == (i + 1) * S::SIZE) by (nonlinear_arith);
            }
            i += 1;
        }
        proof {
            assert(bytes.take(Self::WIDTH * S::SIZE) =~= bytes);
        }
        n
    }
}

} // verus!
