//! Splitting two vectors of interleaved data into their two streams.
use crate::vecs::{LaneCount, Lanes, Packable, Packed, SupportedLanes};
use vstd::prelude::*;

verus! {

/// The scalars at the even places of `a` followed by `b`: as many as `a` has.
pub open spec fn evens<S>(a: Seq<S>, b: Seq<S>) -> Seq<S> {
    Seq::new(a.len(), |i: int| (a + b)[2 * i])
}

/// The scalars at the odd places of `a` followed by `b`: as many as `a` has.
pub open spec fn odds<S>(a: Seq<S>, b: Seq<S>) -> Seq<S> {
    Seq::new(a.len(), |i: int| (a + b)[2 * i + 1])
}

/// `x` and `y` interleaved: `[x0, y0, x1, y1, ...]`.
pub open spec fn interleave<S>(x: Seq<S>, y: Seq<S>) -> Seq<S> {
    Seq::new(
        x.len() + y.len(),
        |k: int|
            if k % 2 == 0 {
                x[k / 2]
            } else {
                y[k / 2]
            },
    )
}

/// Splitting loses nothing and adds nothing: of two vectors of one length,
/// the two streams interleaved are the two vectors in a row again.
pub proof fn lemma_destride_keeps_all<S>(a: Seq<S>, b: Seq<S>)
    requires
        a.len() == b.len(),
    ensures
        evens(a, b).len() == a.len(),
        odds(a, b).len() == b.len(),
        interleave(evens(a, b), odds(a, b)) == a + b,
{
    assert(interleave(evens(a, b), odds(a, b)) =~= a + b);
}

/// Splitting undoes interleaving.
pub proof fn lemma_destride_of_interleaved<S>(x: Seq<S>, y: Seq<S>)
    requires
        x.len() == y.len(),
    ensures
        ({
            let z = interleave(x, y);
            let a = z.subrange(0, x.len() as int);
            let b = z.subrange(x.len() as int, z.len() as int);
            evens(a, b) == x && odds(a, b) == y
        }),
{
    let z = interleave(x, y);
    let a = z.subrange(0, x.len() as int);
    let b = z.subrange(x.len() as int, z.len() as int);
    assert(a + b =~= z);
    assert(evens(a, b) =~= x);
    assert(odds(a, b) =~= y);
}

/// A packed vector that can be split by stride.
pub trait Destride: Packed {
    /// Takes `self` and `other` as `2 * WIDTH` scalars read in a row from
    /// interleaved data; returns those at the even places, then those at the
    /// odd places.
    fn destride_two(self, other: Self) -> (r: (Self, Self))
        ensures
            r.0@ == evens(self@, other@),
            r.1@ == odds(self@, other@),
    ;
}

impl<S: Packable, const N: usize> Destride for Lanes<S, N> where LaneCount: SupportedLanes<N> {
    fn destride_two(self, other: Self) -> (r: (Self, Self)) {
        proof {
            Self::lemma_width();
            self.lemma_view_len();
            other.lemma_view_len();
        }
        let mut even = self;
        let mut odd = self;
        let mut i: usize = 0;
        while i < Self::WIDTH
            invariant
                i <= Self::WIDTH <= 64,
                self@.len() == Self::WIDTH,
                other@.len() == Self::WIDTH,
                even@.len() == Self::WIDTH,
                odd@.len() == Self::WIDTH,
                forall|j: int| 0 <= j < i ==> even@[j] == (self@ + other@)[2 * j],
                forall|j: int| 0 <= j < i ==> odd@[j] == (self@ + other@)[2 * j + 1],
            decreases Self::WIDTH - i,
        {
            let k = 2 * i;
            let x = if k < Self::WIDTH {
                self.extract(k)
            } else {
                other.extract(k - Self::WIDTH)
            };
            let y = if k + 1 < Self::WIDTH {
                self.extract(k + 1)
            } else {
                other.extract(k + 1 - Self::WIDTH)
            };
            even = even.replace(i, x);
            odd = odd.replace(i, y);
            i += 1;
        }
        (even, odd)
    }
}

} // verus!
