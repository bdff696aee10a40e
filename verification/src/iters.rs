//! Iterators that walk an array of scalars one packed vector at a time.
use crate::vecs::{zeros, Packable, Packed};
use vstd::prelude::*;

verus! {

/// What a base iterator is to its callers: the scalars it walks, the place of
/// its cursor among them, and the lane count of the vectors it yields.
pub struct IterModel<S> {
    pub data: Seq<S>,
    pub pos: nat,
    pub width: nat,
}

impl<S: Packable> IterModel<S> {
    /// A vector holds a scalar, and the cursor is not behind the end.
    pub open spec fn wf(self) -> bool {
        &&& 0 < self.width
        &&& self.pos <= self.data.len()
    }

    /// The number of scalars from the cursor to the end.
    pub open spec fn remaining(self) -> nat {
        (self.data.len() - self.pos) as nat
    }

    /// The number of full vectors that lie behind the cursor.
    pub open spec fn vector_pos(self) -> nat {
        self.pos / self.width
    }

    /// The number of full vectors in the whole array.
    pub open spec fn vector_len(self) -> nat {
        self.data.len() / self.width
    }

    /// Whether a full vector is left at the cursor.
    pub open spec fn has_next(self) -> bool {
        self.pos + self.width <= self.data.len()
    }

    /// The full vector at the cursor.
    pub open spec fn next_vector(self) -> Seq<S> {
        self.data.subrange(self.pos as int, (self.pos + self.width) as int)
    }

    /// The iterator with its cursor `n` vectors further on.
    pub open spec fn skip(self, n: nat) -> Self {
        IterModel { pos: self.pos + n * self.width, ..self }
    }

    /// The scalars left at the cursor, padded to a full vector.
    pub open spec fn tail(self) -> Seq<S> {
        self.data.subrange(self.pos as int, self.data.len() as int) + zeros::<S>(
            (self.width - self.remaining()) as nat,
        )
    }

    /// The iterator with its cursor at the end.
    pub open spec fn at_end(self) -> Self {
        IterModel { pos: self.data.len(), ..self }
    }
}

/// An iterator over the packed vectors of a borrowed array of scalars.
///
/// `next` yields the full vectors in turn. Once fewer scalars than a vector
/// holds are left, `end` yields them in one padded vector, with their number.
pub trait SIMDIterator: Sized {
    /// The type of the scalars of the array.
    type Scalar: Packable;

    /// The type of the vectors that the iterator yields.
    type Vector: Packed<Scalar = Self::Scalar>;

    /// The array, the cursor and the lane count.
    spec fn view(&self) -> IterModel<Self::Scalar>;

    /// What holds of the iterator between calls.
    spec fn wf(&self) -> bool;

    /// A well-formed iterator has a well-formed view, yields vectors of
    /// `Vector::WIDTH` lanes, and walks an array that fits into memory.
    proof fn lemma_wf(&self)
        requires
            self.wf(),
        ensures
            self@.wf(),
            self@.width == Self::Vector::WIDTH,
            self@.data.len() <= usize::MAX,
    ;

    /// The number of scalars that lie behind the cursor.
    fn scalar_pos(&self) -> (n: usize)
        requires
            self.wf(),
        ensures
            n == self@.pos,
    ;

    /// The number of full vectors that lie behind the cursor.
    fn vector_pos(&self) -> (n: usize)
        requires
            self.wf(),
        ensures
            n == self@.vector_pos(),
    ;

    /// The number of scalars in the whole array.
    fn scalar_len(&self) -> (n: usize)
        requires
            self.wf(),
        ensures
            n == self@.data.len(),
    ;

    /// The number of full vectors in the whole array.
    fn len(&self) -> (n: usize)
        requires
            self.wf(),
        ensures
            n == self@.vector_len(),
    ;

    /// Moves the cursor `amount` vectors forward.
    fn advance(&mut self, amount: usize)
        requires
            old(self).wf(),
            old(self)@.pos + amount * old(self)@.width <= old(self)@.data.len(),
        ensures
            final(self).wf(),
            final(self)@ == old(self)@.skip(amount as nat),
    ;

    /// The vector that pads a tail.
    fn default(&self) -> (v: Self::Vector)
        requires
            self.wf(),
        ensures
            v@ == zeros::<Self::Scalar>(self@.width),
    ;

    /// The full vector at the cursor, which moves behind it; none where
    /// fewer scalars are left than a vector holds.
    fn next(&mut self) -> (r: Option<Self::Vector>)
        requires
            old(self).wf(),
        ensures
            final(self).wf(),
            final(self)@ == (if old(self)@.has_next() {
                old(self)@.skip(1)
            } else {
                old(self)@
            }),
            (match r {
                Some(v) => old(self)@.has_next() && v@ == old(self)@.next_vector(),
                None => !old(self)@.has_next(),
            }),
    ;

    /// The tail: the scalars that are left when no full vector is, padded to a
    /// vector, and their number.
    fn end(&mut self) -> (r: Option<(Self::Vector, usize)>)
        requires
            old(self).wf(),
            !old(self)@.has_next(),
        ensures
            final(self).wf(),
            final(self)@ == old(self)@.at_end(),
            (match r {
                Some((v, n)) => 0 < n && n == old(self)@.remaining() && v@ == old(self)@.tail(),
                None => old(self)@.remaining() == 0,
            }),
    ;
}

/// The base iterator over a slice.
pub struct SIMDIter<'a, V: Packed> {
    data: &'a [V::Scalar],
    position: usize,
}

impl<'a, V: Packed> SIMDIter<'a, V> {
    /// An iterator over `data`, with its cursor at the start.
    pub fn new(data: &'a [V::Scalar]) -> (it: Self)
        ensures
            it.wf(),
            it@ == (IterModel { data: data@, pos: 0, width: V::WIDTH as nat }),
    {
        proof {
            V::lemma_width();
        }
        SIMDIter { data, position: 0 }
    }
}

impl<'a, V: Packed> SIMDIterator for SIMDIter<'a, V> {
    type Scalar = V::Scalar;

    type Vector = V;

    closed spec fn view(&self) -> IterModel<V::Scalar> {
        IterModel { data: self.data@, pos: self.position as nat, width: V::WIDTH as nat }
    }

    closed spec fn wf(&self) -> bool {
        self.position <= self.data@.len()
    }

    proof fn lemma_wf(&self) {
        V::lemma_width();
        assert(self.data.len() == self.data@.len());
    }

    fn scalar_pos(&self) -> (n: usize) {
        self.position
    }

    fn vector_pos(&self) -> (n: usize) {
        proof {
            V::lemma_width();
        }
        self.position / V::WIDTH
    }

    fn scalar_len(&self) -> (n: usize) {
        self.data.len()
    }

    fn len(&self) -> (n: usize) {
        proof {
            V::lemma_width();
        }
        self.data.len() / V::WIDTH
    }

    fn advance(&mut self, amount: usize) {
        let len = self.data.len();
        assert(0 <= amount * V::WIDTH <= len - self.position) by (nonlinear_arith)
            requires
                self.position + amount * V::WIDTH <= len,
                self.position <= len,
        ;
        self.position += amount * V::WIDTH;
    }

    fn default(&self) -> (v: V) {
        V::default()
    }

    fn next(&mut self) -> (r: Option<V>) {
        proof {
            V::lemma_width();
        }
        if self.data.len() - self.position >= V::WIDTH {
            let v = V::load(self.data, self.position);
            self.position += V::WIDTH;
            Some(v)
        } else {
            None
        }
    }

    fn end(&mut self) -> (r: Option<(V, usize)>) {
        proof {
            V::lemma_width();
        }
        let n = self.data.len() - self.position;
        if n > 0 {
            let mut v = V::default();
            let mut i: usize = 0;
            while i < n
                invariant
                    i <= n < V::WIDTH,
                    n == self.data@.len() - self.position,
                    v@.len() == V::WIDTH,
                    forall|j: int| 0 <= j < i ==> v@[j] == self.data@[self.position + j],
                    forall|j: int| i <= j < V::WIDTH ==> v@[j] == V::Scalar::spec_zero(),
                decreases n - i,
            {
                v = v.replace(i, self.data[self.position + i]);
                i += 1;
            }
            self.position = self.data.len();
            Some((v, n))
        } else {
            None
        }
    }
}

} // verus!
