//! An iterator over interleaved data that yields its two streams side by side.
use crate::intrin::destride::{evens, interleave, odds, Destride};
use crate::iters::{IterModel, SIMDIterator};
use crate::vecs::{zeros, Packable, Packed};
use vstd::arithmetic::div_mod::lemma_div_is_ordered;
use vstd::prelude::*;

verus! {

/// What a `StrideZip` is to its callers: the base iterator it wraps, the place
/// where that iterator's cursor stood when it was wrapped, and the full vector,
/// if any, that was taken from the base and still waits for a partner.
pub struct ZipModel<S> {
    pub iter: IterModel<S>,
    pub base: nat,
    pub peek: Option<Seq<S>>,
}

impl<S: Packable> ZipModel<S> {
    /// The zip that wraps `iter` where its cursor stands.
    pub open spec fn new(iter: IterModel<S>) -> Self {
        ZipModel { iter, base: iter.pos, peek: None }
    }

    /// The cursor has not gone back behind the start, and a vector waits only
    /// once the base has no full vector left.
    pub open spec fn wf(self) -> bool {
        &&& self.iter.wf()
        &&& self.base <= self.iter.pos
        &&& self.peek matches Some(v) ==> v.len() == self.iter.width && !self.iter.has_next()
    }

    /// The number of scalars of each stream between the start and the cursor.
    pub open spec fn scalar_pos(self) -> nat {
        ((self.iter.pos - self.base) / 2) as nat
    }

    /// The number of pairs of vectors between the start and the cursor.
    pub open spec fn vector_pos(self) -> nat {
        ((self.iter.vector_pos() - self.base / self.iter.width) / 2) as nat
    }

    /// The number of scalars of each stream in the whole array.
    pub open spec fn scalar_len(self) -> nat {
        self.iter.data.len() / 2
    }

    /// The number of pairs of full vectors in the whole array.
    pub open spec fn len(self) -> nat {
        self.iter.vector_len() / 2
    }

    /// Whether two full vectors are left in the base.
    pub open spec fn has_next(self) -> bool {
        self.iter.pos + 2 * self.iter.width <= self.iter.data.len()
    }

    /// The zip with the base moved `2 * amount` vectors forward.
    pub open spec fn advance(self, amount: nat) -> Self {
        ZipModel { iter: self.iter.skip(2 * amount), ..self }
    }

    /// Of the `2 * width` scalars at the cursor, those at the even places.
    pub open spec fn next_evens(self) -> Seq<S> {
        Seq::new(self.iter.width, |i: int| self.iter.data[self.iter.pos + 2 * i])
    }

    /// Of the `2 * width` scalars at the cursor, those at the odd places.
    pub open spec fn next_odds(self) -> Seq<S> {
        Seq::new(self.iter.width, |i: int| self.iter.data[self.iter.pos + 2 * i + 1])
    }

    /// One step: the zip after it, and the pair it yields.
    ///
    /// Where two full vectors are left, they are taken and split. Where one is
    /// left, it is taken and kept for `end`. Else nothing changes.
    pub open spec fn next(self) -> (Self, Option<(Seq<S>, Seq<S>)>) {
        if self.has_next() {
            (
                ZipModel { iter: self.iter.skip(2), ..self },
                Some((self.next_evens(), self.next_odds())),
            )
        } else if self.iter.has_next() {
            (
                ZipModel {
                    iter: self.iter.skip(1),
                    base: self.base,
                    peek: Some(self.iter.next_vector()),
                },
                None,
            )
        } else {
            (self, None)
        }
    }

    /// The full vector that `end` starts from: the one still in the base, or
    /// else the one that `next` kept.
    pub open spec fn pending(self) -> Option<Seq<S>> {
        if self.iter.has_next() {
            Some(self.iter.next_vector())
        } else {
            self.peek
        }
    }

    /// The number of scalars behind the last full vector.
    pub open spec fn tail_len(self) -> nat {
        if self.iter.has_next() {
            (self.iter.remaining() - self.iter.width) as nat
        } else {
            self.iter.remaining()
        }
    }

    /// The scalars behind the last full vector, padded to a vector.
    pub open spec fn tail(self) -> Seq<S> {
        self.iter.data.subrange(
            self.iter.data.len() - self.tail_len(),
            self.iter.data.len() as int,
        ) + zeros::<S>((self.iter.width - self.tail_len()) as nat)
    }

    /// The last step: the zip after it, and the pair it yields with the count
    /// of its valid lanes.
    ///
    /// A pending full vector is split against the tail, and half of the
    /// scalars of both are valid. With none pending, a tail that holds a
    /// scalar is split against padding, and half of its scalars are valid.
    pub open spec fn end(self) -> (Self, Option<((Seq<S>, Seq<S>), nat)>) {
        let tail = self.tail();
        let n = self.tail_len();
        let pad = zeros::<S>(self.iter.width);
        (
            ZipModel { iter: self.iter.at_end(), base: self.base, peek: None },
            match self.pending() {
                Some(v) => Some(((evens(v, tail), odds(v, tail)), (self.iter.width + n) / 2)),
                None => if n > 0 {
                    Some(((evens(tail, pad), odds(tail, pad)), n / 2))
                } else {
                    None
                },
            },
        )
    }

    /// The pairs that `next` yields, call after call, until it yields none.
    pub open spec fn drain(self) -> Seq<(Seq<S>, Seq<S>)>
        decreases self.iter.remaining(),
    {
        if 0 < self.iter.width && self.has_next() {
            seq![(self.next_evens(), self.next_odds())] + self.next().0.drain()
        } else {
            Seq::empty()
        }
    }

    /// The zip after the call of `next` that first yields none.
    pub open spec fn drained(self) -> Self
        decreases self.iter.remaining(),
    {
        if 0 < self.iter.width && self.has_next() {
            self.next().0.drained()
        } else {
            self.next().0
        }
    }

    /// Nothing is left: neither in the base nor kept.
    pub open spec fn finished(self) -> bool {
        &&& self.iter.pos == self.iter.data.len()
        &&& self.peek is None
    }
}

/// The first vectors of the pairs, one after the other.
pub open spec fn concat_evens<S>(pairs: Seq<(Seq<S>, Seq<S>)>) -> Seq<S>
    decreases pairs.len(),
{
    if pairs.len() == 0 {
        Seq::empty()
    } else {
        pairs.first().0 + concat_evens(pairs.drop_first())
    }
}

/// The second vectors of the pairs, one after the other.
pub open spec fn concat_odds<S>(pairs: Seq<(Seq<S>, Seq<S>)>) -> Seq<S>
    decreases pairs.len(),
{
    if pairs.len() == 0 {
        Seq::empty()
    } else {
        pairs.first().1 + concat_odds(pairs.drop_first())
    }
}

/// The reported scalar length is half of the base's, rounded down, from the
/// moment the base is wrapped and after every step.
pub proof fn lemma_scalar_len_is_half<S: Packable>(it: IterModel<S>, z: ZipModel<S>, amount: nat)
    ensures
        ZipModel::new(it).scalar_len() == it.data.len() / 2,
        z.next().0.scalar_len() == z.scalar_len(),
        z.end().0.scalar_len() == z.scalar_len(),
        z.advance(amount).scalar_len() == z.scalar_len(),
{
}

/// What `next` yields until it is exhausted, for a zip with `m` pairs of full
/// vectors left in its base: `m` pairs, which hold, in order, the scalars at
/// the even and at the odd places from the cursor on. A full vector that is
/// left over after them is kept.
pub proof fn lemma_drain<S: Packable>(z: ZipModel<S>, m: nat)
    requires
        z.wf(),
        2 * m * z.iter.width <= z.iter.remaining() < 2 * (m + 1) * z.iter.width,
    ensures
        z.drain().len() == m,
        concat_evens(z.drain()) == Seq::new(
            m * z.iter.width,
            |j: int| z.iter.data[z.iter.pos + 2 * j],
        ),
        concat_odds(z.drain()) == Seq::new(
            m * z.iter.width,
            |j: int| z.iter.data[z.iter.pos + 2 * j + 1],
        ),
        z.drained().wf(),
        !z.drained().iter.has_next(),
        z.drained() == (if z.iter.remaining() - 2 * m * z.iter.width >= z.iter.width {
            ZipModel {
                iter: z.iter.skip(2 * m + 1),
                base: z.base,
                peek: Some(z.iter.skip(2 * m).next_vector()),
            }
        } else {
            ZipModel { iter: z.iter.skip(2 * m), ..z }
        }),
    decreases m,
{
    let w = z.iter.width;
    let pos = z.iter.pos;
    let data = z.iter.data;
    if m == 0 {
        assert(2 * (0 + 1) * w == 2 * w) by (nonlinear_arith);
        assert(0 * w == 0) by (nonlinear_arith);
        assert(!z.has_next());
        assert(concat_evens(z.drain()) =~= Seq::new(0 * w, |j: int| data[pos + 2 * j]));
        assert(concat_odds(z.drain()) =~= Seq::new(0 * w, |j: int| data[pos + 2 * j + 1]));
        assert((2 * 0 + 1) * w == w) by (nonlinear_arith);
        assert(2 * 0 * w == 0) by (nonlinear_arith);
        assert(z.iter.skip(0) == z.iter);
    } else {
        assert(2 * m * w >= 2 * w) by (nonlinear_arith)
            requires
                m >= 1,
        ;
        assert(2 * (m - 1) * w == 2 * m * w - 2 * w) by (nonlinear_arith);
        assert(2 * ((m - 1) + 1) * w == 2 * m * w) by (nonlinear_arith);
        assert(2 * (m + 1) * w == 2 * m * w + 2 * w) by (nonlinear_arith);
        assert((m - 1) * w == m * w - w) by (nonlinear_arith);
        assert((2 * (m - 1) + 1) * w + 2 * w == (2 * m + 1) * w) by (nonlinear_arith);
        assert(z.has_next());
        let z1 = z.next().0;
        let first = (z.next_evens(), z.next_odds());
        assert(z1.iter.remaining() == z.iter.remaining() - 2 * w);
        lemma_drain(z1, (m - 1) as nat);
        let rest = z1.drain();
        assert(z.drain() == seq![first] + rest);
        assert(z.drain().first() == first);
        assert(z.drain().drop_first() =~= rest);
        assert(concat_evens(z.drain()) =~= Seq::new(m * w, |j: int| data[pos + 2 * j]));
        assert(concat_odds(z.drain()) =~= Seq::new(m * w, |j: int| data[pos + 2 * j + 1]));
        assert(z1.iter.skip((2 * (m - 1) + 1) as nat) == z.iter.skip(2 * m + 1));
        assert(z1.iter.skip((2 * (m - 1)) as nat) == z.iter.skip(2 * m));
    }
}

/// Round trip. Where the scalars from the cursor on are two streams `a` and
/// `b` interleaved, `[a0, b0, a1, b1, ...]`, and fill an even number `k` of
/// full vectors, `next` yields `k / 2` pairs before it is exhausted. Their
/// first vectors make up `a`, their second vectors make up `b`. `end` then
/// yields nothing.
pub proof fn lemma_round_trip<S: Packable>(it: IterModel<S>, a: Seq<S>, b: Seq<S>, k: nat)
    requires
        it.wf(),
        a.len() == b.len(),
        it.data.subrange(it.pos as int, it.data.len() as int) == interleave(a, b),
        it.remaining() == k * it.width,
        k % 2 == 0,
    ensures
        ({
            let z = ZipModel::new(it);
            &&& z.drain().len() == k / 2
            &&& concat_evens(z.drain()) == a
            &&& concat_odds(z.drain()) == b
            &&& !z.drained().has_next()
            &&& z.drained().end().1 is None
        }),
{
    let z = ZipModel::new(it);
    let m = k / 2;
    let w = it.width;
    let rest = it.data.subrange(it.pos as int, it.data.len() as int);
    assert(2 * m * w == k * w) by (nonlinear_arith)
        requires
            k == 2 * m,
    ;
    assert(2 * (m + 1) * w == 2 * m * w + 2 * w) by (nonlinear_arith);
    lemma_drain(z, m);
    assert(z.iter.skip(2 * m).pos == it.data.len());
    assert(rest.len() == it.remaining() == 2 * a.len());
    assert(2 * (m * w) == k * w) by (nonlinear_arith)
        requires
            k == 2 * m,
    ;
    assert(m * w == a.len());
    assert forall|j: int| 0 <= j < a.len() implies it.data[it.pos + 2 * j] == a[j]
        && it.data[it.pos + 2 * j + 1] == b[j] by {
        assert(rest[2 * j] == it.data[it.pos + 2 * j]);
        assert(rest[2 * j + 1] == it.data[it.pos + 2 * j + 1]);
    }
    assert(concat_evens(z.drain()) =~= a);
    assert(concat_odds(z.drain()) =~= b);
}

/// An odd number of full vectors and no tail. Where the scalars from the
/// cursor on fill an odd number `k` of full vectors, `next` yields
/// `(k - 1) / 2` pairs before it is exhausted and keeps the last vector.
/// `end` then yields that vector split against padding, with half a vector's
/// lanes valid.
pub proof fn lemma_odd_vector_count<S: Packable>(it: IterModel<S>, k: nat)
    requires
        it.wf(),
        it.remaining() == k * it.width,
        k % 2 == 1,
    ensures
        ({
            let z = ZipModel::new(it);
            let last = it.data.subrange(it.data.len() - it.width, it.data.len() as int);
            let pad = zeros::<S>(it.width);
            &&& z.drain().len() == (k - 1) / 2
            &&& !z.drained().has_next()
            &&& z.drained().end().1 == Some(
                ((evens(last, pad), odds(last, pad)), it.width / 2),
            )
        }),
{
    let z = ZipModel::new(it);
    let m = (k - 1) / 2;
    let w = it.width;
    assert(2 * m * w + w == k * w) by (nonlinear_arith)
        requires
            k == 2 * m + 1,
    ;
    assert(2 * (m + 1) * w == 2 * m * w + 2 * w) by (nonlinear_arith);
    assert((2 * m + 1) * w == 2 * m * w + w) by (nonlinear_arith);
    lemma_drain(z, m as nat);
    let d = z.drained();
    assert(d.iter.pos == it.data.len());
    assert(d.tail() =~= zeros::<S>(w));
    assert(d.peek == Some(it.data.subrange(it.data.len() - w, it.data.len() as int)));
}

/// A partial tail and no pending vector. Where `n` scalars are left, fewer
/// than a vector holds, and no vector is kept, `end` yields them, padded,
/// split against padding, with `n / 2` lanes valid.
pub proof fn lemma_partial_tail<S: Packable>(z: ZipModel<S>)
    requires
        z.wf(),
        z.peek is None,
        0 < z.iter.remaining() < z.iter.width,
    ensures
        ({
            let n = z.iter.remaining();
            let tail = z.iter.tail();
            let pad = zeros::<S>(z.iter.width);
            z.end().1 == Some(((evens(tail, pad), odds(tail, pad)), n / 2))
        }),
{
}

/// Exhaustion lasts. After `end`, nothing is left, and from then on `next`
/// and `end` yield nothing and change nothing.
pub proof fn lemma_exhaustion_lasts<S: Packable>(z: ZipModel<S>)
    requires
        z.wf(),
        !z.has_next(),
    ensures
        ({
            let done = z.end().0;
            &&& done.wf()
            &&& done.finished()
            &&& done.next() == (done, None::<(Seq<S>, Seq<S>)>)
            &&& done.end() == (done, None::<((Seq<S>, Seq<S>), nat)>)
        }),
{
    let done = z.end().0;
    assert(done.iter.at_end() == done.iter);
}

/// The lanes of a pair of vectors.
pub open spec fn pair_view<V: Packed>(p: (V, V)) -> (Seq<V::Scalar>, Seq<V::Scalar>) {
    (p.0@, p.1@)
}

/// A step's result, each vector by its lanes.
pub open spec fn next_view<V: Packed>(r: Option<(V, V)>) -> Option<
    (Seq<V::Scalar>, Seq<V::Scalar>),
> {
    match r {
        Some(p) => Some(pair_view(p)),
        None => None,
    }
}

/// A last step's result, each vector by its lanes.
pub open spec fn end_view<V: Packed>(r: Option<((V, V), usize)>) -> Option<
    ((Seq<V::Scalar>, Seq<V::Scalar>), nat),
> {
    match r {
        Some((p, n)) => Some((pair_view(p), n as nat)),
        None => None,
    }
}

/// Wraps a base iterator over interleaved data `[a0, b0, a1, b1, ...]` and
/// yields pairs of vectors: lanes of `a`, lanes of `b`.
pub struct StrideZip<T> where T: SIMDIterator, T::Vector: Destride {
    base: usize,
    peek: Option<T::Vector>,
    iter: T,
}

impl<T> StrideZip<T> where T: SIMDIterator, T::Vector: Destride {
    /// The base's view, the start, and the lanes of the kept vector.
    pub closed spec fn view(&self) -> ZipModel<T::Scalar> {
        ZipModel {
            iter: self.iter@,
            base: self.base as nat,
            peek: match self.peek {
                Some(v) => Some(v@),
                None => None,
            },
        }
    }

    /// What holds of the zip between calls.
    pub closed spec fn wf(&self) -> bool {
        &&& self.iter.wf()
        &&& self@.wf()
    }

    /// A well-formed zip has a well-formed view, yields vectors of
    /// `Vector::WIDTH` lanes, and walks an array that fits into memory.
    pub proof fn lemma_wf(&self)
        requires
            self.wf(),
        ensures
            self@.wf(),
            self@.iter.width == T::Vector::WIDTH,
            self@.iter.data.len() <= usize::MAX,
    {
        self.iter.lemma_wf();
    }

    /// The lane count of the vectors of a pair: that of the base's vectors.
    pub fn width(&self) -> (n: usize)
        ensures
            n == T::Vector::WIDTH,
            self.wf() ==> n == self@.iter.width,
    {
        proof {
            if self.wf() {
                self.iter.lemma_wf();
            }
        }
        T::Vector::WIDTH
    }

    /// The size of a scalar in bytes: that of the base's scalars.
    pub fn size(&self) -> (n: usize)
        ensures
            n == T::Scalar::SIZE,
    {
        T::Scalar::SIZE
    }

    /// The number of pairs of full vectors in the whole array.
    pub fn len(&self) -> (n: usize)
        requires
            self.wf(),
        ensures
            n == self@.len(),
    {
        self.iter.len() / 2
    }

    /// The number of scalars of each stream that lie behind the cursor.
    pub fn scalar_pos(&self) -> (n: usize)
        requires
            self.wf(),
        ensures
            n == self@.scalar_pos(),
    {
        (self.iter.scalar_pos() - self.base) / 2
    }

    /// The number of pairs of vectors that lie behind the cursor.
    pub fn vector_pos(&self) -> (n: usize)
        requires
            self.wf(),
        ensures
            n == self@.vector_pos(),
    {
        proof {
            self.iter.lemma_wf();
            lemma_div_is_ordered(
                self@.base as int,
                self@.iter.pos as int,
                self@.iter.width as int,
            );
        }
        (self.iter.vector_pos() - (self.base / self.width())) / 2
    }

    /// The number of scalars of each stream in the whole array.
    pub fn scalar_len(&self) -> (n: usize)
        requires
            self.wf(),
        ensures
            n == self@.scalar_len(),
    {
        self.iter.scalar_len() / 2
    }

    /// Skips `amount` pairs of vectors.
    pub fn advance(&mut self, amount: usize)
        requires
            old(self).wf(),
            old(self)@.iter.pos + 2 * amount * old(self)@.iter.width <= old(self)@.iter.data.len(),
        ensures
            final(self).wf(),
            final(self)@ == old(self)@.advance(amount as nat),
    {
        proof {
            self.iter.lemma_wf();
            let w = self@.iter.width;
            assert(2 * amount <= 2 * amount * w) by (nonlinear_arith)
                requires
                    0 < w,
            ;
        }
        self.iter.advance(2 * amount);
    }

    /// A pair of padding vectors.
    pub fn default(&self) -> (r: (T::Vector, T::Vector))
        ensures
            r.0@ == zeros::<T::Scalar>(T::Vector::WIDTH as nat),
            r.1@ == zeros::<T::Scalar>(T::Vector::WIDTH as nat),
    {
        (T::Vector::default(), T::Vector::default())
    }

    /// Takes two vectors from the base and splits them. With only one full
    /// vector left, keeps it for `end` and yields nothing.
    pub fn next(&mut self) -> (r: Option<(T::Vector, T::Vector)>)
        requires
            old(self).wf(),
        ensures
            final(self).wf(),
            final(self)@ == old(self)@.next().0,
            next_view(r) == old(self)@.next().1,
    {
        proof {
            self.iter.lemma_wf();
        }
        let first = self.iter.next()?;
        let second = self.iter.next();
        if let Some(second) = second {
            let r = first.destride_two(second);
            proof {
                let z = old(self)@;
                assert(r.0@ =~= z.next_evens());
                assert(r.1@ =~= z.next_odds());
                assert(z.iter.skip(1).skip(1) == z.iter.skip(2));
            }
            Some(r)
        } else {
            proof {
                first.lemma_view_len();
            }
            self.peek = Some(first);
            None
        }
    }

    /// Yields what `next` could not: a pending full vector and the tail of
    /// the base, split as one pair, with the count of the valid lanes.
    pub fn end(&mut self) -> (r: Option<((T::Vector, T::Vector), usize)>)
        requires
            old(self).wf(),
            !old(self)@.has_next(),
        ensures
            final(self).wf(),
            final(self)@ == old(self)@.end().0,
            end_view(r) == old(self)@.end().1,
            final(self)@.finished(),
    {
        proof {
            self.iter.lemma_wf();
            T::Vector::lemma_width();
        }
        let first = self.iter.next();
        let (end, n) = self.iter.end().unwrap_or((self.iter.default(), 0));
        proof {
            let z = old(self)@;
            assert(n == z.tail_len());
            assert(end@ =~= z.tail());
        }
        if let Some(first) = first {
            Some((first.destride_two(end), (T::Vector::WIDTH + n) / 2))
        } else {
            if let Some(v) = self.peek {
                self.peek = None;
                Some((v.destride_two(end), (T::Vector::WIDTH + n) / 2))
            } else if n > 0 {
                Some((end.destride_two(self.iter.default()), n / 2))
            } else {
                None
            }
        }
    }
}

/// Turns a base iterator over interleaved data into a `StrideZip`.
pub trait IntoStrideZip: Sized {
    /// The zip that wraps `self` where its cursor stands.
    fn stride_zip(self) -> (z: StrideZip<Self>) where Self: SIMDIterator, Self::Vector: Destride
        requires
            self.wf(),
        ensures
            z.wf(),
            z@ == ZipModel::new(self@),
    ;
}

impl<T> IntoStrideZip for T where T: SIMDIterator, T::Vector: Destride {
    fn stride_zip(self) -> (z: StrideZip<Self>) {
        proof {
            self.lemma_wf();
        }
        StrideZip { base: self.scalar_pos(), peek: None, iter: self }
    }
}

} // verus!
