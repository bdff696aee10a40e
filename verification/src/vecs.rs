//! Scalars and packed vectors.
use vstd::prelude::*;

verus! {

/// A scalar that can be a lane of a packed vector.
pub trait Packable: Copy {
    /// The number of bytes of one scalar.
    const SIZE: usize;

    /// The scalar that pads a partial vector.
    spec fn spec_zero() -> Self;

    /// The bytes of the scalar, most significant first.
    spec fn be_bytes(self) -> Seq<u8>;

    /// A scalar has at least one byte and at most eight.
    proof fn lemma_size()
        ensures
            0 < Self::SIZE <= 8,
    ;

    /// A scalar has `SIZE` bytes.
    proof fn lemma_be_bytes(self)
        ensures
            self.be_bytes().len() == Self::SIZE,
    ;

    /// The scalar that pads a partial vector.
    fn zero() -> (z: Self)
        ensures
            z == Self::spec_zero(),
    ;

    /// The byte at place `i`, counted from the most significant one.
    fn be_byte(self, i: usize) -> (b: u8)
        requires
            i < Self::SIZE,
        ensures
            b == self.be_bytes()[i as int],
    ;
}

impl Packable for u8 {
    const SIZE: usize = 1;

    open spec fn spec_zero() -> Self {
        0u8
    }

    open spec fn be_bytes(self) -> Seq<u8> {
        seq![self]
    }

    proof fn lemma_size() {
    }

    proof fn lemma_be_bytes(self) {
    }

    fn zero() -> (z: Self) {
        0u8
    }

    fn be_byte(self, i: usize) -> (b: u8) {
        self
    }
}

impl Packable for u16 {
    const SIZE: usize = 2;

    open spec fn spec_zero() -> Self {
        0u16
    }

    open spec fn be_bytes(self) -> Seq<u8> {
        seq![(self >> 8) as u8, self as u8]
    }

    proof fn lemma_size() {
    }

    proof fn lemma_be_bytes(self) {
    }

    fn zero() -> (z: Self) {
        0u16
    }

    fn be_byte(self, i: usize) -> (b: u8) {
        if i == 0 {
            #[verifier::truncate]
            ((self >> 8) as u8)
        } else {
            #[verifier::truncate]
            (self as u8)
        }
    }
}

impl Packable for u32 {
    const SIZE: usize = 4;

    open spec fn spec_zero() -> Self {
        0u32
    }

    open spec fn be_bytes(self) -> Seq<u8> {
        seq![(self >> 24) as u8, (self >> 16) as u8, (self >> 8) as u8, self as u8]
    }

    proof fn lemma_size() {
    }

    proof fn lemma_be_bytes(self) {
    }

    fn zero() -> (z: Self) {
        0u32
    }

    fn be_byte(self, i: usize) -> (b: u8) {
        if i == 0 {
            #[verifier::truncate]
            ((self >> 24) as u8)
        } else if i == 1 {
            #[verifier::truncate]
            ((self >> 16) as u8)
        } else if i == 2 {
            #[verifier::truncate]
            ((self >> 8) as u8)
        } else {
            #[verifier::truncate]
            (self as u8)
        }
    }
}

impl Packable for u64 {
    const SIZE: usize = 8;

    open spec fn spec_zero() -> Self {
        0u64
    }

    open spec fn be_bytes(self) -> Seq<u8> {
        seq![
            (self >> 56) as u8,
            (self >> 48) as u8,
            (self >> 40) as u8,
            (self >> 32) as u8,
            (self >> 24) as u8,
            (self >> 16) as u8,
            (self >> 8) as u8,
            self as u8,
        ]
    }

    proof fn lemma_size() {
    }

    proof fn lemma_be_bytes(self) {
    }

    fn zero() -> (z: Self) {
        0u64
    }

    fn be_byte(self, i: usize) -> (b: u8) {
        if i == 0 {
            #[verifier::truncate]
            ((self >> 56) as u8)
        } else if i == 1 {
            #[verifier::truncate]
            ((self >> 48) as u8)
        } else if i == 2 {
            #[verifier::truncate]
            ((self >> 40) as u8)
        } else if i == 3 {
            #[verifier::truncate]
            ((self >> 32) as u8)
        } else if i == 4 {
            #[verifier::truncate]
            ((self >> 24) as u8)
        } else if i == 5 {
            #[verifier::truncate]
            ((self >> 16) as u8)
        } else if i == 6 {
            #[verifier::truncate]
            ((self >> 8) as u8)
        } else {
            #[verifier::truncate]
            (self as u8)
        }
    }
}

/// The sizes of the scalars, in bytes.
pub proof fn lemma_scalar_sizes()
    ensures
        u8::SIZE == 1,
        u16::SIZE == 2,
        u32::SIZE == 4,
        u64::SIZE == 8,
{
}

/// `n` padding scalars.
pub open spec fn zeros<S: Packable>(n: nat) -> Seq<S> {
    Seq::new(n, |i: int| S::spec_zero())
}

/// A packed vector: `WIDTH` lanes of one scalar type, copied by value.
/// Its view is the sequence of its lanes.
pub trait Packed: Copy {
    /// The type of a lane.
    type Scalar: Packable;

    /// The number of lanes.
    const WIDTH: usize;

    /// The lanes, in order.
    spec fn view(self) -> Seq<Self::Scalar>;

    /// A vector has at least one lane and at most 64.
    proof fn lemma_width()
        ensures
            0 < Self::WIDTH <= 64,
    ;

    /// A vector has `WIDTH` lanes.
    proof fn lemma_view_len(self)
        ensures
            self@.len() == Self::WIDTH,
    ;

    /// The vector whose every lane is `x`.
    fn splat(x: Self::Scalar) -> (v: Self)
        ensures
            v@ == Seq::new(Self::WIDTH as nat, |i: int| x),
    ;

    /// The vector of padding scalars.
    fn default() -> (v: Self)
        ensures
            v@ == zeros::<Self::Scalar>(Self::WIDTH as nat),
    ;

    /// Lane `i`.
    fn extract(&self, i: usize) -> (x: Self::Scalar)
        requires
            i < Self::WIDTH,
        ensures
            x == self@[i as int],
    ;

    /// This vector with lane `i` set to `x`.
    fn replace(self, i: usize, x: Self::Scalar) -> (v: Self)
        requires
            i < Self::WIDTH,
        ensures
            v@ == self@.update(i as int, x),
    ;

    /// The vector of the `WIDTH` scalars of `data` from `offset` on.
    fn load(data: &[Self::Scalar], offset: usize) -> (v: Self)
        requires
            offset + Self::WIDTH <= data@.len(),
        ensures
            v@ == data@.subrange(offset as int, offset + Self::WIDTH),
    ;
}

/// The lane counts that `Lanes` is a packed vector for.
pub trait SupportedLanes<const N: usize> {
    /// A supported lane count is at least one and at most 64.
    proof fn lemma_lane_count()
        ensures
            0 < N <= 64,
    ;
}

/// Carries the impls of `SupportedLanes`.
pub struct LaneCount;

impl SupportedLanes<2> for LaneCount {
    proof fn lemma_lane_count() {
    }
}

impl SupportedLanes<4> for LaneCount {
    proof fn lemma_lane_count() {
    }
}

impl SupportedLanes<8> for LaneCount {
    proof fn lemma_lane_count() {
    }
}

impl SupportedLanes<16> for LaneCount {
    proof fn lemma_lane_count() {
    }
}

impl SupportedLanes<32> for LaneCount {
    proof fn lemma_lane_count() {
    }
}

impl SupportedLanes<64> for LaneCount {
    proof fn lemma_lane_count() {
    }
}

/// `N` lanes of `S`, held in an array.
pub struct Lanes<S: Packable, const N: usize> {
    lanes: [S; N],
}

impl<S: Packable, const N: usize> Clone for Lanes<S, N> {
    fn clone(&self) -> (v: Self)
        ensures
            v == *self,
    {
        *self
    }
}

impl<S: Packable, const N: usize> Copy for Lanes<S, N> {

}

impl<S: Packable, const N: usize> Lanes<S, N> where LaneCount: SupportedLanes<N> {
    /// The vector with the lanes `lanes`.
    pub fn new(lanes: [S; N]) -> (v: Self)
        ensures
            v@ == lanes@,
    {
        Lanes { lanes }
    }

    /// The lanes of the vector.
    pub fn to_array(&self) -> (lanes: [S; N])
        ensures
            lanes@ == self@,
    {
        self.lanes
    }
}

impl<S: Packable, const N: usize> Packed for Lanes<S, N> where LaneCount: SupportedLanes<N> {
    type Scalar = S;

    const WIDTH: usize = N;

    closed spec fn view(self) -> Seq<S> {
        self.lanes@
    }

    proof fn lemma_width() {
        <LaneCount as SupportedLanes<N>>::lemma_lane_count();
    }

    proof fn lemma_view_len(self) {
    }

    fn splat(x: S) -> (v: Self) {
        Lanes { lanes: [x; N] }
    }

    fn default() -> (v: Self) {
        Lanes { lanes: [S::zero(); N] }
    }

    fn extract(&self, i: usize) -> (x: S) {
        self.lanes[i]
    }

    fn replace(self, i: usize, x: S) -> (v: Self) {
        let mut lanes = self.lanes;
        lanes[i] = x;
        Lanes { lanes }
    }

    fn load(data: &[S], offset: usize) -> (v: Self) {
        let len = data.len();
        let mut lanes = [S::zero(); N];
        let mut i: usize = 0;
        while i < N
            invariant
                i <= N,
                len == data@.len(),
                offset + N <= len,
                forall|j: int| 0 <= j < i ==> lanes@[j] == data@[offset + j],
            decreases N - i,
        {
            lanes[i] = data[offset + i];
            i += 1;
        }
        Lanes { lanes }
    }
}

/// A vector of `N` lanes has the width `N`.
pub proof fn lemma_lanes_width<S: Packable, const N: usize>()
    where LaneCount: SupportedLanes<N>
    ensures
        Lanes::<S, N>::WIDTH == N,
{
}

/// 16 lanes of `u8`: 128 bits.
#[allow(non_camel_case_types)]
pub type u8x16 = Lanes<u8, 16>;

/// 8 lanes of `u16`: 128 bits.
#[allow(non_camel_case_types)]
pub type u16x8 = Lanes<u16, 8>;

/// 4 lanes of `u32`: 128 bits.
#[allow(non_camel_case_types)]
pub type u32x4 = Lanes<u32, 4>;

/// 2 lanes of `u64`: 128 bits.
#[allow(non_camel_case_types)]
pub type u64x2 = Lanes<u64, 2>;

} // verus!
