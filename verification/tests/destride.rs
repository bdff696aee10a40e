use faster::intrin::destride::Destride;
use faster::vecs::{u32x4, u64x2, u8x16, Lanes, Packed};

#[test]
fn destride_two_splits_even_and_odd_places() {
    let a = u32x4::new([0, 1, 2, 3]);
    let b = u32x4::new([4, 5, 6, 7]);
    let (e, o) = a.destride_two(b);
    assert_eq!(e.to_array(), [0, 2, 4, 6]);
    assert_eq!(o.to_array(), [1, 3, 5, 7]);
}

#[test]
fn destride_two_separates_interleaved_pairs() {
    let a = u8x16::new([1, 101, 2, 102, 3, 103, 4, 104, 5, 105, 6, 106, 7, 107, 8, 108]);
    let b = u8x16::new([9, 109, 10, 110, 11, 111, 12, 112, 13, 113, 14, 114, 15, 115, 16, 116]);
    let (e, o) = a.destride_two(b);
    assert_eq!(e.to_array(), [1, 2, 3, 4, 5, 6, 7, 8, 9, 10, 11, 12, 13, 14, 15, 16]);
    assert_eq!(
        o.to_array(),
        [101, 102, 103, 104, 105, 106, 107, 108, 109, 110, 111, 112, 113, 114, 115, 116]
    );
}

#[test]
fn destride_two_of_two_lanes() {
    let a = u64x2::new([10, 11]);
    let b = u64x2::new([20, 21]);
    let (e, o) = a.destride_two(b);
    assert_eq!(e.to_array(), [10, 20]);
    assert_eq!(o.to_array(), [11, 21]);
}

#[test]
fn destride_two_is_not_the_identity() {
    let a = u32x4::new([0, 1, 2, 3]);
    let b = u32x4::new([4, 5, 6, 7]);
    let (e, o) = a.destride_two(b);
    assert_ne!(e.to_array(), a.to_array());
    assert_ne!(o.to_array(), b.to_array());
}

#[test]
fn destride_two_keeps_every_scalar() {
    let a = Lanes::<u16, 32>::load(&(0..32).collect::<Vec<u16>>(), 0);
    let b = Lanes::<u16, 32>::load(&(32..64).collect::<Vec<u16>>(), 0);
    let (e, o) = a.destride_two(b);
    let mut all: Vec<u16> = Vec::new();
    for i in 0..32 {
        all.push(e.extract(i));
        all.push(o.extract(i));
    }
    assert_eq!(all, (0..64).collect::<Vec<u16>>());
}

#[test]
fn destride_against_padding() {
    let a = u32x4::new([1, 2, 3, 4]);
    let (e, o) = a.destride_two(u32x4::default());
    assert_eq!(e.to_array(), [1, 3, 0, 0]);
    assert_eq!(o.to_array(), [2, 4, 0, 0]);
}
