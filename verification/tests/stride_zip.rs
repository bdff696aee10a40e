use faster::intrin::destride::Destride;
use faster::iters::{SIMDIter, SIMDIterator};
use faster::stride_zip::IntoStrideZip;
use faster::vecs::{u16x8, u32x4, u8x16, Packed};

/// `[0, 1000, 1, 1001, ...]`, cut to `n` scalars.
fn interleaved(n: usize) -> Vec<u32> {
    (0..n).map(|i| if i % 2 == 0 { (i / 2) as u32 } else { 1000 + (i / 2) as u32 }).collect()
}

#[test]
fn zip_yields_both_streams() {
    let data: Vec<u8> =
        (0..64).map(|i| if i % 2 == 0 { (i / 2) as u8 } else { 100 + (i / 2) as u8 }).collect();
    let mut zip = SIMDIter::<u8x16>::new(&data).stride_zip();
    let (a, b) = zip.next().unwrap();
    for i in 0..16 {
        assert_eq!(a.extract(i), i as u8);
        assert_eq!(b.extract(i), 100 + i as u8);
    }
    let (a, b) = zip.next().unwrap();
    for i in 0..16 {
        assert_eq!(a.extract(i), 16 + i as u8);
        assert_eq!(b.extract(i), 116 + i as u8);
    }
    assert!(zip.next().is_none());
    assert!(zip.end().is_none());
}

#[test]
fn scalar_len_is_half_of_an_even_length() {
    let data = interleaved(16);
    let base = SIMDIter::<u32x4>::new(&data);
    assert_eq!(base.scalar_len(), 16);
    let zip = base.stride_zip();
    assert_eq!(zip.scalar_len(), 8);
    assert_eq!(zip.len(), 2);
}

#[test]
fn scalar_len_is_half_of_an_odd_length_rounded_down() {
    let data = interleaved(15);
    let zip = SIMDIter::<u32x4>::new(&data).stride_zip();
    assert_eq!(zip.scalar_len(), 7);
    assert_eq!(zip.len(), 1);
    let data = interleaved(1);
    let zip = SIMDIter::<u32x4>::new(&data).stride_zip();
    assert_eq!(zip.scalar_len(), 0);
    assert_eq!(zip.len(), 0);
}

#[test]
fn scalar_len_stays_through_the_steps() {
    let data = interleaved(21);
    let mut zip = SIMDIter::<u32x4>::new(&data).stride_zip();
    assert_eq!(zip.scalar_len(), 10);
    zip.advance(1);
    assert_eq!(zip.scalar_len(), 10);
    assert!(zip.next().is_some());
    assert_eq!(zip.scalar_len(), 10);
    assert!(zip.next().is_none());
    assert_eq!(zip.scalar_len(), 10);
    assert!(zip.end().is_some());
    assert_eq!(zip.scalar_len(), 10);
}

#[test]
fn width_and_size_are_those_of_the_base() {
    let data = interleaved(16);
    let zip = SIMDIter::<u32x4>::new(&data).stride_zip();
    assert_eq!(zip.width(), 4);
    assert_eq!(zip.size(), 4);
    let bytes: Vec<u8> = vec![0; 32];
    let zip = SIMDIter::<u8x16>::new(&bytes).stride_zip();
    assert_eq!(zip.width(), 16);
    assert_eq!(zip.size(), 1);
    let halves: Vec<u16> = vec![0; 32];
    let zip = SIMDIter::<u16x8>::new(&halves).stride_zip();
    assert_eq!(zip.width(), 8);
    assert_eq!(zip.size(), 2);
}

#[test]
fn default_is_a_pair_of_padding_vectors() {
    let data = interleaved(16);
    let zip = SIMDIter::<u32x4>::new(&data).stride_zip();
    let (a, b) = zip.default();
    assert_eq!(a.to_array(), [0, 0, 0, 0]);
    assert_eq!(b.to_array(), [0, 0, 0, 0]);
}

#[test]
fn round_trip_of_an_even_vector_count() {
    let k = 6;
    let data = interleaved(k * 4);
    let mut zip = SIMDIter::<u32x4>::new(&data).stride_zip();
    let mut evens: Vec<u32> = Vec::new();
    let mut odds: Vec<u32> = Vec::new();
    let mut pairs = 0;
    while let Some((a, b)) = zip.next() {
        evens.extend_from_slice(&a.to_array());
        odds.extend_from_slice(&b.to_array());
        pairs += 1;
    }
    assert_eq!(pairs, k / 2);
    assert_eq!(evens, (0..12).collect::<Vec<u32>>());
    assert_eq!(odds, (1000..1012).collect::<Vec<u32>>());
    assert!(zip.end().is_none());
}

#[test]
fn first_pair_exact() {
    let data = interleaved(8);
    let mut zip = SIMDIter::<u32x4>::new(&data).stride_zip();
    let (a, b) = zip.next().unwrap();
    assert_eq!(a.to_array(), [0, 1, 2, 3]);
    assert_eq!(b.to_array(), [1000, 1001, 1002, 1003]);
    assert!(zip.next().is_none());
    assert!(zip.end().is_none());
}

#[test]
fn odd_vector_count_surfaces_through_end() {
    let k = 5;
    let data = interleaved(k * 4);
    let mut zip = SIMDIter::<u32x4>::new(&data).stride_zip();
    let mut pairs = 0;
    while let Some((a, b)) = zip.next() {
        assert_eq!(a.extract(0), 4 * pairs);
        assert_eq!(b.extract(0), 1000 + 4 * pairs);
        pairs += 1;
    }
    assert_eq!(pairs, 2);
    let ((a, b), n) = zip.end().unwrap();
    assert_eq!(n, 2);
    assert_eq!(a.to_array(), [8, 9, 0, 0]);
    assert_eq!(b.to_array(), [1008, 1009, 0, 0]);
    let last = u32x4::load(&data, 16);
    let (x, y) = last.destride_two(u32x4::default());
    assert_eq!(a.to_array(), x.to_array());
    assert_eq!(b.to_array(), y.to_array());
}

#[test]
fn single_full_vector_is_kept_for_end() {
    let data = interleaved(4);
    let mut zip = SIMDIter::<u32x4>::new(&data).stride_zip();
    assert!(zip.next().is_none());
    assert!(zip.next().is_none());
    let ((a, b), n) = zip.end().unwrap();
    assert_eq!(n, 2);
    assert_eq!(a.to_array(), [0, 1, 0, 0]);
    assert_eq!(b.to_array(), [1000, 1001, 0, 0]);
}

#[test]
fn partial_tail_alone() {
    let data = interleaved(8 + 3);
    let mut zip = SIMDIter::<u32x4>::new(&data).stride_zip();
    assert!(zip.next().is_some());
    assert!(zip.next().is_none());
    let ((a, b), n) = zip.end().unwrap();
    assert_eq!(n, 1);
    assert_eq!(a.to_array(), [4, 5, 0, 0]);
    assert_eq!(b.to_array(), [1004, 0, 0, 0]);
}

#[test]
fn partial_tail_of_even_length() {
    let data = interleaved(2);
    let mut zip = SIMDIter::<u32x4>::new(&data).stride_zip();
    assert!(zip.next().is_none());
    let ((a, b), n) = zip.end().unwrap();
    assert_eq!(n, 1);
    assert_eq!(a.to_array(), [0, 0, 0, 0]);
    assert_eq!(b.to_array(), [1000, 0, 0, 0]);
}

#[test]
fn partial_tail_of_one_scalar_has_no_valid_lane() {
    let data = interleaved(1);
    let mut zip = SIMDIter::<u32x4>::new(&data).stride_zip();
    assert!(zip.next().is_none());
    let ((a, b), n) = zip.end().unwrap();
    assert_eq!(n, 0);
    assert_eq!(a.to_array(), [0, 0, 0, 0]);
    assert_eq!(b.to_array(), [0, 0, 0, 0]);
}

#[test]
fn kept_vector_is_split_against_the_tail() {
    let data = interleaved(4 + 3);
    let mut zip = SIMDIter::<u32x4>::new(&data).stride_zip();
    assert!(zip.next().is_none());
    let ((a, b), n) = zip.end().unwrap();
    assert_eq!(n, (4 + 3) / 2);
    assert_eq!(a.to_array(), [0, 1, 2, 3]);
    assert_eq!(b.to_array(), [1000, 1001, 1002, 0]);
}

#[test]
fn end_takes_a_full_vector_that_next_has_not_seen() {
    let data = interleaved(4 + 2);
    let mut zip = SIMDIter::<u32x4>::new(&data).stride_zip();
    let ((a, b), n) = zip.end().unwrap();
    assert_eq!(n, (4 + 2) / 2);
    assert_eq!(a.to_array(), [0, 1, 2, 0]);
    assert_eq!(b.to_array(), [1000, 1001, 1002, 0]);
    assert!(zip.next().is_none());
    assert!(zip.end().is_none());
}

#[test]
fn end_takes_a_last_full_vector_without_a_tail() {
    let data = interleaved(8 + 4);
    let mut zip = SIMDIter::<u32x4>::new(&data).stride_zip();
    assert!(zip.next().is_some());
    let ((a, b), n) = zip.end().unwrap();
    assert_eq!(n, 2);
    assert_eq!(a.to_array(), [4, 5, 0, 0]);
    assert_eq!(b.to_array(), [1004, 1005, 0, 0]);
}

#[test]
fn empty_input_yields_nothing() {
    let data: Vec<u32> = Vec::new();
    let mut zip = SIMDIter::<u32x4>::new(&data).stride_zip();
    assert_eq!(zip.scalar_len(), 0);
    assert!(zip.next().is_none());
    assert!(zip.end().is_none());
}

#[test]
fn exhaustion_lasts() {
    let data = interleaved(8 + 4 + 3);
    let mut zip = SIMDIter::<u32x4>::new(&data).stride_zip();
    assert!(zip.next().is_some());
    assert!(zip.next().is_none());
    assert!(zip.end().is_some());
    let pos = zip.scalar_pos();
    for _ in 0..3 {
        assert!(zip.next().is_none());
        assert!(zip.end().is_none());
        assert_eq!(zip.scalar_pos(), pos);
    }
}

#[test]
fn positions_count_pairs() {
    let data = interleaved(32);
    let mut zip = SIMDIter::<u32x4>::new(&data).stride_zip();
    assert_eq!(zip.scalar_pos(), 0);
    assert_eq!(zip.vector_pos(), 0);
    assert!(zip.next().is_some());
    assert_eq!(zip.scalar_pos(), 4);
    assert_eq!(zip.vector_pos(), 1);
    assert!(zip.next().is_some());
    assert_eq!(zip.scalar_pos(), 8);
    assert_eq!(zip.vector_pos(), 2);
}

#[test]
fn positions_are_relative_to_the_start() {
    let data = interleaved(40);
    let mut base = SIMDIter::<u32x4>::new(&data);
    base.advance(2);
    assert_eq!(base.scalar_pos(), 8);
    let mut zip = base.stride_zip();
    assert_eq!(zip.scalar_pos(), 0);
    assert_eq!(zip.vector_pos(), 0);
    assert_eq!(zip.scalar_len(), 20);
    let (a, b) = zip.next().unwrap();
    assert_eq!(a.to_array(), [4, 5, 6, 7]);
    assert_eq!(b.to_array(), [1004, 1005, 1006, 1007]);
    assert_eq!(zip.scalar_pos(), 4);
    assert_eq!(zip.vector_pos(), 1);
}

#[test]
fn position_after_a_kept_vector_rounds_down() {
    let data = interleaved(12);
    let mut zip = SIMDIter::<u32x4>::new(&data).stride_zip();
    assert!(zip.next().is_some());
    assert!(zip.next().is_none());
    assert_eq!(zip.scalar_pos(), 6);
    assert_eq!(zip.vector_pos(), 1);
}

#[test]
fn advance_skips_pairs() {
    let data = interleaved(32);
    let mut zip = SIMDIter::<u32x4>::new(&data).stride_zip();
    zip.advance(0);
    assert_eq!(zip.scalar_pos(), 0);
    zip.advance(2);
    assert_eq!(zip.scalar_pos(), 8);
    assert_eq!(zip.vector_pos(), 2);
    let (a, b) = zip.next().unwrap();
    assert_eq!(a.to_array(), [8, 9, 10, 11]);
    assert_eq!(b.to_array(), [1008, 1009, 1010, 1011]);
    zip.advance(1);
    assert!(zip.next().is_none());
    assert!(zip.end().is_none());
}

#[test]
fn sixteen_lanes_with_a_tail() {
    let data: Vec<u8> = (0..(32 + 16 + 5)).map(|i| i as u8).collect();
    let mut zip = SIMDIter::<u8x16>::new(&data).stride_zip();
    let (a, b) = zip.next().unwrap();
    for i in 0..16 {
        assert_eq!(a.extract(i), 2 * i as u8);
        assert_eq!(b.extract(i), 2 * i as u8 + 1);
    }
    assert!(zip.next().is_none());
    let ((a, b), n) = zip.end().unwrap();
    assert_eq!(n, (16 + 5) / 2);
    let expect_a = [32, 34, 36, 38, 40, 42, 44, 46, 48, 50, 52, 0, 0, 0, 0, 0];
    let expect_b = [33, 35, 37, 39, 41, 43, 45, 47, 49, 51, 0, 0, 0, 0, 0, 0];
    assert_eq!(a.to_array(), expect_a);
    assert_eq!(b.to_array(), expect_b);
    assert_eq!(<u8x16 as Packed>::WIDTH, 16);
}
