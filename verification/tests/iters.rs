use faster::iters::{SIMDIter, SIMDIterator};
use faster::vecs::{u32x4, u8x16, Packed};

#[test]
fn lengths_and_positions_at_start() {
    let data: Vec<u32> = (0..10).collect();
    let it = SIMDIter::<u32x4>::new(&data);
    assert_eq!(it.scalar_len(), 10);
    assert_eq!(it.len(), 2);
    assert_eq!(it.scalar_pos(), 0);
    assert_eq!(it.vector_pos(), 0);
}

#[test]
fn next_yields_full_vectors_in_turn() {
    let data: Vec<u32> = (0..10).collect();
    let mut it = SIMDIter::<u32x4>::new(&data);
    assert_eq!(it.next().unwrap().to_array(), [0, 1, 2, 3]);
    assert_eq!(it.scalar_pos(), 4);
    assert_eq!(it.vector_pos(), 1);
    assert_eq!(it.next().unwrap().to_array(), [4, 5, 6, 7]);
    assert_eq!(it.scalar_pos(), 8);
    assert_eq!(it.vector_pos(), 2);
    assert!(it.next().is_none());
    assert_eq!(it.scalar_pos(), 8);
}

#[test]
fn end_yields_the_padded_tail_once() {
    let data: Vec<u32> = (0..10).collect();
    let mut it = SIMDIter::<u32x4>::new(&data);
    it.advance(2);
    let (tail, n) = it.end().unwrap();
    assert_eq!(tail.to_array(), [8, 9, 0, 0]);
    assert_eq!(n, 2);
    assert_eq!(it.scalar_pos(), 10);
    assert!(it.end().is_none());
    assert!(it.next().is_none());
}

#[test]
fn end_without_a_tail_is_none() {
    let data: Vec<u32> = (0..8).collect();
    let mut it = SIMDIter::<u32x4>::new(&data);
    assert!(it.next().is_some());
    assert!(it.next().is_some());
    assert!(it.next().is_none());
    assert!(it.end().is_none());
    assert_eq!(it.scalar_pos(), 8);
}

#[test]
fn advance_skips_vectors() {
    let data: Vec<u8> = (0..50).collect();
    let mut it = SIMDIter::<u8x16>::new(&data);
    it.advance(0);
    assert_eq!(it.scalar_pos(), 0);
    it.advance(2);
    assert_eq!(it.scalar_pos(), 32);
    assert_eq!(it.vector_pos(), 2);
    assert_eq!(it.next().unwrap().extract(0), 32);
    let (tail, n) = it.end().unwrap();
    assert_eq!(n, 2);
    assert_eq!(tail.extract(0), 48);
    assert_eq!(tail.extract(1), 49);
    assert_eq!(tail.extract(2), 0);
}

#[test]
fn default_is_padding() {
    let data: Vec<u32> = vec![5, 6, 7];
    let it = SIMDIter::<u32x4>::new(&data);
    assert_eq!(it.default().to_array(), [0, 0, 0, 0]);
}

#[test]
fn empty_array_yields_nothing() {
    let data: Vec<u32> = Vec::new();
    let mut it = SIMDIter::<u32x4>::new(&data);
    assert_eq!(it.scalar_len(), 0);
    assert_eq!(it.len(), 0);
    assert!(it.next().is_none());
    assert!(it.end().is_none());
}

#[test]
fn short_array_is_all_tail() {
    let data: Vec<u32> = vec![5, 6, 7];
    let mut it = SIMDIter::<u32x4>::new(&data);
    assert_eq!(it.len(), 0);
    assert!(it.next().is_none());
    let (tail, n) = it.end().unwrap();
    assert_eq!(tail.to_array(), [5, 6, 7, 0]);
    assert_eq!(n, 3);
}
