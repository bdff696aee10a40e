//! Vectorised iteration over interleaved data.
//!
//! A packed vector holds a fixed number of scalar lanes. A base iterator walks
//! an array of scalars one packed vector at a time and hands out the last,
//! partial vector separately. On top of these, `stride_zip` splits an
//! interleaved array `[a0, b0, a1, b1, ...]` into its two streams, vector by
//! vector, and `Popcnt` counts the set bits of a vector.
pub mod intrin;
pub mod iters;
pub mod stride_zip;
pub mod vecs;
