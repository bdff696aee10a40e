//! Operations on packed vectors.
pub mod destride;
pub mod popcnt;
