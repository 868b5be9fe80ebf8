//! Logic of two small page widgets: a reading-time estimate for a draft text
//! and a color choice mirrored to a persistent key-value store.
//!
//! Everything here is pure: no store is touched and nothing is rendered.
//! The embedding application reads the store, hands the answer in, and
//! carries out the writes that the functions ask for.

pub mod color;
pub mod read_time;
pub mod single;
pub mod words;
