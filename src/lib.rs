//! Fractional period of byte sequences: three detectors, generators of test
//! sequences, batches grouped by length, and the mean period over a batch.

pub mod algorithms;
pub mod batch;
pub mod error;
pub mod input;
pub mod periodicity;
pub mod statistics;
