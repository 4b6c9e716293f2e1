//! Bookkeeping of a streaming MFCC front end.
//!
//! A front end turns blocks of 16-bit audio samples into vectors of
//! mel-frequency cepstral coefficients with their deltas and delta-deltas,
//! normalized by a running mean. Its numeric stages (window weights, Fourier
//! and cosine transforms, logarithms) work on real numbers and are the
//! caller's: they are handed in as functions. This crate holds what lies
//! around them and proves it: the sliding window of raw samples, the routing
//! of spectral bins into mel filters, the history of frames with the deltas
//! and the mean taken from it, and the order in which the stages run.
//!
//! Each contract is stated over the functions that were handed in: it says
//! which operands each was applied to and where its result went.

pub mod features;
pub mod filterbank;
pub mod transform;
pub mod window;
