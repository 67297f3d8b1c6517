//! The persisted configuration document: a canonical, YAML-compatible
//! rendering of the whole routing table, written by the encoder and read
//! back by the decoder, with a proved round trip.

pub mod primitives;
pub mod seqs;
pub mod views;
pub mod doc;
pub mod emit;
pub mod parse;
