//! Reading of sequence-record files, nucleotide transforms, and small
//! computations over nucleotide and protein strings.
pub mod common;
pub mod errors;
pub mod problems;
