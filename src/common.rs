//! Pieces shared by the computations: records, nucleotide transforms, text.
pub mod dna;
pub mod fasta;
pub mod text;

use crate::errors::{Error, ErrorKind};
use vstd::prelude::*;

verus! {

/// The name of the argument that gives the input file.
pub const FILE_ARG: &'static str = "file";

/// Return argument error
pub fn argument_err() -> (r: Error)
    ensures
        r.spec_kind() == ErrorKind::User,
        r.spec_message() == "file argument required"@,
{
    Error::new(ErrorKind::User, "file argument required")
}

} // verus!
