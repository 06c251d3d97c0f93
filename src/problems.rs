//! Computations over nucleotide and protein strings, one module per task.
pub mod prot;
pub mod mrna;
pub mod cons;
pub mod lexf;
pub mod fib;
pub mod fibd;
pub mod hamm;
pub mod revc;
pub mod rna;
pub mod subs;
pub mod grph;
pub mod mprt;
pub mod tran;
pub mod orf;
pub mod dna;
pub mod splc;
pub mod revp;
pub mod lgis;
pub mod lcsm;
pub mod iprb;
pub mod perm;
pub mod iev;
pub mod lia;
