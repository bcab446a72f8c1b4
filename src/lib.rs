//! Readers for molecular line catalogues (LAMDA) and the rules that govern
//! radio-telescope beam descriptors.

pub mod beam;
pub mod errors;
pub mod io;
pub mod lamda;
pub mod lamda_proofs;
pub mod text;
pub mod utils;
