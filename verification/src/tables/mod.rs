//! The lookup tables of the symbology. Each table lives in a module of its
//! own, beside the functions that read it and the facts proved of it.
pub mod alignment;
pub mod blocks;
pub mod capacity;
pub mod field;
pub mod info;
pub mod polynomials;
