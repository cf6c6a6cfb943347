//! A PLONK-style arithmetic-circuit constraint system with an exhaustive
//! reference checker, and a small example circuit built on it.
pub mod field;
pub mod system;
pub mod assignment;
pub mod checker;
pub mod tutorial;
