//! Discrete core of a modal analysis of undercut bars.
//!
//! A bar is discretised into beam elements of equal length whose heights are
//! carved by symmetric undercuts. This crate holds the parts of that analysis
//! that are decided by comparisons and index arithmetic: the order of
//! double-precision numbers, the decoding of cuts into a height profile, the
//! layout of the degrees of freedom, the retry policy of the mass-matrix
//! factorisation, the selection of elastic modes from a spectrum, the rules
//! by which a candidate is scored, and the bookkeeping of a population of
//! candidates that are evaluated side by side.
//!
//! Numbers are carried as IEEE 754 bit patterns ([`binary64::Binary64`]); the
//! arithmetic on them is left to the caller.
pub mod arrangement;
pub mod binary64;
pub mod fault;
pub mod fitness;
pub mod mesh;
pub mod modes;
pub mod population;
pub mod profile;
pub mod solver;
