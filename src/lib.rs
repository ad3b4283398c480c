//! Flags identifiers whose spelling is on a list of banned words, and gives
//! each hit with the source line around it.
pub mod haskell;
pub mod line;
pub mod report;
pub mod scan;
pub mod words;
