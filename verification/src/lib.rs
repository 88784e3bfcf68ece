//! A structured language/region identifier (a BCP 47 style tag) together with
//! a locale facade over it: grammar-driven parsing with case normalization,
//! canonical re-serialization of the base identity, extraction of the
//! locale-preference keywords carried in the `u` extension, and a per-thread
//! cell that holds the active locale.

pub mod keywords;
pub mod laws;
pub mod locale;
pub mod parse;
pub mod registry;
pub mod split;
pub mod subtag;
pub mod tag;
