//! Where the package manager keeps its files.

pub mod path;
