//! The system-wide locations and those of one user.

pub mod global;
pub mod local;
