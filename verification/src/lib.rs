//! Repository and index subsystem of a cross-distribution package manager.
//!
//! The crate parses Debian-style control text, assembles package catalogs
//! from archive mirrors and native manifests, merges independently configured
//! sources, plans the conversion of Debian binary packages and the build of a
//! publishable index. Every decision is a verified function on plain values;
//! transport, file access and process state stay with the caller.

pub mod apt;
pub mod archive;
pub mod control;
pub mod error;
pub mod index;
pub mod ingest;
pub mod init;
pub mod ipm;
pub mod list;
pub mod metadata;
pub mod number;
pub mod outside;
pub mod package;
pub mod pkg;
pub mod record;
pub mod relation;
pub mod repo;
pub mod route;
pub mod server;
pub mod system;
pub mod text;
pub mod www;
