//! Builds a private binary distribution repository: classifies configured crates by
//! source, plans their download, edits their manifests, names, signs and packages
//! the built binaries.

pub mod text;
pub mod paths;
pub mod sources;
pub mod download;
pub mod manifest;
pub mod dependencies;
pub mod signing;
pub mod package;
pub mod builder;
pub mod cli;
pub mod config;
