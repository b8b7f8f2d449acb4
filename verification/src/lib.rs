//! hut — a build system and package manager for C/C++ projects: manifests,
//! lockfiles, dependency resolution, include and flag computation, and the
//! command-line grammar.

pub mod builder;
pub mod cli;
pub mod config;
pub mod error;
pub mod fetch;
pub mod flags;
pub mod headers;
pub mod index;
pub mod lockfile;
pub mod package;
pub mod project;
pub mod registry;
pub mod resolver;
pub mod text;
pub mod table;
pub mod tags;
pub mod versions;
