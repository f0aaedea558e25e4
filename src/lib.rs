//! Resolves matrix-style descriptions of container images into a reproducible
//! lock, and synthesizes multi-stage build files from it.
//!
//! Version patterns are matched token by token ([`version`]), templates are
//! rendered strictly ([`template`]), declared builds are expanded into every
//! combination of base and feature versions and pinned ([`update`],
//! [`resolve`]), and a lock becomes a build file whose copies only ever refer
//! to stages opened before them ([`docker_file`]). Fetching from registries and
//! source hosts happens outside; [`fetch`] holds the decisions around it.
use vstd::prelude::*;

pub mod config;
pub mod diff;
pub mod docker_file;
pub mod error;
pub mod fetch;
pub mod resolve;
pub mod text;
pub mod update;
pub mod lock;
pub mod order;
pub mod template;
pub mod version;

verus! {

} // verus!
