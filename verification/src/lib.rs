//! A project-scaffolding library: a registry of named templates, a planner
//! that re-roots a template's file tree under a destination directory, and a
//! token substitution engine that rewrites placeholder tokens such as
//! `<name>` in copied file contents.
//!
//! File contents and path fragments are handled as byte vectors; the
//! surrounding binary converts to and from platform path and string types.

pub mod catalog;
pub mod materialize;
pub mod paths;
pub mod subst;
pub mod template;
