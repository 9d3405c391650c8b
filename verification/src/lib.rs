//! `ikigai-fs`: a capability-gated file/store module.
//!
//! Files are the most dangerous endpoint in a system (arbitrary read and write), so access is
//! confined by two independent layers, both required on every request:
//!
//! 1. **The jail (structural, set at mount time).** [`FileEndpoint::new`] is handed a root
//!    directory and will never serve a path outside it: `..` and absolute segments are rejected,
//!    and an existing target's canonical path must still sit within the canonical root. Where
//!    there is no target yet, the same goes for its nearest ancestor that is there, and for where
//!    a write through a link would make it. Even a root capability cannot escape it.
//! 2. **The capability path-ACL (dynamic, per request).** The capability of the invocation must
//!    grant the request's action on the resolved path.
//!
//! A file capability is carried as scopes of the form `urn:cap:fs:<action>:<path>`, where
//! `<action>` is `read`, `write` or `delete` and `<path>` is an absolute directory or file. A
//! leading `-` on the path marks a deny. Matching is longest-prefix wins: the most specific rule
//! whose directory contains the path decides, a deny breaks ties, and no rule at all means no. The
//! root capability allows everything within the jail.
//!
//! The crate decides; a host does the work on its store in between (see [`endpoint`]). Paths are
//! slash-separated text (see [`path`]), as on Unix hosts and in the browser store (see
//! [`browser`]). What is proved of the whole stands in [`laws`], and beside their subjects in
//! [`acl`], [`path`], [`representation`], [`browser`] and [`text`]; what is taken on trust of the
//! kernel stands in [`kernel`], and of the standard library in [`text`].

pub mod acl;
pub mod browser;
pub mod endpoint;
pub mod error;
pub mod kernel;
pub mod laws;
pub mod path;
pub mod representation;
pub mod text;

pub use endpoint::{
    backend_error, confirm_containment, delete_reply, exists_reply, file_template, known_root,
    search_from, search_step, write_reply, BackendStep, FileEndpoint, Finding, Location, Operation,
    Outcome, Place, Search, FILE_TEMPLATE, LINK_LIMIT,
};
pub use error::FsError;
