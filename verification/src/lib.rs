//! EasyShare: a single-executable LAN chat and file-sharing server.
//!
//! This crate holds what the server computes: client identities and the
//! packets used to find them, avatars, UI language, the message model and
//! store rules, and the decisions of the HTTP handlers.
use vstd::prelude::*;

pub mod text;
pub mod identity;
pub mod avatar;
pub mod models;
pub mod db;
pub mod i18n;
pub mod state;
pub mod handlers;

verus! {

/// Upload size cap: 1 GiB (the web framework's default of 2 MiB is far too
/// small for a file-sharing tool).
pub const MAX_BODY_SIZE: usize = 1024 * 1024 * 1024;

} // verus!
