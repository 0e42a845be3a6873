//! A minimal version-control storage engine built on append-only,
//! content-addressed revision logs: fixed 64-byte records over an index and
//! a data stream, a path-to-hash manifest and a changeset record stored as
//! revlog payloads, a working-tree dirstate, and the commit orchestration
//! that keeps all four mutually consistent. The library works on in-memory
//! byte streams and plain values; an unverified shell does the file and
//! terminal work around it.

use vstd::prelude::*;

pub mod changeset;
pub mod codec;
pub mod command;
pub mod commit;
pub mod digest;
pub mod dirstate;
pub mod errors;
pub mod manifest;
pub mod record;
pub mod render;
pub mod repository;
pub mod revlog;

verus! {

/// Size in bytes of one encoded revision record in the index stream.
pub const RECORD_SIZE: usize = 64;

/// Reserved revision number meaning "no such revision" (absent parent).
pub const NULLID_REVISION: u32 = 0xffff_ffff;

} // verus!
