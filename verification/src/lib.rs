//! Cross-process, identifier-keyed memory exchange: a process stores a byte
//! region under a nonzero 64-bit key, optionally publishing the region's
//! address in a system-wide directory so that another process, knowing the
//! publisher's process id and the key, can read or overwrite the region.
//!
//! The crate verifies the whole exchange logic over an explicit model: owned
//! byte buffers stand for heap allocations, abstract numeric addresses stand
//! for pointers, and a record list stands for the persistent directory. The
//! host's own privileged operations (opening a process, copying bytes across
//! address spaces, persisting the directory) are driven from outside through
//! the session actions of [`engine`].

pub mod bytes;
pub mod directory;
pub mod engine;
pub mod errors;
pub mod exports;
pub mod hex_addr;
pub mod mem_map;
pub mod store;

use vstd::prelude::*;

verus! {

} // verus!
