//! Verified core of a snapshot-based backup manager for a ZFS-like
//! storage pool.
//!
//! The library is organized as a read/compute/act cycle: the surrounding
//! binary reads raw tool output and hands it to the library as plain
//! lines, the library parses it into an immutable inventory and computes
//! pure decisions (which snapshot index to allocate next, which snapshots
//! to prune, which transfers a clone needs), and the binary then executes
//! the command lines the library built.  Everything that decides or
//! computes is verified here; only the subprocess plumbing lives outside.

pub mod backup;
pub mod commands;
pub mod config;
pub mod errors;
pub mod format;
pub mod inventory;
pub mod lvm;
pub mod names;
pub mod replicate;
pub mod retention;
pub mod strutil;
pub mod zfs;
