//! Core of a one-way, timestamp-based directory synchronizer.
//!
//! The library compares an in-memory snapshot of a read-only source tree
//! against a snapshot of a mutable target (backup) tree, reports every
//! difference, flags the differences that look unsafe to overwrite
//! blindly, and plans the filesystem operations that propagate approved
//! changes from source to target.  Scanning directories and performing
//! the planned operations are I/O and live outside this crate; everything
//! here is pure and verified.

pub mod entry;
pub mod tree;
pub mod differences;
pub mod compare;
pub mod verify;
pub mod paths;
pub mod apply;
pub mod convergence;
pub mod select;
pub mod containment;
