//! Verified core of a resumable, block-granular file copier.
//!
//! A file of `total_size` bytes is split into fixed-size blocks (the last one
//! possibly shorter).  Every block is either already hash-identical to its
//! source counterpart and left alone, or rewritten and re-verified until it
//! matches.  The modules hold the verified logic: block geometry, the
//! destination preparation decision, the digest oracle, and the block engine.

pub mod digest;
pub mod engine;
pub mod extent;
pub mod prepare;
