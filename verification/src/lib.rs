//! Placement and transfer engine for mirroring a file tree from a JBOD
//! source onto a set of independent destination volumes.
//!
//! The library holds the decision logic of the tool: merging per-volume
//! file listings, locating already-present copies, deriving group keys,
//! choosing a destination volume by free-space weight, and keeping the
//! shared placement index and run counters consistent. Network and
//! filesystem work is done by the surrounding binary, which feeds the
//! results (listings, probe sizes, transfer outcomes) into these
//! functions as plain values.

pub mod cli;
pub mod coordinator;
pub mod filelist;
pub mod group;
pub mod jbod;
pub mod index;
pub mod paths;
pub mod placement;
pub mod transfer;
