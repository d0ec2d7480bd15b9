//! The configuration surface, as plain values. The binary's argument
//! parser fills these in; the library and its contracts read them.

use vstd::prelude::*;

verus! {

/// Top-level invocation: one subcommand.
#[derive(Debug)]
pub struct RunArgs {
    pub cmd: SubCommand,
}

/// The tool's two roles: serving a JBOD over HTTP, or mirroring one onto
/// local destination volumes.
#[derive(Debug)]
pub enum SubCommand {
    /// Serve the listed source volumes on the given port.
    Serve { src_paths: Vec<String>, port: u16 },
    /// Mirror a served tree onto destination volumes.
    Download(DownloadConfig),
}

/// Configuration of one download run.
#[derive(Debug)]
pub struct DownloadConfig {
    /// Base URL of the remote daemon.
    pub url: String,
    /// Destination volume roots, in configured order.
    pub dst_paths: Vec<String>,
    /// Bearer token for the remote daemon.
    pub auth: String,
    /// Number of concurrent transfer workers.
    pub threads: u16,
    /// Decide placements and report, with no network call or write for
    /// absent files.
    pub dry_run: bool,
    /// Optional grouping pattern deriving a group key from a file name.
    pub group_by: Option<String>,
    /// Optional glob that must expand to exactly one preload directory per
    /// destination volume, in corresponding order.
    pub group_by_preload: Option<String>,
}

} // verus!
