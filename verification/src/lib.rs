//! Inventory of a layer root file system: binaries, libraries, desktop
//! entries, services and other artifacts, classified by path and content.
//! A scan is a machine that asks for file-system facts and decides from the
//! replies; a single pass, no caching.

pub mod text;
pub mod profile;
pub mod route;
pub mod toolchains;
pub mod bytes;
pub mod content;
pub mod parse;
pub mod fsio;
pub mod vote;
pub mod order;
pub mod layer;
pub mod records;
pub mod walk;
pub mod scan;
pub mod laws;

pub use profile::{
    Bin, Cursor, Desktop, Font, Icon, LayerProfile, Lib, Libc, Locale, ManPage, Module, Service,
    Session, Theme, Toolchain,
};

use vstd::prelude::*;

verus! {

/// A scan failure.
#[derive(Debug, Clone)]
pub enum ScanError {
    /// A thread performing the scan panicked, with the panic message.
    Panic(String),
}

impl ScanError {
    /// The message of the failure.
    pub fn message(&self) -> (s: String)
        ensures
            match self {
                ScanError::Panic(m) => s@ == "scan panicked: "@ + m@,
            },
    {
        match self {
            ScanError::Panic(m) => {
                let mut s = String::from_str("scan panicked: ");
                s.append(m.as_str());
                s
            },
        }
    }
}

/// The built-in probe depth for unclassified directories.
pub const PROBE_DEPTH: usize = 4;

/// Custom bin and lib roots for non-standard layouts: register paths like
/// `System/Applications` so that the files right under them are detected as
/// binaries without recompiling the scanner.
#[derive(Clone, Debug)]
pub struct ScanConfig {
    /// Extra directories whose direct children are treated as binaries;
    /// no trailing slash. The built-in list always applies.
    pub bin_roots: Vec<String>,
    /// Extra directories whose direct children are treated as libraries;
    /// no trailing slash. The built-in list always applies.
    pub lib_roots: Vec<String>,
    /// Max depth for probing unclassified directories; 0 means the
    /// built-in default (4), which suits standard trees.
    pub probe_depth: usize,
}

impl ScanConfig {
    /// Empty config: only the built-in bin and lib roots are used.
    pub fn new() -> (c: ScanConfig)
        ensures
            c.bin_roots@.len() == 0,
            c.lib_roots@.len() == 0,
            c.probe_depth == 0,
    {
        ScanConfig { bin_roots: Vec::new(), lib_roots: Vec::new(), probe_depth: 0 }
    }

    /// Registers an extra bin root.
    pub fn with_bin_root(self, path: &str) -> (c: ScanConfig)
        ensures
            profile::strs_view(c.bin_roots@) == profile::strs_view(self.bin_roots@).push(path@),
            c.lib_roots == self.lib_roots,
            c.probe_depth == self.probe_depth,
    {
        let mut c = self;
        let ghost before = c.bin_roots@;
        c.bin_roots.push(String::from_str(path));
        assert(profile::strs_view(c.bin_roots@) =~= profile::strs_view(before).push(path@));
        c
    }

    /// Registers an extra lib root.
    pub fn with_lib_root(self, path: &str) -> (c: ScanConfig)
        ensures
            profile::strs_view(c.lib_roots@) == profile::strs_view(self.lib_roots@).push(path@),
            c.bin_roots == self.bin_roots,
            c.probe_depth == self.probe_depth,
    {
        let mut c = self;
        let ghost before = c.lib_roots@;
        c.lib_roots.push(String::from_str(path));
        assert(profile::strs_view(c.lib_roots@) =~= profile::strs_view(before).push(path@));
        c
    }

    /// Overrides the probe depth for unclassified directories.
    pub fn with_probe_depth(self, depth: usize) -> (c: ScanConfig)
        ensures
            c.probe_depth == depth,
            c.bin_roots == self.bin_roots,
            c.lib_roots == self.lib_roots,
    {
        let mut c = self;
        c.probe_depth = depth;
        c
    }

    /// The extra bin roots, as text.
    pub open spec fn bin_roots_view(&self) -> Seq<Seq<char>> {
        profile::strs_view(self.bin_roots@)
    }

    /// The extra lib roots, as text.
    pub open spec fn lib_roots_view(&self) -> Seq<Seq<char>> {
        profile::strs_view(self.lib_roots@)
    }

    /// The depth at which probing stops: the configured depth, or the
    /// built-in one when none is set.
    pub open spec fn probe_limit(&self) -> usize {
        if self.probe_depth == 0 {
            PROBE_DEPTH
        } else {
            self.probe_depth
        }
    }

    pub fn probe_limit_exec(&self) -> (d: usize)
        ensures
            d == self.probe_limit(),
    {
        if self.probe_depth == 0 {
            PROBE_DEPTH
        } else {
            self.probe_depth
        }
    }
}

impl Default for ScanConfig {
    /// The empty config: only the built-in bin and lib roots are used.
    fn default() -> (c: ScanConfig)
        ensures
            c.bin_roots@.len() == 0,
            c.lib_roots@.len() == 0,
            c.probe_depth == 0,
    {
        ScanConfig::new()
    }
}

} // verus!
