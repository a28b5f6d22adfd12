//! Shared libraries: the soname and the DT_NEEDED entries of the dynamic
//! section.

use crate::parse::elf::Dyn;
use crate::profile::Lib;
use vstd::prelude::*;

verus! {

/// The library at `rel`, from what its dynamic section showed: no soname
/// and nothing needed when it showed nothing.
pub fn parse(rel: &str, d: Option<Dyn>) -> (l: Lib)
    ensures
        l.path@ == rel@,
        match d {
            Some(x) => l.soname == x.soname && l.needed == x.needed,
            None => l.soname is None && l.needed@.len() == 0,
        },
{
    match d {
        Some(x) => Lib { path: String::from_str(rel), soname: x.soname, needed: x.needed },
        None => Lib { path: String::from_str(rel), soname: None, needed: Vec::new() },
    }
}

} // verus!
