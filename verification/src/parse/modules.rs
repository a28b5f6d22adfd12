//! Kernel modules: `.ko` files under `lib/modules/<kernel>/`, at the root
//! of the layer or below a directory.

use crate::profile::Module;
use crate::route::{modules_rest, modules_rest_exec};
use crate::text::{
    chars_of, find, find_exec, first_char, first_char_exec, first_seg, first_seg_exec, last_seg,
    last_seg_exec, lemma_find, lemma_first_char, slice_chars, string_of,
};
use vstd::prelude::*;

verus! {

// ------------------------------------------------------------ modules

/// A kernel module: `[.../]lib/modules/<kernel>/.../<name>.ko[...]`, as
/// (name, kernel).
pub open spec fn module_of(rel: Seq<char>) -> Option<(Seq<char>, Seq<char>)> {
    match modules_rest(rel) {
        Some(k) => {
            let rest = rel.skip(k);
            let file = last_seg(rel);
            if first_char(rest, '/') < rest.len() && find(file, ".ko"@) is Some {
                Some((file.take(find(file, ".ko"@)->0), first_seg(rest)))
            } else {
                None
            }
        },
        None => None,
    }
}

/// Parses a kernel module path.
pub fn parse(rel: &str) -> (m: Option<Module>)
    ensures
        m matches Some(v) ==> module_of(rel@) == Some((v.name@, v.kernel@)) && v.path@ == rel@,
        m is None ==> module_of(rel@) is None,
{
    let r = chars_of(rel);
    let s = r.as_slice();
    let n = s.len();
    let k = match modules_rest_exec(s) {
        Some(k) => k,
        None => return None,
    };
    let rest = slice_chars(s, k, n);
    assert(rest@ == s@.skip(k as int));
    let slash = first_char_exec(rest.as_slice(), '/');
    if slash >= rest.len() {
        return None;
    }
    let file = last_seg_exec(s);
    let ko = chars_of(".ko");
    let kk = match find_exec(file.as_slice(), ko.as_slice()) {
        Some(kk) => kk,
        None => return None,
    };
    proof {
        lemma_find(file@, ".ko"@);
        lemma_first_char(rest@, '/');
    }
    let name = slice_chars(file.as_slice(), 0, kk);
    let kernel = first_seg_exec(rest.as_slice());
    Some(
        Module {
            path: string_of(s),
            name: string_of(name.as_slice()),
            kernel: string_of(kernel.as_slice()),
        },
    )
}

} // verus!
