//! Toolchains, found by their artifacts: the `<name>/<version>` pair above
//! a `crt*.o` or `*.a` file, skipping intermediate `lib` and `include`
//! directories.

use crate::profile::Toolchain;
use crate::route::parent_exec;
use crate::text::{
    chars_of, ends_lit, ends_with, eq_lit, last_seg, last_seg_exec, lemma_rfind_char, parent,
    starts_lit, starts_with, string_of,
};
use vstd::prelude::*;

verus! {

// ------------------------------------------------------------ toolchains

/// The parent of a path as `Path::parent` gives it for a relative path:
/// everything before the last `/`, or the empty path.
pub open spec fn path_parent(s: Seq<char>) -> Seq<char> {
    match parent(s) {
        Some(p) => p,
        None => Seq::empty(),
    }
}

pub proof fn lemma_path_parent_len(s: Seq<char>)
    requires
        s.len() > 0,
    ensures
        path_parent(s).len() < s.len(),
{
    lemma_rfind_char(s, '/');
}

/// `dir` with trailing `lib` and `include` segments removed.
pub open spec fn strip_intermediate(dir: Seq<char>) -> Seq<char>
    decreases dir.len(),
{
    if dir.len() > 0 && (last_seg(dir) == "lib"@ || last_seg(dir) == "include"@) {
        proof {
            lemma_path_parent_len(dir);
        }
        strip_intermediate(path_parent(dir))
    } else {
        dir
    }
}

pub open spec fn is_toolchain_artifact(name: Seq<char>) -> bool {
    ends_with(name, ".a"@) || (starts_with(name, "crt"@) && ends_with(name, ".o"@))
}

/// A toolchain artifact's `<name>/<version>` pair above it, skipping
/// intermediate `lib` and `include` directories, as (name, version).
pub open spec fn toolchain_of(rel: Seq<char>) -> Option<(Seq<char>, Seq<char>)> {
    match parent(rel) {
        Some(p) => {
            let c = strip_intermediate(p);
            let pp = path_parent(c);
            if is_toolchain_artifact(last_seg(rel)) && c.len() > 0 && pp.len() > 0 && last_seg(
                pp,
            ).len() > 0 && last_seg(c).len() > 0 {
                Some((last_seg(pp), last_seg(c)))
            } else {
                None
            }
        },
        None => None,
    }
}

fn path_parent_exec(s: &[char]) -> (r: Vec<char>)
    ensures
        r@ == path_parent(s@),
{
    match parent_exec(s) {
        Some(p) => p,
        None => Vec::new(),
    }
}

/// Detects a toolchain from one of its artifacts.
pub fn detect_toolchain(rel: &str) -> (t: Option<Toolchain>)
    ensures
        t matches Some(v) ==> toolchain_of(rel@) == Some((v.name@, v.version@)) && v.path@
            == rel@,
        t is None ==> toolchain_of(rel@) is None,
{
    let r = chars_of(rel);
    let s = r.as_slice();
    let name = last_seg_exec(s);
    let ns = name.as_slice();
    if !(ends_lit(ns, ".a") || (starts_lit(ns, "crt") && ends_lit(ns, ".o"))) {
        return None;
    }
    let mut cur = match parent_exec(s) {
        Some(p) => p,
        None => return None,
    };
    let ghost p0 = cur@;
    loop
        invariant
            strip_intermediate(p0) == strip_intermediate(cur@),
        ensures
            strip_intermediate(p0) == strip_intermediate(cur@),
            cur@.len() == 0 || !(last_seg(cur@) == "lib"@ || last_seg(cur@) == "include"@),
        decreases cur@.len(),
    {
        if cur.len() == 0 {
            break;
        }
        let seg = last_seg_exec(cur.as_slice());
        if eq_lit(seg.as_slice(), "lib") || eq_lit(seg.as_slice(), "include") {
            proof {
                lemma_path_parent_len(cur@);
            }
            cur = path_parent_exec(cur.as_slice());
        } else {
            break;
        }
    }
    assert(strip_intermediate(cur@) == cur@);
    if cur.len() == 0 {
        return None;
    }
    let pp = path_parent_exec(cur.as_slice());
    if pp.len() == 0 {
        return None;
    }
    let tname = last_seg_exec(pp.as_slice());
    let version = last_seg_exec(cur.as_slice());
    if tname.len() == 0 || version.len() == 0 {
        return None;
    }
    Some(
        Toolchain {
            path: string_of(s),
            name: string_of(tname.as_slice()),
            version: string_of(version.as_slice()),
        },
    )
}

} // verus!
