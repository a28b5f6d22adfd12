//! C runtimes: every distinct loader named by the binaries, first
//! occurrence first, with its file-name stem.

use crate::profile::{Bin, Libc};
use crate::text::{
    chars_of, find, find_lit, last_seg, last_seg_exec, lemma_find, slice_chars, string_of,
};
use crate::vote::dedup;
use vstd::prelude::*;

verus! {

// ------------------------------------------------------------ loaders, engines

/// A loader's stem: its file name cut before the first `.so`
/// (`/lib/ld-musl-x86_64.so.1` is `ld-musl-x86_64`).
pub open spec fn loader_stem(interp: Seq<char>) -> Seq<char> {
    let base = last_seg(interp);
    match find(base, ".so"@) {
        Some(i) => base.take(i),
        None => base,
    }
}

pub fn loader_stem_exec(interp: &str) -> (r: String)
    ensures
        r@ == loader_stem(interp@),
{
    let v = chars_of(interp);
    let base = last_seg_exec(v.as_slice());
    proof {
        lemma_find(base@, ".so"@);
    }
    match find_lit(base.as_slice(), ".so") {
        Some(i) => {
            let c = slice_chars(base.as_slice(), 0, i);
            string_of(c.as_slice())
        },
        None => string_of(base.as_slice()),
    }
}

// ------------------------------------------------------------ libc

/// The interpreters of the binaries, in order (static binaries and scripts
/// have none).
pub open spec fn interps(bins: Seq<Bin>) -> Seq<Seq<char>>
    decreases bins.len(),
{
    if bins.len() == 0 {
        Seq::empty()
    } else {
        let r = interps(bins.drop_last());
        match bins.last().interp {
            Some(i) => r.push(i@),
            None => r,
        }
    }
}

/// The C runtimes of a layer: every distinct interpreter, first occurrence
/// first, with its loader stem, as (name, interp).
pub open spec fn libcs_of(bins: Seq<Bin>) -> Seq<(Seq<char>, Seq<char>)> {
    dedup(interps(bins)).map_values(|i: Seq<char>| (loader_stem(i), i))
}

pub open spec fn libc_view(l: Libc) -> (Seq<char>, Seq<char>) {
    (l.name@, l.interp@)
}

/// Every distinct loader across the binaries, first occurrence first.
///
/// The interpreters seen so far are kept in a `Vec` and searched in full:
/// the membership of a `HashSet<String>` has no specification to prove from, while a
/// `Vec` of the distinct interpreters is exactly the `dedup` the contract
/// speaks of. A layer has a handful of distinct loaders, so the search
/// stays short.
pub fn from_bins(bins: &Vec<Bin>) -> (v: Vec<Libc>)
    ensures
        v@.map_values(|l: Libc| libc_view(l)) == libcs_of(bins@),
{
    let ghost target = dedup(interps(bins@));
    let mut seen: Vec<Vec<char>> = Vec::new();
    let mut out: Vec<Libc> = Vec::new();
    let mut i: usize = 0;
    while i < bins.len()
        invariant
            i <= bins@.len(),
            crate::content::views(seen@) == dedup(interps(bins@.take(i as int))),
            out@.len() == seen@.len(),
            forall|k: int|
                0 <= k < out@.len() ==> #[trigger] libc_view(out@[k]) == (loader_stem(
                    seen@[k]@,
                ), seen@[k]@),
        decreases bins@.len() - i,
    {
        assert(bins@.take(i + 1).drop_last() == bins@.take(i as int));
        assert(bins@.take(i + 1).last() == bins@[i as int]);
        let ghost pre = interps(bins@.take(i as int));
        match &bins[i].interp {
            Some(it) => {
                assert(interps(bins@.take(i + 1)) == pre.push(it@));
                assert(pre.push(it@).drop_last() == pre);
                assert(pre.push(it@).last() == it@);
                let c = crate::text::chars_of(it.as_str());
                let ghost old_seen = seen@;
                if !contains_chars(&seen, &c) {
                    let name = loader_stem_exec(it.as_str());
                    out.push(Libc { name, interp: it.clone() });
                    seen.push(c);
                    assert(crate::content::views(seen@) == crate::content::views(old_seen).push(
                        it@,
                    ));
                    assert(libc_view(out@[out@.len() - 1]) == (loader_stem(seen@[out@.len() - 1]@), seen@[out@.len() - 1]@));
                }
            },
            None => {
                assert(interps(bins@.take(i + 1)) == pre);
            },
        }
        i += 1;
    }
    assert(bins@.take(bins@.len() as int) == bins@);
    assert(out@.map_values(|l: Libc| libc_view(l)) =~= libcs_of(bins@));
    out
}

fn contains_chars(v: &Vec<Vec<char>>, x: &Vec<char>) -> (b: bool)
    ensures
        b == crate::content::views(v@).contains(x@),
{
    let ghost vs = crate::content::views(v@);
    let mut i: usize = 0;
    while i < v.len()
        invariant
            i <= v@.len(),
            vs == crate::content::views(v@),
            forall|j: int| 0 <= j < i ==> vs[j] != x@,
        decreases v@.len() - i,
    {
        if crate::text::eq_exec(v[i].as_slice(), x.as_slice()) {
            assert(vs[i as int] == x@);
            return true;
        }
        i += 1;
    }
    false
}

} // verus!
