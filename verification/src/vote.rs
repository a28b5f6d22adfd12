//! The service vote over a probed directory: a sample of its first
//! entries, rejected when too diverse, is a service collection when at
//! least half of it is service-shaped.

use crate::fsio::Entry;
use crate::text::{chars_of, eq_exec, extension, extension_exec};
use vstd::prelude::*;

verus! {

/// Entries sampled to judge a directory.
pub const SERVICE_SAMPLE: usize = 12;

/// Distinct shapes (extension, or a subdirectory) a service directory may
/// show in its sample; more spread is source or data.
pub const MAX_EXTENSIONS: usize = 10;

pub open spec fn sample_len(n: nat) -> nat {
    if n < SERVICE_SAMPLE {
        n
    } else {
        SERVICE_SAMPLE as nat
    }
}

/// The shape of an entry: `/` for a directory, else its extension (empty
/// when it has none).
pub open spec fn shape(e: Entry) -> Seq<char> {
    if e.is_dir {
        "/"@
    } else {
        match extension(e.path@) {
            Some(x) => x,
            None => Seq::empty(),
        }
    }
}

pub open spec fn shapes(es: Seq<Entry>) -> Seq<Seq<char>> {
    es.map_values(|e: Entry| shape(e))
}

/// The distinct elements of `s`, in order of first occurrence.
pub open spec fn dedup<T>(s: Seq<T>) -> Seq<T>
    decreases s.len(),
{
    if s.len() == 0 {
        Seq::empty()
    } else {
        let d = dedup(s.drop_last());
        if d.contains(s.last()) {
            d
        } else {
            d.push(s.last())
        }
    }
}

/// Too many distinct shapes in the sample.
pub open spec fn too_diverse(es: Seq<Entry>) -> bool {
    dedup(shapes(es.take(sample_len(es.len()) as int))).len() > MAX_EXTENSIONS
}

fn shape_exec(e: &Entry) -> (r: Vec<char>)
    ensures
        r@ == shape(*e),
{
    if e.is_dir {
        chars_of("/")
    } else {
        let p = chars_of(e.path.as_str());
        match extension_exec(p.as_slice()) {
            Some(x) => x,
            None => Vec::new(),
        }
    }
}

fn contains_chars(v: &Vec<Vec<char>>, x: &Vec<char>) -> (b: bool)
    ensures
        b == crate::content::views(v@).contains(x@),
{
    let ghost vs = crate::content::views(v@);
    let mut i: usize = 0;
    while i < v.len()
        invariant
            i <= v@.len(),
            vs == crate::content::views(v@),
            forall|j: int| 0 <= j < i ==> vs[j] != x@,
        decreases v@.len() - i,
    {
        if eq_exec(v[i].as_slice(), x.as_slice()) {
            assert(vs[i as int] == x@);
            return true;
        }
        i += 1;
    }
    false
}

/// Whether the sample of a directory's entries shows too many shapes.
pub fn too_diverse_exec(es: &Vec<Entry>) -> (b: bool)
    ensures
        b == too_diverse(es@),
{
    let n = if es.len() < SERVICE_SAMPLE {
        es.len()
    } else {
        SERVICE_SAMPLE
    };
    let ghost sample = shapes(es@.take(n as int));
    let mut keys: Vec<Vec<char>> = Vec::new();
    let mut i: usize = 0;
    while i < n
        invariant
            n <= es@.len(),
            n == sample_len(es@.len()),
            i <= n,
            sample == shapes(es@.take(n as int)),
            crate::content::views(keys@) == dedup(sample.take(i as int)),
        decreases n - i,
    {
        let k = shape_exec(&es[i]);
        assert(sample[i as int] == k@);
        assert(sample.take(i + 1).drop_last() == sample.take(i as int));
        let ghost old_keys = keys@;
        if !contains_chars(&keys, &k) {
            keys.push(k);
            assert(crate::content::views(keys@) == crate::content::views(old_keys).push(k@));
        }
        i += 1;
    }
    assert(sample.take(n as int) == sample);
    keys.len() > MAX_EXTENSIONS
}

// ------------------------------------------------------------ the vote

/// Service-shaped by majority: there is at least one entry, and at least
/// half of the entries are service-shaped.
pub open spec fn majority(hits: Seq<bool>) -> bool {
    hits.len() >= 1 && 2 * count_hits(hits) >= hits.len()
}

pub open spec fn count_hits(hits: Seq<bool>) -> nat
    decreases hits.len(),
{
    if hits.len() == 0 {
        0
    } else {
        count_hits(hits.drop_last()) + if hits.last() {
            1nat
        } else {
            0nat
        }
    }
}

/// The outcome of one vote.
#[derive(Clone, Copy, Debug, PartialEq, Eq, Structural)]
pub enum Vote {
    /// Service-shaped: the verdict can no longer change.
    Yes,
    /// Not service-shaped: the verdict can no longer change.
    No,
    /// Go on with the next entry.
    Go,
}

/// One step of the vote over a sample of `n`: entry `seen` was judged,
/// `svc` entries before it were service-shaped. Stops as soon as the
/// verdict can no longer change.
pub open spec fn vote_step(n: nat, seen: nat, svc: nat, hit: bool) -> Vote {
    let s = if hit {
        svc + 1
    } else {
        svc
    };
    if hit && 2 * s >= n {
        Vote::Yes
    } else if 2 * (s + n - seen - 1) < n {
        Vote::No
    } else if seen + 1 >= n {
        if n > 1 && s >= 1 && 2 * s >= n {
            Vote::Yes
        } else {
            Vote::No
        }
    } else {
        Vote::Go
    }
}

pub fn vote_step_exec(n: usize, seen: usize, svc: usize, hit: bool) -> (v: Vote)
    requires
        seen < n <= SERVICE_SAMPLE,
        svc <= seen,
    ensures
        v == vote_step(n as nat, seen as nat, svc as nat, hit),
{
    let s = if hit {
        svc + 1
    } else {
        svc
    };
    if hit && 2 * s >= n {
        Vote::Yes
    } else if 2 * (s + n - seen - 1) < n {
        Vote::No
    } else if seen + 1 >= n {
        if n > 1 && s >= 1 && 2 * s >= n {
            Vote::Yes
        } else {
            Vote::No
        }
    } else {
        Vote::Go
    }
}

/// The verdict of running the vote over `hits` from entry `seen` with
/// `svc` hits so far.
pub open spec fn vote_run(hits: Seq<bool>, seen: nat, svc: nat) -> bool
    decreases hits.len() - seen,
{
    if seen >= hits.len() {
        hits.len() > 1 && svc >= 1 && 2 * svc >= hits.len()
    } else {
        match vote_step(hits.len(), seen, svc, hits[seen as int]) {
            Vote::Yes => true,
            Vote::No => false,
            Vote::Go => vote_run(
                hits,
                seen + 1,
                if hits[seen as int] {
                    svc + 1
                } else {
                    svc
                },
            ),
        }
    }
}

proof fn lemma_count_take(hits: Seq<bool>, i: int)
    requires
        0 <= i < hits.len(),
    ensures
        count_hits(hits.take(i + 1)) == count_hits(hits.take(i)) + if hits[i] {
            1nat
        } else {
            0nat
        },
{
    assert(hits.take(i + 1).drop_last() == hits.take(i));
}

proof fn lemma_count_bounds(hits: Seq<bool>, i: int)
    requires
        0 <= i <= hits.len(),
    ensures
        count_hits(hits.take(i)) <= count_hits(hits),
        count_hits(hits) <= count_hits(hits.take(i)) + (hits.len() - i),
    decreases hits.len() - i,
{
    if i < hits.len() {
        lemma_count_take(hits, i);
        lemma_count_bounds(hits, i + 1);
    } else {
        assert(hits.take(i) == hits);
    }
}

proof fn lemma_vote_run(hits: Seq<bool>, seen: nat)
    requires
        seen < hits.len() || (hits.len() == 0 && seen == 0),
    ensures
        vote_run(hits, seen, count_hits(hits.take(seen as int))) == majority(hits),
    decreases hits.len() - seen,
{
    let n = hits.len();
    let svc = count_hits(hits.take(seen as int));
    lemma_count_bounds(hits, seen as int);
    if seen >= n {
        assert(hits.take(seen as int) == hits);
    } else {
        if seen + 1 >= n {
            assert(hits.take(seen as int + 1) == hits);
        }
        lemma_count_take(hits, seen as int);
        lemma_count_bounds(hits, seen as int + 1);
        let s = count_hits(hits.take(seen as int + 1));
        let c = count_hits(hits);
        assert(s == svc + if hits[seen as int] {
            1nat
        } else {
            0nat
        });
        assert(s <= c <= s + (n - seen - 1));
        match vote_step(n, seen, svc, hits[seen as int]) {
            Vote::Yes => {},
            Vote::No => {},
            Vote::Go => {
                lemma_vote_run(hits, seen + 1);
            },
        }
    }
}

/// The early-exit vote reaches the verdict of the full count: it stops
/// only when the remaining entries can no longer change it.
pub proof fn law_vote_early_exit(hits: Seq<bool>)
    ensures
        vote_run(hits, 0, 0) == majority(hits),
{
    assert(hits.take(0).len() == 0);
    lemma_vote_run(hits, 0);
}

} // verus!
