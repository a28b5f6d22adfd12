//! A scan of a layer root: whether it follows the file-system hierarchy,
//! the populated package-manager directories, a walk of each top-level
//! directory, then every binary found read. The scan asks for file-system
//! facts through `request` and takes the replies through `answer`; paths in
//! the profile are relative to the root.

use crate::ScanConfig;
use crate::fsio::{Entry, Reply, Request, reply_bytes, reply_entries, reply_flag, reply_head};
use crate::layer::{
    keeps_ties, keeps_ties_but_bin, merge_profile, merged, profile_sorted, same_lists,
    same_lists_but_bin, same_records, sort_profile,
};
use crate::order::stable;
use crate::parse::bin::shebang_of;
use crate::parse::cursors::file_count;
use crate::parse::elf::{ElfMode, ElfReader, Stage, fed};
use crate::parse::libc::{from_bins, libc_view, libcs_of};
use crate::profile::{Bin, LayerProfile, Libc, opt_view};
use crate::records::{
    app_ok, bins_routed, conf_ok, cursor_ok, extends, firmware_ok, font_ok, icon_ok, lib_ok,
    locale_ok, man_ok, mime_ok, module_ok, records_ok, service_ok, session_ok, theme_ok,
    toolchain_ok,
};
use crate::route::{FileAct, SysConf, file_act, is_kernel_vfs, is_kernel_vfs_exec};
use crate::text::{chars_of, last_seg, last_seg_exec, string_of};
use crate::walk::{Frame, Walker, answered, same_entry};
use crate::parse::{bin, elf};
use vstd::prelude::*;

verus! {

/// Files counted under one package-manager directory at most.
pub const PM_CAP: usize = 200000;

/// Bytes read from the head of a binary that is not an ELF file.
pub const SCRIPT_HEAD: usize = 256;

/// Where a scan stands.
pub enum Phase<'a> {
    /// Asking whether `usr/bin` is a directory.
    FhsBin,
    /// Asking whether `etc` is a directory.
    FhsEtc,
    /// Listing a package-manager base: 0 is `var/lib`, 1 is `var/db`.
    PmList { base: usize },
    /// Counting the files under candidate `next` of a base listing:
    /// `stack` holds the directories still to list.
    PmCount { base: usize, cands: Vec<Entry>, next: usize, stack: Vec<Entry>, count: usize },
    /// Listing the root.
    Root,
    /// Walking top-level directory `next`.
    Walk { tops: Vec<Entry>, next: usize, walker: Walker<'a> },
    /// Reading binary `next` as an ELF file.
    BinElf { next: usize, reader: ElfReader },
    /// Reading the head of binary `next`, which is no ELF file.
    BinHead { next: usize },
    /// The scan is over.
    Done,
}

/// A scan of one layer root.
pub struct Scanner<'a> {
    pub config: &'a ScanConfig,
    pub phase: Phase<'a>,
    pub profile: LayerProfile,
    /// Binaries found by the walks, read after them.
    pub pending: Vec<Entry>,
}

/// The raw path of a package-manager base.
pub open spec fn pm_base(base: usize) -> Seq<u8> {
    if base == 0 {
        seq![0x76u8, 0x61u8, 0x72u8, 0x2fu8, 0x6cu8, 0x69u8, 0x62u8]
    } else {
        seq![0x76u8, 0x61u8, 0x72u8, 0x2fu8, 0x64u8, 0x62u8]
    }
}

/// The raw path `usr/bin`.
pub open spec fn usr_bin() -> Seq<u8> {
    seq![0x75u8, 0x73u8, 0x72u8, 0x2fu8, 0x62u8, 0x69u8, 0x6eu8]
}

/// The raw path `etc`.
pub open spec fn etc() -> Seq<u8> {
    seq![0x65u8, 0x74u8, 0x63u8]
}

/// A binary's path is routed as one; only a dynamically linked binary has
/// an interpreter; a script has no interpreter segment, is not dynamic and
/// needs nothing.
pub open spec fn bin_ok(b: Bin, fhs: bool, bins: Seq<Seq<char>>, libs: Seq<Seq<char>>) -> bool {
    &&& file_act(b.path@, fhs, bins, libs) == FileAct::Bin
    &&& b.interp is Some ==> b.dynamic
    &&& b.script is Some ==> b.interp is None && !b.dynamic && b.needed@.len() == 0
}

pub open spec fn bins_ok(s: Seq<Bin>, fhs: bool, bins: Seq<Seq<char>>, libs: Seq<Seq<char>>) -> bool {
    forall|i: int| 0 <= i < s.len() ==> bin_ok(#[trigger] s[i], fhs, bins, libs)
}

/// Every package-manager directory recorded holds files, counted up to the
/// cap.
pub open spec fn pm_ok(s: Seq<(String, usize)>) -> bool {
    forall|i: int| 0 <= i < s.len() ==> 0 < (#[trigger] s[i]).1 <= PM_CAP
}

pub open spec fn opt_libc_view(l: Option<Libc>) -> Option<(Seq<char>, Seq<char>)> {
    match l {
        Some(x) => Some(libc_view(x)),
        None => None,
    }
}

/// A finished profile: every list ordered by path, the C runtimes derived
/// from the binaries, the first of them the layer's.
pub open spec fn finished(p: LayerProfile) -> bool {
    &&& profile_sorted(p)
    &&& p.all_libcs@.map_values(|l: Libc| libc_view(l)) == libcs_of(p.bin@)
    &&& opt_libc_view(p.libc) == if p.all_libcs@.len() > 0 {
        Some(libc_view(p.all_libcs@[0]))
    } else {
        None
    }
}

/// The binary at `path` as the finished reader `r` read it.
pub open spec fn elf_bin(b: Bin, path: Seq<char>, r: ElfReader) -> bool {
    &&& b.path@ == path
    &&& b.interp == r.interp
    &&& b.dynamic == r.dynamic
    &&& b.script is None
    &&& b.needed@ == if r.dyn_ok {
        r.needed@
    } else {
        Seq::empty()
    }
}

/// `q` is `p` with one binary more, recorded last.
pub open spec fn bin_pushed(q: LayerProfile, p: LayerProfile) -> bool {
    &&& q == (LayerProfile { bin: q.bin, ..p })
    &&& q.bin@.len() == p.bin@.len() + 1
    &&& extends(p.bin@, q.bin@)
}

/// `q` is the profile `p` with the binary `bb` recorded, then finished:
/// every list holds what it held, in order of path, records with equal
/// paths in the order they had, and the binaries `bb` too, last of those
/// with its path.
pub open spec fn finished_with(q: LayerProfile, p: LayerProfile, bb: Bin) -> bool {
    &&& same_lists_but_bin(q, p)
    &&& keeps_ties_but_bin(q, p)
    &&& q.bin@.to_multiset() == p.bin@.push(bb).to_multiset()
    &&& stable(q.bin@, p.bin@.push(bb))
}

/// `q` is the profile `p`, finished.
pub open spec fn finished_from(q: LayerProfile, p: LayerProfile) -> bool {
    &&& same_lists(q, p)
    &&& keeps_ties(q, p)
}

/// A read of binary `next` left the reader as `r`: the read goes on, or
/// the binary is recorded from its ELF headers, or its head is read when it
/// is no ELF file; after the last binary the profile is finished.
pub open spec fn bin_fed<'a>(a: Scanner<'a>, b: Scanner<'a>, next: usize, r: ElfReader) -> bool {
    let path = a.pending@[next as int].path@;
    &&& b.pending == a.pending
    &&& if r.stage != Stage::Done {
        b.phase == (Phase::BinElf { next, reader: r }) && b.profile == a.profile
    } else if !r.elf {
        b.phase == (Phase::BinHead { next }) && b.profile == a.profile
    } else if next + 1 < a.pending@.len() {
        &&& bin_pushed(b.profile, a.profile)
        &&& elf_bin(b.profile.bin@.last(), path, r)
        &&& b.phase matches Phase::BinElf { next: n, reader } && n == next + 1 && reader.fresh(ElfMode::Bin)
    } else {
        &&& b.phase is Done
        &&& exists|bb: Bin| #![trigger elf_bin(bb, path, r)] elf_bin(bb, path, r) && finished_with(b.profile, a.profile, bb)
    }
}

/// The head of binary `next` came back as `head`: the binary is recorded
/// as a script or as an unknown file, and the next one read; after the last
/// binary the profile is finished.
pub open spec fn head_taken<'a>(a: Scanner<'a>, b: Scanner<'a>, next: usize, head: Seq<u8>) -> bool {
    let path = a.pending@[next as int].path@;
    &&& b.pending == a.pending
    &&& if next + 1 < a.pending@.len() {
        &&& bin_pushed(b.profile, a.profile)
        &&& script_bin(b.profile.bin@.last(), path, head)
        &&& b.phase matches Phase::BinElf { next: n, reader } && n == next + 1 && reader.fresh(ElfMode::Bin)
    } else {
        &&& b.phase is Done
        &&& exists|bb: Bin| #![trigger script_bin(bb, path, head)] script_bin(bb, path, head) && finished_with(b.profile, a.profile, bb)
    }
}

/// The binary at `path` that is no ELF file: a script names its
/// interpreter in the head of the file.
pub open spec fn script_bin(b: Bin, path: Seq<char>, head: Seq<u8>) -> bool {
    &&& b.path@ == path
    &&& b.interp is None
    &&& !b.dynamic
    &&& opt_view(b.script) == shebang_of(head)
    &&& b.needed@.len() == 0
}

/// A top-level entry that is walked: a directory, and no kernel mount
/// point.
pub open spec fn walkable(e: Entry) -> bool {
    e.is_dir && !is_kernel_vfs(e.path@)
}

/// The walk goes on with the first walkable entry of `tops` from `next`
/// on, with a walk of that entry that has not begun; the binaries are read
/// from the first when there is none.
pub open spec fn walk_from(s: Scanner, tops: Seq<Entry>, next: int) -> bool {
    match s.phase {
        Phase::Walk { tops: t, next: i, walker } => {
            &&& t@ == tops
            &&& next <= i
            &&& forall|j: int| next <= j < i ==> !walkable(#[trigger] tops[j])
            &&& walkable(tops[i as int])
            &&& walker.stack@.len() == 1
            &&& walker.stack@[0] matches Frame::Descend { dir: d, .. } && same_entry(d, tops[i as int])
                && walker.starts_at(d, s.profile.fhs, s.config)
        },
        _ => {
            &&& s.phase is BinElf || s.phase is Done
            &&& s.phase matches Phase::BinElf { next: n, reader } ==> n == 0 && reader.fresh(ElfMode::Bin)
            &&& forall|j: int| next <= j < tops.len() ==> !walkable(#[trigger] tops[j])
        },
    }
}

/// A reply for the walk of top-level directory `next` was answered by
/// the walk (`answered`); when the walk is over, its findings are appended
/// and the walk goes on with the next walkable top-level directory.
pub open spec fn walk_stepped<'a>(
    a: Scanner<'a>,
    b: Scanner<'a>,
    tops: Vec<Entry>,
    next: usize,
    walker: Walker<'a>,
    reply: Reply,
) -> bool {
    exists|w2: Walker<'a>|
        #![trigger answered(walker, w2, reply)]
        answered(walker, w2, reply) && if w2.stack@.len() > 0 {
            &&& b.phase == (Phase::Walk { tops, next, walker: w2 })
            &&& b.profile == a.profile
            &&& b.pending == a.pending
        } else {
            &&& walk_from(b, tops@, next + 1)
            &&& b.pending@ == a.pending@ + w2.pending@
            &&& if b.phase is Done {
                exists|m: LayerProfile|
                    #![trigger merged(m, a.profile, w2.profile)]
                    merged(m, a.profile, w2.profile) && finished_from(b.profile, m)
            } else {
                merged(b.profile, a.profile, w2.profile)
            }
        }
}

/// The next phase after `FhsBin` and `FhsEtc`: the layer follows the
/// hierarchy standard when `usr/bin` and `etc` are both directories.
pub open spec fn fhs_step(a: Scanner, b: Scanner, reply: Reply) -> bool {
    match a.phase {
        Phase::FhsBin => if reply_flag(reply) {
            b.phase is FhsEtc && b.profile == a.profile
        } else {
            b.phase == (Phase::PmList { base: 0 }) && b.profile == (LayerProfile { fhs: false, ..a.profile })
        },
        Phase::FhsEtc => b.phase == (Phase::PmList { base: 0 }) && b.profile == (LayerProfile {
            fhs: reply_flag(reply),
            ..a.profile
        }),
        _ => true,
    }
}

/// A package-manager candidate that is counted: a directory with a UTF-8
/// name.
pub open spec fn countable(e: Entry) -> bool {
    e.is_dir && e.utf8
}

/// The count goes on with the first countable candidate of `cands` from
/// `next` on; with the next base, or the root listing, when there is none.
pub open spec fn pm_from(s: Scanner, base: usize, cands: Seq<Entry>, next: int) -> bool {
    match s.phase {
        Phase::PmCount { base: b, cands: c, next: i, stack, count } => {
            &&& b == base
            &&& c@ == cands
            &&& next <= i
            &&& forall|j: int| next <= j < i ==> !countable(#[trigger] cands[j])
            &&& countable(cands[i as int])
            &&& stack@.len() == 1
            &&& stack@[0].raw@ == cands[i as int].raw@
            &&& count == 0
        },
        _ => {
            &&& s.phase == if base == 0 {
                Phase::PmList { base: 1 }
            } else {
                Phase::Root
            }
            &&& forall|j: int| next <= j < cands.len() ==> !countable(#[trigger] cands[j])
        },
    }
}

/// The subdirectories of a listing, in order.
pub open spec fn dirs_of(es: Seq<Entry>) -> Seq<Entry>
    decreases es.len(),
{
    if es.len() == 0 {
        Seq::empty()
    } else if es.last().is_dir {
        dirs_of(es.drop_last()).push(es.last())
    } else {
        dirs_of(es.drop_last())
    }
}

/// Entries that agree one by one on path, bytes and kind.
pub open spec fn same_entries(a: Seq<Entry>, b: Seq<Entry>) -> bool {
    &&& a.len() == b.len()
    &&& forall|j: int| 0 <= j < a.len() ==> same_entry(#[trigger] a[j], b[j])
}

/// Candidate `cand` was counted with `n` files: it is recorded, by its
/// name, when it holds any; nothing else of the profile changes.
pub open spec fn pm_recorded(a: LayerProfile, b: LayerProfile, cand: Entry, n: nat) -> bool {
    &&& b == (LayerProfile { pm_dirs: b.pm_dirs, ..a })
    &&& n == 0 ==> b.pm_dirs@ == a.pm_dirs@
    &&& n > 0 ==> {
        &&& b.pm_dirs@.len() == a.pm_dirs@.len() + 1
        &&& extends(a.pm_dirs@, b.pm_dirs@)
        &&& b.pm_dirs@.last().0@ == last_seg(cand.path@)
        &&& b.pm_dirs@.last().1 == n
    }
}

/// A listing of the directory being counted came back: its files are
/// counted up to the cap, its subdirectories left to list; the candidate
/// is recorded when nothing is left to list or the cap is reached.
pub open spec fn pm_counted<'a>(
    a: Scanner<'a>,
    b: Scanner<'a>,
    base: usize,
    cands: Vec<Entry>,
    next: usize,
    stack: Seq<Entry>,
    count: usize,
    reply: Reply,
) -> bool {
    let es = reply_entries(reply);
    let total = count + file_count(es);
    let rest = stack.drop_last() + dirs_of(es);
    &&& b.pending == a.pending
    &&& if total < PM_CAP && rest.len() > 0 {
        &&& b.profile == a.profile
        &&& b.phase matches Phase::PmCount { base: b2, cands: c2, next: n2, stack: s2, count: k2 }
        &&& b2 == base
        &&& c2 == cands
        &&& n2 == next
        &&& k2 == total
        &&& same_entries(s2@, rest)
    } else {
        &&& pm_recorded(
            a.profile,
            b.profile,
            cands@[next as int],
            if total < PM_CAP {
                total as nat
            } else {
                PM_CAP as nat
            },
        )
        &&& pm_from(b, base, cands@, next + 1)
    }
}

/// A directory tree on disk, as the listings `ls` of its directories by
/// raw path: every subdirectory lies strictly lower than its parent by the
/// height `ht`, so the tree is finite and has no cycle (links are not
/// followed).
pub open spec fn tree_ok(ls: spec_fn(Seq<u8>) -> Seq<Entry>, ht: spec_fn(Seq<u8>) -> nat) -> bool {
    forall|d: Seq<u8>, i: int|
        0 <= i < ls(d).len() && (#[trigger] ls(d)[i]).is_dir ==> ht(ls(d)[i].raw@) < ht(d)
}

/// The files under the directory `d` of the tree, at any depth.
pub open spec fn files_in(ls: spec_fn(Seq<u8>) -> Seq<Entry>, ht: spec_fn(Seq<u8>) -> nat, d: Seq<u8>) -> nat
    decreases ht(d), 1nat, 0nat,
{
    file_count(ls(d)) + files_of(ls, ht, dirs_of(ls(d)), ht(d))
}

/// The files under the directories `ds`, each lower than `bound`.
pub open spec fn files_of(
    ls: spec_fn(Seq<u8>) -> Seq<Entry>,
    ht: spec_fn(Seq<u8>) -> nat,
    ds: Seq<Entry>,
    bound: nat,
) -> nat
    decreases bound, 0nat, ds.len(),
{
    if ds.len() == 0 {
        0
    } else if ht(ds.last().raw@) < bound {
        files_of(ls, ht, ds.drop_last(), bound) + files_in(ls, ht, ds.last().raw@)
    } else {
        files_of(ls, ht, ds.drop_last(), bound)
    }
}

/// The files under the directories of `st`, at any depth.
pub open spec fn stack_files(ls: spec_fn(Seq<u8>) -> Seq<Entry>, ht: spec_fn(Seq<u8>) -> nat, st: Seq<Entry>) -> nat
    decreases st.len(),
{
    if st.len() == 0 {
        0
    } else {
        stack_files(ls, ht, st.drop_last()) + files_in(ls, ht, st.last().raw@)
    }
}

/// A count of one package-manager candidate against the tree `ls`: each
/// state of `ss` counts candidate `next` of `cands` under `base`, every
/// listing it asks for is answered with the tree's, and the next state is
/// what that answer makes of it.
pub open spec fn pm_run<'a>(
    ss: Seq<Scanner<'a>>,
    rps: Seq<Reply>,
    ls: spec_fn(Seq<u8>) -> Seq<Entry>,
    base: usize,
    cands: Vec<Entry>,
    next: usize,
) -> bool {
    &&& ss.len() == rps.len() + 1
    &&& forall|i: int|
        0 <= i < rps.len() ==> match (#[trigger] ss[i]).phase {
            Phase::PmCount { base: b, cands: c, next: n, stack, count } => {
                &&& b == base
                &&& c == cands
                &&& n == next
                &&& stack@.len() > 0
                &&& reply_entries(rps[i]) == ls(stack@.last().raw@)
                &&& pm_counted(ss[i], ss[i + 1], base, cands, next, stack@, count, rps[i])
            },
            _ => false,
        }
}

proof fn lemma_file_count_prefix(es: Seq<Entry>, k: int)
    requires
        0 <= k <= es.len(),
    ensures
        file_count(es.take(k)) <= file_count(es),
    decreases es.len() - k,
{
    if k < es.len() {
        assert(es.take(k + 1).drop_last() == es.take(k));
        lemma_file_count_prefix(es, k + 1);
    } else {
        assert(es.take(k) == es);
    }
}

/// The request a phase waits on.
pub open spec fn phase_request(ph: Phase, pending: Seq<Entry>) -> Option<Request<Seq<u8>>> {
    match ph {
        Phase::FhsBin => Some(Request::IsDir(usr_bin())),
        Phase::FhsEtc => Some(Request::IsDir(etc())),
        Phase::PmList { base } => Some(Request::List(pm_base(base))),
        Phase::PmCount { stack, .. } => Some(Request::List(stack@.last().raw@)),
        Phase::Root => Some(Request::List(Seq::empty())),
        Phase::Walk { walker, .. } => walker.spec_request(),
        Phase::BinElf { next, reader } => match reader.want {
            Some((o, l)) => Some(Request::ReadAt(pending[next as int].raw@, o, l)),
            None => None,
        },
        Phase::BinHead { next } => Some(Request::Head(pending[next as int].raw@, SCRIPT_HEAD)),
        Phase::Done => None,
    }
}

proof fn lemma_perm_all<T>(a: Seq<T>, b: Seq<T>, ok: spec_fn(T) -> bool)
    requires
        a.to_multiset() == b.to_multiset(),
        forall|i: int| 0 <= i < a.len() ==> ok(#[trigger] a[i]),
    ensures
        forall|i: int| 0 <= i < b.len() ==> ok(#[trigger] b[i]),
{
    a.to_multiset_ensures();
    b.to_multiset_ensures();
    assert forall|i: int| 0 <= i < b.len() implies ok(#[trigger] b[i]) by {
        assert(b.contains(b[i]));
        assert(b.to_multiset().count(b[i]) > 0);
        assert(a.to_multiset().count(b[i]) > 0);
        assert(a.contains(b[i]));
        let j = choose|j: int| 0 <= j < a.len() && a[j] == b[i];
        assert(ok(a[j]));
    }
}

proof fn lemma_concat_all<T>(a: Seq<T>, b: Seq<T>, ok: spec_fn(T) -> bool)
    requires
        forall|i: int| 0 <= i < a.len() ==> ok(#[trigger] a[i]),
        forall|i: int| 0 <= i < b.len() ==> ok(#[trigger] b[i]),
    ensures
        forall|i: int| 0 <= i < (a + b).len() ==> ok(#[trigger] (a + b)[i]),
{
    assert forall|i: int| 0 <= i < (a + b).len() implies ok(#[trigger] (a + b)[i]) by {
        if i < a.len() {
            assert((a + b)[i] == a[i]);
        } else {
            assert((a + b)[i] == b[i - a.len()]);
        }
    }
}

/// Sorting a profile keeps every record's agreement with its path and
/// with the routing.
pub proof fn law_sort_records(
    p: LayerProfile,
    q: LayerProfile,
    fhs: bool,
    bins: Seq<Seq<char>>,
    libs: Seq<Seq<char>>,
)
    requires
        records_ok(p, fhs, bins, libs),
        same_records(q, p),
    ensures
        records_ok(q, fhs, bins, libs),
{
    lemma_perm_all(p.modules@, q.modules@, |m| module_ok(m, fhs, bins, libs));
    lemma_perm_all(p.icons@, q.icons@, |m| icon_ok(m, fhs, bins, libs));
    lemma_perm_all(p.fonts@, q.fonts@, |m| font_ok(m, fhs, bins, libs));
    lemma_perm_all(p.man@, q.man@, |m| man_ok(m, fhs, bins, libs));
    lemma_perm_all(p.toolchains@, q.toolchains@, |m| toolchain_ok(m, fhs, bins, libs));
    lemma_perm_all(p.lib@, q.lib@, |m| lib_ok(m, fhs, bins, libs));
    lemma_perm_all(p.apps@, q.apps@, |m| app_ok(m, fhs, bins, libs));
    lemma_perm_all(p.sessions@, q.sessions@, |m| session_ok(m, fhs, bins, libs));
    lemma_perm_all(p.services@, q.services@, |m| service_ok(m));
    lemma_perm_all(p.mime_paths@, q.mime_paths@, |m| mime_ok(m, fhs, bins, libs));
    lemma_perm_all(p.firmware_paths@, q.firmware_paths@, |m| firmware_ok(m, fhs, bins, libs));
    lemma_perm_all(p.udev_rules@, q.udev_rules@, |m| conf_ok(m, SysConf::UdevRule, fhs, bins, libs));
    lemma_perm_all(p.udev_hwdb@, q.udev_hwdb@, |m| conf_ok(m, SysConf::UdevHwdb, fhs, bins, libs));
    lemma_perm_all(p.polkit_rules@, q.polkit_rules@, |m| conf_ok(m, SysConf::PolkitRule, fhs, bins, libs));
    lemma_perm_all(p.polkit_actions@, q.polkit_actions@, |m| conf_ok(m, SysConf::PolkitAction, fhs, bins, libs));
    lemma_perm_all(p.locale@, q.locale@, |m| locale_ok(m, fhs, bins, libs));
    lemma_perm_all(p.themes@, q.themes@, |m| theme_ok(m, fhs, bins, libs));
    lemma_perm_all(p.cursors@, q.cursors@, |m| cursor_ok(m, fhs, bins, libs));
}

/// Appending a subtree's profile to another keeps every record's
/// agreement with its path and with the routing.
pub proof fn law_merge_records(
    d: LayerProfile,
    a: LayerProfile,
    b: LayerProfile,
    fhs: bool,
    bins: Seq<Seq<char>>,
    libs: Seq<Seq<char>>,
)
    requires
        records_ok(a, fhs, bins, libs),
        records_ok(b, fhs, bins, libs),
        merged(d, a, b),
    ensures
        records_ok(d, fhs, bins, libs),
{
    lemma_concat_all(a.modules@, b.modules@, |m| module_ok(m, fhs, bins, libs));
    lemma_concat_all(a.icons@, b.icons@, |m| icon_ok(m, fhs, bins, libs));
    lemma_concat_all(a.fonts@, b.fonts@, |m| font_ok(m, fhs, bins, libs));
    lemma_concat_all(a.man@, b.man@, |m| man_ok(m, fhs, bins, libs));
    lemma_concat_all(a.toolchains@, b.toolchains@, |m| toolchain_ok(m, fhs, bins, libs));
    lemma_concat_all(a.lib@, b.lib@, |m| lib_ok(m, fhs, bins, libs));
    lemma_concat_all(a.apps@, b.apps@, |m| app_ok(m, fhs, bins, libs));
    lemma_concat_all(a.sessions@, b.sessions@, |m| session_ok(m, fhs, bins, libs));
    lemma_concat_all(a.services@, b.services@, |m| service_ok(m));
    lemma_concat_all(a.mime_paths@, b.mime_paths@, |m| mime_ok(m, fhs, bins, libs));
    lemma_concat_all(a.firmware_paths@, b.firmware_paths@, |m| firmware_ok(m, fhs, bins, libs));
    lemma_concat_all(a.udev_rules@, b.udev_rules@, |m| conf_ok(m, SysConf::UdevRule, fhs, bins, libs));
    lemma_concat_all(a.udev_hwdb@, b.udev_hwdb@, |m| conf_ok(m, SysConf::UdevHwdb, fhs, bins, libs));
    lemma_concat_all(a.polkit_rules@, b.polkit_rules@, |m| conf_ok(m, SysConf::PolkitRule, fhs, bins, libs));
    lemma_concat_all(a.polkit_actions@, b.polkit_actions@, |m| conf_ok(m, SysConf::PolkitAction, fhs, bins, libs));
    lemma_concat_all(a.locale@, b.locale@, |m| locale_ok(m, fhs, bins, libs));
    lemma_concat_all(a.themes@, b.themes@, |m| theme_ok(m, fhs, bins, libs));
    lemma_concat_all(a.cursors@, b.cursors@, |m| cursor_ok(m, fhs, bins, libs));
}

fn pm_base_exec(base: usize) -> (r: Vec<u8>)
    ensures
        r@ == pm_base(base),
{
    let r = if base == 0 {
        vec![0x76u8, 0x61u8, 0x72u8, 0x2fu8, 0x6cu8, 0x69u8, 0x62u8]
    } else {
        vec![0x76u8, 0x61u8, 0x72u8, 0x2fu8, 0x64u8, 0x62u8]
    };
    assert(r@ =~= pm_base(base));
    r
}

fn raw_copy(raw: &Vec<u8>) -> (r: Vec<u8>)
    ensures
        r@ == raw@,
{
    crate::bytes::slice_bytes(raw.as_slice(), 0, raw.len())
}

impl<'a> Scanner<'a> {
    /// A scan at its start, with the bin and lib roots and the probe depth
    /// of `config`.
    pub fn new(config: &'a ScanConfig) -> (s: Scanner<'a>)
        ensures
            s.wf(),
            s.config == config,
            s.phase is FhsBin,
            s.spec_request() == Some(Request::IsDir(usr_bin())),
    {
        Scanner {
            config,
            phase: Phase::FhsBin,
            profile: LayerProfile::empty(false),
            pending: Vec::new(),
        }
    }

    /// The scan's consistency. Among it: a walk never starts at a kernel
    /// mount point, and a finished profile is ordered and carries the C
    /// runtimes of its binaries.
    pub open spec fn wf(&self) -> bool {
        &&& self.profile.counts_ok()
        &&& self.records_hold()
        &&& pm_ok(self.profile.pm_dirs@)
        &&& match self.phase {
            Phase::FhsBin => self.profile.is_empty() && self.pending@.len() == 0,
            Phase::FhsEtc => self.profile.is_empty() && self.pending@.len() == 0,
            Phase::PmList { base } => base < 2,
            Phase::PmCount { base, cands, next, stack, count } => {
                &&& base < 2
                &&& next < cands@.len()
                &&& stack@.len() > 0
                &&& count < PM_CAP
            },
            Phase::Root => true,
            Phase::Walk { tops, next, walker } => {
                &&& next < tops@.len()
                &&& tops@[next as int].is_dir
                &&& !is_kernel_vfs(tops@[next as int].path@)
                &&& walker.wf()
                &&& walker.stack@.len() > 0
                &&& walker.config == self.config
                &&& walker.fhs == self.profile.fhs
            },
            Phase::BinElf { next, reader } => {
                &&& next < self.pending@.len()
                &&& reader.wf()
                &&& reader.mode == ElfMode::Bin
                &&& reader.stage != Stage::Done
            },
            Phase::BinHead { next } => next < self.pending@.len(),
            Phase::Done => finished(self.profile),
        }
    }

    /// Every record and every binary waiting to be read is what the
    /// routing makes of its path, with the fields its path says.
    pub open spec fn records_hold(&self) -> bool {
        let (fhs, bins, libs) = (
            self.profile.fhs,
            self.config.bin_roots_view(),
            self.config.lib_roots_view(),
        );
        &&& records_ok(self.profile, fhs, bins, libs)
        &&& bins_ok(self.profile.bin@, fhs, bins, libs)
        &&& bins_routed(self.pending@, fhs, bins, libs)
    }

    /// The request the scan waits on; None when it is over.
    pub open spec fn spec_request(&self) -> Option<Request<Seq<u8>>> {
        phase_request(self.phase, self.pending@)
    }

    /// Whether the scan is over.
    pub fn done(&self) -> (b: bool)
        ensures
            b == (self.phase is Done),
    {
        match self.phase {
            Phase::Done => true,
            _ => false,
        }
    }

    /// The file-system request the scan waits on; None exactly when it is
    /// over.
    pub fn request(&self) -> (r: Option<Request<Vec<u8>>>)
        requires
            self.wf(),
        ensures
            crate::fsio::opt_request_view(r) == self.spec_request(),
            r is None <==> self.phase is Done,
    {
        match &self.phase {
            Phase::FhsBin => {
                let p = vec![0x75u8, 0x73u8, 0x72u8, 0x2fu8, 0x62u8, 0x69u8, 0x6eu8];
                assert(p@ =~= usr_bin());
                Some(Request::IsDir(p))
            },
            Phase::FhsEtc => {
                let p = vec![0x65u8, 0x74u8, 0x63u8];
                assert(p@ =~= etc());
                Some(Request::IsDir(p))
            },
            Phase::PmList { base } => Some(Request::List(pm_base_exec(*base))),
            Phase::PmCount { stack, .. } => Some(
                Request::List(raw_copy(&stack[stack.len() - 1].raw)),
            ),
            Phase::Root => Some(Request::List(Vec::new())),
            Phase::Walk { walker, .. } => walker.request(),
            Phase::BinElf { next, reader } => match reader.wants() {
                Some((o, l)) => Some(Request::ReadAt(raw_copy(&self.pending[*next].raw), o, l)),
                None => None,
            },
            Phase::BinHead { next } => Some(
                Request::Head(raw_copy(&self.pending[*next].raw), SCRIPT_HEAD),
            ),
            Phase::Done => None,
        }
    }

    /// The profile of the scan.
    pub fn into_profile(self) -> (p: LayerProfile)
        ensures
            p == self.profile,
    {
        self.profile
    }

    /// Orders the profile and derives the C runtimes: the scan is over.
    fn finish(&mut self)
        requires
            old(self).profile.counts_ok(),
            old(self).records_hold(),
            pm_ok(old(self).profile.pm_dirs@),
        ensures
            final(self).wf(),
            final(self).phase is Done,
            final(self).config == old(self).config,
            final(self).pending == old(self).pending,
            finished_from(final(self).profile, old(self).profile),
    {
        let mut p = LayerProfile::empty(false);
        std::mem::swap(&mut p, &mut self.profile);
        let ghost before = p;
        let mut q = sort_profile(p);
        proof {
            law_sort_records(
                before,
                q,
                before.fhs,
                self.config.bin_roots_view(),
                self.config.lib_roots_view(),
            );
            before.mime_paths@.to_multiset_ensures();
            q.mime_paths@.to_multiset_ensures();
            before.firmware_paths@.to_multiset_ensures();
            q.firmware_paths@.to_multiset_ensures();
            lemma_perm_all(
                before.bin@,
                q.bin@,
                |b| bin_ok(b, before.fhs, self.config.bin_roots_view(), self.config.lib_roots_view()),
            );
            lemma_perm_all(before.pm_dirs@, q.pm_dirs@, |d: (String, usize)| 0 < d.1 <= PM_CAP);
        }
        let libcs = from_bins(&q.bin);
        let libc = if libcs.len() > 0 {
            Some(Libc { name: libcs[0].name.clone(), interp: libcs[0].interp.clone() })
        } else {
            None
        };
        q.all_libcs = libcs;
        q.libc = libc;
        self.profile = q;
        self.phase = Phase::Done;
    }

    /// Reads binary `next` and the ones after it, or ends the scan.
    fn start_bins(&mut self, next: usize)
        requires
            old(self).profile.counts_ok(),
            old(self).records_hold(),
            pm_ok(old(self).profile.pm_dirs@),
        ensures
            final(self).wf(),
            final(self).config == old(self).config,
            final(self).pending == old(self).pending,
            final(self).phase is BinElf || final(self).phase is Done,
            next < old(self).pending@.len() ==> final(self).profile == old(self).profile && (final(self).phase matches Phase::BinElf { next: n, reader } && n == next
                && reader.fresh(ElfMode::Bin)),
            next >= old(self).pending@.len() ==> final(self).phase is Done && finished_from(
                final(self).profile,
                old(self).profile,
            ),
    {
        if next < self.pending.len() {
            self.phase = Phase::BinElf { next, reader: ElfReader::new(ElfMode::Bin) };
        } else {
            self.finish();
        }
    }

    /// Walks top-level directory `next`, or the first after it that is a
    /// directory and no kernel mount point; reads the binaries after the
    /// last.
    fn walk_next(&mut self, tops: Vec<Entry>, next: usize)
        requires
            old(self).profile.counts_ok(),
            old(self).records_hold(),
            pm_ok(old(self).profile.pm_dirs@),
            next <= tops@.len(),
        ensures
            final(self).wf(),
            final(self).config == old(self).config,
            final(self).pending == old(self).pending,
            !(final(self).phase is Done) ==> final(self).profile == old(self).profile,
            final(self).phase is Done ==> finished_from(final(self).profile, old(self).profile),
            walk_from(*final(self), tops@, next as int),
    {
        let mut i = next;
        while i < tops.len()
            invariant
                next <= i <= tops@.len(),
                forall|j: int| next <= j < i ==> !walkable(#[trigger] tops@[j]),
            ensures
                next <= i <= tops@.len(),
                forall|j: int| next <= j < i ==> !walkable(#[trigger] tops@[j]),
                i < tops@.len() ==> tops@[i as int].is_dir && !is_kernel_vfs(tops@[i as int].path@),
            decreases tops@.len() - i,
        {
            if tops[i].is_dir {
                let rel = chars_of(tops[i].path.as_str());
                if !is_kernel_vfs_exec(rel.as_slice()) {
                    break;
                }
            }
            i += 1;
        }
        if i < tops.len() {
            let walker = Walker::new(tops[i].copy(), self.profile.fhs, self.config);
            self.phase = Phase::Walk { tops, next: i, walker };
        } else {
            self.start_bins(0);
        }
    }

    /// Counts candidate `next` of a base listing, or the first after it
    /// that is a directory with a UTF-8 name; goes on with the next base,
    /// then the root, after the last.
    fn pm_next(&mut self, base: usize, cands: Vec<Entry>, next: usize)
        requires
            old(self).profile.counts_ok(),
            old(self).records_hold(),
            pm_ok(old(self).profile.pm_dirs@),
            base < 2,
            next <= cands@.len(),
        ensures
            final(self).wf(),
            final(self).config == old(self).config,
            final(self).profile == old(self).profile,
            final(self).pending == old(self).pending,
            pm_from(*final(self), base, cands@, next as int),
    {
        let mut i = next;
        while i < cands.len()
            invariant
                next <= i <= cands@.len(),
                forall|j: int| next <= j < i ==> !countable(#[trigger] cands@[j]),
            ensures
                next <= i <= cands@.len(),
                forall|j: int| next <= j < i ==> !countable(#[trigger] cands@[j]),
                i < cands@.len() ==> countable(cands@[i as int]),
            decreases cands@.len() - i,
        {
            if cands[i].is_dir && cands[i].utf8 {
                break;
            }
            i += 1;
        }
        if i < cands.len() {
            let mut stack: Vec<Entry> = Vec::new();
            stack.push(cands[i].copy());
            self.phase = Phase::PmCount { base, cands, next: i, stack, count: 0 };
        } else if base == 0 {
            self.phase = Phase::PmList { base: 1 };
        } else {
            self.phase = Phase::Root;
        }
    }

    /// Candidate `next` was counted: it is recorded when it holds files.
    fn pm_done(&mut self, base: usize, cands: Vec<Entry>, next: usize, count: usize)
        requires
            old(self).profile.counts_ok(),
            old(self).records_hold(),
            pm_ok(old(self).profile.pm_dirs@),
            base < 2,
            next < cands@.len(),
            count <= PM_CAP,
        ensures
            final(self).wf(),
            final(self).config == old(self).config,
            final(self).pending == old(self).pending,
            pm_recorded(old(self).profile, final(self).profile, cands@[next as int], count as nat),
            pm_from(*final(self), base, cands@, next + 1),
    {
        if count > 0 {
            let path = chars_of(cands[next].path.as_str());
            let name = string_of(last_seg_exec(path.as_slice()).as_slice());
            self.profile.pm_dirs.push((name, count));
        }
        let n = cands.len();
        assert(next < n);
        self.pm_next(base, cands, next + 1);
    }

    /// A listing of the directory being counted came back: its
    /// subdirectories are listed in turn, its files counted up to the cap.
    fn pm_count(
        &mut self,
        base: usize,
        cands: Vec<Entry>,
        next: usize,
        stack: Vec<Entry>,
        count: usize,
        reply: Reply,
    )
        requires
            old(self).profile.counts_ok(),
            old(self).records_hold(),
            pm_ok(old(self).profile.pm_dirs@),
            base < 2,
            next < cands@.len(),
            count < PM_CAP,
            stack@.len() > 0,
        ensures
            final(self).wf(),
            final(self).config == old(self).config,
            pm_counted(*old(self), *final(self), base, cands, next, stack@, count, reply),
    {
        let ghost stack0 = stack@;
        let ghost count0 = count;
        let ghost es0 = reply_entries(reply);
        let mut stk = stack;
        let mut cnt = count;
        let _ = stk.pop();
        let (es, _) = reply.into_entries();
        let mut i: usize = 0;
        while i < es.len()
            invariant
                i <= es@.len(),
                es@ == es0,
                cnt < PM_CAP,
                cnt == count0 + file_count(es@.take(i as int)),
                same_entries(stk@, stack0.drop_last() + dirs_of(es@.take(i as int))),
                count0 == count,
                stack0 == stack@,
                es0 == reply_entries(reply),
                *self == *old(self),
                old(self).profile.counts_ok(),
                old(self).records_hold(),
                pm_ok(old(self).profile.pm_dirs@),
                base < 2,
                next < cands@.len(),
            decreases es@.len() - i,
        {
            assert(es@.take(i + 1).drop_last() == es@.take(i as int));
            assert(es@.take(i + 1).last() == es@[i as int]);
            if es[i].is_dir {
                stk.push(es[i].copy());
                assert(stack0.drop_last() + dirs_of(es@.take(i + 1)) == (stack0.drop_last() + dirs_of(
                    es@.take(i as int),
                )).push(es@[i as int]));
            } else {
                assert(file_count(es@.take(i + 1)) == file_count(es@.take(i as int)) + 1);
                cnt += 1;
                assert(stack0.drop_last() + dirs_of(es@.take(i + 1)) == stack0.drop_last() + dirs_of(
                    es@.take(i as int),
                ));
                if cnt >= PM_CAP {
                    proof {
                        lemma_file_count_prefix(es@, i + 1);
                        assert(count0 + file_count(es0) >= PM_CAP);
                    }
                    self.pm_done(base, cands, next, cnt);
                    return;
                }
            }
            i += 1;
        }
        assert(es@.take(es@.len() as int) == es@);
        if stk.len() == 0 {
            self.pm_done(base, cands, next, cnt);
        } else {
            self.phase = Phase::PmCount { base, cands, next, stack: stk, count: cnt };
        }
    }

    /// A read of binary `next` as an ELF file came back.
    fn bin_elf(&mut self, next: usize, reader: ElfReader, reply: Reply)
        requires
            old(self).profile.counts_ok(),
            old(self).records_hold(),
            pm_ok(old(self).profile.pm_dirs@),
            next < old(self).pending@.len(),
            reader.wf(),
            reader.mode == ElfMode::Bin,
        ensures
            final(self).wf(),
            final(self).config == old(self).config,
            exists|r: ElfReader|
                #![trigger fed(reader, r, reply_bytes(reply))]
                fed(reader, r, reply_bytes(reply)) && bin_fed(*old(self), *final(self), next, r),
    {
        let mut reader = reader;
        reader.feed(reply.into_bytes());
        let ghost r = reader;
        if reader.stage == Stage::Done {
            if reader.elf {
                let empty: Vec<u8> = Vec::new();
                let b = bin::parse(self.pending[next].path.as_str(), elf::bin(reader), empty.as_slice());
                self.profile.bin.push(b);
                let ghost pushed = self.profile;
                let n = self.pending.len();
                assert(next < n);
                self.start_bins(next + 1);
                proof {
                    assert(elf_bin(b, old(self).pending@[next as int].path@, r));
                    assert(pushed.bin@ == old(self).profile.bin@.push(b));
                }
            } else {
                self.phase = Phase::BinHead { next };
            }
        } else {
            self.phase = Phase::BinElf { next, reader };
        }
        assert(bin_fed(*old(self), *self, next, r));
    }

    /// The head of binary `next`, no ELF file, came back: a script names
    /// its interpreter there.
    fn bin_head(&mut self, next: usize, reply: Reply)
        requires
            old(self).profile.counts_ok(),
            old(self).records_hold(),
            pm_ok(old(self).profile.pm_dirs@),
            next < old(self).pending@.len(),
        ensures
            final(self).wf(),
            final(self).config == old(self).config,
            head_taken(*old(self), *final(self), next, reply_head(reply)),
    {
        let head = reply.into_head();
        let b = bin::parse(self.pending[next].path.as_str(), None, head.as_slice());
        self.profile.bin.push(b);
        let ghost pushed = self.profile;
        let n = self.pending.len();
        assert(next < n);
        self.start_bins(next + 1);
        proof {
            assert(script_bin(b, old(self).pending@[next as int].path@, reply_head(reply)));
            assert(pushed.bin@ == old(self).profile.bin@.push(b));
        }
    }

    /// A reply for the walk of top-level directory `next` came back.
    fn walk_step(&mut self, tops: Vec<Entry>, next: usize, walker: Walker<'a>, reply: Reply)
        requires
            old(self).profile.counts_ok(),
            old(self).records_hold(),
            pm_ok(old(self).profile.pm_dirs@),
            next < tops@.len(),
            tops@[next as int].is_dir,
            !is_kernel_vfs(tops@[next as int].path@),
            walker.wf(),
            walker.stack@.len() > 0,
            walker.config == old(self).config,
            walker.fhs == old(self).profile.fhs,
        ensures
            final(self).wf(),
            final(self).config == old(self).config,
            walk_stepped(*old(self), *final(self), tops, next, walker, reply),
    {
        let ghost w0 = walker;
        let mut walker = walker;
        walker.answer(reply);
        let ghost w2 = walker;
        if walker.done() {
            let ghost before = self.profile;
            let mut pending = walker.pending;
            merge_profile(&mut self.profile, walker.profile);
            proof {
                law_merge_records(
                    self.profile,
                    before,
                    walker.profile,
                    before.fhs,
                    self.config.bin_roots_view(),
                    self.config.lib_roots_view(),
                );
                assert(self.profile.bin@ =~= before.bin@);
            }
            let ghost m = self.profile;
            self.pending.append(&mut pending);
            let n = tops.len();
            assert(next < n);
            self.walk_next(tops, next + 1);
            assert(answered(w0, w2, reply));
            assert(merged(m, before, w2.profile));
        } else {
            self.phase = Phase::Walk { tops, next, walker };
            assert(answered(w0, w2, reply));
        }
    }

    /// Takes the reply to the request the scan waits on and goes on until
    /// the scan waits again or is over.
    pub fn answer(&mut self, reply: Reply)
        requires
            old(self).wf(),
        ensures
            final(self).wf(),
            final(self).config == old(self).config,
            old(self).phase is Done ==> final(self).profile == old(self).profile,
            fhs_step(*old(self), *final(self), reply),
            old(self).phase matches Phase::BinElf { next, reader } ==> exists|r: ElfReader|
                #![trigger fed(reader, r, reply_bytes(reply))]
                fed(reader, r, reply_bytes(reply)) && bin_fed(*old(self), *final(self), next, r),
            old(self).phase matches Phase::BinHead { next } ==> head_taken(
                *old(self),
                *final(self),
                next,
                reply_head(reply),
            ),
            old(self).phase is Root ==> walk_from(*final(self), reply_entries(reply), 0),
            old(self).phase is Root ==> final(self).pending == old(self).pending && if final(self).phase is Done {
                finished_from(final(self).profile, old(self).profile)
            } else {
                final(self).profile == old(self).profile
            },
            old(self).phase is PmList ==> final(self).profile == old(self).profile && final(self).pending
                == old(self).pending,
            old(self).phase matches Phase::PmCount { base, cands, next, stack, count } ==> pm_counted(
                *old(self),
                *final(self),
                base,
                cands,
                next,
                stack@,
                count,
                reply,
            ),
            old(self).phase matches Phase::Walk { tops, next, walker } ==> walk_stepped(
                *old(self),
                *final(self),
                tops,
                next,
                walker,
                reply,
            ),
            old(self).phase matches Phase::PmList { base } ==> pm_from(
                *final(self),
                base,
                reply_entries(reply),
                0,
            ),
    {
        let mut phase = Phase::Done;
        std::mem::swap(&mut phase, &mut self.phase);
        match phase {
            Phase::FhsBin => {
                if reply.into_flag() {
                    self.phase = Phase::FhsEtc;
                } else {
                    self.profile.fhs = false;
                    self.phase = Phase::PmList { base: 0 };
                }
            },
            Phase::FhsEtc => {
                self.profile.fhs = reply.into_flag();
                self.phase = Phase::PmList { base: 0 };
            },
            Phase::PmList { base } => {
                let (cands, _) = reply.into_entries();
                self.pm_next(base, cands, 0);
            },
            Phase::PmCount { base, cands, next, stack, count } => {
                self.pm_count(base, cands, next, stack, count, reply);
            },
            Phase::Root => {
                let (tops, _) = reply.into_entries();
                self.walk_next(tops, 0);
            },
            Phase::Walk { tops, next, walker } => {
                self.walk_step(tops, next, walker, reply);
            },
            Phase::BinElf { next, reader } => {
                self.bin_elf(next, reader, reply);
            },
            Phase::BinHead { next } => {
                self.bin_head(next, reply);
            },
            Phase::Done => {
                self.phase = Phase::Done;
            },
        }
    }
}

} // verus!
