//! Laws of the library that span its functions: what a finished scan's
//! profile satisfies, what the walk never does, the C runtimes' shape, and
//! what a whole reading of an ELF file and a whole count of a
//! package-manager tree yield from the file or tree that answers them.

use crate::fsio::{Entry, Reply, Request, reply_entries, reply_more};
use crate::parse::elf::{
    ElfMode, ElfReader, Header, STR_WINDOW, Stage, at_dyn, reads_interp, dyn_range, dyn_read, fed, has_dynamic,
    headers_read, interp_range, needed_from, needed_strings, phdr_offset, phdr_reply, phdrs_read,
    read_range, reads, str_at, str_reply,
};
use crate::parse::libc::{interps, libcs_of};
use crate::parse::services::{KindOutcome, KindStep, kind_outcome};
use crate::profile::{Bin, opt_view, strs_view};
use crate::records::records_ok;
use crate::bytes::word;
use crate::parse::desktop::{desk_scan, is_group_line, kv_key, kv_val};
use crate::parse::elf::dyn_scan;
use crate::parse::fonts::{font_of, is_weight_sep, lemma_rfind_sep};
use crate::parse::icons::icon_of;
use crate::route::{FileAct, file_act, is_pm_data, modules_rest, sys_conf, under};
use crate::text::{
    ascii_lower, file_stem, find, is_ws, last_seg, lead_ws, lemma_first_char_unique, lemma_rfind_char,
    lemma_rfind_char_unique, starts_with, trail_ws, trim,
};
use crate::parse::cursors::file_count;
use crate::scan::{
    PM_CAP, Phase, Scanner, bins_ok, dirs_of, files_in, files_of, finished, pm_counted, pm_ok, pm_recorded,
    pm_run, same_entries, stack_files, tree_ok, walk_from, walkable,
};
use crate::vote::{Vote, dedup, sample_len, too_diverse, vote_step};
use crate::walk::{Frame, Walker, harvest_list, took};
use vstd::prelude::*;

verus! {

/// A finished scan's profile is ordered by path; its C runtimes are the
/// distinct loaders of its binaries, first occurrence first, and the
/// layer's is the first of them; every record is what the routing makes of
/// its path, with the fields its path says; the mime and firmware counters
/// count their paths; every package-manager directory recorded holds files,
/// counted up to the cap.
pub proof fn law_scan_result(s: Scanner)
    requires
        s.wf(),
        s.phase is Done,
    ensures
        finished(s.profile),
        records_ok(s.profile, s.profile.fhs, s.config.bin_roots_view(), s.config.lib_roots_view()),
        bins_ok(s.profile.bin@, s.profile.fhs, s.config.bin_roots_view(), s.config.lib_roots_view()),
        pm_ok(s.profile.pm_dirs@),
        s.profile.counts_ok(),
{
}

/// A walk never starts at a kernel mount point (`proc`, `sys`, `dev`,
/// `run`, `tmp` at the top level), nor at anything but a directory: when
/// the scan goes on with the top-level entries `tops` from `k` on (as it
/// does after the root listing, from 0, and after each walk), the walk it
/// starts is a walk, not yet begun, of the first entry from `k` on that is
/// a directory and no kernel mount point; every entry passed over is not.
pub proof fn law_no_kernel_walk(s: Scanner, tops: Seq<Entry>, k: int)
    requires
        s.wf(),
        walk_from(s, tops, k),
        s.phase is Walk,
    ensures
        s.phase matches Phase::Walk { next, walker, .. } && {
            &&& k <= next
            &&& walkable(tops[next as int])
            &&& forall|j: int| k <= j < next ==> !walkable(#[trigger] tops[j])
            &&& walker.stack@[0] matches Frame::Descend { dir, depth } && dir.path@ == tops[next as int].path@
                && dir.raw@ == tops[next as int].raw@ && depth == 1
            &&& walker.profile.is_empty()
            &&& walker.pending@.len() == 0
        },
{
}

/// The head of a file is read only when its metadata showed a regular,
/// non-executable file: a fifo, socket or device is never opened.
pub open spec fn stat_showed_regular(f: Frame, p: Seq<u8>) -> bool {
    match f {
        Frame::Vote { probed, seen, step, .. } => step matches KindStep::Head(m) && m.is_file && m.mode
            & 0o111 == 0 && !probed@[seen as int].is_dir && probed@[seen as int].raw@ == p,
        Frame::Harvest { probed, full, next, step, .. } => step matches KindStep::Head(m) && m.is_file
            && m.mode & 0o111 == 0 && !harvest_list(probed, full)[next as int].is_dir && harvest_list(
            probed,
            full,
        )[next as int].raw@ == p,
        _ => false,
    }
}

/// A directory the walk lists or probes below its top: never
/// package-manager data.
pub open spec fn no_pm_data(f: Frame) -> bool {
    match f {
        Frame::Descend { dir, depth } => depth == 0 ==> !is_pm_data(dir.path@),
        Frame::ThemeDir { dir, .. } => !is_pm_data(dir.path@),
        Frame::CursorDir { dir, .. } => !is_pm_data(dir.path@),
        Frame::Probe { dir, .. } => !is_pm_data(dir.path@),
        _ => true,
    }
}

/// The walk probes no directory at or below the probe depth and never
/// probes or lists package-manager data; the head of a file is read only
/// after its metadata showed a regular, non-executable file.
pub proof fn law_walk_guards(w: Walker)
    requires
        w.wf(),
    ensures
        forall|i: int|
            0 <= i < w.stack@.len() ==> (#[trigger] w.stack@[i] matches Frame::Probe { depth, .. }
                ==> depth < w.config.probe_limit()),
        forall|i: int| 0 <= i < w.stack@.len() ==> no_pm_data(#[trigger] w.stack@[i]),
        w.spec_request() matches Some(Request::Head(p, _)) ==> stat_showed_regular(
            w.stack@.last(),
            p,
        ),
{
    if w.spec_request() matches Some(Request::Head(p, _)) {
        assert(w.fwf(w.stack@[w.stack@.len() - 1]));
    }
}

proof fn lemma_dedup_distinct<T>(s: Seq<T>)
    ensures
        forall|i: int, j: int|
            0 <= i < j < dedup(s).len() ==> #[trigger] dedup(s)[i] != #[trigger] dedup(s)[j],
    decreases s.len(),
{
    if s.len() > 0 {
        lemma_dedup_distinct(s.drop_last());
        let d = dedup(s.drop_last());
        if !d.contains(s.last()) {
            assert forall|i: int, j: int| 0 <= i < j < dedup(s).len() implies #[trigger] dedup(s)[i]
                != #[trigger] dedup(s)[j] by {
                if j == d.len() {
                    assert(dedup(s)[i] == d[i]);
                    assert(d.contains(d[i]));
                }
            }
        }
    }
}

/// No C runtime is listed twice: the interpreters of a layer's runtimes
/// are pairwise distinct.
pub proof fn law_libcs_distinct(bins: Seq<Bin>)
    ensures
        forall|i: int, j: int|
            0 <= i < j < libcs_of(bins).len() ==> (#[trigger] libcs_of(bins)[i]).1 != (
            #[trigger] libcs_of(bins)[j]).1,
{
    lemma_dedup_distinct(interps(bins));
    let d = dedup(interps(bins));
    assert forall|i: int, j: int| 0 <= i < j < libcs_of(bins).len() implies (
    #[trigger] libcs_of(bins)[i]).1 != (#[trigger] libcs_of(bins)[j]).1 by {
        assert(libcs_of(bins)[i].1 == d[i]);
        assert(libcs_of(bins)[j].1 == d[j]);
    }
}

/// Needed entries whose offsets overflow are passed over.
proof fn lemma_needed_skip(f: Seq<u8>, base: u64, offs: Seq<u64>, k: int, j: int)
    requires
        0 <= k <= j <= offs.len(),
        forall|m: int| k <= m < j ==> base + offs[m] > u64::MAX,
    ensures
        needed_strings(f, base, offs, k) == needed_strings(f, base, offs, j),
    decreases j - k,
{
    if k < j {
        lemma_needed_skip(f, base, offs, k + 1, j);
    }
}

/// A reading that is done stays as it is.
proof fn lemma_done_stays(rs: Seq<ElfReader>, f: Seq<u8>, i: int)
    requires
        reads(rs, f),
        0 <= i < rs.len(),
        rs[i].stage == Stage::Done,
    ensures
        rs.last() == rs[i],
    decreases rs.len() - i,
{
    if i < rs.len() - 1 {
        assert(fed(rs[i], rs[i + 1], read_range(f, rs[i].want)));
        lemma_done_stays(rs, f, i + 1);
    }
}

/// The needed libraries of a dynamic section: a reader at its needed
/// entries from index `k` on, fed the bytes of the file at every range it
/// asks for until it is done, ends with its dynamic information complete,
/// its soname kept, and after the strings it held the non-empty strings of
/// those entries whose offsets fit, in the order of the section.
pub proof fn law_needed_read(rs: Seq<ElfReader>, f: Seq<u8>, i: int, k: int)
    requires
        reads(rs, f),
        0 <= i < rs.len(),
        0 <= k,
        rs[i].wf(),
        needed_from(rs[i], k),
        rs.last().stage == Stage::Done,
    ensures
        rs.last().dyn_ok,
        rs.last().soname == rs[i].soname,
        rs.last().elf == rs[i].elf,
        rs.last().phdrs == rs[i].phdrs,
        rs.last().interp == rs[i].interp,
        rs.last().dynamic == rs[i].dynamic,
        strs_view(rs.last().needed@) == strs_view(rs[i].needed@) + needed_strings(
            f,
            rs[i].base,
            rs[i].tags.needed@,
            k,
        ),
    decreases rs.len() - i,
{
    let a = rs[i];
    let offs = a.tags.needed@;
    match a.stage {
        Stage::Needed(j) => {
            lemma_needed_skip(f, a.base, offs, k, j as int);
            let b = rs[i + 1];
            assert(fed(a, b, read_range(f, a.want)));
            law_needed_read(rs, f, i + 1, j + 1);
            assert(read_range(f, a.want) == read_range(f, Some(((a.base + offs[j as int]) as u64, STR_WINDOW))));
            match str_at(f, a.base + offs[j as int]) {
                Some(s) => {
                    assert(strs_view(b.needed@) =~= strs_view(a.needed@).push(s)) by {
                        assert(b.needed@ =~= a.needed@.push(b.needed@.last()));
                    }
                    assert(strs_view(a.needed@).push(s) + needed_strings(f, a.base, offs, j + 1) =~= strs_view(
                        a.needed@,
                    ) + (seq![s] + needed_strings(f, a.base, offs, j + 1)));
                },
                None => {},
            }
        },
        _ => {
            if k <= offs.len() {
                lemma_needed_skip(f, a.base, offs, k, offs.len() as int);
            }
            lemma_done_stays(rs, f, i);
            assert(strs_view(a.needed@) + Seq::<Seq<char>>::empty() =~= strs_view(a.needed@));
        },
    }
}

/// The dynamic section of a file: a reader at the section, fed the bytes
/// of the file at every range it asks for until it is done, has its dynamic
/// information complete exactly when the section, its string table and the
/// table's segment are found, and then holds the section's soname and the
/// strings of its needed entries, as `dyn_read` takes them from the file.
pub proof fn law_dynamic_read(rs: Seq<ElfReader>, f: Seq<u8>, i: int)
    requires
        reads(rs, f),
        0 <= i < rs.len(),
        rs[i].wf(),
        rs[i].stage == Stage::Dyn,
        rs.last().stage == Stage::Done,
    ensures
        rs.last().dyn_ok == dyn_read(f, rs[i].header->0, rs[i].phdrs@) is Some,
        dyn_read(f, rs[i].header->0, rs[i].phdrs@) matches Some((so, nd)) ==> opt_view(rs.last().soname)
            == so && strs_view(rs.last().needed@) == nd,
        rs.last().elf == rs[i].elf,
        rs.last().phdrs == rs[i].phdrs,
        rs.last().interp == rs[i].interp,
        rs.last().dynamic == rs[i].dynamic,
{
    let a = rs[i];
    let b = rs[i + 1];
    assert(fed(a, b, read_range(f, a.want)));
    assert(a.want == dyn_range(a.phdrs@));
    if b.stage == Stage::Soname {
        assert(i + 1 < rs.len() - 1) by {
            if i + 1 == rs.len() - 1 {
                assert(rs.last() == b);
            }
        }
        let c = rs[i + 1 + 1];
        assert(fed(b, c, read_range(f, b.want)));
        law_needed_read(rs, f, i + 2, 0);
        assert(strs_view(b.needed@) + needed_strings(f, b.base, b.tags.needed@, 0) =~= needed_strings(
            f,
            b.base,
            b.tags.needed@,
            0,
        ));
    } else if b.stage == Stage::Done && !b.dyn_ok {
        lemma_done_stays(rs, f, i + 1);
    } else {
        law_needed_read(rs, f, i + 1, 0);
        assert(strs_view(b.needed@) + needed_strings(f, b.base, b.tags.needed@, 0) =~= needed_strings(
            f,
            b.base,
            b.tags.needed@,
            0,
        ));
    }
}

/// A reader at the dynamic section, or done without one, ends with what
/// the file's dynamic section holds.
proof fn lemma_dyn_tail(rs: Seq<ElfReader>, f: Seq<u8>, i: int)
    requires
        reads(rs, f),
        0 <= i < rs.len(),
        rs[i].wf(),
        rs[i].elf,
        at_dyn(rs[i]),
        rs.last().stage == Stage::Done,
    ensures
        rs.last().dyn_ok == dyn_read(f, rs[i].header->0, rs[i].phdrs@) is Some,
        dyn_read(f, rs[i].header->0, rs[i].phdrs@) matches Some((so, nd)) ==> opt_view(rs.last().soname)
            == so && strs_view(rs.last().needed@) == nd,
        rs.last().elf,
        rs.last().phdrs == rs[i].phdrs,
        rs.last().interp == rs[i].interp,
        rs.last().dynamic == rs[i].dynamic,
{
    if rs[i].stage == Stage::Dyn {
        law_dynamic_read(rs, f, i);
    } else {
        lemma_done_stays(rs, f, i);
    }
}

/// A reading that fails stays failed.
proof fn lemma_phdrs_none(f: Seq<u8>, h: Header, n: nat, m: nat)
    requires
        n <= m,
        phdrs_read(f, h, n) is None,
    ensures
        phdrs_read(f, h, m) is None,
    decreases m - n,
{
    if n < m {
        lemma_phdrs_none(f, h, n, (m - 1) as nat);
    }
}

/// A reader at program header `j`, having read the ones before it, ends
/// with what the file's headers and dynamic section hold.
proof fn lemma_phdrs_read(rs: Seq<ElfReader>, f: Seq<u8>, i: int, j: usize, h: Header)
    requires
        reads(rs, f),
        0 <= i < rs.len(),
        rs[i].wf(),
        rs[i].stage == Stage::Phdr(j),
        rs[i].header == Some(h),
        phdrs_read(f, h, j as nat) == Some(rs[i].phdrs@),
        rs.last().stage == Stage::Done,
    ensures
        rs.last().elf == phdrs_read(f, h, h.phnum as nat) is Some,
        phdrs_read(f, h, h.phnum as nat) matches Some(ps) ==> {
            &&& rs.last().phdrs@ == ps
            &&& rs.last().dynamic == has_dynamic(ps)
            &&& opt_view(rs.last().interp) == if rs[i].mode == ElfMode::Bin && has_dynamic(ps) && interp_range(ps) is Some {
                str_reply(read_range(f, interp_range(ps)))
            } else {
                None
            }
            &&& rs.last().dyn_ok == dyn_read(f, h, ps) is Some
            &&& dyn_read(f, h, ps) matches Some((so, nd)) ==> opt_view(rs.last().soname) == so
                && strs_view(rs.last().needed@) == nd
        },
    decreases rs.len() - i,
{
    let a = rs[i];
    assert(i < rs.len() - 1) by {
        if i == rs.len() - 1 {
            assert(rs.last() == a);
        }
    }
    let b = rs[i + 1];
    assert(fed(a, b, read_range(f, a.want)));
    let off = phdr_offset(h, j as int)->0;
    assert(a.want == Some((off, h.phentsize)));
    assert(phdrs_read(f, h, (j + 1) as nat) == match phdr_reply(read_range(f, a.want), h) {
        Some(p) => Some(a.phdrs@.push(p)),
        None => None,
    });
    match phdr_reply(read_range(f, a.want), h) {
        None => {
            lemma_phdrs_none(f, h, (j + 1) as nat, h.phnum as nat);
            lemma_done_stays(rs, f, i + 1);
        },
        Some(q) => {
            if j + 1 < h.phnum {
                if phdr_offset(h, j + 1int) is Some {
                    lemma_phdrs_read(rs, f, i + 1, (j + 1) as usize, h);
                } else {
                    assert(phdrs_read(f, h, (j + 2) as nat) is None);
                    lemma_phdrs_none(f, h, (j + 2) as nat, h.phnum as nat);
                    lemma_done_stays(rs, f, i + 1);
                }
            } else {
                let ps = b.phdrs@;
                assert(phdrs_read(f, h, h.phnum as nat) == Some(ps));
                if reads_interp(b) {
                    assert(i + 1 < rs.len() - 1) by {
                        if i + 1 == rs.len() - 1 {
                            assert(rs.last() == b);
                        }
                    }
                    let c = rs[i + 1 + 1];
                    assert(fed(b, c, read_range(f, b.want)));
                    lemma_dyn_tail(rs, f, i + 1 + 1);
                } else {
                    lemma_dyn_tail(rs, f, i + 1);
                }
            }
        },
    }
}

/// Reading an ELF file: a reader at the start of a file, fed the bytes of
/// the file at every range it asks for until it is done, has read the
/// file's headers exactly when its file header and all its program headers
/// can be read; then it holds those program headers, whether one is
/// dynamic, the interpreter of a dynamically linked executable, and the soname and needed
/// strings of the dynamic section, as `dyn_read` takes them from the file.
pub proof fn law_elf_read(rs: Seq<ElfReader>, f: Seq<u8>)
    requires
        reads(rs, f),
        rs.len() > 0,
        rs[0].wf(),
        rs[0].stage == Stage::Header,
        rs.last().stage == Stage::Done,
    ensures
        rs.last().elf == headers_read(f) is Some,
        headers_read(f) matches Some((h, ps)) ==> {
            &&& rs.last().phdrs@ == ps
            &&& rs.last().dynamic == has_dynamic(ps)
            &&& opt_view(rs.last().interp) == if rs[0].mode == ElfMode::Bin && has_dynamic(ps) && interp_range(ps) is Some {
                str_reply(read_range(f, interp_range(ps)))
            } else {
                None
            }
            &&& rs.last().dyn_ok == dyn_read(f, h, ps) is Some
            &&& dyn_read(f, h, ps) matches Some((so, nd)) ==> opt_view(rs.last().soname) == so
                && strs_view(rs.last().needed@) == nd
        },
{
    let a = rs[0];
    assert(0 < rs.len() - 1) by {
        if rs.len() == 1 {
            assert(rs.last() == a);
        }
    }
    let b = rs[0int + 1];
    assert(fed(a, b, read_range(f, a.want)));
    match b.header {
        None => {
            lemma_done_stays(rs, f, 1);
        },
        Some(h) => {
            assert(phdrs_read(f, h, 0) == Some(b.phdrs@));
            lemma_phdrs_read(rs, f, 1, 0, h);
        },
    }
}

proof fn lemma_stack_files_add(
    ls: spec_fn(Seq<u8>) -> Seq<Entry>,
    ht: spec_fn(Seq<u8>) -> nat,
    a: Seq<Entry>,
    b: Seq<Entry>,
)
    ensures
        stack_files(ls, ht, a + b) == stack_files(ls, ht, a) + stack_files(ls, ht, b),
    decreases b.len(),
{
    if b.len() == 0 {
        assert(a + b =~= a);
    } else {
        assert((a + b).drop_last() =~= a + b.drop_last());
        lemma_stack_files_add(ls, ht, a, b.drop_last());
    }
}

proof fn lemma_stack_files_same(
    ls: spec_fn(Seq<u8>) -> Seq<Entry>,
    ht: spec_fn(Seq<u8>) -> nat,
    a: Seq<Entry>,
    b: Seq<Entry>,
)
    requires
        same_entries(a, b),
    ensures
        stack_files(ls, ht, a) == stack_files(ls, ht, b),
    decreases a.len(),
{
    if a.len() > 0 {
        assert(same_entries(a.drop_last(), b.drop_last())) by {
            assert forall|j: int| 0 <= j < a.drop_last().len() implies crate::walk::same_entry(
                #[trigger] a.drop_last()[j],
                b.drop_last()[j],
            ) by {
                assert(crate::walk::same_entry(a[j], b[j]));
            }
        }
        assert(crate::walk::same_entry(a[a.len() - 1], b[b.len() - 1]));
        lemma_stack_files_same(ls, ht, a.drop_last(), b.drop_last());
    }
}

/// Every subdirectory of a listing is one of its entries, a directory.
proof fn lemma_dirs_of(es: Seq<Entry>)
    ensures
        forall|j: int|
            0 <= j < dirs_of(es).len() ==> (#[trigger] dirs_of(es)[j]).is_dir && es.contains(dirs_of(es)[j]),
    decreases es.len(),
{
    if es.len() > 0 {
        lemma_dirs_of(es.drop_last());
        assert forall|j: int| 0 <= j < dirs_of(es).len() implies (#[trigger] dirs_of(es)[j]).is_dir
            && es.contains(dirs_of(es)[j]) by {
            let d = dirs_of(es.drop_last());
            if j < d.len() {
                assert(dirs_of(es)[j] == d[j]);
                let k = choose|k: int| 0 <= k < es.drop_last().len() && es.drop_last()[k] == d[j];
                assert(es[k] == d[j]);
            } else {
                assert(dirs_of(es)[j] == es.last());
                assert(es[es.len() - 1] == es.last());
            }
        }
    }
}

proof fn lemma_files_of(
    ls: spec_fn(Seq<u8>) -> Seq<Entry>,
    ht: spec_fn(Seq<u8>) -> nat,
    ds: Seq<Entry>,
    bound: nat,
)
    requires
        forall|j: int| 0 <= j < ds.len() ==> ht((#[trigger] ds[j]).raw@) < bound,
    ensures
        files_of(ls, ht, ds, bound) == stack_files(ls, ht, ds),
    decreases ds.len(),
{
    if ds.len() > 0 {
        assert(ht(ds[ds.len() - 1].raw@) < bound);
        lemma_files_of(ls, ht, ds.drop_last(), bound);
    }
}

/// The files under a directory of a tree are those of its listing and
/// those under its subdirectories.
proof fn lemma_files_in(ls: spec_fn(Seq<u8>) -> Seq<Entry>, ht: spec_fn(Seq<u8>) -> nat, d: Seq<u8>)
    requires
        tree_ok(ls, ht),
    ensures
        files_in(ls, ht, d) == file_count(ls(d)) + stack_files(ls, ht, dirs_of(ls(d))),
{
    let es = ls(d);
    lemma_dirs_of(es);
    assert forall|j: int| 0 <= j < dirs_of(es).len() implies ht((#[trigger] dirs_of(es)[j]).raw@) < ht(d) by {
        let k = choose|k: int| 0 <= k < es.len() && es[k] == dirs_of(es)[j];
        assert(ls(d)[k].is_dir);
    }
    lemma_files_of(ls, ht, dirs_of(es), ht(d));
}

proof fn lemma_pm_run<'a>(
    ss: Seq<Scanner<'a>>,
    rps: Seq<Reply>,
    ls: spec_fn(Seq<u8>) -> Seq<Entry>,
    ht: spec_fn(Seq<u8>) -> nat,
    base: usize,
    cands: Vec<Entry>,
    next: usize,
    i: int,
)
    requires
        tree_ok(ls, ht),
        pm_run(ss, rps, ls, base, cands, next),
        0 <= i < rps.len(),
        !(ss.last().phase matches Phase::PmCount { base: b, cands: c, next: n, .. } && b == base && c
            == cands && n == next),
    ensures
        ss[i].phase matches Phase::PmCount { stack, count, .. } && pm_recorded(
            ss[i].profile,
            ss.last().profile,
            cands@[next as int],
            if count + stack_files(ls, ht, stack@) < PM_CAP {
                (count + stack_files(ls, ht, stack@)) as nat
            } else {
                PM_CAP as nat
            },
        ),
    decreases rps.len() - i,
{
    let a = ss[i];
    let b = ss[i + 1];
    match a.phase {
        Phase::PmCount { stack, count, .. } => {
            let es = reply_entries(rps[i]);
            let d = stack@.last();
            let rest = stack@.drop_last() + dirs_of(es);
            let total = count + file_count(es);
            assert(pm_counted(a, b, base, cands, next, stack@, count, rps[i]));
            assert(es == ls(d.raw@));
            lemma_files_in(ls, ht, d.raw@);
            lemma_stack_files_add(ls, ht, stack@.drop_last(), dirs_of(es));
            assert(stack@.drop_last().push(d) =~= stack@);
            assert(stack_files(ls, ht, stack@) == stack_files(ls, ht, stack@.drop_last()) + files_in(
                ls,
                ht,
                d.raw@,
            ));
            if total < PM_CAP && rest.len() > 0 {
                match b.phase {
                    Phase::PmCount { stack: s2, count: k2, .. } => {
                        lemma_stack_files_same(ls, ht, s2@, rest);
                        assert(i + 1 < rps.len()) by {
                            if i + 1 == rps.len() {
                                assert(ss.last() == b);
                            }
                        }
                        lemma_pm_run(ss, rps, ls, ht, base, cands, next, i + 1);
                    },
                    _ => {},
                }
            } else {
                assert(i + 1 == rps.len()) by {
                    if i + 1 < rps.len() {
                        assert(ss[i + 1].phase matches Phase::PmCount { base: bb, cands: cc, next: nn, .. }
                            && bb == base && cc == cands && nn == next);
                    }
                }
            }
        },
        _ => {},
    }
}

/// Counting a package-manager directory: when every listing the count
/// asks for is answered with the tree's, the directory is recorded, when
/// it holds any, with the number of files under it at any depth, up to the
/// cap; nothing else of the profile changes.
pub proof fn law_pm_count<'a>(
    ss: Seq<Scanner<'a>>,
    rps: Seq<Reply>,
    ls: spec_fn(Seq<u8>) -> Seq<Entry>,
    ht: spec_fn(Seq<u8>) -> nat,
    base: usize,
    cands: Vec<Entry>,
    next: usize,
)
    requires
        tree_ok(ls, ht),
        pm_run(ss, rps, ls, base, cands, next),
        rps.len() > 0,
        ss[0].phase matches Phase::PmCount { stack, count, .. } && count == 0 && stack@.len() == 1
            && stack@[0].raw@ == cands@[next as int].raw@,
        !(ss.last().phase matches Phase::PmCount { base: b, cands: c, next: n, .. } && b == base && c
            == cands && n == next),
    ensures
        pm_recorded(
            ss[0].profile,
            ss.last().profile,
            cands@[next as int],
            if files_in(ls, ht, cands@[next as int].raw@) < PM_CAP {
                files_in(ls, ht, cands@[next as int].raw@)
            } else {
                PM_CAP as nat
            },
        ),
{
    lemma_pm_run(ss, rps, ls, ht, base, cands, next, 0);
    match ss[0].phase {
        Phase::PmCount { stack, .. } => {
            assert(stack@.drop_last() =~= Seq::<Entry>::empty());
            assert(stack_files(ls, ht, stack@.drop_last()) == 0);
            assert(stack@.last() == stack@[0]);
            assert(stack_files(ls, ht, stack@) == files_in(ls, ht, stack@[0].raw@));
        },
        _ => {},
    }
}

/// A directory whose probe reached the fan-out limit is left alone unless
/// its sample votes it a service collection: when the sample is empty or
/// too diverse, or the vote over it comes out against, the walk records
/// nothing, leaves nothing pending and enters none of its entries; the
/// frame that probed or voted is simply done with.
pub proof fn law_fanout_left<'a>(a: Walker<'a>, b: Walker<'a>, reply: Reply)
    requires
        a.stack@.len() > 0,
        took(a, b, reply),
        ({
            let es = reply_entries(reply);
            ||| a.stack@.last() is Probe && reply_more(reply) && (sample_len(es.len()) == 0
                || too_diverse(es))
            ||| a.stack@.last() matches Frame::Vote { probed, more, n, seen, svc, step, .. } && more
                && (kind_outcome(probed@[seen as int], step, reply) matches KindOutcome::Found(k)
                && vote_step(n as nat, seen as nat, svc as nat, k is Some) == Vote::No)
        }),
    ensures
        b.profile == a.profile,
        b.pending == a.pending,
        b.stack@ == a.stack@.drop_last(),
{
}

// ------------------------------------------------------------ parsers and routes

/// A `key=value` line of a desktop entry splits at its first `=`: the key
/// is the trimmed text before it, which holds no `=`, and the value the
/// trimmed rest of the line, `=` signs included. Here the line is `a`, an
/// `=`, then `b`, with no white space around it.
pub proof fn law_kv_first_eq(a: Seq<char>, b: Seq<char>)
    requires
        forall|j: int| 0 <= j < a.len() ==> a[j] != '=',
        a.len() > 0 && !is_ws(a[0]),
        b.len() > 0 && !is_ws(b[b.len() - 1]),
    ensures
        kv_key(a + seq!['='] + b) == Some(trim(a)),
        kv_val(a + seq!['='] + b) == trim(b),
{
    let line = a + seq!['='] + b;
    assert(line[0] == a[0]);
    assert(line.last() == b[b.len() - 1]);
    assert(lead_ws(line) == 0);
    assert(line.skip(0) =~= line);
    assert(trail_ws(line) == 0);
    assert(trim(line) =~= line);
    assert forall|j: int| 0 <= j < a.len() implies line[j] != '=' by {
        assert(line[j] == a[j]);
    }
    assert(line[a.len() as int] == '=');
    lemma_first_char_unique(line, '=', a.len() as int);
    assert(line.take(a.len() as int) =~= a);
    assert(line.skip(a.len() + 1int) =~= b);
}

/// A desktop entry whose first group header is followed by the line `a`,
/// `=`, `b` (as in `law_kv_first_eq`, and `a` not opening with `[`) has, for the key `a` trimmed, the
/// value `b` trimmed, `=` signs in it included.
pub proof fn law_desktop_value_line(g: Seq<char>, a: Seq<char>, b: Seq<char>)
    requires
        starts_with(trim(g), "["@),
        forall|j: int| 0 <= j < a.len() ==> a[j] != '=',
        a.len() > 0 && !is_ws(a[0]) && a[0] != '[',
        b.len() > 0 && !is_ws(b[b.len() - 1]),
    ensures
        desk_scan(seq![g, a + seq!['='] + b], 0, false, trim(a)) == Some(trim(b)),
{
    law_kv_first_eq(a, b);
    let ls = seq![g, a + seq!['='] + b];
    assert(ls[1] == a + seq!['='] + b);
    assert(!is_group_line(ls[1])) by {
        let line = a + seq!['='] + b;
        assert(trim(line) =~= line) by {
            assert(line[0] == a[0]);
            assert(line.last() == b[b.len() - 1]);
            assert(lead_ws(line) == 0);
            assert(trail_ws(line) == 0);
            assert(line.skip(0) =~= line);
        }
        reveal_strlit("[");
        if starts_with(line, "["@) {
            assert(line.subrange(0, 1)[0] == "["@[0]);
            assert(line[0] == a[0]);
        }
    }
    reveal_with_fuel(desk_scan, 3);
}

/// An icon's name is its file name with only the last extension removed:
/// when the file name is `n` then `.` then an extension `e` that holds no
/// dot (and `n` is not empty), the name is `n`; a file name without a dot
/// after its first character is the name whole.
pub proof fn law_icon_name(rel: Seq<char>, n: Seq<char>, e: Seq<char>)
    requires
        icon_of(rel) is Some,
    ensures
        last_seg(rel) == n + seq!['.'] + e && n.len() > 0 && (forall|j: int| 0 <= j < e.len() ==> e[j]
            != '.') ==> (icon_of(rel) matches Some((_t, _s, nm)) && nm == n),
        (forall|j: int| 1 <= j < last_seg(rel).len() ==> last_seg(rel)[j] != '.') ==> (icon_of(rel) matches Some((_t, _s, nm))
            && nm == last_seg(rel)),
{
    let f = last_seg(rel);
    if f == n + seq!['.'] + e && n.len() > 0 && (forall|j: int| 0 <= j < e.len() ==> e[j] != '.') {
        assert forall|j: int| n.len() < j < f.len() implies f[j] != '.' by {
            assert(f[j] == e[j - n.len() - 1]);
        }
        assert(f[n.len() as int] == '.');
        lemma_rfind_char_unique(f, '.', n.len() as int);
        assert(f.take(n.len() as int) =~= n);
    }
    if forall|j: int| 1 <= j < f.len() ==> f[j] != '.' {
        lemma_rfind_char(f, '.');
    }
}

/// An icon's theme and size are the two segments right after the first
/// `/icons/` of its path: for a path `p`, `/icons/`, a theme `t`, `/`, a
/// size `z`, `/`, then the rest `r`, where `t` and `z` are non-empty
/// segments, it is an icon of theme `t` and size `z`.
pub proof fn law_icon_theme_size(p: Seq<char>, t: Seq<char>, z: Seq<char>, r: Seq<char>)
    requires
        find(p + "/icons/"@ + t + seq!['/'] + z + seq!['/'] + r, "/icons/"@) == Some(p.len() as int),
        t.len() > 0 && forall|j: int| 0 <= j < t.len() ==> t[j] != '/',
        z.len() > 0 && forall|j: int| 0 <= j < z.len() ==> z[j] != '/',
    ensures
        icon_of(p + "/icons/"@ + t + seq!['/'] + z + seq!['/'] + r) matches Some((tt, zz, _n)) && tt == t
            && zz == z,
{
    reveal_strlit("/icons/");
    let rel = p + "/icons/"@ + t + seq!['/'] + z + seq!['/'] + r;
    let rest = rel.skip(p.len() + 7int);
    assert(rest =~= t + seq!['/'] + z + seq!['/'] + r);
    assert forall|j: int| 0 <= j < t.len() implies rest[j] != '/' by {
        assert(rest[j] == t[j]);
    }
    lemma_first_char_unique(rest, '/', t.len() as int);
    let r1 = rest.skip(t.len() + 1int);
    assert(r1 =~= z + seq!['/'] + r);
    assert forall|j: int| 0 <= j < z.len() implies r1[j] != '/' by {
        assert(r1[j] == z[j]);
    }
    lemma_first_char_unique(r1, '/', z.len() as int);
    assert(rest.take(t.len() as int) =~= t);
    assert(r1.take(z.len() as int) =~= z);
}

/// A font's format is the extension of its file name, lower-cased: when
/// the file name is `n`, `.`, then `e` holding no dot (and `n` is not
/// empty), the format is `e` lower-cased.
pub proof fn law_font_format(rel: Seq<char>, n: Seq<char>, e: Seq<char>)
    requires
        last_seg(rel) == n + seq!['.'] + e,
        n.len() > 0,
        forall|j: int| 0 <= j < e.len() ==> e[j] != '.',
    ensures
        font_of(rel) matches Some((nm, f, _w)) && f == ascii_lower(e) && nm == n,
{
    let f = last_seg(rel);
    assert forall|j: int| n.len() < j < f.len() implies f[j] != '.' by {
        assert(f[j] == e[j - n.len() - 1]);
    }
    assert(f[n.len() as int] == '.');
    lemma_rfind_char_unique(f, '.', n.len() as int);
    assert(f.take(n.len() as int) =~= n);
    assert(f.skip(n.len() + 1int) =~= e);
}

/// A font's weight is the lower-cased text after the last `-`, `_` or
/// space of its file stem: when the stem is `a`, one of those three, then
/// `b` holding none of them, the weight is `b` lower-cased; a stem with
/// none of them has no weight.
pub proof fn law_font_weight(rel: Seq<char>, a: Seq<char>, c: char, b: Seq<char>)
    requires
        font_of(rel) is Some,
    ensures
        file_stem(rel) == a + seq![c] + b && (c == '-' || c == '_' || c == ' ') && (forall|j: int|
            0 <= j < b.len() ==> b[j] != '-' && b[j] != '_' && b[j] != ' ') ==> (font_of(rel) matches Some((_n, _f, w)) && w
            == Some(ascii_lower(b))),
        (forall|j: int|
            0 <= j < file_stem(rel).len() ==> file_stem(rel)[j] != '-' && file_stem(rel)[j] != '_'
                && file_stem(rel)[j] != ' ') ==> (font_of(rel) matches Some((_n, _f, w)) && w is None),
{
    let s = file_stem(rel);
    if s == a + seq![c] + b && (c == '-' || c == '_' || c == ' ') && (forall|j: int|
        0 <= j < b.len() ==> b[j] != '-' && b[j] != '_' && b[j] != ' ') {
        assert forall|j: int| a.len() < j < s.len() implies !is_weight_sep(s[j]) by {
            assert(s[j] == b[j - a.len() - 1]);
        }
        assert(s[a.len() as int] == c);
        lemma_rfind_sep(s, a.len() as int);
        assert(s.skip(a.len() + 1int) =~= b);
    }
    if forall|j: int| 0 <= j < s.len() ==> s[j] != '-' && s[j] != '_' && s[j] != ' ' {
        lemma_rfind_sep(s, -1);
    }
}

/// A 32-bit dynamic section is a run of 8-byte entries, each a 4-byte tag
/// then a 4-byte value in the file's byte order: entries DT_STRTAB,
/// DT_NEEDED, DT_SONAME and DT_NULL give the string table, that needed
/// entry and that soname, whatever the bytes.
pub proof fn law_dyn_entries_32(raw: Seq<u8>, data: u8)
    requires
        raw.len() >= 32,
        word(raw.subrange(0, 4), data) == 5,
        word(raw.subrange(8, 12), data) == 1,
        word(raw.subrange(16, 20), data) == 14,
        word(raw.subrange(24, 28), data) == 0,
    ensures
        dyn_scan(raw, 1, data, 0, (None, None, Seq::empty())) == (
            Some(word(raw.subrange(4, 8), data) as u64),
            Some(word(raw.subrange(20, 24), data) as u64),
            seq![word(raw.subrange(12, 16), data) as u64],
        ),
{
    reveal_with_fuel(dyn_scan, 5);
    assert(seq![word(raw.subrange(12, 16), data) as u64] =~= Seq::<u64>::empty().push(
        word(raw.subrange(12, 16), data) as u64,
    ));
}

/// A 64-bit dynamic section is a run of 16-byte entries, each an 8-byte
/// tag then an 8-byte value in the file's byte order: entries DT_STRTAB,
/// DT_NEEDED, DT_SONAME and DT_NULL give the string table, that needed
/// entry and that soname, whatever the bytes.
pub proof fn law_dyn_entries_64(raw: Seq<u8>, data: u8)
    requires
        raw.len() >= 64,
        word(raw.subrange(0, 8), data) == 5,
        word(raw.subrange(16, 24), data) == 1,
        word(raw.subrange(32, 40), data) == 14,
        word(raw.subrange(48, 56), data) == 0,
    ensures
        dyn_scan(raw, 2, data, 0, (None, None, Seq::empty())) == (
            Some(word(raw.subrange(8, 16), data) as u64),
            Some(word(raw.subrange(40, 48), data) as u64),
            seq![word(raw.subrange(24, 32), data) as u64],
        ),
{
    reveal_with_fuel(dyn_scan, 5);
    assert(seq![word(raw.subrange(24, 32), data) as u64] =~= Seq::<u64>::empty().push(
        word(raw.subrange(24, 32), data) as u64,
    ));
}

/// Every file under a built-in bin root (`usr/bin`, `usr/sbin`,
/// `usr/local/bin`, `usr/local/sbin`, `usr/games`, `usr/libexec`, `bin`,
/// `sbin`, `opt/bin`) is a binary, unless it lies in a kernel-module tree
/// or is a device-manager or authorization configuration file.
pub proof fn law_builtin_bins(rel: Seq<char>, fhs: bool, bins: Seq<Seq<char>>, libs: Seq<Seq<char>>)
    requires
        under(rel, "usr/bin"@) || under(rel, "usr/sbin"@) || under(rel, "usr/local/bin"@) || under(
            rel,
            "usr/local/sbin"@,
        ) || under(rel, "usr/games"@) || under(rel, "usr/libexec"@) || under(rel, "bin"@) || under(
            rel,
            "sbin"@,
        ) || under(rel, "opt/bin"@),
        modules_rest(rel) is None,
        sys_conf(rel) is None,
    ensures
        file_act(rel, fhs, bins, libs) == FileAct::Bin,
{
}

/// Every file under a built-in lib root (`usr/lib`, `lib`, `usr/lib64`,
/// `lib64`, `usr/local/lib`) that is no binary is a library-tree file,
/// unless it lies in a kernel-module tree or is a device-manager or
/// authorization configuration file.
pub proof fn law_builtin_libs(rel: Seq<char>, fhs: bool, bins: Seq<Seq<char>>, libs: Seq<Seq<char>>)
    requires
        under(rel, "usr/lib"@) || under(rel, "lib"@) || under(rel, "usr/lib64"@) || under(rel, "lib64"@)
            || under(rel, "usr/local/lib"@),
        modules_rest(rel) is None,
        sys_conf(rel) is None,
        file_act(rel, fhs, bins, libs) != FileAct::Bin,
    ensures
        file_act(rel, fhs, bins, libs) == FileAct::LibRoot,
{
}

} // verus!
