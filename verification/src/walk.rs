//! One pass over a directory tree, routed by path: resource directories are
//! walked in full, unclassified ones probed to a bounded depth, service
//! collections recognised by a sampled vote, files routed by their prefix.
//! The walk asks for file-system facts through `request` and takes the
//! replies through `answer`.

use crate::ScanConfig;
use crate::fsio::{Entry, Reply, Request, reply_bytes, reply_entries, reply_more, reply_text};
use crate::parse::cursors::file_count;
use crate::parse::desktop::desktop_value;
use crate::parse::elf::{ElfMode, ElfReader, Stage, fed};
use crate::parse::fonts::font_of;
use crate::parse::icons::icon_of;
use crate::parse::man::man_of;
use crate::parse::modules::module_of;
use crate::parse::services::{
    KindOutcome, KindStep, kind_outcome, kind_outcome_exec, kind_request, kind_request_exec,
    raw_copy, service_of, step_ok,
};
use crate::parse::themes::theme_kind;
use crate::profile::{Icon, LayerProfile, Locale, Theme, opt_view};
use crate::records::{
    RecordKind, added, bins_routed, conf_kind, extends, grows, records_ok, under_lib,
};
use crate::route::{
    DirRoute, FileAct, Share, SysConf, dir_route, dir_route_exec, file_act, file_act_exec,
    is_desktop, is_desktop_exec, is_firmware, is_firmware_exec, is_pm_data, is_pm_data_exec,
    is_shared_library, is_shared_library_exec,
};
use crate::text::chars_of;
use crate::toolchains::{detect_toolchain, toolchain_of};
use crate::vote::{
    SERVICE_SAMPLE, Vote, sample_len, too_diverse, too_diverse_exec, vote_step, vote_step_exec,
};
use crate::parse::{cursors, desktop, elf, fonts, icons, libs, man, modules, services, themes};
use vstd::prelude::*;

verus! {

/// Width above which an unclassified directory is bulk data, not walked.
pub const MAX_FANOUT: usize = 500;

/// A unit of pending work of the walk.
pub enum Frame {
    /// Children of a directory being routed, from `next` on.
    Enter { children: Vec<Entry>, next: usize, depth: usize },
    /// A resource directory to list and walk.
    Descend { dir: Entry, depth: usize },
    /// A theme directory to list for its engines.
    ThemeDir { dir: Entry, name: String },
    /// A cursor theme directory to list for its files.
    CursorDir { dir: Entry, theme: String },
    /// An unclassified directory to probe.
    Probe { dir: Entry, depth: usize },
    /// The service vote over a probed directory's sample.
    Vote {
        dir: Entry,
        depth: usize,
        probed: Vec<Entry>,
        more: bool,
        n: usize,
        seen: usize,
        svc: usize,
        step: KindStep,
    },
    /// A service directory over the fan-out limit, to list in full.
    Full { dir: Entry, depth: usize, probed: Vec<Entry>, more: bool, before: usize },
    /// Services being collected from a directory's entries.
    Harvest {
        dir: Entry,
        depth: usize,
        probed: Vec<Entry>,
        more: bool,
        full: Option<Vec<Entry>>,
        next: usize,
        before: usize,
        step: KindStep,
    },
    /// A shared library being read.
    LibFile { file: Entry, reader: ElfReader },
    /// A desktop entry to read.
    DesktopFile { file: Entry, share: Share },
}

// ------------------------------------------------------------ frames

/// The entries services are collected from.
pub open spec fn harvest_list(probed: Vec<Entry>, full: Option<Vec<Entry>>) -> Seq<Entry> {
    match full {
        Some(v) => v@,
        None => probed@,
    }
}

/// The request a frame waits on.
pub open spec fn frame_request(f: Frame) -> Option<Request<Seq<u8>>> {
    match f {
        Frame::Enter { .. } => None,
        Frame::Descend { dir, .. } => Some(Request::List(dir.raw@)),
        Frame::ThemeDir { dir, .. } => Some(Request::List(dir.raw@)),
        Frame::CursorDir { dir, .. } => Some(Request::List(dir.raw@)),
        Frame::Probe { dir, .. } => Some(Request::Probe(dir.raw@, MAX_FANOUT)),
        Frame::Vote { probed, seen, step, .. } => Some(kind_request(probed@[seen as int], step)),
        Frame::Full { dir, .. } => Some(Request::List(dir.raw@)),
        Frame::Harvest { probed, full, next, step, .. } => Some(
            kind_request(harvest_list(probed, full)[next as int], step),
        ),
        Frame::LibFile { file, reader } => match reader.want {
            Some((o, l)) => Some(Request::ReadAt(file.raw@, o, l)),
            None => None,
        },
        Frame::DesktopFile { file, .. } => Some(Request::Text(file.raw@)),
    }
}

/// A frame's consistency, with the probe depth limit.
pub open spec fn frame_wf(
    f: Frame,
    limit: usize,
    fhs: bool,
    bins: Seq<Seq<char>>,
    libs: Seq<Seq<char>>,
) -> bool {
    match f {
        Frame::Enter { children, next, depth } => next <= children@.len() && (depth <= 1 || depth
            < limit),
        Frame::Descend { dir, depth } => depth <= 1 && (depth == 0 ==> !is_pm_data(dir.path@)),
        Frame::ThemeDir { dir, name } => !is_pm_data(dir.path@) && dir_route(dir.path@, fhs, bins, libs)
            == DirRoute::Theme(name@),
        Frame::CursorDir { dir, theme } => !is_pm_data(dir.path@) && dir_route(
            dir.path@,
            fhs,
            bins,
            libs,
        ) == DirRoute::Cursors(theme@),
        Frame::Probe { dir, depth } => !is_pm_data(dir.path@) && depth < limit,
        Frame::Vote { probed, n, seen, svc, step, depth, .. } => {
            &&& n == sample_len(probed@.len())
            &&& seen < n
            &&& svc <= seen
            &&& depth < limit
            &&& step_ok(probed@[seen as int], step)
        },
        Frame::Full { depth, .. } => depth < limit,
        Frame::Harvest { probed, full, next, step, depth, .. } => {
            &&& depth < limit
            &&& next < harvest_list(probed, full).len()
            &&& step_ok(harvest_list(probed, full)[next as int], step)
        },
        Frame::LibFile { file, reader } => {
            &&& reader.wf()
            &&& reader.stage != Stage::Done
            &&& reader.mode == ElfMode::Lib
            &&& is_shared_library(file.path@)
            &&& under_lib(file_act(file.path@, fhs, bins, libs))
        },
        Frame::DesktopFile { file, share } => {
            &&& is_desktop(file.path@)
            &&& share == Share::App || share == Share::X11Session || share == Share::WaylandSession
            &&& file_act(file.path@, fhs, bins, libs) == FileAct::Share(share)
        },
    }
}

/// A frame's remaining routing work, for termination.
pub open spec fn frame_work(f: Frame) -> int {
    match f {
        Frame::Enter { children, next, .. } => children@.len() - next,
        _ => 0,
    }
}

// ------------------------------------------------------------ the walker

/// A walk of one directory tree.
pub struct Walker<'a> {
    pub config: &'a ScanConfig,
    pub fhs: bool,
    pub limit: usize,
    pub profile: LayerProfile,
    /// Binaries, read at the end of the scan.
    pub pending: Vec<Entry>,
    pub stack: Vec<Frame>,
}

impl<'a> Walker<'a> {
    /// Every frame is consistent and the counters agree with their paths.
    pub open spec fn frames_wf(&self) -> bool {
        &&& self.profile.counts_ok()
        &&& records_ok(self.profile, self.fhs, self.config.bin_roots_view(), self.config.lib_roots_view())
        &&& bins_routed(self.pending@, self.fhs, self.config.bin_roots_view(), self.config.lib_roots_view())
        &&& self.profile.bin@.len() == 0
        &&& self.limit == self.config.probe_limit()
        &&& self.profile.fhs == self.fhs
        &&& forall|i: int| 0 <= i < self.stack@.len() ==> self.fwf(#[trigger] self.stack@[i])
    }

    /// A frame's consistency in this walk.
    pub open spec fn fwf(&self, f: Frame) -> bool {
        frame_wf(f, self.limit, self.fhs, self.config.bin_roots_view(), self.config.lib_roots_view())
    }

    /// Consistent, and waiting on a request (or done).
    pub open spec fn wf(&self) -> bool {
        &&& self.frames_wf()
        &&& self.stack@.len() > 0 ==> !(self.stack@.last() is Enter)
    }

    /// The request the walk waits on; None when the walk is over.
    pub open spec fn spec_request(&self) -> Option<Request<Seq<u8>>> {
        if self.stack@.len() == 0 {
            None
        } else {
            frame_request(self.stack@.last())
        }
    }

    /// A walk of `dir` (a top-level directory of the layer, routed at
    /// depth 1).
    pub fn new(dir: Entry, fhs: bool, config: &'a ScanConfig) -> (w: Walker<'a>)
        ensures
            w.wf(),
            w.starts_at(dir, fhs, config),
            w.spec_request() == Some(Request::List(dir.raw@)),
    {
        let mut stack: Vec<Frame> = Vec::new();
        stack.push(Frame::Descend { dir, depth: 1 });
        Walker {
            config,
            fhs,
            limit: config.probe_limit_exec(),
            profile: LayerProfile::empty(fhs),
            pending: Vec::new(),
            stack,
        }
    }

    /// A walk of the tree at `dir` that has not begun: one frame that lists
    /// `dir` at depth 1, nothing recorded and nothing pending yet.
    pub open spec fn starts_at(&self, dir: Entry, fhs: bool, config: &ScanConfig) -> bool {
        &&& self.profile.is_empty()
        &&& self.profile.fhs == fhs
        &&& self.fhs == fhs
        &&& self.config == config
        &&& self.limit == config.probe_limit()
        &&& self.pending@.len() == 0
        &&& self.stack@ == seq![Frame::Descend { dir, depth: 1 }]
    }

    /// Whether the walk is over.
    pub fn done(&self) -> (b: bool)
        ensures
            b == (self.stack@.len() == 0),
    {
        self.stack.len() == 0
    }

    /// The file-system request the walk waits on; None when it is over.
    pub fn request(&self) -> (r: Option<Request<Vec<u8>>>)
        requires
            self.wf(),
        ensures
            crate::fsio::opt_request_view(r) == self.spec_request(),
    {
        if self.stack.len() == 0 {
            return None;
        }
        let top = &self.stack[self.stack.len() - 1];
        frame_request_exec(top)
    }
}

/// The records a file under a lib tree makes besides a library: a
/// toolchain artifact, a firmware blob.
pub open spec fn artifact_kinds(rel: Seq<char>) -> Set<RecordKind> {
    (if toolchain_of(rel) is Some {
        set![RecordKind::Toolchain]
    } else {
        Set::empty()
    }).union(
        if is_firmware(rel) {
            set![RecordKind::Firmware]
        } else {
            Set::empty()
        },
    )
}

/// The record a path makes when its parser accepts it.
pub open spec fn parsed(accepted: bool, k: RecordKind) -> Set<RecordKind> {
    if accepted {
        set![k]
    } else {
        Set::empty()
    }
}

/// `f` reads the library `file` from its start.
pub open spec fn lib_frame(f: Frame, file: Entry) -> bool {
    f matches Frame::LibFile { file: g, reader } && g == file && reader.stage == Stage::Header
        && reader.mode == ElfMode::Lib
}

/// What routing a file of a share tree does.
pub open spec fn share_routed<'a>(a: Walker<'a>, b: Walker<'a>, file: Entry, s: Share, pushed: bool) -> bool {
    let rel = file.path@;
    &&& b.pending == a.pending
    &&& match s {
        Share::App | Share::X11Session | Share::WaylandSession => {
            &&& pushed == is_desktop(rel)
            &&& b.profile == a.profile
            &&& pushed ==> b.stack@.last() == Frame::DesktopFile { file, share: s }
        },
        Share::Icon => !pushed && added(
            a.profile,
            b.profile,
            parsed(icon_of(rel) is Some, RecordKind::Icon),
            rel,
        ),
        Share::Font => !pushed && added(
            a.profile,
            b.profile,
            parsed(font_of(rel) is Some, RecordKind::Font),
            rel,
        ),
        Share::ManPage => !pushed && added(
            a.profile,
            b.profile,
            parsed(man_of(rel) is Some, RecordKind::Man),
            rel,
        ),
    }
}

/// What routing a file does to the walk: the records its path makes, a
/// binary queued, or a library or a desktop entry left to read.
pub open spec fn file_routed<'a>(a: Walker<'a>, b: Walker<'a>, file: Entry, pushed: bool) -> bool {
    let rel = file.path@;
    match file_act(rel, a.fhs, a.config.bin_roots_view(), a.config.lib_roots_view()) {
        FileAct::Module => !pushed && b.pending == a.pending && added(
            a.profile,
            b.profile,
            parsed(module_of(rel) is Some, RecordKind::Module),
            rel,
        ),
        FileAct::Sys(k) => !pushed && b.pending == a.pending && added(
            a.profile,
            b.profile,
            set![conf_kind(k)],
            rel,
        ),
        FileAct::Bin => !pushed && b.profile == a.profile && b.pending@ == a.pending@.push(file),
        FileAct::LibRoot => {
            &&& b.pending == a.pending
            &&& added(a.profile, b.profile, artifact_kinds(rel), rel)
            &&& pushed == is_shared_library(rel)
            &&& pushed ==> lib_frame(b.stack@.last(), file)
        },
        FileAct::NonFhsLib => {
            &&& b.pending == a.pending
            &&& pushed == is_shared_library(rel)
            &&& pushed ==> b.profile == a.profile && lib_frame(b.stack@.last(), file)
            &&& !pushed ==> added(a.profile, b.profile, artifact_kinds(rel), rel)
        },
        FileAct::Share(s) => share_routed(a, b, file, s, pushed),
        FileAct::Mime => !pushed && b.pending == a.pending && added(
            a.profile,
            b.profile,
            set![RecordKind::Mime],
            rel,
        ),
        FileAct::Nothing => !pushed && b.profile == a.profile && b.pending == a.pending,
    }
}

/// What routing a child of a directory entered at `depth` does: a file is
/// routed by its path; a directory is recorded, left to list, or to probe
/// when the probe depth allows; a path that is not UTF-8, and
/// package-manager data, are skipped.
pub open spec fn child_routed<'a>(a: Walker<'a>, b: Walker<'a>, child: Entry, depth: usize, pushed: bool) -> bool {
    let rel = child.path@;
    let (p, q) = (a.profile, b.profile);
    if !child.utf8 {
        !pushed && q == p && b.pending == a.pending
    } else if !child.is_dir {
        file_routed(a, b, child, pushed)
    } else if is_pm_data(rel) {
        !pushed && q == p && b.pending == a.pending
    } else {
        &&& b.pending == a.pending
        &&& match dir_route(rel, a.fhs, a.config.bin_roots_view(), a.config.lib_roots_view()) {
            DirRoute::Theme(n) => pushed && q == p && (b.stack@.last() matches Frame::ThemeDir {
                dir,
                name,
            } && dir == child && name@ == n),
            DirRoute::Locale(_) => !pushed && added(p, q, set![RecordKind::Locale], rel),
            DirRoute::Cursors(t) => pushed && q == p && (b.stack@.last() matches Frame::CursorDir {
                dir,
                theme,
            } && dir == child && theme@ == t),
            DirRoute::Descend => pushed && q == p && b.stack@.last() == Frame::Descend {
                dir: child,
                depth: 0,
            },
            DirRoute::Unknown => {
                &&& q == p
                &&& pushed == (depth + 1 < a.limit)
                &&& pushed ==> b.stack@.last() == Frame::Probe { dir: child, depth: (depth + 1) as usize }
            },
        }
    }
}

/// An unclassified directory not taken for a service collection: it is
/// entered with its probed entries, unless the probe reached the fan-out
/// limit. `p`, `pend` and `base` are the findings, the queued binaries and
/// the frames before the step; `b` is the walk after it.
pub open spec fn probe_done<'a>(
    p: LayerProfile,
    pend: Vec<Entry>,
    base: Seq<Frame>,
    b: Walker<'a>,
    probed: Seq<Entry>,
    more: bool,
    depth: usize,
) -> bool {
    &&& b.profile == p
    &&& b.pending == pend
    &&& entered(base, b.stack@, probed, more, depth)
}

/// The probed entries are left to enter, unless the probe reached the
/// fan-out limit.
pub open spec fn entered(a: Seq<Frame>, b: Seq<Frame>, probed: Seq<Entry>, more: bool, depth: usize) -> bool {
    &&& more ==> b == a
    &&& !more ==> {
        &&& b.len() == a.len() + 1
        &&& extends(a, b)
        &&& b.last() matches Frame::Enter { children, next, depth: d }
        &&& children@ == probed
        &&& next == 0
        &&& d == depth
    }
}

/// Services were collected from a directory: when one was found there,
/// the directory is done; else it is taken as any unclassified directory.
pub open spec fn harvest_done<'a>(
    p: LayerProfile,
    pend: Vec<Entry>,
    base: Seq<Frame>,
    b: Walker<'a>,
    before: usize,
    probed: Seq<Entry>,
    more: bool,
    depth: usize,
) -> bool {
    if p.services@.len() > before {
        b.profile == p && b.pending == pend && b.stack@ == base
    } else {
        probe_done(p, pend, base, b, probed, more, depth)
    }
}

/// One frame is pushed that waits on a request; the findings are
/// unchanged.
pub open spec fn one_more<'a>(p: LayerProfile, pend: Vec<Entry>, base: Seq<Frame>, b: Walker<'a>) -> bool {
    &&& pushed_one(base, b.stack@)
    &&& b.profile == p
    &&& b.pending == pend
}

/// A directory voted a service collection: its services are collected
/// from its entries, from a full listing when the probe reached its limit.
pub open spec fn harvest_started<'a>(
    p: LayerProfile,
    pend: Vec<Entry>,
    base: Seq<Frame>,
    b: Walker<'a>,
    dir: Entry,
    depth: usize,
    probed: Seq<Entry>,
    more: bool,
) -> bool {
    let before = p.services@.len();
    if more {
        one_more(p, pend, base, b) && (b.stack@.last() matches Frame::Full {
            dir: d,
            depth: dd,
            probed: v,
            more: m,
            before: bf,
        } && d == dir && dd == depth && v@ == probed && m && bf == before)
    } else if probed.len() > 0 {
        one_more(p, pend, base, b) && (b.stack@.last() matches Frame::Harvest {
            dir: d,
            depth: dd,
            probed: v,
            more: m,
            full,
            next,
            before: bf,
            step,
        } && d == dir && dd == depth && v@ == probed && !m && full is None && next == 0 && bf == before
            && step is Start)
    } else {
        probe_done(p, pend, base, b, probed, more, depth)
    }
}

/// The probe of an unclassified directory came back: a sample that is
/// neither empty nor too diverse is put to the vote; any other directory
/// is entered.
pub open spec fn probe_step<'a>(
    p: LayerProfile,
    pend: Vec<Entry>,
    base: Seq<Frame>,
    b: Walker<'a>,
    dir: Entry,
    depth: usize,
    reply: Reply,
) -> bool {
    let (probed, more) = (reply_entries(reply), reply_more(reply));
    if sample_len(probed.len()) == 0 || too_diverse(probed) {
        probe_done(p, pend, base, b, probed, more, depth)
    } else {
        one_more(p, pend, base, b) && (b.stack@.last() matches Frame::Vote {
            dir: d,
            depth: dd,
            probed: v,
            more: m,
            n,
            seen,
            svc,
            step,
        } && d == dir && dd == depth && v@ == probed && m == more && n == sample_len(probed.len())
            && seen == 0 && svc == 0 && step is Start)
    }
}

/// One sampled entry was judged, or needs its head read: the vote goes on
/// until its verdict can no longer change.
pub open spec fn vote_taken<'a>(
    p: LayerProfile,
    pend: Vec<Entry>,
    base: Seq<Frame>,
    b: Walker<'a>,
    f: Frame,
    reply: Reply,
) -> bool {
    match f {
        Frame::Vote { dir, depth, probed, more, n, seen, svc, step } => match kind_outcome(
            probed@[seen as int],
            step,
            reply,
        ) {
            KindOutcome::NeedHead(m) => one_more(p, pend, base, b) && b.stack@.last() == (Frame::Vote {
                dir,
                depth,
                probed,
                more,
                n,
                seen,
                svc,
                step: KindStep::Head(m),
            }),
            KindOutcome::Found(k) => match vote_step(n as nat, seen as nat, svc as nat, k is Some) {
                Vote::Yes => harvest_started(p, pend, base, b, dir, depth, probed@, more),
                Vote::No => probe_done(p, pend, base, b, probed@, more, depth),
                Vote::Go => one_more(p, pend, base, b) && b.stack@.last() == (Frame::Vote {
                    dir,
                    depth,
                    probed,
                    more,
                    n,
                    seen: (seen + 1) as usize,
                    svc: (if k is Some {
                        svc + 1
                    } else {
                        svc as int
                    }) as usize,
                    step: KindStep::Start,
                }),
            },
        },
        _ => false,
    }
}

/// The full listing of a service directory came back: its entries are
/// judged one by one.
pub open spec fn full_taken<'a>(
    p: LayerProfile,
    pend: Vec<Entry>,
    base: Seq<Frame>,
    b: Walker<'a>,
    f: Frame,
    reply: Reply,
) -> bool {
    match f {
        Frame::Full { dir, depth, probed, more, before } => {
            let all = reply_entries(reply);
            if all.len() > 0 {
                one_more(p, pend, base, b) && (b.stack@.last() matches Frame::Harvest {
                    dir: d,
                    depth: dd,
                    probed: v,
                    more: m,
                    full: Some(fl),
                    next,
                    before: bf,
                    step,
                } && d == dir && dd == depth && v == probed && m == more && fl@ == all && next == 0
                    && bf == before && step is Start)
            } else {
                harvest_done(p, pend, base, b, before, probed@, more, depth)
            }
        },
        _ => false,
    }
}

/// One entry of a service directory was judged, or needs its head read: a
/// service found is recorded, and the next entry judged; after the last,
/// a directory where none was found is taken as any unclassified one.
pub open spec fn harvest_taken<'a>(
    p: LayerProfile,
    pend: Vec<Entry>,
    base: Seq<Frame>,
    b: Walker<'a>,
    f: Frame,
    reply: Reply,
) -> bool {
    match f {
        Frame::Harvest { dir, depth, probed, more, full, next, before, step } => {
            let list = harvest_list(probed, full);
            let e = list[next as int];
            match kind_outcome(e, step, reply) {
                KindOutcome::NeedHead(m) => one_more(p, pend, base, b) && b.stack@.last() == (
                Frame::Harvest { dir, depth, probed, more, full, next, before, step: KindStep::Head(m) }),
                KindOutcome::Found(k) => {
                    &&& added(p, b.profile, parsed(k is Some, RecordKind::Service), e.path@)
                    &&& k matches Some(kk) ==> service_of(b.profile.services@.last(), e.path@, kk)
                    &&& b.pending == pend
                    &&& next + 1 < list.len() ==> pushed_one(base, b.stack@) && b.stack@.last() == (
                    Frame::Harvest {
                        dir,
                        depth,
                        probed,
                        more,
                        full,
                        next: (next + 1) as usize,
                        before,
                        step: KindStep::Start,
                    })
                    &&& next + 1 >= list.len() ==> if b.profile.services@.len() > before {
                        b.stack@ == base
                    } else {
                        entered(base, b.stack@, probed@, more, depth)
                    }
                },
            }
        },
        _ => false,
    }
}

/// Where a read of a shared library leaves the walk, the reader having
/// become `r`: while `r` reads on, its frame waits again; when it is done,
/// the library is recorded with the soname and needed list of the dynamic
/// section it read, or with neither when it read none.
pub open spec fn lib_next<'a>(p: LayerProfile, base: Seq<Frame>, b: Walker<'a>, file: Entry, r: ElfReader) -> bool {
    if r.stage == Stage::Done {
        let l = b.profile.lib@.last();
        &&& b.stack@ == base
        &&& added(p, b.profile, set![RecordKind::Lib], file.path@)
        &&& l.soname == (if r.dyn_ok {
            r.soname
        } else {
            None
        })
        &&& l.needed@ == (if r.dyn_ok {
            r.needed@
        } else {
            Seq::empty()
        })
    } else {
        &&& b.profile == p
        &&& pushed_one(base, b.stack@)
        &&& b.stack@.last() == (Frame::LibFile { file, reader: r })
    }
}

/// A read of a shared library came back: the reader takes it as `feed`
/// states, and the read goes on or the library is recorded.
pub open spec fn lib_taken<'a>(
    p: LayerProfile,
    pend: Vec<Entry>,
    base: Seq<Frame>,
    b: Walker<'a>,
    file: Entry,
    reader: ElfReader,
    reply: Reply,
) -> bool {
    &&& b.pending == pend
    &&& exists|r: ElfReader| #[trigger] fed(reader, r, reply_bytes(reply)) && lib_next(p, base, b, file, r)
}

/// The text of a desktop entry came back: an application or a session is
/// recorded with the values of its primary group.
pub open spec fn desktop_taken<'a>(
    p: LayerProfile,
    pend: Vec<Entry>,
    base: Seq<Frame>,
    b: Walker<'a>,
    file: Entry,
    share: Share,
    reply: Reply,
) -> bool {
    let text = reply_text(reply);
    let q = b.profile;
    &&& b.pending == pend
    &&& b.stack@ == base
    &&& match share {
        Share::App => added(p, q, set![RecordKind::App], file.path@) && opt_view(q.apps@.last().name)
            == desktop_value(text, "Name"@) && opt_view(q.apps@.last().icon) == desktop_value(
            text,
            "Icon"@,
        ) && opt_view(q.apps@.last().command) == desktop_value(text, "Exec"@),
        _ => added(p, q, set![RecordKind::Session], file.path@) && opt_view(q.sessions@.last().name)
            == desktop_value(text, "Name"@) && opt_view(q.sessions@.last().command) == desktop_value(
            text,
            "Exec"@,
        ) && q.sessions@.last().kind@ == if share == Share::X11Session {
            "x11"@
        } else {
            "wayland"@
        },
    }
}

/// What taking a reply does to the walk `a` that waited on it, as `b`: the
/// frame on top is done with, and what its reply says is recorded or left
/// to do.
pub open spec fn took<'a>(a: Walker<'a>, b: Walker<'a>, reply: Reply) -> bool {
    let (p, pend, base) = (a.profile, a.pending, a.stack@.drop_last());
    let f = a.stack@.last();
    &&& b.config == a.config
    &&& b.fhs == a.fhs
    &&& b.limit == a.limit
    &&& match f {
        Frame::Enter { .. } => b.stack@ == a.stack@ && b.profile == p && b.pending == pend,
        Frame::Descend { depth, .. } => b.profile == p && b.pending == pend && entered(
            base,
            b.stack@,
            reply_entries(reply),
            false,
            depth,
        ),
        Frame::ThemeDir { dir, name } => {
            &&& b.pending == pend
            &&& b.stack@ == base
            &&& added(p, b.profile, set![RecordKind::Theme], dir.path@)
            &&& b.profile.themes@.last().name == name
            &&& b.profile.themes@.last().kind@ == theme_kind(reply_entries(reply))
        },
        Frame::CursorDir { dir, theme } => {
            let n = file_count(reply_entries(reply));
            &&& b.pending == pend
            &&& b.stack@ == base
            &&& added(p, b.profile, parsed(n > 0, RecordKind::Cursor), dir.path@)
            &&& n > 0 ==> b.profile.cursors@.last().name@ == theme@ && b.profile.cursors@.last().count
                == n
        },
        Frame::Probe { dir, depth } => probe_step(p, pend, base, b, dir, depth, reply),
        Frame::Vote { .. } => vote_taken(p, pend, base, b, f, reply),
        Frame::Full { .. } => full_taken(p, pend, base, b, f, reply),
        Frame::Harvest { .. } => harvest_taken(p, pend, base, b, f, reply),
        Frame::LibFile { file, reader } => lib_taken(p, pend, base, b, file, reader, reply),
        Frame::DesktopFile { file, share } => desktop_taken(p, pend, base, b, file, share, reply),
    }
}

/// Two entries with the same path, bytes and kind.
pub open spec fn same_entry(a: Entry, b: Entry) -> bool {
    &&& a.path@ == b.path@
    &&& a.raw@ == b.raw@
    &&& a.is_dir == b.is_dir
    &&& a.utf8 == b.utf8
}

/// Two states of a walk that agree on everything, the frames compared by
/// value.
pub open spec fn same_walker<'a>(a: Walker<'a>, b: Walker<'a>) -> bool {
    &&& a.config == b.config
    &&& a.fhs == b.fhs
    &&& a.limit == b.limit
    &&& a.profile == b.profile
    &&& a.pending == b.pending
    &&& a.stack@ == b.stack@
}

/// One step of settling: a directory whose children are all routed is
/// left; else its next child is routed, as `child_routed` states.
pub open spec fn settle_step<'a>(a: Walker<'a>, b: Walker<'a>) -> bool {
    &&& b.config == a.config
    &&& b.fhs == a.fhs
    &&& b.limit == a.limit
    &&& a.stack@.len() > 0
    &&& a.stack@.last() matches Frame::Enter { children, next, depth }
    &&& {
        let rest = a.stack@.drop_last();
        if next >= children@.len() {
            b.stack@ == rest && b.profile == a.profile && b.pending == a.pending
        } else {
            let adv = rest.push(Frame::Enter { children, next: (next + 1) as usize, depth });
            exists|c: Entry|
                #![trigger same_entry(c, children@[next as int])]
                same_entry(c, children@[next as int]) && ((child_routed(a, b, c, depth, false)
                    && b.stack@ == adv) || (child_routed(a, b, c, depth, true) && pushed_one(
                    adv,
                    b.stack@,
                )))
        }
    }
}

/// `tr` runs from `a` to `b` by settling steps.
pub open spec fn settled<'a>(tr: Seq<Walker<'a>>, a: Walker<'a>, b: Walker<'a>) -> bool {
    &&& tr.len() >= 1
    &&& tr[0] == a
    &&& same_walker(tr.last(), b)
    &&& forall|i: int| 0 <= i < tr.len() - 1 ==> #[trigger] settle_step(tr[i], tr[i + 1])
}

/// What answering a reply does to the walk `a`, as `b`: the reply is
/// taken (`took`), then the children of the directories entered are
/// routed (`settled`) until the walk waits again or is over.
pub open spec fn answered<'a>(a: Walker<'a>, b: Walker<'a>, reply: Reply) -> bool {
    exists|mid: Walker<'a>, tr: Seq<Walker<'a>>| took(a, mid, reply) && settled(tr, mid, b)
}

/// The walk's setup is unchanged, its findings only grew.
pub open spec fn advanced<'a>(a: Walker<'a>, b: Walker<'a>) -> bool {
    &&& b.config == a.config
    &&& b.fhs == a.fhs
    &&& b.limit == a.limit
    &&& grows(a.profile, b.profile)
    &&& extends(a.pending@, b.pending@)
}

/// `b` is `a` with one frame pushed that waits on a request.
pub open spec fn pushed_one(a: Seq<Frame>, b: Seq<Frame>) -> bool {
    &&& b.len() == a.len() + 1
    &&& extends(a, b)
    &&& !(b.last() is Enter)
}

impl<'a> Walker<'a> {
    /// Records what a file under a lib tree shows besides a library: a
    /// toolchain artifact, a firmware blob.
    fn record_artifact(&mut self, file: &Entry, rel: &[char])
        requires
            old(self).frames_wf(),
            rel@ == file.path@,
            under_lib(
                file_act(
                    file.path@,
                    old(self).fhs,
                    old(self).config.bin_roots_view(),
                    old(self).config.lib_roots_view(),
                ),
            ),
        ensures
            final(self).frames_wf(),
            advanced(*old(self), *final(self)),
            final(self).stack == old(self).stack,
            final(self).pending == old(self).pending,
            added(old(self).profile, final(self).profile, artifact_kinds(file.path@), file.path@),
    {
        if let Some(t) = detect_toolchain(file.path.as_str()) {
            self.profile.toolchains.push(t);
        }
        if is_firmware_exec(rel) {
            self.profile.firmware_paths.push(file.path.clone());
            self.profile.firmware = self.profile.firmware_paths.len();
        }
    }

    /// Routes a file of a share tree.
    fn route_share(&mut self, file: Entry, kind: Share, rel: &[char]) -> (pushed: bool)
        requires
            old(self).frames_wf(),
            rel@ == file.path@,
            file_act(
                file.path@,
                old(self).fhs,
                old(self).config.bin_roots_view(),
                old(self).config.lib_roots_view(),
            ) == FileAct::Share(kind),
        ensures
            final(self).frames_wf(),
            advanced(*old(self), *final(self)),
            !pushed ==> final(self).stack == old(self).stack,
            pushed ==> pushed_one(old(self).stack@, final(self).stack@),
            share_routed(*old(self), *final(self), file, kind, pushed),
    {
        match kind {
            Share::App | Share::X11Session | Share::WaylandSession => {
                if is_desktop_exec(rel) {
                    self.stack.push(Frame::DesktopFile { file, share: kind });
                    true
                } else {
                    false
                }
            },
            Share::Icon => {
                if let Some(i) = icons::parse(file.path.as_str()) {
                    self.profile.icons.push(i);
                }
                false
            },
            Share::Font => {
                if let Some(f) = fonts::parse(file.path.as_str()) {
                    self.profile.fonts.push(f);
                }
                false
            },
            Share::ManPage => {
                if let Some(m) = man::parse(file.path.as_str()) {
                    self.profile.man.push(m);
                }
                false
            },
        }
    }

    /// Routes a file by its path.
    fn route_file(&mut self, file: Entry) -> (pushed: bool)
        requires
            old(self).frames_wf(),
        ensures
            final(self).frames_wf(),
            advanced(*old(self), *final(self)),
            !pushed ==> final(self).stack == old(self).stack,
            pushed ==> pushed_one(old(self).stack@, final(self).stack@),
            file_routed(*old(self), *final(self), file, pushed),
    {
        let rel = chars_of(file.path.as_str());
        match file_act_exec(rel.as_slice(), self.fhs, self.config) {
            FileAct::Module => {
                if let Some(m) = modules::parse(file.path.as_str()) {
                    self.profile.modules.push(m);
                }
                false
            },
            FileAct::Sys(k) => {
                let p = file.path;
                match k {
                    SysConf::UdevRule => self.profile.udev_rules.push(p),
                    SysConf::UdevHwdb => self.profile.udev_hwdb.push(p),
                    SysConf::PolkitRule => self.profile.polkit_rules.push(p),
                    SysConf::PolkitAction => self.profile.polkit_actions.push(p),
                }
                false
            },
            FileAct::Bin => {
                self.pending.push(file);
                false
            },
            FileAct::LibRoot => {
                self.record_artifact(&file, rel.as_slice());
                if is_shared_library_exec(rel.as_slice()) {
                    self.stack.push(Frame::LibFile { file, reader: ElfReader::new(ElfMode::Lib) });
                    true
                } else {
                    false
                }
            },
            FileAct::NonFhsLib => {
                if is_shared_library_exec(rel.as_slice()) {
                    self.stack.push(Frame::LibFile { file, reader: ElfReader::new(ElfMode::Lib) });
                    true
                } else {
                    self.record_artifact(&file, rel.as_slice());
                    false
                }
            },
            FileAct::Share(k) => self.route_share(file, k, rel.as_slice()),
            FileAct::Mime => {
                self.profile.mime_paths.push(file.path);
                self.profile.mime = self.profile.mime_paths.len();
                false
            },
            FileAct::Nothing => false,
        }
    }

    /// Routes one child of a directory being entered at `depth`.
    fn route_child(&mut self, child: Entry, depth: usize) -> (pushed: bool)
        requires
            old(self).frames_wf(),
            depth <= 1 || depth < old(self).limit,
        ensures
            final(self).frames_wf(),
            advanced(*old(self), *final(self)),
            !pushed ==> final(self).stack == old(self).stack,
            pushed ==> pushed_one(old(self).stack@, final(self).stack@),
            child_routed(*old(self), *final(self), child, depth, pushed),
    {
        if !child.utf8 {
            return false;
        }
        if !child.is_dir {
            return self.route_file(child);
        }
        let rel = chars_of(child.path.as_str());
        if is_pm_data_exec(rel.as_slice()) {
            return false;
        }
        match dir_route_exec(rel.as_slice(), self.fhs, &self.config.bin_roots, &self.config.lib_roots) {
            DirRoute::Theme(name) => {
                self.stack.push(Frame::ThemeDir { dir: child, name });
                true
            },
            DirRoute::Locale(lang) => {
                self.profile.locale.push(Locale { path: child.path, lang });
                false
            },
            DirRoute::Cursors(theme) => {
                self.stack.push(Frame::CursorDir { dir: child, theme });
                true
            },
            DirRoute::Descend => {
                self.stack.push(Frame::Descend { dir: child, depth: 0 });
                true
            },
            DirRoute::Unknown => {
                if depth + 1 < self.limit {
                    self.stack.push(Frame::Probe { dir: child, depth: depth + 1 });
                    true
                } else {
                    false
                }
            },
        }
    }

    /// Routes the children of the directories being entered until the walk
    /// waits on a request or is over.
    pub fn settle(&mut self)
        requires
            old(self).frames_wf(),
        ensures
            final(self).wf(),
            advanced(*old(self), *final(self)),
            exists|tr: Seq<Walker<'a>>| settled(tr, *old(self), *final(self)),
    {
        let ghost start = *self;
        let ghost mut tr: Seq<Walker<'a>> = seq![start];
        loop
            invariant
                self.frames_wf(),
                advanced(start, *self),
                tr.len() >= 1,
                tr[0] == start,
                same_walker(tr.last(), *self),
                forall|i: int| 0 <= i < tr.len() - 1 ==> #[trigger] settle_step(tr[i], tr[i + 1]),
            ensures
                self.wf(),
                advanced(start, *self),
                settled(tr, start, *self),
            decreases self.stack@.len(), frame_work(self.stack@.last()),
        {
            let ghost a = *self;
            let f = match self.stack.pop() {
                Some(f) => f,
                None => break,
            };
            match f {
                Frame::Enter { children, next, depth } => {
                    if next < children.len() {
                        let child = children[next].copy();
                        self.stack.push(Frame::Enter { children, next: next + 1, depth });
                        let ghost mid = *self;
                        let pushed = self.route_child(child, depth);
                        proof {
                            assert(same_entry(child, a.stack@.last()->children@[next as int]));
                            assert(self.stack@ == mid.stack@ || pushed_one(mid.stack@, self.stack@));
                            assert(settle_step(a, *self));
                            assert(settle_step(tr.last(), *self));
                            tr = tr.push(*self);
                        }
                        if pushed {
                            break;
                        }
                    } else {
                        proof {
                            assert(settle_step(tr.last(), *self));
                            tr = tr.push(*self);
                        }
                    }
                },
                other => {
                    self.stack.push(other);
                    proof {
                        assert(self.stack@ =~= a.stack@);
                    }
                    break;
                },
            }
        }
    }

    /// An unclassified directory is not a service collection: it is entered
    /// unless it is wider than the fan-out limit.
    fn after_probe(&mut self, probed: Vec<Entry>, more: bool, depth: usize)
        requires
            old(self).frames_wf(),
            depth < old(self).limit,
        ensures
            final(self).frames_wf(),
            advanced(*old(self), *final(self)),
            probe_done(old(self).profile, old(self).pending, old(self).stack@, *final(self), probed@, more, depth),
    {
        if !more {
            self.stack.push(Frame::Enter { children: probed, next: 0, depth });
        }
    }

    /// Services were collected from a directory: when none was found there,
    /// it is treated as any unclassified directory.
    fn after_harvest(&mut self, before: usize, probed: Vec<Entry>, more: bool, depth: usize)
        requires
            old(self).frames_wf(),
            depth < old(self).limit,
        ensures
            final(self).frames_wf(),
            advanced(*old(self), *final(self)),
            harvest_done(old(self).profile, old(self).pending, old(self).stack@, *final(self), before, probed@, more, depth),
    {
        if self.profile.services.len() <= before {
            self.after_probe(probed, more, depth);
        }
    }

    /// A directory voted a service collection: its services are collected,
    /// from a full listing when the probe reached its limit.
    fn start_harvest(&mut self, dir: Entry, depth: usize, probed: Vec<Entry>, more: bool)
        requires
            old(self).frames_wf(),
            depth < old(self).limit,
        ensures
            final(self).frames_wf(),
            advanced(*old(self), *final(self)),
            harvest_started(old(self).profile, old(self).pending, old(self).stack@, *final(self), dir, depth, probed@, more),
    {
        let before = self.profile.services.len();
        if more {
            self.stack.push(Frame::Full { dir, depth, probed, more, before });
        } else if probed.len() > 0 {
            self.stack.push(
                Frame::Harvest {
                    dir,
                    depth,
                    probed,
                    more,
                    full: None,
                    next: 0,
                    before,
                    step: KindStep::Start,
                },
            );
        } else {
            self.after_harvest(before, probed, more, depth);
        }
    }

    /// The probe of an unclassified directory came back.
    fn on_probe(&mut self, dir: Entry, depth: usize, reply: Reply)
        requires
            old(self).frames_wf(),
            depth < old(self).limit,
        ensures
            final(self).frames_wf(),
            advanced(*old(self), *final(self)),
            probe_step(old(self).profile, old(self).pending, old(self).stack@, *final(self), dir, depth, reply),
    {
        let (probed, more) = reply.into_entries();
        let n = if probed.len() < SERVICE_SAMPLE {
            probed.len()
        } else {
            SERVICE_SAMPLE
        };
        if n == 0 || too_diverse_exec(&probed) {
            self.after_probe(probed, more, depth);
        } else {
            self.stack.push(
                Frame::Vote { dir, depth, probed, more, n, seen: 0, svc: 0, step: KindStep::Start },
            );
        }
    }

    /// One sampled entry was judged, or needs its head read.
    fn on_vote(
        &mut self,
        dir: Entry,
        depth: usize,
        probed: Vec<Entry>,
        more: bool,
        n: usize,
        seen: usize,
        svc: usize,
        step: KindStep,
        reply: Reply,
    )
        requires
            old(self).frames_wf(),
            old(self).fwf(
                Frame::Vote { dir, depth, probed, more, n, seen, svc, step },
                ),
        ensures
            final(self).frames_wf(),
            advanced(*old(self), *final(self)),
            vote_taken(old(self).profile, old(self).pending, old(self).stack@, *final(self), Frame::Vote { dir, depth, probed, more, n, seen, svc, step }, reply),
    {
        let outcome = kind_outcome_exec(&probed[seen], step, reply);
        match outcome {
            KindOutcome::NeedHead(m) => {
                self.stack.push(
                    Frame::Vote { dir, depth, probed, more, n, seen, svc, step: KindStep::Head(m) },
                );
            },
            KindOutcome::Found(k) => {
                let hit = k.is_some();
                match vote_step_exec(n, seen, svc, hit) {
                    Vote::Yes => self.start_harvest(dir, depth, probed, more),
                    Vote::No => self.after_probe(probed, more, depth),
                    Vote::Go => {
                        let svc = if hit {
                            svc + 1
                        } else {
                            svc
                        };
                        self.stack.push(
                            Frame::Vote {
                                dir,
                                depth,
                                probed,
                                more,
                                n,
                                seen: seen + 1,
                                svc,
                                step: KindStep::Start,
                            },
                        );
                    },
                }
            },
        }
    }

    /// The full listing of a service directory came back.
    fn on_full(
        &mut self,
        dir: Entry,
        depth: usize,
        probed: Vec<Entry>,
        more: bool,
        before: usize,
        reply: Reply,
    )
        requires
            old(self).frames_wf(),
            depth < old(self).limit,
        ensures
            final(self).frames_wf(),
            advanced(*old(self), *final(self)),
            full_taken(old(self).profile, old(self).pending, old(self).stack@, *final(self), Frame::Full { dir, depth, probed, more, before }, reply),
    {
        let (all, _) = reply.into_entries();
        if all.len() > 0 {
            self.stack.push(
                Frame::Harvest {
                    dir,
                    depth,
                    probed,
                    more,
                    full: Some(all),
                    next: 0,
                    before,
                    step: KindStep::Start,
                },
            );
        } else {
            self.after_harvest(before, probed, more, depth);
        }
    }

    /// One entry of a service directory was judged, or needs its head read.
    fn on_harvest(
        &mut self,
        dir: Entry,
        depth: usize,
        probed: Vec<Entry>,
        more: bool,
        full: Option<Vec<Entry>>,
        next: usize,
        before: usize,
        step: KindStep,
        reply: Reply,
    )
        requires
            old(self).frames_wf(),
            old(self).fwf(
                Frame::Harvest { dir, depth, probed, more, full, next, before, step },
                ),
        ensures
            final(self).frames_wf(),
            advanced(*old(self), *final(self)),
            harvest_taken(
                old(self).profile, old(self).pending, old(self).stack@, *final(self),
                Frame::Harvest { dir, depth, probed, more, full, next, before, step },
                reply,
            ),
    {
        let len = match &full {
            Some(v) => v.len(),
            None => probed.len(),
        };
        let outcome = match &full {
            Some(v) => kind_outcome_exec(&v[next], step, reply),
            None => kind_outcome_exec(&probed[next], step, reply),
        };
        match outcome {
            KindOutcome::NeedHead(m) => {
                self.stack.push(
                    Frame::Harvest {
                        dir,
                        depth,
                        probed,
                        more,
                        full,
                        next,
                        before,
                        step: KindStep::Head(m),
                    },
                );
            },
            KindOutcome::Found(k) => {
                let found = match &full {
                    Some(v) => services::detect(&v[next], k),
                    None => services::detect(&probed[next], k),
                };
                if let Some(s) = found {
                    self.profile.services.push(s);
                }
                if next + 1 < len {
                    self.stack.push(
                        Frame::Harvest {
                            dir,
                            depth,
                            probed,
                            more,
                            full,
                            next: next + 1,
                            before,
                            step: KindStep::Start,
                        },
                    );
                } else {
                    self.after_harvest(before, probed, more, depth);
                }
            },
        }
    }

    /// A read of a shared library came back.
    fn on_lib(&mut self, file: Entry, reader: ElfReader, reply: Reply)
        requires
            old(self).frames_wf(),
            old(self).fwf(Frame::LibFile { file, reader }),
        ensures
            final(self).frames_wf(),
            advanced(*old(self), *final(self)),
            lib_taken(old(self).profile, old(self).pending, old(self).stack@, *final(self), file, reader, reply),
    {
        let ghost before = reader;
        let ghost bytes = reply_bytes(reply);
        let mut reader = reader;
        reader.feed(reply.into_bytes());
        if reader.stage == Stage::Done {
            let ghost r = reader;
            let lib = libs::parse(file.path.as_str(), elf::dynamic(reader));
            self.profile.lib.push(lib);
            proof {
                assert(self.profile.lib@.last() == lib);
                assert(lib.soname == (if r.dyn_ok { r.soname } else { None }));
                assert(lib.needed@ == (if r.dyn_ok { r.needed@ } else { Seq::empty() }));
                assert(self.stack@ == old(self).stack@);
                assert(added(old(self).profile, self.profile, set![RecordKind::Lib], file.path@));
                // the reader after the read witnesses `lib_taken`
                assert(fed(before, r, bytes) && lib_next(old(self).profile, old(self).stack@, *self, file, r));
            }
        } else {
            self.stack.push(Frame::LibFile { file, reader });
            proof {
                assert(fed(before, reader, bytes) && lib_next(
                    old(self).profile,
                    old(self).stack@,
                    *self,
                    file,
                    reader,
                ));
            }
        }
    }

    /// The text of a desktop entry came back.
    fn on_desktop(&mut self, file: Entry, share: Share, reply: Reply)
        requires
            old(self).frames_wf(),
            old(self).fwf(Frame::DesktopFile { file, share }),
        ensures
            final(self).frames_wf(),
            advanced(*old(self), *final(self)),
            desktop_taken(old(self).profile, old(self).pending, old(self).stack@, *final(self), file, share, reply),
    {
        let text = reply.into_text();
        match share {
            Share::App => self.profile.apps.push(desktop::app(file.path.as_str(), text.as_str())),
            Share::X11Session => self.profile.sessions.push(
                desktop::session(file.path.as_str(), text.as_str(), "x11"),
            ),
            Share::WaylandSession => self.profile.sessions.push(
                desktop::session(file.path.as_str(), text.as_str(), "wayland"),
            ),
            _ => {},
        }
    }

    /// Takes the reply to the request the walk waits on: the frame that
    /// waited on it is done with, and what the reply says is recorded or
    /// left to do.
    pub fn take(&mut self, reply: Reply)
        requires
            old(self).frames_wf(),
        ensures
            final(self).frames_wf(),
            advanced(*old(self), *final(self)),
            old(self).stack@.len() > 0 ==> took(*old(self), *final(self), reply),
            old(self).stack@.len() == 0 ==> *final(self) == *old(self),
    {
        if self.stack.len() == 0 {
            return ;
        }
        let ghost before = *self;
        let f = match self.stack.pop() {
            Some(f) => f,
            None => return ,
        };
        assert(f == before.stack@.last());
        match f {
            Frame::Enter { children, next, depth } => {
                self.stack.push(Frame::Enter { children, next, depth });
                assert(self.stack@ =~= before.stack@);
            },
            Frame::Descend { dir, depth } => {
                let (children, _) = reply.into_entries();
                self.stack.push(Frame::Enter { children, next: 0, depth });
            },
            Frame::ThemeDir { dir, name } => {
                let (es, _) = reply.into_entries();
                let kind = themes::kind(&es);
                self.profile.themes.push(Theme { path: dir.path, name, kind });
            },
            Frame::CursorDir { dir, theme } => {
                let (es, _) = reply.into_entries();
                if let Some(c) = cursors::parse(dir.path.as_str(), &es, theme) {
                    self.profile.cursors.push(c);
                }
            },
            Frame::Probe { dir, depth } => self.on_probe(dir, depth, reply),
            Frame::Vote { dir, depth, probed, more, n, seen, svc, step } => self.on_vote(
                dir,
                depth,
                probed,
                more,
                n,
                seen,
                svc,
                step,
                reply,
            ),
            Frame::Full { dir, depth, probed, more, before } => self.on_full(
                dir,
                depth,
                probed,
                more,
                before,
                reply,
            ),
            Frame::Harvest { dir, depth, probed, more, full, next, before, step } => self.on_harvest(
                dir,
                depth,
                probed,
                more,
                full,
                next,
                before,
                step,
                reply,
            ),
            Frame::LibFile { file, reader } => self.on_lib(file, reader, reply),
            Frame::DesktopFile { file, share } => self.on_desktop(file, share, reply),
        }
    }

    /// Takes the reply to the request the walk waits on (as `take` states),
    /// then routes the children of the directories entered (as `settle`
    /// states) until the walk waits again or is over.
    pub fn answer(&mut self, reply: Reply)
        requires
            old(self).wf(),
        ensures
            final(self).wf(),
            advanced(*old(self), *final(self)),
            old(self).stack@.len() > 0 ==> answered(*old(self), *final(self), reply),
            old(self).stack@.len() == 0 ==> *final(self) == *old(self),
    {
        if self.stack.len() == 0 {
            return ;
        }
        self.take(reply);
        let ghost mid = *self;
        self.settle();
        proof {
            let tr = choose|tr: Seq<Walker<'a>>| settled(tr, mid, *self);
            assert(took(*old(self), mid, reply) && settled(tr, mid, *self));
        }
    }
}

fn frame_request_exec(f: &Frame) -> (r: Option<Request<Vec<u8>>>)
    requires
        match f {
            Frame::Vote { probed, seen, .. } => (*seen as int) < probed@.len(),
            Frame::Harvest { probed, full, next, .. } => (*next as int) < harvest_list(
                *probed,
                *full,
            ).len(),
            _ => true,
        },
    ensures
        crate::fsio::opt_request_view(r) == frame_request(*f),
{
    match f {
        Frame::Enter { .. } => None,
        Frame::Descend { dir, .. } => Some(Request::List(raw_copy(&dir.raw))),
        Frame::ThemeDir { dir, .. } => Some(Request::List(raw_copy(&dir.raw))),
        Frame::CursorDir { dir, .. } => Some(Request::List(raw_copy(&dir.raw))),
        Frame::Probe { dir, .. } => Some(Request::Probe(raw_copy(&dir.raw), MAX_FANOUT)),
        Frame::Vote { probed, seen, step, .. } => Some(kind_request_exec(&probed[*seen], *step)),
        Frame::Full { dir, .. } => Some(Request::List(raw_copy(&dir.raw))),
        Frame::Harvest { probed, full, next, step, .. } => {
            let e = match full {
                Some(v) => &v[*next],
                None => &probed[*next],
            };
            Some(kind_request_exec(e, *step))
        },
        Frame::LibFile { file, reader } => match reader.want {
            Some((o, l)) => Some(Request::ReadAt(raw_copy(&file.raw), o, l)),
            None => None,
        },
        Frame::DesktopFile { file, .. } => Some(Request::Text(raw_copy(&file.raw))),
    }
}

} // verus!
