//! Services: three structural shapes, no name tables. A directory with a
//! `run` file is supervised, an executable file is a script, a text file
//! opening with a `[section]` or made of `key = value` directives is a
//! unit. The kind is the file extension, the name the stem.

use crate::fsio::{Entry, Meta, Reply, Request, reply_flag, reply_head, reply_meta};
use crate::profile::Service;
use crate::records::service_ok;
use crate::text::{
    chars_of, extension, extension_exec, file_stem, file_stem_exec, last_seg, last_seg_exec,
    string_of,
};
use vstd::prelude::*;
use vstd::utf8::{decode_utf8, valid_utf8};

verus! {

// ------------------------------------------------------------ byte lines

pub open spec fn bfirst(s: Seq<u8>, c: u8) -> int
    decreases s.len(),
{
    if s.len() == 0 || s[0] == c {
        0
    } else {
        1 + bfirst(s.drop_first(), c)
    }
}

proof fn lemma_bfirst(s: Seq<u8>, c: u8, k: int)
    requires
        0 <= k <= s.len(),
        k < s.len() ==> s[k] == c,
        forall|j: int| 0 <= j < k ==> s[j] != c,
    ensures
        bfirst(s, c) == k,
    decreases s.len(),
{
    if s.len() > 0 && s[0] != c {
        assert forall|j: int| 0 <= j < k - 1 implies s.drop_first()[j] != c by {
            assert(s[j + 1] != c);
        }
        lemma_bfirst(s.drop_first(), c, k - 1);
    }
}

pub proof fn lemma_bfirst_range(s: Seq<u8>, c: u8)
    ensures
        0 <= bfirst(s, c) <= s.len(),
    decreases s.len(),
{
    if s.len() > 0 && s[0] != c {
        lemma_bfirst_range(s.drop_first(), c);
    }
}

/// `s` split at every line feed (`slice::split`).
pub open spec fn blines(s: Seq<u8>) -> Seq<Seq<u8>>
    decreases s.len(),
{
    if bfirst(s, 0x0a) >= s.len() {
        seq![s]
    } else {
        proof {
            lemma_bfirst_range(s, 0x0a);
        }
        seq![s.take(bfirst(s, 0x0a))] + blines(s.skip(bfirst(s, 0x0a) + 1))
    }
}

/// `u8::is_ascii_whitespace`.
pub open spec fn is_ascii_ws(b: u8) -> bool {
    b == 0x20 || b == 0x09 || b == 0x0a || b == 0x0c || b == 0x0d
}

pub open spec fn blead(s: Seq<u8>) -> int
    decreases s.len(),
{
    if s.len() == 0 || !is_ascii_ws(s[0]) {
        0
    } else {
        1 + blead(s.drop_first())
    }
}

pub open spec fn btrail(s: Seq<u8>) -> int
    decreases s.len(),
{
    if s.len() == 0 || !is_ascii_ws(s.last()) {
        0
    } else {
        1 + btrail(s.drop_last())
    }
}

/// `<[u8]>::trim_ascii`.
pub open spec fn btrim(s: Seq<u8>) -> Seq<u8> {
    let a = s.skip(blead(s));
    a.take(a.len() - btrail(a))
}

proof fn lemma_blead(s: Seq<u8>, k: int)
    requires
        0 <= k <= s.len(),
        forall|j: int| 0 <= j < k ==> is_ascii_ws(s[j]),
        k < s.len() ==> !is_ascii_ws(s[k]),
    ensures
        blead(s) == k,
    decreases s.len(),
{
    if s.len() > 0 && is_ascii_ws(s[0]) {
        assert forall|j: int| 0 <= j < k - 1 implies is_ascii_ws(s.drop_first()[j]) by {
            assert(is_ascii_ws(s[j + 1]));
        }
        lemma_blead(s.drop_first(), k - 1);
    }
}

proof fn lemma_btrail(s: Seq<u8>, k: int)
    requires
        0 <= k <= s.len(),
        forall|j: int| s.len() - k <= j < s.len() ==> is_ascii_ws(s[j]),
        k < s.len() ==> !is_ascii_ws(s[s.len() - k - 1]),
    ensures
        btrail(s) == k,
    decreases s.len(),
{
    if s.len() > 0 && is_ascii_ws(s.last()) {
        lemma_btrail(s.drop_last(), k - 1);
    }
}

/// Bounds `[a, b)` of the trimmed part of `s[lo..hi]`.
fn btrim_bounds(s: &[u8], lo: usize, hi: usize) -> (r: (usize, usize))
    requires
        lo <= hi <= s@.len(),
    ensures
        lo <= r.0 <= r.1 <= hi,
        s@.subrange(r.0 as int, r.1 as int) == btrim(s@.subrange(lo as int, hi as int)),
{
    let ghost t = s@.subrange(lo as int, hi as int);
    let mut a = lo;
    while a < hi && is_ascii_ws_exec(s[a])
        invariant
            lo <= a <= hi <= s@.len(),
            forall|j: int| lo <= j < a ==> is_ascii_ws(s@[j]),
        decreases hi - a,
    {
        a += 1;
    }
    proof {
        assert forall|j: int| 0 <= j < a - lo implies is_ascii_ws(t[j]) by {
            assert(t[j] == s@[lo + j]);
        }
        if a < hi {
            assert(t[a - lo] == s@[a as int]);
        }
        lemma_blead(t, a - lo);
    }
    let mut b = hi;
    while b > a && is_ascii_ws_exec(s[b - 1])
        invariant
            lo <= a <= b <= hi <= s@.len(),
            forall|j: int| b <= j < hi ==> is_ascii_ws(s@[j]),
        decreases b,
    {
        b -= 1;
    }
    proof {
        let u = t.skip(a - lo);
        assert(u == s@.subrange(a as int, hi as int));
        assert forall|j: int| u.len() - (hi - b) <= j < u.len() implies is_ascii_ws(u[j]) by {
            assert(u[j] == s@[a + j]);
        }
        if hi - b < u.len() {
            assert(u[u.len() - (hi - b) - 1] == s@[b - 1]);
        }
        lemma_btrail(u, hi - b);
        assert(u.take(u.len() - (hi - b)) == s@.subrange(a as int, b as int));
    }
    (a, b)
}

fn is_ascii_ws_exec(b: u8) -> (r: bool)
    ensures
        r == is_ascii_ws(b),
{
    b == 0x20 || b == 0x09 || b == 0x0a || b == 0x0c || b == 0x0d
}

// ------------------------------------------------------------ service units

pub open spec fn is_alpha(b: u8) -> bool {
    (0x41 <= b && b <= 0x5a) || (0x61 <= b && b <= 0x7a)
}

pub open spec fn is_key_byte(b: u8) -> bool {
    is_alpha(b) || (0x30 <= b && b <= 0x39) || b == 0x5f || b == 0x2d
}

/// End of the run of key bytes starting at `i`.
pub open spec fn key_end(s: Seq<u8>, i: int) -> int
    decreases s.len() - i,
{
    if i < 0 || i >= s.len() || !is_key_byte(s[i]) {
        if i < 0 {
            0
        } else if i > s.len() {
            s.len() as int
        } else {
            i
        }
    } else {
        key_end(s, i + 1)
    }
}

/// End of the run of spaces and tabs starting at `i`.
pub open spec fn blank_end(s: Seq<u8>, i: int) -> int
    decreases s.len() - i,
{
    if i < 0 || i >= s.len() || !(s[i] == 0x20 || s[i] == 0x09) {
        if i < 0 {
            0
        } else if i > s.len() {
            s.len() as int
        } else {
            i
        }
    } else {
        blank_end(s, i + 1)
    }
}

/// `key = value` or `key: value` with a bare alphanumeric key (no dots):
/// excludes sysctl lines, prose and `key value` configs.
pub open spec fn is_directive(line: Seq<u8>) -> bool {
    &&& line.len() > 0
    &&& is_alpha(line[0])
    &&& blank_end(line, key_end(line, 0)) < line.len()
    &&& (line[blank_end(line, key_end(line, 0))] == 0x3d || line[blank_end(
        line,
        key_end(line, 0),
    )] == 0x3a)
}

/// Whether `s[lo..hi]` is a directive line.
fn is_directive_exec(s: &[u8], lo: usize, hi: usize) -> (r: bool)
    requires
        lo <= hi <= s@.len(),
    ensures
        r == is_directive(s@.subrange(lo as int, hi as int)),
{
    let ghost t = s@.subrange(lo as int, hi as int);
    if lo >= hi {
        return false;
    }
    let c0 = s[lo];
    if !((0x41 <= c0 && c0 <= 0x5a) || (0x61 <= c0 && c0 <= 0x7a)) {
        assert(t[0] == c0);
        return false;
    }
    let mut i = lo;
    while i < hi && is_key_byte_exec(s[i])
        invariant
            lo <= i <= hi <= s@.len(),
            t == s@.subrange(lo as int, hi as int),
            key_end(t, 0) == key_end(t, i - lo),
        decreases hi - i,
    {
        assert(t[i - lo] == s@[i as int]);
        i += 1;
    }
    proof {
        if i < hi {
            assert(t[i - lo] == s@[i as int]);
        }
    }
    assert(key_end(t, i - lo) == i - lo);
    let mut j = i;
    while j < hi && (s[j] == 0x20 || s[j] == 0x09)
        invariant
            lo <= i <= j <= hi <= s@.len(),
            t == s@.subrange(lo as int, hi as int),
            blank_end(t, i - lo) == blank_end(t, j - lo),
        decreases hi - j,
    {
        assert(t[j - lo] == s@[j as int]);
        j += 1;
    }
    proof {
        if j < hi {
            assert(t[j - lo] == s@[j as int]);
        }
    }
    assert(blank_end(t, i - lo) == j - lo);
    j < hi && (s[j] == 0x3d || s[j] == 0x3a)
}

fn is_key_byte_exec(c: u8) -> (r: bool)
    ensures
        r == is_key_byte(c),
{
    (0x41 <= c && c <= 0x5a) || (0x61 <= c && c <= 0x7a) || (0x30 <= c && c <= 0x39) || c == 0x5f
        || c == 0x2d
}

pub open spec fn is_skipped_line(t: Seq<u8>) -> bool {
    t.len() == 0 || t[0] == 0x23 || t[0] == 0x3b
}

/// Scan of trimmed lines from `i` with `d` directive and `o` other lines
/// among the `cnt` meaningful lines seen so far.
pub open spec fn unit_scan(ls: Seq<Seq<u8>>, i: int, first: bool, d: int, o: int, cnt: int) -> bool
    decreases ls.len() - i,
{
    if i < 0 || i >= ls.len() {
        d >= 2 && d >= o
    } else if is_skipped_line(btrim(ls[i])) {
        unit_scan(ls, i + 1, first, d, o, cnt)
    } else if first && btrim(ls[i])[0] == 0x5b {
        true
    } else {
        let d2 = if is_directive(btrim(ls[i])) {
            d + 1
        } else {
            d
        };
        let o2 = if is_directive(btrim(ls[i])) {
            o
        } else {
            o + 1
        };
        if cnt + 1 >= 16 {
            d2 >= 2 && d2 >= o2
        } else {
            unit_scan(ls, i + 1, false, d2, o2, cnt + 1)
        }
    }
}

/// Unit text: its first meaningful line (not blank, not a `#` or `;`
/// comment) is a `[section]` header, or among its first 16 meaningful lines
/// at least two are directives and no more are anything else.
pub open spec fn is_unit_text(head: Seq<u8>) -> bool {
    unit_scan(blines(head), 0, true, 0, 0, 0)
}

/// Whether the head of a file reads as unit text.
pub fn is_unit_text_exec(head: &[u8]) -> (r: bool)
    ensures
        r == is_unit_text(head@),
{
    let n = head.len();
    let mut start: usize = 0;
    let mut first = true;
    let mut d: usize = 0;
    let mut o: usize = 0;
    let mut cnt: usize = 0;
    assert(head@.skip(0) == head@);
    loop
        invariant
            n == head@.len(),
            start <= n,
            cnt < 16,
            d + o == cnt,
            is_unit_text(head@) == unit_scan(
                blines(head@.skip(start as int)),
                0,
                first,
                d as int,
                o as int,
                cnt as int,
            ),
        decreases n - start,
    {
        let ghost t = head@.skip(start as int);
        let mut j = start;
        while j < n && head[j] != 0x0a
            invariant
                start <= j <= n == head@.len(),
                forall|k: int| start <= k < j ==> head@[k] != 0x0a,
            decreases n - j,
        {
            j += 1;
        }
        proof {
            assert forall|k: int| 0 <= k < j - start implies t[k] != 0x0a by {
                assert(t[k] == head@[start + k]);
            }
            if j < n {
                assert(t[j - start] == head@[j as int]);
            }
            lemma_bfirst(t, 0x0a, j - start);
            assert(t.take(j - start) == head@.subrange(start as int, j as int));
            if j < n {
                assert(t.skip(j - start + 1) == head@.skip(j + 1));
            }
        }
        let ghost ls = blines(t);
        assert(ls[0] == head@.subrange(start as int, j as int));
        let (a, b) = btrim_bounds(head, start, j);
        let ghost line = btrim(ls[0]);
        assert(line == head@.subrange(a as int, b as int));
        let ghost rest: Seq<Seq<u8>> = if j < n {
            blines(head@.skip(j + 1))
        } else {
            Seq::empty()
        };
        proof {
            if j < n {
                assert(ls == seq![ls[0]] + rest);
            } else {
                assert(ls == seq![ls[0]]);
            }
            assert(ls.len() == rest.len() + 1);
            assert forall|k: int| 0 <= k < rest.len() implies ls[k + 1] == rest[k] by {}
            lemma_unit_scan_shift(ls, rest, first, d as int, o as int, cnt as int);
        }
        if a < b {
            assert(line[0] == head@[a as int]);
        }
        let skipped = a >= b || head[a] == 0x23 || head[a] == 0x3b;
        if skipped {
            assert(unit_scan(ls, 0, first, d as int, o as int, cnt as int) == unit_scan(
                ls,
                1,
                first,
                d as int,
                o as int,
                cnt as int,
            ));
            assert(unit_scan(ls, 1, first, d as int, o as int, cnt as int) == unit_scan(
                rest,
                0,
                first,
                d as int,
                o as int,
                cnt as int,
            ));
            if j >= n {
                assert(rest.len() == 0);
                return d >= 2 && d >= o;
            }
            start = j + 1;
            continue;
        }
        assert(line[0] == head@[a as int]);
        if first && head[a] == 0x5b {
            return true;
        }
        let dir = is_directive_exec(head, a, b);
        let ghost d2: int = if dir { d + 1 } else { d as int };
        let ghost o2: int = if dir { o as int } else { o + 1 };
        assert(unit_scan(ls, 0, first, d as int, o as int, cnt as int) == (if cnt + 1 >= 16 {
            d2 >= 2 && d2 >= o2
        } else {
            unit_scan(ls, 1, false, d2, o2, cnt + 1)
        }));
        assert(unit_scan(ls, 1, false, d2, o2, cnt + 1) == unit_scan(
            rest,
            0,
            false,
            d2,
            o2,
            cnt + 1,
        ));
        if dir {
            d += 1;
        } else {
            o += 1;
        }
        cnt += 1;
        if cnt >= 16 {
            return d >= 2 && d >= o;
        }
        first = false;
        if j >= n {
            return d >= 2 && d >= o;
        }
        start = j + 1;
    }
}

/// Unfolds one step of `unit_scan` over a list whose tail is `rest`.
proof fn lemma_unit_scan_shift(
    ls: Seq<Seq<u8>>,
    rest: Seq<Seq<u8>>,
    first: bool,
    d: int,
    o: int,
    cnt: int,
)
    requires
        ls.len() == rest.len() + 1,
        forall|k: int| 0 <= k < rest.len() ==> ls[k + 1] == rest[k],
    ensures
        forall|f: bool, d2: int, o2: int, c2: int|
            #![trigger unit_scan(ls, 1, f, d2, o2, c2)]
            unit_scan(ls, 1, f, d2, o2, c2) == unit_scan(rest, 0, f, d2, o2, c2),
{
    assert forall|f: bool, d2: int, o2: int, c2: int|
        #![trigger unit_scan(ls, 1, f, d2, o2, c2)]
        unit_scan(ls, 1, f, d2, o2, c2) == unit_scan(rest, 0, f, d2, o2, c2) by {
        lemma_unit_scan_offset(ls, rest, 0, f, d2, o2, c2);
    }
}

proof fn lemma_unit_scan_offset(
    ls: Seq<Seq<u8>>,
    rest: Seq<Seq<u8>>,
    i: int,
    f: bool,
    d: int,
    o: int,
    c: int,
)
    requires
        ls.len() == rest.len() + 1,
        forall|k: int| 0 <= k < rest.len() ==> ls[k + 1] == rest[k],
        0 <= i <= rest.len(),
    ensures
        unit_scan(ls, i + 1, f, d, o, c) == unit_scan(rest, i, f, d, o, c),
    decreases rest.len() - i,
{
    if i < rest.len() {
        assert(ls[i + 1] == rest[i]);
        let t = btrim(rest[i]);
        let d2 = if is_directive(t) {
            d + 1
        } else {
            d
        };
        let o2 = if is_directive(t) {
            o
        } else {
            o + 1
        };
        lemma_unit_scan_offset(ls, rest, i + 1, f, d, o, c);
        lemma_unit_scan_offset(ls, rest, i + 1, false, d2, o2, c + 1);
    }
}

// ------------------------------------------------------------ kinds

/// What a file's metadata says of it as a service.
#[derive(Clone, Copy, Debug, PartialEq, Eq, Structural)]
pub enum FileKind {
    /// Not a regular file, or missing: not a service.
    NotService,
    /// An executable regular file: a script.
    Script,
    /// A regular, non-executable file: its head decides.
    ReadHead,
}

pub open spec fn file_kind(meta: Option<Meta>) -> FileKind {
    match meta {
        Some(m) => if !m.is_file {
            FileKind::NotService
        } else if m.mode & 0o111 != 0 {
            FileKind::Script
        } else {
            FileKind::ReadHead
        },
        None => FileKind::NotService,
    }
}

pub fn file_kind_exec(meta: Option<Meta>) -> (k: FileKind)
    ensures
        k == file_kind(meta),
{
    match meta {
        Some(m) => if !m.is_file {
            FileKind::NotService
        } else if m.mode & 0o111 != 0 {
            FileKind::Script
        } else {
            FileKind::ReadHead
        },
        None => FileKind::NotService,
    }
}

/// The kind of a service file: its extension, or `default`.
pub open spec fn kind_or(path: Seq<char>, default: Seq<char>) -> Seq<char> {
    match extension(path) {
        Some(e) => e,
        None => default,
    }
}

/// A service's name: the directory name for a supervised one, else the
/// file stem.
pub open spec fn service_name(path: Seq<char>, supervised: bool) -> Seq<char> {
    if supervised {
        last_seg(path)
    } else {
        file_stem(path)
    }
}

/// A supervised service at `e` (a directory with a run file).
pub fn supervised(e: &Entry) -> (s: Service)
    ensures
        s.path@ == e.path@,
        s.kind@ == "supervised"@,
        s.name@ == service_name(e.path@, true),
{
    let p = chars_of(e.path.as_str());
    let name = last_seg_exec(p.as_slice());
    Service {
        path: e.path.clone(),
        kind: string_of(chars_of("supervised").as_slice()),
        name: string_of(name.as_slice()),
    }
}

/// A script or unit service at `e`; `default` is the kind when the file
/// has no extension.
pub fn file_service(e: &Entry, default: &str) -> (s: Service)
    ensures
        s.path@ == e.path@,
        s.kind@ == kind_or(e.path@, default@),
        s.name@ == service_name(e.path@, false),
{
    let p = chars_of(e.path.as_str());
    let kind = match extension_exec(p.as_slice()) {
        Some(x) => x,
        None => chars_of(default),
    };
    let name = file_stem_exec(p.as_slice());
    Service {
        path: e.path.clone(),
        kind: string_of(kind.as_slice()),
        name: string_of(name.as_slice()),
    }
}

// ------------------------------------------------------------ judging

/// Bytes read to judge unit text.
pub const UNIT_HEAD: usize = 1024;

/// Where the judging of a service candidate stands.
#[derive(Clone, Copy, Debug)]
pub enum KindStep {
    /// Nothing asked yet: a directory is asked for its run file, a file for
    /// its metadata.
    Start,
    /// The file is a regular, non-executable file: its head decides.
    Head(Meta),
}

/// A service kind, as the file system shows it.
#[derive(Clone, Copy, Debug, PartialEq, Eq, Structural)]
pub enum SvcKind {
    Supervised,
    Script,
    Unit,
}

/// What a reply says of a service candidate.
#[derive(Clone, Copy, Debug)]
pub enum KindOutcome {
    Found(Option<SvcKind>),
    NeedHead(Meta),
}

/// The raw path of a directory's run file.
pub open spec fn run_path(raw: Seq<u8>) -> Seq<u8> {
    raw + seq![0x2fu8, 0x72u8, 0x75u8, 0x6eu8]
}

/// The request that judges a service candidate.
pub open spec fn kind_request(e: Entry, step: KindStep) -> Request<Seq<u8>> {
    match step {
        KindStep::Start => if e.is_dir {
            Request::IsFile(run_path(e.raw@))
        } else {
            Request::Stat(e.raw@)
        },
        KindStep::Head(_) => Request::Head(e.raw@, UNIT_HEAD),
    }
}

/// What a reply says of a service candidate.
pub open spec fn kind_outcome(e: Entry, step: KindStep, r: Reply) -> KindOutcome {
    match step {
        KindStep::Start => if e.is_dir {
            KindOutcome::Found(
                if reply_flag(r) {
                    Some(SvcKind::Supervised)
                } else {
                    None
                },
            )
        } else {
            match file_kind(reply_meta(r)) {
                FileKind::NotService => KindOutcome::Found(None),
                FileKind::Script => KindOutcome::Found(Some(SvcKind::Script)),
                FileKind::ReadHead => KindOutcome::NeedHead(reply_meta(r)->0),
            }
        },
        KindStep::Head(_) => KindOutcome::Found(
            if is_unit_text(reply_head(r)) {
                Some(SvcKind::Unit)
            } else {
                None
            },
        ),
    }
}

/// A head is only read from a file whose metadata showed a regular,
/// non-executable file: fifos, sockets and devices are never opened.
pub open spec fn step_ok(e: Entry, step: KindStep) -> bool {
    match step {
        KindStep::Start => true,
        KindStep::Head(m) => !e.is_dir && m.is_file && m.mode & 0o111 == 0,
    }
}

pub fn run_path_exec(raw: &Vec<u8>) -> (r: Vec<u8>)
    ensures
        r@ == run_path(raw@),
{
    let mut r = crate::bytes::slice_bytes(raw.as_slice(), 0, raw.len());
    r.push(0x2f);
    r.push(0x72);
    r.push(0x75);
    r.push(0x6e);
    assert(r@ =~= run_path(raw@));
    r
}

pub fn raw_copy(raw: &Vec<u8>) -> (r: Vec<u8>)
    ensures
        r@ == raw@,
{
    crate::bytes::slice_bytes(raw.as_slice(), 0, raw.len())
}

pub fn kind_request_exec(e: &Entry, step: KindStep) -> (r: Request<Vec<u8>>)
    ensures
        crate::fsio::request_view(r) == kind_request(*e, step),
{
    match step {
        KindStep::Start => if e.is_dir {
            Request::IsFile(run_path_exec(&e.raw))
        } else {
            Request::Stat(raw_copy(&e.raw))
        },
        KindStep::Head(_) => Request::Head(raw_copy(&e.raw), UNIT_HEAD),
    }
}

/// The outcome of the service judgement that a reply completes.
pub fn kind_outcome_exec(e: &Entry, step: KindStep, reply: Reply) -> (o: KindOutcome)
    ensures
        o == kind_outcome(*e, step, reply),
{
    match step {
        KindStep::Start => if e.is_dir {
            KindOutcome::Found(
                if reply.into_flag() {
                    Some(SvcKind::Supervised)
                } else {
                    None
                },
            )
        } else {
            let m = reply.into_meta();
            match file_kind_exec(m) {
                FileKind::NotService => KindOutcome::Found(None),
                FileKind::Script => KindOutcome::Found(Some(SvcKind::Script)),
                FileKind::ReadHead => KindOutcome::NeedHead(m.unwrap()),
            }
        },
        KindStep::Head(_) => {
            let head = reply.into_head();
            KindOutcome::Found(
                if is_unit_text_exec(head.as_slice()) {
                    Some(SvcKind::Unit)
                } else {
                    None
                },
            )
        },
    }
}

/// `s` is the service record of the entry at `path`, judged a service of
/// kind `k`: a supervised service is named after its directory; a script or
/// a unit after its file stem, with its extension (or the default) as its
/// kind.
pub open spec fn service_of(s: Service, path: Seq<char>, k: SvcKind) -> bool {
    &&& s.path@ == path
    &&& match k {
        SvcKind::Supervised => s.kind@ == "supervised"@ && s.name@ == service_name(path, true),
        SvcKind::Script => s.kind@ == kind_or(path, "initscript"@) && s.name@ == service_name(path, false),
        SvcKind::Unit => s.kind@ == kind_or(path, "unit"@) && s.name@ == service_name(path, false),
    }
}

/// The service at `e`, as the judgement of the file system found it.
pub fn detect(e: &Entry, kind: Option<SvcKind>) -> (s: Option<Service>)
    ensures
        s is Some <==> kind is Some,
        s matches Some(v) ==> service_ok(v) && service_of(v, e.path@, kind->0),
{
    match kind {
        Some(SvcKind::Supervised) => Some(supervised(e)),
        Some(SvcKind::Script) => Some(file_service(e, "initscript")),
        Some(SvcKind::Unit) => Some(file_service(e, "unit")),
        None => None,
    }
}

} // verus!
