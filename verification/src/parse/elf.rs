//! ELF reading, little/big endian and 32/64 bit, None on malformed input.
//! The reader asks for byte ranges of the file and decides from what comes
//! back; it never reads more than a header, the program headers, the
//! interpreter, the dynamic section and 256-byte string-table windows.

use crate::bytes::{cstr, cstr_exec, lemma_word_bound, read_word, word};
use crate::content::{lossy, utf8_lossy};
use crate::profile::{Bin, Lib};
use vstd::prelude::*;

verus! {

pub const PT_LOAD: u32 = 1;

pub const PT_DYNAMIC: u32 = 2;

pub const PT_INTERP: u32 = 3;

pub const DT_NULL: u64 = 0;

pub const DT_NEEDED: u64 = 1;

pub const DT_STRTAB: u64 = 5;

pub const DT_SONAME: u64 = 14;

/// Largest range read in one request.
pub const MAX_READ: usize = 0x10_0000;

/// Longest interpreter path read.
pub const MAX_INTERP: u64 = 4096;

/// Size of a string-table window.
pub const STR_WINDOW: usize = 256;

/// The fields of the ELF file header that locate the program headers.
#[derive(Clone, Copy, Debug, PartialEq, Eq, Structural)]
pub struct Header {
    /// 1 for 32-bit, 2 for 64-bit.
    pub class: u8,
    /// 1 for little-endian, 2 for big-endian.
    pub data: u8,
    pub phoff: u64,
    pub phentsize: usize,
    pub phnum: usize,
}

/// The fields of a program header that the scanner uses.
#[derive(Clone, Copy, Debug, PartialEq, Eq, Structural)]
pub struct Phdr {
    pub kind: u32,
    pub offset: u64,
    pub vaddr: u64,
    pub filesz: u64,
}

/// The tags of a dynamic section that the scanner uses.
#[derive(Clone, Debug, PartialEq, Eq)]
pub struct DynTags {
    pub strtab: Option<u64>,
    pub soname: Option<u64>,
    pub needed: Vec<u64>,
}

pub struct DynTagsView {
    pub strtab: Option<u64>,
    pub soname: Option<u64>,
    pub needed: Seq<u64>,
}

/// The 64-byte file header: magic, class and byte order in range, at
/// least one and at most 4096 program headers, each large enough.
pub open spec fn header_of(h: Seq<u8>) -> Option<Header> {
    if h.len() != 64 || h[0] != 0x7f || h[1] != 0x45 || h[2] != 0x4c || h[3] != 0x46 {
        None
    } else if (h[4] != 1 && h[4] != 2) || (h[5] != 1 && h[5] != 2) {
        None
    } else {
        let class = h[4];
        let data = h[5];
        let phoff = if class == 1 {
            word(h.subrange(28, 32), data)
        } else {
            word(h.subrange(32, 40), data)
        };
        let phentsize = if class == 1 {
            word(h.subrange(42, 44), data)
        } else {
            word(h.subrange(54, 56), data)
        };
        let phnum = if class == 1 {
            word(h.subrange(44, 46), data)
        } else {
            word(h.subrange(56, 58), data)
        };
        let min: nat = if class == 1 {
            32
        } else {
            56
        };
        if phentsize < min || phnum == 0 || phnum > 4096 {
            None
        } else {
            Some(
                Header {
                    class,
                    data,
                    phoff: phoff as u64,
                    phentsize: phentsize as usize,
                    phnum: phnum as usize,
                },
            )
        }
    }
}

/// A program header entry; None when the bytes are too few to hold it.
pub open spec fn phdr_of(b: Seq<u8>, class: u8, data: u8) -> Option<Phdr> {
    if class == 1 {
        if b.len() < 20 {
            None
        } else {
            Some(
                Phdr {
                    kind: word(b.subrange(0, 4), data) as u32,
                    offset: word(b.subrange(4, 8), data) as u64,
                    vaddr: word(b.subrange(8, 12), data) as u64,
                    filesz: word(b.subrange(16, 20), data) as u64,
                },
            )
        }
    } else {
        if b.len() < 40 {
            None
        } else {
            Some(
                Phdr {
                    kind: word(b.subrange(0, 4), data) as u32,
                    offset: word(b.subrange(8, 16), data) as u64,
                    vaddr: word(b.subrange(16, 24), data) as u64,
                    filesz: word(b.subrange(32, 40), data) as u64,
                },
            )
        }
    }
}

/// File offset of program header `i`, when it does not overflow.
pub open spec fn phdr_offset(h: Header, i: int) -> Option<u64> {
    if h.phoff + i * h.phentsize <= u64::MAX {
        Some((h.phoff + i * h.phentsize) as u64)
    } else {
        None
    }
}

/// Index of the first program header of a kind, or `ph.len()`.
pub open spec fn first_of_kind(ph: Seq<Phdr>, kind: u32) -> int
    decreases ph.len(),
{
    if ph.len() == 0 || ph[0].kind == kind {
        0
    } else {
        1 + first_of_kind(ph.drop_first(), kind)
    }
}

/// The range of the interpreter path: the first PT_INTERP segment, at most
/// 4096 bytes; None when there is none or it is empty.
pub open spec fn interp_range(ph: Seq<Phdr>) -> Option<(u64, usize)> {
    let i = first_of_kind(ph, PT_INTERP);
    if i >= ph.len() {
        None
    } else {
        let len = if ph[i].filesz < MAX_INTERP {
            ph[i].filesz
        } else {
            MAX_INTERP
        };
        if len == 0 {
            None
        } else {
            Some((ph[i].offset, len as usize))
        }
    }
}

/// The range of the dynamic section: the first PT_DYNAMIC segment, when it
/// is neither empty nor larger than `MAX_READ`.
pub open spec fn dyn_range(ph: Seq<Phdr>) -> Option<(u64, usize)> {
    let i = first_of_kind(ph, PT_DYNAMIC);
    if i >= ph.len() || ph[i].filesz == 0 || ph[i].filesz > MAX_READ {
        None
    } else {
        Some((ph[i].offset, ph[i].filesz as usize))
    }
}

/// Whether any program header is PT_DYNAMIC.
pub open spec fn has_dynamic(ph: Seq<Phdr>) -> bool {
    exists|i: int| 0 <= i < ph.len() && ph[i].kind == PT_DYNAMIC
}

/// One dynamic entry at byte `i`: (tag, value).
pub open spec fn dyn_entry(raw: Seq<u8>, i: int, class: u8, data: u8) -> (nat, nat) {
    if class == 1 {
        (word(raw.subrange(i, i + 4), data), word(raw.subrange(i + 4, i + 8), data))
    } else {
        (word(raw.subrange(i, i + 8), data), word(raw.subrange(i + 8, i + 16), data))
    }
}

pub open spec fn entry_size(class: u8) -> int {
    if class == 1 {
        8
    } else {
        16
    }
}

/// Scan of the dynamic entries from byte `i` to the first DT_NULL or the
/// last whole entry: the last DT_STRTAB, the last DT_SONAME and every
/// DT_NEEDED in order.
pub open spec fn dyn_scan(
    raw: Seq<u8>,
    class: u8,
    data: u8,
    i: int,
    acc: (Option<u64>, Option<u64>, Seq<u64>),
) -> (Option<u64>, Option<u64>, Seq<u64>)
    decreases raw.len() - i,
{
    if i < 0 || i + entry_size(class) > raw.len() {
        acc
    } else {
        let (tag, val) = dyn_entry(raw, i, class, data);
        if tag == DT_NULL {
            acc
        } else {
            let next = if tag == DT_STRTAB {
                (Some(val as u64), acc.1, acc.2)
            } else if tag == DT_SONAME {
                (acc.0, Some(val as u64), acc.2)
            } else if tag == DT_NEEDED {
                (acc.0, acc.1, acc.2.push(val as u64))
            } else {
                acc
            };
            dyn_scan(raw, class, data, i + entry_size(class), next)
        }
    }
}

/// The file offset of a virtual address, from the first PT_LOAD segment
/// (from index `j`) whose start is at or below it: inside that segment it
/// maps, past it the search goes on; an overflowing segment end or offset
/// stops the search with None.
pub open spec fn v2f(ph: Seq<Phdr>, vaddr: u64, j: int) -> Option<u64>
    decreases ph.len() - j,
{
    if j < 0 || j >= ph.len() {
        None
    } else if ph[j].kind == PT_LOAD && vaddr >= ph[j].vaddr {
        if ph[j].vaddr + ph[j].filesz > u64::MAX {
            None
        } else if vaddr < ph[j].vaddr + ph[j].filesz {
            if ph[j].offset + (vaddr - ph[j].vaddr) > u64::MAX {
                None
            } else {
                Some((ph[j].offset + (vaddr - ph[j].vaddr)) as u64)
            }
        } else {
            v2f(ph, vaddr, j + 1)
        }
    } else {
        v2f(ph, vaddr, j + 1)
    }
}

/// A read came back with bytes.
pub open spec fn got(reply: Option<Seq<u8>>) -> Option<Seq<u8>> {
    match reply {
        Some(b) => if b.len() > 0 {
            Some(b)
        } else {
            None
        },
        None => None,
    }
}

/// The string a NUL-terminated read gives.
pub open spec fn cstr_text(b: Seq<u8>) -> Seq<char> {
    utf8_lossy(cstr(b))
}

// ------------------------------------------------------------ exec parts

pub fn parse_header(h: &[u8]) -> (r: Option<Header>)
    ensures
        r == header_of(h@),
        r matches Some(hd) ==> 32 <= hd.phentsize < 0x10000 && 1 <= hd.phnum <= 4096,
{
    if h.len() != 64 || h[0] != 0x7f || h[1] != 0x45 || h[2] != 0x4c || h[3] != 0x46 {
        return None;
    }
    let class = h[4];
    let data = h[5];
    if (class != 1 && class != 2) || (data != 1 && data != 2) {
        return None;
    }
    let (phoff, phentsize, phnum) = if class == 1 {
        (read_word(h, 28, 4, data), read_word(h, 42, 2, data), read_word(h, 44, 2, data))
    } else {
        (read_word(h, 32, 8, data), read_word(h, 54, 2, data), read_word(h, 56, 2, data))
    };
    let min: u64 = if class == 1 {
        32
    } else {
        56
    };
    if phentsize < min || phnum == 0 || phnum > 4096 {
        return None;
    }
    proof {
        lemma_word_bound(h@.subrange(42, 44), data);
        lemma_word_bound(h@.subrange(54, 56), data);
    }
    Some(
        Header {
            class,
            data,
            phoff,
            phentsize: phentsize as usize,
            phnum: phnum as usize,
        },
    )
}

pub fn parse_phdr(b: &[u8], class: u8, data: u8) -> (r: Option<Phdr>)
    ensures
        r == phdr_of(b@, class, data),
{
    proof {
        if b@.len() >= 4 {
            lemma_word_bound(b@.subrange(0, 4), data);
        }
        if b@.len() >= 20 {
            lemma_word_bound(b@.subrange(4, 8), data);
            lemma_word_bound(b@.subrange(8, 12), data);
            lemma_word_bound(b@.subrange(16, 20), data);
        }
    }
    if class == 1 {
        if b.len() < 20 {
            return None;
        }
        Some(
            Phdr {
                kind: read_word(b, 0, 4, data) as u32,
                offset: read_word(b, 4, 4, data),
                vaddr: read_word(b, 8, 4, data),
                filesz: read_word(b, 16, 4, data),
            },
        )
    } else {
        if b.len() < 40 {
            return None;
        }
        Some(
            Phdr {
                kind: read_word(b, 0, 4, data) as u32,
                offset: read_word(b, 8, 8, data),
                vaddr: read_word(b, 16, 8, data),
                filesz: read_word(b, 32, 8, data),
            },
        )
    }
}

pub fn phdr_offset_exec(h: Header, i: usize) -> (r: Option<u64>)
    requires
        i < h.phnum <= 4096,
        h.phentsize < 0x10000,
    ensures
        r == phdr_offset(h, i as int),
{
    assert(i * h.phentsize <= 4096 * 0x10000) by (nonlinear_arith)
        requires
            i < 4096,
            h.phentsize < 0x10000,
    ;
    let step = (i * h.phentsize) as u64;
    h.phoff.checked_add(step)
}

fn first_of_kind_exec(ph: &Vec<Phdr>, kind: u32) -> (r: usize)
    ensures
        r as int == first_of_kind(ph@, kind),
        r <= ph@.len(),
{
    let mut i: usize = 0;
    assert(ph@.skip(0) == ph@);
    while i < ph.len()
        invariant
            i <= ph@.len(),
            first_of_kind(ph@, kind) == i + first_of_kind(ph@.skip(i as int), kind),
        decreases ph@.len() - i,
    {
        if ph[i].kind == kind {
            return i;
        }
        assert(ph@.skip(i as int).drop_first() == ph@.skip(i + 1));
        i += 1;
    }
    i
}

pub fn interp_range_exec(ph: &Vec<Phdr>) -> (r: Option<(u64, usize)>)
    ensures
        r == interp_range(ph@),
{
    let i = first_of_kind_exec(ph, PT_INTERP);
    if i >= ph.len() {
        return None;
    }
    let fs = ph[i].filesz;
    let len = if fs < MAX_INTERP {
        fs
    } else {
        MAX_INTERP
    };
    if len == 0 {
        None
    } else {
        Some((ph[i].offset, len as usize))
    }
}

pub fn dyn_range_exec(ph: &Vec<Phdr>) -> (r: Option<(u64, usize)>)
    ensures
        r == dyn_range(ph@),
{
    let i = first_of_kind_exec(ph, PT_DYNAMIC);
    if i >= ph.len() {
        return None;
    }
    let fs = ph[i].filesz;
    if fs == 0 || fs > MAX_READ as u64 {
        None
    } else {
        Some((ph[i].offset, fs as usize))
    }
}

pub fn has_dynamic_exec(ph: &Vec<Phdr>) -> (r: bool)
    ensures
        r == has_dynamic(ph@),
{
    let i = first_of_kind_exec(ph, PT_DYNAMIC);
    proof {
        lemma_first_of_kind(ph@, PT_DYNAMIC);
    }
    i < ph.len()
}

proof fn lemma_first_of_kind(ph: Seq<Phdr>, kind: u32)
    ensures
        0 <= first_of_kind(ph, kind) <= ph.len(),
        first_of_kind(ph, kind) < ph.len() ==> ph[first_of_kind(ph, kind)].kind == kind,
        forall|j: int| 0 <= j < first_of_kind(ph, kind) ==> ph[j].kind != kind,
    decreases ph.len(),
{
    if ph.len() > 0 && ph[0].kind != kind {
        lemma_first_of_kind(ph.drop_first(), kind);
        assert forall|j: int| 0 <= j < first_of_kind(ph, kind) implies ph[j].kind != kind by {
            if j > 0 {
                assert(ph[j] == ph.drop_first()[j - 1]);
            }
        }
    }
}

pub open spec fn tags_view(t: DynTags) -> (Option<u64>, Option<u64>, Seq<u64>) {
    (t.strtab, t.soname, t.needed@)
}

/// Scans a dynamic section.
pub fn scan_dyn(raw: &[u8], class: u8, data: u8) -> (r: DynTags)
    ensures
        tags_view(r) == dyn_scan(raw@, class, data, 0, (None, None, Seq::empty())),
{
    let n = raw.len();
    let es: usize = if class == 1 {
        8
    } else {
        16
    };
    let mut t = DynTags { strtab: None, soname: None, needed: Vec::new() };
    let mut i: usize = 0;
    while i <= n && es <= n - i
        invariant
            n == raw@.len(),
            es as int == entry_size(class),
            i <= n,
            dyn_scan(raw@, class, data, 0, (None, None, Seq::empty())) == dyn_scan(
                raw@,
                class,
                data,
                i as int,
                tags_view(t),
            ),
        decreases n - i,
    {
        let (tag, val) = if class == 1 {
            (read_word(raw, i, 4, data), read_word(raw, i + 4, 4, data))
        } else {
            (read_word(raw, i, 8, data), read_word(raw, i + 8, 8, data))
        };
        if tag == DT_NULL {
            return t;
        }
        if tag == DT_STRTAB {
            t.strtab = Some(val);
        } else if tag == DT_SONAME {
            t.soname = Some(val);
        } else if tag == DT_NEEDED {
            t.needed.push(val);
        }
        i += es;
    }
    t
}

pub fn v2f_exec(ph: &Vec<Phdr>, vaddr: u64) -> (r: Option<u64>)
    ensures
        r == v2f(ph@, vaddr, 0),
{
    let mut j: usize = 0;
    while j < ph.len()
        invariant
            j <= ph@.len(),
            v2f(ph@, vaddr, 0) == v2f(ph@, vaddr, j as int),
        decreases ph@.len() - j,
    {
        let p = ph[j];
        if p.kind == PT_LOAD && vaddr >= p.vaddr {
            let end = match p.vaddr.checked_add(p.filesz) {
                Some(e) => e,
                None => return None,
            };
            if vaddr < end {
                return p.offset.checked_add(vaddr - p.vaddr);
            }
        }
        j += 1;
    }
    None
}

/// The bytes of a reply, when it holds any.
pub fn got_exec(reply: Option<Vec<u8>>) -> (r: Option<Vec<u8>>)
    ensures
        opt_bytes(r) == got(opt_bytes(reply)),
        r matches Some(b) ==> b@.len() > 0,
{
    match reply {
        Some(b) => if b.len() > 0 {
            Some(b)
        } else {
            None
        },
        None => None,
    }
}

pub open spec fn opt_bytes(o: Option<Vec<u8>>) -> Option<Seq<u8>> {
    match o {
        Some(b) => Some(b@),
        None => None,
    }
}

/// The text of a NUL-terminated string.
pub fn cstr_string(b: &[u8]) -> (s: String)
    ensures
        s@ == cstr_text(b@),
{
    let c = cstr_exec(b);
    lossy(c.as_slice())
}

// ------------------------------------------------------------ the reader

/// What the reader reads an ELF file for.
#[derive(Clone, Copy, Debug, PartialEq, Eq, Structural)]
pub enum ElfMode {
    /// An executable: interpreter, dynamic flag and needed libraries.
    Bin,
    /// A shared library: soname and needed libraries.
    Lib,
}

/// Where the reader stands.
#[derive(Clone, Copy, Debug, PartialEq, Eq, Structural)]
pub enum Stage {
    Header,
    Phdr(usize),
    Interp,
    Dyn,
    Soname,
    Needed(usize),
    Done,
}

/// The reader `b` has gone on to the dynamic section when the program
/// headers show one, and has ended otherwise.
pub open spec fn at_dyn(b: ElfReader) -> bool {
    &&& b.want == dyn_range(b.phdrs@)
    &&& dyn_range(b.phdrs@) is Some ==> b.stage == Stage::Dyn
    &&& dyn_range(b.phdrs@) is None ==> b.stage == Stage::Done && !b.dyn_ok
}

/// The reader `b` stands at the first needed string from index `k` on whose
/// offset fits in 64 bits, or, when there is none, has ended with the
/// dynamic information complete.
pub open spec fn needed_from(b: ElfReader, k: int) -> bool {
    match b.stage {
        Stage::Needed(j) => k <= j && forall|m: int|
            k <= m < j ==> b.base + b.tags.needed@[m] > u64::MAX,
        Stage::Done => b.dyn_ok && forall|m: int|
            k <= m < b.tags.needed@.len() ==> b.base + b.tags.needed@[m] > u64::MAX,
        _ => false,
    }
}

/// Whether the reader, past the program headers, reads an interpreter: an
/// executable that is dynamically linked and names one.
pub open spec fn reads_interp(b: ElfReader) -> bool {
    b.mode == ElfMode::Bin && has_dynamic(b.phdrs@) && interp_range(b.phdrs@) is Some
}

/// What a read does to the reader `a`, as `b`: `reply` is what the read of
/// the range `a` asked for gave (None when it failed).
pub open spec fn fed(a: ElfReader, b: ElfReader, reply: Option<Seq<u8>>) -> bool {
    &&& b.wf()
    &&& b.mode == a.mode
    &&& a.stage == Stage::Done ==> b == a
    // the file header: 64 bytes, all there
    &&& a.stage == Stage::Header ==> {
        &&& b.header == header_reply(reply)
        &&& !b.elf
        &&& b.header is None ==> b.stage == Stage::Done
        &&& b.header is Some ==> b.stage == Stage::Phdr(0)
    }
    // a program header
    &&& a.stage matches Stage::Phdr(i) ==> {
        let h = a.header->0;
        let p = phdr_reply(reply, h);
        &&& b.header == a.header
        &&& p is None ==> b.stage == Stage::Done && !b.elf
        &&& p matches Some(q) ==> b.phdrs@ =~= a.phdrs@.push(q)
        &&& p is Some && i + 1 < h.phnum ==> {
            &&& !b.elf
            &&& phdr_offset(h, i + 1) is Some ==> b.stage == Stage::Phdr((i + 1) as usize)
            &&& phdr_offset(h, i + 1) is None ==> b.stage == Stage::Done
        }
        &&& p is Some && i + 1 == h.phnum ==> {
            &&& b.elf
            &&& b.dynamic == has_dynamic(b.phdrs@)
            &&& b.interp is None
            &&& reads_interp(b) ==> b.stage == Stage::Interp
            &&& !reads_interp(b) ==> at_dyn(b)
        }
    }
    // the interpreter
    &&& a.stage == Stage::Interp ==> {
        &&& b.elf
        &&& b.header == a.header
        &&& b.phdrs == a.phdrs
        &&& b.dynamic == a.dynamic
        &&& crate::profile::opt_view(b.interp) == str_reply(reply)
        &&& at_dyn(b)
    }
    // the dynamic section
    &&& a.stage == Stage::Dyn ==> {
        &&& b.elf
        &&& b.phdrs == a.phdrs
        &&& b.interp == a.interp
        &&& b.dynamic == a.dynamic
        &&& match got(reply) {
            Some(raw) => {
                let h = a.header->0;
                let t = dyn_scan(raw, h.class, h.data, 0, (None, None, Seq::empty()));
                &&& t.0 is None ==> b.stage == Stage::Done && !b.dyn_ok
                &&& t.0 matches Some(sv) ==> match v2f(b.phdrs@, sv, 0) {
                    Some(base) => b.tags_view() == t && b.base == base && b.soname is None
                        && b.needed@.len() == 0 && match t.1 {
                        Some(so) => if base + so <= u64::MAX {
                            b.stage == Stage::Soname && b.want == Some(((base + so) as u64, STR_WINDOW))
                        } else {
                            needed_from(b, 0)
                        },
                        None => needed_from(b, 0),
                    },
                    None => b.stage == Stage::Done && !b.dyn_ok,
                }
            },
            None => b.stage == Stage::Done && !b.dyn_ok,
        }
    }
    // the soname
    &&& a.stage == Stage::Soname ==> {
        &&& b.elf
        &&& b.phdrs == a.phdrs
        &&& b.interp == a.interp
        &&& b.dynamic == a.dynamic
        &&& b.tags == a.tags
        &&& b.base == a.base
        &&& crate::profile::opt_view(b.soname) == nonempty(str_reply(reply))
        &&& b.needed == a.needed
        &&& needed_from(b, 0)
    }
    // a needed library
    &&& a.stage matches Stage::Needed(k) ==> {
        &&& b.elf
        &&& b.phdrs == a.phdrs
        &&& b.interp == a.interp
        &&& b.dynamic == a.dynamic
        &&& b.tags == a.tags
        &&& b.base == a.base
        &&& b.soname == a.soname
        &&& match nonempty(str_reply(reply)) {
            Some(s) => b.needed@.len() == a.needed@.len() + 1 && b.needed@.last()@ == s
                && b.needed@.drop_last() =~= a.needed@,
            None => b.needed == a.needed,
        }
        &&& needed_from(b, k + 1)
    }
}

/// What a read of the range `want` gives from a file holding `f`: the
/// bytes from the offset on, as many as asked or fewer at the end of the
/// file, none past it.
pub open spec fn read_range(f: Seq<u8>, want: Option<(u64, usize)>) -> Option<Seq<u8>> {
    match want {
        Some((off, len)) => if off < f.len() {
            Some(
                f.subrange(
                    off as int,
                    if off + len < f.len() {
                        off + len
                    } else {
                        f.len() as int
                    },
                ),
            )
        } else {
            Some(Seq::empty())
        },
        None => None,
    }
}

/// A reading of the file `f`: each reader of `rs` is what `feed` makes of
/// the one before it with the bytes of `f` at the range that one asked for.
pub open spec fn reads(rs: Seq<ElfReader>, f: Seq<u8>) -> bool {
    forall|i: int| 0 <= i < rs.len() - 1 ==> #[trigger] fed(rs[i], rs[i + 1], read_range(f, rs[i].want))
}

/// The string of a string table at offset `off` of the file `f`, when it is
/// not empty.
pub open spec fn str_at(f: Seq<u8>, off: int) -> Option<Seq<char>> {
    nonempty(str_reply(read_range(f, Some((off as u64, STR_WINDOW)))))
}

/// The strings of the needed entries `offs`, from index `k` on, of a string
/// table at `base` in the file `f`: those whose offsets fit in 64 bits and
/// that are not empty, in order.
pub open spec fn needed_strings(f: Seq<u8>, base: u64, offs: Seq<u64>, k: int) -> Seq<Seq<char>>
    decreases offs.len() - k,
{
    if k < 0 || k >= offs.len() {
        Seq::empty()
    } else if base + offs[k] > u64::MAX {
        needed_strings(f, base, offs, k + 1)
    } else {
        match str_at(f, base + offs[k]) {
            Some(s) => seq![s] + needed_strings(f, base, offs, k + 1),
            None => needed_strings(f, base, offs, k + 1),
        }
    }
}

/// What the dynamic section of the file `f` holds, by the file header `h`
/// and the program headers `ph`: its soname and the strings of its needed
/// entries, as `needed_strings` takes them; None when the section cannot be
/// read, has no string table, or its string table lies in no loaded
/// segment.
pub open spec fn dyn_read(f: Seq<u8>, h: Header, ph: Seq<Phdr>) -> Option<(Option<Seq<char>>, Seq<Seq<char>>)> {
    match got(read_range(f, dyn_range(ph))) {
        None => None,
        Some(raw) => {
            let t = dyn_scan(raw, h.class, h.data, 0, (None, None, Seq::empty()));
            match t.0 {
                None => None,
                Some(sv) => match v2f(ph, sv, 0) {
                    None => None,
                    Some(base) => Some(
                        (
                            match t.1 {
                                Some(so) => if base + so <= u64::MAX {
                                    str_at(f, base + so)
                                } else {
                                    None
                                },
                                None => None,
                            },
                            needed_strings(f, base, t.2, 0),
                        ),
                    ),
                },
            }
        },
    }
}

/// The first `n` program headers of the file `f` by its file header `h`;
/// None when the offset of one overflows or one cannot be read.
pub open spec fn phdrs_read(f: Seq<u8>, h: Header, n: nat) -> Option<Seq<Phdr>>
    decreases n,
{
    if n == 0 {
        Some(Seq::empty())
    } else {
        match phdrs_read(f, h, (n - 1) as nat) {
            None => None,
            Some(ps) => match phdr_offset(h, n - 1) {
                None => None,
                Some(off) => match phdr_reply(read_range(f, Some((off, h.phentsize))), h) {
                    Some(p) => Some(ps.push(p)),
                    None => None,
                },
            },
        }
    }
}

/// The headers of the file `f`: its file header and all its program
/// headers; None when one of them cannot be read.
pub open spec fn headers_read(f: Seq<u8>) -> Option<(Header, Seq<Phdr>)> {
    match header_reply(read_range(f, Some((0u64, 64usize)))) {
        None => None,
        Some(h) => match phdrs_read(f, h, h.phnum as nat) {
            Some(ps) => Some((h, ps)),
            None => None,
        },
    }
}

/// A reader of one ELF file. It asks for byte ranges with `wants` and is
/// told what a read gave with `feed`.
pub struct ElfReader {
    pub mode: ElfMode,
    pub stage: Stage,
    /// The range asked for in the current stage.
    pub want: Option<(u64, usize)>,
    pub header: Option<Header>,
    pub phdrs: Vec<Phdr>,
    /// The file header and all program headers were read.
    pub elf: bool,
    pub interp: Option<String>,
    pub dynamic: bool,
    pub tags: DynTags,
    pub base: u64,
    pub soname: Option<String>,
    pub needed: Vec<String>,
    /// The dynamic section and its string table were found.
    pub dyn_ok: bool,
}

impl ElfReader {
    /// The reader's consistency: the stage agrees with the parts read.
    pub open spec fn wf(&self) -> bool {
        &&& match self.stage {
            Stage::Header => self.want == Some((0u64, 64usize)) && self.header is None
                && !self.elf && self.phdrs@.len() == 0,
            Stage::Phdr(i) => {
                &&& self.header matches Some(h)
                &&& !self.elf
                &&& i < h.phnum <= 4096
                &&& 32 <= h.phentsize < 0x10000
                &&& self.phdrs@.len() == i
                &&& phdr_offset(h, i as int) matches Some(off)
                &&& self.want == Some((off, h.phentsize))
            },
            Stage::Interp => self.elf && interp_range(self.phdrs@) == self.want && self.want is Some
                && self.dynamic,
            Stage::Dyn => self.elf && self.want is Some && self.want == dyn_range(self.phdrs@),
            Stage::Soname => self.elf && self.want is Some && self.header is Some,
            Stage::Needed(k) => {
                &&& self.elf
                &&& self.header is Some
                &&& k < self.tags.needed@.len()
                &&& self.want == Some(((self.base + self.tags.needed@[k as int]) as u64, STR_WINDOW))
                &&& self.base + self.tags.needed@[k as int] <= u64::MAX
            },
            Stage::Done => self.want is None,
        }
        &&& self.elf ==> self.header is Some
        &&& self.interp is Some ==> self.dynamic
        &&& !(self.stage is Done) ==> !self.dyn_ok
        &&& match self.want {
            Some((_, len)) => 0 < len <= MAX_READ,
            None => true,
        }
    }

    /// A reader at the start of a file, in the mode given, that has read
    /// nothing yet.
    pub open spec fn fresh(&self, mode: ElfMode) -> bool {
        &&& self.wf()
        &&& self.mode == mode
        &&& self.stage == Stage::Header
        &&& self.interp is None
        &&& !self.dynamic
        &&& self.soname is None
        &&& self.needed@.len() == 0
    }

    /// A reader at the start of a file.
    pub fn new(mode: ElfMode) -> (r: ElfReader)
        ensures
            r.fresh(mode),
            r.want == Some((0u64, 64usize)),
    {
        ElfReader {
            mode,
            stage: Stage::Header,
            want: Some((0, 64)),
            header: None,
            phdrs: Vec::new(),
            elf: false,
            interp: None,
            dynamic: false,
            tags: DynTags { strtab: None, soname: None, needed: Vec::new() },
            base: 0,
            soname: None,
            needed: Vec::new(),
            dyn_ok: false,
        }
    }

    /// The range the reader needs next: (offset, length); None when done.
    pub fn wants(&self) -> (r: Option<(u64, usize)>)
        requires
            self.wf(),
        ensures
            r == self.want,
            r is None <==> self.stage == Stage::Done,
            r matches Some((_, len)) ==> 0 < len <= MAX_READ,
    {
        self.want
    }

    /// Ends the reading.
    fn finish(&mut self)
        ensures
            final(self).stage == Stage::Done,
            final(self).want is None,
            final(self).mode == old(self).mode,
            final(self).elf == old(self).elf,
            final(self).header == old(self).header,
            final(self).phdrs == old(self).phdrs,
            final(self).interp == old(self).interp,
            final(self).dynamic == old(self).dynamic,
            final(self).tags == old(self).tags,
            final(self).base == old(self).base,
            final(self).soname == old(self).soname,
            final(self).needed == old(self).needed,
            final(self).dyn_ok == old(self).dyn_ok,
    {
        self.stage = Stage::Done;
        self.want = None;
    }

    /// Moves to reading the dynamic section, or ends without one.
    fn to_dyn(&mut self)
        requires
            old(self).interp is Some ==> old(self).dynamic,
            !old(self).dyn_ok,
            old(self).elf,
            old(self).header is Some,
        ensures
            final(self).wf(),
            final(self).want == dyn_range(old(self).phdrs@),
            final(self).want is Some ==> final(self).stage == Stage::Dyn,
            final(self).want is None ==> final(self).stage == Stage::Done,
            final(self).mode == old(self).mode,
            final(self).elf == old(self).elf,
            final(self).header == old(self).header,
            final(self).phdrs == old(self).phdrs,
            final(self).interp == old(self).interp,
            final(self).dynamic == old(self).dynamic,
            final(self).dyn_ok == old(self).dyn_ok,
            final(self).soname == old(self).soname,
            final(self).needed == old(self).needed,
    {
        let r = dyn_range_exec(&self.phdrs);
        match r {
            Some(_) => {
                self.stage = Stage::Dyn;
                self.want = r;
            },
            None => {
                self.finish();
            },
        }
    }

    /// Moves to string `k` of the needed list, skipping entries whose
    /// offset overflows; ends with the dynamic information complete.
    fn to_needed(&mut self, k: usize)
        requires
            old(self).interp is Some ==> old(self).dynamic,
            !old(self).dyn_ok,
            old(self).elf,
            old(self).header is Some,
            k <= old(self).tags.needed@.len(),
        ensures
            final(self).wf(),
            final(self).mode == old(self).mode,
            final(self).elf == old(self).elf,
            final(self).header == old(self).header,
            final(self).phdrs == old(self).phdrs,
            final(self).interp == old(self).interp,
            final(self).dynamic == old(self).dynamic,
            final(self).tags == old(self).tags,
            final(self).base == old(self).base,
            final(self).soname == old(self).soname,
            final(self).needed == old(self).needed,
            match final(self).stage {
                Stage::Needed(j) => k <= j && forall|m: int|
                    k <= m < j ==> final(self).base + final(self).tags.needed@[m] > u64::MAX,
                Stage::Done => final(self).dyn_ok && forall|m: int|
                    k <= m < final(self).tags.needed@.len() ==> final(self).base + final(self).tags.needed@[m]
                        > u64::MAX,
                _ => false,
            },
            !(final(self).stage is Done) ==> final(self).dyn_ok == old(self).dyn_ok,
        decreases old(self).tags.needed@.len() - k,
    {
        if k >= self.tags.needed.len() {
            self.dyn_ok = true;
            self.finish();
            return;
        }
        match self.base.checked_add(self.tags.needed[k]) {
            Some(off) => {
                self.stage = Stage::Needed(k);
                self.want = Some((off, STR_WINDOW));
            },
            None => {
                self.to_needed(k + 1);
            },
        }
    }

    /// Moves to program header `i`, or ends the reading when its offset
    /// overflows.
    fn to_phdr(&mut self, i: usize)
        requires
            old(self).interp is Some ==> old(self).dynamic,
            !old(self).dyn_ok,
            old(self).header matches Some(h) && i < h.phnum <= 4096 && 32 <= h.phentsize < 0x10000,
            old(self).phdrs@.len() == i,
            !old(self).elf,
        ensures
            final(self).wf(),
            final(self).mode == old(self).mode,
            final(self).header == old(self).header,
            final(self).phdrs == old(self).phdrs,
            !final(self).elf,
            phdr_offset(old(self).header->0, i as int) is Some ==> final(self).stage == Stage::Phdr(i),
            phdr_offset(old(self).header->0, i as int) is None ==> final(self).stage == Stage::Done,
    {
        let h = match self.header {
            Some(h) => h,
            None => {
                self.finish();
                return;
            },
        };
        match phdr_offset_exec(h, i) {
            Some(off) => {
                self.stage = Stage::Phdr(i);
                self.want = Some((off, h.phentsize));
            },
            None => self.finish(),
        }
    }

    /// After the last program header: reads the interpreter of a
    /// dynamically linked executable, else goes on to the dynamic section.
    fn after_phdrs(&mut self)
        requires
            old(self).interp is Some ==> old(self).dynamic,
            !old(self).dyn_ok,
            old(self).elf,
            old(self).header is Some,
            old(self).dynamic == has_dynamic(old(self).phdrs@),
        ensures
            final(self).wf(),
            final(self).mode == old(self).mode,
            final(self).elf,
            final(self).header == old(self).header,
            final(self).phdrs == old(self).phdrs,
            final(self).dynamic == old(self).dynamic,
            final(self).dyn_ok == old(self).dyn_ok,
            final(self).soname == old(self).soname,
            final(self).needed == old(self).needed,
            reads_interp(*final(self)) ==> final(self).stage == Stage::Interp && final(self).interp
                == old(self).interp,
            !reads_interp(*final(self)) ==> final(self).interp == old(self).interp && at_dyn(*final(self)),
    {
        if self.mode == ElfMode::Bin && self.dynamic {
            let r = interp_range_exec(&self.phdrs);
            if r.is_some() {
                self.stage = Stage::Interp;
                self.want = r;
                return;
            }
        }
        self.to_dyn();
    }

    /// Takes what the read of the current range gave: `None` when the file
    /// could not be read there, else the bytes up to the range's end or the
    /// end of the file.
    pub fn feed(&mut self, reply: Option<Vec<u8>>)
        requires
            old(self).wf(),
        ensures
            fed(*old(self), *final(self), opt_bytes(reply)),
    {
        match self.stage {
            Stage::Header => {
                let h = match reply {
                    Some(b) => parse_header(b.as_slice()),
                    None => None,
                };
                self.header = h;
                match h {
                    Some(_) => self.to_phdr(0),
                    None => self.finish(),
                }
            },
            Stage::Phdr(i) => {
                let h = match self.header {
                    Some(h) => h,
                    None => {
                        self.finish();
                        return;
                    },
                };
                let p = match got_exec(reply) {
                    Some(b) => parse_phdr(b.as_slice(), h.class, h.data),
                    None => None,
                };
                match p {
                    Some(q) => {
                        self.phdrs.push(q);
                        if i + 1 < h.phnum {
                            self.to_phdr(i + 1);
                        } else {
                            self.elf = true;
                            self.dynamic = has_dynamic_exec(&self.phdrs);
                            self.interp = None;
                            self.after_phdrs();
                        }
                    },
                    None => self.finish(),
                }
            },
            Stage::Interp => {
                self.interp = match got_exec(reply) {
                    Some(b) => Some(cstr_string(b.as_slice())),
                    None => None,
                };
                self.to_dyn();
            },
            Stage::Dyn => {
                let h = match self.header {
                    Some(h) => h,
                    None => {
                        self.finish();
                        return;
                    },
                };
                let raw = match got_exec(reply) {
                    Some(b) => b,
                    None => {
                        self.finish();
                        return;
                    },
                };
                let t = scan_dyn(raw.as_slice(), h.class, h.data);
                let sv = match t.strtab {
                    Some(v) => v,
                    None => {
                        self.finish();
                        return;
                    },
                };
                let base = match v2f_exec(&self.phdrs, sv) {
                    Some(b) => b,
                    None => {
                        self.finish();
                        return;
                    },
                };
                let so = t.soname;
                self.tags = t;
                self.base = base;
                self.soname = None;
                self.needed = Vec::new();
                match so {
                    Some(o) => match base.checked_add(o) {
                        Some(off) => {
                            self.stage = Stage::Soname;
                            self.want = Some((off, STR_WINDOW));
                        },
                        None => self.to_needed(0),
                    },
                    None => self.to_needed(0),
                }
            },
            Stage::Soname => {
                self.soname = strtab_string(reply);
                self.to_needed(0);
            },
            Stage::Needed(k) => {
                assert(k < self.tags.needed.len());
                if let Some(s) = strtab_string(reply) {
                    self.needed.push(s);
                }
                self.to_needed(k + 1);
            },
            Stage::Done => {},
        }
    }

    pub open spec fn tags_view(&self) -> (Option<u64>, Option<u64>, Seq<u64>) {
        tags_view(self.tags)
    }
}

/// The header a reply holds.
pub open spec fn header_reply(reply: Option<Seq<u8>>) -> Option<Header> {
    match reply {
        Some(b) => header_of(b),
        None => None,
    }
}

/// The program header a reply holds.
pub open spec fn phdr_reply(reply: Option<Seq<u8>>, h: Header) -> Option<Phdr> {
    match got(reply) {
        Some(b) => phdr_of(b, h.class, h.data),
        None => None,
    }
}

/// The NUL-terminated string a reply holds.
pub open spec fn str_reply(reply: Option<Seq<u8>>) -> Option<Seq<char>> {
    match got(reply) {
        Some(b) => Some(cstr_text(b)),
        None => None,
    }
}

pub open spec fn nonempty(o: Option<Seq<char>>) -> Option<Seq<char>> {
    match o {
        Some(s) => if s.len() > 0 {
            Some(s)
        } else {
            None
        },
        None => None,
    }
}

/// A string-table entry: the NUL-terminated string read, when not empty.
fn strtab_string(reply: Option<Vec<u8>>) -> (r: Option<String>)
    ensures
        crate::profile::opt_view(r) == nonempty(str_reply(opt_bytes(reply))),
{
    match got_exec(reply) {
        Some(b) => {
            let s = cstr_string(b.as_slice());
            if !s.as_str().is_empty() {
                Some(s)
            } else {
                None
            }
        },
        None => None,
    }
}

// ------------------------------------------------------------ results

/// What an executable's headers show.
pub struct BinInfo {
    /// The PT_INTERP path, read only when a PT_DYNAMIC segment is present;
    /// None for a static executable.
    pub interp: Option<String>,
    /// Whether a PT_DYNAMIC segment is present.
    pub dynamic: bool,
    /// The DT_NEEDED entries; empty when the dynamic section could not be
    /// read.
    pub needed: Vec<String>,
}

/// What a shared library's dynamic section shows.
pub struct Dyn {
    pub soname: Option<String>,
    pub needed: Vec<String>,
}

/// The executable a finished reader read; None when the file is not an
/// ELF file (its headers could not all be read).
pub fn bin(r: ElfReader) -> (b: Option<BinInfo>)
    requires
        r.wf(),
        r.stage == Stage::Done,
    ensures
        b is Some <==> r.elf,
        b matches Some(i) ==> {
            &&& i.interp is Some ==> i.dynamic
            &&& i.interp == r.interp
            &&& i.dynamic == r.dynamic
            &&& i.needed@ == if r.dyn_ok {
                r.needed@
            } else {
                Seq::empty()
            }
        },
{
    if !r.elf {
        return None;
    }
    let needed = if r.dyn_ok {
        r.needed
    } else {
        Vec::new()
    };
    Some(BinInfo { interp: r.interp, dynamic: r.dynamic, needed })
}

/// The dynamic section a finished reader read; None when it has none, or
/// it or its string table could not be read.
pub fn dynamic(r: ElfReader) -> (d: Option<Dyn>)
    requires
        r.stage == Stage::Done,
    ensures
        d is Some <==> r.dyn_ok,
        d matches Some(x) ==> x.soname == r.soname && x.needed == r.needed,
{
    if r.dyn_ok {
        Some(Dyn { soname: r.soname, needed: r.needed })
    } else {
        None
    }
}

} // verus!
