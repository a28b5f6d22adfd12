//! The file-system requests a scan makes and the replies it takes. Paths in
//! requests are layer-relative raw bytes (empty for the root itself).

use vstd::prelude::*;

verus! {

/// A directory entry, as the listing of its parent gives it; no `stat` per
/// entry and no symlink follow: a symlink is never a directory here.
#[derive(Debug)]
pub struct Entry {
    /// The layer-relative path, lossily decoded.
    pub path: String,
    /// The layer-relative path as the file system spells it.
    pub raw: Vec<u8>,
    pub is_dir: bool,
    /// Whether `raw` is valid UTF-8 (then `path` spells it exactly).
    pub utf8: bool,
}

impl Entry {
    /// A copy of the entry.
    pub fn copy(&self) -> (e: Entry)
        ensures
            e.path@ == self.path@,
            e.raw@ == self.raw@,
            e.is_dir == self.is_dir,
            e.utf8 == self.utf8,
    {
        let raw = self.raw.clone();
        assert(raw@ =~= self.raw@);
        Entry { path: self.path.clone(), raw, is_dir: self.is_dir, utf8: self.utf8 }
    }
}

/// File metadata, symlinks followed.
#[derive(Clone, Copy, Debug, PartialEq, Eq)]
pub struct Meta {
    /// A regular file (not a directory, fifo, socket or device).
    pub is_file: bool,
    /// The permission bits.
    pub mode: u32,
}

/// A request for file-system facts; `P` is the path type.
#[derive(Debug)]
pub enum Request<P> {
    /// Whether the path is a directory (symlinks followed).
    IsDir(P),
    /// Whether the path is a regular file (symlinks followed).
    IsFile(P),
    /// The entries of a directory; none when it is a symlink or unreadable.
    List(P),
    /// The first entries of a directory, up to the limit, and whether the
    /// directory holds more entries than those.
    Probe(P, usize),
    /// The metadata of a path.
    Stat(P),
    /// What one read of up to the given number of bytes from the start of
    /// the file gives; nothing when it cannot be opened or read.
    Head(P, usize),
    /// The whole file as UTF-8 text; empty when unreadable or not UTF-8.
    Text(P),
    /// Up to `len` bytes from the offset (fewer at the end of the file);
    /// None when the file cannot be opened, positioned or read.
    ReadAt(P, u64, usize),
}

/// What the file system answered.
#[derive(Debug)]
pub enum Reply {
    Flag(bool),
    /// Entries, and whether a probe reached its limit.
    Entries(Vec<Entry>, bool),
    Meta(Option<Meta>),
    Bytes(Option<Vec<u8>>),
    Text(String),
}

pub open spec fn request_view(r: Request<Vec<u8>>) -> Request<Seq<u8>> {
    match r {
        Request::IsDir(p) => Request::IsDir(p@),
        Request::IsFile(p) => Request::IsFile(p@),
        Request::List(p) => Request::List(p@),
        Request::Probe(p, n) => Request::Probe(p@, n),
        Request::Stat(p) => Request::Stat(p@),
        Request::Head(p, n) => Request::Head(p@, n),
        Request::Text(p) => Request::Text(p@),
        Request::ReadAt(p, o, n) => Request::ReadAt(p@, o, n),
    }
}

pub open spec fn opt_request_view(r: Option<Request<Vec<u8>>>) -> Option<Request<Seq<u8>>> {
    match r {
        Some(x) => Some(request_view(x)),
        None => None,
    }
}

/// A flag reply; anything else counts as `false`.
pub open spec fn reply_flag(r: Reply) -> bool {
    match r {
        Reply::Flag(b) => b,
        _ => false,
    }
}

/// An entries reply; anything else counts as no entries.
pub open spec fn reply_entries(r: Reply) -> Seq<Entry> {
    match r {
        Reply::Entries(v, _) => v@,
        _ => Seq::empty(),
    }
}

/// Whether a probe reply reached its limit.
pub open spec fn reply_more(r: Reply) -> bool {
    match r {
        Reply::Entries(_, m) => m,
        _ => false,
    }
}

pub open spec fn reply_meta(r: Reply) -> Option<Meta> {
    match r {
        Reply::Meta(m) => m,
        _ => None,
    }
}

/// A bytes reply; anything else counts as a failed read.
pub open spec fn reply_bytes(r: Reply) -> Option<Seq<u8>> {
    match r {
        Reply::Bytes(Some(b)) => Some(b@),
        _ => None,
    }
}

/// Bytes read from the head of a file; a failure reads as nothing.
pub open spec fn reply_head(r: Reply) -> Seq<u8> {
    match reply_bytes(r) {
        Some(b) => b,
        None => Seq::empty(),
    }
}

pub open spec fn reply_text(r: Reply) -> Seq<char> {
    match r {
        Reply::Text(s) => s@,
        _ => Seq::empty(),
    }
}

impl Reply {
    pub fn into_flag(self) -> (b: bool)
        ensures
            b == reply_flag(self),
    {
        match self {
            Reply::Flag(b) => b,
            _ => false,
        }
    }

    pub fn into_entries(self) -> (r: (Vec<Entry>, bool))
        ensures
            r.0@ == reply_entries(self),
            r.1 == reply_more(self),
    {
        match self {
            Reply::Entries(v, m) => (v, m),
            _ => (Vec::new(), false),
        }
    }

    pub fn into_meta(self) -> (m: Option<Meta>)
        ensures
            m == reply_meta(self),
    {
        match self {
            Reply::Meta(m) => m,
            _ => None,
        }
    }

    pub fn into_bytes(self) -> (b: Option<Vec<u8>>)
        ensures
            crate::parse::elf::opt_bytes(b) == reply_bytes(self),
    {
        match self {
            Reply::Bytes(b) => b,
            _ => None,
        }
    }

    pub fn into_head(self) -> (b: Vec<u8>)
        ensures
            b@ == reply_head(self),
    {
        match self {
            Reply::Bytes(Some(b)) => b,
            _ => Vec::new(),
        }
    }

    pub fn into_text(self) -> (s: String)
        ensures
            s@ == reply_text(self),
    {
        match self {
            Reply::Text(s) => s,
            _ => String::new(),
        }
    }
}

} // verus!
