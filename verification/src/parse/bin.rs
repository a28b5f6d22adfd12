//! Binaries: an ELF file reports its interpreter, whether it is dynamic
//! and what it needs; any other file may name a script interpreter after
//! `#!`.

use crate::content::{lossy, utf8_lossy};
use crate::parse::elf::BinInfo;
use crate::profile::{Bin, opt_view};
use crate::text::{
    chars_of, first_char, first_char_exec, is_ws, is_ws_exec, lemma_first_char, slice_chars,
    string_of, trim, trim_exec,
};
use vstd::prelude::*;
use vstd::utf8::{decode_utf8, valid_utf8};

verus! {

// ------------------------------------------------------------ shebang

/// Index of the first white-space character, or `s.len()`.
pub open spec fn first_ws(s: Seq<char>) -> int
    decreases s.len(),
{
    if s.len() == 0 || is_ws(s[0]) {
        0
    } else {
        1 + first_ws(s.drop_first())
    }
}

proof fn lemma_first_ws(s: Seq<char>, k: int)
    requires
        0 <= k <= s.len(),
        k < s.len() ==> is_ws(s[k]),
        forall|j: int| 0 <= j < k ==> !is_ws(s[j]),
    ensures
        first_ws(s) == k,
    decreases s.len(),
{
    if s.len() > 0 && !is_ws(s[0]) {
        assert forall|j: int| 0 <= j < k - 1 implies !is_ws(s.drop_first()[j]) by {
            assert(!is_ws(s[j + 1]));
        }
        lemma_first_ws(s.drop_first(), k - 1);
    }
}

/// The interpreter of a `#!` line: the first word of the first line after
/// `#!`, arguments dropped (`#!/usr/bin/env python3` is `/usr/bin/env`).
pub open spec fn shebang_of(head: Seq<u8>) -> Option<Seq<char>> {
    if head.len() < 2 || head[0] != 0x23 || head[1] != 0x21 {
        None
    } else {
        let text = utf8_lossy(head.skip(2));
        let path = trim(text.take(first_char(text, '\n')));
        let word = path.take(first_ws(path));
        if word.len() == 0 {
            None
        } else {
            Some(word)
        }
    }
}

/// The interpreter named by the head of a script.
pub fn shebang_interp(head: &[u8]) -> (r: Option<String>)
    ensures
        crate::profile::opt_view(r) == shebang_of(head@),
{
    let n = head.len();
    if n < 2 || head[0] != 0x23 || head[1] != 0x21 {
        return None;
    }
    let body = crate::bytes::slice_bytes(head, 2, n);
    assert(body@ == head@.skip(2));
    let text = lossy(body.as_slice());
    let tc = chars_of(text.as_str());
    let nl = first_char_exec(tc.as_slice(), '\n');
    proof {
        lemma_first_char(tc@, '\n');
    }
    let line = slice_chars(tc.as_slice(), 0, nl);
    let path = trim_exec(line.as_slice());
    let pl = path.len();
    let mut k: usize = 0;
    while k < pl && !is_ws_exec(path[k])
        invariant
            k <= pl == path@.len(),
            forall|j: int| 0 <= j < k ==> !is_ws(path@[j]),
        decreases pl - k,
    {
        k += 1;
    }
    proof {
        lemma_first_ws(path@, k as int);
    }
    if k == 0 {
        return None;
    }
    let word = slice_chars(path.as_slice(), 0, k);
    Some(string_of(word.as_slice()))
}

/// The binary at `rel`: from what its ELF headers showed, or, when it is
/// no ELF file, from the head of the file (a script names its interpreter
/// there). The interpreter of an ELF file is kept only when it is
/// dynamically linked; a static executable has none.
pub fn parse(rel: &str, info: Option<BinInfo>, head: &[u8]) -> (b: Bin)
    ensures
        b.path@ == rel@,
        b.interp is Some ==> b.dynamic,
        match info {
            Some(i) => b.interp == (if i.dynamic {
                i.interp
            } else {
                None
            }) && b.dynamic == i.dynamic && b.script is None && b.needed == i.needed,
            None => b.interp is None && !b.dynamic && opt_view(b.script) == shebang_of(head@)
                && b.needed@.len() == 0,
        },
{
    match info {
        Some(i) => Bin {
            path: String::from_str(rel),
            interp: if i.dynamic {
                i.interp
            } else {
                None
            },
            dynamic: i.dynamic,
            script: None,
            needed: i.needed,
        },
        None => Bin {
            path: String::from_str(rel),
            interp: None,
            dynamic: false,
            script: shebang_interp(head),
            needed: Vec::new(),
        },
    }
}

} // verus!
