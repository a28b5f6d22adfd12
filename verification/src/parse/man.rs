//! Man pages: `.../man/<lang?>/man<section>/<name>.<section>[.<ext>]`; the
//! section comes from the directory, the language from an optional locale
//! directory.

use crate::profile::ManPage;
use crate::text::{
    after_first_slash, after_first_slash_exec, chars_of, ends_lit, ends_with, find, find_lit,
    first_char, first_char_exec, first_seg, first_seg_exec, last_seg, last_seg_exec, lemma_find,
    lemma_first_char, lemma_rfind_char, rfind_char, rfind_char_exec, slice_chars, starts_lit,
    starts_with, string_of,
};
use vstd::prelude::*;

verus! {

// ------------------------------------------------------------ man pages

/// The section of a `man<section>` directory.
pub open spec fn strip_man_prefix(dir: Seq<char>) -> Option<Seq<char>> {
    if starts_with(dir, "man"@) && dir.len() > 3 {
        Some(dir.skip(3))
    } else {
        None
    }
}

pub open spec fn is_compressed(file: Seq<char>) -> bool {
    ||| ends_with(file, ".gz"@)
    ||| ends_with(file, ".bz2"@)
    ||| ends_with(file, ".xz"@)
    ||| ends_with(file, ".zst"@)
    ||| ends_with(file, ".lzma"@)
    ||| ends_with(file, ".lz"@)
    ||| ends_with(file, ".Z"@)
}

/// The page name: the file name without a compression suffix, cut at its
/// first dot (`ls.1.gz` is `ls`).
pub open spec fn man_name(file: Seq<char>) -> Option<Seq<char>> {
    let base = if is_compressed(file) {
        file.take(rfind_char(file, '.'))
    } else {
        file
    };
    let name = base.take(first_char(base, '.'));
    if name.len() == 0 {
        None
    } else {
        Some(name)
    }
}

/// A man page `.../man/[<lang>/]man<section>/<file>`, as
/// (name, section, lang).
pub open spec fn man_of(rel: Seq<char>) -> Option<(Seq<char>, Seq<char>, Option<Seq<char>>)> {
    match find(rel, "/man/"@) {
        Some(i) => {
            let after = rel.skip(i + 5);
            match after_first_slash(after) {
                Some(r) => {
                    let l = first_seg(after);
                    let sec_lang: Option<(Seq<char>, Option<Seq<char>>)> = match strip_man_prefix(
                        l,
                    ) {
                        Some(sec) => Some((sec, None)),
                        None => match strip_man_prefix(first_seg(r)) {
                            Some(sec) => Some((sec, Some(l))),
                            None => None,
                        },
                    };
                    match (sec_lang, man_name(last_seg(rel))) {
                        (Some((sec, lang)), Some(name)) => Some((name, sec, lang)),
                        _ => None,
                    }
                },
                None => None,
            }
        },
        None => None,
    }
}

fn strip_man_prefix_exec(dir: &[char]) -> (r: Option<Vec<char>>)
    ensures
        r matches Some(v) ==> strip_man_prefix(dir@) == Some(v@),
        r is None ==> strip_man_prefix(dir@) is None,
{
    if starts_lit(dir, "man") && dir.len() > 3 {
        Some(slice_chars(dir, 3, dir.len()))
    } else {
        None
    }
}

fn is_compressed_exec(file: &[char]) -> (b: bool)
    ensures
        b == is_compressed(file@),
{
    ends_lit(file, ".gz") || ends_lit(file, ".bz2") || ends_lit(file, ".xz") || ends_lit(
        file,
        ".zst",
    ) || ends_lit(file, ".lzma") || ends_lit(file, ".lz") || ends_lit(file, ".Z")
}

fn man_name_exec(file: &[char]) -> (r: Option<Vec<char>>)
    ensures
        r matches Some(v) ==> man_name(file@) == Some(v@),
        r is None ==> man_name(file@) is None,
{
    let base = if is_compressed_exec(file) {
        proof {
            lemma_rfind_char(file@, '.');
            if ends_with(file@, ".gz"@) {
                reveal_strlit(".gz");
                assert(file@[file@.len() - 3] == ".gz"@[0]);
            } else if ends_with(file@, ".bz2"@) {
                reveal_strlit(".bz2");
                assert(file@[file@.len() - 4] == ".bz2"@[0]);
            } else if ends_with(file@, ".xz"@) {
                reveal_strlit(".xz");
                assert(file@[file@.len() - 3] == ".xz"@[0]);
            } else if ends_with(file@, ".zst"@) {
                reveal_strlit(".zst");
                assert(file@[file@.len() - 4] == ".zst"@[0]);
            } else if ends_with(file@, ".lzma"@) {
                reveal_strlit(".lzma");
                assert(file@[file@.len() - 5] == ".lzma"@[0]);
            } else if ends_with(file@, ".lz"@) {
                reveal_strlit(".lz");
                assert(file@[file@.len() - 3] == ".lz"@[0]);
            } else {
                reveal_strlit(".Z");
                assert(file@[file@.len() - 2] == ".Z"@[0]);
            }
        }
        match rfind_char_exec(file, '.') {
            Some(k) => slice_chars(file, 0, k),
            None => {
                assert(false);
                slice_chars(file, 0, 0)
            },
        }
    } else {
        slice_chars(file, 0, file.len())
    };
    assert(base@ == (if is_compressed(file@) {
        file@.take(rfind_char(file@, '.'))
    } else {
        file@
    }));
    let k = first_char_exec(base.as_slice(), '.');
    proof {
        lemma_first_char(base@, '.');
    }
    let name = slice_chars(base.as_slice(), 0, k);
    if name.len() == 0 {
        None
    } else {
        Some(name)
    }
}

/// Parses a man page path.
pub fn parse(rel: &str) -> (m: Option<ManPage>)
    ensures
        m matches Some(v) ==> man_of(rel@) == Some(
            (v.name@, v.section@, crate::profile::opt_view(v.lang)),
        ) && v.path@ == rel@,
        m is None ==> man_of(rel@) is None,
{
    let r = chars_of(rel);
    let s = r.as_slice();
    let n = s.len();
    proof {
        reveal_strlit("/man/");
        lemma_find(s@, "/man/"@);
    }
    let i = match find_lit(s, "/man/") {
        Some(i) => i,
        None => return None,
    };
    assert(i + 5 <= n);
    let after = slice_chars(s, i + 5, n);
    assert(after@ == s@.skip(i + 5));
    let rr = match after_first_slash_exec(after.as_slice()) {
        Some(x) => x,
        None => return None,
    };
    let l = first_seg_exec(after.as_slice());
    let (sec, lang) = match strip_man_prefix_exec(l.as_slice()) {
        Some(sec) => (sec, None),
        None => {
            let sd = first_seg_exec(rr.as_slice());
            match strip_man_prefix_exec(sd.as_slice()) {
                Some(sec) => (sec, Some(string_of(l.as_slice()))),
                None => return None,
            }
        },
    };
    let file = last_seg_exec(s);
    let name = match man_name_exec(file.as_slice()) {
        Some(x) => x,
        None => return None,
    };
    Some(
        ManPage {
            path: string_of(s),
            name: string_of(name.as_slice()),
            section: string_of(sec.as_slice()),
            lang,
        },
    )
}

} // verus!
