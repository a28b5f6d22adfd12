//! Fonts: the extension is the format, the token after the last
//! separator the weight; no font tables are read.

use crate::profile::Font;
use crate::text::{
    ascii_lower, ascii_lower_exec, chars_of, extension, extension_exec, file_stem, file_stem_exec,
    slice_chars, string_of,
};
use vstd::prelude::*;

verus! {

// ------------------------------------------------------------ fonts

pub open spec fn is_weight_sep(c: char) -> bool {
    c == '-' || c == '_' || c == ' '
}

/// Index of the last weight separator, or -1.
pub open spec fn rfind_sep(s: Seq<char>) -> int
    decreases s.len(),
{
    if s.len() == 0 {
        -1
    } else if is_weight_sep(s.last()) {
        s.len() - 1
    } else {
        rfind_sep(s.drop_last())
    }
}

pub proof fn lemma_rfind_sep(s: Seq<char>, k: int)
    requires
        -1 <= k < s.len(),
        k >= 0 ==> is_weight_sep(s[k]),
        forall|j: int| k < j < s.len() ==> !is_weight_sep(s[j]),
    ensures
        rfind_sep(s) == k,
    decreases s.len(),
{
    if s.len() > 0 && !is_weight_sep(s.last()) {
        lemma_rfind_sep(s.drop_last(), k);
    }
}

/// A font: (name, format, weight). The format is the lower-cased extension;
/// the weight is the lower-cased token after the last `-`, `_` or space.
pub open spec fn font_of(rel: Seq<char>) -> Option<(Seq<char>, Seq<char>, Option<Seq<char>>)> {
    match extension(rel) {
        Some(e) => {
            let name = file_stem(rel);
            let k = rfind_sep(name);
            Some(
                (
                    name,
                    ascii_lower(e),
                    if k >= 0 {
                        Some(ascii_lower(name.skip(k + 1)))
                    } else {
                        None
                    },
                ),
            )
        },
        None => None,
    }
}

/// Parses a font path.
pub fn parse(rel: &str) -> (f: Option<Font>)
    ensures
        f matches Some(v) ==> font_of(rel@) == Some(
            (v.name@, v.format@, crate::profile::opt_view(v.weight)),
        ) && v.path@ == rel@,
        f is None ==> font_of(rel@) is None,
{
    let r = chars_of(rel);
    let s = r.as_slice();
    let e = match extension_exec(s) {
        Some(e) => e,
        None => return None,
    };
    let format = ascii_lower_exec(e.as_slice());
    let name = file_stem_exec(s);
    let nl = name.len();
    let mut i = nl;
    while i > 0
        invariant
            i <= nl == name@.len(),
            forall|j: int| i <= j < nl ==> !is_weight_sep(name@[j]),
        ensures
            i <= nl,
            forall|j: int| i <= j < nl ==> !is_weight_sep(name@[j]),
            i > 0 ==> is_weight_sep(name@[i - 1]),
        decreases i,
    {
        let c = name[i - 1];
        if c == '-' || c == '_' || c == ' ' {
            break;
        }
        i -= 1;
    }
    let weight = if i > 0 {
        proof {
            lemma_rfind_sep(name@, i - 1);
        }
        let w = slice_chars(name.as_slice(), i, nl);
        assert(w@ == name@.skip(i as int));
        let wl = ascii_lower_exec(w.as_slice());
        Some(string_of(wl.as_slice()))
    } else {
        proof {
            lemma_rfind_sep(name@, -1);
        }
        None
    };
    Some(
        Font {
            path: string_of(s),
            name: string_of(name.as_slice()),
            format: string_of(format.as_slice()),
            weight,
        },
    )
}

} // verus!
