//! Icons: any file at `<theme>/<size>/.../<name>` under an `icons/` tree;
//! no format table.

use crate::profile::Icon;
use crate::text::{
    after_first_slash, after_first_slash_exec, chars_of, file_stem, file_stem_exec, find, find_lit,
    first_seg, first_seg_exec, lemma_find, slice_chars, string_of,
};
use vstd::prelude::*;

verus! {

// ------------------------------------------------------------ icons

/// An icon at `<theme>/<size>/<...>` under an icons/ directory, as
/// (theme, size, name).
pub open spec fn icon_of(rel: Seq<char>) -> Option<(Seq<char>, Seq<char>, Seq<char>)> {
    match find(rel, "/icons/"@) {
        Some(i) => {
            let rest = rel.skip(i + 7);
            match after_first_slash(rest) {
                Some(r1) => if after_first_slash(r1) is Some && first_seg(rest).len() > 0
                    && first_seg(r1).len() > 0 {
                    Some((first_seg(rest), first_seg(r1), file_stem(rel)))
                } else {
                    None
                },
                None => None,
            }
        },
        None => None,
    }
}

/// Parses an icon path.
pub fn parse(rel: &str) -> (ic: Option<Icon>)
    ensures
        ic matches Some(v) ==> icon_of(rel@) == Some((v.theme@, v.size@, v.name@)) && v.path@
            == rel@,
        ic is None ==> icon_of(rel@) is None,
{
    let r = chars_of(rel);
    let s = r.as_slice();
    let n = s.len();
    proof {
        reveal_strlit("/icons/");
        lemma_find(s@, "/icons/"@);
    }
    let i = match find_lit(s, "/icons/") {
        Some(i) => i,
        None => return None,
    };
    assert(i + 7 <= n);
    let rest = slice_chars(s, i + 7, n);
    assert(rest@ == s@.skip(i + 7));
    let r1 = match after_first_slash_exec(rest.as_slice()) {
        Some(x) => x,
        None => return None,
    };
    if after_first_slash_exec(r1.as_slice()).is_none() {
        return None;
    }
    let theme = first_seg_exec(rest.as_slice());
    let size = first_seg_exec(r1.as_slice());
    if theme.len() == 0 || size.len() == 0 {
        return None;
    }
    let name = file_stem_exec(s);
    Some(
        Icon {
            path: string_of(s),
            theme: string_of(theme.as_slice()),
            size: string_of(size.as_slice()),
            name: string_of(name.as_slice()),
        },
    )
}

} // verus!
