//! Desktop entries: the first group of a `.desktop` file is the primary
//! entry; later groups do not override it, the first value of a key wins
//! and localized keys are ignored.

use crate::content::{lines, split_lines, views};
use crate::profile::{Desktop, Icon, Session};
use crate::text::{
    chars_of, first_char, first_char_exec, lemma_first_char, slice_chars, starts_lit, starts_with,
    string_of, trim, trim_exec,
};
use vstd::prelude::*;
use vstd::utf8::{decode_utf8, valid_utf8};

verus! {

// ------------------------------------------------------------ desktop entries

pub open spec fn is_group_line(line: Seq<char>) -> bool {
    starts_with(trim(line), "["@)
}

/// The trimmed key of a `key=value` line.
pub open spec fn kv_key(line: Seq<char>) -> Option<Seq<char>> {
    let t = trim(line);
    if first_char(t, '=') < t.len() {
        Some(trim(t.take(first_char(t, '='))))
    } else {
        None
    }
}

/// The trimmed value of a `key=value` line.
pub open spec fn kv_val(line: Seq<char>) -> Seq<char> {
    let t = trim(line);
    trim(t.skip(first_char(t, '=') + 1))
}

/// The first value of `key` in the first group of `ls`, scanning from line
/// `i`; `seen` tells whether the first group header has been passed.
pub open spec fn desk_scan(ls: Seq<Seq<char>>, i: int, seen: bool, key: Seq<char>) -> Option<
    Seq<char>,
>
    decreases ls.len() - i,
{
    if i < 0 || i >= ls.len() {
        None
    } else if is_group_line(ls[i]) {
        if seen {
            None
        } else {
            desk_scan(ls, i + 1, true, key)
        }
    } else if seen && kv_key(ls[i]) == Some(key) {
        Some(kv_val(ls[i]))
    } else {
        desk_scan(ls, i + 1, seen, key)
    }
}

/// The value of `key` in a desktop file: the first occurrence inside the
/// first `[group]`; later groups (`[Desktop Action ...]`) do not count, and
/// localised keys (`Name[ru]`) are distinct keys.
pub open spec fn desktop_value(text: Seq<char>, key: Seq<char>) -> Option<Seq<char>> {
    desk_scan(lines(text), 0, false, key)
}

fn kv_split(line: &[char]) -> (r: Option<(Vec<char>, Vec<char>)>)
    ensures
        r matches Some((k, v)) ==> kv_key(line@) == Some(k@) && kv_val(line@) == v@,
        r is None ==> kv_key(line@) is None,
{
    let t = trim_exec(line);
    let n = t.len();
    let e = first_char_exec(t.as_slice(), '=');
    proof {
        lemma_first_char(t@, '=');
    }
    if e >= n {
        return None;
    }
    let k = slice_chars(t.as_slice(), 0, e);
    let v = slice_chars(t.as_slice(), e + 1, n);
    assert(v@ == t@.skip(e + 1));
    Some((trim_exec(k.as_slice()), trim_exec(v.as_slice())))
}

/// The value of `key` in the lines of a desktop file.
fn desk_value(ls: &Vec<Vec<char>>, key: &str) -> (r: Option<String>)
    ensures
        crate::profile::opt_view(r) == desk_scan(views(ls@), 0, false, key@),
{
    let kv = chars_of(key);
    let ghost vs = views(ls@);
    let mut seen = false;
    let mut i: usize = 0;
    while i < ls.len()
        invariant
            vs == views(ls@),
            kv@ == key@,
            i <= ls@.len(),
            desk_scan(vs, 0, false, key@) == desk_scan(vs, i as int, seen, key@),
        decreases ls@.len() - i,
    {
        let line = ls[i].as_slice();
        assert(vs[i as int] == line@);
        let t = trim_exec(line);
        if starts_lit(t.as_slice(), "[") {
            if seen {
                return None;
            }
            seen = true;
        } else if seen {
            if let Some((k, v)) = kv_split(line) {
                if crate::text::eq_exec(k.as_slice(), kv.as_slice()) {
                    return Some(string_of(v.as_slice()));
                }
            }
        }
        i += 1;
    }
    None
}

/// An application launcher entry from the text of its .desktop file.
pub fn app(rel: &str, text: &str) -> (d: Desktop)
    ensures
        d.path@ == rel@,
        crate::profile::opt_view(d.name) == desktop_value(text@, "Name"@),
        crate::profile::opt_view(d.icon) == desktop_value(text@, "Icon"@),
        crate::profile::opt_view(d.command) == desktop_value(text@, "Exec"@),
{
    let t = chars_of(text);
    let ls = split_lines(t.as_slice());
    Desktop {
        path: string_of(chars_of(rel).as_slice()),
        name: desk_value(&ls, "Name"),
        icon: desk_value(&ls, "Icon"),
        command: desk_value(&ls, "Exec"),
    }
}

/// A session entry of the given kind from the text of its .desktop file.
pub fn session(rel: &str, text: &str, kind: &str) -> (s: Session)
    ensures
        s.path@ == rel@,
        s.kind@ == kind@,
        crate::profile::opt_view(s.name) == desktop_value(text@, "Name"@),
        crate::profile::opt_view(s.command) == desktop_value(text@, "Exec"@),
{
    let t = chars_of(text);
    let ls = split_lines(t.as_slice());
    Session {
        path: string_of(chars_of(rel).as_slice()),
        name: desk_value(&ls, "Name"),
        command: desk_value(&ls, "Exec"),
        kind: string_of(chars_of(kind).as_slice()),
    }
}

} // verus!
