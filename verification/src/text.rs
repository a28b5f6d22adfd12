//! Character-level text model: layer-relative paths and file text are handled
//! as sequences of `char`, the view of `String` and `&str`.

use vstd::prelude::*;

verus! {

// ---------------------------------------------------------------- specs

/// `p` occurs in `s` starting at index `i`.
pub open spec fn occurs_at(s: Seq<char>, p: Seq<char>, i: int) -> bool {
    0 <= i && i + p.len() <= s.len() && s.subrange(i, i + p.len()) == p
}

pub open spec fn starts_with(s: Seq<char>, p: Seq<char>) -> bool {
    occurs_at(s, p, 0)
}

pub open spec fn ends_with(s: Seq<char>, p: Seq<char>) -> bool {
    p.len() <= s.len() && occurs_at(s, p, s.len() - p.len())
}

/// Index of the first occurrence of `p` in `s` at or after `i`.
pub open spec fn find_from(s: Seq<char>, p: Seq<char>, i: int) -> Option<int>
    decreases s.len() + 1 - i,
{
    if i < 0 || i + p.len() > s.len() {
        None
    } else if occurs_at(s, p, i) {
        Some(i)
    } else {
        find_from(s, p, i + 1)
    }
}

/// Index of the first occurrence of `p` in `s`.
pub open spec fn find(s: Seq<char>, p: Seq<char>) -> Option<int> {
    find_from(s, p, 0)
}

pub open spec fn contains(s: Seq<char>, p: Seq<char>) -> bool {
    find(s, p) is Some
}

/// Index of the last occurrence of `c` in `s`, or -1.
pub open spec fn rfind_char(s: Seq<char>, c: char) -> int
    decreases s.len(),
{
    if s.len() == 0 {
        -1
    } else if s.last() == c {
        s.len() - 1
    } else {
        rfind_char(s.drop_last(), c)
    }
}

/// Index of the first occurrence of `c` in `s`, or `s.len()`.
pub open spec fn first_char(s: Seq<char>, c: char) -> int
    decreases s.len(),
{
    if s.len() == 0 {
        0
    } else if s[0] == c {
        0
    } else {
        1 + first_char(s.drop_first(), c)
    }
}

/// The last `/`-separated segment (the whole string when it has no `/`).
pub open spec fn last_seg(s: Seq<char>) -> Seq<char> {
    s.skip(rfind_char(s, '/') + 1)
}

/// Everything before the last `/`, when there is one.
pub open spec fn parent(s: Seq<char>) -> Option<Seq<char>> {
    if rfind_char(s, '/') < 0 {
        None
    } else {
        Some(s.take(rfind_char(s, '/')))
    }
}

/// The first `/`-separated segment (the whole string when it has no `/`).
pub open spec fn first_seg(s: Seq<char>) -> Seq<char> {
    s.take(first_char(s, '/'))
}

/// Everything after the first `/`, when there is one.
pub open spec fn after_first_slash(s: Seq<char>) -> Option<Seq<char>> {
    if first_char(s, '/') < s.len() {
        Some(s.skip(first_char(s, '/') + 1))
    } else {
        None
    }
}

/// A file name's extension: what follows its last dot, unless that dot
/// opens the name.
pub open spec fn name_ext(name: Seq<char>) -> Option<Seq<char>> {
    if rfind_char(name, '.') > 0 {
        Some(name.skip(rfind_char(name, '.') + 1))
    } else {
        None
    }
}

/// A file name without its extension.
pub open spec fn name_stem(name: Seq<char>) -> Seq<char> {
    if rfind_char(name, '.') > 0 {
        name.take(rfind_char(name, '.'))
    } else {
        name
    }
}

/// Extension of the last segment of a path.
pub open spec fn extension(path: Seq<char>) -> Option<Seq<char>> {
    name_ext(last_seg(path))
}

/// Stem of the last segment of a path.
pub open spec fn file_stem(path: Seq<char>) -> Seq<char> {
    name_stem(last_seg(path))
}

/// Unicode white space, as `char::is_whitespace` classifies it.
pub open spec fn is_ws(c: char) -> bool {
    let u = c as u32;
    (0x09 <= u && u <= 0x0d) || u == 0x20 || u == 0x85 || u == 0xa0 || u == 0x1680 || (0x2000
        <= u && u <= 0x200a) || u == 0x2028 || u == 0x2029 || u == 0x202f || u == 0x205f || u
        == 0x3000
}

/// Number of leading white-space characters.
pub open spec fn lead_ws(s: Seq<char>) -> int
    decreases s.len(),
{
    if s.len() == 0 || !is_ws(s[0]) {
        0
    } else {
        1 + lead_ws(s.drop_first())
    }
}

/// Number of trailing white-space characters.
pub open spec fn trail_ws(s: Seq<char>) -> int
    decreases s.len(),
{
    if s.len() == 0 || !is_ws(s.last()) {
        0
    } else {
        1 + trail_ws(s.drop_last())
    }
}

/// `s` without leading and trailing white space (`str::trim`).
pub open spec fn trim(s: Seq<char>) -> Seq<char> {
    let a = s.skip(lead_ws(s));
    a.take(a.len() - trail_ws(a))
}

pub open spec fn is_ascii_upper(c: char) -> bool {
    'A' <= c && c <= 'Z'
}

pub open spec fn lower_char(c: char) -> char {
    if is_ascii_upper(c) {
        ((c as u32) + 32) as char
    } else {
        c
    }
}

/// ASCII lower-casing (`str::to_ascii_lowercase`).
pub open spec fn ascii_lower(s: Seq<char>) -> Seq<char> {
    Seq::new(s.len(), |i: int| lower_char(s[i]))
}

// ---------------------------------------------------------------- lemmas

pub proof fn lemma_rfind_char(s: Seq<char>, c: char)
    ensures
        -1 <= rfind_char(s, c) < s.len(),
        rfind_char(s, c) >= 0 ==> s[rfind_char(s, c)] == c,
        forall|j: int| rfind_char(s, c) < j < s.len() ==> s[j] != c,
    decreases s.len(),
{
    if s.len() > 0 && s.last() != c {
        lemma_rfind_char(s.drop_last(), c);
        assert forall|j: int| rfind_char(s, c) < j < s.len() implies s[j] != c by {
            if j < s.len() - 1 {
                assert(s[j] == s.drop_last()[j]);
            }
        }
    }
}

pub proof fn lemma_first_char(s: Seq<char>, c: char)
    ensures
        0 <= first_char(s, c) <= s.len(),
        first_char(s, c) < s.len() ==> s[first_char(s, c)] == c,
        forall|j: int| 0 <= j < first_char(s, c) ==> s[j] != c,
    decreases s.len(),
{
    if s.len() > 0 && s[0] != c {
        lemma_first_char(s.drop_first(), c);
        assert forall|j: int| 0 <= j < first_char(s, c) implies s[j] != c by {
            if j > 0 {
                assert(s[j] == s.drop_first()[j - 1]);
            }
        }
    }
}

/// The characterisation of `rfind_char` by its defining properties.
pub proof fn lemma_rfind_char_unique(s: Seq<char>, c: char, k: int)
    requires
        -1 <= k < s.len(),
        k >= 0 ==> s[k] == c,
        forall|j: int| k < j < s.len() ==> s[j] != c,
    ensures
        rfind_char(s, c) == k,
    decreases s.len(),
{
    if s.len() > 0 && s.last() != c {
        lemma_rfind_char_unique(s.drop_last(), c, k);
    }
}

pub proof fn lemma_first_char_unique(s: Seq<char>, c: char, k: int)
    requires
        0 <= k <= s.len(),
        k < s.len() ==> s[k] == c,
        forall|j: int| 0 <= j < k ==> s[j] != c,
    ensures
        first_char(s, c) == k,
    decreases s.len(),
{
    if s.len() > 0 && s[0] != c {
        assert forall|j: int| 0 <= j < k - 1 implies s.drop_first()[j] != c by {
            assert(s[j + 1] != c);
        }
        lemma_first_char_unique(s.drop_first(), c, k - 1);
    }
}

pub proof fn lemma_find_from(s: Seq<char>, p: Seq<char>, i: int)
    requires
        0 <= i,
    ensures
        find_from(s, p, i) matches Some(k) ==> i <= k && occurs_at(s, p, k) && forall|j: int|
            i <= j < k ==> !occurs_at(s, p, j),
        find_from(s, p, i) is None ==> forall|j: int| i <= j ==> !occurs_at(s, p, j),
    decreases s.len() + 1 - i,
{
    if i + p.len() > s.len() {
    } else if occurs_at(s, p, i) {
    } else {
        lemma_find_from(s, p, i + 1);
    }
}

pub proof fn lemma_find(s: Seq<char>, p: Seq<char>)
    ensures
        find(s, p) matches Some(k) ==> occurs_at(s, p, k) && forall|j: int|
            0 <= j < k ==> !occurs_at(s, p, j),
        find(s, p) is None ==> forall|j: int| !occurs_at(s, p, j),
{
    lemma_find_from(s, p, 0);
}

// ---------------------------------------------------------------- exec

/// Appends one character to a string (`String::push`).
#[verifier::external_body]
pub(crate) fn push_char(s: &mut String, c: char)
    ensures
        final(s)@ == old(s)@.push(c),
{
    s.push(c);
}

/// The characters of a string slice.
pub fn chars_of(s: &str) -> (v: Vec<char>)
    ensures
        v@ == s@,
{
    let mut v: Vec<char> = Vec::new();
    for c in it: s.chars()
        invariant
            v@ == it.seq().take(it.index() as int),
            it.seq() == s@,
    {
        v.push(c);
    }
    v
}

/// A string holding the given characters.
pub fn string_of(v: &[char]) -> (s: String)
    ensures
        s@ == v@,
{
    let mut s = String::new();
    let mut i: usize = 0;
    while i < v.len()
        invariant
            i <= v@.len(),
            s@ == v@.take(i as int),
        decreases v@.len() - i,
    {
        push_char(&mut s, v[i]);
        assert(v@.take(i as int).push(v@[i as int]) == v@.take(i + 1));
        i += 1;
    }
    assert(v@.take(v@.len() as int) == v@);
    s
}

/// The characters `s[a..b]`.
pub fn slice_chars(s: &[char], a: usize, b: usize) -> (r: Vec<char>)
    requires
        a <= b <= s@.len(),
    ensures
        r@ == s@.subrange(a as int, b as int),
{
    let mut r: Vec<char> = Vec::new();
    let mut i = a;
    while i < b
        invariant
            a <= i <= b <= s@.len(),
            r@ == s@.subrange(a as int, i as int),
        decreases b - i,
    {
        r.push(s[i]);
        assert(s@.subrange(a as int, i as int).push(s@[i as int]) == s@.subrange(
            a as int,
            i + 1,
        ));
        i += 1;
    }
    r
}

/// Whether `p` occurs in `s` at index `i`.
pub fn occurs_at_exec(s: &[char], p: &[char], i: usize) -> (b: bool)
    ensures
        b == occurs_at(s@, p@, i as int),
{
    let n = s.len();
    if p.len() > n || i > n - p.len() {
        return false;
    }
    let mut j: usize = 0;
    while j < p.len()
        invariant
            n == s@.len(),
            i + p@.len() <= s@.len(),
            j <= p@.len(),
            forall|k: int| 0 <= k < j ==> s@[i + k] == p@[k],
        decreases p@.len() - j,
    {
        assert(i + j < s@.len());
        if s[i + j] != p[j] {
            assert(s@.subrange(i as int, i + p@.len())[j as int] != p@[j as int]);
            return false;
        }
        j += 1;
    }
    assert(s@.subrange(i as int, i + p@.len()) == p@);
    true
}

pub fn starts_with_exec(s: &[char], p: &[char]) -> (b: bool)
    ensures
        b == starts_with(s@, p@),
{
    occurs_at_exec(s, p, 0)
}

pub fn ends_with_exec(s: &[char], p: &[char]) -> (b: bool)
    ensures
        b == ends_with(s@, p@),
{
    if p.len() > s.len() {
        return false;
    }
    occurs_at_exec(s, p, s.len() - p.len())
}

/// Whether `s` starts with the literal `p`.
pub fn starts_lit(s: &[char], p: &str) -> (b: bool)
    ensures
        b == starts_with(s@, p@),
{
    let pv = chars_of(p);
    starts_with_exec(s, pv.as_slice())
}

/// Whether `s` ends with the literal `p`.
pub fn ends_lit(s: &[char], p: &str) -> (b: bool)
    ensures
        b == ends_with(s@, p@),
{
    let pv = chars_of(p);
    ends_with_exec(s, pv.as_slice())
}

/// Whether two character sequences are equal.
pub fn eq_exec(s: &[char], p: &[char]) -> (b: bool)
    ensures
        b == (s@ == p@),
{
    if p.len() != s.len() {
        return false;
    }
    let b = starts_with_exec(s, p);
    assert(s@.subrange(0, s@.len() as int) == s@);
    b
}

/// Whether `s` equals the literal `p`.
pub fn eq_lit(s: &[char], p: &str) -> (b: bool)
    ensures
        b == (s@ == p@),
{
    let pv = chars_of(p);
    if pv.len() != s.len() {
        return false;
    }
    let b = starts_with_exec(s, pv.as_slice());
    assert(s@.subrange(0, s@.len() as int) == s@);
    b
}

/// First occurrence of `p` in `s`.
pub fn find_exec(s: &[char], p: &[char]) -> (r: Option<usize>)
    ensures
        r matches Some(k) ==> find(s@, p@) == Some(k as int),
        r is None ==> find(s@, p@) is None,
{
    if p.len() > s.len() {
        return None;
    }
    let last = s.len() - p.len();
    let mut i: usize = 0;
    loop
        invariant
            p@.len() <= s@.len(),
            last == s@.len() - p@.len(),
            i <= last,
            find(s@, p@) == find_from(s@, p@, i as int),
        decreases last - i,
    {
        if occurs_at_exec(s, p, i) {
            return Some(i);
        }
        if i == last {
            assert(find_from(s@, p@, i + 1) is None);
            return None;
        }
        i += 1;
    }
}

/// First occurrence of the literal `p` in `s`.
pub fn find_lit(s: &[char], p: &str) -> (r: Option<usize>)
    ensures
        r matches Some(k) ==> find(s@, p@) == Some(k as int),
        r is None ==> find(s@, p@) is None,
{
    let pv = chars_of(p);
    find_exec(s, pv.as_slice())
}

/// Whether the literal `p` occurs in `s`.
pub fn contains_lit(s: &[char], p: &str) -> (b: bool)
    ensures
        b == contains(s@, p@),
{
    find_lit(s, p).is_some()
}

/// Last occurrence of `c` in `s`.
pub fn rfind_char_exec(s: &[char], c: char) -> (r: Option<usize>)
    ensures
        r matches Some(k) ==> rfind_char(s@, c) == k as int && k < s@.len() && s@[k as int] == c,
        r is None ==> rfind_char(s@, c) == -1,
{
    let mut i = s.len();
    while i > 0
        invariant
            i <= s@.len(),
            forall|j: int| i <= j < s@.len() ==> s@[j] != c,
        decreases i,
    {
        if s[i - 1] == c {
            proof {
                lemma_rfind_char_unique(s@, c, i - 1);
            }
            return Some(i - 1);
        }
        i -= 1;
    }
    proof {
        lemma_rfind_char_unique(s@, c, -1);
    }
    None
}

/// First occurrence of `c` in `s`, or `s.len()`.
pub fn first_char_exec(s: &[char], c: char) -> (r: usize)
    ensures
        r as int == first_char(s@, c),
{
    let mut i: usize = 0;
    while i < s.len()
        invariant
            i <= s@.len(),
            forall|j: int| 0 <= j < i ==> s@[j] != c,
        decreases s@.len() - i,
    {
        if s[i] == c {
            proof {
                lemma_first_char_unique(s@, c, i as int);
            }
            return i;
        }
        i += 1;
    }
    proof {
        lemma_first_char_unique(s@, c, s@.len() as int);
    }
    i
}

/// The last `/`-separated segment of `s`.
pub fn last_seg_exec(s: &[char]) -> (r: Vec<char>)
    ensures
        r@ == last_seg(s@),
{
    proof {
        lemma_rfind_char(s@, '/');
    }
    let n = s.len();
    let start = match rfind_char_exec(s, '/') {
        Some(k) => k + 1,
        None => 0,
    };
    let r = slice_chars(s, start, n);
    assert(r@ == s@.skip(start as int));
    r
}

/// The first `/`-separated segment of `s`.
pub fn first_seg_exec(s: &[char]) -> (r: Vec<char>)
    ensures
        r@ == first_seg(s@),
{
    proof {
        lemma_first_char(s@, '/');
    }
    let k = first_char_exec(s, '/');
    slice_chars(s, 0, k)
}

/// Extension of a file name.
pub fn name_ext_exec(name: &[char]) -> (r: Option<Vec<char>>)
    ensures
        r matches Some(v) ==> name_ext(name@) == Some(v@),
        r is None ==> name_ext(name@) is None,
{
    proof {
        lemma_rfind_char(name@, '.');
    }
    let n = name.len();
    match rfind_char_exec(name, '.') {
        Some(k) if k > 0 => {
            assert(k < n);
            let v = slice_chars(name, k + 1, n);
            Some(v)
        },
        _ => None,
    }
}

/// Stem of a file name.
pub fn name_stem_exec(name: &[char]) -> (r: Vec<char>)
    ensures
        r@ == name_stem(name@),
{
    proof {
        lemma_rfind_char(name@, '.');
    }
    match rfind_char_exec(name, '.') {
        Some(k) if k > 0 => slice_chars(name, 0, k),
        _ => {
            let r = slice_chars(name, 0, name.len());
            assert(r@ == name@);
            r
        },
    }
}

/// Extension of the last segment of a path.
pub fn extension_exec(path: &[char]) -> (r: Option<Vec<char>>)
    ensures
        r matches Some(v) ==> extension(path@) == Some(v@),
        r is None ==> extension(path@) is None,
{
    let name = last_seg_exec(path);
    name_ext_exec(name.as_slice())
}

/// Stem of the last segment of a path.
pub fn file_stem_exec(path: &[char]) -> (r: Vec<char>)
    ensures
        r@ == file_stem(path@),
{
    let name = last_seg_exec(path);
    name_stem_exec(name.as_slice())
}

/// Whether the extension of `path` is the literal `e`.
pub fn ext_is(path: &[char], e: &str) -> (b: bool)
    ensures
        b == (extension(path@) == Some(e@)),
{
    match extension_exec(path) {
        Some(x) => eq_lit(x.as_slice(), e),
        None => false,
    }
}

pub fn is_ws_exec(c: char) -> (b: bool)
    ensures
        b == is_ws(c),
{
    let u = c as u32;
    (0x09 <= u && u <= 0x0d) || u == 0x20 || u == 0x85 || u == 0xa0 || u == 0x1680 || (0x2000
        <= u && u <= 0x200a) || u == 0x2028 || u == 0x2029 || u == 0x202f || u == 0x205f || u
        == 0x3000
}

proof fn lemma_lead_ws(s: Seq<char>, k: int)
    requires
        0 <= k <= s.len(),
        forall|j: int| 0 <= j < k ==> is_ws(s[j]),
        k < s.len() ==> !is_ws(s[k]),
    ensures
        lead_ws(s) == k,
    decreases s.len(),
{
    if s.len() > 0 && is_ws(s[0]) {
        assert forall|j: int| 0 <= j < k - 1 implies is_ws(s.drop_first()[j]) by {
            assert(is_ws(s[j + 1]));
        }
        lemma_lead_ws(s.drop_first(), k - 1);
    }
}

proof fn lemma_trail_ws(s: Seq<char>, k: int)
    requires
        0 <= k <= s.len(),
        forall|j: int| s.len() - k <= j < s.len() ==> is_ws(s[j]),
        k < s.len() ==> !is_ws(s[s.len() - k - 1]),
    ensures
        trail_ws(s) == k,
    decreases s.len(),
{
    if s.len() > 0 && is_ws(s.last()) {
        lemma_trail_ws(s.drop_last(), k - 1);
    }
}

/// `s` without leading and trailing white space.
pub fn trim_exec(s: &[char]) -> (r: Vec<char>)
    ensures
        r@ == trim(s@),
{
    let mut a: usize = 0;
    while a < s.len() && is_ws_exec(s[a])
        invariant
            a <= s@.len(),
            forall|j: int| 0 <= j < a ==> is_ws(s@[j]),
        decreases s@.len() - a,
    {
        a += 1;
    }
    proof {
        lemma_lead_ws(s@, a as int);
    }
    let mut b: usize = s.len();
    while b > a && is_ws_exec(s[b - 1])
        invariant
            a <= b <= s@.len(),
            forall|j: int| b <= j < s@.len() ==> is_ws(s@[j]),
        decreases b,
    {
        b -= 1;
    }
    proof {
        let t = s@.skip(a as int);
        assert forall|j: int| t.len() - (s@.len() - b) <= j < t.len() implies is_ws(t[j]) by {
            assert(t[j] == s@[a + j]);
        }
        if s@.len() - b < t.len() {
            assert(t[t.len() - (s@.len() - b) - 1] == s@[b - 1]);
        }
        lemma_trail_ws(t, s@.len() - b);
        assert(t.take(t.len() - (s@.len() - b)) == s@.subrange(a as int, b as int));
    }
    slice_chars(s, a, b)
}

pub fn lower_char_exec(c: char) -> (r: char)
    ensures
        r == lower_char(c),
{
    if 'A' <= c && c <= 'Z' {
        let u = (c as u32) + 32;
        assert(0x61 <= u <= 0x7a);
        let r = char_from_ascii(u as u8);
        r
    } else {
        c
    }
}

/// The character with an ASCII code.
pub fn char_from_ascii(b: u8) -> (c: char)
    requires
        b < 128,
    ensures
        c as u32 == b as u32,
{
    b as char
}

pub fn ascii_lower_exec(s: &[char]) -> (r: Vec<char>)
    ensures
        r@ == ascii_lower(s@),
{
    let mut r: Vec<char> = Vec::new();
    let mut i: usize = 0;
    while i < s.len()
        invariant
            i <= s@.len(),
            r@.len() == i,
            forall|j: int| 0 <= j < i ==> r@[j] == lower_char(s@[j]),
        decreases s@.len() - i,
    {
        r.push(lower_char_exec(s[i]));
        i += 1;
    }
    assert(r@ == ascii_lower(s@));
    r
}

/// Everything after the first `/`, when there is one.
pub fn after_first_slash_exec(s: &[char]) -> (r: Option<Vec<char>>)
    ensures
        r matches Some(v) ==> after_first_slash(s@) == Some(v@),
        r is None ==> after_first_slash(s@) is None,
{
    let n = s.len();
    let k = first_char_exec(s, '/');
    proof {
        lemma_first_char(s@, '/');
    }
    if k < n {
        Some(slice_chars(s, k + 1, n))
    } else {
        None
    }
}

} // verus!
