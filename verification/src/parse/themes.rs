//! Themes: the engines are the subdirectory names with a trailing
//! `-<version>` stripped; no engine table.

use crate::fsio::Entry;
use crate::order::{
    codes, lemma_codes_injective, lemma_lex_irreflexive, lemma_lex_total, lemma_lex_transitive,
    str_lt,
};
use crate::text::{chars_of, last_seg, last_seg_exec, push_char, slice_chars, string_of};
use vstd::prelude::*;

verus! {

/// Index at which an engine name loses its `-<digit>...` version suffix.
pub open spec fn engine_cut(s: Seq<char>, i: int) -> int
    decreases s.len() - i,
{
    if i < 0 || i >= s.len() {
        s.len() as int
    } else if s[i] == '-' && i + 1 < s.len() && '0' <= s[i + 1] && s[i + 1] <= '9' {
        i
    } else {
        engine_cut(s, i + 1)
    }
}

/// A theme engine's name from its subdirectory: cut at the first `-`
/// followed by a digit (`gtk-3.0` is `gtk`).
pub open spec fn engine_stem(name: Seq<char>) -> Seq<char> {
    name.take(engine_cut(name, 0))
}

pub fn engine_stem_exec(name: &[char]) -> (r: Vec<char>)
    ensures
        r@ == engine_stem(name@),
{
    let n = name.len();
    let mut i: usize = 0;
    while i < n
        invariant
            n == name@.len(),
            i <= n,
            engine_cut(name@, 0) == engine_cut(name@, i as int),
        decreases n - i,
    {
        if name[i] == '-' && i + 1 < n && '0' <= name[i + 1] && name[i + 1] <= '9' {
            return slice_chars(name, 0, i);
        }
        i += 1;
    }
    slice_chars(name, 0, n)
}

/// Engine names of the subdirectories in a listing, in listing order
/// (names that are not UTF-8 are skipped).
pub open spec fn stems(es: Seq<Entry>) -> Seq<Seq<char>>
    decreases es.len(),
{
    if es.len() == 0 {
        Seq::empty()
    } else {
        let r = stems(es.drop_last());
        if es.last().is_dir && es.last().utf8 {
            r.push(engine_stem(last_seg(es.last().path@)))
        } else {
            r
        }
    }
}

/// Strictly ascending in string order.
pub open spec fn ascending(l: Seq<Seq<char>>) -> bool {
    forall|i: int, j: int| 0 <= i < j < l.len() ==> str_lt(#[trigger] l[i], #[trigger] l[j])
}

/// `l` holds exactly the elements of `s`.
pub open spec fn same_elems(l: Seq<Seq<char>>, s: Seq<Seq<char>>) -> bool {
    forall|x: Seq<char>| l.contains(x) <==> s.contains(x)
}

/// The distinct engine names of a listing, ascending.
pub open spec fn engine_list(es: Seq<Entry>) -> Seq<Seq<char>> {
    choose|l: Seq<Seq<char>>| ascending(l) && same_elems(l, stems(es))
}

/// `l` joined with commas.
pub open spec fn join(l: Seq<Seq<char>>) -> Seq<char>
    decreases l.len(),
{
    if l.len() == 0 {
        Seq::empty()
    } else if l.len() == 1 {
        l[0]
    } else {
        join(l.drop_last()) + seq![','] + l.last()
    }
}

/// A theme's kind: its distinct engine names, ascending, comma-separated.
pub open spec fn theme_kind(es: Seq<Entry>) -> Seq<char> {
    join(engine_list(es))
}

proof fn lemma_str_lt_irreflexive(a: Seq<char>)
    ensures
        !str_lt(a, a),
{
    lemma_lex_irreflexive(codes(a));
}

proof fn lemma_str_lt_total(a: Seq<char>, b: Seq<char>)
    ensures
        a == b || str_lt(a, b) || str_lt(b, a),
{
    lemma_lex_total(codes(a), codes(b));
    if codes(a) == codes(b) {
        lemma_codes_injective(a, b);
    }
}

proof fn lemma_str_lt_transitive(a: Seq<char>, b: Seq<char>, c: Seq<char>)
    requires
        str_lt(a, b),
        str_lt(b, c),
    ensures
        str_lt(a, c),
{
    lemma_lex_transitive(codes(a), codes(b), codes(c));
}

/// Two ascending lists with the same elements are equal.
proof fn lemma_ascending_unique(l1: Seq<Seq<char>>, l2: Seq<Seq<char>>)
    requires
        ascending(l1),
        ascending(l2),
        forall|x: Seq<char>| l1.contains(x) <==> l2.contains(x),
    ensures
        l1 == l2,
    decreases l1.len() + l2.len(),
{
    if l1.len() == 0 {
        if l2.len() > 0 {
            assert(l2.contains(l2[0]));
        }
        assert(l1 =~= l2);
    } else if l2.len() == 0 {
        assert(l1.contains(l1[0]));
    } else {
        let a = l1[0];
        let b = l2[0];
        assert(l1.contains(a));
        assert(l2.contains(b));
        let ia = choose|i: int| 0 <= i < l2.len() && l2[i] == a;
        let ib = choose|i: int| 0 <= i < l1.len() && l1[i] == b;
        if a != b {
            assert(ia > 0);
            assert(ib > 0);
            assert(str_lt(b, a));
            assert(str_lt(a, b));
            lemma_str_lt_transitive(a, b, a);
            lemma_str_lt_irreflexive(a);
        }
        let t1 = l1.drop_first();
        let t2 = l2.drop_first();
        assert forall|x: Seq<char>| t1.contains(x) <==> t2.contains(x) by {
            if t1.contains(x) {
                let i = choose|i: int| 0 <= i < t1.len() && t1[i] == x;
                assert(l1[i + 1] == x);
                assert(str_lt(a, x));
                assert(l1.contains(x));
                let j = choose|j: int| 0 <= j < l2.len() && l2[j] == x;
                if j == 0 {
                    lemma_str_lt_irreflexive(a);
                }
                assert(t2[j - 1] == x);
            }
            if t2.contains(x) {
                let i = choose|i: int| 0 <= i < t2.len() && t2[i] == x;
                assert(l2[i + 1] == x);
                assert(str_lt(b, x));
                assert(l2.contains(x));
                let j = choose|j: int| 0 <= j < l1.len() && l1[j] == x;
                if j == 0 {
                    lemma_str_lt_irreflexive(b);
                }
                assert(t1[j - 1] == x);
            }
        }
        lemma_ascending_unique(t1, t2);
        assert(l1 == seq![a] + t1);
        assert(l2 == seq![b] + t2);
    }
}

fn str_lt_chars(a: &Vec<char>, b: &Vec<char>) -> (r: bool)
    ensures
        r == str_lt(a@, b@),
{
    let sa = string_of(a.as_slice());
    let sb = string_of(b.as_slice());
    crate::order::str_lt_exec(&sa, &sb)
}

/// Inserts `x` into an ascending list unless present.
fn insert_sorted(l: &mut Vec<Vec<char>>, x: Vec<char>)
    requires
        ascending(crate::content::views(old(l)@)),
    ensures
        ascending(crate::content::views(final(l)@)),
        forall|y: Seq<char>| crate::content::views(final(l)@).contains(y) <==> (
        crate::content::views(old(l)@).contains(y) || y == x@),
{
    let ghost v0 = crate::content::views(l@);
    let mut p: usize = 0;
    while p < l.len() && str_lt_chars(&l[p], &x)
        invariant
            p <= l@.len(),
            v0 == crate::content::views(l@),
            forall|i: int| 0 <= i < p ==> str_lt(#[trigger] v0[i], x@),
        decreases l@.len() - p,
    {
        p += 1;
    }
    if p < l.len() && crate::text::eq_exec(l[p].as_slice(), x.as_slice()) {
        assert(v0[p as int] == x@);
        return;
    }
    proof {
        if p < l@.len() {
            assert(!str_lt(v0[p as int], x@));
            lemma_str_lt_total(v0[p as int], x@);
            assert(str_lt(x@, v0[p as int]));
        }
    }
    let ghost xv = x@;
    l.insert(p, x);
    let ghost v1 = crate::content::views(l@);
    assert(v1 == v0.insert(p as int, xv));
    proof {
        assert forall|i: int, j: int| 0 <= i < j < v1.len() implies str_lt(
            #[trigger] v1[i],
            #[trigger] v1[j],
        ) by {
            if j < p {
                assert(v1[i] == v0[i] && v1[j] == v0[j]);
            } else if j == p {
                assert(v1[i] == v0[i]);
            } else if i == p {
                assert(v1[j] == v0[j - 1]);
                if j - 1 > p {
                    assert(str_lt(v0[p as int], v0[j - 1]));
                    lemma_str_lt_transitive(xv, v0[p as int], v0[j - 1]);
                }
            } else if i < p {
                assert(v1[i] == v0[i] && v1[j] == v0[j - 1]);
                assert(str_lt(v0[i], xv));
                if j - 1 > i {
                } else {
                }
            } else {
                assert(v1[i] == v0[i - 1] && v1[j] == v0[j - 1]);
            }
        }
        assert forall|y: Seq<char>| v1.contains(y) <==> (v0.contains(y) || y == xv) by {
            if v1.contains(y) {
                let k = choose|k: int| 0 <= k < v1.len() && v1[k] == y;
                if k < p {
                    assert(v0[k] == y);
                } else if k > p {
                    assert(v0[k - 1] == y);
                }
            }
            if v0.contains(y) {
                let k = choose|k: int| 0 <= k < v0.len() && v0[k] == y;
                if k < p {
                    assert(v1[k] == y);
                } else {
                    assert(v1[k + 1] == y);
                }
            }
            if y == xv {
                assert(v1[p as int] == y);
            }
        }
    }
}

proof fn lemma_stems_push(es: Seq<Entry>, i: int)
    requires
        0 <= i < es.len(),
    ensures
        stems(es.take(i + 1)) == if es[i].is_dir && es[i].utf8 {
            stems(es.take(i)).push(engine_stem(last_seg(es[i].path@)))
        } else {
            stems(es.take(i))
        },
{
    assert(es.take(i + 1).drop_last() == es.take(i));
}

/// The kind of a theme from the listing of its directory.
pub fn kind(es: &Vec<Entry>) -> (k: String)
    ensures
        k@ == theme_kind(es@),
{
    let mut l: Vec<Vec<char>> = Vec::new();
    let mut i: usize = 0;
    while i < es.len()
        invariant
            i <= es@.len(),
            ascending(crate::content::views(l@)),
            same_elems(crate::content::views(l@), stems(es@.take(i as int))),
        decreases es@.len() - i,
    {
        proof {
            lemma_stems_push(es@, i as int);
        }
        let e = &es[i];
        if e.is_dir && e.utf8 {
            let p = chars_of(e.path.as_str());
            let name = last_seg_exec(p.as_slice());
            let st = engine_stem_exec(name.as_slice());
            let ghost sv = st@;
            let ghost before = stems(es@.take(i as int));
            insert_sorted(&mut l, st);
            proof {
                assert forall|x: Seq<char>| crate::content::views(l@).contains(x) <==> before.push(
                    sv,
                ).contains(x) by {
                    if before.push(sv).contains(x) {
                        let k = choose|k: int| 0 <= k < before.push(sv).len() && before.push(sv)[k] == x;
                        if k < before.len() {
                            assert(before[k] == x);
                        }
                    }
                    if before.contains(x) {
                        let k = choose|k: int| 0 <= k < before.len() && before[k] == x;
                        assert(before.push(sv)[k] == x);
                    }
                    if x == sv {
                        assert(before.push(sv)[before.len() as int] == x);
                    }
                }
            }
        }
        i += 1;
    }
    assert(es@.take(es@.len() as int) == es@);
    let ghost lv = crate::content::views(l@);
    proof {
        let c = choose|c: Seq<Seq<char>>| ascending(c) && same_elems(c, stems(es@));
        assert(ascending(lv) && same_elems(lv, stems(es@)));
        lemma_ascending_unique(c, lv);
    }
    join_exec(&l)
}

fn join_exec(l: &Vec<Vec<char>>) -> (s: String)
    ensures
        s@ == join(crate::content::views(l@)),
{
    let ghost v = crate::content::views(l@);
    let mut s = String::new();
    let mut i: usize = 0;
    while i < l.len()
        invariant
            i <= l@.len(),
            v == crate::content::views(l@),
            s@ == join(v.take(i as int)),
        decreases l@.len() - i,
    {
        assert(v.take(i + 1).drop_last() == v.take(i as int));
        assert(v.take(i + 1).last() == v[i as int]);
        if i > 0 {
            push_char(&mut s, ',');
        } else {
            assert(v.take(1) == seq![v[0]]);
        }
        let w = &l[i];
        let mut j: usize = 0;
        let ghost base = s@;
        while j < w.len()
            invariant
                j <= w@.len(),
                s@ == base + w@.take(j as int),
            decreases w@.len() - j,
        {
            push_char(&mut s, w[j]);
            assert(w@.take(j + 1) == w@.take(j as int).push(w@[j as int]));
            j += 1;
        }
        assert(w@.take(w@.len() as int) == w@);
        assert(v[i as int] == w@);
        if i == 0 {
            assert(s@ == w@);
        }
        i += 1;
    }
    assert(v.take(v.len() as int) == v);
    s
}

} // verus!
