//! Orders: lexicographic order of strings and of paths, and a merge sort
//! of records by their key.

use vstd::prelude::*;
use vstd::multiset::Multiset;

verus! {

/// Lexicographic order of integer sequences; a proper prefix comes first.
pub open spec fn lex_lt(a: Seq<int>, b: Seq<int>) -> bool
    decreases a.len(),
{
    if b.len() == 0 {
        false
    } else if a.len() == 0 {
        true
    } else if a[0] != b[0] {
        a[0] < b[0]
    } else {
        lex_lt(a.drop_first(), b.drop_first())
    }
}

pub proof fn lemma_lex_irreflexive(a: Seq<int>)
    ensures
        !lex_lt(a, a),
    decreases a.len(),
{
    if a.len() > 0 {
        lemma_lex_irreflexive(a.drop_first());
    }
}

pub proof fn lemma_lex_transitive(a: Seq<int>, b: Seq<int>, c: Seq<int>)
    requires
        lex_lt(a, b),
        lex_lt(b, c),
    ensures
        lex_lt(a, c),
    decreases a.len(),
{
    if a.len() > 0 && b.len() > 0 && c.len() > 0 && a[0] == b[0] && b[0] == c[0] {
        lemma_lex_transitive(a.drop_first(), b.drop_first(), c.drop_first());
    }
}

pub proof fn lemma_lex_total(a: Seq<int>, b: Seq<int>)
    ensures
        a == b || lex_lt(a, b) || lex_lt(b, a),
    decreases a.len(),
{
    if a.len() > 0 && b.len() > 0 && a[0] == b[0] {
        lemma_lex_total(a.drop_first(), b.drop_first());
        if a.drop_first() == b.drop_first() {
            assert(a == seq![a[0]] + a.drop_first());
            assert(b == seq![b[0]] + b.drop_first());
        }
    } else if a.len() == 0 && b.len() == 0 {
        assert(a == b);
    }
}

pub proof fn lemma_lex_asym(a: Seq<int>, b: Seq<int>)
    ensures
        !(lex_lt(a, b) && lex_lt(b, a)),
{
    if lex_lt(a, b) && lex_lt(b, a) {
        lemma_lex_transitive(a, b, a);
        lemma_lex_irreflexive(a);
    }
}

/// `a` is at most `b` in the lexicographic order.
pub open spec fn lex_le(a: Seq<int>, b: Seq<int>) -> bool {
    !lex_lt(b, a)
}

pub proof fn lemma_le_transitive(a: Seq<int>, b: Seq<int>, c: Seq<int>)
    requires
        lex_le(a, b),
        lex_le(b, c),
    ensures
        lex_le(a, c),
{
    lemma_lex_total(a, b);
    lemma_lex_total(b, c);
    lemma_lex_asym(a, c);
    if lex_lt(c, a) {
        if a == b {
        } else if b == c {
        } else {
            lemma_lex_transitive(a, b, c);
        }
    }
}

/// Character codes.
pub open spec fn codes(s: Seq<char>) -> Seq<int> {
    s.map_values(|c: char| (c as u32) as int)
}

/// Character codes for path order: the separator before every other
/// character (code 0x2f is `/`), so that paths order segment by segment.
pub open spec fn path_codes(s: Seq<char>) -> Seq<int> {
    s.map_values(|c: char| if c as u32 == 0x2f { 0 } else { (c as u32) as int + 1 })
}

/// String order (`String`'s `Ord`: by code point).
pub open spec fn str_lt(a: Seq<char>, b: Seq<char>) -> bool {
    lex_lt(codes(a), codes(b))
}

/// Path order (`Path`'s `Ord` for paths without empty segments: segment by
/// segment).
pub open spec fn path_lt(a: Seq<char>, b: Seq<char>) -> bool {
    lex_lt(path_codes(a), path_codes(b))
}

proof fn lemma_char_inj(x: char, y: char)
    requires
        x as u32 == y as u32,
    ensures
        x == y,
{
}

pub proof fn lemma_codes_injective(a: Seq<char>, b: Seq<char>)
    requires
        codes(a) == codes(b),
    ensures
        a == b,
{
    assert(codes(a).len() == a.len());
    assert forall|i: int| 0 <= i < a.len() implies a[i] == b[i] by {
        assert(codes(a)[i] == codes(b)[i]);
        assert(codes(a)[i] == (a[i] as u32) as int);
        assert(codes(b)[i] == (b[i] as u32) as int);
        assert(a[i] as u32 == b[i] as u32);
        lemma_char_inj(a[i], b[i]);
    }
    assert(a =~= b);
}

proof fn lemma_lex_shift(a: Seq<int>, b: Seq<int>, i: int)
    requires
        0 <= i <= a.len(),
        i <= b.len(),
        a.take(i) == b.take(i),
    ensures
        lex_lt(a, b) == lex_lt(a.skip(i), b.skip(i)),
    decreases i,
{
    if i > 0 {
        assert(a[0] == a.take(i)[0]);
        assert(b[0] == b.take(i)[0]);
        assert(a.drop_first().take(i - 1) == a.take(i).drop_first());
        assert(b.drop_first().take(i - 1) == b.take(i).drop_first());
        lemma_lex_shift(a.drop_first(), b.drop_first(), i - 1);
        assert(a.drop_first().skip(i - 1) == a.skip(i));
        assert(b.drop_first().skip(i - 1) == b.skip(i));
    } else {
        assert(a.skip(0) == a);
        assert(b.skip(0) == b);
    }
}

/// Compares two code sequences given element-wise by `ka` and `kb`.
fn lex_lt_chars(a: &[char], b: &[char], slash_low: bool) -> (r: bool)
    ensures
        r == (if slash_low {
            path_lt(a@, b@)
        } else {
            str_lt(a@, b@)
        }),
{
    let ghost ka = if slash_low {
        path_codes(a@)
    } else {
        codes(a@)
    };
    let ghost kb = if slash_low {
        path_codes(b@)
    } else {
        codes(b@)
    };
    let mut i: usize = 0;
    while i < a.len() && i < b.len() && (a[i] as u32) == (b[i] as u32)
        invariant
            i <= a@.len(),
            i <= b@.len(),
            ka.len() == a@.len(),
            kb.len() == b@.len(),
            ka == (if slash_low { path_codes(a@) } else { codes(a@) }),
            kb == (if slash_low { path_codes(b@) } else { codes(b@) }),
            ka.take(i as int) == kb.take(i as int),
        decreases a@.len() - i,
    {
        proof {
            if slash_low {
                assert(path_codes(a@)[i as int] == (if a@[i as int] as u32 == 0x2f {
                    0
                } else {
                    (a@[i as int] as u32) as int + 1
                }));
                assert(path_codes(b@)[i as int] == (if b@[i as int] as u32 == 0x2f {
                    0
                } else {
                    (b@[i as int] as u32) as int + 1
                }));
            } else {
                assert(codes(a@)[i as int] == (a@[i as int] as u32) as int);
                assert(codes(b@)[i as int] == (b@[i as int] as u32) as int);
            }
        }
        assert(ka[i as int] == kb[i as int]);
        assert(ka.take(i + 1) == ka.take(i as int).push(ka[i as int]));
        assert(kb.take(i + 1) == kb.take(i as int).push(kb[i as int]));
        i += 1;
    }
    proof {
        lemma_lex_shift(ka, kb, i as int);
    }
    if i >= b.len() {
        return false;
    }
    if i >= a.len() {
        return true;
    }
    let ca = a[i];
    let cb = b[i];
    let x: u64 = if slash_low && ca as u32 == 0x2f {
        0
    } else if slash_low {
        (ca as u32) as u64 + 1
    } else {
        (ca as u32) as u64
    };
    let y: u64 = if slash_low && cb as u32 == 0x2f {
        0
    } else if slash_low {
        (cb as u32) as u64 + 1
    } else {
        (cb as u32) as u64
    };
    assert(ka.skip(i as int)[0] == ka[i as int]);
    assert(kb.skip(i as int)[0] == kb[i as int]);
    assert(a@[i as int] == ca);
    assert(b@[i as int] == cb);
    proof {
        if slash_low {
            assert(path_codes(a@)[i as int] == (if a@[i as int] as u32 == 0x2f {
                0
            } else {
                (a@[i as int] as u32) as int + 1
            }));
            assert(path_codes(b@)[i as int] == (if b@[i as int] as u32 == 0x2f {
                0
            } else {
                (b@[i as int] as u32) as int + 1
            }));
        } else {
            assert(codes(a@)[i as int] == (a@[i as int] as u32) as int);
            assert(codes(b@)[i as int] == (b@[i as int] as u32) as int);
        }
    }
    assert(ka[i as int] == x);
    assert(kb[i as int] == y);
    assert(x != y);
    x < y
}

pub fn str_lt_exec(a: &String, b: &String) -> (r: bool)
    ensures
        r == str_lt(a@, b@),
{
    let av = crate::text::chars_of(a.as_str());
    let bv = crate::text::chars_of(b.as_str());
    lex_lt_chars(av.as_slice(), bv.as_slice(), false)
}

pub fn path_lt_exec(a: &String, b: &String) -> (r: bool)
    ensures
        r == path_lt(a@, b@),
{
    let av = crate::text::chars_of(a.as_str());
    let bv = crate::text::chars_of(b.as_str());
    lex_lt_chars(av.as_slice(), bv.as_slice(), true)
}

// ------------------------------------------------------------ sorting

/// Records ordered by a key.
pub trait Keyed: Sized {
    spec fn key(&self) -> Seq<int>;

    /// Whether `self` comes strictly before `other`.
    fn before(&self, other: &Self) -> (b: bool)
        ensures
            b == lex_lt(self.key(), other.key()),
    ;
}

/// Sorted by key, ascending.
pub open spec fn sorted<T: Keyed>(s: Seq<T>) -> bool {
    forall|i: int, j: int| 0 <= i < j < s.len() ==> lex_le(#[trigger] s[i].key(), #[trigger] s[j].key())
}

/// Every element of `s` is at most `top`.
pub open spec fn all_le<T: Keyed>(s: Seq<T>, top: Seq<int>) -> bool {
    forall|i: int| 0 <= i < s.len() ==> lex_le(#[trigger] s[i].key(), top)
}

/// Whether a record has key `k`.
pub open spec fn key_is<T: Keyed>(k: Seq<int>) -> spec_fn(T) -> bool {
    |x: T| x.key() == k
}

/// The records of `s` with key `k`, in their order in `s`.
pub open spec fn with_key<T: Keyed>(s: Seq<T>, k: Seq<int>) -> Seq<T> {
    s.filter(key_is::<T>(k))
}

/// `r` holds the records of `v` with each key in the order `v` has them:
/// records with equal keys keep their order.
pub open spec fn stable<T: Keyed>(r: Seq<T>, v: Seq<T>) -> bool {
    forall|k: Seq<int>| #[trigger] with_key(r, k) == with_key(v, k)
}

proof fn lemma_with_key_prepend<T: Keyed>(x: T, s: Seq<T>, k: Seq<int>)
    ensures
        with_key(seq![x] + s, k) == if x.key() == k {
            seq![x] + with_key(s, k)
        } else {
            with_key(s, k)
        },
{
    s.lemma_filter_prepend(x, key_is::<T>(k));
    assert(Seq::<T>::empty() + with_key(s, k) =~= with_key(s, k));
}

proof fn lemma_with_key_push<T: Keyed>(s: Seq<T>, x: T, k: Seq<int>)
    ensures
        with_key(s.push(x), k) == if x.key() == k {
            with_key(s, k).push(x)
        } else {
            with_key(s, k)
        },
{
    s.lemma_filter_push(x, key_is::<T>(k));
}

proof fn lemma_with_key_add<T: Keyed>(a: Seq<T>, b: Seq<T>, k: Seq<int>)
    ensures
        with_key(a + b, k) == with_key(a, k) + with_key(b, k),
{
    Seq::filter_distributes_over_add(a, b, key_is::<T>(k));
}

/// A sequence where no record has key `k` has none with it.
proof fn lemma_with_key_none<T: Keyed>(s: Seq<T>, k: Seq<int>)
    requires
        forall|i: int| 0 <= i < s.len() ==> (#[trigger] s[i]).key() != k,
    ensures
        with_key(s, k).len() == 0,
{
    if with_key(s, k).len() > 0 {
        let e = with_key(s, k)[0];
        s.lemma_filter_pred(key_is::<T>(k), 0);
        assert(with_key(s, k).contains(e));
        s.lemma_filter_contains_rev(key_is::<T>(k), e);
        let i = choose|i: int| 0 <= i < s.len() && s[i] == e;
        assert(s[i].key() == k);
    }
}

/// A record of `s` is among those of `s` with its key.
proof fn lemma_with_key_has<T: Keyed>(s: Seq<T>, i: int)
    requires
        0 <= i < s.len(),
    ensures
        with_key(s, s[i].key()).len() > 0,
{
    s.lemma_filter_contains(key_is::<T>(s[i].key()), i);
}

proof fn lemma_pop_multiset<T>(s: Seq<T>)
    requires
        s.len() > 0,
    ensures
        s.to_multiset() == s.drop_last().to_multiset().insert(s.last()),
{
    broadcast use vstd::seq_lib::group_to_multiset_ensures;

    assert(s.drop_last().push(s.last()) == s);
}

/// Merges two sorted vectors into one sorted vector; of records with equal
/// keys, those of `a` come first, each side in its order.
fn merge<T: Keyed>(a: Vec<T>, b: Vec<T>) -> (r: Vec<T>)
    requires
        sorted(a@),
        sorted(b@),
    ensures
        sorted(r@),
        r@.to_multiset() == a@.to_multiset().add(b@.to_multiset()),
        forall|k: Seq<int>| #[trigger] with_key(r@, k) == with_key(a@, k) + with_key(b@, k),
{
    broadcast use vstd::seq_lib::group_to_multiset_ensures;

    let ghost total = a@.to_multiset().add(b@.to_multiset());
    let ghost a0 = a@;
    let ghost b0 = b@;
    let mut a = a;
    let mut b = b;
    // `down` holds the merged elements, largest first; `up` is the same in
    // ascending order, and `at`, `bt` the parts of `a` and `b` merged.
    let mut down: Vec<T> = Vec::new();
    let ghost mut up: Seq<T> = Seq::empty();
    let ghost mut at: Seq<T> = Seq::empty();
    let ghost mut bt: Seq<T> = Seq::empty();
    while a.len() > 0 || b.len() > 0
        invariant
            sorted(a@),
            sorted(b@),
            forall|i: int, j: int|
                0 <= i < j < down@.len() ==> lex_le(#[trigger] down@[j].key(), #[trigger] down@[i].key()),
            down@.len() > 0 ==> all_le(a@, down@.last().key()) && all_le(b@, down@.last().key()),
            down@.to_multiset().add(a@.to_multiset()).add(b@.to_multiset()) == total,
            a0 == a@ + at,
            b0 == b@ + bt,
            up.len() == down@.len(),
            forall|i: int| 0 <= i < up.len() ==> #[trigger] up[i] == down@[down@.len() - 1 - i],
            forall|k: Seq<int>| #[trigger] with_key(up, k) == with_key(at, k) + with_key(bt, k),
            forall|k: Seq<int>| #[trigger] with_key(at, k).len() > 0 ==> with_key(b@, k).len() == 0,
        decreases a@.len() + b@.len(),
    {
        let take_b = if b.len() == 0 {
            false
        } else if a.len() == 0 {
            true
        } else {
            !b[b.len() - 1].before(&a[a.len() - 1])
        };
        let ghost old_a = a@;
        let ghost old_b = b@;
        let ghost old_down = down@;
        let ghost old_up = up;
        let ghost old_at = at;
        let ghost old_bt = bt;
        let x = if take_b {
            b.pop().unwrap()
        } else {
            a.pop().unwrap()
        };
        proof {
            up = seq![x] + old_up;
            if take_b {
                bt = seq![x] + old_bt;
                assert(old_b == b@.push(x));
                assert(b0 == b@ + bt);
                lemma_pop_multiset(old_b);
                assert(x == old_b.last());
                // x is the largest remaining element
                assert forall|i: int| 0 <= i < a@.len() implies lex_le(
                    #[trigger] a@[i].key(),
                    x.key(),
                ) by {
                    assert(a@[i] == old_a[i]);
                    if i < old_a.len() - 1 {
                        assert(lex_le(old_a[i].key(), old_a.last().key()));
                    } else {
                        lemma_lex_irreflexive(old_a[i].key());
                    }
                    lemma_le_transitive(a@[i].key(), old_a.last().key(), x.key());
                }
                assert forall|i: int| 0 <= i < b@.len() implies lex_le(
                    #[trigger] b@[i].key(),
                    x.key(),
                ) by {
                    assert(b@[i] == old_b[i]);
                }
                // of records with x's key, none of `a` was merged yet
                assert forall|k: Seq<int>| #[trigger] with_key(up, k) == with_key(at, k) + with_key(bt, k) by {
                    lemma_with_key_prepend(x, old_up, k);
                    lemma_with_key_prepend(x, old_bt, k);
                    if x.key() == k {
                        lemma_with_key_has(old_b, old_b.len() - 1);
                        assert(with_key(old_at, k).len() == 0);
                        assert(with_key(at, k) =~= Seq::<T>::empty());
                        assert(with_key(up, k) =~= with_key(at, k) + with_key(bt, k));
                    } else {
                        assert(with_key(up, k) =~= with_key(at, k) + with_key(bt, k));
                    }
                }
                assert forall|k: Seq<int>| #[trigger] with_key(at, k).len() > 0 implies with_key(b@, k).len()
                    == 0 by {
                    lemma_with_key_push(b@, x, k);
                }
            } else {
                at = seq![x] + old_at;
                assert(old_a == a@.push(x));
                assert(a0 == a@ + at);
                lemma_pop_multiset(old_a);
                assert(x == old_a.last());
                assert forall|i: int| 0 <= i < b@.len() implies lex_le(
                    #[trigger] b@[i].key(),
                    x.key(),
                ) by {
                    assert(b@[i] == old_b[i]);
                    if i < old_b.len() - 1 {
                        assert(lex_le(old_b[i].key(), old_b.last().key()));
                    } else {
                        lemma_lex_irreflexive(old_b[i].key());
                    }
                    if old_a.len() > 0 {
                        lemma_lex_total(x.key(), old_b.last().key());
                        lemma_lex_asym(x.key(), old_b.last().key());
                    }
                    lemma_le_transitive(b@[i].key(), old_b.last().key(), x.key());
                }
                assert forall|i: int| 0 <= i < a@.len() implies lex_le(
                    #[trigger] a@[i].key(),
                    x.key(),
                ) by {
                    assert(a@[i] == old_a[i]);
                }
                assert forall|k: Seq<int>| #[trigger] with_key(up, k) == with_key(at, k) + with_key(bt, k) by {
                    lemma_with_key_prepend(x, old_up, k);
                    lemma_with_key_prepend(x, old_at, k);
                    assert(with_key(up, k) =~= with_key(at, k) + with_key(bt, k));
                }
                // every record of `b` comes strictly before x
                assert forall|i: int| 0 <= i < b@.len() implies (#[trigger] b@[i]).key() != x.key() by {
                    assert(b@[i] == old_b[i]);
                    if i < old_b.len() - 1 {
                        assert(lex_le(old_b[i].key(), old_b.last().key()));
                    }
                    lemma_lex_total(old_b[i].key(), old_b.last().key());
                    if old_b[i].key() != old_b.last().key() {
                        lemma_lex_transitive(old_b[i].key(), old_b.last().key(), x.key());
                    }
                    lemma_lex_irreflexive(x.key());
                }
                lemma_with_key_none(b@, x.key());
                assert forall|k: Seq<int>| #[trigger] with_key(at, k).len() > 0 implies with_key(b@, k).len()
                    == 0 by {
                    lemma_with_key_prepend(x, old_at, k);
                }
            }
            if old_down.len() > 0 {
                if take_b {
                    assert(lex_le(old_b.last().key(), old_down.last().key()));
                } else {
                    assert(lex_le(old_a.last().key(), old_down.last().key()));
                }
            }
        }
        down.push(x);
        proof {
            assert forall|i: int, j: int|
                0 <= i < j < down@.len() implies lex_le(
                #[trigger] down@[j].key(),
                #[trigger] down@[i].key(),
            ) by {
                if j == down@.len() - 1 {
                    if i < old_down.len() - 1 {
                        assert(lex_le(old_down.last().key(), old_down[i].key()));
                        lemma_le_transitive(x.key(), old_down.last().key(), old_down[i].key());
                    }
                } else {
                    assert(down@[i] == old_down[i]);
                    assert(down@[j] == old_down[j]);
                }
            }
            assert(down@ == old_down.push(x));
            assert forall|i: int| 0 <= i < up.len() implies #[trigger] up[i] == down@[down@.len() - 1 - i] by {
                if i > 0 {
                    assert(up[i] == old_up[i - 1]);
                }
            }
            vstd::seq_lib::to_multiset_build(old_down, x);
            assert(down@.to_multiset() == old_down.to_multiset().insert(x));
        }
    }
    proof {
        assert(a0 =~= at);
        assert(b0 =~= bt);
    }
    // reverse `down` into ascending order
    let mut r: Vec<T> = Vec::new();
    let ghost full = down@;
    let ghost upf = up;
    let ghost mut rest: Seq<T> = up;
    while down.len() > 0
        invariant
            forall|i: int, j: int|
                0 <= i < j < down@.len() ==> lex_le(#[trigger] down@[j].key(), #[trigger] down@[i].key()),
            sorted(r@),
            r@.len() > 0 && down@.len() > 0 ==> lex_le(r@.last().key(), down@.last().key()),
            forall|i: int, j: int|
                0 <= i < r@.len() && 0 <= j < down@.len() ==> lex_le(#[trigger] r@[i].key(), #[trigger] down@[j].key()),
            down@.to_multiset().add(r@.to_multiset()) == total,
            r@ + rest == upf,
            rest.len() == down@.len(),
            forall|i: int| 0 <= i < rest.len() ==> #[trigger] rest[i] == down@[down@.len() - 1 - i],
        decreases down@.len(),
    {
        let ghost old_down = down@;
        let ghost old_r = r@;
        let ghost old_rest = rest;
        let x = down.pop().unwrap();
        proof {
            lemma_pop_multiset(old_down);
            assert(x == old_rest[0]);
            rest = old_rest.drop_first();
        }
        r.push(x);
        proof {
            assert forall|i: int, j: int| 0 <= i < j < r@.len() implies lex_le(
                #[trigger] r@[i].key(),
                #[trigger] r@[j].key(),
            ) by {
                if j == r@.len() - 1 {
                    assert(r@[i] == old_r[i]);
                    assert(lex_le(old_r[i].key(), old_down[old_down.len() - 1].key()));
                } else {
                    assert(r@[i] == old_r[i]);
                    assert(r@[j] == old_r[j]);
                }
            }
            assert forall|i: int, j: int|
                0 <= i < r@.len() && 0 <= j < down@.len() implies lex_le(
                #[trigger] r@[i].key(),
                #[trigger] down@[j].key(),
            ) by {
                assert(down@[j] == old_down[j]);
                if i == r@.len() - 1 {
                    assert(lex_le(old_down[old_down.len() - 1].key(), old_down[j].key()));
                } else {
                    assert(r@[i] == old_r[i]);
                }
            }
            assert(r@ == old_r.push(x));
            assert(r@ + rest =~= old_r + old_rest);
            assert forall|i: int| 0 <= i < rest.len() implies #[trigger] rest[i] == down@[down@.len() - 1 - i] by {
                assert(rest[i] == old_rest[i + 1]);
            }
            vstd::seq_lib::to_multiset_build(old_r, x);
            assert(r@.to_multiset() == old_r.to_multiset().insert(x));
        }
    }
    assert(down@.to_multiset() =~= Multiset::empty());
    proof {
        assert(r@ =~= upf);
    }
    r
}

/// Sorts records by key (merge sort); records with equal keys keep their
/// order.
pub fn sort_keyed<T: Keyed>(v: Vec<T>) -> (r: Vec<T>)
    ensures
        sorted(r@),
        r@.to_multiset() == v@.to_multiset(),
        stable(r@, v@),
    decreases v@.len(),
{
    broadcast use vstd::seq_lib::group_to_multiset_ensures;

    if v.len() <= 1 {
        return v;
    }
    let mut left = v;
    let mid = left.len() / 2;
    let ghost whole = left@;
    let right = left.split_off(mid);
    proof {
        assert(whole == left@ + right@);
        vstd::seq_lib::lemma_multiset_commutative(left@, right@);
    }
    let ghost lv = left@;
    let ghost rv = right@;
    let ls = sort_keyed(left);
    let rs = sort_keyed(right);
    let r = merge(ls, rs);
    proof {
        assert forall|k: Seq<int>| #[trigger] with_key(r@, k) == with_key(whole, k) by {
            lemma_with_key_add(lv, rv, k);
        }
    }
    r
}

} // verus!
