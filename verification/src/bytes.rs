//! Byte-level helpers: copying ranges, NUL-terminated strings and
//! fixed-width unsigned integers in either byte order.

use vstd::prelude::*;

verus! {

/// The bytes `s[a..b]`.
pub fn slice_bytes(s: &[u8], a: usize, b: usize) -> (r: Vec<u8>)
    requires
        a <= b <= s@.len(),
    ensures
        r@ == s@.subrange(a as int, b as int),
{
    let mut r: Vec<u8> = Vec::new();
    let mut i = a;
    while i < b
        invariant
            a <= i <= b <= s@.len(),
            r@ == s@.subrange(a as int, i as int),
        decreases b - i,
    {
        r.push(s[i]);
        assert(s@.subrange(a as int, i as int).push(s@[i as int]) == s@.subrange(
            a as int,
            i + 1,
        ));
        i += 1;
    }
    r
}

/// Index of the first NUL byte, or `s.len()`.
pub open spec fn nul_at(s: Seq<u8>) -> int
    decreases s.len(),
{
    if s.len() == 0 || s[0] == 0 {
        0
    } else {
        1 + nul_at(s.drop_first())
    }
}

proof fn lemma_nul_at(s: Seq<u8>, k: int)
    requires
        0 <= k <= s.len(),
        k < s.len() ==> s[k] == 0,
        forall|j: int| 0 <= j < k ==> s[j] != 0,
    ensures
        nul_at(s) == k,
    decreases s.len(),
{
    if s.len() > 0 && s[0] != 0 {
        assert forall|j: int| 0 <= j < k - 1 implies s.drop_first()[j] != 0 by {
            assert(s[j + 1] != 0);
        }
        lemma_nul_at(s.drop_first(), k - 1);
    }
}

/// The bytes of a NUL-terminated string: up to the first NUL, or all.
pub open spec fn cstr(s: Seq<u8>) -> Seq<u8> {
    s.take(nul_at(s))
}

pub fn cstr_exec(s: &[u8]) -> (r: Vec<u8>)
    ensures
        r@ == cstr(s@),
{
    let n = s.len();
    let mut i: usize = 0;
    while i < n && s[i] != 0
        invariant
            i <= n == s@.len(),
            forall|j: int| 0 <= j < i ==> s@[j] != 0,
        decreases n - i,
    {
        i += 1;
    }
    proof {
        lemma_nul_at(s@, i as int);
    }
    slice_bytes(s, 0, i)
}

/// Unsigned value of bytes stored least significant first.
pub open spec fn le_value(b: Seq<u8>) -> nat
    decreases b.len(),
{
    if b.len() == 0 {
        0
    } else {
        b[0] as nat + 256 * le_value(b.drop_first())
    }
}

/// Unsigned value of bytes stored most significant first.
pub open spec fn be_value(b: Seq<u8>) -> nat
    decreases b.len(),
{
    if b.len() == 0 {
        0
    } else {
        b.last() as nat + 256 * be_value(b.drop_last())
    }
}

/// The value of an ELF field: little-endian when `data` is 1, big-endian
/// otherwise.
pub open spec fn word(b: Seq<u8>, data: u8) -> nat {
    if data == 1 {
        le_value(b)
    } else {
        be_value(b)
    }
}

pub open spec fn pow256(n: nat) -> nat
    decreases n,
{
    if n == 0 {
        1
    } else {
        256 * pow256((n - 1) as nat)
    }
}

pub proof fn lemma_le_bound(b: Seq<u8>)
    ensures
        le_value(b) < pow256(b.len()),
    decreases b.len(),
{
    if b.len() > 0 {
        lemma_le_bound(b.drop_first());
        let r = le_value(b.drop_first());
        let p = pow256(b.drop_first().len());
        assert(b[0] as nat + 256 * r < 256 * p) by (nonlinear_arith)
            requires
                r < p,
                b[0] < 256,
        ;
    }
}

pub proof fn lemma_be_bound(b: Seq<u8>)
    ensures
        be_value(b) < pow256(b.len()),
    decreases b.len(),
{
    if b.len() > 0 {
        lemma_be_bound(b.drop_last());
        let r = be_value(b.drop_last());
        let p = pow256(b.drop_last().len());
        assert(b.last() as nat + 256 * r < 256 * p) by (nonlinear_arith)
            requires
                r < p,
                b.last() < 256,
        ;
    }
}

/// A field of `n` bytes holds a value below 256 to the `n`.
pub proof fn lemma_word_bound(b: Seq<u8>, data: u8)
    ensures
        word(b, data) < pow256(b.len()),
        b.len() == 2 ==> word(b, data) < 0x10000,
        b.len() == 4 ==> word(b, data) < 0x1_0000_0000,
        b.len() == 8 ==> word(b, data) < 0x1_0000_0000_0000_0000,
{
    lemma_le_bound(b);
    lemma_be_bound(b);
    reveal_with_fuel(pow256, 9);
}

proof fn lemma_pow256_8()
    ensures
        pow256(8) == 0x1_0000_0000_0000_0000,
{
    reveal_with_fuel(pow256, 9);
}

proof fn lemma_pow256_mono(a: nat, b: nat)
    requires
        a <= b,
    ensures
        pow256(a) <= pow256(b),
    decreases b,
{
    if a < b {
        lemma_pow256_mono(a, (b - 1) as nat);
    }
}

/// The value of `len` (at most 8) bytes of `s` at `start`.
pub fn read_word(s: &[u8], start: usize, len: usize, data: u8) -> (v: u64)
    requires
        len <= 8,
        start + len <= s@.len(),
    ensures
        v as nat == word(s@.subrange(start as int, start + len), data),
{
    let ghost b = s@.subrange(start as int, start + len);
    let n = s.len();
    proof {
        lemma_pow256_mono(len as nat, 8);
        lemma_pow256_8();
    }
    let mut acc: u64 = 0;
    if data == 1 {
        let mut j = len;
        while j > 0
            invariant
                j <= len <= 8,
                n == s@.len(),
                start + len <= s@.len(),
                b == s@.subrange(start as int, start + len),
                acc as nat == le_value(b.skip(j as int)),
                pow256(len as nat) <= 0x1_0000_0000_0000_0000,
            decreases j,
        {
            let ghost tail = b.skip(j as int);
            let ghost t2 = b.skip(j - 1);
            assert(t2.drop_first() == tail);
            assert(t2[0] == s@[start + j - 1]);
            proof {
                lemma_le_bound(t2);
                lemma_pow256_mono(t2.len(), len as nat);
            }
            let byte = s[start + j - 1];
            assert((acc as nat) * 256 + byte as nat == le_value(t2)) by (nonlinear_arith)
                requires
                    le_value(t2) == t2[0] as nat + 256 * le_value(tail),
                    acc as nat == le_value(tail),
                    byte == t2[0],
            ;
            acc = acc * 256 + byte as u64;
            j -= 1;
        }
        assert(b.skip(0) == b);
    } else {
        let mut j: usize = 0;
        while j < len
            invariant
                j <= len <= 8,
                n == s@.len(),
                start + len <= s@.len(),
                b == s@.subrange(start as int, start + len),
                acc as nat == be_value(b.take(j as int)),
                pow256(len as nat) <= 0x1_0000_0000_0000_0000,
            decreases len - j,
        {
            let ghost h = b.take(j as int);
            let ghost h2 = b.take(j + 1);
            assert(h2.drop_last() == h);
            assert(h2.last() == s@[start + j]);
            proof {
                lemma_be_bound(h2);
                lemma_pow256_mono(h2.len(), len as nat);
            }
            let byte = s[start + j];
            assert((acc as nat) * 256 + byte as nat == be_value(h2)) by (nonlinear_arith)
                requires
                    be_value(h2) == h2.last() as nat + 256 * be_value(h),
                    acc as nat == be_value(h),
                    byte == h2.last(),
            ;
            acc = acc * 256 + byte as u64;
            j += 1;
        }
        assert(b.take(len as int) == b);
    }
    acc
}

} // verus!
