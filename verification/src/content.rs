//! Text from bytes: lossy decoding and line splitting.

use crate::text::{first_char, lemma_first_char, lemma_first_char_unique, slice_chars};
use vstd::prelude::*;
use vstd::utf8::{decode_utf8, valid_utf8};

verus! {

// ------------------------------------------------------------ lossy text
// ------------------------------------------------------------ lossy text

/// What `String::from_utf8_lossy` makes of a byte sequence.
pub uninterp spec fn utf8_lossy(b: Seq<u8>) -> Seq<char>;

/// `String::from_utf8_lossy`: bytes to text, invalid sequences replaced by
/// U+FFFD. Claimed: the result is `utf8_lossy` of the bytes, and valid UTF-8
/// decodes unchanged.
#[verifier::external_body]
pub(crate) fn lossy(b: &[u8]) -> (s: String)
    ensures
        s@ == utf8_lossy(b@),
        valid_utf8(b@) ==> s@ == decode_utf8(b@),
{
    String::from_utf8_lossy(b).into_owned()
}

// ------------------------------------------------------------ lines

/// `s` split at every line feed.
pub open spec fn lines(s: Seq<char>) -> Seq<Seq<char>>
    decreases s.len(),
{
    if first_char(s, '\n') >= s.len() {
        seq![s]
    } else {
        proof {
            lemma_first_char(s, '\n');
        }
        seq![s.take(first_char(s, '\n'))] + lines(s.skip(first_char(s, '\n') + 1))
    }
}

pub open spec fn views(v: Seq<Vec<char>>) -> Seq<Seq<char>> {
    v.map_values(|x: Vec<char>| x@)
}

/// The lines of a text.
pub fn split_lines(s: &[char]) -> (ls: Vec<Vec<char>>)
    ensures
        views(ls@) == lines(s@),
{
    let n = s.len();
    let mut out: Vec<Vec<char>> = Vec::new();
    let mut start: usize = 0;
    assert(s@.skip(0) == s@);
    assert(views(out@) == Seq::<Seq<char>>::empty());
    loop
        invariant
            n == s@.len(),
            start <= n,
            views(out@) + lines(s@.skip(start as int)) == lines(s@),
        decreases n - start,
    {
        let mut j = start;
        while j < n && s[j] != '\n'
            invariant
                start <= j <= n == s@.len(),
                forall|k: int| start <= k < j ==> s@[k] != '\n',
            decreases n - j,
        {
            j += 1;
        }
        let ghost t = s@.skip(start as int);
        proof {
            lemma_first_char_unique(t, '\n', j - start);
        }
        let piece = slice_chars(s, start, j);
        assert(piece@ == t.take(j - start));
        let ghost old_out = out@;
        out.push(piece);
        assert(views(out@) == views(old_out).push(piece@));
        if j == n {
            assert(lines(t) == seq![t]);
            assert(t == t.take(j - start));
            assert(views(out@) == views(old_out) + lines(t));
            assert(s@.skip(0) == s@);
            return out;
        }
        assert(t.skip(j - start + 1) == s@.skip(j + 1));
        assert(lines(t) == seq![piece@] + lines(s@.skip(j + 1)));
        assert(views(out@) + lines(s@.skip(j + 1)) == views(old_out) + lines(t));
        start = j + 1;
    }
}

} // verus!
