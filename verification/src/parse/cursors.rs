//! Cursor themes: a directory counts its files.

use crate::fsio::Entry;
use crate::profile::Cursor;
use vstd::prelude::*;

verus! {

/// The number of files (non-directories) in a listing.
pub open spec fn file_count(es: Seq<Entry>) -> nat
    decreases es.len(),
{
    if es.len() == 0 {
        0
    } else {
        file_count(es.drop_last()) + if es.last().is_dir {
            0nat
        } else {
            1nat
        }
    }
}

pub fn file_count_exec(es: &Vec<Entry>) -> (n: usize)
    ensures
        n as nat == file_count(es@),
{
    let mut n: usize = 0;
    let mut i: usize = 0;
    while i < es.len()
        invariant
            i <= es@.len(),
            n <= i,
            n as nat == file_count(es@.take(i as int)),
        decreases es@.len() - i,
    {
        assert(es@.take(i + 1).drop_last() == es@.take(i as int));
        if !es[i].is_dir {
            n += 1;
        }
        i += 1;
    }
    assert(es@.take(es@.len() as int) == es@);
    n
}

/// A cursor theme at `rel`, from the listing of its directory: none when
/// the directory holds no files.
pub fn parse(rel: &str, es: &Vec<Entry>, theme: String) -> (c: Option<Cursor>)
    ensures
        c matches Some(v) ==> v.path@ == rel@ && v.name@ == theme@ && v.count as nat == file_count(
            es@,
        ) && v.count > 0,
        c is None <==> file_count(es@) == 0,
{
    let count = file_count_exec(es);
    if count == 0 {
        return None;
    }
    Some(Cursor { path: String::from_str(rel), name: theme, count })
}

} // verus!
