//! Substitution of placeholders in the bytes of a page template.

use crate::bytes::append_bytes;
use vstd::prelude::*;

verus! {

/// Whether `text` begins with `pattern`.
pub open spec fn begins_with(text: Seq<u8>, pattern: Seq<u8>) -> bool {
    pattern.len() <= text.len() && text.take(pattern.len() as int) == pattern
}

/// `text` with every occurrence of `pattern` replaced by `with`. Occurrences
/// are found from left to right and do not overlap.
pub open spec fn replaced(text: Seq<u8>, pattern: Seq<u8>, with: Seq<u8>) -> Seq<u8>
    decreases text.len(),
{
    if pattern.len() == 0 || text.len() < pattern.len() {
        text
    } else if begins_with(text, pattern) {
        with + replaced(text.skip(pattern.len() as int), pattern, with)
    } else {
        seq![text[0]] + replaced(text.skip(1), pattern, with)
    }
}

/// `text` with its first occurrence of `pattern`, if it has one, replaced by
/// `with`.
pub open spec fn replaced_first(text: Seq<u8>, pattern: Seq<u8>, with: Seq<u8>) -> Seq<u8>
    decreases text.len(),
{
    if pattern.len() == 0 || text.len() < pattern.len() {
        text
    } else if begins_with(text, pattern) {
        with + text.skip(pattern.len() as int)
    } else {
        seq![text[0]] + replaced_first(text.skip(1), pattern, with)
    }
}

/// How many occurrences of `pattern` a replacement of all would replace.
pub open spec fn occurrences(text: Seq<u8>, pattern: Seq<u8>) -> nat
    decreases text.len(),
{
    if pattern.len() == 0 || text.len() < pattern.len() {
        0
    } else if begins_with(text, pattern) {
        1 + occurrences(text.skip(pattern.len() as int), pattern)
    } else {
        occurrences(text.skip(1), pattern)
    }
}

/// Whether `pattern` stands at the place `at` of `text`.
fn stands_at(text: &[u8], pattern: &[u8], at: usize) -> (r: bool)
    requires
        at <= text@.len(),
    ensures
        r == begins_with(text@.skip(at as int), pattern@),
{
    let n: usize = pattern.len();
    let len: usize = text.len();
    if len - at < n {
        return false;
    }
    let ghost rest = text@.skip(at as int);
    let mut k: usize = 0;
    while k < n
        invariant
            n == pattern@.len(),
            len == text@.len(),
            at + n <= len,
            k <= n,
            rest == text@.skip(at as int),
            forall|j: int| 0 <= j < k ==> text@[at + j] == pattern@[j],
        decreases n - k,
    {
        if text[at + k] != pattern[k] {
            assert(rest.take(n as int)[k as int] == text@[at + k]);
            return false;
        }
        k = k + 1;
    }
    assert(rest.take(n as int) =~= pattern@);
    true
}

/// Replaces every occurrence of `pattern` in `text` by `with`.
pub fn replace_all(text: &[u8], pattern: &[u8], with: &[u8]) -> (r: Vec<u8>)
    ensures
        r@ == replaced(text@, pattern@, with@),
{
    let n: usize = text.len();
    let m: usize = pattern.len();
    let mut out: Vec<u8> = Vec::new();
    let mut i: usize = 0;
    assert(text@.skip(0) =~= text@);
    while i < n
        invariant
            n == text@.len(),
            m == pattern@.len(),
            i <= n,
            out@ + replaced(text@.skip(i as int), pattern@, with@) == replaced(
                text@,
                pattern@,
                with@,
            ),
        decreases n - i,
    {
        let ghost rest = text@.skip(i as int);
        let ghost before = out@;
        if m > 0 && stands_at(text, pattern, i) {
            append_bytes(&mut out, with);
            assert(rest.skip(m as int) =~= text@.skip(i + m));
            assert(out@ + replaced(text@.skip(i + m), pattern@, with@) =~= before + replaced(
                rest,
                pattern@,
                with@,
            ));
            i = i + m;
        } else {
            out.push(text[i]);
            assert(rest.skip(1) =~= text@.skip(i + 1));
            assert(rest[0] == text@[i as int]);
            proof {
                if m > 0 && n - i >= m {
                    assert(out@ + replaced(text@.skip(i + 1), pattern@, with@) =~= before
                        + replaced(rest, pattern@, with@));
                } else {
                    assert(replaced(rest, pattern@, with@) == rest);
                    assert(replaced(rest.skip(1), pattern@, with@) == rest.skip(1));
                    assert(out@ + rest.skip(1) =~= before + rest);
                }
            }
            i = i + 1;
        }
    }
    assert(text@.skip(n as int) =~= Seq::<u8>::empty());
    assert(out@ + Seq::<u8>::empty() =~= out@);
    out
}

/// Replaces the first occurrence of `pattern` in `text`, if there is one, by
/// `with`.
pub fn replace_first(text: &[u8], pattern: &[u8], with: &[u8]) -> (r: Vec<u8>)
    ensures
        r@ == replaced_first(text@, pattern@, with@),
{
    let n: usize = text.len();
    let m: usize = pattern.len();
    let mut out: Vec<u8> = Vec::new();
    let mut i: usize = 0;
    assert(text@.skip(0) =~= text@);
    while i < n
        invariant
            n == text@.len(),
            m == pattern@.len(),
            i <= n,
            out@ + replaced_first(text@.skip(i as int), pattern@, with@) == replaced_first(
                text@,
                pattern@,
                with@,
            ),
        decreases n - i,
    {
        let ghost rest = text@.skip(i as int);
        let ghost before = out@;
        if m > 0 && stands_at(text, pattern, i) {
            append_bytes(&mut out, with);
            let tail = vstd::slice::slice_subrange(text, i + m, n);
            append_bytes(&mut out, tail);
            assert(rest.skip(m as int) =~= text@.subrange(i + m, n as int));
            assert(out@ =~= before + replaced_first(rest, pattern@, with@));
            return out;
        } else {
            out.push(text[i]);
            assert(rest.skip(1) =~= text@.skip(i + 1));
            assert(rest[0] == text@[i as int]);
            proof {
                if m > 0 && n - i >= m {
                    assert(out@ + replaced_first(text@.skip(i + 1), pattern@, with@) =~= before
                        + replaced_first(rest, pattern@, with@));
                } else {
                    assert(replaced_first(rest, pattern@, with@) == rest);
                    assert(replaced_first(rest.skip(1), pattern@, with@) == rest.skip(1));
                    assert(out@ + rest.skip(1) =~= before + rest);
                }
            }
            i = i + 1;
        }
    }
    assert(text@.skip(n as int) =~= Seq::<u8>::empty());
    assert(out@ + Seq::<u8>::empty() =~= out@);
    out
}

/// Counts the occurrences of `pattern` in `text`.
pub fn count_occurrences(text: &[u8], pattern: &[u8]) -> (r: usize)
    ensures
        r == occurrences(text@, pattern@),
{
    let n: usize = text.len();
    let m: usize = pattern.len();
    let mut count: usize = 0;
    let mut i: usize = 0;
    assert(text@.skip(0) =~= text@);
    while i < n
        invariant
            n == text@.len(),
            m == pattern@.len(),
            i <= n,
            count <= i,
            count + occurrences(text@.skip(i as int), pattern@) == occurrences(text@, pattern@),
        decreases n - i,
    {
        let ghost rest = text@.skip(i as int);
        if m > 0 && stands_at(text, pattern, i) {
            assert(rest.skip(m as int) =~= text@.skip(i + m));
            count = count + 1;
            i = i + m;
        } else {
            assert(rest.skip(1) =~= text@.skip(i + 1));
            proof {
                if !(m > 0 && n - i >= m) {
                    assert(occurrences(rest, pattern@) == 0);
                    assert(occurrences(rest.skip(1), pattern@) == 0);
                }
            }
            i = i + 1;
        }
    }
    assert(text@.skip(n as int) =~= Seq::<u8>::empty());
    count
}

} // verus!
