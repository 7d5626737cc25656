//! Literal substring containment on character sequences.

use vstd::prelude::*;

verus! {

/// `needle` stands in `haystack` at position `at`, character for character.
pub open spec fn occurs_at(haystack: Seq<char>, needle: Seq<char>, at: int) -> bool {
    &&& 0 <= at
    &&& at + needle.len() <= haystack.len()
    &&& haystack.subrange(at, at + needle.len()) == needle
}

/// `needle` occurs somewhere in `haystack` as a contiguous run of characters.
/// The match is exact: no case folding and no normalization.
pub open spec fn contains_seq(haystack: Seq<char>, needle: Seq<char>) -> bool {
    exists|at: int| occurs_at(haystack, needle, at)
}

/// The empty sequence occurs in every sequence.
pub proof fn lemma_empty_needle_occurs(haystack: Seq<char>)
    ensures
        contains_seq(haystack, Seq::<char>::empty()),
{
    assert(haystack.subrange(0, 0) =~= Seq::<char>::empty());
    assert(occurs_at(haystack, Seq::<char>::empty(), 0));
}

/// A needle longer than the haystack occurs nowhere in it.
pub proof fn lemma_longer_needle_absent(haystack: Seq<char>, needle: Seq<char>)
    requires
        needle.len() > haystack.len(),
    ensures
        !contains_seq(haystack, needle),
{
}

/// Every sequence occurs in itself.
pub proof fn lemma_contains_itself(haystack: Seq<char>)
    ensures
        contains_seq(haystack, haystack),
{
    assert(haystack.subrange(0, haystack.len() as int) =~= haystack);
    assert(occurs_at(haystack, haystack, 0));
}

/// Whether `needle` stands in the window `text[lo..hi]` at offset `at` of the
/// window.
fn window_occurs_at(text: &Vec<char>, lo: usize, hi: usize, needle: &Vec<char>, at: usize) -> (found:
    bool)
    requires
        lo <= hi <= text@.len(),
        at + needle@.len() <= hi - lo,
    ensures
        found == occurs_at(text@.subrange(lo as int, hi as int), needle@, at as int),
{
    let ghost window = text@.subrange(lo as int, hi as int);
    let n: usize = needle.len();
    let mut k: usize = 0;
    while k < n
        invariant
            lo <= hi <= text@.len(),
            at + n <= hi - lo,
            n == needle@.len(),
            window == text@.subrange(lo as int, hi as int),
            0 <= k <= n,
            forall|j: int| 0 <= j < k ==> window[at + j] == needle@[j],
        decreases n - k,
    {
        if text[lo + at + k] != needle[k] {
            proof {
                let piece = window.subrange(at as int, at + n);
                assert(piece[k as int] == window[at + k]);
                assert(piece[k as int] != needle@[k as int]);
            }
            return false;
        }
        k += 1;
    }
    proof {
        assert(window.subrange(at as int, at + n) =~= needle@);
    }
    true
}

/// Whether `needle` occurs in the window `text[lo..hi]`.
pub fn window_contains(text: &Vec<char>, lo: usize, hi: usize, needle: &Vec<char>) -> (found: bool)
    requires
        lo <= hi <= text@.len(),
    ensures
        found == contains_seq(text@.subrange(lo as int, hi as int), needle@),
{
    let ghost window = text@.subrange(lo as int, hi as int);
    let n: usize = needle.len();
    let width: usize = hi - lo;
    if n > width {
        return false;
    }
    let last: usize = width - n;
    let mut at: usize = 0;
    loop
        invariant
            lo <= hi <= text@.len(),
            n == needle@.len(),
            width == hi - lo,
            n <= width,
            last == width - n,
            window == text@.subrange(lo as int, hi as int),
            0 <= at <= last,
            forall|p: int| 0 <= p < at ==> !occurs_at(window, needle@, p),
        decreases last - at,
    {
        if window_occurs_at(text, lo, hi, needle, at) {
            return true;
        }
        if at == last {
            return false;
        }
        at += 1;
    }
}

/// Whether `needle` occurs in `haystack` as a literal, case-sensitive
/// substring.
pub fn contains(haystack: &str, needle: &str) -> (found: bool)
    ensures
        found == contains_seq(haystack@, needle@),
{
    let text = crate::text::chars_of(haystack);
    let pattern = crate::text::chars_of(needle);
    assert(text@.subrange(0, text@.len() as int) =~= text@);
    window_contains(&text, 0, text.len(), &pattern)
}

} // verus!
