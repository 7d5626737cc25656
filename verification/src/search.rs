//! The search itself: the lines of a text that contain a query.

use vstd::prelude::*;
use vstd::string::StrSliceExecFns;
use crate::lines::{line_bounds, lines_of, marks, marks_lines};
use crate::substring::{contains_seq, lemma_empty_needle_occurs, window_contains};
use crate::text::chars_of;

verus! {

/// The lines of `contents` in which `query` occurs, in the order in which they
/// stand in `contents`.
pub open spec fn matching_lines(query: Seq<char>, contents: Seq<char>) -> Seq<Seq<char>> {
    lines_of(contents).filter(|line: Seq<char>| contains_seq(line, query))
}

/// The character sequences of a list of string slices.
pub open spec fn views(slices: Seq<&str>) -> Seq<Seq<char>> {
    slices.map_values(|slice: &str| slice@)
}

/// `at` gives, for each element of `part`, a position of `whole` that holds
/// it, and these positions increase.
pub open spec fn embeds(part: Seq<Seq<char>>, whole: Seq<Seq<char>>, at: Seq<int>) -> bool {
    &&& at.len() == part.len()
    &&& forall|i: int| 0 <= i < at.len() ==> 0 <= #[trigger] at[i] < whole.len()
    &&& forall|i: int| 0 <= i < at.len() ==> whole[#[trigger] at[i]] == part[i]
    &&& forall|i: int, j: int| 0 <= i < j < at.len() ==> at[i] < at[j]
}

/// `part` can be had from `whole` by leaving elements out, without moving any.
pub open spec fn is_subsequence(part: Seq<Seq<char>>, whole: Seq<Seq<char>>) -> bool {
    exists|at: Seq<int>| embeds(part, whole, at)
}

/// The lines of `contents`, each a slice of it.
pub fn lines<'a>(contents: &'a str) -> (all: Vec<&'a str>)
    ensures
        views(all@) == lines_of(contents@),
{
    let text = chars_of(contents);
    let bounds = line_bounds(&text);
    let mut all: Vec<&'a str> = Vec::new();
    let count: usize = bounds.len();
    let mut i: usize = 0;
    while i < count
        invariant
            text@ == contents@,
            marks_lines(text@, bounds@),
            count == bounds@.len(),
            0 <= i <= count,
            all@.len() == i,
            forall|k: int| 0 <= k < i ==> (#[trigger] all@[k])@ == lines_of(contents@)[k],
        decreases count - i,
    {
        let (from, to) = bounds[i];
        assert(marks(text@, bounds@[i as int], lines_of(text@)[i as int]));
        all.push(contents.substring_char(from, to));
        i += 1;
    }
    assert(views(all@) =~= lines_of(contents@));
    all
}

/// The lines of `contents` that contain `query` as a literal, case-sensitive
/// substring, in the order in which they stand in `contents`. Each is a slice
/// of `contents`.
pub fn search<'a>(query: &str, contents: &'a str) -> (found: Vec<&'a str>)
    ensures
        views(found@) == matching_lines(query@, contents@),
{
    let text = chars_of(contents);
    let pattern = chars_of(query);
    let bounds = line_bounds(&text);
    let mut found: Vec<&'a str> = Vec::new();
    let count: usize = bounds.len();
    let ghost all = lines_of(contents@);
    let ghost keep = |line: Seq<char>| contains_seq(line, query@);
    let mut i: usize = 0;
    proof {
        reveal(Seq::filter);
        assert(views(found@) =~= all.take(0).filter(keep));
    }
    while i < count
        invariant
            text@ == contents@,
            pattern@ == query@,
            all == lines_of(contents@),
            keep == (|line: Seq<char>| contains_seq(line, query@)),
            marks_lines(text@, bounds@),
            count == bounds@.len(),
            0 <= i <= count,
            views(found@) == all.take(i as int).filter(keep),
        decreases count - i,
    {
        let (from, to) = bounds[i];
        let ghost before = found@;
        proof {
            assert(marks(text@, bounds@[i as int], all[i as int]));
            assert(all.take(i + 1) =~= all.take(i as int).push(all[i as int]));
            all.take(i as int).lemma_filter_push(all[i as int], keep);
        }
        if window_contains(&text, from, to, &pattern) {
            found.push(contents.substring_char(from, to));
            assert(views(found@) =~= views(before).push(all[i as int]));
        }
        i += 1;
    }
    assert(all.take(count as int) =~= all);
    found
}

/// With an empty query, every line of the text is found.
pub proof fn lemma_empty_query_finds_every_line(contents: Seq<char>)
    ensures
        matching_lines(Seq::<char>::empty(), contents) == lines_of(contents),
{
    let keep = |line: Seq<char>| contains_seq(line, Seq::<char>::empty());
    let all = lines_of(contents);
    assert forall|i: int| 0 <= i < all.len() implies keep(#[trigger] all[i]) by {
        lemma_empty_needle_occurs(all[i]);
    }
    lemma_filter_keeps_all(all, keep);
}

/// In an empty text, nothing is found.
pub proof fn lemma_empty_contents_finds_nothing(query: Seq<char>)
    ensures
        matching_lines(query, Seq::<char>::empty()) == Seq::<Seq<char>>::empty(),
{
    reveal(Seq::filter);
    assert(lines_of(Seq::<char>::empty()) =~= Seq::<Seq<char>>::empty());
}

/// What is found is a subsequence of the lines of the text: no line is found
/// twice or out of its place, and there are no more found lines than lines.
pub proof fn lemma_found_lines_keep_order(query: Seq<char>, contents: Seq<char>)
    ensures
        is_subsequence(matching_lines(query, contents), lines_of(contents)),
        matching_lines(query, contents).len() <= lines_of(contents).len(),
{
    let keep = |line: Seq<char>| contains_seq(line, query);
    lemma_filter_embeds(lines_of(contents), keep);
    lines_of(contents).lemma_filter_len(keep);
}

/// Every line that is found contains the query and is a line of the text, and
/// a line of the text is among those found exactly if it contains the query.
pub proof fn lemma_found_lines_are_the_matches(query: Seq<char>, contents: Seq<char>)
    ensures
        forall|i: int|
            0 <= i < matching_lines(query, contents).len() ==> contains_seq(
                #[trigger] matching_lines(query, contents)[i],
                query,
            ),
        forall|i: int|
            0 <= i < matching_lines(query, contents).len() ==> lines_of(contents).contains(
                #[trigger] matching_lines(query, contents)[i],
            ),
        forall|k: int|
            0 <= k < lines_of(contents).len() ==> (matching_lines(query, contents).contains(
                #[trigger] lines_of(contents)[k],
            ) <==> contains_seq(lines_of(contents)[k], query)),
{
    let keep = |line: Seq<char>| contains_seq(line, query);
    let all = lines_of(contents);
    let found = matching_lines(query, contents);
    lemma_filter_embeds(all, keep);
    let at = choose|at: Seq<int>| embeds(found, all, at);
    assert forall|i: int| 0 <= i < found.len() implies contains_seq(#[trigger] found[i], query)
        && all.contains(found[i]) by {
        all.lemma_filter_pred(keep, i);
        assert(all[at[i]] == found[i]);
    }
    assert forall|k: int| 0 <= k < all.len() implies (found.contains(#[trigger] all[k])
        <==> contains_seq(all[k], query)) by {
        if contains_seq(all[k], query) {
            all.lemma_filter_contains(keep, k);
        }
        if found.contains(all[k]) {
            let i = choose|i: int| 0 <= i < found.len() && found[i] == all[k];
            all.lemma_filter_pred(keep, i);
        }
    }
}

/// A filter that keeps every element changes nothing.
proof fn lemma_filter_keeps_all(all: Seq<Seq<char>>, keep: spec_fn(Seq<char>) -> bool)
    requires
        forall|i: int| 0 <= i < all.len() ==> keep(#[trigger] all[i]),
    ensures
        all.filter(keep) == all,
    decreases all.len(),
{
    reveal(Seq::filter);
    if all.len() > 0 {
        let front = all.drop_last();
        assert forall|i: int| 0 <= i < front.len() implies keep(#[trigger] front[i]) by {
            assert(front[i] == all[i]);
        }
        lemma_filter_keeps_all(front, keep);
        assert(front.push(all.last()) =~= all);
    }
}

/// What a filter keeps can be found again in the unfiltered sequence, at increasing
/// positions.
proof fn lemma_filter_embeds(all: Seq<Seq<char>>, keep: spec_fn(Seq<char>) -> bool)
    ensures
        is_subsequence(all.filter(keep), all),
    decreases all.len(),
{
    reveal(Seq::filter);
    if all.len() == 0 {
        assert(embeds(all.filter(keep), all, Seq::<int>::empty()));
    } else {
        let front = all.drop_last();
        lemma_filter_embeds(front, keep);
        let at = choose|at: Seq<int>| embeds(front.filter(keep), front, at);
        if keep(all.last()) {
            let longer = at.push(all.len() - 1);
            assert forall|i: int| 0 <= i < longer.len() implies all[#[trigger] longer[i]]
                == all.filter(keep)[i] by {
                if i < at.len() {
                    assert(front[at[i]] == front.filter(keep)[i]);
                }
            }
            assert forall|i: int, j: int| 0 <= i < j < longer.len() implies longer[i]
                < longer[j] by {
                assert(0 <= at[i] < front.len());
            }
            assert(embeds(all.filter(keep), all, longer));
        } else {
            assert forall|i: int| 0 <= i < at.len() implies all[#[trigger] at[i]] == all.filter(
                keep,
            )[i] by {
                assert(front[at[i]] == front.filter(keep)[i]);
            }
            assert(embeds(all.filter(keep), all, at));
        }
    }
}

} // verus!
