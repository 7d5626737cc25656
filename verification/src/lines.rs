//! Splitting a text into lines.
//!
//! A line ends at a line feed, or at a carriage return directly followed by a
//! line feed. The terminator is not part of the line. A last line without a
//! terminator is a line as well, and keeps a carriage return at its end.

use vstd::prelude::*;

verus! {

/// The number of characters of `text` before its first line feed: the length
/// of `text` where it holds none.
pub open spec fn first_newline(text: Seq<char>) -> int
    decreases text.len(),
{
    if text.len() == 0 || text[0] == '\n' {
        0
    } else {
        1 + first_newline(text.drop_first())
    }
}

/// `line` without the carriage return at its end, if it has one.
pub open spec fn without_cr(line: Seq<char>) -> Seq<char> {
    if line.len() > 0 && line.last() == '\r' {
        line.drop_last()
    } else {
        line
    }
}

/// The lines of `text`, in order.
pub open spec fn lines_of(text: Seq<char>) -> Seq<Seq<char>>
    decreases text.len(),
{
    let k = first_newline(text);
    if text.len() == 0 {
        Seq::empty()
    } else if 0 <= k < text.len() {
        seq![without_cr(text.subrange(0, k))] + lines_of(text.subrange(k + 1, text.len() as int))
    } else {
        seq![text]
    }
}

/// `first_newline` is a position of `text` or its length, no line feed stands
/// before it, and a line feed stands at it where it is a position.
pub proof fn lemma_first_newline(text: Seq<char>)
    ensures
        0 <= first_newline(text) <= text.len(),
        forall|j: int| 0 <= j < first_newline(text) ==> text[j] != '\n',
        first_newline(text) < text.len() ==> text[first_newline(text)] == '\n',
    decreases text.len(),
{
    if text.len() == 0 || text[0] == '\n' {
    } else {
        let rest = text.drop_first();
        lemma_first_newline(rest);
        assert forall|j: int| 0 <= j < first_newline(text) implies text[j] != '\n' by {
            if j > 0 {
                assert(text[j] == rest[j - 1]);
            }
        }
        if first_newline(text) < text.len() {
            assert(text[first_newline(text)] == rest[first_newline(rest)]);
        }
    }
}

/// The position described by `lemma_first_newline` is the only one of its
/// kind.
pub proof fn lemma_first_newline_is(text: Seq<char>, k: int)
    requires
        0 <= k <= text.len(),
        forall|j: int| 0 <= j < k ==> text[j] != '\n',
        k < text.len() ==> text[k] == '\n',
    ensures
        first_newline(text) == k,
{
    lemma_first_newline(text);
    let f = first_newline(text);
    if f < k {
        assert(text[f] == '\n');
    } else if k < f {
        assert(text[k] == '\n');
    }
}

/// No line holds a line feed.
pub proof fn lemma_lines_hold_no_newline(text: Seq<char>)
    ensures
        forall|i: int, j: int|
            0 <= i < lines_of(text).len() && 0 <= j < lines_of(text)[i].len() ==> lines_of(
                text,
            )[i][j] != '\n',
    decreases text.len(),
{
    lemma_first_newline(text);
    let k = first_newline(text);
    if text.len() == 0 {
    } else if k < text.len() {
        let rest = text.subrange(k + 1, text.len() as int);
        let head = without_cr(text.subrange(0, k));
        lemma_lines_hold_no_newline(rest);
        assert forall|i: int, j: int|
            0 <= i < lines_of(text).len() && 0 <= j < lines_of(text)[i].len() implies lines_of(
            text,
        )[i][j] != '\n' by {
            if i == 0 {
                assert(lines_of(text)[0] == head);
                assert(head[j] == text[j]);
            } else {
                assert(lines_of(text)[i] == lines_of(rest)[i - 1]);
            }
        }
    } else {
    }
}

/// A text has at most as many lines as characters.
pub proof fn lemma_lines_len(text: Seq<char>)
    ensures
        lines_of(text).len() <= text.len(),
    decreases text.len(),
{
    lemma_first_newline(text);
    let k = first_newline(text);
    if text.len() > 0 && k < text.len() {
        lemma_lines_len(text.subrange(k + 1, text.len() as int));
    }
}

/// A text without a line feed is one line, unless it is empty.
pub proof fn lemma_single_line(text: Seq<char>)
    requires
        text.len() > 0,
        forall|j: int| 0 <= j < text.len() ==> text[j] != '\n',
    ensures
        lines_of(text) == seq![text],
{
    lemma_first_newline_is(text, text.len() as int);
}

/// Whether `(from, to)` marks the characters `text[from..to]`, and these are
/// `line`.
pub open spec fn marks(text: Seq<char>, bound: (usize, usize), line: Seq<char>) -> bool {
    &&& bound.0 <= bound.1 <= text.len()
    &&& text.subrange(bound.0 as int, bound.1 as int) == line
}

/// Whether `bounds` marks the lines of `text`, one pair of positions for each
/// line, in order.
pub open spec fn marks_lines(text: Seq<char>, bounds: Seq<(usize, usize)>) -> bool {
    &&& bounds.len() == lines_of(text).len()
    &&& forall|i: int| 0 <= i < bounds.len() ==> marks(text, #[trigger] bounds[i], lines_of(text)[i])
}

/// Where each line of `text` begins and ends.
pub fn line_bounds(text: &Vec<char>) -> (bounds: Vec<(usize, usize)>)
    ensures
        marks_lines(text@, bounds@),
{
    let len: usize = text.len();
    let mut bounds: Vec<(usize, usize)> = Vec::new();
    let mut start: usize = 0;
    let mut pos: usize = 0;
    let ghost mut done: Seq<Seq<char>> = Seq::empty();
    proof {
        assert(text@.subrange(0, len as int) =~= text@);
        assert(done + lines_of(text@) =~= lines_of(text@));
    }
    while pos < len
        invariant
            len == text@.len(),
            start <= pos <= len,
            forall|j: int| start <= j < pos ==> text@[j] != '\n',
            lines_of(text@) == done + lines_of(text@.subrange(start as int, len as int)),
            bounds@.len() == done.len(),
            forall|i: int| 0 <= i < bounds@.len() ==> marks(text@, #[trigger] bounds@[i], done[i]),
        decreases len - pos,
    {
        if text[pos] == '\n' {
            let end: usize = if pos > start && text[pos - 1] == '\r' {
                pos - 1
            } else {
                pos
            };
            proof {
                let rest = text@.subrange(start as int, len as int);
                let k = pos - start;
                lemma_first_newline_is(rest, k);
                let raw = rest.subrange(0, k);
                let line = without_cr(raw);
                assert(raw =~= text@.subrange(start as int, pos as int));
                assert(line =~= text@.subrange(start as int, end as int));
                assert(rest.subrange(k + 1, rest.len() as int) =~= text@.subrange(
                    pos + 1,
                    len as int,
                ));
                assert(lines_of(rest) == seq![line] + lines_of(
                    text@.subrange(pos + 1, len as int),
                ));
                assert(done + (seq![line] + lines_of(text@.subrange(pos + 1, len as int)))
                    =~= done.push(line) + lines_of(text@.subrange(pos + 1, len as int)));
                done = done.push(line);
            }
            bounds.push((start, end));
            start = pos + 1;
        }
        pos += 1;
    }
    if start < len {
        proof {
            let rest = text@.subrange(start as int, len as int);
            lemma_single_line(rest);
            assert(done + seq![rest] =~= done.push(rest));
            done = done.push(rest);
        }
        bounds.push((start, len));
    } else {
        proof {
            assert(done + Seq::<Seq<char>>::empty() =~= done);
        }
    }
    bounds
}

} // verus!
