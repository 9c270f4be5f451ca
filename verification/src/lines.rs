//! Line structure of a byte stream: splitting at separators and joining back.
//!
//! A line is a run of bytes up to, and not including, the next separator. A
//! last run without a separator behind it is a line too, unless it is empty.

use vstd::prelude::*;

verus! {

/// The line separator, `\n`.
pub const NEWLINE: u8 = 0x0A;

/// The number of bytes before the first separator of `text`, or the length of
/// `text` where it holds none.
pub open spec fn first_line_len(text: Seq<u8>) -> nat
    decreases text.len(),
{
    if text.len() == 0 || text[0] == NEWLINE {
        0
    } else {
        1 + first_line_len(text.drop_first())
    }
}

/// The lines of `text`, in order, without their separators.
pub open spec fn split_lines(text: Seq<u8>) -> Seq<Seq<u8>>
    decreases text.len(),
{
    if text.len() == 0 {
        Seq::empty()
    } else {
        let n = first_line_len(text) as int;
        if n >= text.len() {
            seq![text]
        } else {
            seq![text.take(n)] + split_lines(text.skip(n + 1))
        }
    }
}

/// The text made of `lines`, each followed by one separator.
pub open spec fn join_lines(lines: Seq<Seq<u8>>) -> Seq<u8>
    decreases lines.len(),
{
    if lines.len() == 0 {
        Seq::empty()
    } else {
        join_lines(lines.drop_last()) + lines.last() + seq![NEWLINE]
    }
}

/// Text that can be read as lines: it is empty, or it holds a separator.
pub open spec fn is_line_structured(text: Seq<u8>) -> bool {
    text.len() == 0 || text.contains(NEWLINE)
}

/// `k` is where the first line of `text` ends: no separator before it, and a
/// separator or the end of `text` at it.
pub proof fn lemma_first_line_len(text: Seq<u8>, k: int)
    requires
        0 <= k <= text.len(),
        forall|j: int| 0 <= j < k ==> text[j] != NEWLINE,
        k == text.len() || text[k] == NEWLINE,
    ensures
        first_line_len(text) == k,
    decreases k,
{
    if k > 0 {
        let rest = text.drop_first();
        assert forall|j: int| 0 <= j < k - 1 implies rest[j] != NEWLINE by {
            assert(rest[j] == text[j + 1]);
        }
        lemma_first_line_len(rest, k - 1);
    }
}

/// The first line ends inside the text, at a separator or at the end, and
/// holds no separator.
pub proof fn lemma_first_line_bounds(text: Seq<u8>)
    ensures
        first_line_len(text) <= text.len(),
        first_line_len(text) < text.len() ==> text[first_line_len(text) as int] == NEWLINE,
        forall|j: int| 0 <= j < first_line_len(text) ==> text[j] != NEWLINE,
    decreases text.len(),
{
    if text.len() == 0 || text[0] == NEWLINE {
    } else {
        let rest = text.drop_first();
        lemma_first_line_bounds(rest);
        assert forall|j: int| 0 <= j < first_line_len(text) implies text[j] != NEWLINE by {
            if j > 0 {
                assert(text[j] == rest[j - 1]);
            }
        }
    }
}

/// A run of bytes that can stand as one line: it holds no separator.
pub open spec fn is_line(bytes: Seq<u8>) -> bool {
    !bytes.contains(NEWLINE)
}

/// Every element of `lines` can stand as one line.
pub open spec fn all_lines(lines: Seq<Seq<u8>>) -> bool {
    forall|i: int| 0 <= i < lines.len() ==> is_line(#[trigger] lines[i])
}

/// No line that comes out of splitting holds a separator, and there are at
/// most as many lines as bytes.
pub proof fn lemma_split_lines_are_lines(text: Seq<u8>)
    ensures
        all_lines(split_lines(text)),
        split_lines(text).len() <= text.len(),
    decreases text.len(),
{
    if text.len() > 0 {
        lemma_first_line_bounds(text);
        let n = first_line_len(text) as int;
        if n >= text.len() {
            assert(is_line(text));
        } else {
            let head = text.take(n);
            let tail = text.skip(n + 1);
            lemma_split_lines_are_lines(tail);
            assert(is_line(head)) by {
                assert forall|j: int| 0 <= j < head.len() implies head[j] != NEWLINE by {
                    assert(head[j] == text[j]);
                }
            }
            assert forall|i: int| 0 <= i < split_lines(text).len() implies is_line(
                #[trigger] split_lines(text)[i],
            ) by {
                if i > 0 {
                    assert(split_lines(text)[i] == split_lines(tail)[i - 1]);
                }
            }
        }
    }
}

/// Joining puts the first line, then a separator, then the rest.
pub proof fn lemma_join_lines_first(lines: Seq<Seq<u8>>)
    requires
        lines.len() > 0,
    ensures
        join_lines(lines) == lines.first() + seq![NEWLINE] + join_lines(lines.drop_first()),
    decreases lines.len(),
{
    if lines.len() == 1 {
        assert(lines.drop_last() =~= Seq::<Seq<u8>>::empty());
        assert(lines.drop_first() =~= Seq::<Seq<u8>>::empty());
        assert(join_lines(lines) =~= lines.first() + seq![NEWLINE] + join_lines(
            lines.drop_first(),
        ));
    } else {
        let front = lines.drop_last();
        lemma_join_lines_first(front);
        assert(front.first() == lines.first());
        assert(front.drop_first() =~= lines.drop_first().drop_last());
        assert(lines.drop_first().last() == lines.last());
        assert(join_lines(lines) =~= lines.first() + seq![NEWLINE] + join_lines(
            lines.drop_first(),
        ));
    }
}

/// Joined text is line-structured, whatever the lines are.
pub proof fn lemma_join_lines_structured(lines: Seq<Seq<u8>>)
    ensures
        is_line_structured(join_lines(lines)),
        lines.len() == 0 <==> join_lines(lines).len() == 0,
{
    if lines.len() > 0 {
        let text = join_lines(lines);
        assert(text[text.len() - 1] == NEWLINE);
    }
}

/// Splitting undoes joining: lines that hold no separator come back from the
/// joined text unchanged, in number and in order.
pub proof fn lemma_split_join(lines: Seq<Seq<u8>>)
    requires
        all_lines(lines),
    ensures
        split_lines(join_lines(lines)) == lines,
    decreases lines.len(),
{
    if lines.len() == 0 {
        assert(split_lines(join_lines(lines)) =~= lines);
    } else {
        let head = lines.first();
        let tail = lines.drop_first();
        let text = join_lines(lines);
        lemma_join_lines_first(lines);
        assert(is_line(head));
        assert forall|j: int| 0 <= j < head.len() implies text[j] != NEWLINE by {
            assert(text[j] == head[j]);
        }
        assert(text[head.len() as int] == NEWLINE);
        lemma_first_line_len(text, head.len() as int);
        assert(text.take(head.len() as int) =~= head);
        assert(text.skip(head.len() as int + 1) =~= join_lines(tail));
        assert forall|i: int| 0 <= i < tail.len() implies is_line(#[trigger] tail[i]) by {
            assert(tail[i] == lines[i + 1]);
        }
        lemma_split_join(tail);
        assert(seq![head] + tail =~= lines);
    }
}

} // verus!
