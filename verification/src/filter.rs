//! Filtering a text: every line that holds a pattern is left out, the others
//! are kept in their order, each followed by one separator.

use vstd::prelude::*;

use crate::error::SieveError;
use crate::lines::{
    all_lines, is_line_structured, join_lines, lemma_first_line_len, lemma_join_lines_structured,
    lemma_split_join, lemma_split_lines_are_lines, split_lines, NEWLINE,
};
use crate::pattern::{drops, pattern_bytes, should_drop};

verus! {

/// The lines that are kept: those of `lines` that hold no pattern, in their order.
pub open spec fn retained(lines: Seq<Seq<u8>>, patterns: Seq<Seq<u8>>) -> Seq<Seq<u8>> {
    lines.filter(|line: Seq<u8>| !drops(line, patterns))
}

/// What is written for `text`: its retained lines, each with a separator.
pub open spec fn filtered_text(text: Seq<u8>, patterns: Seq<Seq<u8>>) -> Seq<u8> {
    join_lines(retained(split_lines(text), patterns))
}

/// `out`, `lines_read` and `lines_removed` are what filtering `text` gives:
/// the text is line-structured, `out` holds its retained lines, every line of
/// it was read, and those that are not retained were removed.
pub open spec fn filters_to(
    text: Seq<u8>,
    patterns: Seq<Seq<u8>>,
    out: Seq<u8>,
    lines_read: int,
    lines_removed: int,
) -> bool {
    &&& is_line_structured(text)
    &&& out == filtered_text(text, patterns)
    &&& lines_read == split_lines(text).len()
    &&& lines_removed == split_lines(text).len() - retained(split_lines(text), patterns).len()
}

/// The result of filtering one text.
#[derive(Debug)]
pub struct Filtered {
    /// The text that remains.
    pub text: Vec<u8>,
    /// How many lines the input held.
    pub lines_read: u64,
    /// How many of them were left out.
    pub lines_removed: u64,
}

/// Where the line that starts at `from` ends: the index of the next separator,
/// or the length of `text` where none follows.
pub fn find_line_end(text: &[u8], from: usize) -> (end: usize)
    requires
        from <= text@.len(),
    ensures
        from <= end <= text@.len(),
        forall|j: int| from <= j < end ==> text@[j] != NEWLINE,
        end == text@.len() || text@[end as int] == NEWLINE,
{
    let n: usize = text.len();
    let mut end: usize = from;
    while end < n && text[end] != NEWLINE
        invariant
            n == text@.len(),
            from <= end <= n,
            forall|j: int| from <= j < end ==> text@[j] != NEWLINE,
        decreases n - end,
    {
        end += 1;
    }
    end
}

/// One more line: it joins the retained lines unless a pattern occurs in it.
pub proof fn lemma_retained_push(lines: Seq<Seq<u8>>, line: Seq<u8>, patterns: Seq<Seq<u8>>)
    ensures
        retained(lines.push(line), patterns) == if drops(line, patterns) {
            retained(lines, patterns)
        } else {
            retained(lines, patterns).push(line)
        },
{
    reveal(Seq::filter);
    assert(lines.push(line).drop_last() =~= lines);
}

/// Nothing that is retained holds a pattern, nothing is added, and what is
/// retained of lines are lines.
pub proof fn lemma_retained_properties(lines: Seq<Seq<u8>>, patterns: Seq<Seq<u8>>)
    ensures
        retained(lines, patterns).len() <= lines.len(),
        forall|i: int|
            0 <= i < retained(lines, patterns).len() ==> !drops(
                #[trigger] retained(lines, patterns)[i],
                patterns,
            ),
        all_lines(lines) ==> all_lines(retained(lines, patterns)),
    decreases lines.len(),
{
    if lines.len() == 0 {
        reveal(Seq::filter);
    } else {
        let front = lines.drop_last();
        lemma_retained_properties(front, patterns);
        assert(front.push(lines.last()) =~= lines);
        lemma_retained_push(front, lines.last(), patterns);
    }
}

/// Retaining twice retains what retaining once does.
pub proof fn lemma_retained_idempotent(lines: Seq<Seq<u8>>, patterns: Seq<Seq<u8>>)
    ensures
        retained(retained(lines, patterns), patterns) == retained(lines, patterns),
    decreases lines.len(),
{
    if lines.len() == 0 {
        reveal(Seq::filter);
    } else {
        let front = lines.drop_last();
        lemma_retained_idempotent(front, patterns);
        assert(front.push(lines.last()) =~= lines);
        lemma_retained_push(front, lines.last(), patterns);
        lemma_retained_push(retained(front, patterns), lines.last(), patterns);
    }
}

/// The lines of the filtered text are the retained lines of the input: the
/// input's lines in their order, without those that hold a pattern, none
/// twice and none moved.
pub proof fn lemma_filtered_lines(text: Seq<u8>, patterns: Seq<Seq<u8>>)
    ensures
        split_lines(filtered_text(text, patterns)) == retained(split_lines(text), patterns),
        is_line_structured(filtered_text(text, patterns)),
{
    lemma_split_lines_are_lines(text);
    lemma_retained_properties(split_lines(text), patterns);
    lemma_split_join(retained(split_lines(text), patterns));
    lemma_join_lines_structured(retained(split_lines(text), patterns));
}

/// Filtering is idempotent. Text that has been filtered can be filtered
/// again; the second pass with the same patterns leaves out no line and
/// returns the text as it got it.
pub proof fn lemma_filter_idempotent(text: Seq<u8>, patterns: Seq<Seq<u8>>)
    ensures
        is_line_structured(filtered_text(text, patterns)),
        retained(split_lines(filtered_text(text, patterns)), patterns) == split_lines(
            filtered_text(text, patterns),
        ),
        filtered_text(filtered_text(text, patterns), patterns) == filtered_text(text, patterns),
{
    lemma_filtered_lines(text, patterns);
    lemma_retained_idempotent(split_lines(text), patterns);
}

/// Filters `text` line by line.
///
/// Text that is not line-structured (it is not empty and holds no separator)
/// is refused with [`SieveError::Codec`]. Any other text is split at its
/// separators; a line is counted, and then either left out, when a pattern
/// occurs in it, or written with a separator behind it.
///
/// The lines of the result are the lines of `text` without those that were
/// left out, in the order they had, and the lines read are those removed and
/// those written.
pub fn filter_text(text: &[u8], patterns: &[String]) -> (r: Result<Filtered, SieveError>)
    ensures
        match r {
            Ok(f) => {
                &&& filters_to(
                    text@,
                    pattern_bytes(patterns@),
                    f.text@,
                    f.lines_read as int,
                    f.lines_removed as int,
                )
                &&& split_lines(f.text@) == retained(split_lines(text@), pattern_bytes(patterns@))
                &&& f.lines_read == f.lines_removed + split_lines(f.text@).len()
            },
            Err(e) => !is_line_structured(text@) && e == SieveError::Codec,
        },
{
    let n: usize = text.len();
    let mut out: Vec<u8> = Vec::new();
    let mut lines_read: u64 = 0;
    let mut lines_removed: u64 = 0;
    let mut pos: usize = 0;
    let ghost pats = pattern_bytes(patterns@);
    let ghost mut done: Seq<Seq<u8>> = Seq::empty();
    proof {
        reveal(Seq::filter);
        assert(text@.skip(0) =~= text@);
        assert(done + split_lines(text@) =~= split_lines(text@));
    }
    while pos < n
        invariant
            n == text@.len(),
            pos <= n,
            pats == pattern_bytes(patterns@),
            split_lines(text@) == done + split_lines(text@.skip(pos as int)),
            out@ == join_lines(retained(done, pats)),
            lines_read == done.len(),
            lines_removed == done.len() - retained(done, pats).len(),
            retained(done, pats).len() <= done.len() <= pos,
            pos > 0 ==> text@.contains(NEWLINE),
        decreases n - pos,
    {
        let end: usize = find_line_end(text, pos);
        if pos == 0 && end == n {
            return Err(SieveError::Codec);
        }
        let line: &[u8] = &text[pos..end];
        let ghost rest = text@.skip(pos as int);
        proof {
            assert forall|j: int| 0 <= j < end - pos implies rest[j] != NEWLINE by {
                assert(rest[j] == text@[pos + j]);
            }
            lemma_first_line_len(rest, end - pos);
            if end < n {
                assert(line@ =~= rest.take(end - pos));
                assert(rest.skip(end - pos + 1) =~= text@.skip(end + 1));
                assert(text@[end as int] == NEWLINE);
            } else {
                assert(line@ =~= rest);
                assert(text@.skip(n as int) =~= Seq::<u8>::empty());
            }
            lemma_retained_push(done, line@, pats);
        }
        lines_read += 1;
        if should_drop(line, patterns) {
            lines_removed += 1;
        } else {
            let ghost before = out@;
            out.extend_from_slice(line);
            out.push(NEWLINE);
            assert(out@ =~= before + line@ + seq![NEWLINE]);
            assert(retained(done, pats).push(line@).drop_last() =~= retained(done, pats));
        }
        pos = if end < n { end + 1 } else { n };
        proof {
            assert(done + (seq![line@] + split_lines(text@.skip(pos as int))) =~= done.push(line@)
                + split_lines(text@.skip(pos as int)));
            done = done.push(line@);
        }
    }
    proof {
        assert(text@.skip(n as int) =~= Seq::<u8>::empty());
        assert(done + Seq::<Seq<u8>>::empty() =~= done);
        lemma_filtered_lines(text@, pats);
    }
    Ok(Filtered { text: out, lines_read, lines_removed })
}

} // verus!
