//! The line filter: literal, case-sensitive substring matching on raw bytes.
//!
//! A pattern is text supplied by the caller; it is matched through its UTF-8
//! encoding against the raw bytes of a line. Nothing in a pattern is special:
//! no wildcard, no escape, no character class.

use vstd::prelude::*;
use vstd::utf8::encode_utf8;

verus! {

/// `pat` occurs in `line` starting at index `at`.
pub open spec fn occurs_at(line: Seq<u8>, pat: Seq<u8>, at: int) -> bool {
    &&& 0 <= at
    &&& at + pat.len() <= line.len()
    &&& line.subrange(at, at + pat.len()) == pat
}

/// `pat` occurs somewhere in `line` as a contiguous run of bytes.
pub open spec fn contains(line: Seq<u8>, pat: Seq<u8>) -> bool {
    exists|at: int| occurs_at(line, pat, at)
}

/// The byte strings that the patterns stand for, in the caller's order.
pub open spec fn pattern_bytes(patterns: Seq<String>) -> Seq<Seq<u8>> {
    Seq::new(patterns.len(), |k: int| encode_utf8(patterns[k]@))
}

/// A line is dropped when at least one pattern occurs in it.
pub open spec fn drops(line: Seq<u8>, patterns: Seq<Seq<u8>>) -> bool {
    exists|k: int| 0 <= k < patterns.len() && #[trigger] contains(line, patterns[k])
}

/// Only which patterns there are decides whether a line is dropped, not
/// their order or how often each is given; and with no patterns no line is
/// dropped.
pub proof fn lemma_drops_by_membership(line: Seq<u8>, a: Seq<Seq<u8>>, b: Seq<Seq<u8>>)
    ensures
        !drops(line, Seq::empty()),
        (forall|p: Seq<u8>| a.contains(p) <==> b.contains(p)) ==> drops(line, a) == drops(line, b),
{
    if forall|p: Seq<u8>| a.contains(p) <==> b.contains(p) {
        if drops(line, a) {
            let k = choose|k: int| 0 <= k < a.len() && #[trigger] contains(line, a[k]);
            assert(a.contains(a[k]));
            let j = choose|j: int| 0 <= j < b.len() && b[j] == a[k];
            assert(contains(line, b[j]));
        }
        if drops(line, b) {
            let k = choose|k: int| 0 <= k < b.len() && #[trigger] contains(line, b[k]);
            assert(b.contains(b[k]));
            let j = choose|j: int| 0 <= j < a.len() && a[j] == b[k];
            assert(contains(line, a[j]));
        }
    }
}

/// Compares `pat` with the bytes of `line` that start at `at`.
pub fn matches_at(line: &[u8], pat: &[u8], at: usize) -> (r: bool)
    requires
        at + pat@.len() <= line@.len(),
    ensures
        r == occurs_at(line@, pat@, at as int),
{
    let n: usize = line.len();
    let m: usize = pat.len();
    let mut k: usize = 0;
    while k < m
        invariant
            n == line@.len(),
            m == pat@.len(),
            k <= m,
            at + m <= n,
            forall|j: int| 0 <= j < k ==> line@[at + j] == pat@[j],
        decreases m - k,
    {
        if line[at + k] != pat[k] {
            assert(line@.subrange(at as int, at + m)[k as int] == line@[at + k]);
            return false;
        }
        k += 1;
    }
    assert(line@.subrange(at as int, at + m) =~= pat@);
    true
}

/// Whether `pat` occurs in `line`. The empty pattern occurs in every line.
pub fn contains_bytes(line: &[u8], pat: &[u8]) -> (r: bool)
    ensures
        r == contains(line@, pat@),
{
    let n: usize = line.len();
    let m: usize = pat.len();
    if m > n {
        return false;
    }
    let last: usize = n - m;
    let mut at: usize = 0;
    loop
        invariant
            n == line@.len(),
            m == pat@.len(),
            last == n - m,
            at <= last,
            forall|j: int| 0 <= j < at ==> !occurs_at(line@, pat@, j),
        decreases last - at,
    {
        if matches_at(line, pat, at) {
            return true;
        }
        if at == last {
            return false;
        }
        at += 1;
    }
}

/// The line filter: true exactly when `line` holds at least one of the
/// patterns as a literal substring. With no patterns nothing is dropped.
/// The first pattern that matches ends the search; the order of the patterns
/// has no bearing on the answer.
pub fn should_drop(line: &[u8], patterns: &[String]) -> (r: bool)
    ensures
        r == drops(line@, pattern_bytes(patterns@)),
{
    let count: usize = patterns.len();
    let mut k: usize = 0;
    while k < count
        invariant
            count == patterns@.len(),
            k <= count,
            forall|j: int| 0 <= j < k ==> !contains(line@, #[trigger] pattern_bytes(patterns@)[j]),
        decreases count - k,
    {
        let pat: &[u8] = patterns[k].as_str().as_bytes();
        assert(pat@ == pattern_bytes(patterns@)[k as int]);
        if contains_bytes(line, pat) {
            return true;
        }
        k += 1;
    }
    false
}

} // verus!
