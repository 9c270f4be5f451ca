//! Rewriting one compressed log: decode, filter, encode.

use vstd::prelude::*;

use crate::codec::{gunzip, gunzipped, gzip, gzipped};
use crate::error::SieveError;
use crate::filter::{
    filter_text, filtered_text, filters_to, lemma_filter_idempotent, lemma_filtered_lines,
    lemma_retained_properties, retained, Filtered,
};
use crate::lines::{is_line_structured, split_lines};
use crate::pattern::pattern_bytes;

verus! {

/// A log as it stands after a rewrite.
#[derive(Debug)]
pub struct Rewritten {
    /// The new compressed content.
    pub bytes: Vec<u8>,
    /// How many lines the old content held.
    pub lines_read: u64,
    /// How many of them were left out.
    pub lines_removed: u64,
}

/// Why rewriting `compressed` fails, if it does.
///
/// Bytes that do not decode, and decoded text that is not line-structured,
/// are codec failures. Filtered text that cannot be encoded is an I/O
/// failure.
pub open spec fn rewrite_failure(compressed: Seq<u8>, patterns: Seq<Seq<u8>>) -> Option<
    SieveError,
> {
    match gunzipped(compressed) {
        None => Some(SieveError::Codec),
        Some(text) => if !is_line_structured(text) {
            Some(SieveError::Codec)
        } else if gzipped(filtered_text(text, patterns)) is None {
            Some(SieveError::Io)
        } else {
            None
        },
    }
}

/// `bytes`, `lines_read` and `lines_removed` are what a rewrite of
/// `compressed` gives: `compressed` decodes to text, `bytes` is the encoding
/// of what filtering that text gives, and decodes to it.
pub open spec fn rewrites_to(
    compressed: Seq<u8>,
    patterns: Seq<Seq<u8>>,
    bytes: Seq<u8>,
    lines_read: int,
    lines_removed: int,
) -> bool {
    &&& gunzipped(compressed) matches Some(text)
    &&& filters_to(text, patterns, filtered_text(text, patterns), lines_read, lines_removed)
    &&& gzipped(filtered_text(text, patterns)) == Some(bytes)
    &&& gunzipped(bytes) == Some(filtered_text(text, patterns))
}

/// Filters what a decoder returned. Nothing decoded is a codec failure;
/// decoded text is filtered as [`filter_text`] says.
pub fn filter_decoded(decoded: Option<Vec<u8>>, patterns: &[String]) -> (r: Result<
    Filtered,
    SieveError,
>)
    ensures
        match decoded {
            None => r == Err::<Filtered, SieveError>(SieveError::Codec),
            Some(text) => match r {
                Ok(f) => filters_to(
                    text@,
                    pattern_bytes(patterns@),
                    f.text@,
                    f.lines_read as int,
                    f.lines_removed as int,
                ),
                Err(e) => !is_line_structured(text@) && e == SieveError::Codec,
            },
        },
{
    match decoded {
        None => Err(SieveError::Codec),
        Some(text) => filter_text(text.as_slice(), patterns),
    }
}

/// Puts the counts of a filtered text together with its compressed form.
/// Without a compressed form the rewrite has failed on output.
pub fn pack(filtered: Filtered, encoded: Option<Vec<u8>>) -> (r: Result<Rewritten, SieveError>)
    ensures
        match encoded {
            None => r == Err::<Rewritten, SieveError>(SieveError::Io),
            Some(bytes) => r == Ok::<Rewritten, SieveError>(
                (Rewritten {
                    bytes,
                    lines_read: filtered.lines_read,
                    lines_removed: filtered.lines_removed,
                }),
            ),
        },
{
    match encoded {
        None => Err(SieveError::Io),
        Some(bytes) => Ok(
            Rewritten {
                bytes,
                lines_read: filtered.lines_read,
                lines_removed: filtered.lines_removed,
            },
        ),
    }
}

/// Removes every line that holds a pattern from a gzip-compressed log.
///
/// `compressed` is the content of the log as it is stored. The result holds
/// the content to store in its place, and the counts of lines read and
/// removed. The input is only read: on failure nothing has been produced, and
/// the stored log stays as it is.
///
/// The rewrite fails exactly when [`rewrite_failure`] names a kind, with that
/// kind. On success the new content decodes to the lines of the old content
/// without those that hold a pattern, in the order they had, and the lines
/// read are those removed and those written.
pub fn remove_lines_with_patterns(compressed: &[u8], patterns: &[String]) -> (r: Result<
    Rewritten,
    SieveError,
>)
    ensures
        match r {
            Ok(w) => {
                &&& rewrite_failure(compressed@, pattern_bytes(patterns@)) is None
                &&& rewrites_to(
                    compressed@,
                    pattern_bytes(patterns@),
                    w.bytes@,
                    w.lines_read as int,
                    w.lines_removed as int,
                )
                &&& split_lines(gunzipped(w.bytes@).unwrap()) == retained(
                    split_lines(gunzipped(compressed@).unwrap()),
                    pattern_bytes(patterns@),
                )
                &&& w.lines_read == w.lines_removed + split_lines(
                    gunzipped(w.bytes@).unwrap(),
                ).len()
            },
            Err(e) => rewrite_failure(compressed@, pattern_bytes(patterns@)) == Some(e),
        },
{
    let filtered = filter_decoded(gunzip(compressed), patterns)?;
    let encoded = gzip(filtered.text.as_slice());
    proof {
        lemma_filtered_lines(gunzipped(compressed@).unwrap(), pattern_bytes(patterns@));
    }
    pack(filtered, encoded)
}

/// A rewrite keeps the order of the lines and loses none but those it
/// removes: what the new content decodes to has the lines of the old content
/// without those that hold a pattern, none moved and none twice, and the
/// lines read are the lines removed and the lines written.
pub proof fn lemma_rewrite_keeps_lines(
    compressed: Seq<u8>,
    patterns: Seq<Seq<u8>>,
    bytes: Seq<u8>,
    lines_read: int,
    lines_removed: int,
)
    requires
        rewrites_to(compressed, patterns, bytes, lines_read, lines_removed),
    ensures
        split_lines(gunzipped(bytes).unwrap()) == retained(
            split_lines(gunzipped(compressed).unwrap()),
            patterns,
        ),
        lines_read == lines_removed + split_lines(gunzipped(bytes).unwrap()).len(),
        0 <= lines_removed <= lines_read,
{
    let text = gunzipped(compressed).unwrap();
    lemma_filtered_lines(text, patterns);
    lemma_retained_properties(split_lines(text), patterns);
}

/// Rewriting is idempotent. What a rewrite gave can be rewritten with the
/// same patterns: that rewrite reads the lines that the first one wrote,
/// removes none of them, and gives the same bytes again.
pub proof fn lemma_rewrite_idempotent(
    compressed: Seq<u8>,
    patterns: Seq<Seq<u8>>,
    bytes: Seq<u8>,
    lines_read: int,
    lines_removed: int,
)
    requires
        rewrites_to(compressed, patterns, bytes, lines_read, lines_removed),
    ensures
        rewrite_failure(bytes, patterns) is None,
        rewrites_to(bytes, patterns, bytes, lines_read - lines_removed, 0),
{
    let text = gunzipped(compressed).unwrap();
    lemma_filter_idempotent(text, patterns);
    lemma_filtered_lines(text, patterns);
}

} // verus!
