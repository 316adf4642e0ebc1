//! Cleaning a raw info string before it is split into keys and values.
use vstd::prelude::*;

use crate::chars::{
    collapse_doubled, collapsed, ends_with_pair, is_whitespace, lemma_collapsed,
    lemma_subrange_keeps, lemma_trimmed, lemma_without, lemma_without_trailing,
    lemma_without_trailing_pairs, no_doubled, remove_all, trim_end_matches, trim_end_pairs,
    trim_whitespace, trimmed, without, without_leading_whitespace, without_trailing,
    without_trailing_pairs,
};
use crate::{KV_DELIMITER, QUOTE};

verus! {

/// The letter that follows a delimiter in a newline written out as text.
pub const NEWLINE_LETTER: char = 'n';

/// The clean form of a raw info string `s`: the whitespace at both ends is
/// trimmed; then the trailing newlines that were written out as text (a
/// delimiter and the letter `n`) are stripped; then every doubled delimiter
/// becomes a single one; then every quote is removed; then the trailing
/// delimiters are stripped.
pub open spec fn sanitized(s: Seq<char>) -> Seq<char> {
    let stripped = without_trailing_pairs(trimmed(s), KV_DELIMITER, NEWLINE_LETTER);
    let unescaped = collapsed(stripped, KV_DELIMITER);
    let unquoted = without(unescaped, QUOTE);
    without_trailing(unquoted, KV_DELIMITER)
}

/// Cleans a raw info string, given and returned as characters.
pub fn sanitize(text: &[char]) -> (r: Vec<char>)
    ensures
        r@ == sanitized(text@),
{
    let stripped = trim_end_pairs(trim_whitespace(text), KV_DELIMITER, NEWLINE_LETTER);
    let unescaped = collapse_doubled(stripped, KV_DELIMITER);
    let mut unquoted = remove_all(unescaped.as_slice(), QUOTE);
    let kept: usize = trim_end_matches(unquoted.as_slice(), KV_DELIMITER).len();
    proof {
        lemma_without_trailing(unquoted@, KV_DELIMITER);
    }
    unquoted.truncate(kept);
    unquoted
}

/// Whether cleaning has nothing to do on `s`: `s` neither starts nor ends
/// with whitespace, does not end with a delimiter or with a newline written
/// out as text, and holds no doubled delimiter and no quote.
pub open spec fn is_clean(s: Seq<char>) -> bool {
    &&& s.len() > 0 ==> !is_whitespace(s.first())
    &&& s.len() > 0 ==> !is_whitespace(s.last())
    &&& s.len() > 0 ==> s.last() != KV_DELIMITER
    &&& !ends_with_pair(s, KV_DELIMITER, NEWLINE_LETTER)
    &&& no_doubled(s, KV_DELIMITER)
    &&& !s.contains(QUOTE)
}

/// Cleaning never lengthens a string. It leaves the clean strings as they
/// are, and shortens every other.
pub proof fn lemma_sanitized_fixed_point(s: Seq<char>)
    ensures
        sanitized(s).len() <= s.len(),
        sanitized(s) == s <==> is_clean(s),
        sanitized(s).len() == s.len() <==> is_clean(s),
{
    let trimmed = trimmed(s);
    let stripped = without_trailing_pairs(trimmed, KV_DELIMITER, NEWLINE_LETTER);
    let unescaped = collapsed(stripped, KV_DELIMITER);
    let unquoted = without(unescaped, QUOTE);
    // No step lengthens, and each leaves alone exactly what it has nothing
    // to do on.
    lemma_trimmed(s);
    lemma_without_trailing_pairs(trimmed, KV_DELIMITER, NEWLINE_LETTER);
    lemma_collapsed(stripped, KV_DELIMITER);
    lemma_without(unescaped, QUOTE);
    lemma_without_trailing(unquoted, KV_DELIMITER);
    if is_clean(s) {
        assert(without_leading_whitespace(s) == s);
    }
}

/// Cleaning a second time changes nothing, for an info string `s` that
/// holds no doubled delimiter and no quote, and whose clean form ends
/// neither with whitespace nor with a newline written out as text.
pub proof fn lemma_sanitize_idempotent(s: Seq<char>)
    requires
        no_doubled(s, KV_DELIMITER),
        !s.contains(QUOTE),
        sanitized(s).len() > 0 ==> !is_whitespace(sanitized(s).last()),
        !ends_with_pair(sanitized(s), KV_DELIMITER, NEWLINE_LETTER),
    ensures
        sanitized(sanitized(s)) == sanitized(s),
{
    let trimmed = trimmed(s);
    let stripped = without_trailing_pairs(trimmed, KV_DELIMITER, NEWLINE_LETTER);
    let cleaned = sanitized(s);
    let start = s.len() - without_leading_whitespace(s).len();
    // Without doubled delimiters and quotes, cleaning only trims: what is left
    // is a stretch of `s`, and starts where the trimmed string starts.
    lemma_trimmed(s);
    lemma_subrange_keeps(s, start, start + trimmed.len(), KV_DELIMITER, QUOTE);
    lemma_without_trailing_pairs(trimmed, KV_DELIMITER, NEWLINE_LETTER);
    lemma_subrange_keeps(trimmed, 0, stripped.len() as int, KV_DELIMITER, QUOTE);
    lemma_collapsed(stripped, KV_DELIMITER);
    lemma_without(stripped, QUOTE);
    lemma_without_trailing(stripped, KV_DELIMITER);
    lemma_subrange_keeps(stripped, 0, cleaned.len() as int, KV_DELIMITER, QUOTE);
    if cleaned.len() > 0 {
        assert(cleaned.first() == trimmed.first());
    }
    lemma_sanitized_fixed_point(cleaned);
}

/// Where the clean form of `s` ends with whitespace or with a newline
/// written out as text, a second cleaning shortens it.
pub proof fn lemma_sanitize_again_shortens(s: Seq<char>)
    requires
        sanitized(s).len() > 0 && is_whitespace(sanitized(s).last()) || ends_with_pair(
            sanitized(s),
            KV_DELIMITER,
            NEWLINE_LETTER,
        ),
    ensures
        sanitized(sanitized(s)).len() < sanitized(s).len(),
{
    lemma_sanitized_fixed_point(sanitized(s));
}

} // verus!
