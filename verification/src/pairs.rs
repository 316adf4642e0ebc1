//! From the segments of an info string to its keys and values.
use vstd::prelude::*;

use crate::chars::{split, without_leading, without_trailing};
use crate::sanitize::sanitized;
use crate::KV_DELIMITER;

verus! {

/// The segments of the info string `info`: its clean form, without the
/// delimiters at either end, split at every delimiter.
pub open spec fn segments(info: Seq<char>) -> Seq<Seq<char>> {
    split(
        without_trailing(without_leading(sanitized(info), KV_DELIMITER), KV_DELIMITER),
        KV_DELIMITER,
    )
}

/// The key of pair `i` of `segments`, counted from 0.
pub open spec fn key_at(segments: Seq<Seq<char>>, i: int) -> Seq<char> {
    segments[2 * i]
}

/// The value of pair `i` of `segments`, counted from 0.
pub open spec fn value_at(segments: Seq<Seq<char>>, i: int) -> Seq<char> {
    segments[2 * i + 1]
}

/// The mapping that the first `n` pairs of `segments` give, taken in order:
/// the first segment of a pair is the key, the second its value, and a later
/// pair replaces an earlier one with the same key.
pub open spec fn paired(segments: Seq<Seq<char>>, n: nat) -> Map<Seq<char>, Seq<char>>
    decreases n,
{
    if n == 0 {
        Map::empty()
    } else {
        paired(segments, (n - 1) as nat).insert(
            key_at(segments, n - 1),
            value_at(segments, n - 1),
        )
    }
}

/// The keys and values of the info string `info`: its segments taken in
/// pairs, a last segment without a partner being left out.
pub open spec fn key_values(info: Seq<char>) -> Map<Seq<char>, Seq<char>> {
    paired(segments(info), segments(info).len() / 2)
}

/// `n` pairs give a finite mapping with at most `n` entries.
pub proof fn lemma_paired_len(segments: Seq<Seq<char>>, n: nat)
    ensures
        paired(segments, n).dom().finite(),
        paired(segments, n).len() <= n,
    decreases n,
{
    if n > 0 {
        lemma_paired_len(segments, (n - 1) as nat);
    }
}

/// A key is in the mapping exactly when some pair has it, and its value is
/// that of the last pair that has it.
pub proof fn lemma_paired_lookup(segments: Seq<Seq<char>>, n: nat, key: Seq<char>)
    ensures
        paired(segments, n).contains_key(key) <==> exists|i: int|
            0 <= i < n && #[trigger] key_at(segments, i) == key,
        forall|i: int|
            0 <= i < n && #[trigger] key_at(segments, i) == key && (forall|j: int|
                i < j < n ==> #[trigger] key_at(segments, j) != key) ==> paired(segments, n)[key]
                == value_at(segments, i),
    decreases n,
{
    if n > 0 {
        lemma_paired_lookup(segments, (n - 1) as nat, key);
        if key_at(segments, n - 1) != key {
            assert forall|i: int|
                0 <= i < n && #[trigger] key_at(segments, i) == key && (forall|j: int|
                    i < j < n ==> #[trigger] key_at(segments, j) != key) implies paired(
                segments,
                n,
            )[key] == value_at(segments, i) by {
                assert(i < n - 1);
                assert(forall|j: int| i < j < n - 1 ==> #[trigger] key_at(segments, j) != key);
            }
        }
    }
}

} // verus!
