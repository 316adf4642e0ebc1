//! The field line: tokens separated by spaces, where a double quote toggles
//! a region in which spaces belong to the token.
use vstd::prelude::*;

use crate::chars::{joined, without};
use crate::{FIELD_SEPARATOR, QUOTE};

verus! {

/// What the scanner holds after reading part of a line.
pub struct Scan {
    /// The tokens that a separator has closed, in order.
    pub closed: Seq<Seq<char>>,
    /// The token that is still being read.
    pub open: Seq<char>,
    /// Whether the scanner stands inside a quoted region.
    pub quoted: bool,
}

/// The scanner before the first character.
pub open spec fn scan_start() -> Scan {
    Scan { closed: Seq::empty(), open: Seq::empty(), quoted: false }
}

/// The scanner after reading `c` in state `before`.
pub open spec fn scan_step(before: Scan, c: char) -> Scan {
    if c == QUOTE {
        Scan { quoted: !before.quoted, ..before }
    } else if c == FIELD_SEPARATOR && !before.quoted {
        Scan { closed: before.closed.push(before.open), open: Seq::empty(), ..before }
    } else {
        Scan { open: before.open.push(c), ..before }
    }
}

/// The scanner after reading all of `line`, left to right.
pub open spec fn scan(line: Seq<char>) -> Scan
    decreases line.len(),
{
    if line.len() == 0 {
        scan_start()
    } else {
        scan_step(scan(line.drop_last()), line.last())
    }
}

/// The tokens of `line`: those that a separator closed, then the one that
/// the end of the line closes.
pub open spec fn fields(line: Seq<char>) -> Seq<Seq<char>> {
    scan(line).closed.push(scan(line).open)
}

/// The number of quote characters in `line`.
pub open spec fn quote_count(line: Seq<char>) -> nat
    decreases line.len(),
{
    if line.len() == 0 {
        0
    } else if line.last() == QUOTE {
        quote_count(line.drop_last()) + 1
    } else {
        quote_count(line.drop_last())
    }
}

/// Whether a character that follows `line` stands inside a quoted region:
/// an odd number of quotes precedes it.
pub open spec fn inside_quotes(line: Seq<char>) -> bool {
    quote_count(line) % 2 == 1
}

/// The number of separators in `line` that stand outside quoted regions.
pub open spec fn unquoted_separators(line: Seq<char>) -> nat
    decreases line.len(),
{
    if line.len() == 0 {
        0
    } else if line.last() == FIELD_SEPARATOR && !inside_quotes(line.drop_last()) {
        unquoted_separators(line.drop_last()) + 1
    } else {
        unquoted_separators(line.drop_last())
    }
}

/// The scanner's flag is the parity of the quotes read, and it has closed
/// one token for each separator outside quoted regions.
pub proof fn lemma_scan_counts(line: Seq<char>)
    ensures
        scan(line).quoted == inside_quotes(line),
        scan(line).closed.len() == unquoted_separators(line),
    decreases line.len(),
{
    if line.len() > 0 {
        lemma_scan_counts(line.drop_last());
    }
}

/// A line has one field more than it has separators outside quoted regions.
pub proof fn lemma_field_count(line: Seq<char>)
    ensures
        fields(line).len() == unquoted_separators(line) + 1,
{
    lemma_scan_counts(line);
}

/// No field holds a quote, and the fields joined by the separator are the
/// line without its quotes.
pub proof fn lemma_fields_joined(line: Seq<char>)
    ensures
        forall|i: int|
            0 <= i < fields(line).len() ==> !(#[trigger] fields(line)[i]).contains(QUOTE),
        joined(fields(line), FIELD_SEPARATOR) == without(line, QUOTE),
    decreases line.len(),
{
    if line.len() > 0 {
        let before = scan(line.drop_last());
        let c = line.last();
        lemma_fields_joined(line.drop_last());
        assert(fields(line.drop_last()).drop_last() == before.closed);
        if c == QUOTE {
        } else if c == FIELD_SEPARATOR && !before.quoted {
            assert(fields(line).drop_last() == fields(line.drop_last()));
            assert(without(line.drop_last(), QUOTE).push(c) + Seq::<char>::empty() == without(
                line.drop_last(),
                QUOTE,
            ).push(c));
        } else {
            let open = before.open.push(c);
            assert(fields(line).drop_last() == before.closed);
            if open.contains(QUOTE) {
                let i = choose|i: int| 0 <= i < open.len() && open[i] == QUOTE;
                assert(before.open[i] == QUOTE);
            }
            if before.closed.len() >= 1 {
                let head = joined(before.closed, FIELD_SEPARATOR).push(FIELD_SEPARATOR);
                assert(head + open == (head + before.open).push(c));
            }
        }
    }
}

} // verus!
