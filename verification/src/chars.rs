//! Character sequences: the view of a text as a `Seq<char>`, the conversions
//! between `&str`, `String` and `[char]`, and the elementary edits (trimming,
//! collapsing, removing, splitting) that the parsers are composed of.
//!
//! Each edit is a spec function on `Seq<char>` and an executable function on
//! `[char]` that computes it. The lemmas say what the edits keep and what
//! they leave behind.
use vstd::prelude::*;
use vstd::slice::slice_subrange;

verus! {

/// `String::push` of the standard library: the string afterwards is the
/// string before with `ch` appended, and nothing else about it changes.
pub assume_specification[ String::push ](s: &mut String, ch: char)
    ensures
        final(s)@ == old(s)@.push(ch),
;

/// The characters of `s`.
pub fn chars_of(s: &str) -> (r: Vec<char>)
    ensures
        r@ == s@,
{
    let mut out: Vec<char> = Vec::new();
    for c in chars: s.chars()
        invariant
            chars.seq() == s@,
            out@ == s@.take(chars.index() as int),
    {
        out.push(c);
    }
    out
}

/// The string made of the characters of `text`.
pub fn string_of(text: &[char]) -> (r: String)
    ensures
        r@ == text@,
{
    let mut out = String::new();
    let mut i: usize = 0;
    while i < text.len()
        invariant
            i <= text.len(),
            out@ == text@.take(i as int),
        decreases text.len() - i,
    {
        out.push(text[i]);
        i += 1;
    }
    out
}

/// Whether `c` carries the Unicode property `White_Space`.
pub open spec fn spec_is_whitespace(c: char) -> bool {
    let n = c as u32;
    ||| 0x09 <= n <= 0x0D
    ||| n == 0x20
    ||| n == 0x85
    ||| n == 0xA0
    ||| n == 0x1680
    ||| 0x2000 <= n <= 0x200A
    ||| n == 0x2028
    ||| n == 0x2029
    ||| n == 0x202F
    ||| n == 0x205F
    ||| n == 0x3000
}

/// Whether `c` carries the Unicode property `White_Space`.
#[verifier::when_used_as_spec(spec_is_whitespace)]
pub fn is_whitespace(c: char) -> (r: bool)
    ensures
        r == spec_is_whitespace(c),
{
    let n: u32 = c as u32;
    (0x09 <= n && n <= 0x0D) || n == 0x20 || n == 0x85 || n == 0xA0 || n == 0x1680
        || (0x2000 <= n && n <= 0x200A) || n == 0x2028 || n == 0x2029 || n == 0x202F
        || n == 0x205F || n == 0x3000
}

/// `s` without its leading whitespace.
pub open spec fn without_leading_whitespace(s: Seq<char>) -> Seq<char>
    decreases s.len(),
{
    if s.len() > 0 && is_whitespace(s.first()) {
        without_leading_whitespace(s.drop_first())
    } else {
        s
    }
}

/// `s` without its trailing whitespace.
pub open spec fn without_trailing_whitespace(s: Seq<char>) -> Seq<char>
    decreases s.len(),
{
    if s.len() > 0 && is_whitespace(s.last()) {
        without_trailing_whitespace(s.drop_last())
    } else {
        s
    }
}

/// `s` without the whitespace at either end.
pub open spec fn trimmed(s: Seq<char>) -> Seq<char> {
    without_trailing_whitespace(without_leading_whitespace(s))
}

/// Strips the whitespace from both ends of `text`.
pub fn trim_whitespace(text: &[char]) -> (r: &[char])
    ensures
        r@ == trimmed(text@),
{
    let mut start: usize = 0;
    assert(text@.skip(0) == text@);
    while start < text.len() && is_whitespace(text[start])
        invariant
            start <= text.len(),
            without_leading_whitespace(text@) == without_leading_whitespace(
                text@.skip(start as int),
            ),
        decreases text.len() - start,
    {
        assert(text@.skip(start as int).drop_first() == text@.skip(start + 1));
        start += 1;
    }
    let mut end: usize = text.len();
    while end > start && is_whitespace(text[end - 1])
        invariant
            start <= end <= text.len(),
            without_leading_whitespace(text@) == text@.skip(start as int),
            trimmed(text@) == without_trailing_whitespace(text@.subrange(start as int, end as int)),
        decreases end,
    {
        assert(text@.subrange(start as int, end as int).drop_last() == text@.subrange(
            start as int,
            end - 1,
        ));
        end -= 1;
    }
    slice_subrange(text, start, end)
}

/// What is left of `s` is its end, and does not start with whitespace.
pub proof fn lemma_without_leading_whitespace(s: Seq<char>)
    ensures
        without_leading_whitespace(s).is_suffix_of(s),
        without_leading_whitespace(s).len() > 0 ==> !is_whitespace(
            without_leading_whitespace(s).first(),
        ),
    decreases s.len(),
{
    if s.len() > 0 && is_whitespace(s.first()) {
        lemma_without_leading_whitespace(s.drop_first());
    }
}

/// What is left of `s` is its beginning, and does not end with whitespace.
pub proof fn lemma_without_trailing_whitespace(s: Seq<char>)
    ensures
        without_trailing_whitespace(s).is_prefix_of(s),
        without_trailing_whitespace(s).len() > 0 ==> !is_whitespace(
            without_trailing_whitespace(s).last(),
        ),
    decreases s.len(),
{
    if s.len() > 0 && is_whitespace(s.last()) {
        lemma_without_trailing_whitespace(s.drop_last());
    }
}

/// Trimming keeps one stretch of `s`, which neither starts nor ends with
/// whitespace.
pub proof fn lemma_trimmed(s: Seq<char>)
    ensures
        trimmed(s).len() <= without_leading_whitespace(s).len() <= s.len(),
        trimmed(s) == s.subrange(
            s.len() - without_leading_whitespace(s).len(),
            s.len() - without_leading_whitespace(s).len() + trimmed(s).len(),
        ),
        trimmed(s).len() > 0 ==> !is_whitespace(trimmed(s).first()) && !is_whitespace(
            trimmed(s).last(),
        ),
{
    lemma_without_leading_whitespace(s);
    lemma_without_trailing_whitespace(without_leading_whitespace(s));
}

/// `s` without the run of `c` at its start.
pub open spec fn without_leading(s: Seq<char>, c: char) -> Seq<char>
    decreases s.len(),
{
    if s.len() > 0 && s.first() == c {
        without_leading(s.drop_first(), c)
    } else {
        s
    }
}

/// `s` without the run of `c` at its end.
pub open spec fn without_trailing(s: Seq<char>, c: char) -> Seq<char>
    decreases s.len(),
{
    if s.len() > 0 && s.last() == c {
        without_trailing(s.drop_last(), c)
    } else {
        s
    }
}

/// Strips every `c` from the end of `text`.
pub fn trim_end_matches(text: &[char], c: char) -> (r: &[char])
    ensures
        r@ == without_trailing(text@, c),
{
    let mut end: usize = text.len();
    assert(text@.take(end as int) == text@);
    while end > 0 && text[end - 1] == c
        invariant
            end <= text.len(),
            without_trailing(text@, c) == without_trailing(text@.take(end as int), c),
        decreases end,
    {
        assert(text@.take(end as int).drop_last() == text@.take(end - 1));
        end -= 1;
    }
    slice_subrange(text, 0, end)
}

/// Strips every `c` from the start and from the end of `text`.
pub fn trim_matches(text: &[char], c: char) -> (r: &[char])
    ensures
        r@ == without_trailing(without_leading(text@, c), c),
{
    let mut start: usize = 0;
    assert(text@.skip(0) == text@);
    while start < text.len() && text[start] == c
        invariant
            start <= text.len(),
            without_leading(text@, c) == without_leading(text@.skip(start as int), c),
        decreases text.len() - start,
    {
        assert(text@.skip(start as int).drop_first() == text@.skip(start + 1));
        start += 1;
    }
    trim_end_matches(slice_subrange(text, start, text.len()), c)
}

/// What is left of `s` is its beginning, and does not end with `c`.
pub proof fn lemma_without_trailing(s: Seq<char>, c: char)
    ensures
        without_trailing(s, c).is_prefix_of(s),
        without_trailing(s, c).len() > 0 ==> without_trailing(s, c).last() != c,
    decreases s.len(),
{
    if s.len() > 0 && s.last() == c {
        lemma_without_trailing(s.drop_last(), c);
    }
}

/// Whether `s` ends with `first` followed by `second`.
pub open spec fn ends_with_pair(s: Seq<char>, first: char, second: char) -> bool {
    s.len() >= 2 && s[s.len() - 2] == first && s[s.len() - 1] == second
}

/// `s` without the run of pairs `first`, `second` at its end.
pub open spec fn without_trailing_pairs(s: Seq<char>, first: char, second: char) -> Seq<char>
    decreases s.len(),
{
    if ends_with_pair(s, first, second) {
        without_trailing_pairs(s.take(s.len() - 2), first, second)
    } else {
        s
    }
}

/// Strips the two-character sequence `first`, `second` from the end of
/// `text` for as long as `text` ends with it.
pub fn trim_end_pairs(text: &[char], first: char, second: char) -> (r: &[char])
    ensures
        r@ == without_trailing_pairs(text@, first, second),
{
    let mut end: usize = text.len();
    assert(text@.take(end as int) == text@);
    while end >= 2 && text[end - 2] == first && text[end - 1] == second
        invariant
            end <= text.len(),
            without_trailing_pairs(text@, first, second) == without_trailing_pairs(
                text@.take(end as int),
                first,
                second,
            ),
        decreases end,
    {
        assert(text@.take(end as int).take(end - 2) == text@.take(end - 2));
        end -= 2;
    }
    slice_subrange(text, 0, end)
}

/// What is left of `s` is its beginning, and does not end with the pair.
pub proof fn lemma_without_trailing_pairs(s: Seq<char>, first: char, second: char)
    ensures
        without_trailing_pairs(s, first, second).is_prefix_of(s),
        !ends_with_pair(without_trailing_pairs(s, first, second), first, second),
    decreases s.len(),
{
    if ends_with_pair(s, first, second) {
        lemma_without_trailing_pairs(s.take(s.len() - 2), first, second);
    }
}

/// Whether `c` never stands twice in a row in `s`.
pub open spec fn no_doubled(s: Seq<char>, c: char) -> bool {
    forall|i: int| 0 <= i && i + 1 < s.len() ==> !(#[trigger] s[i] == c && s[i + 1] == c)
}

/// `s` with every pair `c`, `c` replaced by a single `c`. Pairs are found
/// from the left and do not overlap: of three in a row, two remain.
pub open spec fn collapsed(s: Seq<char>, c: char) -> Seq<char>
    decreases s.len(),
{
    if s.len() == 0 {
        s
    } else if s.len() >= 2 && s[0] == c && s[1] == c {
        seq![c] + collapsed(s.skip(2), c)
    } else {
        seq![s[0]] + collapsed(s.skip(1), c)
    }
}

/// Replaces every doubled `c` in `text` by a single one, in one pass from
/// the left.
pub fn collapse_doubled(text: &[char], c: char) -> (r: Vec<char>)
    ensures
        r@ == collapsed(text@, c),
{
    let mut out: Vec<char> = Vec::new();
    let mut i: usize = 0;
    assert(text@.skip(0) == text@);
    while i < text.len()
        invariant
            i <= text.len(),
            collapsed(text@, c) == out@ + collapsed(text@.skip(i as int), c),
        decreases text.len() - i,
    {
        let ghost rest = text@.skip(i as int);
        let ghost before = out@;
        out.push(text[i]);
        if text[i] == c && i + 1 < text.len() && text[i + 1] == c {
            let ghost tail = collapsed(rest.skip(2), c);
            assert(rest.skip(2) == text@.skip(i + 2));
            assert(out@ + tail == before + (seq![c] + tail));
            i += 2;
        } else {
            let ghost tail = collapsed(rest.skip(1), c);
            assert(rest.skip(1) == text@.skip(i + 1));
            assert(out@ + tail == before + (seq![rest[0]] + tail));
            i += 1;
        }
    }
    assert(out@ + Seq::<char>::empty() == out@);
    out
}

/// Collapsing never lengthens `s`, and leaves its length, and then `s`
/// itself, unchanged exactly when `c` is nowhere doubled.
pub proof fn lemma_collapsed(s: Seq<char>, c: char)
    ensures
        collapsed(s, c).len() <= s.len(),
        collapsed(s, c).len() == s.len() <==> no_doubled(s, c),
        no_doubled(s, c) ==> collapsed(s, c) == s,
    decreases s.len(),
{
    if s.len() == 0 {
    } else if s.len() >= 2 && s[0] == c && s[1] == c {
        lemma_collapsed(s.skip(2), c);
    } else {
        let rest = s.skip(1);
        lemma_collapsed(rest, c);
        if no_doubled(s, c) {
            assert forall|i: int| 0 <= i && i + 1 < rest.len() implies !(#[trigger] rest[i] == c
                && rest[i + 1] == c) by {
                assert(rest[i] == s[i + 1]);
            }
            assert(seq![s[0]] + rest == s);
        }
        if no_doubled(rest, c) {
            assert forall|i: int| 0 <= i && i + 1 < s.len() implies !(#[trigger] s[i] == c
                && s[i + 1] == c) by {
                if i > 0 {
                    assert(rest[i - 1] == s[i]);
                }
            }
        }
    }
}

/// `s` without any occurrence of `c`.
pub open spec fn without(s: Seq<char>, c: char) -> Seq<char>
    decreases s.len(),
{
    if s.len() == 0 {
        s
    } else if s.last() == c {
        without(s.drop_last(), c)
    } else {
        without(s.drop_last(), c).push(s.last())
    }
}

/// Removes every `c` from `text`.
pub fn remove_all(text: &[char], c: char) -> (r: Vec<char>)
    ensures
        r@ == without(text@, c),
{
    let mut out: Vec<char> = Vec::new();
    let mut i: usize = 0;
    while i < text.len()
        invariant
            i <= text.len(),
            out@ == without(text@.take(i as int), c),
        decreases text.len() - i,
    {
        assert(text@.take(i + 1).drop_last() == text@.take(i as int));
        if text[i] != c {
            out.push(text[i]);
        }
        i += 1;
    }
    assert(text@.take(i as int) == text@);
    out
}

/// Removing `c` never lengthens `s`, leaves none behind, and leaves the
/// length of `s`, and then `s` itself, unchanged exactly when `s` holds none.
pub proof fn lemma_without(s: Seq<char>, c: char)
    ensures
        without(s, c).len() <= s.len(),
        !without(s, c).contains(c),
        without(s, c).len() == s.len() <==> !s.contains(c),
        !s.contains(c) ==> without(s, c) == s,
    decreases s.len(),
{
    if s.len() > 0 {
        let init = s.drop_last();
        lemma_without(init, c);
        if s.contains(c) && s.last() != c {
            let i = choose|i: int| 0 <= i < s.len() && s[i] == c;
            assert(init[i] == c);
        }
        if init.contains(c) {
            let i = choose|i: int| 0 <= i < init.len() && init[i] == c;
            assert(s[i] == c);
        }
        if !s.contains(c) {
            assert(init.push(s.last()) == s);
        }
    }
}

/// Where `c` is nowhere doubled in `s` and `s` does not hold `q`, the same
/// is true of every stretch of `s`.
pub proof fn lemma_subrange_keeps(s: Seq<char>, from: int, to: int, c: char, q: char)
    requires
        0 <= from <= to <= s.len(),
        no_doubled(s, c),
        !s.contains(q),
    ensures
        no_doubled(s.subrange(from, to), c),
        !s.subrange(from, to).contains(q),
{
    let part = s.subrange(from, to);
    assert forall|i: int| 0 <= i && i + 1 < part.len() implies !(#[trigger] part[i] == c
        && part[i + 1] == c) by {
        assert(s[from + i] == part[i]);
    }
    if part.contains(q) {
        let i = choose|i: int| 0 <= i < part.len() && part[i] == q;
        assert(s[from + i] == q);
    }
}

/// The segments of `s` between occurrences of `c`. There is one more segment
/// than there are occurrences: `c` at either end, or twice in a row, bounds an
/// empty segment, and the empty sequence has the one empty segment.
pub open spec fn split(s: Seq<char>, c: char) -> Seq<Seq<char>>
    decreases s.len(),
{
    if s.len() == 0 {
        seq![Seq::empty()]
    } else if s.last() == c {
        split(s.drop_last(), c).push(Seq::empty())
    } else {
        let before = split(s.drop_last(), c);
        before.drop_last().push(before.last().push(s.last()))
    }
}

/// The sequences of `parts` in order, with `c` between each two.
pub open spec fn joined(parts: Seq<Seq<char>>, c: char) -> Seq<char>
    decreases parts.len(),
{
    if parts.len() == 0 {
        Seq::empty()
    } else if parts.len() == 1 {
        parts[0]
    } else {
        joined(parts.drop_last(), c).push(c) + parts.last()
    }
}

/// Splits `text` at every `c`.
pub fn split_at_each(text: &[char], c: char) -> (r: Vec<Vec<char>>)
    ensures
        r.deep_view() == split(text@, c),
{
    let mut closed: Vec<Vec<char>> = Vec::new();
    let mut open: Vec<char> = Vec::new();
    let mut i: usize = 0;
    while i < text.len()
        invariant
            i <= text.len(),
            closed.deep_view().push(open@) == split(text@.take(i as int), c),
        decreases text.len() - i,
    {
        assert(text@.take(i + 1).drop_last() == text@.take(i as int));
        let ghost before = closed.deep_view().push(open@);
        assert(before.drop_last() == closed.deep_view());
        if text[i] == c {
            assert(open.deep_view() == open@);
            closed.push(open);
            open = Vec::new();
            assert(closed.deep_view() == before);
        } else {
            open.push(text[i]);
        }
        i += 1;
    }
    assert(text@.take(i as int) == text@);
    assert(open.deep_view() == open@);
    let ghost before = closed.deep_view();
    closed.push(open);
    assert(closed.deep_view() == before.push(open@));
    closed
}

/// Splitting undoes joining: no segment of `s` holds `c`, and the segments
/// joined by `c` are `s` again.
pub proof fn lemma_split(s: Seq<char>, c: char)
    ensures
        split(s, c).len() >= 1,
        forall|i: int| 0 <= i < split(s, c).len() ==> !(#[trigger] split(s, c)[i]).contains(c),
        joined(split(s, c), c) == s,
    decreases s.len(),
{
    if s.len() > 0 {
        let before = split(s.drop_last(), c);
        lemma_split(s.drop_last(), c);
        if s.last() == c {
            assert(before.push(Seq::empty()).drop_last() == before);
            assert(s.drop_last().push(c) + Seq::<char>::empty() == s);
        } else {
            let open = before.last().push(s.last());
            let after = before.drop_last().push(open);
            assert(after.drop_last() == before.drop_last());
            if open.contains(c) {
                let i = choose|i: int| 0 <= i < open.len() && open[i] == c;
                assert(before.last()[i] == c);
            }
            if before.len() >= 2 {
                let head = joined(before.drop_last(), c).push(c);
                assert(head + open == (head + before.last()).push(s.last()));
            }
            assert(s.drop_last().push(s.last()) == s);
        }
    }
}

} // verus!
