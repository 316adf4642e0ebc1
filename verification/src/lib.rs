//! Parsers for QuakeWorld info strings and field lines.
use vstd::prelude::*;

pub mod chars;
pub mod fields;
pub mod pairs;
pub mod sanitize;
pub mod util;

use crate::chars::{chars_of, split_at_each, string_of, trim_matches};
use crate::fields::{fields, lemma_field_count, scan, unquoted_separators};
use crate::pairs::{key_values, lemma_paired_len, paired, segments};
use crate::sanitize::{sanitize, sanitized};
use vstd::hash_map::StringHashMap;

verus! {

/// The character that separates keys from values in an info string.
pub const KV_DELIMITER: char = '\\';

/// The character that is removed from info strings and that toggles a quoted
/// region in a field line.
pub const QUOTE: char = '"';

/// The character that separates fields outside quoted regions.
pub const FIELD_SEPARATOR: char = ' ';

/// Parses an info string into its keys and values.
///
/// The string is cleaned as by [`sanitize_kv`], the delimiters at both ends
/// are dropped, and what remains is split at every delimiter. The segments
/// are taken in pairs, key then value. A key that comes again replaces its
/// earlier value, an empty segment is an empty key or value, and a last
/// segment without a partner is left out.
pub fn parse_key_values(info: &str) -> (result: StringHashMap<String>)
    ensures
        result@.dom() == key_values(info@).dom(),
        forall|key: Seq<char>| #[trigger]
            result@.contains_key(key) ==> result@[key]@ == key_values(info@)[key],
        result@.dom().finite(),
        result@.len() <= segments(info@).len() / 2,
{
    let text = chars_of(info);
    let cleaned = sanitize(text.as_slice());
    let parts = split_at_each(trim_matches(cleaned.as_slice(), KV_DELIMITER), KV_DELIMITER);
    let mut result: StringHashMap<String> = StringHashMap::new();
    let mut i: usize = 0;
    while parts.len() - i >= 2
        invariant
            i <= parts.len(),
            i % 2 == 0,
            parts.deep_view() == segments(info@),
            result@.dom() == paired(segments(info@), (i / 2) as nat).dom(),
            forall|key: Seq<char>| #[trigger]
                result@.contains_key(key) ==> result@[key]@ == paired(
                    segments(info@),
                    (i / 2) as nat,
                )[key],
        decreases parts.len() - i,
    {
        let key = string_of(parts[i].as_slice());
        let value = string_of(parts[i + 1].as_slice());
        proof {
            assert(key@ == segments(info@)[i as int]);
            assert(value@ == segments(info@)[i + 1]);
        }
        result.insert(key, value);
        i += 2;
    }
    proof {
        lemma_paired_len(segments(info@), (i / 2) as nat);
    }
    result
}

/// Cleans a raw info string: trims whitespace, strips trailing newlines
/// written out as text, unescapes doubled delimiters, removes quotes and
/// strips trailing delimiters, in this order.
pub fn sanitize_kv(info: &str) -> (r: String)
    ensures
        r@ == sanitized(info@),
{
    let text = chars_of(info);
    let cleaned = sanitize(text.as_slice());
    string_of(cleaned.as_slice())
}

/// Splits a line into its fields.
///
/// Fields are separated by single spaces. A double quote switches quoting on
/// or off and is not part of any field; inside quotes a space belongs to the
/// field. Every separator closes a field, so adjacent separators and `""`
/// give empty fields, and the end of the line closes the last one even when
/// a quote is still open.
pub fn parse_fields(input: &str) -> (tokens: Vec<String>)
    ensures
        tokens.deep_view() == fields(input@),
        tokens@.len() == unquoted_separators(input@) + 1,
{
    let mut tokens: Vec<String> = Vec::new();
    let mut token = String::new();
    let mut in_quote = false;

    for c in chars: input.chars()
        invariant
            chars.seq() == input@,
            tokens.deep_view() == scan(input@.take(chars.index() as int)).closed,
            token@ == scan(input@.take(chars.index() as int)).open,
            in_quote == scan(input@.take(chars.index() as int)).quoted,
    {
        proof {
            let read = input@.take(chars.index() + 1);
            assert(read.drop_last() == input@.take(chars.index() as int));
            assert(read.last() == c);
        }
        match c {
            QUOTE => in_quote = !in_quote,
            FIELD_SEPARATOR if !in_quote => {
                tokens.push(token);
                token = String::new();
            },
            _ => token.push(c),
        }
    }

    tokens.push(token);
    proof {
        assert(input@.take(input@.len() as int) == input@);
        lemma_field_count(input@);
    }
    tokens
}

} // verus!
