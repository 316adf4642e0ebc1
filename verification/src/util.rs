//! Helpers for server info strings.
use vstd::prelude::*;

use crate::chars::{chars_of, string_of};
use crate::sanitize::{sanitize, sanitized};

verus! {

/// Cleans a raw server info string: trims whitespace, strips trailing
/// newlines written out as text, unescapes doubled delimiters, removes
/// quotes and strips trailing delimiters, in this order.
pub fn clean(serverinfo: &str) -> (r: String)
    ensures
        r@ == sanitized(serverinfo@),
{
    let text = chars_of(serverinfo);
    let cleaned = sanitize(text.as_slice());
    string_of(cleaned.as_slice())
}

} // verus!
