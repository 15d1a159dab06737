//! Character classification used by the argument builder.

use vstd::prelude::*;

verus! {

/// Whitespace as understood by the argument builder: the ASCII blank
/// characters. Free-form argument text is split on these, and the target
/// URL is trimmed of them.
pub open spec fn is_ws_char(c: char) -> bool {
    c == ' ' || c == '\t' || c == '\n' || c == '\r' || c == '\u{000b}' || c == '\u{000c}'
}

/// Runtime test matching `is_ws_char`.
pub fn is_ws(c: char) -> (b: bool)
    ensures
        b == is_ws_char(c),
{
    c == ' ' || c == '\t' || c == '\n' || c == '\r' || c == '\u{000b}' || c == '\u{000c}'
}

} // verus!
