//! Character classifiers for the reader.

use vstd::prelude::*;

verus! {

/// Unicode `White_Space` property (what `char::is_whitespace` tests).
pub open spec fn spec_is_unicode_whitespace(c: char) -> bool {
    let u = c as u32;
    ||| 0x09 <= u <= 0x0d
    ||| u == 0x20
    ||| u == 0x85
    ||| u == 0xa0
    ||| u == 0x1680
    ||| 0x2000 <= u <= 0x200a
    ||| u == 0x2028
    ||| u == 0x2029
    ||| u == 0x202f
    ||| u == 0x205f
    ||| u == 0x3000
}

/// Reader whitespace: Unicode whitespace, plus the comma.
pub open spec fn spec_is_whitespace(c: char) -> bool {
    spec_is_unicode_whitespace(c) || c == ','
}

pub open spec fn spec_is_digit(c: char) -> bool {
    '0' <= c <= '9'
}

/// Delimiters and macro characters that end a token.
pub open spec fn spec_is_macro_terminating(c: char) -> bool {
    c == '"' || c == ';' || c == '@' || c == '^' || c == '`' || c == '~' || c == '(' || c == ')'
        || c == '[' || c == ']' || c == '{' || c == '}' || c == '\\'
}

pub open spec fn spec_is_token_terminating(c: char) -> bool {
    spec_is_whitespace(c) || spec_is_macro_terminating(c)
}

fn is_unicode_whitespace(c: char) -> (r: bool)
    ensures
        r == spec_is_unicode_whitespace(c),
{
    let u = c as u32;
    (0x09 <= u && u <= 0x0d) || u == 0x20 || u == 0x85 || u == 0xa0 || u == 0x1680 || (0x2000 <= u
        && u <= 0x200a) || u == 0x2028 || u == 0x2029 || u == 0x202f || u == 0x205f || u == 0x3000
}

/// Whitespace as the reader sees it; Clojure treats commas as whitespace.
pub fn is_whitespace(c: char) -> (r: bool)
    ensures
        r == spec_is_whitespace(c),
{
    is_unicode_whitespace(c) || c == ','
}

/// ASCII decimal digit.
pub fn is_digit(c: char) -> (r: bool)
    ensures
        r == spec_is_digit(c),
{
    '0' <= c && c <= '9'
}

/// Delimiters and macro characters that end a token.
pub fn is_macro_terminating(c: char) -> (r: bool)
    ensures
        r == spec_is_macro_terminating(c),
{
    c == '"' || c == ';' || c == '@' || c == '^' || c == '`' || c == '~' || c == '(' || c == ')'
        || c == '[' || c == ']' || c == '{' || c == '}' || c == '\\'
}

/// Whitespace or a macro-terminating character.
pub fn is_token_terminating(c: char) -> (r: bool)
    ensures
        r == spec_is_token_terminating(c),
{
    is_whitespace(c) || is_macro_terminating(c)
}

} // verus!
