//! The text of reader errors: what each kind of error says, and the
//! position suffix `(at line L, col C)`.

use vstd::prelude::*;
use crate::reader::errors::{Coll, ReadError, ReadErrorKind, ReadErrorKindV};
use crate::text::{decimal, push_char, push_str, push_u64_decimal};

verus! {

/// The name a collection literal goes by in messages.
pub open spec fn coll_name(c: Coll) -> Seq<char> {
    match c {
        Coll::List => "list"@,
        Coll::Vector => "vector"@,
        Coll::ArrayMap => "map"@,
        Coll::HashSet => "set"@,
    }
}

/// Lower-case hexadecimal digit for a value below 16.
pub open spec fn hex_char(d: nat) -> char {
    if d < 10 {
        ((d + 48) as u8) as char
    } else {
        ((d + 87) as u8) as char
    }
}

/// Lower-case hexadecimal notation of `n`, without leading zeros.
pub open spec fn hex_digits(n: nat) -> Seq<char>
    decreases n,
{
    if n < 16 {
        seq![hex_char(n)]
    } else {
        hex_digits(n / 16).push(hex_char(n % 16))
    }
}

/// What an error of kind `k` says.
pub open spec fn kind_text(k: ReadErrorKindV) -> Seq<char> {
    match k {
        ReadErrorKindV::Eof => "EOF while reading"@,
        ReadErrorKindV::TrailingContent => "Unexpected trailing content after form"@,
        ReadErrorKindV::CollectionNotImplemented(c) => "Collection reader not yet implemented for '"@
            + seq![c] + "'"@,
        ReadErrorKindV::UnmatchedDelimiter(c) => "Unmatched delimiter: "@ + seq![c],
        ReadErrorKindV::ReaderMacroNotImplemented(c) => "Reader macro '"@ + seq![c]
            + "' not yet implemented"@,
        ReadErrorKindV::RatioMissingDigit => "Expected digit after '/' in ratio literal"@,
        ReadErrorKindV::InvalidFloat(t) => "Invalid float literal: "@ + t,
        ReadErrorKindV::InvalidInteger(t) => "invalid literal for int() with base 10: '"@ + t + "'"@,
        ReadErrorKindV::RatioDivideByZero => "Divide by zero in ratio literal"@,
        ReadErrorKindV::EofInString => "EOF while reading string"@,
        ReadErrorKindV::EofInEscape => "EOF mid-escape in string"@,
        ReadErrorKindV::EofInUnicodeEscape => "EOF in \\u escape"@,
        ReadErrorKindV::InvalidUnicodeEscape(h) => "Invalid \\u escape: \\u"@ + h,
        ReadErrorKindV::InvalidCodepoint(cp) => "Invalid unicode codepoint: 0x"@ + hex_digits(cp as nat),
        ReadErrorKindV::UnsupportedEscape(c) => "Unsupported string escape: \\"@ + seq![c],
        ReadErrorKindV::EofAfterBackslash => "EOF after \\"@,
        ReadErrorKindV::InvalidUnicodeChar(t) => "Invalid unicode char: \\"@ + t,
        ReadErrorKindV::InvalidCharCodepoint(t) => "Invalid codepoint: \\"@ + t,
        ReadErrorKindV::UnsupportedCharLiteral(t) => "Unsupported character literal: \\"@ + t,
        ReadErrorKindV::EmptyToken => "empty token"@,
        ReadErrorKindV::InvalidToken(t) => "Invalid token: "@ + t,
        ReadErrorKindV::EmptyKeyword(auto) => if auto {
            "empty keyword name after '::'"@
        } else {
            "empty keyword name after ':'"@
        },
        ReadErrorKindV::InvalidKeyword(auto, t) => if auto {
            "Invalid keyword: ::"@ + t
        } else {
            "Invalid keyword: :"@ + t
        },
        ReadErrorKindV::UnknownAlias(t, a) => "Invalid keyword: ::"@ + t + " \u{2014} alias '"@ + a
            + "' not found in current namespace"@,
        ReadErrorKindV::EofInCollection(c) => "EOF while reading "@ + coll_name(c),
        ReadErrorKindV::UnmatchedInCollection(e, g) => "Unmatched delimiter: expected '"@ + seq![e]
            + "' but got '"@ + seq![g] + "'"@,
        ReadErrorKindV::MapOddForms => "Map literal must have an even number of forms"@,
        ReadErrorKindV::DuplicateSetKey => "Duplicate key in set literal"@,
        ReadErrorKindV::BadMetadata => "Metadata must be a map, keyword, string, or symbol"@,
        ReadErrorKindV::EofInRegex => "EOF inside regex literal"@,
        ReadErrorKindV::EofInRegexEscape => "EOF inside regex literal (after backslash)"@,
        ReadErrorKindV::SpliceNotInList => "splice not in list"@,
    }
}

/// The full message of an error: its text and where it was found.
pub open spec fn error_message(k: ReadErrorKindV, line: u32, column: u32) -> Seq<char> {
    kind_text(k) + " (at line "@ + decimal(line as nat) + ", col "@ + decimal(column as nat) + ")"@
}

fn hex_char_exec(d: u32) -> (c: char)
    requires
        d < 16,
    ensures
        c == hex_char(d as nat),
{
    if d < 10 {
        ((d + 48) as u8) as char
    } else {
        ((d + 87) as u8) as char
    }
}

/// Hexadecimal digits of `n`, appended to `out`.
fn push_hex(out: &mut String, n: u32)
    ensures
        final(out)@ == old(out)@ + hex_digits(n as nat),
    decreases n,
{
    if n < 16 {
        push_char(out, hex_char_exec(n));
        assert(hex_digits(n as nat) =~= seq![hex_char(n as nat)]);
    } else {
        push_hex(out, n / 16);
        push_char(out, hex_char_exec(n % 16));
        assert(old(out)@ + hex_digits(n as nat) =~= (old(out)@ + hex_digits((n / 16) as nat)).push(
            hex_char((n % 16) as nat),
        ));
    }
}

fn push_coll_name(out: &mut String, c: Coll)
    ensures
        final(out)@ == old(out)@ + coll_name(c),
{
    match c {
        Coll::List => push_str(out, "list"),
        Coll::Vector => push_str(out, "vector"),
        Coll::ArrayMap => push_str(out, "map"),
        Coll::HashSet => push_str(out, "set"),
    }
}

impl ReadErrorKind {
    /// What this error says.
    pub fn text(&self) -> (r: String)
        ensures
            r@ == kind_text(self@),
    {
        let mut s = String::new();
        match self {
            ReadErrorKind::Eof => push_str(&mut s, "EOF while reading"),
            ReadErrorKind::TrailingContent => push_str(&mut s, "Unexpected trailing content after form"),
            ReadErrorKind::CollectionNotImplemented(c) => {
                push_str(&mut s, "Collection reader not yet implemented for '");
                push_char(&mut s, *c);
                push_str(&mut s, "'");
            },
            ReadErrorKind::UnmatchedDelimiter(c) => {
                push_str(&mut s, "Unmatched delimiter: ");
                push_char(&mut s, *c);
            },
            ReadErrorKind::ReaderMacroNotImplemented(c) => {
                push_str(&mut s, "Reader macro '");
                push_char(&mut s, *c);
                push_str(&mut s, "' not yet implemented");
            },
            ReadErrorKind::RatioMissingDigit => push_str(&mut s, "Expected digit after '/' in ratio literal"),
            ReadErrorKind::InvalidFloat(t) => {
                push_str(&mut s, "Invalid float literal: ");
                push_str(&mut s, t.as_str());
            },
            ReadErrorKind::InvalidInteger(t) => {
                push_str(&mut s, "invalid literal for int() with base 10: '");
                push_str(&mut s, t.as_str());
                push_str(&mut s, "'");
            },
            ReadErrorKind::RatioDivideByZero => push_str(&mut s, "Divide by zero in ratio literal"),
            ReadErrorKind::EofInString => push_str(&mut s, "EOF while reading string"),
            ReadErrorKind::EofInEscape => push_str(&mut s, "EOF mid-escape in string"),
            ReadErrorKind::EofInUnicodeEscape => push_str(&mut s, "EOF in \\u escape"),
            ReadErrorKind::InvalidUnicodeEscape(h) => {
                push_str(&mut s, "Invalid \\u escape: \\u");
                push_str(&mut s, h.as_str());
            },
            ReadErrorKind::InvalidCodepoint(cp) => {
                push_str(&mut s, "Invalid unicode codepoint: 0x");
                push_hex(&mut s, *cp);
            },
            ReadErrorKind::UnsupportedEscape(c) => {
                push_str(&mut s, "Unsupported string escape: \\");
                push_char(&mut s, *c);
            },
            ReadErrorKind::EofAfterBackslash => push_str(&mut s, "EOF after \\"),
            ReadErrorKind::InvalidUnicodeChar(t) => {
                push_str(&mut s, "Invalid unicode char: \\");
                push_str(&mut s, t.as_str());
            },
            ReadErrorKind::InvalidCharCodepoint(t) => {
                push_str(&mut s, "Invalid codepoint: \\");
                push_str(&mut s, t.as_str());
            },
            ReadErrorKind::UnsupportedCharLiteral(t) => {
                push_str(&mut s, "Unsupported character literal: \\");
                push_str(&mut s, t.as_str());
            },
            ReadErrorKind::EmptyToken => push_str(&mut s, "empty token"),
            ReadErrorKind::InvalidToken(t) => {
                push_str(&mut s, "Invalid token: ");
                push_str(&mut s, t.as_str());
            },
            ReadErrorKind::EmptyKeyword(auto) => {
                if *auto {
                    push_str(&mut s, "empty keyword name after '::'");
                } else {
                    push_str(&mut s, "empty keyword name after ':'");
                }
            },
            ReadErrorKind::InvalidKeyword(auto, t) => {
                if *auto {
                    push_str(&mut s, "Invalid keyword: ::");
                } else {
                    push_str(&mut s, "Invalid keyword: :");
                }
                push_str(&mut s, t.as_str());
            },
            ReadErrorKind::UnknownAlias(t, a) => {
                push_str(&mut s, "Invalid keyword: ::");
                push_str(&mut s, t.as_str());
                push_str(&mut s, " \u{2014} alias '");
                push_str(&mut s, a.as_str());
                push_str(&mut s, "' not found in current namespace");
            },
            ReadErrorKind::EofInCollection(c) => {
                push_str(&mut s, "EOF while reading ");
                push_coll_name(&mut s, *c);
            },
            ReadErrorKind::UnmatchedInCollection(e, g) => {
                push_str(&mut s, "Unmatched delimiter: expected '");
                push_char(&mut s, *e);
                push_str(&mut s, "' but got '");
                push_char(&mut s, *g);
                push_str(&mut s, "'");
            },
            ReadErrorKind::MapOddForms => push_str(&mut s, "Map literal must have an even number of forms"),
            ReadErrorKind::DuplicateSetKey => push_str(&mut s, "Duplicate key in set literal"),
            ReadErrorKind::BadMetadata => push_str(&mut s, "Metadata must be a map, keyword, string, or symbol"),
            ReadErrorKind::EofInRegex => push_str(&mut s, "EOF inside regex literal"),
            ReadErrorKind::EofInRegexEscape => push_str(&mut s, "EOF inside regex literal (after backslash)"),
            ReadErrorKind::SpliceNotInList => push_str(&mut s, "splice not in list"),
        }
        proof {
            assert(s@ =~= kind_text(self@));
        }
        s
    }
}

impl ReadError {
    /// The message raised for this error: its text, then
    /// `(at line L, col C)`.
    pub fn message(&self) -> (r: String)
        ensures
            r@ == error_message(self.kind@, self.line, self.column),
    {
        let mut s = self.kind.text();
        push_str(&mut s, " (at line ");
        push_u64_decimal(&mut s, self.line as u64);
        push_str(&mut s, ", col ");
        push_u64_decimal(&mut s, self.column as u64);
        push_str(&mut s, ")");
        s
    }
}

} // verus!
