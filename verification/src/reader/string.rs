//! String and character literal parsers.

use vstd::prelude::*;
use crate::reader::errors::{ReadError, ReadErrorKind, ReadErrorKindV, Scan, form_outcome, scan_within};
use crate::reader::form::{Form, FormV};
use crate::reader::lexer::{is_token_terminating, spec_is_token_terminating};
use crate::reader::source::{Source, utf8_len, utf8_width, utf8_width_exec};
use crate::reader::token::{lemma_token_len, token_len};
use crate::text::{chars_eq_str, chars_to_string, sub_chars};

verus! {

pub open spec fn is_hex_digit(c: char) -> bool {
    ('0' <= c <= '9') || ('a' <= c <= 'f') || ('A' <= c <= 'F')
}

pub open spec fn hex_digit_value(c: char) -> nat {
    if '0' <= c <= '9' {
        (c as int - '0' as int) as nat
    } else if 'a' <= c <= 'f' {
        (c as int - 'a' as int + 10) as nat
    } else {
        (c as int - 'A' as int + 10) as nat
    }
}

/// Value of a string of hexadecimal digits (most significant first).
pub open spec fn hex_value(d: Seq<char>) -> nat
    decreases d.len(),
{
    if d.len() == 0 {
        0
    } else {
        hex_value(d.drop_last()) * 16 + hex_digit_value(d.last())
    }
}

/// Every character of `d` is a hex digit.
pub open spec fn all_hex(d: Seq<char>) -> bool {
    forall|i: int| 0 <= i < d.len() ==> is_hex_digit(#[trigger] d[i])
}

/// The digits of a radix literal: `s` without a leading `+`.
pub open spec fn unsigned_digits(s: Seq<char>) -> Seq<char> {
    if s.len() > 0 && s[0] == '+' {
        s.drop_first()
    } else {
        s
    }
}

/// `u32::from_str_radix(s, 16)`: an optional `+`, then one or more hex
/// digits whose value fits a `u32`.
pub open spec fn radix16(s: Seq<char>) -> Option<u32> {
    let digits = unsigned_digits(s);
    if digits.len() > 0 && all_hex(digits) && hex_value(digits) <= u32::MAX {
        Some(hex_value(digits) as u32)
    } else {
        None
    }
}

/// A Unicode scalar value: what `char::from_u32` accepts.
pub open spec fn is_scalar_value(cp: u32) -> bool {
    cp <= 0xD7FF || (0xE000 <= cp && cp <= 0x10FFFF)
}

/// `char::from_u32`: the character with code point `cp`, or `None` when
/// `cp` is a surrogate or above `0x10FFFF`.
#[verifier::external_body]
fn char_from_u32(cp: u32) -> (r: Option<char>)
    ensures
        r is Some <==> is_scalar_value(cp),
        r matches Some(c) ==> c == cp as char,
{
    char::from_u32(cp)
}

fn hex_digit(c: char) -> (r: Option<u32>)
    ensures
        r is Some <==> is_hex_digit(c),
        r matches Some(v) ==> v == hex_digit_value(c),
{
    if '0' <= c && c <= '9' {
        Some(c as u32 - '0' as u32)
    } else if 'a' <= c && c <= 'f' {
        Some(c as u32 - 'a' as u32 + 10)
    } else if 'A' <= c && c <= 'F' {
        Some(c as u32 - 'A' as u32 + 10)
    } else {
        None
    }
}

/// 16 to the power `n`.
pub open spec fn pow16(n: nat) -> nat
    decreases n,
{
    if n == 0 {
        1
    } else {
        16 * pow16((n - 1) as nat)
    }
}

/// `u32::from_str_radix(s, 16)` on text of at most four characters.
fn parse_hex4(s: &Vec<char>) -> (r: Option<u32>)
    requires
        s@.len() <= 4,
    ensures
        r == radix16(s@),
{
    let start: usize = if s.len() > 0 && s[0] == '+' {
        1
    } else {
        0
    };
    let ghost digits = s@.skip(start as int);
    assert(digits =~= unsigned_digits(s@));
    if start >= s.len() {
        return None;
    }
    let mut v: u32 = 0;
    let mut i = start;
    while i < s.len()
        invariant
            start <= i <= s@.len(),
            s@.len() <= 4,
            digits == s@.skip(start as int),
            digits == unsigned_digits(s@),
            forall|j: int| start <= j < i ==> is_hex_digit(#[trigger] s@[j]),
            v == hex_value(s@.subrange(start as int, i as int)),
            v < pow16((i - start) as nat),
            pow16((i - start) as nat) <= 65536,
        decreases s@.len() - i,
    {
        match hex_digit(s[i]) {
            Some(d) => {
                assert(s@.subrange(start as int, i + 1).drop_last() =~= s@.subrange(
                    start as int,
                    i as int,
                ));
                let ghost p = pow16((i - start) as nat);
                assert(v * 16 + d < p * 16) by (nonlinear_arith)
                    requires
                        v < p,
                        d < 16,
                ;
                assert(pow16((i + 1 - start) as nat) == p * 16);
                assert((i - start) <= 3);
                assert(p <= 4096) by {
                    reveal_with_fuel(pow16, 5);
                    if i - start == 0 {
                        assert(p == 1);
                    } else if i - start == 1 {
                        assert(p == 16);
                    } else if i - start == 2 {
                        assert(p == 256);
                    } else {
                        assert(p == 4096);
                    }
                }
                v = v * 16 + d;
                i = i + 1;
            },
            None => {
                assert(digits[i - start] == s@[i as int]);
                assert(!is_hex_digit(digits[i - start]));
                assert(radix16(s@) is None);
                return None;
            },
        }
    }
    assert(s@.subrange(start as int, i as int) =~= digits);
    Some(v)
}

/// What reading a string literal does with `s` from index `i`, having
/// decoded `acc` so far.
pub open spec fn string_scan_from(s: Seq<char>, i: nat, acc: Seq<char>) -> Scan
    decreases s.len() - i,
{
    if i >= s.len() {
        Scan::Fail(ReadErrorKindV::EofInString, 0, s.len())
    } else if s[i as int] == '"' {
        Scan::Done(FormV::Str(acc), i + 1)
    } else if s[i as int] == '\\' {
        if i + 1 >= s.len() {
            Scan::Fail(ReadErrorKindV::EofInEscape, 0, s.len())
        } else {
            let e = s[(i + 1) as int];
            if e == 'n' {
                string_scan_from(s, i + 2, acc.push('\n'))
            } else if e == 't' {
                string_scan_from(s, i + 2, acc.push('\t'))
            } else if e == 'r' {
                string_scan_from(s, i + 2, acc.push('\r'))
            } else if e == '\\' {
                string_scan_from(s, i + 2, acc.push('\\'))
            } else if e == '"' {
                string_scan_from(s, i + 2, acc.push('"'))
            } else if e == '0' {
                string_scan_from(s, i + 2, acc.push('\0'))
            } else if e == 'u' {
                if i + 6 > s.len() {
                    Scan::Fail(ReadErrorKindV::EofInUnicodeEscape, s.len(), s.len())
                } else {
                    let hex = s.subrange((i + 2) as int, (i + 6) as int);
                    match radix16(hex) {
                        None => Scan::Fail(ReadErrorKindV::InvalidUnicodeEscape(hex), i + 6, i + 6),
                        Some(cp) => if is_scalar_value(cp) {
                            string_scan_from(s, i + 6, acc.push(cp as char))
                        } else {
                            Scan::Fail(ReadErrorKindV::InvalidCodepoint(cp), i + 6, i + 6)
                        },
                    }
                }
            } else {
                Scan::Fail(ReadErrorKindV::UnsupportedEscape(e), i + 2, i + 2)
            }
        }
    } else {
        string_scan_from(s, i + 1, acc.push(s[i as int]))
    }
}

/// What reading a string literal does with `s`, which starts with `"`.
/// Escapes: `\n \t \r \\ \" \0` and `\uXXXX`.
pub open spec fn string_scan(s: Seq<char>) -> Scan {
    string_scan_from(s, 1, Seq::empty())
}

/// Each escape in a string literal stands for its fixed code point, and the
/// reading goes on two characters later: `\n` U+000A, `\t` U+0009, `\r`
/// U+000D, `\\` U+005C, `\"` U+0022 and `\0` U+0000.
pub proof fn law_string_escape_code_points(s: Seq<char>, i: nat, acc: Seq<char>)
    requires
        i + 1 < s.len(),
        s[i as int] == '\\',
    ensures
        ({
            let e = s[(i + 1) as int];
            let rest = |cp: u32| string_scan_from(s, i + 2, acc.push(cp as char));
            &&& e == 'n' ==> string_scan_from(s, i, acc) == rest(0x0Au32)
            &&& e == 't' ==> string_scan_from(s, i, acc) == rest(0x09u32)
            &&& e == 'r' ==> string_scan_from(s, i, acc) == rest(0x0Du32)
            &&& e == '\\' ==> string_scan_from(s, i, acc) == rest(0x5Cu32)
            &&& e == '"' ==> string_scan_from(s, i, acc) == rest(0x22u32)
            &&& e == '0' ==> string_scan_from(s, i, acc) == rest(0x00u32)
        }),
{
}

/// A character of a string literal that is neither `"` nor `\` stands for
/// itself.
pub proof fn law_string_plain_char(s: Seq<char>, i: nat, acc: Seq<char>)
    requires
        i < s.len(),
        s[i as int] != '"',
        s[i as int] != '\\',
    ensures
        string_scan_from(s, i, acc) == string_scan_from(s, i + 1, acc.push(s[i as int])),
{
}

pub proof fn lemma_string_scan_within(s: Seq<char>, i: nat, acc: Seq<char>)
    requires
        i <= s.len(),
    ensures
        scan_within(string_scan_from(s, i, acc), s.len()),
        string_scan_from(s, i, acc) matches Scan::Done(_, k) ==> k > i,
    decreases s.len() - i,
{
    if i < s.len() && s[i as int] != '"' {
        if s[i as int] == '\\' {
            if i + 1 < s.len() {
                let e = s[(i + 1) as int];
                if e == 'n' || e == 't' || e == 'r' || e == '\\' || e == '"' || e == '0' {
                    lemma_string_scan_within(s, i + 2, acc.push(
                        if e == 'n' {
                            '\n'
                        } else if e == 't' {
                            '\t'
                        } else if e == 'r' {
                            '\r'
                        } else if e == '\\' {
                            '\\'
                        } else if e == '"' {
                            '"'
                        } else {
                            '\0'
                        },
                    ));
                } else if e == 'u' && i + 6 <= s.len() {
                    let hex = s.subrange((i + 2) as int, (i + 6) as int);
                    if let Some(cp) = radix16(hex) {
                        if is_scalar_value(cp) {
                            lemma_string_scan_within(s, i + 6, acc.push(cp as char));
                        }
                    }
                }
            }
        } else {
            lemma_string_scan_within(s, i + 1, acc.push(s[i as int]));
        }
    }
}

fn err_at(line: u32, column: u32, kind: ReadErrorKind) -> (e: ReadError)
    ensures
        e.kind == kind,
        e.line == line,
        e.column == column,
{
    ReadError { kind, line, column }
}

/// Decode the four characters of a `\u` escape, already consumed.
fn unicode_escape(src: &Source, hex: &Vec<char>) -> (r: Result<char, ReadError>)
    requires
        hex@.len() == 4,
    ensures
        r matches Ok(c) ==> radix16(hex@) matches Some(cp) && is_scalar_value(cp) && c == cp as char,
        r matches Err(e) ==> e.line == src.spec_line() && e.column == src.spec_column() && (match radix16(hex@) {
            None => e.kind@ == ReadErrorKindV::InvalidUnicodeEscape(hex@),
            Some(cp) => !is_scalar_value(cp) && e.kind@ == ReadErrorKindV::InvalidCodepoint(cp),
        }),
{
    match parse_hex4(hex) {
        None => Err(err_at(src.line(), src.column(), ReadErrorKind::InvalidUnicodeEscape(chars_to_string(hex)))),
        Some(cp) => match char_from_u32(cp) {
            Some(c) => Ok(c),
            None => Err(err_at(src.line(), src.column(), ReadErrorKind::InvalidCodepoint(cp))),
        },
    }
}

/// Parse a string literal; the next character is the opening `"`.
pub fn parse_string(src: &mut Source) -> (r: Result<Form, ReadError>)
    requires
        old(src).wf(),
        old(src).has_room(),
        old(src).rest().len() > 0,
        old(src).rest()[0] == '"',
    ensures
        form_outcome(*old(src), *final(src), r, string_scan(old(src).rest())),
        scan_within(string_scan(old(src).rest()), old(src).rest().len()),
        final(src).wf(),
        final(src).has_room(),
{
    let ghost s0 = *src;
    let ghost r0 = src.rest();
    let start_line = src.line();
    let start_col = src.column();
    proof {
        s0.lemma_step();
        s0.lemma_advanced(0);
        s0.lemma_advanced(1);
        lemma_string_scan_within(r0, 1, Seq::empty());
    }
    src.advance();
    let mut out: Vec<char> = Vec::new();
    let ghost mut i: nat = 1;
    loop
        invariant
            s0 == *old(src),
            s0.wf(),
            s0.has_room(),
            s0.rest() == r0,
            r0.len() > 0,
            1 <= i <= r0.len(),
            *src == s0.advanced(i),
            src.wf(),
            src.has_room(),
            src.rest() == r0.skip(i as int),
            string_scan(r0) == string_scan_from(r0, i, out@),
            start_line == s0.spec_line(),
            start_col == s0.spec_column(),
        decreases r0.len() - i,
    {
        proof {
            src.lemma_step();
        }
        let c = match src.advance() {
            Some(c) => c,
            None => {
                return Err(err_at(start_line, start_col, ReadErrorKind::EofInString));
            },
        };
        proof {
            assert(r0.skip(i as int)[0] == r0[i as int]);
            assert(r0.skip(i as int).drop_first() =~= r0.skip((i + 1) as int));
            i = i + 1;
            s0.lemma_advanced(i);
        }
        if c == '"' {
            return Ok(Form::Str(chars_to_string(&out)));
        }
        if c == '\\' {
            proof {
                src.lemma_step();
            }
            let esc = match src.advance() {
                Some(e) => e,
                None => {
                    return Err(err_at(start_line, start_col, ReadErrorKind::EofInEscape));
                },
            };
            proof {
                assert(r0.skip(i as int)[0] == r0[i as int]);
                assert(r0.skip(i as int).drop_first() =~= r0.skip((i + 1) as int));
                i = i + 1;
                s0.lemma_advanced(i);
            }
            if esc == 'n' {
                out.push('\n');
            } else if esc == 't' {
                out.push('\t');
            } else if esc == 'r' {
                out.push('\r');
            } else if esc == '\\' {
                out.push('\\');
            } else if esc == '"' {
                out.push('"');
            } else if esc == '0' {
                out.push('\0');
            } else if esc == 'u' {
                let mut hex: Vec<char> = Vec::new();
                let mut j: usize = 0;
                while j < 4
                    invariant
                        s0 == *old(src),
                        string_scan(r0) == string_scan_from(r0, (i - 2) as nat, out@),
                        r0[i - 2] == '\\',
                        r0[i - 1] == 'u',
                        s0.wf(),
                        s0.has_room(),
                        s0.rest() == r0,
                        2 <= i <= r0.len(),
                        j <= 4,
                        i + j <= r0.len(),
                        *src == s0.advanced((i + j) as nat),
                        src.wf(),
                        src.has_room(),
                        src.rest() == r0.skip(i + j),
                        hex@ == r0.subrange(i as int, i + j),
                    decreases 4 - j,
                {
                    proof {
                        src.lemma_step();
                    }
                    let d = match src.advance() {
                        Some(d) => d,
                        None => {
                            proof {
                                assert(i + j == r0.len());
                            }
                            return Err(err_at(src.line(), src.column(), ReadErrorKind::EofInUnicodeEscape));
                        },
                    };
                    proof {
                        assert(r0.skip(i + j)[0] == r0[i + j]);
                        assert(r0.skip(i + j).drop_first() =~= r0.skip(i + j + 1));
                        assert(r0.subrange(i as int, i + j + 1) =~= r0.subrange(i as int, i + j).push(d));
                        s0.lemma_advanced((i + j + 1) as nat);
                    }
                    hex.push(d);
                    j = j + 1;
                }
                let ch = match unicode_escape(src, &hex) {
                    Ok(ch) => ch,
                    Err(e) => {
                        return Err(e);
                    },
                };
                out.push(ch);
                proof {
                    i = i + 4;
                }
            } else {
                return Err(err_at(src.line(), src.column(), ReadErrorKind::UnsupportedEscape(esc)));
            }
        } else {
            out.push(c);
        }
    }
}

/// What reading a character literal does with `s`, which starts with `\`.
/// A single character stands for itself; named characters are `space`,
/// `newline`, `tab`, `return`, `backspace`, `formfeed` and `null`; `uXXXX`
/// gives a code point. The datum is a one-character string.
pub open spec fn char_scan(s: Seq<char>) -> Scan {
    if s.len() < 2 {
        Scan::Fail(ReadErrorKindV::EofAfterBackslash, 0, 1)
    } else {
        let k = 2 + token_len(s.skip(2));
        let tok = s.subrange(1, k as int);
        if tok.len() == 1 {
            Scan::Done(FormV::Str(seq![s[1]]), k)
        } else if tok == "space"@ {
            Scan::Done(FormV::Str(seq![' ']), k)
        } else if tok == "newline"@ {
            Scan::Done(FormV::Str(seq!['\n']), k)
        } else if tok == "tab"@ {
            Scan::Done(FormV::Str(seq!['\t']), k)
        } else if tok == "return"@ {
            Scan::Done(FormV::Str(seq!['\r']), k)
        } else if tok == "backspace"@ {
            Scan::Done(FormV::Str(seq!['\x08']), k)
        } else if tok == "formfeed"@ {
            Scan::Done(FormV::Str(seq!['\x0C']), k)
        } else if tok == "null"@ {
            Scan::Done(FormV::Str(seq!['\0']), k)
        } else if tok[0] == 'u' && utf8_len(tok) == 5 {
            match radix16(tok.drop_first()) {
                None => Scan::Fail(ReadErrorKindV::InvalidUnicodeChar(tok), 0, k),
                Some(cp) => if is_scalar_value(cp) {
                    Scan::Done(FormV::Str(seq![cp as char]), k)
                } else {
                    Scan::Fail(ReadErrorKindV::InvalidCharCodepoint(tok), 0, k)
                },
            }
        } else {
            Scan::Fail(ReadErrorKindV::UnsupportedCharLiteral(tok), 0, k)
        }
    }
}

/// Whether a scan read a one-character string holding code point `cp`
/// and ended at `k`.
pub open spec fn reads_code_point(r: Scan, cp: u32, k: nat) -> bool {
    match r {
        Scan::Done(FormV::Str(t), n) => t.len() == 1 && t[0] as u32 == cp && n == k,
        _ => false,
    }
}

/// Each named character literal reads as its fixed code point: `space`
/// U+0020, `newline` U+000A, `tab` U+0009, `return` U+000D, `backspace`
/// U+0008, `formfeed` U+000C and `null` U+0000, the literal ending where
/// its name ends.
pub proof fn law_named_char_code_points(s: Seq<char>)
    requires
        s.len() >= 2,
    ensures
        ({
            let k = 2 + token_len(s.skip(2));
            let name = s.subrange(1, k as int);
            &&& name == "space"@ ==> reads_code_point(char_scan(s), 0x20u32, k)
            &&& name == "newline"@ ==> reads_code_point(char_scan(s), 0x0Au32, k)
            &&& name == "tab"@ ==> reads_code_point(char_scan(s), 0x09u32, k)
            &&& name == "return"@ ==> reads_code_point(char_scan(s), 0x0Du32, k)
            &&& name == "backspace"@ ==> reads_code_point(char_scan(s), 0x08u32, k)
            &&& name == "formfeed"@ ==> reads_code_point(char_scan(s), 0x0Cu32, k)
            &&& name == "null"@ ==> reads_code_point(char_scan(s), 0x00u32, k)
        }),
{
    reveal_strlit("space");
    reveal_strlit("newline");
    reveal_strlit("tab");
    reveal_strlit("return");
    reveal_strlit("backspace");
    reveal_strlit("formfeed");
    reveal_strlit("null");
}

/// A single character after the backslash reads as itself.
pub proof fn law_single_char_literal(s: Seq<char>)
    requires
        s.len() >= 2,
        token_len(s.skip(2)) == 0,
    ensures
        reads_code_point(char_scan(s), s[1] as u32, 2),
{
}

proof fn lemma_utf8_len_ge_len(s: Seq<char>)
    ensures
        utf8_len(s) >= s.len(),
    decreases s.len(),
{
    if s.len() > 0 {
        lemma_utf8_len_ge_len(s.drop_first());
    }
}

/// UTF-8 byte length of a short character sequence.
fn short_utf8_len(s: &Vec<char>) -> (n: usize)
    requires
        s@.len() <= 8,
    ensures
        n == utf8_len(s@),
{
    let mut n: usize = 0;
    let mut i: usize = s.len();
    while i > 0
        invariant
            i <= s@.len() <= 8,
            n == utf8_len(s@.skip(i as int)),
            n <= 4 * (s@.len() - i),
        decreases i,
    {
        i = i - 1;
        n = n + utf8_width_exec(s[i]);
        assert(s@.skip(i as int).drop_first() =~= s@.skip(i + 1));
    }
    assert(s@.skip(0) =~= s@);
    n
}

/// Parse a character literal; the next character is the `\`.
pub fn parse_char(src: &mut Source) -> (r: Result<Form, ReadError>)
    requires
        old(src).wf(),
        old(src).has_room(),
        old(src).rest().len() > 0,
        old(src).rest()[0] == '\\',
    ensures
        form_outcome(*old(src), *final(src), r, char_scan(old(src).rest())),
        scan_within(char_scan(old(src).rest()), old(src).rest().len()),
        final(src).wf(),
        final(src).has_room(),
{
    let ghost s0 = *src;
    let ghost r0 = src.rest();
    let start_line = src.line();
    let start_col = src.column();
    proof {
        s0.lemma_step();
        s0.lemma_advanced(0);
        s0.lemma_advanced(1);
    }
    src.advance();
    proof {
        src.lemma_step();
        assert(r0.skip(1) =~= r0.drop_first());
    }
    let first = match src.advance() {
        Some(c) => c,
        None => {
            return Err(err_at(start_line, start_col, ReadErrorKind::EofAfterBackslash));
        },
    };
    proof {
        s0.lemma_advanced(2);
        assert(r0.skip(2) =~= r0.drop_first().drop_first());
        lemma_token_len(r0.skip(2));
    }
    let mut tok: Vec<char> = Vec::new();
    tok.push(first);
    let ghost mut k: nat = 2;
    loop
        invariant
            s0.wf(),
            s0.has_room(),
            s0.rest() == r0,
            r0.len() >= 2,
            2 <= k <= 2 + token_len(r0.skip(2)),
            2 + token_len(r0.skip(2)) <= r0.len(),
            forall|j: int| 0 <= j < token_len(r0.skip(2)) ==> !spec_is_token_terminating(#[trigger] r0.skip(2)[j]),
            token_len(r0.skip(2)) < r0.skip(2).len() ==> spec_is_token_terminating(r0.skip(2)[token_len(r0.skip(2)) as int]),
            *src == s0.advanced(k),
            src.wf(),
            src.has_room(),
            src.rest() == r0.skip(k as int),
            tok@ == r0.subrange(1, k as int),
        ensures
            k == 2 + token_len(r0.skip(2)),
            *src == s0.advanced(k),
            src.wf(),
            src.has_room(),
            tok@ == r0.subrange(1, k as int),
        decreases r0.len() - k,
    {
        match src.peek() {
            Some(c) => {
                if is_token_terminating(c) {
                    proof {
                        assert(r0.skip(2)[k - 2] == r0[k as int]);
                    }
                    break;
                }
                proof {
                    src.lemma_step();
                    assert(r0.skip(2)[k - 2] == r0[k as int]);
                }
                tok.push(c);
                src.advance();
                proof {
                    assert(r0.subrange(1, (k + 1) as int) =~= r0.subrange(1, k as int).push(c));
                    assert(r0.skip(k as int).drop_first() =~= r0.skip((k + 1) as int));
                    k = k + 1;
                    s0.lemma_advanced(k);
                }
            },
            None => {
                break;
            },
        }
    }
    let n = tok.len();
    let out_char: char = if n == 1 {
        first
    } else if chars_eq_str(&tok, "space") {
        ' '
    } else if chars_eq_str(&tok, "newline") {
        '\n'
    } else if chars_eq_str(&tok, "tab") {
        '\t'
    } else if chars_eq_str(&tok, "return") {
        '\r'
    } else if chars_eq_str(&tok, "backspace") {
        '\x08'
    } else if chars_eq_str(&tok, "formfeed") {
        '\x0C'
    } else if chars_eq_str(&tok, "null") {
        '\0'
    } else {
        proof {
            lemma_utf8_len_ge_len(tok@);
        }
        let is_u5 = tok[0] == 'u' && n <= 5 && short_utf8_len(&tok) == 5;
        if is_u5 {
            let hex = sub_chars(&tok, 1, n);
            proof {
                assert(hex@ =~= tok@.drop_first());
            }
            match parse_hex4(&hex) {
                None => {
                    return Err(err_at(start_line, start_col, ReadErrorKind::InvalidUnicodeChar(chars_to_string(&tok))));
                },
                Some(cp) => match char_from_u32(cp) {
                    Some(c) => c,
                    None => {
                        return Err(err_at(start_line, start_col, ReadErrorKind::InvalidCharCodepoint(chars_to_string(&tok))));
                    },
                },
            }
        } else {
            return Err(err_at(start_line, start_col, ReadErrorKind::UnsupportedCharLiteral(chars_to_string(&tok))));
        }
    };
    let mut out: Vec<char> = Vec::new();
    out.push(out_char);
    proof {
        assert(tok@[0] == r0[1]);
    }
    Ok(Form::Str(chars_to_string(&out)))
}

} // verus!
