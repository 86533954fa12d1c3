//! Reader dispatch: whitespace and comment skipping, number detection,
//! and `read_one`, which picks a sub-reader from the next character.

use vstd::prelude::*;
use crate::reader::context::ReaderContext;
use crate::reader::errors::{ReadError, ReadErrorKind, ReadErrorKindV, Scan, form_outcome, scan_shift, scan_within};
use crate::reader::form::Form;
use crate::reader::lexer::{is_whitespace, spec_is_whitespace, spec_is_digit};
use crate::reader::number::{number_scan, parse_number};
use crate::reader::source::Source;
use crate::reader::string::{char_scan, parse_char, parse_string, string_scan, lemma_string_scan_within};
use crate::reader::token::{keyword_scan, parse_keyword, parse_symbol_or_literal, symbol_scan};

verus! {

/// Index just past the end of the line containing position `i` of `s`
/// (past its `\n`), or the end of `s`.
pub open spec fn line_end(s: Seq<char>, i: nat) -> nat
    decreases s.len() - i,
{
    if i >= s.len() {
        s.len()
    } else if s[i as int] == '\n' {
        i + 1
    } else {
        line_end(s, i + 1)
    }
}

pub proof fn lemma_line_end_bounds(s: Seq<char>, i: nat)
    requires
        i <= s.len(),
    ensures
        i <= line_end(s, i) <= s.len(),
    decreases s.len() - i,
{
    if i < s.len() && s[i as int] != '\n' {
        lemma_line_end_bounds(s, i + 1);
    }
}

/// Number of leading characters of `s` that are whitespace (commas
/// included) or `;` line comments, each comment running through its `\n`.
pub open spec fn skip_len(s: Seq<char>) -> nat
    decreases s.len(),
{
    if s.len() == 0 {
        0
    } else if spec_is_whitespace(s[0]) {
        1 + skip_len(s.drop_first())
    } else if s[0] == ';' {
        let j = line_end(s, 1);
        proof {
            lemma_line_end_bounds(s, 1);
        }
        j + skip_len(s.skip(j as int))
    } else {
        0
    }
}

pub proof fn lemma_skip_len_bounds(s: Seq<char>)
    ensures
        skip_len(s) <= s.len(),
        skip_len(s) < s.len() ==> !spec_is_whitespace(s[skip_len(s) as int]) && s[skip_len(
            s,
        ) as int] != ';',
    decreases s.len(),
{
    if s.len() > 0 {
        if spec_is_whitespace(s[0]) {
            lemma_skip_len_bounds(s.drop_first());
        } else if s[0] == ';' {
            let j = line_end(s, 1);
            lemma_line_end_bounds(s, 1);
            lemma_skip_len_bounds(s.skip(j as int));
        }
    }
}

/// Skip whitespace (commas included) and `;` line comments.
pub fn skip_ws_and_comments(src: &mut Source)
    requires
        old(src).wf(),
        old(src).has_room(),
    ensures
        *final(src) == old(src).advanced(skip_len(old(src).rest())),
        final(src).wf(),
        final(src).has_room(),
{
    let ghost s0 = *src;
    let ghost r0 = src.rest();
    let ghost mut i: nat = 0;
    proof {
        lemma_skip_len_bounds(r0);
        s0.lemma_advanced(0);
    }
    loop
        invariant
            s0 == *old(src),
            s0.wf(),
            s0.has_room(),
            s0.rest() == r0,
            i <= r0.len(),
            *src == s0.advanced(i),
            src.wf(),
            src.has_room(),
            src.rest() == r0.skip(i as int),
            skip_len(r0) == i + skip_len(r0.skip(i as int)),
        ensures
            *src == s0.advanced(skip_len(r0)),
        decreases r0.len() - i,
    {
        let ghost t = r0.skip(i as int);
        let c = match src.peek() {
            Some(c) => c,
            None => {
                return;
            },
        };
        if is_whitespace(c) {
            proof {
                src.lemma_step();
                s0.lemma_advanced(i + 1);
                assert(t.drop_first() =~= r0.skip((i + 1) as int));
            }
            src.advance();
            proof {
                i = i + 1;
            }
            continue;
        }
        if c == ';' {
            proof {
                src.lemma_step();
                lemma_line_end_bounds(t, 1);
            }
            src.advance();
            let ghost mut m: nat = 1;
            proof {
                s0.lemma_advanced(i + 1);
            }
            loop
                invariant_except_break
                    s0.wf(),
                    s0.has_room(),
                    s0.rest() == r0,
                    t == r0.skip(i as int),
                    i + t.len() == r0.len(),
                    1 <= m <= t.len(),
                    *src == s0.advanced(i + m),
                    src.wf(),
                    src.has_room(),
                    src.rest() == t.skip(m as int),
                    line_end(t, 1) == line_end(t, m),
                ensures
                    *src == s0.advanced(i + line_end(t, 1)),
                decreases t.len() - m,
            {
                proof {
                    src.lemma_step();
                }
                match src.advance() {
                    Some(c2) => {
                        proof {
                            assert(t.skip(m as int)[0] == t[m as int]);
                            m = m + 1;
                            s0.lemma_advanced(i + m);
                            assert(t.skip(m - 1).drop_first() =~= t.skip(m as int));
                        }
                        if c2 == '\n' {
                            break;
                        }
                    },
                    None => {
                        break;
                    },
                }
            }
            proof {
                let j = line_end(t, 1);
                assert(r0.skip(i as int).skip(j as int) =~= r0.skip((i + j) as int));
                i = i + j;
                s0.lemma_advanced(i);
            }
            continue;
        }
        proof {
            assert(t[0] == c);
            assert(skip_len(t) == 0);
        }
        return;
    }
}

/// The next characters start a number: a digit, or a sign immediately
/// followed by a digit.
pub open spec fn spec_looks_like_number(s: Seq<char>) -> bool {
    s.len() > 0 && (spec_is_digit(s[0]) || ((s[0] == '+' || s[0] == '-') && s.len() > 1
        && spec_is_digit(s[1])))
}

/// Does the input at the current position look like a number?
pub fn looks_like_number(src: &Source) -> (r: bool)
    requires
        src.wf(),
    ensures
        r == spec_looks_like_number(src.rest()),
{
    match src.peek() {
        Some(c) => {
            if '0' <= c && c <= '9' {
                true
            } else if c == '+' || c == '-' {
                match src.peek_second() {
                    Some(d) => '0' <= d && d <= '9',
                    None => false,
                }
            } else {
                false
            }
        },
        None => false,
    }
}

/// What reading one datum does with input `s` that starts at the datum
/// (whitespace and comments already skipped).
pub open spec fn datum_scan(t: Seq<char>, ctx: ReaderContext) -> Scan {
    if t.len() == 0 {
        Scan::Fail(ReadErrorKindV::Eof, 0, 0)
    } else {
        let ch = t[0];
        if ch == '"' {
            string_scan(t)
        } else if ch == '\\' {
            char_scan(t)
        } else if ch == ':' {
            keyword_scan(t, ctx)
        } else if ch == '(' || ch == '[' || ch == '{' || ch == '#' {
            Scan::Fail(ReadErrorKindV::CollectionNotImplemented(ch), 0, 0)
        } else if ch == ')' || ch == ']' || ch == '}' {
            Scan::Fail(ReadErrorKindV::UnmatchedDelimiter(ch), 0, 0)
        } else if ch == '\'' || ch == '@' || ch == '^' || ch == '`' || ch == '~' {
            Scan::Fail(ReadErrorKindV::ReaderMacroNotImplemented(ch), 0, 0)
        } else if spec_looks_like_number(t) {
            number_scan(t)
        } else {
            symbol_scan(t)
        }
    }
}

/// What `read_one` does with input `s`: skip whitespace and comments, then
/// read one datum.
pub open spec fn read_one_scan(s: Seq<char>, ctx: ReaderContext) -> Scan {
    let w = skip_len(s);
    scan_shift(datum_scan(s.skip(w as int), ctx), w)
}

/// An outcome over the source `w` characters further on is the shifted
/// outcome over the source itself.
pub proof fn lemma_outcome_shift(s0: Source, w: nat, fin: Source, r: Result<Form, ReadError>, sc: Scan)
    requires
        form_outcome(s0.advanced(w), fin, r, sc),
    ensures
        form_outcome(s0, fin, r, scan_shift(sc, w)),
{
    match sc {
        Scan::Done(_, k) => {
            s0.lemma_advanced_add(w, k);
        },
        Scan::Fail(_, p, k) => {
            s0.lemma_advanced_add(w, k);
            s0.lemma_advanced_add(w, p);
        },
    }
}

/// A datum that is read consumes at least one character.
pub proof fn lemma_datum_scan_progress(t: Seq<char>, ctx: ReaderContext)
    requires
        scan_within(datum_scan(t, ctx), t.len()),
    ensures
        datum_scan(t, ctx) matches Scan::Done(_, k) ==> k >= 1,
{
    if t.len() > 0 && t[0] == '"' {
        lemma_string_scan_within(t, 1, Seq::empty());
    }
}

/// Read exactly one form starting at the current position.
pub fn read_one(src: &mut Source, ctx: &ReaderContext) -> (r: Result<Form, ReadError>)
    requires
        old(src).wf(),
        old(src).has_room(),
    ensures
        form_outcome(*old(src), *final(src), r, read_one_scan(old(src).rest(), *ctx)),
        scan_within(read_one_scan(old(src).rest(), *ctx), old(src).rest().len()),
        scan_within(datum_scan(old(src).rest().skip(skip_len(old(src).rest()) as int), *ctx), old(src).rest().skip(skip_len(old(src).rest()) as int).len()),
        final(src).wf(),
        final(src).has_room(),
{
    let ghost s0 = *src;
    let ghost r0 = src.rest();
    proof {
        lemma_skip_len_bounds(r0);
    }
    skip_ws_and_comments(src);
    let ghost w = skip_len(r0);
    let ghost s1 = *src;
    let ghost t = r0.skip(w as int);
    proof {
        s0.lemma_advanced(w);
        s1.lemma_advanced(0);
    }
    let line = src.line();
    let col = src.column();
    let ch = match src.peek() {
        Some(c) => c,
        None => {
            let r = Err(ReadError { kind: ReadErrorKind::Eof, line, column: col });
            proof {
                lemma_outcome_shift(s0, w, *src, r, datum_scan(t, *ctx));
            }
            return r;
        },
    };
    let r = if ch == '"' {
        parse_string(src)
    } else if ch == '\\' {
        parse_char(src)
    } else if ch == ':' {
        parse_keyword(src, ctx)
    } else if ch == '(' || ch == '[' || ch == '{' || ch == '#' {
        Err(ReadError { kind: ReadErrorKind::CollectionNotImplemented(ch), line, column: col })
    } else if ch == ')' || ch == ']' || ch == '}' {
        Err(ReadError { kind: ReadErrorKind::UnmatchedDelimiter(ch), line, column: col })
    } else if ch == '\'' || ch == '@' || ch == '^' || ch == '`' || ch == '~' {
        Err(ReadError { kind: ReadErrorKind::ReaderMacroNotImplemented(ch), line, column: col })
    } else if looks_like_number(src) {
        parse_number(src)
    } else {
        parse_symbol_or_literal(src)
    };
    proof {
        lemma_outcome_shift(s0, w, *src, r, datum_scan(t, *ctx));
    }
    r
}

} // verus!
