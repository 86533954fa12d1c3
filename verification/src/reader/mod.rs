//! Clojure reader: recursive-descent parsing of source text into forms.

pub mod anon_fn;
pub mod context;
pub mod decimal;
pub mod dispatch;
pub mod errors;
pub mod form;
pub mod forms;
pub mod lexer;
pub mod messages;
pub mod number;
pub mod source;
pub mod string;
pub mod syntax_quote;
pub mod token;

use vstd::prelude::*;
use crate::reader::context::ReaderContext;
use crate::reader::dispatch::{lemma_skip_len_bounds, read_one, read_one_scan, skip_len, skip_ws_and_comments, datum_scan, lemma_outcome_shift};
use crate::reader::errors::{ReadError, ReadErrorKind, ReadErrorKindV, Scan, form_outcome, scan_shift, scan_within};
use crate::reader::form::{Form, FormV};
use crate::reader::number::{number_scan, parse_number};
use crate::reader::source::{Source, counters_fit, track, utf8_len};
use crate::reader::string::{char_scan, parse_char, parse_string, string_scan};

verus! {

/// What reading a whole string does: skip whitespace, read one datum, skip
/// trailing whitespace, and fail on end of input or on trailing content.
pub open spec fn read_string_scan(s: Seq<char>, ctx: ReaderContext) -> Scan {
    let w = skip_len(s);
    if w >= s.len() {
        Scan::Fail(ReadErrorKindV::Eof, w, w)
    } else {
        match read_one_scan(s, ctx) {
            Scan::Done(f, k) => {
                let w2 = skip_len(s.skip(k as int));
                if k + w2 < s.len() {
                    Scan::Fail(ReadErrorKindV::TrailingContent, k + w2, k + w2)
                } else {
                    Scan::Done(f, k + w2)
                }
            },
            other => other,
        }
    }
}

/// What reading a prefix does: as [`read_string_scan`], but content after
/// the datum and its trailing whitespace is left unread.
pub open spec fn read_prefix_scan(s: Seq<char>, ctx: ReaderContext) -> Scan {
    let w = skip_len(s);
    if w >= s.len() {
        Scan::Fail(ReadErrorKindV::Eof, w, w)
    } else {
        match read_one_scan(s, ctx) {
            Scan::Done(f, k) => Scan::Done(f, k + skip_len(s.skip(k as int))),
            other => other,
        }
    }
}

/// The result of reading `text` from its first line and column agrees
/// with scan `sc`; errors carry the line and column they are reported at.
pub open spec fn text_outcome(text: Seq<char>, r: Result<Form, ReadError>, sc: Scan) -> bool {
    match sc {
        Scan::Done(f, _) => r matches Ok(v) && v@ == f,
        Scan::Fail(e, p, _) => r matches Err(err) && err.kind@ == e && (err.line, err.column)
            == track(1, 1, text.take(p as int)),
    }
}

proof fn lemma_skip_idempotent(s: Seq<char>)
    ensures
        skip_len(s.skip(skip_len(s) as int)) == 0,
{
    lemma_skip_len_bounds(s);
    let w = skip_len(s);
    if w < s.len() {
        assert(s.skip(w as int)[0] == s[w as int]);
    }
}

/// Reading `s` from its start: `old` is the fresh source, `s1` the source
/// after the leading whitespace.
pub proof fn lemma_read_one_after_skip(s0: Source, ctx: ReaderContext)
    requires
        s0.wf(),
        s0.has_room(),
    ensures
        read_one_scan(s0.advanced(skip_len(s0.rest())).rest(), ctx) == datum_scan(
            s0.rest().skip(skip_len(s0.rest()) as int),
            ctx,
        ),
        scan_shift(datum_scan(s0.rest().skip(skip_len(s0.rest()) as int), ctx), skip_len(s0.rest()))
            == read_one_scan(s0.rest(), ctx),
{
    lemma_skip_len_bounds(s0.rest());
    s0.lemma_advanced(skip_len(s0.rest()));
    lemma_skip_idempotent(s0.rest());
    let t = s0.rest().skip(skip_len(s0.rest()) as int);
    assert(t.skip(0) =~= t);
    match datum_scan(t, ctx) {
        Scan::Done(f, k) => {},
        Scan::Fail(e, p, k) => {},
    }
}

/// Read exactly one form from `s`. Fails on empty input (only whitespace
/// and comments), on trailing content, and on any malformed form.
pub fn read_string_py(s: &str, ctx: &ReaderContext) -> (r: Result<Form, ReadError>)
    requires
        counters_fit(1, 1, s@),
    ensures
        text_outcome(s@, r, read_string_scan(s@, *ctx)),
{
    let mut src = Source::new(s);
    let ghost s0 = src;
    skip_ws_and_comments(&mut src);
    let ghost w = skip_len(s@);
    proof {
        lemma_skip_len_bounds(s@);
        s0.lemma_advanced(w);
        s0.lemma_advanced_track(w);
        lemma_read_one_after_skip(s0, *ctx);
    }
    if src.at_eof() {
        return Err(ReadError { kind: ReadErrorKind::Eof, line: src.line(), column: src.column() });
    }
    let form = match read_one(&mut src, ctx) {
        Ok(f) => f,
        Err(e) => {
            proof {
                lemma_outcome_shift(s0, w, src, Err(e), datum_scan(s@.skip(w as int), *ctx));
                if let Scan::Fail(_, p, _) = read_one_scan(s@, *ctx) {
                    s0.lemma_advanced_track(p);
                }
            }
            return Err(e);
        },
    };
    let ghost k = match read_one_scan(s@, *ctx) {
        Scan::Done(_, k) => k,
        Scan::Fail(_, _, k) => k,
    };
    proof {
        lemma_outcome_shift(s0, w, src, Ok(form), datum_scan(s@.skip(w as int), *ctx));
        s0.lemma_advanced(k);
    }
    skip_ws_and_comments(&mut src);
    proof {
        let w2 = skip_len(s@.skip(k as int));
        lemma_skip_len_bounds(s@.skip(k as int));
        s0.lemma_advanced_add(k, w2);
        s0.lemma_advanced(k + w2);
        s0.lemma_advanced_track(k + w2);
    }
    if !src.at_eof() {
        return Err(
            ReadError { kind: ReadErrorKind::TrailingContent, line: src.line(), column: src.column() },
        );
    }
    Ok(form)
}

/// Read one form from the start of `s` and return it with the number of
/// bytes consumed. Whitespace and comments after the form are consumed;
/// any other content after it is left unread. Fails on empty input and on
/// a malformed or incomplete form.
pub fn read_string_prefix_py(s: &str, ctx: &ReaderContext) -> (r: Result<(Form, usize), ReadError>)
    requires
        counters_fit(1, 1, s@),
    ensures
        match read_prefix_scan(s@, *ctx) {
            Scan::Done(f, k) => r matches Ok(v) && v.0@ == f && v.1 == utf8_len(s@.take(k as int)),
            Scan::Fail(e, p, _) => r matches Err(err) && err.kind@ == e && (err.line, err.column)
                == track(1, 1, s@.take(p as int)),
        },
{
    let mut src = Source::new(s);
    let ghost s0 = src;
    skip_ws_and_comments(&mut src);
    let ghost w = skip_len(s@);
    proof {
        lemma_skip_len_bounds(s@);
        s0.lemma_advanced(w);
        s0.lemma_advanced_track(w);
        lemma_read_one_after_skip(s0, *ctx);
    }
    if src.at_eof() {
        return Err(ReadError { kind: ReadErrorKind::Eof, line: src.line(), column: src.column() });
    }
    let form = match read_one(&mut src, ctx) {
        Ok(f) => f,
        Err(e) => {
            proof {
                lemma_outcome_shift(s0, w, src, Err(e), datum_scan(s@.skip(w as int), *ctx));
                if let Scan::Fail(_, p, _) = read_one_scan(s@, *ctx) {
                    s0.lemma_advanced_track(p);
                }
            }
            return Err(e);
        },
    };
    let ghost k = match read_one_scan(s@, *ctx) {
        Scan::Done(_, k) => k,
        Scan::Fail(_, _, k) => k,
    };
    proof {
        lemma_outcome_shift(s0, w, src, Ok(form), datum_scan(s@.skip(w as int), *ctx));
        s0.lemma_advanced(k);
    }
    skip_ws_and_comments(&mut src);
    proof {
        let w2 = skip_len(s@.skip(k as int));
        lemma_skip_len_bounds(s@.skip(k as int));
        s0.lemma_advanced_add(k, w2);
        s0.lemma_advanced(k + w2);
        s0.lemma_advanced_track(k + w2);
    }
    let n = src.offset();
    Ok((form, n))
}

/// Parse a number from the start of `s`.
pub fn test_parse_number(s: &str) -> (r: Result<Form, ReadError>)
    requires
        counters_fit(1, 1, s@),
    ensures
        text_outcome(s@, r, number_scan(s@)),
{
    let mut src = Source::new(s);
    let ghost s0 = src;
    let r = parse_number(&mut src);
    proof {
        if let Scan::Fail(_, p, _) = number_scan(s@) {
            s0.lemma_advanced_track(p);
        }
    }
    r
}

/// Parse a string literal from the start of `s`, which starts with `"`.
pub fn test_parse_string(s: &str) -> (r: Result<Form, ReadError>)
    requires
        counters_fit(1, 1, s@),
        s@.len() > 0,
        s@[0] == '"',
    ensures
        text_outcome(s@, r, string_scan(s@)),
{
    let mut src = Source::new(s);
    let ghost s0 = src;
    let r = parse_string(&mut src);
    proof {
        if let Scan::Fail(_, p, _) = string_scan(s@) {
            s0.lemma_advanced_track(p);
        }
    }
    r
}

/// Parse a character literal from the start of `s`, which starts with `\`.
pub fn test_parse_char(s: &str) -> (r: Result<Form, ReadError>)
    requires
        counters_fit(1, 1, s@),
        s@.len() > 0,
        s@[0] == '\\',
    ensures
        text_outcome(s@, r, char_scan(s@)),
{
    let mut src = Source::new(s);
    let ghost s0 = src;
    let r = parse_char(&mut src);
    proof {
        if let Scan::Fail(_, p, _) = char_scan(s@) {
            s0.lemma_advanced_track(p);
        }
    }
    r
}

} // verus!
