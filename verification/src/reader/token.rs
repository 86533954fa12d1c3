//! Token parser: nil, true, false, symbols and keywords.

use vstd::prelude::*;
use crate::reader::context::{ReaderContext, lookup_pair};
use crate::reader::errors::{ReadError, ReadErrorKind, ReadErrorKindV, Scan, form_outcome, scan_within};
use crate::reader::form::{Form, FormV, Sym, SymV, sym_v};
use crate::reader::lexer::{is_token_terminating, spec_is_token_terminating};
use crate::reader::source::Source;
use crate::text::{chars_eq_str, chars_to_string, find_char, first_index, lemma_first_index_from, sub_chars};

verus! {

/// Length of the token at the start of `s`: the characters before the
/// first token-terminating one.
pub open spec fn token_len(s: Seq<char>) -> nat
    decreases s.len(),
{
    if s.len() == 0 || spec_is_token_terminating(s[0]) {
        0
    } else {
        1 + token_len(s.drop_first())
    }
}

pub proof fn lemma_token_len(s: Seq<char>)
    ensures
        token_len(s) <= s.len(),
        forall|j: int| 0 <= j < token_len(s) ==> !spec_is_token_terminating(#[trigger] s[j]),
        token_len(s) < s.len() ==> spec_is_token_terminating(s[token_len(s) as int]),
    decreases s.len(),
{
    if s.len() > 0 && !spec_is_token_terminating(s[0]) {
        lemma_token_len(s.drop_first());
        assert forall|j: int| 0 <= j < token_len(s) implies !spec_is_token_terminating(
            #[trigger] s[j],
        ) by {
            if j > 0 {
                assert(s[j] == s.drop_first()[j - 1]);
            }
        }
    }
}

/// The token at the start of `s`.
pub open spec fn token(s: Seq<char>) -> Seq<char> {
    s.take(token_len(s) as int)
}

/// Consume the token at the current position.
pub fn read_token_chars(src: &mut Source) -> (tok: Vec<char>)
    requires
        old(src).wf(),
        old(src).has_room(),
    ensures
        tok@ == token(old(src).rest()),
        *final(src) == old(src).advanced(token_len(old(src).rest())),
        final(src).wf(),
        final(src).has_room(),
{
    let ghost s0 = *src;
    let ghost r0 = src.rest();
    let mut tok: Vec<char> = Vec::new();
    let ghost mut i: nat = 0;
    proof {
        lemma_token_len(r0);
        s0.lemma_advanced(0);
        assert(r0.skip(0) =~= r0);
    }
    loop
        invariant
            s0 == *old(src),
            s0.wf(),
            s0.has_room(),
            s0.rest() == r0,
            i <= token_len(r0),
            token_len(r0) <= r0.len(),
            *src == s0.advanced(i),
            src.wf(),
            src.has_room(),
            src.rest() == r0.skip(i as int),
            tok@ == r0.take(i as int),
            token_len(r0) == i + token_len(r0.skip(i as int)),
        ensures
            i == token_len(r0),
            *src == s0.advanced(i),
            tok@ == r0.take(i as int),
            src.wf(),
            src.has_room(),
        decreases r0.len() - i,
    {
        let ghost t = r0.skip(i as int);
        match src.peek() {
            Some(c) => {
                if is_token_terminating(c) {
                    break;
                }
                proof {
                    src.lemma_step();
                }
                tok.push(c);
                src.advance();
                proof {
                    assert(t[0] == r0[i as int]);
                    assert(r0.take((i + 1) as int) =~= r0.take(i as int).push(c));
                    assert(t.drop_first() =~= r0.skip((i + 1) as int));
                    i = i + 1;
                    s0.lemma_advanced(i);
                }
            },
            None => {
                break;
            },
        }
    }
    tok
}

/// What reading a symbol, `nil`, `true` or `false` does with input `s`.
pub open spec fn symbol_scan(s: Seq<char>) -> Scan {
    let k = token_len(s);
    let tok = token(s);
    if k == 0 {
        Scan::Fail(ReadErrorKindV::EmptyToken, 0, 0)
    } else if tok == "nil"@ {
        Scan::Done(FormV::Nil, k)
    } else if tok == "true"@ {
        Scan::Done(FormV::Bool(true), k)
    } else if tok == "false"@ {
        Scan::Done(FormV::Bool(false), k)
    } else if tok == "/"@ {
        Scan::Done(sym_v(tok), k)
    } else {
        match first_index(tok, '/') {
            Some(i) => if 0 < i && i < k - 1 {
                Scan::Done(
                    FormV::Symbol(SymV { ns: Some(tok.take(i as int)), name: tok.skip((i + 1) as int) }),
                    k,
                )
            } else {
                Scan::Fail(ReadErrorKindV::InvalidToken(tok), 0, k)
            },
            None => Scan::Done(sym_v(tok), k),
        }
    }
}

fn err_at(line: u32, column: u32, kind: ReadErrorKind) -> (e: ReadError)
    ensures
        e.kind == kind,
        e.line == line,
        e.column == column,
{
    ReadError { kind, line, column }
}

/// Parse nil/true/false/symbol at the current position.
pub fn parse_symbol_or_literal(src: &mut Source) -> (r: Result<Form, ReadError>)
    requires
        old(src).wf(),
        old(src).has_room(),
    ensures
        form_outcome(*old(src), *final(src), r, symbol_scan(old(src).rest())),
        scan_within(symbol_scan(old(src).rest()), old(src).rest().len()),
        final(src).wf(),
        final(src).has_room(),
{
    let ghost s0 = *src;
    let start_line = src.line();
    let start_col = src.column();
    proof {
        lemma_token_len(s0.rest());
        s0.lemma_advanced(0);
    }
    let tok = read_token_chars(src);
    let n = tok.len();
    if n == 0 {
        return Err(err_at(start_line, start_col, ReadErrorKind::EmptyToken));
    }
    if chars_eq_str(&tok, "nil") {
        return Ok(Form::Nil);
    }
    if chars_eq_str(&tok, "true") {
        return Ok(Form::Bool(true));
    }
    if chars_eq_str(&tok, "false") {
        return Ok(Form::Bool(false));
    }
    if chars_eq_str(&tok, "/") {
        return Ok(Form::Symbol(Sym { ns: None, name: chars_to_string(&tok) }));
    }
    proof {
        lemma_first_index_from(tok@, '/', 0);
    }
    match find_char(&tok, '/') {
        Some(slash) => {
            if slash > 0 && slash < n - 1 {
                let ns = sub_chars(&tok, 0, slash);
                let name = sub_chars(&tok, slash + 1, n);
                Ok(
                    Form::Symbol(
                        Sym { ns: Some(chars_to_string(&ns)), name: chars_to_string(&name) },
                    ),
                )
            } else {
                Err(err_at(start_line, start_col, ReadErrorKind::InvalidToken(chars_to_string(&tok))))
            }
        },
        None => Ok(Form::Symbol(Sym { ns: None, name: chars_to_string(&tok) })),
    }
}

/// What reading a keyword does with input `s`, which starts with `:`.
/// `::name` takes the current namespace; `::alias/name` the namespace the
/// alias names.
pub open spec fn keyword_scan(s: Seq<char>, ctx: ReaderContext) -> Scan {
    let auto = s.len() > 1 && s[1] == ':';
    let st: nat = if auto {
        2
    } else {
        1
    };
    let tok = token(s.skip(st as int));
    let k = st + tok.len();
    if tok.len() == 0 {
        Scan::Fail(ReadErrorKindV::EmptyKeyword(auto), 0, k)
    } else {
        match first_index(tok, '/') {
            Some(i) => if i == 0 || i == tok.len() - 1 {
                Scan::Fail(ReadErrorKindV::InvalidKeyword(auto, tok), 0, k)
            } else if !auto {
                Scan::Done(
                    FormV::Keyword(SymV { ns: Some(tok.take(i as int)), name: tok.skip((i + 1) as int) }),
                    k,
                )
            } else {
                match ctx.spec_alias(tok.take(i as int)) {
                    Some(target) => Scan::Done(
                        FormV::Keyword(SymV { ns: Some(target), name: tok.skip((i + 1) as int) }),
                        k,
                    ),
                    None => Scan::Fail(
                        ReadErrorKindV::UnknownAlias(tok, tok.take(i as int)),
                        0,
                        k,
                    ),
                }
            },
            None => if !auto {
                Scan::Done(FormV::Keyword(SymV { ns: None, name: tok }), k)
            } else {
                Scan::Done(FormV::Keyword(SymV { ns: Some(ctx.spec_ns_name()), name: tok }), k)
            },
        }
    }
}

/// Parse a keyword; the next character is the `:`.
pub fn parse_keyword(src: &mut Source, ctx: &ReaderContext) -> (r: Result<Form, ReadError>)
    requires
        old(src).wf(),
        old(src).has_room(),
        old(src).rest().len() > 0,
        old(src).rest()[0] == ':',
    ensures
        form_outcome(*old(src), *final(src), r, keyword_scan(old(src).rest(), *ctx)),
        scan_within(keyword_scan(old(src).rest(), *ctx), old(src).rest().len()),
        final(src).wf(),
        final(src).has_room(),
{
    let ghost s0 = *src;
    let ghost r0 = src.rest();
    let start_line = src.line();
    let start_col = src.column();
    proof {
        s0.lemma_step();
        s0.lemma_advanced(0);
        s0.lemma_advanced(1);
    }
    src.advance();
    let auto_resolve = match src.peek() {
        Some(c) => c == ':',
        None => false,
    };
    let ghost st: nat = if auto_resolve {
        2
    } else {
        1
    };
    if auto_resolve {
        proof {
            src.lemma_step();
            s0.lemma_advanced(2);
        }
        src.advance();
    }
    proof {
        assert(src.rest() =~= r0.skip(st as int));
        lemma_token_len(r0.skip(st as int));
    }
    let tok = read_token_chars(src);
    proof {
        s0.lemma_advanced_add(st, token_len(r0.skip(st as int)));
    }
    let n = tok.len();
    if n == 0 {
        return Err(err_at(start_line, start_col, ReadErrorKind::EmptyKeyword(auto_resolve)));
    }
    proof {
        lemma_first_index_from(tok@, '/', 0);
    }
    match find_char(&tok, '/') {
        Some(slash) => {
            if slash == 0 || slash == n - 1 {
                return Err(
                    err_at(
                        start_line,
                        start_col,
                        ReadErrorKind::InvalidKeyword(auto_resolve, chars_to_string(&tok)),
                    ),
                );
            }
            let ns = sub_chars(&tok, 0, slash);
            let name = sub_chars(&tok, slash + 1, n);
            if !auto_resolve {
                return Ok(
                    Form::Keyword(
                        Sym { ns: Some(chars_to_string(&ns)), name: chars_to_string(&name) },
                    ),
                );
            }
            let alias = chars_to_string(&ns);
            match lookup_pair(&ctx.aliases, &alias) {
                Some(target) => Ok(Form::Keyword(Sym { ns: Some(target), name: chars_to_string(&name) })),
                None => Err(
                    err_at(
                        start_line,
                        start_col,
                        ReadErrorKind::UnknownAlias(chars_to_string(&tok), alias),
                    ),
                ),
            }
        },
        None => {
            if !auto_resolve {
                Ok(Form::Keyword(Sym { ns: None, name: chars_to_string(&tok) }))
            } else {
                Ok(Form::Keyword(Sym { ns: Some(ctx.ns_name.clone()), name: chars_to_string(&tok) }))
            }
        },
    }
}

} // verus!
