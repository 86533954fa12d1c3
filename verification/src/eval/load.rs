//! Loading source text: reading its top-level forms one after another (the
//! caller evaluates each before the next is read), and the relative path a
//! namespace's source file has.

use vstd::prelude::*;
use crate::reader::context::ReaderContext;
use crate::reader::dispatch::{datum_scan, lemma_outcome_shift, lemma_skip_len_bounds, read_one, read_one_scan, skip_len, skip_ws_and_comments};
use crate::reader::lemma_read_one_after_skip;
use crate::reader::errors::{ReadError, Scan, form_outcome};
use crate::reader::form::Form;
use crate::reader::source::{Source, counters_fit};
use crate::text::{chars_to_string, decimal, push_str, push_u64_decimal, string_to_chars};

verus! {

/// The characters of a namespace name as a path: `.` becomes `/` and `-`
/// becomes `_`.
pub open spec fn munge_path(s: Seq<char>) -> Seq<char> {
    Seq::new(
        s.len(),
        |i: int|
            if s[i] == '.' {
                '/'
            } else if s[i] == '-' {
                '_'
            } else {
                s[i]
            },
    )
}

/// The path, relative to a source root, of the file holding namespace
/// `name`: `a.b-c` is `a/b_c.clj`.
pub fn source_file_rel_path(name: &str) -> (r: String)
    ensures
        r@ == munge_path(name@) + ".clj"@,
{
    let v = string_to_chars(name);
    let mut out: Vec<char> = Vec::new();
    let mut i: usize = 0;
    while i < v.len()
        invariant
            i <= v@.len(),
            out@ == munge_path(v@).take(i as int),
        decreases v@.len() - i,
    {
        let c = v[i];
        let m = if c == '.' {
            '/'
        } else if c == '-' {
            '_'
        } else {
            c
        };
        out.push(m);
        assert(munge_path(v@).take(i + 1) =~= munge_path(v@).take(i as int).push(m));
        i = i + 1;
    }
    assert(munge_path(v@).take(i as int) =~= munge_path(v@));
    let mut r = chars_to_string(&out);
    push_str(&mut r, ".clj");
    r
}

/// Reads the top-level forms of a text one at a time.
pub struct FormReader {
    pub src: Source,
    pub form_index: usize,
}

impl FormReader {
    /// The reader is usable: its source is well formed with room to count
    /// lines and columns to its end.
    pub open spec fn wf(&self) -> bool {
        self.src.wf() && self.src.has_room()
    }

    /// A reader at the start of `text`.
    pub fn new(text: &str) -> (r: FormReader)
        requires
            counters_fit(1, 1, text@),
        ensures
            r.wf(),
            r.src.rest() == text@,
            r.src.spec_line() == 1,
            r.src.spec_column() == 1,
            r.form_index == 0,
    {
        FormReader { src: Source::new(text), form_index: 0 }
    }

    /// The next form: `None` at the end of the text (only whitespace and
    /// comments left); else the form read, or the error reading it. A form
    /// read is counted in `form_index`.
    pub fn next_form(&mut self, ctx: &ReaderContext) -> (r: Option<Result<Form, ReadError>>)
        requires
            old(self).wf(),
        ensures
            final(self).wf(),
            ({
                let s0 = old(self).src;
                let w = skip_len(s0.rest());
                if w == s0.rest().len() {
                    r is None && final(self).src == s0.advanced(w) && final(self).form_index
                        == old(self).form_index
                } else {
                    r matches Some(res) && form_outcome(s0, final(self).src, res, read_one_scan(s0.rest(), *ctx))
                        && final(self).form_index == (if res is Ok && old(self).form_index < usize::MAX {
                        (old(self).form_index + 1) as usize
                    } else {
                        old(self).form_index
                    })
                }
            }),
    {
        let ghost s0 = self.src;
        let ghost w = skip_len(s0.rest());
        proof {
            lemma_skip_len_bounds(s0.rest());
            s0.lemma_advanced(w);
            lemma_read_one_after_skip(s0, *ctx);
        }
        skip_ws_and_comments(&mut self.src);
        if self.src.at_eof() {
            return None;
        }
        let r = read_one(&mut self.src, ctx);
        proof {
            lemma_outcome_shift(s0, w, self.src, r, datum_scan(s0.rest().skip(w as int), *ctx));
        }
        if r.is_ok() && self.form_index < usize::MAX {
            self.form_index = self.form_index + 1;
        }
        Some(r)
    }
}

/// The first form of `text`, or `None` when it holds only whitespace and
/// comments.
pub fn read_first_form(text: &str, ctx: &ReaderContext) -> (r: Option<Result<Form, ReadError>>)
    requires
        counters_fit(1, 1, text@),
    ensures
        ({
            let w = skip_len(text@);
            if w == text@.len() {
                r is None
            } else {
                r matches Some(res) && match read_one_scan(text@, *ctx) {
                    Scan::Done(f, _) => res matches Ok(v) && v@ == f,
                    Scan::Fail(e, _, _) => res matches Err(err) && err.kind@ == e,
                }
            }
        }),
{
    let mut rd = FormReader::new(text);
    rd.next_form(ctx)
}


/// What a load reports when the reader refuses form number `index` (the
/// forms read before it), at `line`:`column`, with the reader's message.
pub open spec fn load_read_error_text(index: nat, line: u32, column: u32, err: Seq<char>) -> Seq<char> {
    "load: reader error on form #"@ + decimal(index) + " at "@ + decimal(line as nat) + seq![':'] + decimal(
        column as nat,
    ) + ": "@ + err
}

/// What a load reports when form number `index` fails to evaluate, with
/// the evaluator's message.
pub open spec fn load_eval_error_text(index: nat, err: Seq<char>) -> Seq<char> {
    "load: eval error on form #"@ + decimal(index) + ": "@ + err
}

/// [`load_read_error_text`].
pub fn load_read_error_message(index: usize, line: u32, column: u32, err: &str) -> (r: String)
    ensures
        r@ == load_read_error_text(index as nat, line, column, err@),
{
    let mut r = String::new();
    push_str(&mut r, "load: reader error on form #");
    push_u64_decimal(&mut r, index as u64);
    push_str(&mut r, " at ");
    push_u64_decimal(&mut r, line as u64);
    crate::text::push_char(&mut r, ':');
    push_u64_decimal(&mut r, column as u64);
    push_str(&mut r, ": ");
    push_str(&mut r, err);
    r
}

/// [`load_eval_error_text`].
pub fn load_eval_error_message(index: usize, err: &str) -> (r: String)
    ensures
        r@ == load_eval_error_text(index as nat, err@),
{
    let mut r = String::new();
    push_str(&mut r, "load: eval error on form #");
    push_u64_decimal(&mut r, index as u64);
    push_str(&mut r, ": ");
    push_str(&mut r, err);
    r
}

} // verus!
