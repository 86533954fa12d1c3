//! Source: wraps the input text, tracks line/column, supports
//! peek/advance/unread with one character of pushback.

use vstd::prelude::*;
use vstd::string::StringSliceAdditionalSpecFns;

verus! {

/// Byte width of a character's UTF-8 encoding.
pub open spec fn utf8_width(c: char) -> nat {
    let u = c as u32;
    if u < 0x80 {
        1
    } else if u < 0x800 {
        2
    } else if u < 0x10000 {
        3
    } else {
        4
    }
}

/// Byte length of the UTF-8 encoding of a character sequence.
pub open spec fn utf8_len(s: Seq<char>) -> nat
    decreases s.len(),
{
    if s.len() == 0 {
        0
    } else {
        utf8_width(s[0]) + utf8_len(s.drop_first())
    }
}

pub proof fn lemma_utf8_len_le_encoding_len(s: Seq<char>)
    ensures
        utf8_len(s) <= vstd::utf8::encode_utf8(s).len(),
    decreases s.len(),
{
    if s.len() > 0 {
        lemma_utf8_len_le_encoding_len(s.drop_first());
        let u = s[0] as u32;
        assert(vstd::utf8::encode_scalar(u).len() >= utf8_width(s[0]));
    }
}

pub proof fn lemma_utf8_len_take_step(s: Seq<char>, k: int)
    requires
        0 <= k < s.len(),
    ensures
        utf8_len(s.take(k + 1)) == utf8_len(s.take(k)) + utf8_width(s[k]),
    decreases k,
{
    if k > 0 {
        lemma_utf8_len_take_step(s.drop_first(), k - 1);
        assert(s.take(k + 1).drop_first() =~= s.drop_first().take(k));
        assert(s.take(k).drop_first() =~= s.drop_first().take(k - 1));
        assert(s.take(k + 1)[0] == s[0]);
        assert(s.take(k)[0] == s[0]);
        assert(s.drop_first()[k - 1] == s[k]);
    } else {
        assert(s.take(1).drop_first() =~= Seq::<char>::empty());
        assert(s.take(0).len() == 0);
        assert(s.take(1)[0] == s[0]);
        assert(utf8_len(s.take(1).drop_first()) == 0);
    }
}

pub proof fn lemma_utf8_len_take_le(s: Seq<char>, k: int)
    requires
        0 <= k <= s.len(),
    ensures
        utf8_len(s.take(k)) <= utf8_len(s),
    decreases s.len() - k,
{
    if k < s.len() {
        lemma_utf8_len_take_step(s, k);
        lemma_utf8_len_take_le(s, k + 1);
    } else {
        assert(s.take(k) =~= s);
    }
}

/// Line after consuming `c` from line `line`.
pub open spec fn next_line(line: u32, c: char) -> u32 {
    if c == '\n' {
        (line + 1) as u32
    } else {
        line
    }
}

/// Column after consuming `c` at column `column`.
pub open spec fn next_column(column: u32, c: char) -> u32 {
    if c == '\n' {
        1
    } else {
        (column + 1) as u32
    }
}

/// Line and column after consuming `s` from line `line`, column `column`.
pub open spec fn track(line: u32, column: u32, s: Seq<char>) -> (u32, u32)
    decreases s.len(),
{
    if s.len() == 0 {
        (line, column)
    } else {
        let (l, c) = track(line, column, s.drop_last());
        (next_line(l, s.last()), next_column(c, s.last()))
    }
}

/// Number of newlines in `p`.
pub open spec fn newlines(p: Seq<char>) -> nat
    decreases p.len(),
{
    if p.len() == 0 {
        0
    } else {
        newlines(p.drop_last()) + if p.last() == '\n' {
            1nat
        } else {
            0nat
        }
    }
}

/// Number of characters of `p` after its last newline (all of them when it
/// has none).
pub open spec fn since_newline(p: Seq<char>) -> nat
    decreases p.len(),
{
    if p.len() == 0 {
        0
    } else if p.last() == '\n' {
        0
    } else {
        since_newline(p.drop_last()) + 1
    }
}

/// Consuming `s` from line `line`, column `column` never takes the line
/// past `u32::MAX` (each newline adds one) nor the column (each other
/// character adds one, a newline sets it back to 1).
pub open spec fn counters_fit(line: u32, column: u32, s: Seq<char>) -> bool
    decreases s.len(),
{
    s.len() == 0 || if s[0] == '\n' {
        line < u32::MAX && counters_fit((line + 1) as u32, 1, s.drop_first())
    } else {
        column < u32::MAX && counters_fit(line, (column + 1) as u32, s.drop_first())
    }
}

/// [`counters_fit`] from line 1, column 1: whether a text can be read
/// without the line or column counter overflowing.
pub fn fits_counters(s: &str) -> (r: bool)
    ensures
        r == counters_fit(1, 1, s@),
{
    let v = crate::text::string_to_chars(s);
    let mut line: u32 = 1;
    let mut column: u32 = 1;
    let mut i: usize = 0;
    assert(v@.skip(0) =~= v@);
    while i < v.len()
        invariant
            i <= v@.len(),
            v@ == s@,
            counters_fit(1, 1, s@) == counters_fit(line, column, v@.skip(i as int)),
        decreases v@.len() - i,
    {
        let ghost t = v@.skip(i as int);
        assert(t[0] == v@[i as int]);
        assert(t.drop_first() =~= v@.skip(i + 1));
        if v[i] == '\n' {
            if line == u32::MAX {
                return false;
            }
            line = line + 1;
            column = 1;
        } else {
            if column == u32::MAX {
                return false;
            }
            column = column + 1;
        }
        i = i + 1;
    }
    assert(v@.skip(i as int).len() == 0);
    true
}

/// Reader input: the text's characters, the position of the next unread
/// character, its byte offset, the 1-based line and column, and at most
/// one pushed-back character that is read before the text resumes.
pub struct Source {
    chars: Vec<char>,
    pos: usize,
    byte_pos: usize,
    line: u32,
    column: u32,
    pushback: Option<char>,
}

impl Source {
    /// The characters still to be read, the pushed-back one first.
    pub closed spec fn rest(&self) -> Seq<char> {
        match self.pushback {
            Some(c) => seq![c] + self.chars@.skip(self.pos as int),
            None => self.chars@.skip(self.pos as int),
        }
    }

    /// The whole input text.
    pub closed spec fn text(&self) -> Seq<char> {
        self.chars@
    }

    /// Number of characters of the text consumed so far (pushback aside).
    pub closed spec fn spec_pos(&self) -> nat {
        self.pos as nat
    }

    pub closed spec fn spec_line(&self) -> u32 {
        self.line
    }

    pub closed spec fn spec_column(&self) -> u32 {
        self.column
    }

    pub closed spec fn spec_pushback(&self) -> Option<char> {
        self.pushback
    }

    pub closed spec fn wf(&self) -> bool {
        &&& self.pos <= self.chars@.len()
        &&& self.chars@.len() <= usize::MAX
        &&& self.byte_pos == utf8_len(self.chars@.take(self.pos as int))
        &&& utf8_len(self.chars@) <= usize::MAX
        &&& self.line >= 1
        &&& self.column >= 1
    }

    /// Line and column do not overflow while the rest of the input is
    /// consumed (see [`counters_fit`]), and what is left can be counted in
    /// a `usize`.
    pub open spec fn has_room(&self) -> bool {
        &&& counters_fit(self.spec_line(), self.spec_column(), self.rest())
        &&& self.rest().len() <= usize::MAX
    }

    /// What is left to read: the pushed-back character, when there is one,
    /// then the text from the position reached.
    pub proof fn law_rest(&self)
        requires
            self.wf(),
        ensures
            self.spec_pos() <= self.text().len(),
            self.rest() == match self.spec_pushback() {
                Some(c) => seq![c] + self.text().skip(self.spec_pos() as int),
                None => self.text().skip(self.spec_pos() as int),
            },
            self.spec_pushback() matches Some(c) ==> self.rest().len() > 0 && self.rest()[0] == c,
    {
    }

    /// The state after one `advance`.
    pub closed spec fn step(&self) -> Source {
        match self.pushback {
            Some(c) => Source {
                pushback: None,
                line: next_line(self.line, c),
                column: next_column(self.column, c),
                ..*self
            },
            None => if self.pos < self.chars@.len() {
                let c = self.chars@[self.pos as int];
                Source {
                    pos: (self.pos + 1) as usize,
                    byte_pos: (self.byte_pos + utf8_width(c)) as usize,
                    line: next_line(self.line, c),
                    column: next_column(self.column, c),
                    ..*self
                }
            } else {
                *self
            },
        }
    }

    /// The state after `unread(c)`.
    pub closed spec fn with_pushback(&self, c: char) -> Source {
        Source { pushback: Some(c), ..*self }
    }

    /// What `unread` pushes back is what comes next: `peek` and `advance`
    /// see it first, and after it the text resumes where it stood.
    pub proof fn law_unread_then_advance(&self, c: char)
        ensures
            self.with_pushback(c).rest().len() > 0,
            self.with_pushback(c).rest()[0] == c,
            self.with_pushback(c).step().rest() == self.text().skip(self.spec_pos() as int),
    {
        assert((seq![c] + self.chars@.skip(self.pos as int)).drop_first() =~= self.chars@.skip(
            self.pos as int,
        ));
    }

    /// `unread` of the character just read (with nothing pushed back
    /// before) puts the source back where it was, as far as reading goes.
    pub proof fn law_advance_then_unread(&self)
        requires
            self.wf(),
            self.spec_pushback() is None,
            self.rest().len() > 0,
        ensures
            self.step().with_pushback(self.rest()[0]).rest() == self.rest(),
    {
        let c = self.chars@[self.pos as int];
        assert(self.rest()[0] == c);
        assert(seq![c] + self.chars@.skip(self.pos + 1) =~= self.chars@.skip(self.pos as int));
    }

    /// The state after `k` calls of `advance`.
    pub open spec fn advanced(&self, k: nat) -> Source
        decreases k,
    {
        if k == 0 {
            *self
        } else {
            self.advanced((k - 1) as nat).step()
        }
    }

    /// Consuming the next character cannot overflow line or column.
    pub open spec fn can_step(&self) -> bool {
        &&& self.rest().len() > 0 && self.rest()[0] == '\n' ==> self.spec_line() < u32::MAX
        &&& self.rest().len() > 0 && self.rest()[0] != '\n' ==> self.spec_column() < u32::MAX
    }

    pub proof fn lemma_step(&self)
        requires
            self.wf(),
        ensures
            self.can_step() ==> self.step().wf(),
            self.has_room() ==> self.can_step(),
            self.rest().len() > 0 ==> self.step().rest() == self.rest().drop_first(),
            self.rest().len() == 0 ==> self.step() == *self,
            self.step().text() == self.text(),
            self.rest().len() > 0 ==> self.step().spec_line() == next_line(
                self.spec_line(),
                self.rest()[0],
            ) && self.step().spec_column() == next_column(self.spec_column(), self.rest()[0]),
            self.rest().len() > 0 && self.has_room() ==> self.step().has_room(),
            self.step().spec_pushback() is None,
    {
        if self.pushback is None && self.pos < self.chars@.len() {
            lemma_utf8_len_take_step(self.chars@, self.pos as int);
            lemma_utf8_len_take_le(self.chars@, self.pos + 1);
            assert(self.chars@.skip(self.pos + 1) =~= self.chars@.skip(self.pos as int).drop_first());
        }
        if self.pushback is Some {
            assert((seq![self.pushback->0] + self.chars@.skip(self.pos as int)).drop_first()
                =~= self.chars@.skip(self.pos as int));
        }
    }

    /// `k` steps consume the first `k` characters of the rest.
    pub proof fn lemma_advanced(&self, k: nat)
        requires
            self.wf(),
            self.has_room(),
            k <= self.rest().len(),
        ensures
            self.advanced(k).wf(),
            self.advanced(k).rest() == self.rest().skip(k as int),
            self.advanced(k).text() == self.text(),
            self.advanced(k).has_room(),
            k > 0 ==> self.advanced(k).spec_pushback() is None,
        decreases k,
    {
        if k == 0 {
            assert(self.rest().skip(0) =~= self.rest());
        } else {
            self.lemma_advanced((k - 1) as nat);
            self.advanced((k - 1) as nat).lemma_step();
            assert(self.rest().skip(k - 1).drop_first() =~= self.rest().skip(k as int));
        }
    }

    /// `a` steps then `b` steps are `a + b` steps.
    pub proof fn lemma_advanced_add(&self, a: nat, b: nat)
        ensures
            self.advanced(a).advanced(b) == self.advanced(a + b),
        decreases b,
    {
        if b > 0 {
            self.lemma_advanced_add(a, (b - 1) as nat);
        }
    }

    /// Line and column after `k` steps follow the characters consumed.
    pub proof fn lemma_advanced_track(&self, k: nat)
        requires
            self.wf(),
            self.has_room(),
            k <= self.rest().len(),
        ensures
            (self.advanced(k).spec_line(), self.advanced(k).spec_column()) == track(
                self.spec_line(),
                self.spec_column(),
                self.rest().take(k as int),
            ),
            self.advanced(k).spec_pos() == (if k > 0 && self.spec_pushback() is Some {
                self.spec_pos() + k - 1
            } else {
                (self.spec_pos() + k) as int
            }),
        decreases k,
    {
        if k == 0 {
            assert(self.rest().take(0) =~= Seq::<char>::empty());
        } else {
            self.lemma_advanced_track((k - 1) as nat);
            self.lemma_advanced((k - 1) as nat);
            let a = self.advanced((k - 1) as nat);
            a.lemma_step();
            assert(self.rest().take(k as int).drop_last() =~= self.rest().take(k - 1));
            assert(a.rest()[0] == self.rest()[k - 1]);
            if a.pushback is None {
                assert(a.pos < a.chars@.len());
            }
        }
    }

    /// Read from line 1, column 1 with nothing pushed back, the line is one
    /// more than the newlines consumed and the column one more than the
    /// characters consumed since the last of them.
    pub proof fn law_line_column(&self, k: nat)
        requires
            self.wf(),
            self.has_room(),
            self.spec_line() == 1,
            self.spec_column() == 1,
            k <= self.rest().len(),
        ensures
            self.advanced(k).spec_line() == 1 + newlines(self.rest().take(k as int)),
            self.advanced(k).spec_column() == 1 + since_newline(self.rest().take(k as int)),
        decreases k,
    {
        if k > 0 {
            self.law_line_column((k - 1) as nat);
            self.lemma_advanced((k - 1) as nat);
            let a = self.advanced((k - 1) as nat);
            a.lemma_step();
            let p = self.rest().take(k as int);
            assert(p.drop_last() =~= self.rest().take(k - 1));
            assert(a.rest()[0] == self.rest()[k - 1]);
            assert(p.last() == self.rest()[k - 1]);
        } else {
            assert(self.rest().take(0) =~= Seq::<char>::empty());
        }
    }

    /// A source over `input`, at line 1, column 1.
    pub fn new(input: &str) -> (s: Source)
        ensures
            s.wf(),
            s.rest() == input@,
            s.text() == input@,
            s.spec_pos() == 0,
            s.spec_line() == 1,
            s.spec_column() == 1,
            s.spec_pushback() is None,
            input@.len() <= usize::MAX,
            s.has_room() == counters_fit(1, 1, input@),
    {
        broadcast use vstd::string::group_string_axioms;

        let mut chars: Vec<char> = Vec::new();
        for c in it: input.chars()
            invariant
                chars@ == it.seq().take(it.index() as int),
        {
            chars.push(c);
        }
        let total = input.as_bytes().len();
        let _n = chars.len();
        proof {
            broadcast use vstd::string::group_string_axioms;

            assert(chars@ == input@);
            lemma_utf8_len_le_encoding_len(input@);
            assert(input.spec_bytes() == vstd::utf8::encode_utf8(input@));
            assert(chars@.take(0) =~= Seq::<char>::empty());
            assert(chars@.skip(0) =~= chars@);
        }
        Source { chars, pos: 0, byte_pos: 0, line: 1, column: 1, pushback: None }
    }

    /// Current 1-based line.
    pub fn line(&self) -> (r: u32)
        ensures
            r == self.spec_line(),
    {
        self.line
    }

    /// Current 1-based column.
    pub fn column(&self) -> (r: u32)
        ensures
            r == self.spec_column(),
    {
        self.column
    }

    /// Byte offset, in the input text, of the next character of the text
    /// (a pushed-back character aside).
    pub fn offset(&self) -> (r: usize)
        requires
            self.wf(),
        ensures
            r == utf8_len(self.text().take(self.spec_pos() as int)),
    {
        self.byte_pos
    }

    /// True when nothing is left to read.
    pub fn at_eof(&self) -> (r: bool)
        requires
            self.wf(),
        ensures
            r == (self.rest().len() == 0),
    {
        self.pushback.is_none() && self.pos >= self.chars.len()
    }

    /// The next character, without consuming it.
    pub fn peek(&self) -> (r: Option<char>)
        requires
            self.wf(),
        ensures
            r == (if self.rest().len() > 0 {
                Some(self.rest()[0])
            } else {
                None
            }),
    {
        if let Some(c) = self.pushback {
            return Some(c);
        }
        if self.pos < self.chars.len() {
            Some(self.chars[self.pos])
        } else {
            None
        }
    }

    /// The character after the next one, without consuming anything.
    pub fn peek_second(&self) -> (r: Option<char>)
        requires
            self.wf(),
        ensures
            r == (if self.rest().len() > 1 {
                Some(self.rest()[1])
            } else {
                None
            }),
    {
        match self.pushback {
            Some(_) => {
                if self.pos < self.chars.len() {
                    Some(self.chars[self.pos])
                } else {
                    None
                }
            },
            None => {
                if self.pos < self.chars.len() && self.pos + 1 < self.chars.len() {
                    Some(self.chars[self.pos + 1])
                } else {
                    None
                }
            },
        }
    }

    /// Consume and return the next character, updating line and column.
    pub fn advance(&mut self) -> (r: Option<char>)
        requires
            old(self).wf(),
            old(self).can_step(),
        ensures
            *final(self) == old(self).step(),
            final(self).wf(),
            r == (if old(self).rest().len() > 0 {
                Some(old(self).rest()[0])
            } else {
                None
            }),
    {
        proof {
            self.lemma_step();
        }
        if let Some(c) = self.pushback {
            self.pushback = None;
            self.track_pos(c);
            return Some(c);
        }
        if self.pos >= self.chars.len() {
            return None;
        }
        let c = self.chars[self.pos];
        proof {
            lemma_utf8_len_take_step(self.chars@, self.pos as int);
            lemma_utf8_len_take_le(self.chars@, self.pos + 1);
        }
        self.pos = self.pos + 1;
        self.byte_pos = self.byte_pos + utf8_width_exec(c);
        self.track_pos(c);
        Some(c)
    }

    /// Push a character back; the next `advance` or `peek` sees it first.
    /// Only one character of pushback is kept: a second `unread` replaces it.
    /// Line and column are left as they are.
    pub fn unread(&mut self, c: char)
        ensures
            *final(self) == old(self).with_pushback(c),
            final(self).wf() == old(self).wf(),
            final(self).spec_pushback() == Some(c),
            final(self).spec_line() == old(self).spec_line(),
            final(self).spec_column() == old(self).spec_column(),
            final(self).spec_pos() == old(self).spec_pos(),
            final(self).text() == old(self).text(),
            final(self).rest() == seq![c] + old(self).text().skip(old(self).spec_pos() as int),
    {
        self.pushback = Some(c);
    }

    fn track_pos(&mut self, c: char)
        requires
            c == '\n' ==> old(self).line < u32::MAX,
            c != '\n' ==> old(self).column < u32::MAX,
        ensures
            *final(self) == (Source {
                line: next_line(old(self).line, c),
                column: next_column(old(self).column, c),
                ..*old(self)
            }),
    {
        if c == '\n' {
            self.line = self.line + 1;
            self.column = 1;
        } else {
            self.column = self.column + 1;
        }
    }
}

/// Byte width of `c` in UTF-8 (what `char::len_utf8` returns).
pub fn utf8_width_exec(c: char) -> (r: usize)
    ensures
        r == utf8_width(c),
{
    let u = c as u32;
    if u < 0x80 {
        1
    } else if u < 0x800 {
        2
    } else if u < 0x10000 {
        3
    } else {
        4
    }
}

} // verus!
