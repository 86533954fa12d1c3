//! Reader errors and the shape of reader outcomes.

use vstd::prelude::*;
use crate::reader::form::{Form, FormV};
use crate::reader::source::Source;

verus! {

/// Which collection literal was being read.
#[derive(PartialEq, Eq, Structural, Clone, Copy, Debug)]
pub enum Coll {
    List,
    Vector,
    ArrayMap,
    HashSet,
}

/// What went wrong while reading.
#[derive(Debug)]
pub enum ReadErrorKind {
    /// "EOF while reading"
    Eof,
    /// "Unexpected trailing content after form"
    TrailingContent,
    /// "Collection reader not yet implemented for '{c}'"
    CollectionNotImplemented(char),
    /// "Unmatched delimiter: {c}"
    UnmatchedDelimiter(char),
    /// "Reader macro '{c}' not yet implemented"
    ReaderMacroNotImplemented(char),
    /// "Expected digit after '/' in ratio literal"
    RatioMissingDigit,
    /// "Invalid float literal: {text}"
    InvalidFloat(String),
    /// Text that is no integer literal at all (a `ValueError` from `int`).
    InvalidInteger(String),
    /// "Divide by zero in ratio literal"
    RatioDivideByZero,
    /// "EOF while reading string"
    EofInString,
    /// "EOF mid-escape in string"
    EofInEscape,
    /// "EOF in \u escape"
    EofInUnicodeEscape,
    /// "Invalid \u escape: \u{hex}"
    InvalidUnicodeEscape(String),
    /// "Invalid unicode codepoint: {cp:#x}"
    InvalidCodepoint(u32),
    /// "Unsupported string escape: \{c}"
    UnsupportedEscape(char),
    /// "EOF after \"
    EofAfterBackslash,
    /// "Invalid unicode char: \{token}"
    InvalidUnicodeChar(String),
    /// "Invalid codepoint: \{token}"
    InvalidCharCodepoint(String),
    /// "Unsupported character literal: \{token}"
    UnsupportedCharLiteral(String),
    /// "empty token"
    EmptyToken,
    /// "Invalid token: {token}"
    InvalidToken(String),
    /// "empty keyword name after ':'" (or "'::'" when auto-resolving)
    EmptyKeyword(bool),
    /// "Invalid keyword: :{token}" (or "::{token}" when auto-resolving)
    InvalidKeyword(bool, String),
    /// "Invalid keyword: ::{token} — alias '{alias}' not found in current namespace"
    UnknownAlias(String, String),
    /// "EOF while reading list" (vector, map, set)
    EofInCollection(Coll),
    /// "Unmatched delimiter: expected '{expected}' but got '{got}'"
    UnmatchedInCollection(char, char),
    /// "Map literal must have an even number of forms"
    MapOddForms,
    /// "Duplicate key in set literal"
    DuplicateSetKey,
    /// "Metadata must be a map, keyword, string, or symbol"
    BadMetadata,
    /// "EOF inside regex literal"
    EofInRegex,
    /// "EOF inside regex literal (after backslash)"
    EofInRegexEscape,
    /// "splice not in list"
    SpliceNotInList,
}

pub ghost enum ReadErrorKindV {
    Eof,
    TrailingContent,
    CollectionNotImplemented(char),
    UnmatchedDelimiter(char),
    ReaderMacroNotImplemented(char),
    RatioMissingDigit,
    InvalidFloat(Seq<char>),
    InvalidInteger(Seq<char>),
    RatioDivideByZero,
    EofInString,
    EofInEscape,
    EofInUnicodeEscape,
    InvalidUnicodeEscape(Seq<char>),
    InvalidCodepoint(u32),
    UnsupportedEscape(char),
    EofAfterBackslash,
    InvalidUnicodeChar(Seq<char>),
    InvalidCharCodepoint(Seq<char>),
    UnsupportedCharLiteral(Seq<char>),
    EmptyToken,
    InvalidToken(Seq<char>),
    EmptyKeyword(bool),
    InvalidKeyword(bool, Seq<char>),
    UnknownAlias(Seq<char>, Seq<char>),
    EofInCollection(Coll),
    UnmatchedInCollection(char, char),
    MapOddForms,
    DuplicateSetKey,
    BadMetadata,
    EofInRegex,
    EofInRegexEscape,
    SpliceNotInList,
}

impl View for ReadErrorKind {
    type V = ReadErrorKindV;

    open spec fn view(&self) -> ReadErrorKindV {
        match self {
            ReadErrorKind::Eof => ReadErrorKindV::Eof,
            ReadErrorKind::TrailingContent => ReadErrorKindV::TrailingContent,
            ReadErrorKind::CollectionNotImplemented(c) => ReadErrorKindV::CollectionNotImplemented(*c),
            ReadErrorKind::UnmatchedDelimiter(c) => ReadErrorKindV::UnmatchedDelimiter(*c),
            ReadErrorKind::ReaderMacroNotImplemented(c) => ReadErrorKindV::ReaderMacroNotImplemented(*c),
            ReadErrorKind::RatioMissingDigit => ReadErrorKindV::RatioMissingDigit,
            ReadErrorKind::InvalidFloat(s) => ReadErrorKindV::InvalidFloat(s@),
            ReadErrorKind::InvalidInteger(s) => ReadErrorKindV::InvalidInteger(s@),
            ReadErrorKind::RatioDivideByZero => ReadErrorKindV::RatioDivideByZero,
            ReadErrorKind::EofInString => ReadErrorKindV::EofInString,
            ReadErrorKind::EofInEscape => ReadErrorKindV::EofInEscape,
            ReadErrorKind::EofInUnicodeEscape => ReadErrorKindV::EofInUnicodeEscape,
            ReadErrorKind::InvalidUnicodeEscape(s) => ReadErrorKindV::InvalidUnicodeEscape(s@),
            ReadErrorKind::InvalidCodepoint(u) => ReadErrorKindV::InvalidCodepoint(*u),
            ReadErrorKind::UnsupportedEscape(c) => ReadErrorKindV::UnsupportedEscape(*c),
            ReadErrorKind::EofAfterBackslash => ReadErrorKindV::EofAfterBackslash,
            ReadErrorKind::InvalidUnicodeChar(s) => ReadErrorKindV::InvalidUnicodeChar(s@),
            ReadErrorKind::InvalidCharCodepoint(s) => ReadErrorKindV::InvalidCharCodepoint(s@),
            ReadErrorKind::UnsupportedCharLiteral(s) => ReadErrorKindV::UnsupportedCharLiteral(s@),
            ReadErrorKind::EmptyToken => ReadErrorKindV::EmptyToken,
            ReadErrorKind::InvalidToken(s) => ReadErrorKindV::InvalidToken(s@),
            ReadErrorKind::EmptyKeyword(b) => ReadErrorKindV::EmptyKeyword(*b),
            ReadErrorKind::InvalidKeyword(b, s) => ReadErrorKindV::InvalidKeyword(*b, s@),
            ReadErrorKind::UnknownAlias(t, a) => ReadErrorKindV::UnknownAlias(t@, a@),
            ReadErrorKind::EofInCollection(k) => ReadErrorKindV::EofInCollection(*k),
            ReadErrorKind::UnmatchedInCollection(e, g) => ReadErrorKindV::UnmatchedInCollection(*e, *g),
            ReadErrorKind::MapOddForms => ReadErrorKindV::MapOddForms,
            ReadErrorKind::DuplicateSetKey => ReadErrorKindV::DuplicateSetKey,
            ReadErrorKind::BadMetadata => ReadErrorKindV::BadMetadata,
            ReadErrorKind::EofInRegex => ReadErrorKindV::EofInRegex,
            ReadErrorKind::EofInRegexEscape => ReadErrorKindV::EofInRegexEscape,
            ReadErrorKind::SpliceNotInList => ReadErrorKindV::SpliceNotInList,
        }
    }
}

/// A reader error with the line and column it is reported at.
#[derive(Debug)]
pub struct ReadError {
    pub kind: ReadErrorKind,
    pub line: u32,
    pub column: u32,
}

/// What a reader function does with the rest of its input: either a datum
/// and how many characters it consumed, or an error kind, how many
/// characters precede the place it is reported at, and how many characters
/// were consumed.
pub ghost enum Scan {
    Done(FormV, nat),
    Fail(ReadErrorKindV, nat, nat),
}

/// Positions of a scan moved `d` characters further into the input.
pub open spec fn scan_shift(s: Scan, d: nat) -> Scan {
    match s {
        Scan::Done(f, k) => Scan::Done(f, k + d),
        Scan::Fail(e, p, k) => Scan::Fail(e, p + d, k + d),
    }
}

/// The result and final source of a reader call agree with scan `s` over
/// the source `old`.
pub open spec fn form_outcome(old: Source, new: Source, r: Result<Form, ReadError>, s: Scan) -> bool {
    match s {
        Scan::Done(f, k) => r matches Ok(v) && v@ == f && new == old.advanced(k),
        Scan::Fail(e, p, k) => r matches Err(err) && err.kind@ == e
            && err.line == old.advanced(p).spec_line() && err.column == old.advanced(
            p,
        ).spec_column() && new == old.advanced(k),
    }
}

/// The scan stays within the input.
pub open spec fn scan_within(s: Scan, len: nat) -> bool {
    match s {
        Scan::Done(_, k) => k <= len,
        Scan::Fail(_, p, k) => p <= k <= len,
    }
}

} // verus!
