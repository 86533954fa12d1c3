//! Verified core of a Clojure runtime: Murmur3 collection hashing, the
//! reader (source tracking, lexing, number/string/token parsing and reader
//! macros), the printer, built-in macro expansion, keywords, the
//! binding-frame association map, and the runtime's integer and string
//! primitives.

pub mod deferred;
pub mod equiv;
pub mod eval;
pub mod keyword;
pub mod matcher;
pub mod multifn;
pub mod murmur3;
pub mod namespace;
pub mod pmap;
pub mod primitives;
pub mod printer;
pub mod protocol;
pub mod roundtrip;
pub mod strings;
pub mod reader;
pub mod text;
