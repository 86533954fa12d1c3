//! Keywords: a namespace-qualified or plain name with a cached hash.
//! Interning one keyword object per name is left to the host side.

use vstd::prelude::*;
use std::hash::Hash;
use std::hash::Hasher;
use crate::text::{chars_to_string, find_char, first_index, lemma_first_index_from, push_char, push_str, string_to_chars, sub_chars};

verus! {

#[verifier::external_type_specification]
#[verifier::external_body]
pub struct ExFxHasher(fxhash::FxHasher);

/// `FxHasher::default`: a hasher that has seen no input.
#[verifier::external_body]
fn fx_hasher_new() -> (h: fxhash::FxHasher) {
    fxhash::FxHasher::default()
}

/// `<u64 as Hash>::hash` fed to an `FxHasher` (its `write_u64`). The state
/// it leaves depends on the machine's word size, so nothing is stated of it.
#[verifier::external_body]
fn fx_hash_u64(h: &mut fxhash::FxHasher, x: u64) {
    x.hash(h)
}

/// `<str as Hash>::hash` fed to an `FxHasher` (the bytes, then `0xff`). The
/// state it leaves depends on the machine's word size and byte order, so
/// nothing is stated of it.
#[verifier::external_body]
fn fx_hash_str(h: &mut fxhash::FxHasher, s: &str) {
    s.hash(h)
}

/// `FxHasher::finish`: the hash so far. It depends on the machine's word
/// size, so nothing is stated of it.
#[verifier::external_body]
fn fx_finish(h: &fxhash::FxHasher) -> (r: u64) {
    h.finish()
}

/// The tag hashed ahead of every keyword's name (ASCII "KEYWORD_").
pub const KEYWORD_HASH_TAG: u64 = 0x4B45_5957_4F52_445Fu64;

/// One input fed to a hasher: a 64-bit word or a text.
pub ghost enum HashInput {
    Word(u64),
    Text(Seq<char>),
}

/// An `FxHasher` together with the inputs fed to it so far, in order.
struct FedHasher {
    h: fxhash::FxHasher,
    fed: Ghost<Seq<HashInput>>,
}

impl FedHasher {
    /// A hasher that has been fed nothing.
    fn start() -> (r: FedHasher)
        ensures
            r.fed@ == Seq::<HashInput>::empty(),
    {
        FedHasher { h: fx_hasher_new(), fed: Ghost(Seq::empty()) }
    }

    /// Feed the word `x`.
    fn feed_word(&mut self, x: u64)
        ensures
            final(self).fed@ == old(self).fed@.push(HashInput::Word(x)),
    {
        fx_hash_u64(&mut self.h, x);
        self.fed = Ghost(self.fed@.push(HashInput::Word(x)));
    }

    /// Feed the text `t`.
    fn feed_text(&mut self, t: &str)
        ensures
            final(self).fed@ == old(self).fed@.push(HashInput::Text(t@)),
    {
        fx_hash_str(&mut self.h, t);
        self.fed = Ghost(self.fed@.push(HashInput::Text(t@)));
    }

    /// The hash of what was fed.
    fn finish(&self) -> u64 {
        fx_finish(&self.h)
    }
}

/// What a keyword's hash is computed from, in order: the tag, then the
/// namespace and a `/` when there is one, then the name.
pub open spec fn keyword_hash_input(ns: Option<Seq<char>>, name: Seq<char>) -> Seq<HashInput> {
    match ns {
        Some(n) => seq![
            HashInput::Word(KEYWORD_HASH_TAG),
            HashInput::Text(n),
            HashInput::Text("/"@),
            HashInput::Text(name),
        ],
        None => seq![HashInput::Word(KEYWORD_HASH_TAG), HashInput::Text(name)],
    }
}

/// Distinct keywords feed the hasher distinct inputs: the namespace counts
/// (`:a/k`, `:b/k` and `:k` are hashed from different inputs), and so does
/// the name.
pub proof fn law_keyword_hash_input_distinct(
    ns1: Option<Seq<char>>,
    name1: Seq<char>,
    ns2: Option<Seq<char>>,
    name2: Seq<char>,
)
    requires
        ns1 != ns2 || name1 != name2,
    ensures
        keyword_hash_input(ns1, name1) != keyword_hash_input(ns2, name2),
{
    let a = keyword_hash_input(ns1, name1);
    let b = keyword_hash_input(ns2, name2);
    if a == b {
        assert(a.len() == b.len());
        assert(a.last() == b.last());
        match ns1 {
            Some(n1) => {
                assert(a[1] == b[1]);
            },
            None => {},
        }
    }
}

/// A keyword with a namespace feeds the hasher that namespace, then `/`,
/// after the tag and before the name; one without feeds the tag and the name
/// alone.
pub proof fn law_keyword_hash_input_fields(ns: Option<Seq<char>>, name: Seq<char>)
    ensures
        keyword_hash_input(ns, name)[0] == HashInput::Word(KEYWORD_HASH_TAG),
        keyword_hash_input(ns, name).last() == HashInput::Text(name),
        ns is None ==> keyword_hash_input(ns, name).len() == 2,
        ns is Some ==> keyword_hash_input(ns, name).len() == 4
            && keyword_hash_input(ns, name)[1] == HashInput::Text(ns->Some_0)
            && keyword_hash_input(ns, name)[2] == HashInput::Text(seq!['/']),
{
    reveal_strlit("/");
    assert("/"@ =~= seq!['/']);
}

/// A keyword `:name` or `:ns/name`, with its hash computed once.
#[derive(Debug)]
pub struct Keyword {
    pub ns: Option<String>,
    pub name: String,
    pub hash_cache: u32,
}

/// The namespace and name a keyword is made from: given both, they are
/// taken as they are; given one text, it splits at its first `/` when both
/// sides are non-empty, and is the whole name otherwise.
pub open spec fn keyword_parts(ns_or_name: Seq<char>, name: Option<Seq<char>>) -> (
    Option<Seq<char>>,
    Seq<char>,
) {
    match name {
        Some(n) => (Some(ns_or_name), n),
        None => match first_index(ns_or_name, '/') {
            Some(i) => if i > 0 && i + 1 < ns_or_name.len() {
                (Some(ns_or_name.take(i as int)), ns_or_name.skip((i + 1) as int))
            } else {
                (None, ns_or_name)
            },
            None => (None, ns_or_name),
        },
    }
}

/// The view of an optional string.
pub open spec fn opt_view(o: Option<String>) -> Option<Seq<char>> {
    match o {
        Some(s) => Some(s@),
        None => None,
    }
}

/// `:ns/name`, or `:name` without a namespace.
pub open spec fn keyword_text(ns: Option<Seq<char>>, name: Seq<char>) -> Seq<char> {
    match ns {
        Some(n) => seq![':'] + n + seq!['/'] + name,
        None => seq![':'] + name,
    }
}

/// [`keyword_parts`]: the namespace and name of the keyword that
/// `ns_or_name` (and `name`, when given) make.
pub fn keyword_key(ns_or_name: &str, name: Option<&str>) -> (r: (Option<String>, String))
    ensures
        (opt_view(r.0), r.1@) == keyword_parts(
            ns_or_name@,
            match name {
                Some(n) => Some(n@),
                None => None,
            },
        ),
{
    let whole = string_to_chars(ns_or_name);
    match name {
        Some(n) => (Some(chars_to_string(&whole)), chars_to_string(&string_to_chars(n))),
        None => {
            proof {
                lemma_first_index_from(whole@, '/', 0);
            }
            match find_char(&whole, '/') {
                Some(i) => {
                    if i > 0 && whole.len() - i > 1 {
                        let ns = sub_chars(&whole, 0, i);
                        let nm = sub_chars(&whole, i + 1, whole.len());
                        assert(ns@ =~= whole@.take(i as int));
                        assert(nm@ =~= whole@.skip(i + 1));
                        (Some(chars_to_string(&ns)), chars_to_string(&nm))
                    } else {
                        (None, chars_to_string(&whole))
                    }
                },
                None => (None, chars_to_string(&whole)),
            }
        },
    }
}

impl Keyword {
    /// The hash of a keyword: FxHash of the tag, then the namespace and a
    /// `/` when there is one, then the name; truncated to 32 bits.
    /// Returns the hash and, as a ghost value, the inputs it was computed
    /// from.
    fn compute_hash(ns: Option<&str>, name: &str) -> (r: (u32, Ghost<Seq<HashInput>>))
        ensures
            r.1@ == keyword_hash_input(
                match ns {
                    Some(n) => Some(n@),
                    None => None,
                },
                name@,
            ),
    {
        let mut h = FedHasher::start();
        h.feed_word(KEYWORD_HASH_TAG);
        match ns {
            Some(n) => {
                h.feed_text(n);
                h.feed_text("/");
            },
            None => {},
        }
        h.feed_text(name);
        let ghost nsv = match ns {
            Some(n) => Some(n@),
            None => None,
        };
        assert(h.fed@ =~= keyword_hash_input(nsv, name@));
        (h.finish() as u32, h.fed)
    }

    /// A keyword with namespace `ns` and name `name`.
    pub fn new(ns: Option<String>, name: String) -> (k: Keyword)
        ensures
            opt_view(k.ns) == opt_view(ns),
            k.name@ == name@,
    {
        let (h, _) = match &ns {
            Some(n) => Keyword::compute_hash(Some(n.as_str()), name.as_str()),
            None => Keyword::compute_hash(None, name.as_str()),
        };
        Keyword { ns, name, hash_cache: h }
    }

    /// The namespace, if any.
    pub fn ns(&self) -> (r: Option<&str>)
        ensures
            match r {
                Some(s) => self.ns matches Some(n) && s@ == n@,
                None => self.ns is None,
            },
    {
        match &self.ns {
            Some(n) => Some(n.as_str()),
            None => None,
        }
    }

    /// The name.
    pub fn name(&self) -> (r: &str)
        ensures
            r@ == self.name@,
    {
        self.name.as_str()
    }

    /// The cached hash.
    pub fn hash(&self) -> (r: u32)
        ensures
            r == self.hash_cache,
    {
        self.hash_cache
    }

    /// Two keywords are equal when their namespaces and names are.
    pub fn equals(&self, other: &Keyword) -> (r: bool)
        ensures
            r == (opt_view(self.ns) == opt_view(other.ns) && self.name@ == other.name@),
    {
        let ns_same = match (&self.ns, &other.ns) {
            (Some(a), Some(b)) => *a == *b,
            (None, None) => true,
            _ => false,
        };
        ns_same && self.name == other.name
    }

    /// `:ns/name`, or `:name`.
    pub fn repr(&self) -> (r: String)
        ensures
            r@ == keyword_text(opt_view(self.ns), self.name@),
    {
        let mut out = String::new();
        push_char(&mut out, ':');
        match &self.ns {
            Some(n) => {
                push_str(&mut out, n.as_str());
                push_char(&mut out, '/');
            },
            None => {},
        }
        push_str(&mut out, self.name.as_str());
        out
    }
}

/// The keyword that `ns_or_name` (and `name`, when given) make, as
/// [`keyword_key`] splits them.
pub fn keyword(ns_or_name: &str, name: Option<&str>) -> (k: Keyword)
    ensures
        (opt_view(k.ns), k.name@) == keyword_parts(
            ns_or_name@,
            match name {
                Some(n) => Some(n@),
                None => None,
            },
        ),
{
    let (ns, nm) = keyword_key(ns_or_name, name);
    Keyword::new(ns, nm)
}

/// A keyword's text read back: `ns/name` given as one text makes the same
/// keyword as `ns` and `name` given apart, when neither is empty and `ns`
/// holds no `/`.
pub proof fn law_keyword_text_splits(ns: Seq<char>, name: Seq<char>)
    requires
        ns.len() > 0,
        name.len() > 0,
        !ns.contains('/'),
    ensures
        keyword_parts(ns + seq!['/'] + name, None) == keyword_parts(ns, Some(name)),
{
    let s = ns + seq!['/'] + name;
    lemma_first_index_from(s, '/', 0);
    assert(s[ns.len() as int] == '/');
    match first_index(s, '/') {
        Some(i) => {
            if i < ns.len() {
                assert(s[i as int] == ns[i as int]);
            }
            assert(i == ns.len());
            assert(s.take(i as int) =~= ns);
            assert(s.skip((i + 1) as int) =~= name);
        },
        None => {},
    }
}

} // verus!
