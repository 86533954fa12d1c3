//! What the reader reads of the current namespace.

use vstd::prelude::*;

verus! {

/// The current namespace as the reader sees it: its name, its aliases
/// (alias name, target namespace name), and the names it refers to Vars,
/// each with the name of the namespace the Var lives in.
pub struct ReaderContext {
    pub ns_name: String,
    pub aliases: Vec<(String, String)>,
    pub var_homes: Vec<(String, String)>,
}

/// Views of a vector of name pairs.
pub open spec fn pairs_view(v: Seq<(String, String)>) -> Seq<(Seq<char>, Seq<char>)> {
    Seq::new(v.len(), |i: int| (v[i].0@, v[i].1@))
}

/// The value paired with the first occurrence of `key`, if any.
pub open spec fn assoc_get(s: Seq<(Seq<char>, Seq<char>)>, key: Seq<char>) -> Option<Seq<char>>
    decreases s.len(),
{
    if s.len() == 0 {
        None
    } else if s[0].0 == key {
        Some(s[0].1)
    } else {
        assoc_get(s.drop_first(), key)
    }
}

impl ReaderContext {
    pub open spec fn spec_ns_name(&self) -> Seq<char> {
        self.ns_name@
    }

    pub open spec fn spec_alias(&self, alias: Seq<char>) -> Option<Seq<char>> {
        assoc_get(pairs_view(self.aliases@), alias)
    }

    pub open spec fn spec_var_home(&self, name: Seq<char>) -> Option<Seq<char>> {
        assoc_get(pairs_view(self.var_homes@), name)
    }
}

/// Looks `key` up in a vector of name pairs; the first match wins.
pub fn lookup_pair(v: &Vec<(String, String)>, key: &String) -> (r: Option<String>)
    ensures
        r matches Some(s) ==> assoc_get(pairs_view(v@), key@) == Some(s@),
        r is None ==> assoc_get(pairs_view(v@), key@) is None,
{
    let mut i: usize = 0;
    assert(pairs_view(v@).skip(0) =~= pairs_view(v@));
    while i < v.len()
        invariant
            i <= v@.len(),
            assoc_get(pairs_view(v@), key@) == assoc_get(pairs_view(v@).skip(i as int), key@),
        decreases v@.len() - i,
    {
        let ghost t = pairs_view(v@).skip(i as int);
        assert(t[0] == (v@[i as int].0@, v@[i as int].1@));
        if v[i].0 == *key {
            return Some(v[i].1.clone());
        }
        assert(t.drop_first() =~= pairs_view(v@).skip(i + 1));
        i = i + 1;
    }
    None
}

} // verus!
