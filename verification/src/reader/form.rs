//! The data the reader produces and the printer consumes.

use vstd::prelude::*;

verus! {

/// A possibly namespace-qualified name, as carried by symbols and keywords.
#[derive(Debug)]
pub struct Sym {
    pub ns: Option<String>,
    pub name: String,
}

/// Mathematical view of a [`Sym`].
pub ghost struct SymV {
    pub ns: Option<Seq<char>>,
    pub name: Seq<char>,
}

pub open spec fn opt_str_view(o: Option<String>) -> Option<Seq<char>> {
    match o {
        Some(s) => Some(s@),
        None => None,
    }
}

impl View for Sym {
    type V = SymV;

    open spec fn view(&self) -> SymV {
        SymV { ns: opt_str_view(self.ns), name: self.name@ }
    }
}

/// A Clojure datum.
///
/// Numbers that are not 64-bit integers are carried as text: `BigInt` holds
/// the canonical decimal (optional `-`, no leading zeros); `Float` holds a
/// double's text (the literal as written in reader output, its rendering
/// when printed); `Ratio` holds the numerator (with `-` when negative) and
/// denominator digits of a ratio in lowest terms whose denominator is not 1. `Meta(m, t)` is `t` carrying the metadata map `m`.
/// `ArrayMap` holds its entries flattened as key, value, key, value, ...
/// `Host` is a value of the host runtime that none of the other variants
/// models, carried with the text the host shows it as; the reader never
/// makes one.
#[derive(Debug)]
pub enum Form {
    Nil,
    Bool(bool),
    Int(i64),
    BigInt(String),
    Float(String),
    Ratio(String, String),
    Str(String),
    Symbol(Sym),
    Keyword(Sym),
    List(Vec<Form>),
    Vector(Vec<Form>),
    ArrayMap(Vec<Form>),
    HashSet(Vec<Form>),
    Regex(String),
    Meta(Box<Form>, Box<Form>),
    Host(String),
}

/// Mathematical view of a [`Form`].
pub ghost enum FormV {
    Nil,
    Bool(bool),
    Int(i64),
    BigInt(Seq<char>),
    Float(Seq<char>),
    Ratio(Seq<char>, Seq<char>),
    Str(Seq<char>),
    Symbol(SymV),
    Keyword(SymV),
    List(Seq<FormV>),
    Vector(Seq<FormV>),
    ArrayMap(Seq<FormV>),
    HashSet(Seq<FormV>),
    Regex(Seq<char>),
    Meta(Box<FormV>, Box<FormV>),
    Host(Seq<char>),
}

pub open spec fn form_view(f: Form) -> FormV
    decreases f,
{
    match f {
        Form::Nil => FormV::Nil,
        Form::Bool(b) => FormV::Bool(b),
        Form::Int(n) => FormV::Int(n),
        Form::BigInt(s) => FormV::BigInt(s@),
        Form::Float(s) => FormV::Float(s@),
        Form::Ratio(n, d) => FormV::Ratio(n@, d@),
        Form::Str(s) => FormV::Str(s@),
        Form::Symbol(s) => FormV::Symbol(s@),
        Form::Keyword(s) => FormV::Keyword(s@),
        Form::List(v) => FormV::List(forms_view(v@)),
        Form::Vector(v) => FormV::Vector(forms_view(v@)),
        Form::ArrayMap(v) => FormV::ArrayMap(forms_view(v@)),
        Form::HashSet(v) => FormV::HashSet(forms_view(v@)),
        Form::Regex(s) => FormV::Regex(s@),
        Form::Meta(m, t) => FormV::Meta(Box::new(form_view(*m)), Box::new(form_view(*t))),
        Form::Host(s) => FormV::Host(s@),
    }
}

pub open spec fn forms_view(s: Seq<Form>) -> Seq<FormV>
    decreases s,
{
    if s.len() == 0 {
        Seq::empty()
    } else {
        forms_view(s.drop_last()).push(form_view(s.last()))
    }
}

impl View for Form {
    type V = FormV;

    open spec fn view(&self) -> FormV {
        form_view(*self)
    }
}

pub proof fn lemma_forms_view(s: Seq<Form>)
    ensures
        forms_view(s).len() == s.len(),
        forall|i: int| 0 <= i < s.len() ==> #[trigger] forms_view(s)[i] == form_view(s[i]),
    decreases s.len(),
{
    if s.len() > 0 {
        lemma_forms_view(s.drop_last());
    }
}

pub proof fn lemma_forms_view_push(s: Seq<Form>, f: Form)
    ensures
        forms_view(s.push(f)) == forms_view(s).push(form_view(f)),
{
    assert(s.push(f).drop_last() =~= s);
}

fn clone_opt_string(o: &Option<String>) -> (r: Option<String>)
    ensures
        opt_str_view(r) == opt_str_view(*o),
{
    match o {
        Some(s) => Some(s.clone()),
        None => None,
    }
}

impl Sym {
    /// A copy of this name.
    pub fn copy(&self) -> (r: Sym)
        ensures
            r@ == self@,
    {
        Sym { ns: clone_opt_string(&self.ns), name: self.name.clone() }
    }

    /// Do the two names agree (namespace and name)?
    pub fn same(&self, other: &Sym) -> (r: bool)
        ensures
            r == (self@ == other@),
    {
        let ns_same = match (&self.ns, &other.ns) {
            (Some(a), Some(b)) => *a == *b,
            (None, None) => true,
            _ => false,
        };
        ns_same && self.name == other.name
    }
}

/// A copy of every form of `v`.
pub fn copy_forms(v: &Vec<Form>) -> (r: Vec<Form>)
    ensures
        forms_view(r@) == forms_view(v@),
    decreases v,
{
    let mut r: Vec<Form> = Vec::new();
    let mut i: usize = 0;
    proof {
        lemma_forms_view(v@);
    }
    while i < v.len()
        invariant
            i <= v@.len(),
            forms_view(r@) == forms_view(v@).take(i as int),
            forms_view(v@).len() == v@.len(),
            forall|j: int| 0 <= j < v@.len() ==> #[trigger] forms_view(v@)[j] == form_view(v@[j]),
        decreases v@.len() - i,
    {
        let f = copy_form(&v[i]);
        proof {
            lemma_forms_view_push(r@, f);
        }
        r.push(f);
        assert(forms_view(v@).take(i + 1) =~= forms_view(v@).take(i as int).push(form_view(v@[i as int])));
        i = i + 1;
    }
    assert(forms_view(v@).take(i as int) =~= forms_view(v@));
    r
}

/// A copy of a form.
pub fn copy_form(f: &Form) -> (r: Form)
    ensures
        r@ == f@,
    decreases f,
{
    match f {
        Form::Nil => Form::Nil,
        Form::Bool(b) => Form::Bool(*b),
        Form::Int(n) => Form::Int(*n),
        Form::BigInt(s) => Form::BigInt(s.clone()),
        Form::Float(s) => Form::Float(s.clone()),
        Form::Ratio(n, d) => Form::Ratio(n.clone(), d.clone()),
        Form::Str(s) => Form::Str(s.clone()),
        Form::Symbol(s) => Form::Symbol(s.copy()),
        Form::Keyword(s) => Form::Keyword(s.copy()),
        Form::List(v) => Form::List(copy_forms(v)),
        Form::Vector(v) => Form::Vector(copy_forms(v)),
        Form::ArrayMap(v) => Form::ArrayMap(copy_forms(v)),
        Form::HashSet(v) => Form::HashSet(copy_forms(v)),
        Form::Regex(s) => Form::Regex(s.clone()),
        Form::Meta(m, t) => Form::Meta(Box::new(copy_form(m)), Box::new(copy_form(t))),
        Form::Host(s) => Form::Host(s.clone()),
    }
}

/// Are the two sequences of forms equal?
pub fn forms_equal(a: &Vec<Form>, b: &Vec<Form>) -> (r: bool)
    ensures
        r == (forms_view(a@) == forms_view(b@)),
    decreases a,
{
    proof {
        lemma_forms_view(a@);
        lemma_forms_view(b@);
    }
    if a.len() != b.len() {
        return false;
    }
    let mut i: usize = 0;
    while i < a.len()
        invariant
            a@.len() == b@.len(),
            i <= a@.len(),
            forms_view(a@).len() == a@.len(),
            forms_view(b@).len() == b@.len(),
            forall|j: int| 0 <= j < a@.len() ==> #[trigger] forms_view(a@)[j] == form_view(a@[j]),
            forall|j: int| 0 <= j < b@.len() ==> #[trigger] forms_view(b@)[j] == form_view(b@[j]),
            forall|j: int| 0 <= j < i ==> forms_view(a@)[j] == forms_view(b@)[j],
        decreases a@.len() - i,
    {
        if !forms_equal_one(&a[i], &b[i]) {
            assert(forms_view(a@)[i as int] != forms_view(b@)[i as int]);
            return false;
        }
        i = i + 1;
    }
    assert(forms_view(a@) =~= forms_view(b@));
    true
}

/// Are the two forms equal?
pub fn forms_equal_one(a: &Form, b: &Form) -> (r: bool)
    ensures
        r == (a@ == b@),
    decreases a,
{
    match (a, b) {
        (Form::Nil, Form::Nil) => true,
        (Form::Bool(x), Form::Bool(y)) => *x == *y,
        (Form::Int(x), Form::Int(y)) => *x == *y,
        (Form::BigInt(x), Form::BigInt(y)) => *x == *y,
        (Form::Float(x), Form::Float(y)) => *x == *y,
        (Form::Ratio(x1, x2), Form::Ratio(y1, y2)) => *x1 == *y1 && *x2 == *y2,
        (Form::Str(x), Form::Str(y)) => *x == *y,
        (Form::Symbol(x), Form::Symbol(y)) => x.same(y),
        (Form::Keyword(x), Form::Keyword(y)) => x.same(y),
        (Form::List(x), Form::List(y)) => forms_equal(x, y),
        (Form::Vector(x), Form::Vector(y)) => forms_equal(x, y),
        (Form::ArrayMap(x), Form::ArrayMap(y)) => forms_equal(x, y),
        (Form::HashSet(x), Form::HashSet(y)) => forms_equal(x, y),
        (Form::Regex(x), Form::Regex(y)) => *x == *y,
        (Form::Meta(m1, t1), Form::Meta(m2, t2)) => forms_equal_one(m1, m2) && forms_equal_one(t1, t2),
        (Form::Host(x), Form::Host(y)) => *x == *y,
        _ => false,
    }
}

/// Symbol with no namespace.
pub open spec fn sym_v(name: Seq<char>) -> FormV {
    FormV::Symbol(SymV { ns: None, name })
}

/// Namespace-qualified symbol.
pub open spec fn qsym_v(ns: Seq<char>, name: Seq<char>) -> FormV {
    FormV::Symbol(SymV { ns: Some(ns), name })
}

} // verus!
