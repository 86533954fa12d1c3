//! Special-form names, the arguments of a special-form call, `quote`, and
//! the splitting of a top-level `(do ...)`.

use vstd::prelude::*;
use crate::reader::form::{Form, FormV, copy_form, form_view, forms_view, lemma_forms_view, lemma_forms_view_push};
use crate::reader::forms::core_form;
use crate::text::string_eq_str;

verus! {

/// Why a special-form call was refused.
#[derive(PartialEq, Eq, Structural, Clone, Copy, Debug)]
pub enum SpecialFormError {
    /// "list_rest: not a PersistentList"
    NotAList,
    /// "quote requires 1 argument (got {n})"
    QuoteArity(usize),
}

/// The special form a call's head names: `quote`, `if`, `do`, or `let`
/// (for `let` and `let*`).
pub open spec fn special_form(head: FormV) -> Option<Seq<char>> {
    match core_form(head) {
        FormV::Symbol(s) => if s.ns is Some {
            None
        } else if s.name == "quote"@ || s.name == "if"@ || s.name == "do"@ || s.name == "let"@ {
            Some(s.name)
        } else if s.name == "let*"@ {
            Some("let"@)
        } else {
            None
        },
        _ => None,
    }
}

/// The special form named by the head of a call, if any.
pub fn lookup(head: &Form) -> (r: Option<&'static str>)
    ensures
        match special_form(head@) {
            Some(n) => r matches Some(s) && s@ == n,
            None => r is None,
        },
{
    proof {
        reveal_with_fuel(form_view, 2);
    }
    let h: &Form = match head {
        Form::Meta(_, t) => &**t,
        other => other,
    };
    match h {
        Form::Symbol(s) => {
            if s.ns.is_some() {
                None
            } else if string_eq_str(&s.name, "quote") {
                Some("quote")
            } else if string_eq_str(&s.name, "if") {
                Some("if")
            } else if string_eq_str(&s.name, "do") {
                Some("do")
            } else if string_eq_str(&s.name, "let") || string_eq_str(&s.name, "let*") {
                Some("let")
            } else {
                None
            }
        },
        _ => None,
    }
}

/// The arguments of a call: the items of a non-empty list after its head.
pub open spec fn call_args(list: FormV) -> Option<Seq<FormV>> {
    match core_form(list) {
        FormV::List(items) => if items.len() > 0 {
            Some(items.skip(1))
        } else {
            None
        },
        _ => None,
    }
}

/// Copies of the forms of `items` from index `from` on.
fn copies_from(items: &Vec<Form>, from: usize) -> (r: Vec<Form>)
    requires
        from <= items@.len(),
    ensures
        forms_view(r@) == forms_view(items@).skip(from as int),
{
    proof {
        lemma_forms_view(items@);
    }
    let ghost s = forms_view(items@);
    let mut out: Vec<Form> = Vec::new();
    let mut i = from;
    assert(forms_view(out@) =~= s.subrange(from as int, from as int));
    while i < items.len()
        invariant
            from <= i <= items@.len(),
            s == forms_view(items@),
            s.len() == items@.len(),
            forall|j: int| 0 <= j < items@.len() ==> #[trigger] s[j] == form_view(items@[j]),
            forms_view(out@) == s.subrange(from as int, i as int),
        decreases items@.len() - i,
    {
        let f = copy_form(&items[i]);
        proof {
            lemma_forms_view_push(out@, f);
        }
        out.push(f);
        assert(s.subrange(from as int, i + 1) =~= s.subrange(from as int, i as int).push(s[i as int]));
        i = i + 1;
    }
    assert(s.subrange(from as int, i as int) =~= s.skip(from as int));
    out
}

/// The arguments of the call `list`; anything but a non-empty list is
/// refused.
pub fn list_rest(list: &Form) -> (r: Result<Vec<Form>, SpecialFormError>)
    ensures
        match call_args(list@) {
            Some(a) => r matches Ok(v) && forms_view(v@) == a,
            None => r == Err::<Vec<Form>, SpecialFormError>(SpecialFormError::NotAList),
        },
{
    proof {
        reveal_with_fuel(form_view, 2);
    }
    let items: &Vec<Form> = match list {
        Form::List(v) => v,
        Form::Meta(_, t) => match &**t {
            Form::List(v) => v,
            _ => {
                return Err(SpecialFormError::NotAList);
            },
        },
        _ => {
            return Err(SpecialFormError::NotAList);
        },
    };
    proof {
        lemma_forms_view(items@);
    }
    if items.len() == 0 {
        return Err(SpecialFormError::NotAList);
    }
    Ok(copies_from(items, 1))
}

/// `(quote x)` is `x`; any other number of arguments is refused.
pub fn quote_form(args: &Vec<Form>) -> (r: Result<Form, SpecialFormError>)
    ensures
        args@.len() == 1 ==> (r matches Ok(f) && f@ == args@[0]@),
        args@.len() != 1 ==> r == Err::<Form, SpecialFormError>(
            SpecialFormError::QuoteArity(args@.len() as usize),
        ),
{
    if args.len() != 1 {
        return Err(SpecialFormError::QuoteArity(args.len()));
    }
    Ok(copy_form(&args[0]))
}

/// The forms of a top-level `(do f1 f2 ...)`, headed by the bare symbol
/// `do`, which are evaluated one after another.
pub open spec fn top_level_do(form: FormV) -> Option<Seq<FormV>> {
    match core_form(form) {
        FormV::List(items) => if items.len() > 0 && core_form(items[0]) == (FormV::Symbol(
            crate::reader::form::SymV { ns: None, name: "do"@ },
        )) {
            Some(items.skip(1))
        } else {
            None
        },
        _ => None,
    }
}

/// [`top_level_do`]: the forms of a top-level `do`, or `None` for any
/// other form.
pub fn unwrap_top_level_do(form: &Form) -> (r: Option<Vec<Form>>)
    ensures
        match top_level_do(form@) {
            Some(a) => r matches Some(v) && forms_view(v@) == a,
            None => r is None,
        },
{
    proof {
        reveal_with_fuel(form_view, 2);
    }
    let items: &Vec<Form> = match form {
        Form::List(v) => v,
        Form::Meta(_, t) => match &**t {
            Form::List(v) => v,
            _ => {
                return None;
            },
        },
        _ => {
            return None;
        },
    };
    proof {
        lemma_forms_view(items@);
        reveal_with_fuel(form_view, 2);
    }
    if items.len() == 0 {
        return None;
    }
    let head: &Form = match &items[0] {
        Form::Meta(_, t) => &**t,
        other => other,
    };
    let is_do = match head {
        Form::Symbol(s) => s.ns.is_none() && string_eq_str(&s.name, "do"),
        _ => false,
    };
    if !is_do {
        return None;
    }
    Some(copies_from(items, 1))
}

/// Why a `let` was refused.
#[derive(PartialEq, Eq, Structural, Clone, Copy, Debug)]
pub enum LetError {
    /// "let requires a binding vector"
    MissingBindings,
    /// "let: first argument must be a vector of bindings"
    NotAVector,
    /// "let binding vector must have even length"
    OddBindings,
    /// "let binding name must be a Symbol"
    NameNotSymbol,
}

impl LetError {
    /// The message of the raised error.
    pub fn message(&self) -> (r: &'static str)
        ensures
            r@ == match *self {
                LetError::MissingBindings => "let requires a binding vector"@,
                LetError::NotAVector => "let: first argument must be a vector of bindings"@,
                LetError::OddBindings => "let binding vector must have even length"@,
                LetError::NameNotSymbol => "let binding name must be a Symbol"@,
            },
    {
        match self {
            LetError::MissingBindings => "let requires a binding vector",
            LetError::NotAVector => "let: first argument must be a vector of bindings",
            LetError::OddBindings => "let binding vector must have even length",
            LetError::NameNotSymbol => "let binding name must be a Symbol",
        }
    }
}

/// The number of name/value pairs of a `let` whose arguments (after the
/// `let` symbol) are `args`: the first argument must be a vector (metadata
/// aside) of even length. The body is `args` from the second on.
pub fn let_pair_count(args: &Vec<Form>) -> (r: Result<usize, LetError>)
    ensures
        args@.len() == 0 ==> r == Err::<usize, LetError>(LetError::MissingBindings),
        args@.len() > 0 ==> match core_form(args@[0]@) {
            FormV::Vector(items) => if items.len() % 2 != 0 {
                r == Err::<usize, LetError>(LetError::OddBindings)
            } else {
                r == Ok::<usize, LetError>((items.len() / 2) as usize)
            },
            _ => r == Err::<usize, LetError>(LetError::NotAVector),
        },
{
    if args.len() == 0 {
        return Err(LetError::MissingBindings);
    }
    let first: &Form = match &args[0] {
        Form::Meta(_, t) => &**t,
        other => other,
    };
    proof {
        reveal_with_fuel(form_view, 2);
    }
    match first {
        Form::Vector(items) => {
            proof {
                lemma_forms_view(items@);
            }
            if items.len() % 2 != 0 {
                Err(LetError::OddBindings)
            } else {
                Ok(items.len() / 2)
            }
        },
        _ => Err(LetError::NotAVector),
    }
}

/// The local name a `let` binds from its name form: a symbol's name (any
/// namespace and metadata aside).
pub fn let_binding_name(name_form: &Form) -> (r: Result<String, LetError>)
    ensures
        match core_form(name_form@) {
            FormV::Symbol(s) => r matches Ok(n) && n@ == s.name,
            _ => r == Err::<String, LetError>(LetError::NameNotSymbol),
        },
{
    let f: &Form = match name_form {
        Form::Meta(_, t) => &**t,
        other => other,
    };
    proof {
        reveal_with_fuel(form_view, 2);
    }
    match f {
        Form::Symbol(s) => Ok(s.name.clone()),
        _ => Err(LetError::NameNotSymbol),
    }
}

} // verus!
