//! The built-in macros, expanded before special forms are dispatched:
//! `defn`, `defmacro`, `when`, `when-not`, `cond`, `or` and `and`.

use vstd::prelude::*;
use crate::reader::form::{
    Form,
    FormV,
    SymV,
    copy_form,
    form_view,
    forms_view,
    lemma_forms_view,
    lemma_forms_view_push,
    sym_v,
};
use crate::reader::forms::{core_form, mk_sym};
use crate::text::string_eq_str;

verus! {

/// Why a built-in macro call could not be expanded.
#[derive(PartialEq, Eq, Structural, Clone, Copy, Debug)]
pub enum MacroError {
    /// "defn requires a name and a parameter vector"
    DefnArgs,
    /// "defmacro requires a name and a parameter vector"
    DefmacroArgs,
    /// "defmacro parameters must be a vector"
    DefmacroParams,
    /// "when requires a test and at least one body form"
    WhenArgs,
    /// "when-not requires a test and at least one body form"
    WhenNotArgs,
    /// "cond requires an even number of forms"
    CondOdd,
}

/// The names of the built-in macros.
pub open spec fn is_builtin_macro_name(n: Seq<char>) -> bool {
    n == "defn"@ || n == "defmacro"@ || n == "when"@ || n == "when-not"@ || n == "cond"@ || n
        == "or"@ || n == "and"@
}

/// The macro a call's head names: an unqualified symbol with a built-in
/// macro's name.
pub open spec fn builtin_macro(head: FormV) -> Option<Seq<char>> {
    match core_form(head) {
        FormV::Symbol(s) => if s.ns is None && is_builtin_macro_name(s.name) {
            Some(s.name)
        } else {
            None
        },
        _ => None,
    }
}

/// The items of a list form (none for anything else).
pub open spec fn list_items(f: FormV) -> Seq<FormV> {
    match core_form(f) {
        FormV::List(items) => items,
        _ => Seq::empty(),
    }
}

/// A list of the given forms.
pub open spec fn lst(items: Seq<FormV>) -> FormV {
    FormV::List(items)
}

/// `(defn name params body...)` → `(def name (fn name params body...))`.
pub open spec fn defn_form(args: Seq<FormV>) -> Result<FormV, MacroError> {
    if args.len() < 2 {
        Err(MacroError::DefnArgs)
    } else {
        Ok(
            lst(
                seq![
                    sym_v("def"@),
                    args[0],
                    lst(seq![sym_v("fn"@), args[0], args[1]] + args.skip(2)),
                ],
            ),
        )
    }
}

/// `(defmacro name [params] body...)` →
/// `(do (def name (fn name [&form &env params...] body...))
///      (_set-macro! (var name)) (var name))`.
pub open spec fn defmacro_form(args: Seq<FormV>) -> Result<FormV, MacroError> {
    if args.len() < 2 {
        Err(MacroError::DefmacroArgs)
    } else {
        match core_form(args[1]) {
            FormV::Vector(ps) => {
                let name = args[0];
                let params = FormV::Vector(seq![sym_v("&form"@), sym_v("&env"@)] + ps);
                let f = lst(seq![sym_v("fn"@), name, params] + args.skip(2));
                let var = lst(seq![sym_v("var"@), name]);
                Ok(
                    lst(
                        seq![
                            sym_v("do"@),
                            lst(seq![sym_v("def"@), name, f]),
                            lst(seq![sym_v("_set-macro!"@), var]),
                            var,
                        ],
                    ),
                )
            },
            _ => Err(MacroError::DefmacroParams),
        }
    }
}

/// `(when c body...)` → `(if c (do body...) nil)`.
pub open spec fn when_form(args: Seq<FormV>) -> Result<FormV, MacroError> {
    if args.len() == 0 {
        Err(MacroError::WhenArgs)
    } else {
        Ok(lst(seq![sym_v("if"@), args[0], lst(seq![sym_v("do"@)] + args.skip(1)), FormV::Nil]))
    }
}

/// `(when-not c body...)` → `(if c nil (do body...))`.
pub open spec fn when_not_form(args: Seq<FormV>) -> Result<FormV, MacroError> {
    if args.len() == 0 {
        Err(MacroError::WhenNotArgs)
    } else {
        Ok(lst(seq![sym_v("if"@), args[0], FormV::Nil, lst(seq![sym_v("do"@)] + args.skip(1))]))
    }
}

/// `c1 r1 c2 r2 ...` → `(if c1 r1 (if c2 r2 ... nil))`.
pub open spec fn cond_chain(args: Seq<FormV>) -> FormV
    decreases args.len(),
{
    if args.len() < 2 {
        FormV::Nil
    } else {
        lst(seq![sym_v("if"@), args[0], args[1], cond_chain(args.skip(2))])
    }
}

/// `(cond)` → `nil`; `(cond c1 r1 ...)` → nested `if`s; an odd number of
/// forms is refused.
pub open spec fn cond_form(args: Seq<FormV>) -> Result<FormV, MacroError> {
    if args.len() == 0 {
        Ok(FormV::Nil)
    } else if args.len() % 2 != 0 {
        Err(MacroError::CondOdd)
    } else {
        Ok(cond_chain(args))
    }
}

/// `(or)` → `nil`; `(or x)` → `x`;
/// `(or x more...)` → `(let [or__ x] (if or__ or__ (or more...)))`.
pub open spec fn or_form(args: Seq<FormV>) -> FormV
    decreases args.len(),
{
    if args.len() == 0 {
        FormV::Nil
    } else if args.len() == 1 {
        args[0]
    } else {
        let t = sym_v("or__"@);
        lst(
            seq![
                sym_v("let"@),
                FormV::Vector(seq![t, args[0]]),
                lst(seq![sym_v("if"@), t, t, or_form(args.skip(1))]),
            ],
        )
    }
}

/// `(and)` → `true`; `(and x)` → `x`;
/// `(and x more...)` → `(let [and__ x] (if and__ (and more...) and__))`.
pub open spec fn and_form(args: Seq<FormV>) -> FormV
    decreases args.len(),
{
    if args.len() == 0 {
        FormV::Bool(true)
    } else if args.len() == 1 {
        args[0]
    } else {
        let t = sym_v("and__"@);
        lst(
            seq![
                sym_v("let"@),
                FormV::Vector(seq![t, args[0]]),
                lst(seq![sym_v("if"@), t, and_form(args.skip(1)), t]),
            ],
        )
    }
}

/// The expansion of the call of built-in macro `name` with arguments `args`.
pub open spec fn expand_spec(name: Seq<char>, args: Seq<FormV>) -> Result<FormV, MacroError> {
    if name == "defn"@ {
        defn_form(args)
    } else if name == "defmacro"@ {
        defmacro_form(args)
    } else if name == "when"@ {
        when_form(args)
    } else if name == "when-not"@ {
        when_not_form(args)
    } else if name == "cond"@ {
        cond_form(args)
    } else if name == "or"@ {
        Ok(or_form(args))
    } else {
        Ok(and_form(args))
    }
}

/// Whether `r` expanded to a list of `n` items.
pub open spec fn expands_to_list_of(r: Result<FormV, MacroError>, n: nat) -> bool {
    r matches Ok(f) && f is List && list_items(f).len() == n
}

/// The expansion of `(defn name params body...)` is
/// `(def name (fn name params body...))`: the `fn` list holds one more item
/// than the arguments, and after its head it holds every argument, in order,
/// so no body form is lost.
pub proof fn law_defn_keeps_every_form(args: Seq<FormV>)
    requires
        args.len() >= 2,
    ensures
        expands_to_list_of(expand_spec("defn"@, args), 3),
        ({
            let top = list_items(expand_spec("defn"@, args)->Ok_0);
            let fun = list_items(top[2]);
            &&& top[0] == sym_v("def"@)
            &&& top[1] == args[0]
            &&& top[2] is List
            &&& fun.len() == args.len() + 1
            &&& fun[0] == sym_v("fn"@)
            &&& forall|i: int| 0 <= i < args.len() ==> fun[i + 1] == args[i]
        }),
{
    reveal_strlit("defn");
}

/// `defn` with fewer than a name and a parameter vector is refused.
pub proof fn law_defn_needs_name_and_params(args: Seq<FormV>)
    requires
        args.len() < 2,
    ensures
        expand_spec("defn"@, args) == Err::<FormV, MacroError>(MacroError::DefnArgs),
{
    reveal_strlit("defn");
}

/// The expansion of `(defmacro name [params] body...)` defines `name` as
/// `(fn name [&form &env params...] body...)`: the parameters keep their
/// order behind `&form` and `&env`, and every body form is kept, in order.
pub proof fn law_defmacro_keeps_every_form(args: Seq<FormV>, ps: Seq<FormV>)
    requires
        args.len() >= 2,
        core_form(args[1]) == FormV::Vector(ps),
    ensures
        expands_to_list_of(expand_spec("defmacro"@, args), 4),
        ({
            let top = list_items(expand_spec("defmacro"@, args)->Ok_0);
            let def = list_items(top[1]);
            let fun = list_items(def[2]);
            let params = fun[2]->Vector_0;
            &&& top[0] == sym_v("do"@)
            &&& def.len() == 3
            &&& def[0] == sym_v("def"@)
            &&& def[1] == args[0]
            &&& fun.len() == args.len() + 1
            &&& fun[0] == sym_v("fn"@)
            &&& fun[1] == args[0]
            &&& fun[2] is Vector
            &&& params.len() == ps.len() + 2
            &&& params[0] == sym_v("&form"@)
            &&& params[1] == sym_v("&env"@)
            &&& (forall|j: int| 0 <= j < ps.len() ==> params[j + 2] == ps[j])
            &&& (forall|i: int| 2 <= i < args.len() ==> fun[i + 1] == args[i])
        }),
{
    reveal_strlit("defn");
    reveal_strlit("defmacro");
    assert("defmacro"@.len() != "defn"@.len());
    assert(expand_spec("defmacro"@, args) == defmacro_form(args));
}

/// `(when c body...)` is `(if c (do body...) nil)` and `(when-not c body...)`
/// is `(if c nil (do body...))`: the `do` list holds every body form, in
/// order.
pub proof fn law_when_keeps_every_form(args: Seq<FormV>)
    requires
        args.len() >= 1,
    ensures
        expands_to_list_of(expand_spec("when"@, args), 4),
        expands_to_list_of(expand_spec("when-not"@, args), 4),
        ({
            let w = list_items(expand_spec("when"@, args)->Ok_0);
            let body = list_items(w[2]);
            &&& w[0] == sym_v("if"@)
            &&& w[1] == args[0]
            &&& w[3] == FormV::Nil
            &&& body.len() == args.len()
            &&& body[0] == sym_v("do"@)
            &&& forall|i: int| 1 <= i < args.len() ==> body[i] == args[i]
        }),
        ({
            let w = list_items(expand_spec("when-not"@, args)->Ok_0);
            let body = list_items(w[3]);
            &&& w[0] == sym_v("if"@)
            &&& w[1] == args[0]
            &&& w[2] == FormV::Nil
            &&& body.len() == args.len()
            &&& body[0] == sym_v("do"@)
            &&& forall|i: int| 1 <= i < args.len() ==> body[i] == args[i]
        }),
{
    reveal_strlit("defn");
    reveal_strlit("defmacro");
    reveal_strlit("when");
    reveal_strlit("when-not");
    assert("when"@[0] != "defn"@[0]);
    assert("when-not"@.len() != "defn"@.len());
    assert("when-not"@[0] != "defmacro"@[0]);
    assert("when-not"@.len() != "when"@.len());
    assert(expand_spec("when"@, args) == when_form(args));
    assert(expand_spec("when-not"@, args) == when_not_form(args));
}

/// The form reached from `f` by going `i` times into the last item of a
/// list (the `else` branch of an `if`).
pub open spec fn else_branch(f: FormV, i: nat) -> FormV
    decreases i,
{
    if i == 0 {
        f
    } else {
        else_branch(list_items(f)[3], (i - 1) as nat)
    }
}

proof fn lemma_cond_chain_depth(args: Seq<FormV>, i: nat)
    requires
        args.len() % 2 == 0,
        2 * i <= args.len(),
    ensures
        else_branch(cond_chain(args), i) == cond_chain(args.skip(2 * i as int)),
    decreases i,
{
    if i == 0 {
        assert(args.skip(0) =~= args);
    } else {
        lemma_cond_chain_depth(args.skip(2), (i - 1) as nat);
        assert(args.skip(2).skip(2 * (i - 1)) =~= args.skip(2 * i as int));
    }
}

/// `(cond c1 r1 c2 r2 ...)` tests its pairs in order: going `i` levels into
/// the `else` branches of its expansion gives `(if c r else)` with the
/// `i`-th pair's test and result, and below the last pair stands `nil`.
/// An odd number of forms is refused.
pub proof fn law_cond_tests_pairs_in_order(args: Seq<FormV>)
    ensures
        args.len() % 2 != 0 ==> expand_spec("cond"@, args) == Err::<FormV, MacroError>(
            MacroError::CondOdd,
        ),
        args.len() % 2 == 0 ==> expand_spec("cond"@, args) is Ok,
        args.len() % 2 == 0 ==> else_branch(expand_spec("cond"@, args)->Ok_0, args.len() / 2)
            == FormV::Nil,
        args.len() % 2 == 0 ==> forall|i: nat|
            #![trigger else_branch(expand_spec("cond"@, args)->Ok_0, i)]
            2 * i < args.len() ==> {
                let step = list_items(else_branch(expand_spec("cond"@, args)->Ok_0, i));
                &&& step.len() == 4
                &&& step[0] == sym_v("if"@)
                &&& step[1] == args[2 * i as int]
                &&& step[2] == args[2 * i as int + 1]
            },
{
    reveal_strlit("defn");
    reveal_strlit("defmacro");
    reveal_strlit("when");
    reveal_strlit("when-not");
    reveal_strlit("cond");
    assert("cond"@[0] != "defn"@[0]);
    assert("cond"@[0] != "when"@[0]);
    assert("cond"@.len() != "defmacro"@.len());
    assert("cond"@.len() != "when-not"@.len());
    assert(expand_spec("cond"@, args) == cond_form(args));
    if args.len() % 2 == 0 {
        let f = expand_spec("cond"@, args)->Ok_0;
        assert(f == cond_chain(args)) by {
            if args.len() == 0 {
            }
        };
        lemma_cond_chain_depth(args, args.len() / 2);
        assert(args.skip(args.len() as int) =~= Seq::<FormV>::empty());
        assert forall|i: nat| 2 * i < args.len() implies {
            let step = list_items(#[trigger] else_branch(f, i));
            &&& step.len() == 4
            &&& step[0] == sym_v("if"@)
            &&& step[1] == args[2 * i as int]
            &&& step[2] == args[2 * i as int + 1]
        } by {
            lemma_cond_chain_depth(args, i);
        }
    }
}

/// The form reached from `f` by going `i` times from a
/// `(let [t x] (if ...))` into item `slot` of its `if`.
pub open spec fn let_if_branch(f: FormV, slot: int, i: nat) -> FormV
    decreases i,
{
    if i == 0 {
        f
    } else {
        let_if_branch(list_items(list_items(f)[2])[slot], slot, (i - 1) as nat)
    }
}

proof fn lemma_or_depth(args: Seq<FormV>, i: nat)
    requires
        i < args.len(),
    ensures
        let_if_branch(or_form(args), 3, i) == or_form(args.skip(i as int)),
    decreases i,
{
    if i == 0 {
        assert(args.skip(0) =~= args);
    } else {
        lemma_or_depth(args.skip(1), (i - 1) as nat);
        assert(args.skip(1).skip(i - 1) =~= args.skip(i as int));
    }
}

proof fn lemma_and_depth(args: Seq<FormV>, i: nat)
    requires
        i < args.len(),
    ensures
        let_if_branch(and_form(args), 2, i) == and_form(args.skip(i as int)),
    decreases i,
{
    if i == 0 {
        assert(args.skip(0) =~= args);
    } else {
        lemma_and_depth(args.skip(1), (i - 1) as nat);
        assert(args.skip(1).skip(i - 1) =~= args.skip(i as int));
    }
}

/// `(or)` is `nil`; `(or x1 ... xn)` binds its forms in order, each level
/// `(let [or__ xi] (if or__ or__ more))` going on into `more` only when
/// `xi` is false, and the last form stands alone at the bottom.
pub proof fn law_or_tries_forms_in_order(args: Seq<FormV>)
    ensures
        args.len() == 0 ==> or_form(args) == FormV::Nil,
        args.len() > 0 ==> let_if_branch(or_form(args), 3, (args.len() - 1) as nat) == args.last(),
        forall|i: nat|
            #![trigger let_if_branch(or_form(args), 3, i)]
            i + 1 < args.len() ==> {
                let step = list_items(let_if_branch(or_form(args), 3, i));
                let test = list_items(step[2]);
                let t = sym_v("or__"@);
                &&& step.len() == 3
                &&& step[0] == sym_v("let"@)
                &&& step[1] == FormV::Vector(seq![t, args[i as int]])
                &&& test.len() == 4
                &&& test[0] == sym_v("if"@)
                &&& test[1] == t
                &&& test[2] == t
            },
{
    if args.len() > 0 {
        lemma_or_depth(args, (args.len() - 1) as nat);
    }
    assert forall|i: nat| i + 1 < args.len() implies {
        let step = list_items(#[trigger] let_if_branch(or_form(args), 3, i));
        let test = list_items(step[2]);
        let t = sym_v("or__"@);
        &&& step.len() == 3
        &&& step[0] == sym_v("let"@)
        &&& step[1] == FormV::Vector(seq![t, args[i as int]])
        &&& test.len() == 4
        &&& test[0] == sym_v("if"@)
        &&& test[1] == t
        &&& test[2] == t
    } by {
        lemma_or_depth(args, i);
    }
}

/// `(and)` is `true`; `(and x1 ... xn)` binds its forms in order, each level
/// `(let [and__ xi] (if and__ more and__))` going on into `more` only when
/// `xi` is true, and the last form stands alone at the bottom.
pub proof fn law_and_tries_forms_in_order(args: Seq<FormV>)
    ensures
        args.len() == 0 ==> and_form(args) == FormV::Bool(true),
        args.len() > 0 ==> let_if_branch(and_form(args), 2, (args.len() - 1) as nat) == args.last(),
        forall|i: nat|
            #![trigger let_if_branch(and_form(args), 2, i)]
            i + 1 < args.len() ==> {
                let step = list_items(let_if_branch(and_form(args), 2, i));
                let test = list_items(step[2]);
                let t = sym_v("and__"@);
                &&& step.len() == 3
                &&& step[0] == sym_v("let"@)
                &&& step[1] == FormV::Vector(seq![t, args[i as int]])
                &&& test.len() == 4
                &&& test[0] == sym_v("if"@)
                &&& test[1] == t
                &&& test[3] == t
            },
{
    if args.len() > 0 {
        lemma_and_depth(args, (args.len() - 1) as nat);
    }
    assert forall|i: nat| i + 1 < args.len() implies {
        let step = list_items(#[trigger] let_if_branch(and_form(args), 2, i));
        let test = list_items(step[2]);
        let t = sym_v("and__"@);
        &&& step.len() == 3
        &&& step[0] == sym_v("let"@)
        &&& step[1] == FormV::Vector(seq![t, args[i as int]])
        &&& test.len() == 4
        &&& test[0] == sym_v("if"@)
        &&& test[1] == t
        &&& test[3] == t
    } by {
        lemma_and_depth(args, i);
    }
}

/// The view of an expansion result.
pub open spec fn result_view(r: Result<Form, MacroError>) -> Result<FormV, MacroError> {
    match r {
        Ok(f) => Ok(f@),
        Err(e) => Err(e),
    }
}

/// The built-in macro named by the head of a call, if any.
pub fn lookup_builtin_macro(head: &Form) -> (r: Option<&'static str>)
    ensures
        match builtin_macro(head@) {
            Some(n) => r matches Some(s) && s@ == n,
            None => r is None,
        },
{
    proof {
        reveal_with_fuel(form_view, 2);
    }
    let h: &Form = match head {
        Form::Meta(_, t) => &**t,
        other => other,
    };
    match h {
        Form::Symbol(s) => {
            if s.ns.is_some() {
                None
            } else if string_eq_str(&s.name, "defn") {
                Some("defn")
            } else if string_eq_str(&s.name, "defmacro") {
                Some("defmacro")
            } else if string_eq_str(&s.name, "when") {
                Some("when")
            } else if string_eq_str(&s.name, "when-not") {
                Some("when-not")
            } else if string_eq_str(&s.name, "cond") {
                Some("cond")
            } else if string_eq_str(&s.name, "or") {
                Some("or")
            } else if string_eq_str(&s.name, "and") {
                Some("and")
            } else {
                None
            }
        },
        _ => None,
    }
}

/// A list of the forms of `v`.
fn list_of(v: Vec<Form>) -> (f: Form)
    ensures
        f@ == lst(forms_view(v@)),
{
    Form::List(v)
}

/// Push `f` onto `v`.
fn push_form(v: &mut Vec<Form>, f: Form)
    ensures
        forms_view(final(v)@) == forms_view(old(v)@).push(f@),
{
    proof {
        lemma_forms_view_push(v@, f);
    }
    v.push(f);
}

/// Push copies of the forms of `src` from index `from` on.
fn push_copies(v: &mut Vec<Form>, src: &Vec<Form>, from: usize)
    requires
        from <= src@.len(),
    ensures
        forms_view(final(v)@) == forms_view(old(v)@) + forms_view(src@).skip(from as int),
{
    proof {
        lemma_forms_view(src@);
    }
    let ghost start = forms_view(v@);
    let ghost s = forms_view(src@);
    let mut i = from;
    assert(s.subrange(from as int, from as int) =~= Seq::<FormV>::empty());
    assert(start + Seq::<FormV>::empty() =~= start);
    while i < src.len()
        invariant
            from <= i <= src@.len(),
            s == forms_view(src@),
            s.len() == src@.len(),
            forall|j: int| 0 <= j < src@.len() ==> #[trigger] s[j] == form_view(src@[j]),
            forms_view(v@) == start + s.subrange(from as int, i as int),
        decreases src@.len() - i,
    {
        push_form(v, copy_form(&src[i]));
        assert(s.subrange(from as int, i + 1) =~= s.subrange(from as int, i as int).push(s[i as int]));
        i = i + 1;
    }
    assert(s.subrange(from as int, i as int) =~= s.skip(from as int));
}

fn empty_forms() -> (v: Vec<Form>)
    ensures
        forms_view(v@) == Seq::<FormV>::empty(),
{
    let v: Vec<Form> = Vec::new();
    assert(forms_view(v@) =~= Seq::<FormV>::empty());
    v
}

fn list2(a: Form, b: Form) -> (f: Form)
    ensures
        f@ == lst(seq![a@, b@]),
{
    let mut v = empty_forms();
    push_form(&mut v, a);
    push_form(&mut v, b);
    assert(forms_view(v@) =~= seq![a@, b@]);
    list_of(v)
}

fn list3(a: Form, b: Form, c: Form) -> (f: Form)
    ensures
        f@ == lst(seq![a@, b@, c@]),
{
    let mut v = empty_forms();
    push_form(&mut v, a);
    push_form(&mut v, b);
    push_form(&mut v, c);
    assert(forms_view(v@) =~= seq![a@, b@, c@]);
    list_of(v)
}

fn list4(a: Form, b: Form, c: Form, d: Form) -> (f: Form)
    ensures
        f@ == lst(seq![a@, b@, c@, d@]),
{
    let mut v = empty_forms();
    push_form(&mut v, a);
    push_form(&mut v, b);
    push_form(&mut v, c);
    push_form(&mut v, d);
    assert(forms_view(v@) =~= seq![a@, b@, c@, d@]);
    list_of(v)
}

/// `(head items[from..]...)`.
fn head_and_rest(head: Form, items: &Vec<Form>, from: usize) -> (f: Form)
    requires
        from <= items@.len(),
    ensures
        f@ == lst(seq![head@] + forms_view(items@).skip(from as int)),
{
    let mut v = empty_forms();
    push_form(&mut v, head);
    push_copies(&mut v, items, from);
    assert(Seq::<FormV>::empty().push(head@) =~= seq![head@]);
    list_of(v)
}

fn expand_defn(args: &Vec<Form>) -> (r: Result<Form, MacroError>)
    ensures
        result_view(r) == defn_form(forms_view(args@)),
{
    proof {
        lemma_forms_view(args@);
    }
    if args.len() < 2 {
        return Err(MacroError::DefnArgs);
    }
    let mut fn_items = empty_forms();
    push_form(&mut fn_items, mk_sym("fn"));
    push_form(&mut fn_items, copy_form(&args[0]));
    push_form(&mut fn_items, copy_form(&args[1]));
    push_copies(&mut fn_items, args, 2);
    let ghost s = forms_view(args@);
    assert(forms_view(fn_items@) =~= seq![sym_v("fn"@), s[0], s[1]] + s.skip(2));
    let fn_form = list_of(fn_items);
    Ok(list3(mk_sym("def"), copy_form(&args[0]), fn_form))
}

fn expand_defmacro(args: &Vec<Form>) -> (r: Result<Form, MacroError>)
    ensures
        result_view(r) == defmacro_form(forms_view(args@)),
{
    proof {
        lemma_forms_view(args@);
        reveal_with_fuel(form_view, 2);
    }
    if args.len() < 2 {
        return Err(MacroError::DefmacroArgs);
    }
    let ghost s = forms_view(args@);
    let params: &Vec<Form> = match &args[1] {
        Form::Vector(ps) => ps,
        Form::Meta(_, t) => match &**t {
            Form::Vector(ps) => ps,
            _ => {
                return Err(MacroError::DefmacroParams);
            },
        },
        _ => {
            return Err(MacroError::DefmacroParams);
        },
    };
    let mut new_params = empty_forms();
    push_form(&mut new_params, mk_sym("&form"));
    push_form(&mut new_params, mk_sym("&env"));
    push_copies(&mut new_params, params, 0);
    assert(forms_view(params@).skip(0) =~= forms_view(params@));
    assert(forms_view(new_params@) =~= seq![sym_v("&form"@), sym_v("&env"@)] + forms_view(params@));
    let mut fn_items = empty_forms();
    push_form(&mut fn_items, mk_sym("fn"));
    push_form(&mut fn_items, copy_form(&args[0]));
    push_form(&mut fn_items, Form::Vector(new_params));
    push_copies(&mut fn_items, args, 2);
    let ghost pv = FormV::Vector(seq![sym_v("&form"@), sym_v("&env"@)] + forms_view(params@));
    assert(forms_view(fn_items@) =~= seq![sym_v("fn"@), s[0], pv] + s.skip(2));
    let fn_form = list_of(fn_items);
    let def_form = list3(mk_sym("def"), copy_form(&args[0]), fn_form);
    let var_form = list2(mk_sym("var"), copy_form(&args[0]));
    let set_macro = list2(mk_sym("_set-macro!"), list2(mk_sym("var"), copy_form(&args[0])));
    Ok(list4(mk_sym("do"), def_form, set_macro, var_form))
}

fn expand_when(args: &Vec<Form>) -> (r: Result<Form, MacroError>)
    ensures
        result_view(r) == when_form(forms_view(args@)),
{
    proof {
        lemma_forms_view(args@);
    }
    if args.len() == 0 {
        return Err(MacroError::WhenArgs);
    }
    let do_form = head_and_rest(mk_sym("do"), args, 1);
    Ok(list4(mk_sym("if"), copy_form(&args[0]), do_form, Form::Nil))
}

fn expand_when_not(args: &Vec<Form>) -> (r: Result<Form, MacroError>)
    ensures
        result_view(r) == when_not_form(forms_view(args@)),
{
    proof {
        lemma_forms_view(args@);
    }
    if args.len() == 0 {
        return Err(MacroError::WhenNotArgs);
    }
    let do_form = head_and_rest(mk_sym("do"), args, 1);
    Ok(list4(mk_sym("if"), copy_form(&args[0]), Form::Nil, do_form))
}

/// [`cond_chain`] of the forms of `args` from index `i` on; built from the
/// last pair back to the first.
fn cond_chain_exec(args: &Vec<Form>, i: usize) -> (r: Form)
    requires
        i <= args@.len(),
        (args@.len() - i) % 2 == 0,
    ensures
        r@ == cond_chain(forms_view(args@).skip(i as int)),
{
    proof {
        lemma_forms_view(args@);
    }
    let ghost s = forms_view(args@);
    let mut result = Form::Nil;
    let mut j = args.len();
    assert(s.skip(j as int).len() == 0);
    while j > i
        invariant
            i <= j <= args@.len(),
            (j - i) % 2 == 0,
            s == forms_view(args@),
            s.len() == args@.len(),
            forall|k: int| 0 <= k < args@.len() ==> #[trigger] s[k] == form_view(args@[k]),
            result@ == cond_chain(s.skip(j as int)),
        decreases j,
    {
        let c = copy_form(&args[j - 2]);
        let t = copy_form(&args[j - 1]);
        let ghost prev = s.skip(j - 2);
        assert(prev[0] == s[j - 2]);
        assert(prev[1] == s[j - 1]);
        assert(prev.skip(2) =~= s.skip(j as int));
        result = list4(mk_sym("if"), c, t, result);
        j = j - 2;
    }
    result
}

fn expand_cond(args: &Vec<Form>) -> (r: Result<Form, MacroError>)
    ensures
        result_view(r) == cond_form(forms_view(args@)),
{
    proof {
        lemma_forms_view(args@);
    }
    if args.len() == 0 {
        return Ok(Form::Nil);
    }
    if args.len() % 2 != 0 {
        return Err(MacroError::CondOdd);
    }
    let r = cond_chain_exec(args, 0);
    assert(forms_view(args@).skip(0) =~= forms_view(args@));
    Ok(r)
}

/// [`or_form`] of the forms of `args` from index `i` on.
fn expand_or(args: &Vec<Form>, i: usize) -> (r: Form)
    requires
        i <= args@.len(),
    ensures
        r@ == or_form(forms_view(args@).skip(i as int)),
    decreases args@.len() - i,
{
    proof {
        lemma_forms_view(args@);
    }
    let ghost s = forms_view(args@).skip(i as int);
    if i == args.len() {
        return Form::Nil;
    }
    assert(s[0] == forms_view(args@)[i as int]);
    if i + 1 == args.len() {
        return copy_form(&args[i]);
    }
    let rest = expand_or(args, i + 1);
    assert(s.skip(1) =~= forms_view(args@).skip(i + 1));
    let mut b = empty_forms();
    push_form(&mut b, mk_sym("or__"));
    push_form(&mut b, copy_form(&args[i]));
    assert(forms_view(b@) =~= seq![sym_v("or__"@), s[0]]);
    let if_form = list4(mk_sym("if"), mk_sym("or__"), mk_sym("or__"), rest);
    list3(mk_sym("let"), Form::Vector(b), if_form)
}

/// [`and_form`] of the forms of `args` from index `i` on.
fn expand_and(args: &Vec<Form>, i: usize) -> (r: Form)
    requires
        i <= args@.len(),
    ensures
        r@ == and_form(forms_view(args@).skip(i as int)),
    decreases args@.len() - i,
{
    proof {
        lemma_forms_view(args@);
    }
    let ghost s = forms_view(args@).skip(i as int);
    if i == args.len() {
        return Form::Bool(true);
    }
    assert(s[0] == forms_view(args@)[i as int]);
    if i + 1 == args.len() {
        return copy_form(&args[i]);
    }
    let rest = expand_and(args, i + 1);
    assert(s.skip(1) =~= forms_view(args@).skip(i + 1));
    let mut b = empty_forms();
    push_form(&mut b, mk_sym("and__"));
    push_form(&mut b, copy_form(&args[i]));
    assert(forms_view(b@) =~= seq![sym_v("and__"@), s[0]]);
    let if_form = list4(mk_sym("if"), mk_sym("and__"), rest, mk_sym("and__"));
    list3(mk_sym("let"), Form::Vector(b), if_form)
}

/// Expand the call `list` of the built-in macro `name` (as
/// [`lookup_builtin_macro`] names it); the call's first item is the macro's
/// symbol, the rest its arguments.
pub fn expand(name: &str, list: &Form) -> (r: Result<Form, MacroError>)
    requires
        is_builtin_macro_name(name@),
        list_items(list@).len() >= 1,
    ensures
        result_view(r) == expand_spec(name@, list_items(list@).skip(1)),
{
    proof {
        reveal_with_fuel(form_view, 2);
    }
    let items: &Vec<Form> = match list {
        Form::List(v) => v,
        Form::Meta(_, t) => match &**t {
            Form::List(v) => v,
            _ => {
                proof {
                    assert(false);
                }
                return Ok(Form::Nil);
            },
        },
        _ => {
            proof {
                assert(false);
            }
            return Ok(Form::Nil);
        },
    };
    proof {
        lemma_forms_view(items@);
    }
    let mut args = empty_forms();
    push_copies(&mut args, items, 1);
    assert(Seq::<FormV>::empty() + forms_view(items@).skip(1) =~= forms_view(items@).skip(1));
    let ghost a = forms_view(args@);
    if chars_is(name, "defn") {
        expand_defn(&args)
    } else if chars_is(name, "defmacro") {
        expand_defmacro(&args)
    } else if chars_is(name, "when") {
        expand_when(&args)
    } else if chars_is(name, "when-not") {
        expand_when_not(&args)
    } else if chars_is(name, "cond") {
        expand_cond(&args)
    } else if chars_is(name, "or") {
        assert(a.skip(0) =~= a);
        Ok(expand_or(&args, 0))
    } else {
        assert(a.skip(0) =~= a);
        Ok(expand_and(&args, 0))
    }
}

fn chars_is(a: &str, b: &str) -> (r: bool)
    ensures
        r == (a@ == b@),
{
    crate::text::chars_eq_str(&crate::text::string_to_chars(a), b)
}

} // verus!
