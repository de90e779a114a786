//! The evaluator: special forms, calls, quasiquote, and the native
//! functions that read the store or call functions themselves.
//!
//! Evaluation is a loop of steps. A step either ends with a result or
//! hands back the form and the scope to go on with, so a call in tail
//! position costs no stack. Every step counts against a limit, which is
//! what makes evaluation end.

use vstd::prelude::*;
use std::rc::Rc;
use crate::builtins::{call_pure, empty_list, min_args_of, wrong_args};
use crate::env::{env_bind, env_get, env_new, env_set, env_sets, Store};
use crate::keys::{ret_well_keyed, well_keyed};
use crate::keys_eval::{heap_well_keyed, law_eval_keeps_keys};
use crate::printer::pr_seq;
use crate::semantics::{
    apply_spec, atom_spec, call_spec, def_spec, defmacro_spec, deref_spec, do_prefix_spec, do_spec,
    eval_entries_spec, eval_items_spec, eval_spec, form_spec, if_spec, is_call_of,
    let_binds_spec, let_spec, limit_reached, map_spec, native_spec, not_found, qq_iter_spec,
    quasiquote_spec, reset_spec, step_spec, swap_spec, try_spec, Step, EVAL_LIMIT,
};
use crate::text::{push_text, text_eq};
use crate::types::{
    copy_range, entries, error, extend_from, hash, lemma_vals_add, lemma_vals_push,
    lemma_vals_subrange, lemma_view_hash, lemma_view_list, list, list2, list3, pairs_of, ret_val, sym, vals, vector, Builtin, Env, FuncStruct, MalArgs, MalRet, MalVal,
    Val,
};

verus! {

/// Whether `v` is the symbol `name`.
fn is_sym(v: &MalVal, name: &str) -> (r: bool)
    ensures
        r == (v@ == Val::Sym(name@)),
{
    match v {
        MalVal::Sym(s) => text_eq(s.as_str(), name),
        _ => false,
    }
}

/// The second item of `v`, where `v` is the list of `name` and one more item.
fn call_arg<'a>(v: &'a MalVal, name: &str) -> (r: Option<&'a MalVal>)
    ensures
        match r {
            Some(x) => is_call_of(v@, name@) && x@ == v@->List_0[1] && decreases_to!(*v => *x),
            None => !is_call_of(v@, name@),
        },
{
    match v {
        MalVal::List(items, meta) => {
            proof {
                lemma_view_list(*items, *meta);
            }
            if items.len() == 2 && is_sym(&items[0], name) {
                Some(&items[1])
            } else {
                None
            }
        },
        _ => None,
    }
}

/// The form that builds the list of `elts`.
fn qq_iter(elts: &MalArgs) -> (r: MalVal)
    ensures
        r@ == qq_iter_spec(vals(elts@), 0),
    decreases elts, 0nat,
{
    let mut acc = empty_list();
    let mut i: usize = elts.len();
    while i > 0
        invariant
            i <= elts.len(),
            acc@ == qq_iter_spec(vals(elts@), i as int),
        decreases i,
    {
        i -= 1;
        let elt = &elts[i];
        match call_arg(elt, "splice-unquote") {
            Some(x) => {
                acc = list3(sym("concat"), x.clone(), acc);
            },
            None => {
                acc = list3(sym("cons"), quasiquote(elt), acc);
            },
        }
    }
    acc
}

/// The form that builds `ast` again when evaluated, but for its unquoted parts.
fn quasiquote(ast: &MalVal) -> (r: MalVal)
    ensures
        r@ == quasiquote_spec(ast@),
    decreases ast, 1nat,
{
    match ast {
        MalVal::List(v, meta) => {
            proof {
                lemma_view_list(*v, *meta);
            }
            match call_arg(ast, "unquote") {
                Some(x) => x.clone(),
                None => qq_iter(v),
            }
        },
        MalVal::Vector(v, meta) => {
            proof {
                lemma_view_list(*v, *meta);
            }
            list2(sym("vec"), qq_iter(v))
        },
        MalVal::Hash(_, _) => list2(sym("quote"), ast.clone()),
        MalVal::Sym(_) => list2(sym("quote"), ast.clone()),
        _ => ast.clone(),
    }
}

/// What one step of evaluation hands back: a result, or the form and the
/// scope with which evaluation goes on.
pub enum Next {
    Done(MalRet),
    Tail(MalVal, Env),
}

/// The mathematical value of a [`Next`].
pub open spec fn next_val(n: Next) -> Step {
    match n {
        Next::Done(r) => Step::Done(ret_val(r)),
        Next::Tail(a, e) => Step::Tail(a@, e),
    }
}

/// The mathematical value of a sequence of values, or of what was thrown.
pub open spec fn rets_val(r: Result<Vec<MalVal>, MalVal>) -> Result<Seq<Val>, Val> {
    match r {
        Ok(v) => Ok(vals(v@)),
        Err(e) => Err(e@),
    }
}

fn limit_error() -> (r: MalRet)
    ensures
        ret_val(r) == limit_reached(),
{
    error("evaluation limit reached")
}

fn wrong_args_error() -> (r: MalRet)
    ensures
        ret_val(r) == wrong_args(),
{
    error("wrong number of arguments")
}

fn not_found_error(name: &str) -> (r: MalRet)
    ensures
        ret_val(r) == not_found(name@),
{
    let mut msg = String::new();
    msg.push('\'');
    push_text(&mut msg, name);
    push_text(&mut msg, "' not found");
    assert(msg@ =~= seq!['\''] + name@ + "' not found"@);
    Err(MalVal::Str(msg))
}

/// Evaluates `ast` in scope `env`, within `fuel` steps.
pub fn eval_bounded(ast: &MalVal, env: Env, store: &mut Store, fuel: u64) -> (r: MalRet)
    ensures
        (ret_val(r), final(store)@) == eval_spec(ast@, env, old(store)@, fuel as nat),
    decreases fuel, 0nat, 0nat,
{
    if fuel == 0 {
        return limit_error();
    }
    let mut left: u64 = fuel - 1;
    let mut cur = step(ast, env, store, left);
    loop
        invariant
            left < fuel,
            eval_spec(ast@, env, old(store)@, fuel as nat) == (match next_val(cur) {
                Step::Done(r) => (r, store@),
                Step::Tail(a, e) => eval_spec(a, e, store@, left as nat),
            }),
        decreases left,
    {
        match cur {
            Next::Done(r) => {
                return r;
            },
            Next::Tail(a, e) => {
                if left == 0 {
                    return limit_error();
                }
                left -= 1;
                cur = step(&a, e, store, left);
            },
        }
    }
}

/// Evaluates `ast` in scope `env`. Where neither the form nor the store
/// holds a map in which a key occurs twice, neither do the result and
/// the store behind it.
pub fn eval(ast: &MalVal, env: Env, store: &mut Store) -> (r: MalRet)
    ensures
        (ret_val(r), final(store)@) == eval_spec(ast@, env, old(store)@, EVAL_LIMIT as nat),
        well_keyed(ast@) && heap_well_keyed(old(store)@) ==> ret_well_keyed(ret_val(r))
            && heap_well_keyed(final(store)@),
{
    proof {
        if well_keyed(ast@) && heap_well_keyed(store@) {
            law_eval_keeps_keys(ast@, env, store@, EVAL_LIMIT as nat);
        }
    }
    eval_bounded(ast, env, store, EVAL_LIMIT)
}

/// One step of evaluating `ast` in scope `env`.
pub fn step(ast: &MalVal, env: Env, store: &mut Store, fuel: u64) -> (n: Next)
    ensures
        (next_val(n), final(store)@) == step_spec(ast@, env, old(store)@, fuel as nat),
    decreases fuel, 6nat, 0nat,
{
    match ast {
        MalVal::Sym(s) => match env_get(store, env, s.as_str()) {
            Some(r) => Next::Done(Ok(r)),
            None => Next::Done(not_found_error(s.as_str())),
        },
        MalVal::Vector(v, meta) => {
            proof {
                lemma_view_list(*v, *meta);
            }
            match eval_items(v, 0, env, store, fuel) {
                Ok(lst) => Next::Done(Ok(vector(lst))),
                Err(e) => Next::Done(Err(e)),
            }
        },
        MalVal::Hash(hm, meta) => {
            proof {
                lemma_view_hash(*hm, *meta);
            }
            match eval_entries(hm, env, store, fuel) {
                Ok(new_hm) => Next::Done(Ok(hash(new_hm))),
                Err(e) => Next::Done(Err(e)),
            }
        },
        MalVal::List(l, meta) => {
            proof {
                lemma_view_list(*l, *meta);
            }
            if l.len() == 0 {
                Next::Done(Ok(ast.clone()))
            } else {
                form(l, env, store, fuel)
            }
        },
        _ => Next::Done(Ok(ast.clone())),
    }
}

/// Evaluates `items[from..]` from left to right.
fn eval_items(items: &Vec<MalVal>, from: usize, env: Env, store: &mut Store, fuel: u64) -> (r:
    Result<Vec<MalVal>, MalVal>)
    requires
        from <= items.len(),
    ensures
        (rets_val(r), final(store)@) == eval_items_spec(
            vals(items@),
            from as int,
            env,
            old(store)@,
            fuel as nat,
            Seq::empty(),
        ),
    decreases fuel, 1nat, items.len() - from,
{
    let mut out: Vec<MalVal> = Vec::new();
    let mut i: usize = from;
    assert(vals(out@) =~= Seq::empty());
    while i < items.len()
        invariant
            from <= i <= items.len(),
            eval_items_spec(
                vals(items@),
                from as int,
                env,
                old(store)@,
                fuel as nat,
                Seq::empty(),
            ) == eval_items_spec(vals(items@), i as int, env, store@, fuel as nat, vals(out@)),
        decreases items.len() - i,
    {
        match eval_bounded(&items[i], env, store, fuel) {
            Ok(v) => {
                proof {
                    lemma_vals_push(out@, v);
                }
                out.push(v);
            },
            Err(e) => {
                return Err(e);
            },
        }
        i += 1;
    }
    Ok(out)
}

/// Evaluates the values of the entries `m` from left to right.
fn eval_entries(m: &Vec<(String, MalVal)>, env: Env, store: &mut Store, fuel: u64) -> (r: Result<
    Vec<(String, MalVal)>,
    MalVal,
>)
    ensures
        (
            match r {
                Ok(v) => Ok(entries(v@)),
                Err(e) => Err(e@),
            },
            final(store)@,
        ) == eval_entries_spec(entries(m@), 0, env, old(store)@, fuel as nat, Seq::empty()),
    decreases fuel, 1nat, m.len(),
{
    let mut out: Vec<(String, MalVal)> = Vec::new();
    let mut i: usize = 0;
    assert(entries(out@) =~= Seq::empty());
    while i < m.len()
        invariant
            i <= m.len(),
            eval_entries_spec(entries(m@), 0, env, old(store)@, fuel as nat, Seq::empty())
                == eval_entries_spec(entries(m@), i as int, env, store@, fuel as nat, entries(out@)),
        decreases m.len() - i,
    {
        let ghost before = entries(out@);
        match eval_bounded(&m[i].1, env, store, fuel) {
            Ok(v) => {
                out.push((m[i].0.clone(), v));
                assert(entries(out@) =~= before.push((m@[i as int].0@, v@)));
            },
            Err(e) => {
                return Err(e);
            },
        }
        i += 1;
    }
    Ok(out)
}

/// One step of evaluating the list `l`, which is not empty.
fn form(l: &Vec<MalVal>, env: Env, store: &mut Store, fuel: u64) -> (n: Next)
    requires
        l.len() > 0,
    ensures
        (next_val(n), final(store)@) == form_spec(vals(l@), env, old(store)@, fuel as nat),
    decreases fuel, 5nat, 0nat,
{
    let head = &l[0];
    if is_sym(head, "def!") {
        def_form(l, env, store, fuel)
    } else if is_sym(head, "let*") {
        let_form(l, env, store, fuel)
    } else if is_sym(head, "quote") {
        if l.len() < 2 {
            Next::Done(wrong_args_error())
        } else {
            Next::Done(Ok(l[1].clone()))
        }
    } else if is_sym(head, "quasiquote") {
        if l.len() < 2 {
            Next::Done(wrong_args_error())
        } else {
            Next::Tail(quasiquote(&l[1]), env)
        }
    } else if is_sym(head, "defmacro!") {
        defmacro_form(l, env, store, fuel)
    } else if is_sym(head, "try*") {
        try_form(l, env, store, fuel)
    } else if is_sym(head, "do") {
        do_form(l, env, store, fuel)
    } else if is_sym(head, "if") {
        if_form(l, env, store, fuel)
    } else if is_sym(head, "fn*") {
        if l.len() < 3 {
            Next::Done(wrong_args_error())
        } else {
            let meta = Rc::new(MalVal::Nil);
            assert(meta@ == Val::Nil);
            Next::Done(
                Ok(
                    MalVal::MalFunc(
                        FuncStruct {
                            ast: Rc::new(l[2].clone()),
                            env,
                            params: Rc::new(l[1].clone()),
                            is_macro: false,
                            meta,
                        },
                    ),
                ),
            )
        }
    } else {
        call_form(l, env, store, fuel)
    }
}

fn def_form(l: &Vec<MalVal>, env: Env, store: &mut Store, fuel: u64) -> (n: Next)
    requires
        l.len() > 0,
    ensures
        (next_val(n), final(store)@) == def_spec(vals(l@), env, old(store)@, fuel as nat),
    decreases fuel, 4nat, 0nat,
{
    if l.len() < 3 {
        return Next::Done(wrong_args_error());
    }
    match eval_bounded(&l[2], env, store, fuel) {
        Ok(v) => Next::Done(env_set(store, env, &l[1], v)),
        Err(e) => Next::Done(Err(e)),
    }
}

/// Makes the bindings `binds`, taken two by two, in scope `env`.
fn let_binds(binds: &Vec<MalVal>, env: Env, store: &mut Store, fuel: u64) -> (r: MalRet)
    ensures
        (ret_val(r), final(store)@) == let_binds_spec(
            vals(binds@),
            0,
            env,
            old(store)@,
            fuel as nat,
        ),
    decreases fuel, 1nat, binds.len(),
{
    let pairs = pairs_of(binds);
    let mut j: usize = 0;
    while j < pairs.len()
        invariant
            j <= pairs.len(),
            pairs@.len() == binds@.len() / 2,
            forall|i: int|
                0 <= i < pairs@.len() ==> pairs@[i] == (binds@[2 * i], binds@[2 * i + 1]),
            let_binds_spec(vals(binds@), 0, env, old(store)@, fuel as nat) == let_binds_spec(
                vals(binds@),
                2 * j,
                env,
                store@,
                fuel as nat,
            ),
        decreases pairs.len() - j,
    {
        proof {
            assert(pairs@[j as int] == (binds@[2 * j], binds@[2 * j + 1]));
            assert(vals(binds@)[2 * j] == pairs@[j as int].0@);
            assert(vals(binds@)[2 * j + 1] == pairs@[j as int].1@);
        }
        match eval_bounded(&pairs[j].1, env, store, fuel) {
            Ok(val) => {
                match env_set(store, env, &pairs[j].0, val) {
                    Ok(_) => {},
                    Err(e) => {
                        return Err(e);
                    },
                }
            },
            Err(e) => {
                return Err(e);
            },
        }
        j += 1;
    }
    Ok(MalVal::Nil)
}

fn let_form(l: &Vec<MalVal>, env: Env, store: &mut Store, fuel: u64) -> (n: Next)
    requires
        l.len() > 0,
    ensures
        (next_val(n), final(store)@) == let_spec(vals(l@), env, old(store)@, fuel as nat),
    decreases fuel, 4nat, 0nat,
{
    if l.len() < 3 {
        return Next::Done(wrong_args_error());
    }
    match l[1].items() {
        Some(binds) => {
            let env2 = env_new(store, Some(env));
            match let_binds(binds, env2, store, fuel) {
                Ok(_) => Next::Tail(l[2].clone(), env2),
                Err(e) => Next::Done(Err(e)),
            }
        },
        None => Next::Done(error("let* with non-List bindings")),
    }
}

fn defmacro_form(l: &Vec<MalVal>, env: Env, store: &mut Store, fuel: u64) -> (n: Next)
    requires
        l.len() > 0,
    ensures
        (next_val(n), final(store)@) == defmacro_spec(vals(l@), env, old(store)@, fuel as nat),
    decreases fuel, 4nat, 0nat,
{
    if l.len() < 3 {
        return Next::Done(wrong_args_error());
    }
    match eval_bounded(&l[2], env, store, fuel) {
        Ok(MalVal::MalFunc(f)) => {
            let m = MalVal::MalFunc(
                FuncStruct {
                    ast: f.ast,
                    env: f.env,
                    params: f.params,
                    is_macro: true,
                    meta: f.meta,
                },
            );
            Next::Done(env_set(store, env, &l[1], m))
        },
        Ok(_) => Next::Done(error("set_macro on non-function")),
        Err(e) => Next::Done(Err(e)),
    }
}

fn try_form(l: &Vec<MalVal>, env: Env, store: &mut Store, fuel: u64) -> (n: Next)
    requires
        l.len() > 0,
    ensures
        (next_val(n), final(store)@) == try_spec(vals(l@), env, old(store)@, fuel as nat),
    decreases fuel, 4nat, 0nat,
{
    if l.len() < 2 {
        return Next::Done(wrong_args_error());
    }
    if l.len() < 3 {
        return Next::Tail(l[1].clone(), env);
    }
    match eval_bounded(&l[1], env, store, fuel) {
        Ok(v) => Next::Done(Ok(v)),
        Err(exc) => {
            match &l[2] {
                MalVal::List(c, meta) => {
                    proof {
                        lemma_view_list(*c, *meta);
                    }
                    if c.len() >= 3 && is_sym(&c[0], "catch*") {
                        match &c[1] {
                            MalVal::Sym(name) => {
                                let env2 = env_new(store, Some(env));
                                env_sets(store, env2, name.as_str(), exc);
                                Next::Tail(c[2].clone(), env2)
                            },
                            _ => Next::Done(Err(exc)),
                        }
                    } else {
                        Next::Done(Err(exc))
                    }
                },
                _ => Next::Done(Err(exc)),
            }
        },
    }
}

fn do_form(l: &Vec<MalVal>, env: Env, store: &mut Store, fuel: u64) -> (n: Next)
    requires
        l.len() > 0,
    ensures
        (next_val(n), final(store)@) == do_spec(vals(l@), env, old(store)@, fuel as nat),
    decreases fuel, 4nat, 0nat,
{
    if l.len() < 2 {
        return Next::Done(Ok(MalVal::Nil));
    }
    let mut i: usize = 1;
    while i < l.len() - 1
        invariant
            1 <= i <= l.len() - 1,
            do_prefix_spec(vals(l@), 1, env, old(store)@, fuel as nat) == do_prefix_spec(
                vals(l@),
                i as int,
                env,
                store@,
                fuel as nat,
            ),
        decreases l.len() - i,
    {
        match eval_bounded(&l[i], env, store, fuel) {
            Ok(_) => {},
            Err(e) => {
                return Next::Done(Err(e));
            },
        }
        i += 1;
    }
    Next::Tail(l[l.len() - 1].clone(), env)
}

fn if_form(l: &Vec<MalVal>, env: Env, store: &mut Store, fuel: u64) -> (n: Next)
    requires
        l.len() > 0,
    ensures
        (next_val(n), final(store)@) == if_spec(vals(l@), env, old(store)@, fuel as nat),
    decreases fuel, 4nat, 0nat,
{
    if l.len() < 2 {
        return Next::Done(wrong_args_error());
    }
    match eval_bounded(&l[1], env, store, fuel) {
        Ok(cond) => {
            let falsy = match cond {
                MalVal::Bool(false) => true,
                MalVal::Nil => true,
                _ => false,
            };
            if falsy {
                if l.len() >= 4 {
                    Next::Tail(l[3].clone(), env)
                } else {
                    Next::Done(Ok(MalVal::Nil))
                }
            } else {
                if l.len() >= 3 {
                    Next::Tail(l[2].clone(), env)
                } else {
                    Next::Done(Ok(MalVal::Nil))
                }
            }
        },
        Err(e) => Next::Done(Err(e)),
    }
}

fn call_form(l: &Vec<MalVal>, env: Env, store: &mut Store, fuel: u64) -> (n: Next)
    requires
        l.len() > 0,
    ensures
        (next_val(n), final(store)@) == call_spec(vals(l@), env, old(store)@, fuel as nat),
    decreases fuel, 4nat, 0nat,
{
    let f = match eval_bounded(&l[0], env, store, fuel) {
        Ok(f) => f,
        Err(e) => {
            return Next::Done(Err(e));
        },
    };
    match &f {
        MalVal::MalFunc(c) => {
            if c.is_macro {
                let args = copy_range(l, 1, l.len());
                proof {
                    lemma_vals_subrange(l@, 1, l@.len() as int);
                    assert(vals(l@).subrange(1, l@.len() as int) =~= vals(l@).skip(1));
                }
                match f.apply(args, store, fuel) {
                    Ok(new_ast) => Next::Tail(new_ast, env),
                    Err(e) => Next::Done(Err(e)),
                }
            } else {
                match eval_items(l, 1, env, store, fuel) {
                    Ok(args) => match env_bind(store, c.env, &c.params, args) {
                        Ok(env2) => Next::Tail((*c.ast).clone(), env2),
                        Err(e) => Next::Done(Err(e)),
                    },
                    Err(e) => Next::Done(Err(e)),
                }
            }
        },
        MalVal::Func(b, _) => {
            match eval_items(l, 1, env, store, fuel) {
                Ok(args) => Next::Done(call_native(*b, args, store, fuel)),
                Err(e) => Next::Done(Err(e)),
            }
        },
        _ => Next::Done(error("attempt to call non-function")),
    }
}

impl MalVal {
    /// Applies `self`, a function, to the arguments `args`, within `fuel` steps.
    pub fn apply(&self, args: MalArgs, store: &mut Store, fuel: u64) -> (r: MalRet)
        ensures
            (ret_val(r), final(store)@) == apply_spec(self@, vals(args@), old(store)@, fuel as nat),
        decreases fuel, 3nat, 0nat,
    {
        match self {
            MalVal::Func(b, _) => call_native(*b, args, store, fuel),
            MalVal::MalFunc(c) => {
                match env_bind(store, c.env, &c.params, args) {
                    Ok(fn_env) => eval_bounded(&c.ast, fn_env, store, fuel),
                    Err(e) => Err(e),
                }
            },
            _ => error("attempt to call non-function"),
        }
    }
}

/// Makes an atom that holds the first argument; fails without an argument.
pub fn atom(a: MalArgs, store: &mut Store) -> (r: MalRet)
    ensures
        (ret_val(r), final(store)@) == atom_spec(vals(a@), old(store)@),
{
    if a.len() < 1 {
        return wrong_args_error();
    }
    let i = store.atom_new(a[0].clone());
    Ok(MalVal::Atom(i))
}

/// What the atom, the first argument, holds; fails without an argument.
pub fn deref(a: MalArgs, store: &Store) -> (r: MalRet)
    ensures
        ret_val(r) == deref_spec(vals(a@), store@),
{
    if a.len() < 1 {
        return wrong_args_error();
    }
    match &a[0] {
        MalVal::Atom(i) => match store.atom_get(*i) {
            Some(v) => Ok(v),
            None => error("attempt to deref a non-Atom"),
        },
        _ => error("attempt to deref a non-Atom"),
    }
}

/// Sets the atom, the first argument, to the second argument.
pub fn reset_bang(a: MalArgs, store: &mut Store) -> (r: MalRet)
    ensures
        (ret_val(r), final(store)@) == reset_spec(vals(a@), old(store)@),
{
    if a.len() < 1 {
        return wrong_args_error();
    }
    match &a[0] {
        MalVal::Atom(i) => {
            if *i < store.atom_count() {
                if a.len() < 2 {
                    return wrong_args_error();
                }
                store.atom_set(*i, a[1].clone());
                Ok(a[1].clone())
            } else {
                error("attempt to reset! a non-Atom")
            }
        },
        _ => error("attempt to reset! a non-Atom"),
    }
}

/// Sets the atom, the first argument, to what the function, the second
/// argument, gives for what the atom holds and the other arguments.
pub fn swap_bang(a: MalArgs, store: &mut Store, fuel: u64) -> (r: MalRet)
    ensures
        (ret_val(r), final(store)@) == swap_spec(vals(a@), old(store)@, fuel as nat),
    decreases fuel, 1nat, 0nat,
{
    if a.len() < 1 {
        return wrong_args_error();
    }
    match &a[0] {
        MalVal::Atom(i) => {
            match store.atom_get(*i) {
                Some(cur) => {
                    if a.len() < 2 {
                        return wrong_args_error();
                    }
                    if fuel == 0 {
                        return limit_error();
                    }
                    let mut fargs: Vec<MalVal> = Vec::new();
                    fargs.push(cur);
                    let tail = copy_range(&a, 2, a.len());
                    extend_from(&mut fargs, &tail);
                    assert(vals(fargs@) =~= seq![cur@] + vals(a@).skip(2));
                    match a[1].apply(fargs, store, fuel - 1) {
                        Ok(result) => {
                            store.atom_set(*i, result.clone());
                            Ok(result)
                        },
                        Err(e) => Err(e),
                    }
                },
                None => error("attempt to swap! a non-Atom"),
            }
        },
        _ => error("attempt to swap! a non-Atom"),
    }
}

/// The list of what `f` gives for each of `items`.
fn map_over(f: &MalVal, items: &Vec<MalVal>, store: &mut Store, fuel: u64) -> (r: MalRet)
    ensures
        (ret_val(r), final(store)@) == map_spec(
            f@,
            vals(items@),
            0,
            old(store)@,
            fuel as nat,
            Seq::empty(),
        ),
    decreases fuel, 4nat, items.len(),
{
    let mut res: Vec<MalVal> = Vec::new();
    let mut i: usize = 0;
    assert(vals(res@) =~= Seq::empty());
    while i < items.len()
        invariant
            i <= items.len(),
            map_spec(f@, vals(items@), 0, old(store)@, fuel as nat, Seq::empty()) == map_spec(
                f@,
                vals(items@),
                i as int,
                store@,
                fuel as nat,
                vals(res@),
            ),
        decreases items.len() - i,
    {
        let mut one: Vec<MalVal> = Vec::new();
        one.push(items[i].clone());
        assert(vals(one@) =~= seq![vals(items@)[i as int]]);
        match f.apply(one, store, fuel) {
            Ok(v) => {
                proof {
                    lemma_vals_push(res@, v);
                }
                res.push(v);
            },
            Err(e) => {
                return Err(e);
            },
        }
        i += 1;
    }
    Ok(list(res))
}

/// Calls the native function `b` on the arguments `a`, within `fuel` steps.
pub fn call_native(b: Builtin, a: MalArgs, store: &mut Store, fuel: u64) -> (r: MalRet)
    ensures
        (ret_val(r), final(store)@) == native_spec(b, vals(a@), old(store)@, fuel as nat),
    decreases fuel, 2nat, 0nat,
{
    match b {
        Builtin::PrStr | Builtin::ToStr | Builtin::MakeAtom | Builtin::Deref | Builtin::Reset
        | Builtin::Swap | Builtin::Apply | Builtin::MapOver | Builtin::Eval => {},
        _ => {
            return call_pure(b, a);
        },
    }
    if a.len() < min_args_of(b) {
        return wrong_args_error();
    }
    match b {
        Builtin::PrStr => Ok(MalVal::Str(pr_seq(&a, true, "", "", " ", store))),
        Builtin::ToStr => Ok(MalVal::Str(pr_seq(&a, false, "", "", "", store))),
        Builtin::MakeAtom => atom(a, store),
        Builtin::Deref => deref(a, store),
        Builtin::Reset => reset_bang(a, store),
        Builtin::Swap => swap_bang(a, store, fuel),
        Builtin::Apply => {
            match a[a.len() - 1].items() {
                Some(v) => {
                    if a.len() < 2 {
                        return wrong_args_error();
                    }
                    if fuel == 0 {
                        return limit_error();
                    }
                    let mut fargs = copy_range(&a, 1, a.len() - 1);
                    proof {
                        lemma_vals_subrange(a@, 1, a@.len() - 1);
                        lemma_vals_add(fargs@, v@);
                    }
                    extend_from(&mut fargs, v);
                    a[0].apply(fargs, store, fuel - 1)
                },
                None => error("apply called with non-seq"),
            }
        },
        Builtin::MapOver => {
            match a[1].items() {
                Some(v) => {
                    if fuel == 0 {
                        return limit_error();
                    }
                    map_over(&a[0], v, store, fuel - 1)
                },
                None => error("map called with non-seq"),
            }
        },
        _ => {
            if fuel == 0 {
                return limit_error();
            }
            eval_bounded(&a[0], 0, store, fuel - 1)
        },
    }
}

} // verus!
