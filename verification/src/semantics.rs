//! What evaluation means: the value and the heap that evaluating a form
//! gives, as mathematical functions of the form, the scope and the heap.
//!
//! Evaluation is defined step by step. A step either ends with a result
//! or names the form and the scope with which evaluation goes on. Every
//! step counts against a limit of `fuel`, so that the functions are
//! defined for every form, also for one whose evaluation would never end.

use vstd::prelude::*;
use crate::builtins::{is_pure, min_args, pure_native, wrong_args};
use crate::env::{
    atom_new_spec, atom_set_spec, env_bind_spec, env_get_spec, env_new_spec, env_set_spec,
    env_sets_spec, Heap,
};
use crate::printer::pr_seq_spec;
use crate::types::{failure, hash_val, list_val, seq_of, vector_val, Builtin, Closure, Val};

verus! {

/// How many steps an evaluation may take, one inside or behind the other,
/// where the caller sets no limit of its own.
pub const EVAL_LIMIT: u64 = 0xffff_ffff_ffff_ffff;

/// The outcome of one step of evaluation: a result, or the form and the
/// scope with which evaluation goes on.
pub enum Step {
    Done(Result<Val, Val>),
    Tail(Val, usize),
}

/// The failure of an evaluation that reached its limit of steps.
pub open spec fn limit_reached() -> Result<Val, Val> {
    failure("evaluation limit reached"@)
}

/// The failure of looking up a name that is not bound.
pub open spec fn not_found(name: Seq<char>) -> Result<Val, Val> {
    failure(seq!['\''] + name + "' not found"@)
}

/// Whether `v` counts as true in a condition: everything but `nil` and `false`.
pub open spec fn truthy(v: Val) -> bool {
    !(v is Nil) && v != Val::Bool(false)
}

/// Whether `v` is the list of `name` and one more item.
pub open spec fn is_call_of(v: Val, name: Seq<char>) -> bool {
    match v {
        Val::List(items, _) => items.len() == 2 && items[0] == Val::Sym(name),
        _ => false,
    }
}

/// The form that builds `ast` again when evaluated, but for the parts of
/// it that are unquoted, which are evaluated in its place.
pub open spec fn quasiquote_spec(ast: Val) -> Val
    decreases ast, 0nat,
{
    match ast {
        Val::List(v, _) => if is_call_of(ast, "unquote"@) {
            v[1]
        } else {
            qq_iter_spec(v, 0)
        },
        Val::Vector(v, _) => list_val(seq![Val::Sym("vec"@), qq_iter_spec(v, 0)]),
        Val::Hash(_, _) => list_val(seq![Val::Sym("quote"@), ast]),
        Val::Sym(_) => list_val(seq![Val::Sym("quote"@), ast]),
        _ => ast,
    }
}

/// The form that builds the list of `elts[i..]`: each item consed on in
/// its quasiquoted form, or spliced in where it is `(splice-unquote x)`.
pub open spec fn qq_iter_spec(elts: Seq<Val>, i: int) -> Val
    decreases elts, elts.len() - i,
{
    if i < 0 || i >= elts.len() {
        list_val(Seq::empty())
    } else {
        let acc = qq_iter_spec(elts, i + 1);
        if is_call_of(elts[i], "splice-unquote"@) {
            list_val(seq![Val::Sym("concat"@), elts[i]->List_0[1], acc])
        } else {
            list_val(seq![Val::Sym("cons"@), quasiquote_spec(elts[i]), acc])
        }
    }
}

/// Whether `v` has the shape of a catch clause: a list of the symbol
/// `catch*`, a symbol and a body.
pub open spec fn is_catch(v: Val) -> bool {
    match v {
        Val::List(c, _) => c.len() >= 3 && c[0] == Val::Sym("catch*"@) && c[1] is Sym,
        _ => false,
    }
}

/// The closure `f` as a macro.
pub open spec fn as_macro(f: Closure) -> Val {
    Val::MalFunc(
        Closure { ast: f.ast, env: f.env, params: f.params, is_macro: true, meta: f.meta },
    )
}

/// The value and the heap that evaluating `ast` in scope `env` gives,
/// within `fuel` steps.
pub open spec fn eval_spec(ast: Val, env: usize, h: Heap, fuel: nat) -> (Result<Val, Val>, Heap)
    decreases fuel, 0nat, 0nat,
{
    if fuel == 0 {
        (limit_reached(), h)
    } else {
        let s = step_spec(ast, env, h, (fuel - 1) as nat);
        match s.0 {
            Step::Done(r) => (r, s.1),
            Step::Tail(ast2, env2) => eval_spec(ast2, env2, s.1, (fuel - 1) as nat),
        }
    }
}

/// One step of evaluating `ast` in scope `env`: a symbol is looked up, a
/// vector's items and a map's values are evaluated, a list that is not
/// empty is a special form or a call, anything else is its own value.
pub open spec fn step_spec(ast: Val, env: usize, h: Heap, fuel: nat) -> (Step, Heap)
    decreases fuel, 6nat, 0nat,
{
    match ast {
        Val::Sym(s) => (
            Step::Done(
                match env_get_spec(h, env, s) {
                    Some(v) => Ok(v),
                    None => not_found(s),
                },
            ),
            h,
        ),
        Val::Vector(v, _) => {
            let r = eval_items_spec(v, 0, env, h, fuel, Seq::empty());
            (
                Step::Done(
                    match r.0 {
                        Ok(items) => Ok(vector_val(items)),
                        Err(e) => Err(e),
                    },
                ),
                r.1,
            )
        },
        Val::Hash(m, _) => {
            let r = eval_entries_spec(m, 0, env, h, fuel, Seq::empty());
            (
                Step::Done(
                    match r.0 {
                        Ok(items) => Ok(hash_val(items)),
                        Err(e) => Err(e),
                    },
                ),
                r.1,
            )
        },
        Val::List(l, _) => if l.len() == 0 {
            (Step::Done(Ok(ast)), h)
        } else {
            form_spec(l, env, h, fuel)
        },
        _ => (Step::Done(Ok(ast)), h),
    }
}

/// The values of `items[i..]`, evaluated from left to right, behind `acc`.
pub open spec fn eval_items_spec(
    items: Seq<Val>,
    i: int,
    env: usize,
    h: Heap,
    fuel: nat,
    acc: Seq<Val>,
) -> (Result<Seq<Val>, Val>, Heap)
    decreases fuel, 1nat, items.len() - i,
{
    if i < 0 || i >= items.len() {
        (Ok(acc), h)
    } else {
        let r = eval_spec(items[i], env, h, fuel);
        match r.0 {
            Ok(v) => eval_items_spec(items, i + 1, env, r.1, fuel, acc.push(v)),
            Err(e) => (Err(e), r.1),
        }
    }
}

/// The entries `m[i..]`, each key with its value evaluated, from left to right, behind `acc`.
pub open spec fn eval_entries_spec(
    m: Seq<(Seq<char>, Val)>,
    i: int,
    env: usize,
    h: Heap,
    fuel: nat,
    acc: Seq<(Seq<char>, Val)>,
) -> (Result<Seq<(Seq<char>, Val)>, Val>, Heap)
    decreases fuel, 1nat, m.len() - i,
{
    if i < 0 || i >= m.len() {
        (Ok(acc), h)
    } else {
        let r = eval_spec(m[i].1, env, h, fuel);
        match r.0 {
            Ok(v) => eval_entries_spec(m, i + 1, env, r.1, fuel, acc.push((m[i].0, v))),
            Err(e) => (Err(e), r.1),
        }
    }
}

/// One step of evaluating the list `l`, which is not empty: the special
/// form that its head names, or else a call.
pub open spec fn form_spec(l: Seq<Val>, env: usize, h: Heap, fuel: nat) -> (Step, Heap)
    decreases fuel, 5nat, 0nat,
{
    let head = l[0];
    if head == Val::Sym("def!"@) {
        def_spec(l, env, h, fuel)
    } else if head == Val::Sym("let*"@) {
        let_spec(l, env, h, fuel)
    } else if head == Val::Sym("quote"@) {
        if l.len() < 2 {
            (Step::Done(wrong_args()), h)
        } else {
            (Step::Done(Ok(l[1])), h)
        }
    } else if head == Val::Sym("quasiquote"@) {
        if l.len() < 2 {
            (Step::Done(wrong_args()), h)
        } else {
            (Step::Tail(quasiquote_spec(l[1]), env), h)
        }
    } else if head == Val::Sym("defmacro!"@) {
        defmacro_spec(l, env, h, fuel)
    } else if head == Val::Sym("try*"@) {
        try_spec(l, env, h, fuel)
    } else if head == Val::Sym("do"@) {
        do_spec(l, env, h, fuel)
    } else if head == Val::Sym("if"@) {
        if_spec(l, env, h, fuel)
    } else if head == Val::Sym("fn*"@) {
        if l.len() < 3 {
            (Step::Done(wrong_args()), h)
        } else {
            (
                Step::Done(
                    Ok(
                        Val::MalFunc(
                            Closure {
                                ast: Box::new(l[2]),
                                env,
                                params: Box::new(l[1]),
                                is_macro: false,
                                meta: Box::new(Val::Nil),
                            },
                        ),
                    ),
                ),
                h,
            )
        }
    } else {
        call_spec(l, env, h, fuel)
    }
}

/// `(def! name form)`: the value of `form`, bound to `name` in scope `env`.
pub open spec fn def_spec(l: Seq<Val>, env: usize, h: Heap, fuel: nat) -> (Step, Heap)
    decreases fuel, 4nat, 0nat,
{
    if l.len() < 3 {
        (Step::Done(wrong_args()), h)
    } else {
        let r = eval_spec(l[2], env, h, fuel);
        match r.0 {
            Ok(v) => {
                let s = env_set_spec(r.1, env, l[1], v);
                (Step::Done(s.0), s.1)
            },
            Err(e) => (Step::Done(Err(e)), r.1),
        }
    }
}

/// Binds the names of `binds[i..]`, taken two by two, each to the value
/// of the form behind it, evaluated in scope `env` with the earlier names bound.
pub open spec fn let_binds_spec(binds: Seq<Val>, i: int, env: usize, h: Heap, fuel: nat) -> (
    Result<Val, Val>,
    Heap,
)
    decreases fuel, 1nat, binds.len() - i,
{
    if i < 0 || i + 1 >= binds.len() {
        (Ok(Val::Nil), h)
    } else {
        let r = eval_spec(binds[i + 1], env, h, fuel);
        match r.0 {
            Ok(v) => {
                let s = env_set_spec(r.1, env, binds[i], v);
                match s.0 {
                    Ok(_) => let_binds_spec(binds, i + 2, env, s.1, fuel),
                    Err(e) => (Err(e), s.1),
                }
            },
            Err(e) => (Err(e), r.1),
        }
    }
}

/// `(let* bindings body)`: goes on with `body` in a new scope inside
/// `env` in which the bindings were made.
pub open spec fn let_spec(l: Seq<Val>, env: usize, h: Heap, fuel: nat) -> (Step, Heap)
    decreases fuel, 4nat, 0nat,
{
    if l.len() < 3 {
        (Step::Done(wrong_args()), h)
    } else {
        match seq_of(l[1]) {
            Some(binds) => {
                let n = env_new_spec(h, Some(env));
                let r = let_binds_spec(binds, 0, n.1, n.0, fuel);
                match r.0 {
                    Ok(_) => (Step::Tail(l[2], n.1), r.1),
                    Err(e) => (Step::Done(Err(e)), r.1),
                }
            },
            None => (Step::Done(failure("let* with non-List bindings"@)), h),
        }
    }
}

/// `(defmacro! name form)`: the closure that `form` gives, bound to `name` as a macro.
pub open spec fn defmacro_spec(l: Seq<Val>, env: usize, h: Heap, fuel: nat) -> (Step, Heap)
    decreases fuel, 4nat, 0nat,
{
    if l.len() < 3 {
        (Step::Done(wrong_args()), h)
    } else {
        let r = eval_spec(l[2], env, h, fuel);
        match r.0 {
            Ok(Val::MalFunc(f)) => {
                let s = env_set_spec(r.1, env, l[1], as_macro(f));
                (Step::Done(s.0), s.1)
            },
            Ok(_) => (Step::Done(failure("set_macro on non-function"@)), r.1),
            Err(e) => (Step::Done(Err(e)), r.1),
        }
    }
}

/// `(try* form (catch* name body))`: the value of `form`; where it
/// throws, goes on with `body` in a new scope in which `name` is bound to
/// what was thrown. Without a catch clause it goes on with `form`; with
/// something else in its place what was thrown is thrown on.
pub open spec fn try_spec(l: Seq<Val>, env: usize, h: Heap, fuel: nat) -> (Step, Heap)
    decreases fuel, 4nat, 0nat,
{
    if l.len() < 2 {
        (Step::Done(wrong_args()), h)
    } else if l.len() < 3 {
        (Step::Tail(l[1], env), h)
    } else {
        let r = eval_spec(l[1], env, h, fuel);
        match r.0 {
            Ok(v) => (Step::Done(Ok(v)), r.1),
            Err(exc) => if is_catch(l[2]) {
                let c = l[2]->List_0;
                let n = env_new_spec(r.1, Some(env));
                (Step::Tail(c[2], n.1), env_sets_spec(n.0, n.1, c[1]->Sym_0, exc))
            } else {
                (Step::Done(Err(exc)), r.1)
            },
        }
    }
}

/// Evaluates `l[i..]` but for its last item, from left to right, for their effect.
pub open spec fn do_prefix_spec(l: Seq<Val>, i: int, env: usize, h: Heap, fuel: nat) -> (
    Result<Val, Val>,
    Heap,
)
    decreases fuel, 1nat, l.len() - i,
{
    if i < 0 || i + 1 >= l.len() {
        (Ok(Val::Nil), h)
    } else {
        let r = eval_spec(l[i], env, h, fuel);
        match r.0 {
            Ok(_) => do_prefix_spec(l, i + 1, env, r.1, fuel),
            Err(e) => (Err(e), r.1),
        }
    }
}

/// `(do form ...)`: evaluates all forms but the last, then goes on with
/// the last; `nil` where there is no form.
pub open spec fn do_spec(l: Seq<Val>, env: usize, h: Heap, fuel: nat) -> (Step, Heap)
    decreases fuel, 4nat, 0nat,
{
    if l.len() < 2 {
        (Step::Done(Ok(Val::Nil)), h)
    } else {
        let r = do_prefix_spec(l, 1, env, h, fuel);
        match r.0 {
            Ok(_) => (Step::Tail(l[l.len() - 1], env), r.1),
            Err(e) => (Step::Done(Err(e)), r.1),
        }
    }
}

/// `(if cond then else)`: goes on with `then` where `cond` is true, with
/// `else` where it is not; `nil` where that branch is missing.
pub open spec fn if_spec(l: Seq<Val>, env: usize, h: Heap, fuel: nat) -> (Step, Heap)
    decreases fuel, 4nat, 0nat,
{
    if l.len() < 2 {
        (Step::Done(wrong_args()), h)
    } else {
        let r = eval_spec(l[1], env, h, fuel);
        match r.0 {
            Ok(c) => if truthy(c) {
                if l.len() >= 3 {
                    (Step::Tail(l[2], env), r.1)
                } else {
                    (Step::Done(Ok(Val::Nil)), r.1)
                }
            } else {
                if l.len() >= 4 {
                    (Step::Tail(l[3], env), r.1)
                } else {
                    (Step::Done(Ok(Val::Nil)), r.1)
                }
            },
            Err(e) => (Step::Done(Err(e)), r.1),
        }
    }
}

/// A call: the head is evaluated. A macro is applied to the other items
/// as they stand and evaluation goes on with what it gives. A native
/// function is called on the values of the other items. A closure's body
/// is gone on with, in a new scope in which its parameters are bound to
/// the values of the other items.
pub open spec fn call_spec(l: Seq<Val>, env: usize, h: Heap, fuel: nat) -> (Step, Heap)
    decreases fuel, 4nat, 0nat,
{
    let f = eval_spec(l[0], env, h, fuel);
    match f.0 {
        Ok(Val::MalFunc(c)) => if c.is_macro {
            let r = apply_spec(Val::MalFunc(c), l.skip(1), f.1, fuel);
            match r.0 {
                Ok(new_ast) => (Step::Tail(new_ast, env), r.1),
                Err(e) => (Step::Done(Err(e)), r.1),
            }
        } else {
            let a = eval_items_spec(l, 1, env, f.1, fuel, Seq::empty());
            match a.0 {
                Ok(args) => {
                    let b = env_bind_spec(a.1, c.env, *c.params, args);
                    match b.0 {
                        Ok(env2) => (Step::Tail(*c.ast, env2), b.1),
                        Err(e) => (Step::Done(Err(e)), b.1),
                    }
                },
                Err(e) => (Step::Done(Err(e)), a.1),
            }
        },
        Ok(Val::Func(b, _)) => {
            let a = eval_items_spec(l, 1, env, f.1, fuel, Seq::empty());
            match a.0 {
                Ok(args) => {
                    let r = native_spec(b, args, a.1, fuel);
                    (Step::Done(r.0), r.1)
                },
                Err(e) => (Step::Done(Err(e)), a.1),
            }
        },
        Ok(_) => (Step::Done(failure("attempt to call non-function"@)), f.1),
        Err(e) => (Step::Done(Err(e)), f.1),
    }
}

/// What applying the function `f` to the arguments `args` gives.
pub open spec fn apply_spec(f: Val, args: Seq<Val>, h: Heap, fuel: nat) -> (Result<Val, Val>, Heap)
    decreases fuel, 3nat, 0nat,
{
    match f {
        Val::Func(b, _) => native_spec(b, args, h, fuel),
        Val::MalFunc(c) => {
            let b = env_bind_spec(h, c.env, *c.params, args);
            match b.0 {
                Ok(env2) => eval_spec(*c.ast, env2, b.1, fuel),
                Err(e) => (Err(e), b.1),
            }
        },
        _ => (failure("attempt to call non-function"@), h),
    }
}

/// The atom that `v` names in `h`, where it names one.
pub open spec fn atom_of(v: Val, h: Heap) -> Option<usize> {
    match v {
        Val::Atom(i) => if i < h.atoms.len() {
            Some(i)
        } else {
            None
        },
        _ => None,
    }
}

/// What the native function `b` gives for the arguments `a`.
pub open spec fn native_spec(b: Builtin, a: Seq<Val>, h: Heap, fuel: nat) -> (
    Result<Val, Val>,
    Heap,
)
    decreases fuel, 2nat, 0nat,
{
    if is_pure(b) {
        (pure_native(b, a), h)
    } else if a.len() < min_args(b) {
        (wrong_args(), h)
    } else {
        match b {
            Builtin::PrStr => (Ok(Val::Str(pr_seq_spec(a, true, ""@, ""@, " "@, h))), h),
            Builtin::ToStr => (Ok(Val::Str(pr_seq_spec(a, false, ""@, ""@, ""@, h))), h),
            Builtin::MakeAtom => atom_spec(a, h),
            Builtin::Deref => (deref_spec(a, h), h),
            Builtin::Reset => reset_spec(a, h),
            Builtin::Swap => swap_spec(a, h, fuel),
            Builtin::Apply => match seq_of(a[a.len() - 1]) {
                Some(v) => if a.len() < 2 {
                    (wrong_args(), h)
                } else if fuel == 0 {
                    (limit_reached(), h)
                } else {
                    apply_spec(a[0], a.subrange(1, a.len() - 1) + v, h, (fuel - 1) as nat)
                },
                None => (failure("apply called with non-seq"@), h),
            },
            Builtin::MapOver => match seq_of(a[1]) {
                Some(v) => if fuel == 0 {
                    (limit_reached(), h)
                } else {
                    map_spec(a[0], v, 0, h, (fuel - 1) as nat, Seq::empty())
                },
                None => (failure("map called with non-seq"@), h),
            },
            _ => if fuel == 0 {
                (limit_reached(), h)
            } else {
                eval_spec(a[0], 0, h, (fuel - 1) as nat)
            },
        }
    }
}

/// `(atom value)`: a new atom that holds `value`.
pub open spec fn atom_spec(a: Seq<Val>, h: Heap) -> (Result<Val, Val>, Heap) {
    if a.len() < 1 {
        (wrong_args(), h)
    } else {
        (Ok(Val::Atom(h.atoms.len() as usize)), atom_new_spec(h, a[0]))
    }
}

/// `(deref atom)`: what the atom holds.
pub open spec fn deref_spec(a: Seq<Val>, h: Heap) -> Result<Val, Val> {
    if a.len() < 1 {
        wrong_args()
    } else {
        match atom_of(a[0], h) {
            Some(i) => Ok(h.atoms[i as int]),
            None => failure("attempt to deref a non-Atom"@),
        }
    }
}

/// `(reset! atom value)`: sets the atom to `value`, which is the result.
pub open spec fn reset_spec(a: Seq<Val>, h: Heap) -> (Result<Val, Val>, Heap) {
    if a.len() < 1 {
        (wrong_args(), h)
    } else {
        match atom_of(a[0], h) {
            Some(i) => if a.len() < 2 {
                (wrong_args(), h)
            } else {
                (Ok(a[1]), atom_set_spec(h, i, a[1]))
            },
            None => (failure("attempt to reset! a non-Atom"@), h),
        }
    }
}

/// `(swap! atom f arg ...)`: sets the atom to what `f` gives for what the
/// atom holds and the other arguments; that is the result.
pub open spec fn swap_spec(a: Seq<Val>, h: Heap, fuel: nat) -> (Result<Val, Val>, Heap)
    decreases fuel, 1nat, 0nat,
{
    if a.len() < 1 {
        (wrong_args(), h)
    } else {
        match atom_of(a[0], h) {
            Some(i) => if a.len() < 2 {
                (wrong_args(), h)
            } else if fuel == 0 {
                (limit_reached(), h)
            } else {
                let r = apply_spec(a[1], seq![h.atoms[i as int]] + a.skip(2), h, (fuel - 1) as nat);
                match r.0 {
                    Ok(v) => (Ok(v), atom_set_spec(r.1, i, v)),
                    Err(e) => (Err(e), r.1),
                }
            },
            None => (failure("attempt to swap! a non-Atom"@), h),
        }
    }
}

/// The list of what `f` gives for each of `items[i..]`, from left to right, behind `acc`.
pub open spec fn map_spec(f: Val, items: Seq<Val>, i: int, h: Heap, fuel: nat, acc: Seq<Val>) -> (
    Result<Val, Val>,
    Heap,
)
    decreases fuel, 4nat, items.len() - i,
{
    if i < 0 || i >= items.len() {
        (Ok(list_val(acc)), h)
    } else {
        let r = apply_spec(f, seq![items[i]], h, fuel);
        match r.0 {
            Ok(v) => map_spec(f, items, i + 1, r.1, fuel, acc.push(v)),
            Err(e) => (Err(e), r.1),
        }
    }
}

} // verus!
