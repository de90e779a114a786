//! What holds of reading, printing and evaluating, for all values.

use vstd::prelude::*;
use crate::builtins::{is_pure, pure_native};
use crate::env::{
    bind_pairs, env_bind_spec, env_get_spec, env_new_spec, env_set_spec, env_sets_spec, Heap,
};
use crate::semantics::{
    apply_spec, def_spec, eval_spec, form_spec, if_spec, native_spec, step_spec, truthy, try_spec,
    Step,
};
use crate::printer::{escape_char, escape_text, pr_str_spec};
use crate::reader::{
    ahead, bare_stop, decimal_tail, ends_bare, is_float_literal, is_special, missing_form,
    read_atom_spec, read_form_spec, read_str_spec, string_closed, string_stop, tokens_from,
    tokens_of, unescape_from,
};
use crate::reader_laws::lemma_missing_form_is_incomplete;
use crate::stream::{is_incomplete, parse_spec};
use crate::text::{
    all_digits, digit_char, digit_val, digits_text, digits_val, int_literal, int_text, is_digit,
};
use crate::types::{
    failure, key_of, key_val, kwd_mark, list_val, seq_eq, seq_of, val_eq, with_meta_of, Builtin,
    Closure, Val,
};

verus! {

/// The failure of binding more parameters than there are arguments.
pub open spec fn too_few() -> Val {
    Val::Str("wrong number of arguments: function requires more arguments than provided"@)
}

/// The failure of binding fewer parameters than there are arguments.
pub open spec fn too_many() -> Val {
    Val::Str("wrong number of arguments: function received more arguments than expected"@)
}

/// Whether every parameter of `binds` is a symbol other than `&`.
pub open spec fn plain_params(binds: Seq<Val>) -> bool {
    forall|i: int| 0 <= i < binds.len() ==> (#[trigger] binds[i]) is Sym && binds[i] != Val::Sym("&"@)
}

/// `(quote x)` evaluates to `x` as it stands, whatever `x` is, and
/// changes nothing, in every evaluation that is allowed at least one step.
pub proof fn law_quote_is_unevaluated(x: Val, meta: Val, env: usize, h: Heap, fuel: nat)
    requires
        fuel > 0,
    ensures
        eval_spec(Val::List(seq![Val::Sym("quote"@), x], Box::new(meta)), env, h, fuel) == (
            Ok::<Val, Val>(x),
            h,
        ),
{
    let l = seq![Val::Sym("quote"@), x];
    let ast = Val::List(l, Box::new(meta));
    reveal_strlit("quote");
    reveal_strlit("def!");
    reveal_strlit("let*");
    assert("quote"@.len() == 5);
    assert("def!"@.len() == 4);
    assert("let*"@.len() == 4);
    assert(l[0] != Val::Sym("def!"@));
    assert(l[0] != Val::Sym("let*"@));
    assert(form_spec(l, env, h, (fuel - 1) as nat).0 == Step::Done(Ok(x)));
    assert(step_spec(ast, env, h, (fuel - 1) as nat) == form_spec(l, env, h, (fuel - 1) as nat));
}

/// Binding the parameters `binds[i..]`, symbols other than `&`, fails
/// with too few arguments where `exprs` is shorter than `binds`, with
/// too many where it is longer, and succeeds where it is as long.
pub proof fn law_arity_from(binds: Seq<Val>, exprs: Seq<Val>, i: int)
    requires
        plain_params(binds),
        0 <= i <= binds.len(),
        i <= exprs.len(),
    ensures
        exprs.len() == binds.len() ==> bind_pairs(binds, exprs, i) is Ok,
        exprs.len() < binds.len() ==> bind_pairs(binds, exprs, i) == Err::<
            Seq<(Seq<char>, Val)>,
            Val,
        >(too_few()),
        exprs.len() > binds.len() ==> bind_pairs(binds, exprs, i) == Err::<
            Seq<(Seq<char>, Val)>,
            Val,
        >(too_many()),
    decreases binds.len() - i,
{
    if i < binds.len() {
        assert(binds[i] is Sym && binds[i] != Val::Sym("&"@));
        if i < exprs.len() {
            law_arity_from(binds, exprs, i + 1);
        }
    }
}

/// A function whose parameters are symbols other than `&` takes exactly
/// as many arguments as it has parameters: with fewer, binding fails and
/// says that more are required; with more, it fails and says that more
/// were received than expected.
pub proof fn law_arity(binds: Seq<Val>, exprs: Seq<Val>)
    requires
        plain_params(binds),
    ensures
        exprs.len() == binds.len() <==> bind_pairs(binds, exprs, 0) is Ok,
        exprs.len() < binds.len() ==> bind_pairs(binds, exprs, 0) == Err::<
            Seq<(Seq<char>, Val)>,
            Val,
        >(too_few()),
        exprs.len() > binds.len() ==> bind_pairs(binds, exprs, 0) == Err::<
            Seq<(Seq<char>, Val)>,
            Val,
        >(too_many()),
{
    law_arity_from(binds, exprs, 0);
}

/// A closure whose parameter list holds symbols other than `&` fails on
/// fewer arguments than parameters and on more, each with its own
/// message and without a change to the heap; on exactly as many it goes
/// on to evaluate its body in a new scope.
pub proof fn law_closure_arity(c: Closure, args: Seq<Val>, h: Heap, fuel: nat)
    requires
        seq_of(*c.params) is Some,
        plain_params(seq_of(*c.params)->0),
    ensures
        args.len() < seq_of(*c.params)->0.len() ==> apply_spec(Val::MalFunc(c), args, h, fuel) == (
            Err::<Val, Val>(too_few()),
            h,
        ),
        args.len() > seq_of(*c.params)->0.len() ==> apply_spec(Val::MalFunc(c), args, h, fuel) == (
            Err::<Val, Val>(too_many()),
            h,
        ),
        args.len() == seq_of(*c.params)->0.len() ==> env_bind_spec(h, c.env, *c.params, args).0
            == Ok::<usize, Val>(h.envs.len() as usize) && apply_spec(
            Val::MalFunc(c),
            args,
            h,
            fuel,
        ) == eval_spec(
            *c.ast,
            h.envs.len() as usize,
            env_bind_spec(h, c.env, *c.params, args).1,
            fuel,
        ),
{
    law_arity(seq_of(*c.params)->0, args);
}

/// A closure equals no value, not even itself; nor does a native function or an atom.
pub proof fn law_functions_equal_nothing(f: Val, x: Val)
    requires
        f is MalFunc || f is Func || f is Atom,
    ensures
        !val_eq(f, x),
        !val_eq(x, f),
{
}

/// A list and a vector are equal where their items are equal one by one
/// in order; their metadata does not count.
pub proof fn law_list_equals_vector(a: Seq<Val>, b: Seq<Val>, m1: Val, m2: Val)
    ensures
        val_eq(Val::List(a, Box::new(m1)), Val::Vector(b, Box::new(m2))) == seq_eq(a, b),
        val_eq(Val::Vector(a, Box::new(m1)), Val::List(b, Box::new(m2))) == seq_eq(a, b),
        val_eq(Val::List(a, Box::new(m1)), Val::List(b, Box::new(m2))) == seq_eq(a, b),
        val_eq(Val::Vector(a, Box::new(m1)), Val::Vector(b, Box::new(m2))) == seq_eq(a, b),
{
}

/// Giving a value other metadata leaves what it holds as it was: the
/// value with the new metadata equals the value with the old.
pub proof fn law_metadata_does_not_count(v: Val, m: Val, x: Val)
    requires
        with_meta_of(v, m) is Some,
    ensures
        val_eq(with_meta_of(v, m)->0, x) == val_eq(v, x),
{
}

/// A keyword and a string never share a key, and a key stands for the
/// value it was made from, but for a string that begins with the mark of
/// keywords.
pub proof fn law_key_stands_for_its_value(k: Val)
    requires
        k is Kwd || (k matches Val::Str(s) && (s.len() == 0 || s[0] != kwd_mark())),
    ensures
        key_of(k) is Ok,
        key_val(key_of(k)->Ok_0) == k,
{
    match k {
        Val::Kwd(s) => {
            let key = seq![kwd_mark()] + s;
            assert(key[0] == kwd_mark());
            assert(key.skip(1) =~= s);
        },
        _ => {},
    }
}

/// Only atoms can be changed: a native function that neither reads the
/// store nor calls a function leaves the heap as it was.
pub proof fn law_plain_natives_change_nothing(b: Builtin, a: Seq<Val>, h: Heap, fuel: nat)
    requires
        is_pure(b),
    ensures
        native_spec(b, a, h, fuel) == (pure_native(b, a), h),
{
}

/// Whether `v` is its own value: anything but a symbol, a list, a vector or a map.
pub open spec fn self_evaluating(v: Val) -> bool {
    !(v is Sym) && !(v is List) && !(v is Vector) && !(v is Hash)
}

/// The names of the special forms are different names.
proof fn lemma_form_names()
    ensures
        "def!"@ != "let*"@,
        "quote"@.len() == 5,
        "def!"@.len() == 4,
        "let*"@.len() == 4,
        "quasiquote"@.len() == 10,
        "defmacro!"@.len() == 9,
        "try*"@.len() == 4,
        "do"@.len() == 2,
        "if"@.len() == 2,
        "fn*"@.len() == 3,
        "def!"@[0] == 'd',
        "let*"@[0] == 'l',
        "try*"@[0] == 't',
        "do"@[0] == 'd',
        "if"@[0] == 'i',
{
    reveal_strlit("quote");
    reveal_strlit("def!");
    reveal_strlit("let*");
    reveal_strlit("quasiquote");
    reveal_strlit("defmacro!");
    reveal_strlit("try*");
    reveal_strlit("do");
    reveal_strlit("if");
    reveal_strlit("fn*");
    assert("def!"@[0] != "let*"@[0]);
}

/// A value that is its own value evaluates to itself and changes nothing.
pub proof fn law_self_evaluating(v: Val, env: usize, h: Heap, fuel: nat)
    requires
        self_evaluating(v),
        fuel > 0,
    ensures
        eval_spec(v, env, h, fuel) == (Ok::<Val, Val>(v), h),
{
    assert(step_spec(v, env, h, (fuel - 1) as nat) == (Step::Done(Ok(v)), h));
}

/// `(if c a b)`, where `c` is its own value, is `a` where `c` is neither
/// `nil` nor `false`, and `b` where it is one of them: the number 0, the
/// empty string and every function count as true.
pub proof fn law_if_chooses_by_truth(
    c: Val,
    a: Val,
    b: Val,
    meta: Val,
    env: usize,
    h: Heap,
    fuel: nat,
)
    requires
        self_evaluating(c),
        fuel >= 2,
    ensures
        eval_spec(Val::List(seq![Val::Sym("if"@), c, a, b], Box::new(meta)), env, h, fuel)
            == eval_spec(
            if truthy(c) {
                a
            } else {
                b
            },
            env,
            h,
            (fuel - 1) as nat,
        ),
{
    let l = seq![Val::Sym("if"@), c, a, b];
    let ast = Val::List(l, Box::new(meta));
    let f = (fuel - 1) as nat;
    lemma_form_names();
    law_self_evaluating(c, env, h, f);
    assert(l[0] == Val::Sym("if"@));
    assert(form_spec(l, env, h, f) == if_spec(l, env, h, f));
    assert(step_spec(ast, env, h, f) == form_spec(l, env, h, f));
}

/// Dividing by zero is a failure that says so, whatever is divided.
pub proof fn law_division_by_zero(x: i64, h: Heap, fuel: nat)
    ensures
        pure_native(Builtin::Div, seq![Val::Int(x), Val::Int(0)]) == failure(
            "division by zero"@,
        ),
        native_spec(Builtin::Div, seq![Val::Int(x), Val::Int(0)], h, fuel) == (
            failure("division by zero"@),
            h,
        ),
{
}

/// `(def! name v)`, where `v` is its own value, gives `v`, and `name`
/// evaluates to `v` from then on in the scope in which it was defined.
pub proof fn law_def_then_lookup(
    name: Seq<char>,
    v: Val,
    meta: Val,
    env: usize,
    h: Heap,
    fuel: nat,
)
    requires
        self_evaluating(v),
        env < h.envs.len(),
        fuel >= 2,
    ensures
        ({
            let r = eval_spec(
                Val::List(seq![Val::Sym("def!"@), Val::Sym(name), v], Box::new(meta)),
                env,
                h,
                fuel,
            );
            &&& r.0 == Ok::<Val, Val>(v)
            &&& r.1 == env_sets_spec(h, env, name, v)
            &&& eval_spec(Val::Sym(name), env, r.1, fuel) == (Ok::<Val, Val>(v), r.1)
        }),
{
    let l = seq![Val::Sym("def!"@), Val::Sym(name), v];
    let ast = Val::List(l, Box::new(meta));
    let f = (fuel - 1) as nat;
    law_self_evaluating(v, env, h, f);
    assert(form_spec(l, env, h, f) == def_spec(l, env, h, f));
    assert(step_spec(ast, env, h, f) == form_spec(l, env, h, f));
    let h2 = env_sets_spec(h, env, name, v);
    assert(env_set_spec(h, env, Val::Sym(name), v) == (Ok::<Val, Val>(v), h2));
    assert(h2.envs[env as int].data.contains_key(name));
    assert(env_get_spec(h2, env, name) == Some(v));
    assert(step_spec(Val::Sym(name), env, h2, f) == (Step::Done(Ok(v)), h2));
}

/// A lookup that starts below scope `env` does not see what was bound in scope `env`.
proof fn lemma_lookup_below(h: Heap, env: usize, name: Seq<char>, v: Val, from: usize, n: Seq<char>)
    requires
        from < env,
    ensures
        env_get_spec(env_sets_spec(h, env, name, v), from, n) == env_get_spec(h, from, n),
    decreases from,
{
    let h2 = env_sets_spec(h, env, name, v);
    if from < h.envs.len() {
        assert(h2.envs[from as int] == h.envs[from as int]);
        if !h.envs[from as int].data.contains_key(n) {
            match h.envs[from as int].outer {
                Some(o) => {
                    if o < from {
                        lemma_lookup_below(h, env, name, v, o, n);
                    }
                },
                None => {},
            }
        }
    }
}

/// `(def! name e)`, where `e` has the value `v`, gives `v` and binds
/// `name` to it in the scope of the `def!` and in no other: every other
/// scope and every atom stays as evaluating `e` left it, an outer binding
/// of `name` is hidden and not overwritten, and every other name keeps
/// the value that it had.
pub proof fn law_def_binds(
    name: Seq<char>,
    e: Val,
    v: Val,
    meta: Val,
    env: usize,
    h: Heap,
    fuel: nat,
)
    requires
        fuel >= 1,
        eval_spec(e, env, h, (fuel - 1) as nat).0 == Ok::<Val, Val>(v),
        env < eval_spec(e, env, h, (fuel - 1) as nat).1.envs.len(),
    ensures
        ({
            let h1 = eval_spec(e, env, h, (fuel - 1) as nat).1;
            let r = eval_spec(
                Val::List(seq![Val::Sym("def!"@), Val::Sym(name), e], Box::new(meta)),
                env,
                h,
                fuel,
            );
            &&& r.0 == Ok::<Val, Val>(v)
            &&& r.1 == env_sets_spec(h1, env, name, v)
            &&& r.1.atoms == h1.atoms
            &&& r.1.envs.len() == h1.envs.len()
            &&& r.1.envs[env as int].outer == h1.envs[env as int].outer
            &&& r.1.envs[env as int].data == h1.envs[env as int].data.insert(name, v)
            &&& forall|i: int| 0 <= i < h1.envs.len() && i != env ==> r.1.envs[i] == h1.envs[i]
            &&& env_get_spec(r.1, env, name) == Some(v)
            &&& forall|n: Seq<char>|
                n != name ==> #[trigger] env_get_spec(r.1, env, n) == env_get_spec(h1, env, n)
        }),
{
    let l = seq![Val::Sym("def!"@), Val::Sym(name), e];
    let ast = Val::List(l, Box::new(meta));
    let f = (fuel - 1) as nat;
    let h1 = eval_spec(e, env, h, f).1;
    let h2 = env_sets_spec(h1, env, name, v);
    assert(form_spec(l, env, h, f) == def_spec(l, env, h, f));
    assert(step_spec(ast, env, h, f) == form_spec(l, env, h, f));
    assert(env_set_spec(h1, env, Val::Sym(name), v) == (Ok::<Val, Val>(v), h2));
    assert(h2.envs[env as int].data.contains_key(name));
    assert forall|n: Seq<char>| n != name implies #[trigger] env_get_spec(h2, env, n)
        == env_get_spec(h1, env, n) by {
        if !h1.envs[env as int].data.contains_key(n) {
            match h1.envs[env as int].outer {
                Some(o) => {
                    if o < env {
                        lemma_lookup_below(h1, env, name, v, o, n);
                    }
                },
                None => {},
            }
        }
    }
}

/// The value that `a` has as the first form of a `try*` that is given
/// `fuel` steps, and the heap behind it: `try*` evaluates its first form
/// with one step less than it was given itself.
pub open spec fn tried(a: Val, env: usize, h: Heap, fuel: nat) -> (Result<Val, Val>, Heap) {
    eval_spec(a, env, h, (fuel - 1) as nat)
}

/// The form `(try* a (catch* name body))`.
pub open spec fn try_catch(a: Val, name: Seq<char>, body: Val, meta: Val, catch_meta: Val) -> Val {
    Val::List(
        seq![
            Val::Sym("try*"@),
            a,
            Val::List(seq![Val::Sym("catch*"@), Val::Sym(name), body], Box::new(catch_meta)),
        ],
        Box::new(meta),
    )
}

/// One step of `(try* a (catch* name body))` is what `try*` says of it.
proof fn lemma_try_step(
    a: Val,
    name: Seq<char>,
    body: Val,
    meta: Val,
    catch_meta: Val,
    env: usize,
    h: Heap,
    f: nat,
)
    ensures
        step_spec(try_catch(a, name, body, meta, catch_meta), env, h, f) == try_spec(
            try_catch(a, name, body, meta, catch_meta)->List_0,
            env,
            h,
            f,
        ),
{
    let ast = try_catch(a, name, body, meta, catch_meta);
    let l = ast->List_0;
    lemma_form_names();
    reveal_strlit("quote");
    reveal_strlit("quasiquote");
    reveal_strlit("defmacro!");
    assert(l[0] == Val::Sym("try*"@));
    assert(l[0] != Val::Sym("def!"@));
    assert(l[0] != Val::Sym("let*"@));
    assert(l[0] != Val::Sym("quote"@));
    assert(l[0] != Val::Sym("quasiquote"@));
    assert(l[0] != Val::Sym("defmacro!"@));
    assert(form_spec(l, env, h, f) == try_spec(l, env, h, f));
}

/// `(try* a (catch* name body))`, where `a` has a value, has that value,
/// and the heap is the one that evaluating `a` left: `body` is not
/// evaluated and no scope is added.
pub proof fn law_try_hands_on_success(
    a: Val,
    w: Val,
    name: Seq<char>,
    body: Val,
    meta: Val,
    catch_meta: Val,
    env: usize,
    h: Heap,
    fuel: nat,
)
    requires
        fuel >= 1,
        tried(a, env, h, fuel).0 == Ok::<Val, Val>(w),
    ensures
        eval_spec(try_catch(a, name, body, meta, catch_meta), env, h, fuel) == (
            Ok::<Val, Val>(w),
            tried(a, env, h, fuel).1,
        ),
{
    lemma_try_step(a, name, body, meta, catch_meta, env, h, (fuel - 1) as nat);
}

/// `(try* a (catch* name body))`, where `a` throws, is `body` evaluated
/// in a new scope inside the scope of the `try*`, in which `name` is
/// bound to what was thrown and nothing else is bound. No other scope
/// and no atom is changed on the way there.
pub proof fn law_catch_binds_thrown(
    a: Val,
    exc: Val,
    name: Seq<char>,
    body: Val,
    meta: Val,
    catch_meta: Val,
    env: usize,
    h: Heap,
    fuel: nat,
)
    requires
        fuel >= 1,
        tried(a, env, h, fuel).0 == Err::<Val, Val>(exc),
        tried(a, env, h, fuel).1.envs.len() < usize::MAX,
    ensures
        ({
            let h1 = tried(a, env, h, fuel).1;
            let env2 = h1.envs.len() as usize;
            let h2 = env_sets_spec(env_new_spec(h1, Some(env)).0, env2, name, exc);
            &&& eval_spec(try_catch(a, name, body, meta, catch_meta), env, h, fuel) == eval_spec(
                body,
                env2,
                h2,
                (fuel - 1) as nat,
            )
            &&& h2.envs.len() == h1.envs.len() + 1
            &&& h2.envs[env2 as int].outer == Some(env)
            &&& h2.envs[env2 as int].data =~= Map::<Seq<char>, Val>::empty().insert(name, exc)
            &&& h2.atoms == h1.atoms
            &&& forall|i: int| 0 <= i < h1.envs.len() ==> h2.envs[i] == h1.envs[i]
        }),
{
    lemma_try_step(a, name, body, meta, catch_meta, env, h, (fuel - 1) as nat);
}

/// Where evaluating `a` throws, `(try* a (catch* name name))` gives what
/// was thrown.
pub proof fn law_catch_gives_thrown(
    a: Val,
    exc: Val,
    name: Seq<char>,
    meta: Val,
    catch_meta: Val,
    env: usize,
    h: Heap,
    fuel: nat,
)
    requires
        fuel >= 2,
        tried(a, env, h, fuel).0 == Err::<Val, Val>(exc),
        tried(a, env, h, fuel).1.envs.len() < usize::MAX,
    ensures
        eval_spec(try_catch(a, name, Val::Sym(name), meta, catch_meta), env, h, fuel).0 == Ok::<
            Val,
            Val,
        >(exc),
{
    law_catch_binds_thrown(a, exc, name, Val::Sym(name), meta, catch_meta, env, h, fuel);
    let h1 = tried(a, env, h, fuel).1;
    let env2 = h1.envs.len() as usize;
    let h2 = env_sets_spec(env_new_spec(h1, Some(env)).0, env2, name, exc);
    assert(h2.envs[env2 as int].data.contains_key(name));
    assert(env_get_spec(h2, env2, name) == Some(exc));
    assert(step_spec(Val::Sym(name), env2, h2, (fuel - 2) as nat) == (Step::Done(Ok(exc)), h2));
}

/// Behind `&` one parameter takes all arguments that the parameters
/// before it left over, as a list: with `n` plain parameters before it,
/// the arguments from the `n`-th on.
pub proof fn law_rest_collects(binds: Seq<Val>, rest: Seq<char>, exprs: Seq<Val>, i: int)
    requires
        binds.len() >= 2,
        plain_params(binds.take(binds.len() - 2)),
        binds[binds.len() - 2] == Val::Sym("&"@),
        binds[binds.len() - 1] == Val::Sym(rest),
        0 <= i <= binds.len() - 2 <= exprs.len(),
    ensures
        bind_pairs(binds, exprs, i) is Ok,
        bind_pairs(binds, exprs, i)->Ok_0.len() == binds.len() - 1 - i,
        bind_pairs(binds, exprs, i)->Ok_0.last() == (
            rest,
            list_val(exprs.skip(binds.len() - 2)),
        ),
        forall|j: int|
            0 <= j < binds.len() - 2 - i ==> (#[trigger] bind_pairs(binds, exprs, i)->Ok_0[j]) == (
                binds[i + j]->Sym_0,
                exprs[i + j],
            ),
    decreases binds.len() - i,
{
    let n = binds.len() - 2;
    if i < n {
        assert(binds.take(n)[i] == binds[i]);
        assert(binds[i] is Sym && binds[i] != Val::Sym("&"@));
        law_rest_collects(binds, rest, exprs, i + 1);
        let tail = bind_pairs(binds, exprs, i + 1)->Ok_0;
        let all = bind_pairs(binds, exprs, i)->Ok_0;
        assert(all =~= seq![(binds[i]->Sym_0, exprs[i])] + tail);
        assert forall|j: int| 0 <= j < n - i implies (#[trigger] all[j]) == (
            binds[i + j]->Sym_0,
            exprs[i + j],
        ) by {
            if j > 0 {
                assert(all[j] == tail[j - 1]);
            }
        }
    }
}

/// The readable form of a text is that of its first part, then that of its second part.
pub proof fn lemma_escape_add(a: Seq<char>, b: Seq<char>)
    ensures
        escape_text(a + b) == escape_text(a) + escape_text(b),
    decreases b.len(),
{
    if b.len() == 0 {
        assert(a + b =~= a);
        assert(escape_text(a) + escape_text(b) =~= escape_text(a));
    } else {
        lemma_escape_add(a, b.drop_last());
        assert((a + b).drop_last() =~= a + b.drop_last());
        assert((a + b).last() == b.last());
        assert(escape_text(a) + (escape_text(b.drop_last()) + escape_char(b.last()))
            =~= escape_text(a) + escape_text(b.drop_last()) + escape_char(b.last()));
    }
}

/// The readable form of a text that is not empty is that of its first
/// character, then that of the rest.
pub proof fn lemma_escape_front(s: Seq<char>)
    requires
        s.len() > 0,
    ensures
        escape_text(s) == escape_char(s[0]) + escape_text(s.skip(1)),
{
    let one = seq![s[0]];
    lemma_escape_add(one, s.skip(1));
    assert(one + s.skip(1) =~= s);
    assert(one.drop_last() =~= Seq::<char>::empty());
    assert(escape_text(one.drop_last()) =~= Seq::<char>::empty());
    assert(one.last() == s[0]);
    assert(escape_text(one) =~= escape_char(s[0]));
}

/// A string whose inside is the readable form of a text ends at the
/// quote behind it.
pub proof fn lemma_string_scan(t: Seq<char>, i: int, s: Seq<char>)
    requires
        0 <= i,
        i + escape_text(s).len() < t.len(),
        t.subrange(i, i + escape_text(s).len()) == escape_text(s),
        t[i + escape_text(s).len()] == '"',
    ensures
        string_stop(t, i) == i + escape_text(s).len() + 1,
        string_closed(t, i),
    decreases s.len(),
{
    let e = escape_text(s);
    if s.len() == 0 {
        assert(e.len() == 0);
    } else {
        lemma_escape_front(s);
        let c = s[0];
        let rest = escape_text(s.skip(1));
        let k = escape_char(c).len() as int;
        assert(e.len() == k + rest.len());
        assert(t[i] == e[0]);
        assert(e[0] == escape_char(c)[0]);
        if k == 2 {
            assert(t[i + 1] == e[1]);
        }
        assert(t.subrange(i + k, i + k + rest.len()) =~= rest) by {
            assert forall|j: int| 0 <= j < rest.len() implies t.subrange(
                i + k,
                i + k + rest.len(),
            )[j] == rest[j] by {
                assert(t[i + k + j] == e[k + j]);
            }
        }
        lemma_string_scan(t, i + k, s.skip(1));
    }
}

/// Reading the readable form of a text gives the text again.
pub proof fn lemma_unescape_escape(t: Seq<char>, i: int, s: Seq<char>)
    requires
        0 <= i,
        i + escape_text(s).len() == t.len(),
        t.subrange(i, t.len() as int) == escape_text(s),
    ensures
        unescape_from(t, i) == s,
    decreases s.len(),
{
    let e = escape_text(s);
    if s.len() == 0 {
        assert(e.len() == 0);
        assert(unescape_from(t, i) =~= s);
    } else {
        lemma_escape_front(s);
        let c = s[0];
        let rest = escape_text(s.skip(1));
        let k = escape_char(c).len() as int;
        assert(e.len() == k + rest.len());
        assert(t[i] == e[0]);
        assert(e[0] == escape_char(c)[0]);
        if k == 2 {
            assert(t[i + 1] == e[1]);
            assert(e[1] == escape_char(c)[1]);
        }
        assert(t.subrange(i + k, t.len() as int) =~= rest) by {
            assert forall|j: int| 0 <= j < rest.len() implies t.subrange(i + k, t.len() as int)[j]
                == rest[j] by {
                assert(t[i + k + j] == e[k + j]);
            }
        }
        lemma_unescape_escape(t, i + k, s.skip(1));
        assert(seq![c] + s.skip(1) =~= s);
    }
}

/// A run of characters none of which ends a bare token goes on to the end of the text.
pub proof fn lemma_bare_run(t: Seq<char>, i: int)
    requires
        0 <= i <= t.len(),
        forall|j: int| i <= j < t.len() ==> !ends_bare(#[trigger] t[j]),
    ensures
        bare_stop(t, i) == t.len(),
    decreases t.len() - i,
{
    if i < t.len() {
        lemma_bare_run(t, i + 1);
    }
}

/// Whether the text `t` is one bare token: not empty, without a
/// character that ends a bare token, and not begun by a special
/// character.
pub open spec fn is_bare_token(t: Seq<char>) -> bool {
    &&& t.len() > 0
    &&& !is_special(t[0])
    &&& forall|j: int| 0 <= j < t.len() ==> !ends_bare(#[trigger] t[j])
}

/// A bare token is the only token of its text.
pub proof fn lemma_one_bare_token(t: Seq<char>)
    requires
        is_bare_token(t),
    ensures
        tokens_of(t) == seq![t],
{
    assert(!ends_bare(t[0]));
    lemma_bare_run(t, 1);
    assert(t.subrange(0, t.len() as int) =~= t);
    assert(tokens_from(t, t.len() as int) =~= Seq::<Seq<char>>::empty());
    assert(seq![t] + Seq::<Seq<char>>::empty() =~= seq![t]);
}

/// A token that no special character begins is read as an atom.
pub proof fn lemma_read_as_atom(t: Seq<char>)
    requires
        t.len() > 0,
        !is_special(t[0]),
    ensures
        read_form_spec(seq![t], 0).0 == read_atom_spec(t),
{
    reveal_strlit("'");
    reveal_strlit("`");
    reveal_strlit("~");
    reveal_strlit("~@");
    reveal_strlit("^");
    reveal_strlit("@");
    reveal_strlit(")");
    reveal_strlit("(");
    reveal_strlit("]");
    reveal_strlit("[");
    reveal_strlit("}");
    reveal_strlit("{");
    assert("'"@[0] == '\'');
    assert("`"@[0] == '`');
    assert("~"@[0] == '~');
    assert("~@"@[0] == '~');
    assert("^"@[0] == '^');
    assert("@"@[0] == '@');
    assert(")"@[0] == ')');
    assert("("@[0] == '(');
    assert("]"@[0] == ']');
    assert("["@[0] == '[');
    assert("}"@[0] == '}');
    assert("{"@[0] == '{');
    assert(seq![t][0] == t);
}

/// The digits of a number are decimal digits, and write that number.
pub proof fn lemma_digits_text(n: nat)
    ensures
        digits_text(n).len() > 0,
        all_digits(digits_text(n)),
        digits_val(digits_text(n)) == n,
    decreases n,
{
    if n < 10 {
        let d = digits_text(n);
        assert(d.drop_last() =~= Seq::<char>::empty());
        assert(digits_val(d.drop_last()) == 0);
        assert(digit_val(digit_char(n as int)) == n);
    } else {
        lemma_digits_text(n / 10);
        let d = digits_text(n);
        let c = digit_char((n % 10) as int);
        assert(d.drop_last() =~= digits_text(n / 10));
        assert(d.last() == c);
        assert(digit_val(c) == n % 10);
        assert(is_digit(c));
        assert forall|i: int| 0 <= i < d.len() implies is_digit(#[trigger] d[i]) by {
            if i < d.len() - 1 {
                assert(d[i] == digits_text(n / 10)[i]);
            }
        }
    }
}

/// The decimal text of an integer of 64 bits is read as that integer.
pub proof fn lemma_int_text(i: i64)
    ensures
        int_literal(int_text(i as int)) == Some(i),
        is_bare_token(int_text(i as int)),
        int_text(i as int)[0] == '-' || is_digit(int_text(i as int)[0]),
{
    let t = int_text(i as int);
    if i < 0 {
        let n = (-i) as nat;
        lemma_digits_text(n);
        let d = digits_text(n);
        assert(t.skip(1) =~= d);
        assert(t[0] == '-');
        assert forall|j: int| 0 <= j < t.len() implies !ends_bare(#[trigger] t[j]) by {
            if j > 0 {
                assert(t[j] == d[j - 1]);
                assert(is_digit(d[j - 1]));
            }
        }
    } else {
        lemma_digits_text(i as nat);
        assert(is_digit(t[0]));
        assert forall|j: int| 0 <= j < t.len() implies !ends_bare(#[trigger] t[j]) by {
            assert(is_digit(t[j]));
        }
    }
}

/// Whether every character of `s` can stand inside a bare token.
pub open spec fn bare_chars(s: Seq<char>) -> bool {
    forall|j: int| 0 <= j < s.len() ==> !ends_bare(#[trigger] s[j])
}

/// Whether `v` is a value that a single literal writes: `nil`, a truth
/// value, an integer, a string; a float whose text is a decimal number
/// and no integer; a keyword whose name can stand in a bare token; a
/// symbol that is a bare token and is read as nothing else.
pub open spec fn is_literal_atom(v: Val) -> bool {
    match v {
        Val::Nil => true,
        Val::Bool(_) => true,
        Val::Int(_) => true,
        Val::Str(_) => true,
        Val::Float(s) => is_float_literal(s) && int_literal(s) is None,
        Val::Kwd(s) => bare_chars(s),
        Val::Sym(s) => is_bare_token(s) && s != "nil"@ && s != "true"@ && s != "false"@
            && int_literal(s) is None && !is_float_literal(s) && s[0] != ':',
        _ => false,
    }
}

/// The text of an integer is read as that integer.
proof fn lemma_int_round_trip(i: i64)
    ensures
        read_str_spec(int_text(i as int)) == Ok::<Val, Val>(Val::Int(i)),
{
    let t = int_text(i as int);
    lemma_int_text(i);
    lemma_one_bare_token(t);
    lemma_read_as_atom(t);
    reveal_strlit("nil");
    reveal_strlit("false");
    reveal_strlit("true");
    assert("nil"@[0] == 'n');
    assert("false"@[0] == 'f');
    assert("true"@[0] == 't');
}

/// The text of a word that is made of letters is read as the atom that the word names.
proof fn lemma_word_round_trip(t: Seq<char>)
    requires
        t == "nil"@ || t == "true"@ || t == "false"@,
    ensures
        read_str_spec(t) == read_atom_spec(t),
{
    reveal_strlit("nil");
    reveal_strlit("false");
    reveal_strlit("true");
    assert("nil"@.len() == 3);
    assert("true"@.len() == 4);
    assert("false"@.len() == 5);
    lemma_one_bare_token(t);
    lemma_read_as_atom(t);
}

/// The readable text of a string is read as that string.
proof fn lemma_string_round_trip(s: Seq<char>)
    ensures
        read_str_spec(seq!['"'] + escape_text(s) + seq!['"']) == Ok::<Val, Val>(Val::Str(s)),
{
    let e = escape_text(s);
    let t = seq!['"'] + e + seq!['"'];
    assert(t.len() == e.len() + 2);
    assert(t[0] == '"');
    assert(t[1 + e.len() as int] == '"');
    assert(t.subrange(1, 1 + e.len() as int) =~= e);
    lemma_string_scan(t, 1, s);
    assert(t.subrange(0, t.len() as int) =~= t);
    assert(tokens_from(t, t.len() as int) =~= Seq::<Seq<char>>::empty());
    assert(seq![t] + Seq::<Seq<char>>::empty() =~= seq![t]);
    assert(tokens_of(t) == seq![t]);
    lemma_read_as_atom(t);
    reveal_strlit("nil");
    reveal_strlit("false");
    reveal_strlit("true");
    assert("nil"@[0] == 'n');
    assert("false"@[0] == 'f');
    assert("true"@[0] == 't');
    assert(!is_digit(t[0]));
    assert(!all_digits(t));
    assert(int_literal(t) is None);
    assert(!is_float_literal(t));
    let inner = t.subrange(1, t.len() - 1);
    assert(inner =~= e);
    assert(inner.subrange(0, inner.len() as int) =~= e);
    lemma_unescape_escape(inner, 0, s);
}

/// From a place on, a decimal number holds only digits and points.
proof fn lemma_decimal_chars(s: Seq<char>, i: int, dot: bool, digit: bool)
    requires
        0 <= i,
        decimal_tail(s, i, dot, digit),
    ensures
        forall|j: int| i <= j < s.len() ==> is_digit(#[trigger] s[j]) || s[j] == '.',
    decreases s.len() - i,
{
    if i < s.len() {
        if is_digit(s[i]) {
            lemma_decimal_chars(s, i + 1, dot, true);
        } else {
            lemma_decimal_chars(s, i + 1, true, digit);
        }
    }
}

/// The text of a decimal number that is no integer is read as a float with that text.
proof fn lemma_float_round_trip(s: Seq<char>)
    requires
        is_float_literal(s),
        int_literal(s) is None,
    ensures
        read_str_spec(s) == Ok::<Val, Val>(Val::Float(s)),
{
    let start: int = if s[0] == '-' {
        1
    } else {
        0
    };
    lemma_decimal_chars(s, start, false, false);
    assert forall|j: int| 0 <= j < s.len() implies !ends_bare(#[trigger] s[j]) by {
        if j >= start {
            assert(is_digit(s[j]) || s[j] == '.');
        }
    }
    assert(!is_special(s[0]));
    lemma_one_bare_token(s);
    lemma_read_as_atom(s);
    reveal_strlit("nil");
    reveal_strlit("false");
    reveal_strlit("true");
    assert("nil"@[0] == 'n');
    assert("false"@[0] == 'f');
    assert("true"@[0] == 't');
}

/// The text of a keyword whose name can stand in a bare token is read as that keyword.
proof fn lemma_keyword_round_trip(s: Seq<char>)
    requires
        bare_chars(s),
    ensures
        read_str_spec(seq![':'] + s) == Ok::<Val, Val>(Val::Kwd(s)),
{
    let t = seq![':'] + s;
    assert(t[0] == ':');
    assert forall|j: int| 0 <= j < t.len() implies !ends_bare(#[trigger] t[j]) by {
        if j > 0 {
            assert(t[j] == s[j - 1]);
        }
    }
    lemma_one_bare_token(t);
    lemma_read_as_atom(t);
    reveal_strlit("nil");
    reveal_strlit("false");
    reveal_strlit("true");
    assert("nil"@[0] == 'n');
    assert("false"@[0] == 'f');
    assert("true"@[0] == 't');
    assert(!is_digit(t[0]));
    assert(!all_digits(t));
    assert(int_literal(t) is None);
    assert(!is_float_literal(t));
    assert(t.skip(1) =~= s);
}

/// The text of a symbol that is a bare token and is read as nothing else is read as that symbol.
proof fn lemma_symbol_round_trip(s: Seq<char>)
    requires
        is_literal_atom(Val::Sym(s)),
    ensures
        read_str_spec(s) == Ok::<Val, Val>(Val::Sym(s)),
{
    lemma_one_bare_token(s);
    lemma_read_as_atom(s);
    assert(!ends_bare(s[0]));
}

/// Written readably and read again, a literal atom is the value that it
/// was. So the text that is printed for what was read is read and
/// printed as itself.
pub proof fn law_atoms_round_trip(v: Val, h: Heap, depth: nat)
    requires
        is_literal_atom(v),
    ensures
        read_str_spec(pr_str_spec(v, true, h, depth)) == Ok::<Val, Val>(v),
{
    match v {
        Val::Nil => {
            lemma_word_round_trip("nil"@);
        },
        Val::Bool(b) => {
            reveal_strlit("nil");
            reveal_strlit("false");
            reveal_strlit("true");
            assert("nil"@.len() == 3);
            assert("true"@.len() == 4);
            assert("false"@.len() == 5);
            if b {
                lemma_word_round_trip("true"@);
            } else {
                lemma_word_round_trip("false"@);
            }
        },
        Val::Int(i) => {
            lemma_int_round_trip(i);
        },
        Val::Str(s) => {
            lemma_string_round_trip(s);
        },
        Val::Float(s) => {
            lemma_float_round_trip(s);
        },
        Val::Kwd(s) => {
            lemma_keyword_round_trip(s);
        },
        Val::Sym(s) => {
            lemma_symbol_round_trip(s);
        },
        _ => {},
    }
}

/// Whether the token `t` is a reader macro: it stands before a form.
pub open spec fn is_reader_macro(t: Seq<char>) -> bool {
    t == "'"@ || t == "`"@ || t == "~"@ || t == "~@"@ || t == "@"@ || t == "^"@
}

/// Tokens that end where a form is expected are incomplete, and no
/// failure for good: where no token is left, and behind a reader macro
/// that is the last token, inside a bracket or out of it.
pub proof fn law_missing_operand_is_incomplete(tokens: Seq<Seq<char>>, pos: int)
    requires
        pos >= tokens.len() || (0 <= pos && pos == tokens.len() - 1 && is_reader_macro(
            tokens[pos],
        )),
    ensures
        read_form_spec(tokens, pos).0 == Err::<Val, Val>(Val::Str(missing_form())),
        is_incomplete(Val::Str(missing_form())),
{
    lemma_missing_form_is_incomplete();
    if pos < tokens.len() {
        reveal_strlit("'");
        reveal_strlit("`");
        reveal_strlit("~");
        reveal_strlit("~@");
        reveal_strlit("^");
        reveal_strlit("@");
        assert("~"@.len() == 1);
        assert("~@"@.len() == 2);
        assert("'"@[0] == '\'');
        assert("`"@[0] == '`');
        assert("~"@[0] == '~');
        assert("^"@[0] == '^');
        assert("@"@[0] == '@');
        assert(read_form_spec(tokens, pos + 1).0 == Err::<Val, Val>(Val::Str(missing_form())));
    }
}

/// A `^` whose metadata is read, but behind which the tokens end, is incomplete.
pub proof fn law_missing_value_is_incomplete(tokens: Seq<Seq<char>>, pos: int)
    requires
        0 <= pos < tokens.len(),
        tokens[pos] == "^"@,
        read_form_spec(tokens, pos + 1).0 is Ok,
        read_form_spec(tokens, pos + 1).1 == tokens.len(),
    ensures
        read_form_spec(tokens, pos).0 == Err::<Val, Val>(Val::Str(missing_form())),
        is_incomplete(Val::Str(missing_form())),
{
    lemma_missing_form_is_incomplete();
    reveal_strlit("'");
    reveal_strlit("`");
    reveal_strlit("~");
    reveal_strlit("~@");
    reveal_strlit("^");
    assert("~@"@.len() == 2);
    assert("^"@.len() == 1);
    assert("'"@[0] == '\'');
    assert("`"@[0] == '`');
    assert("~"@[0] == '~');
    assert("^"@[0] == '^');
    let m = read_form_spec(tokens, pos + 1);
    assert(ahead(tokens.len() as int, pos, m.1) == tokens.len());
    assert(read_form_spec(tokens, tokens.len() as int).0 == Err::<Val, Val>(
        Val::Str(missing_form()),
    ));
}

/// A stream that has gathered a reader macro and nothing behind it goes
/// on gathering: the token writes no form yet and does not fail for good.
pub proof fn law_stream_waits_behind_macro(t: Seq<char>)
    requires
        is_reader_macro(t),
    ensures
        parse_spec(seq![t]) is None,
{
    let tokens = seq![t];
    assert(tokens[0] == t);
    law_missing_operand_is_incomplete(tokens, 0);
}

} // verus!
