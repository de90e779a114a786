//! Evaluation keeps every key of a map once: where the form and the heap
//! hold no map in which a key occurs twice, neither do the value, what
//! is thrown, and the heap behind the evaluation.

use vstd::prelude::*;
use crate::env::{
    atom_new_spec, atom_set_spec, bind_pairs, env_bind_spec, env_get_spec, env_new_spec,
    env_set_spec, env_sets_spec, table_of, Heap, Scope,
};
use crate::keys::{
    all_well_keyed, entries_well_keyed, law_natives_keep_keys, lemma_add_well_keyed,
    lemma_hash_well_keyed, lemma_list2_well_keyed, lemma_list3_well_keyed, lemma_nil_meta,
    lemma_part_well_keyed, lemma_parts_well_keyed, ret_well_keyed, well_keyed,
};
use crate::semantics::{
    apply_spec, as_macro, atom_of, call_spec, def_spec, defmacro_spec,
    do_prefix_spec, do_spec, eval_entries_spec, eval_items_spec, eval_spec, form_spec, if_spec,
    is_call_of, is_catch, let_binds_spec, let_spec, map_spec, native_spec, qq_iter_spec,
    quasiquote_spec, step_spec, swap_spec, try_spec, Step,
};
use crate::builtins::{is_pure, min_args};
use crate::env::empty_heap;
use crate::keys::law_read_str_keeps_keys;
use crate::reader::read_str_spec;
use crate::repl::{bind_all, func_val, mal_env_spec, ns_spec, re_spec, ROOT};
use crate::semantics::EVAL_LIMIT;
use crate::types::{seq_of, Builtin, Closure, Val};

verus! {

/// Whether every value that is bound in the scope `s` is well keyed.
pub open spec fn scope_well_keyed(s: Scope) -> bool {
    forall|k: Seq<char>| s.data.contains_key(k) ==> well_keyed(#[trigger] s.data[k])
}

/// Whether every value that a scope binds or an atom holds is well keyed.
pub open spec fn heap_well_keyed(h: Heap) -> bool {
    &&& forall|i: int| 0 <= i < h.envs.len() ==> scope_well_keyed(#[trigger] h.envs[i])
    &&& all_well_keyed(h.atoms)
}

/// Whether the outcome of a step is well keyed: the result, or the form to go on with.
pub open spec fn step_well_keyed(s: Step) -> bool {
    match s {
        Step::Done(r) => ret_well_keyed(r),
        Step::Tail(a, _) => well_keyed(a),
    }
}

/// Well keyed items from a place on are well keyed items.
proof fn lemma_skip_well_keyed(a: Seq<Val>, n: int)
    requires
        all_well_keyed(a),
        0 <= n <= a.len(),
    ensures
        all_well_keyed(a.skip(n)),
{
    lemma_part_well_keyed(a, n, a.len() as int);
    assert(a.skip(n) =~= a.subrange(n, a.len() as int));
}

/// One more well keyed item behind well keyed items.
proof fn lemma_push_well_keyed(a: Seq<Val>, v: Val)
    requires
        all_well_keyed(a),
        well_keyed(v),
    ensures
        all_well_keyed(a.push(v)),
{
    assert forall|i: int| 0 <= i < a.push(v).len() implies well_keyed(#[trigger] a.push(v)[i]) by {
        if i < a.len() {
            assert(a.push(v)[i] == a[i]);
        }
    }
}

/// What is looked up in a well keyed heap is well keyed.
proof fn lemma_get_well_keyed(h: Heap, env: usize, key: Seq<char>)
    requires
        heap_well_keyed(h),
    ensures
        env_get_spec(h, env, key) is Some ==> well_keyed(env_get_spec(h, env, key)->0),
    decreases env,
{
    if env < h.envs.len() {
        assert(scope_well_keyed(h.envs[env as int]));
        if !h.envs[env as int].data.contains_key(key) {
            match h.envs[env as int].outer {
                Some(o) => {
                    if o < env {
                        lemma_get_well_keyed(h, o, key);
                    }
                },
                None => {},
            }
        }
    }
}

/// Binding a well keyed value keeps the heap well keyed.
proof fn lemma_sets_well_keyed(h: Heap, env: usize, key: Seq<char>, v: Val)
    requires
        heap_well_keyed(h),
        well_keyed(v),
    ensures
        heap_well_keyed(env_sets_spec(h, env, key, v)),
{
    let h2 = env_sets_spec(h, env, key, v);
    if env < h.envs.len() {
        assert forall|i: int| 0 <= i < h2.envs.len() implies scope_well_keyed(
            #[trigger] h2.envs[i],
        ) by {
            assert(scope_well_keyed(h.envs[i]));
            if i == env {
                assert forall|k: Seq<char>| h2.envs[i].data.contains_key(k) implies well_keyed(
                    #[trigger] h2.envs[i].data[k],
                ) by {
                    if k != key {
                        assert(h.envs[i].data.contains_key(k));
                    }
                }
            }
        }
    }
}

/// Binding a symbol to a well keyed value keeps the heap well keyed and gives a well keyed result.
proof fn lemma_set_well_keyed(h: Heap, env: usize, key: Val, v: Val)
    requires
        heap_well_keyed(h),
        well_keyed(v),
    ensures
        ret_well_keyed(env_set_spec(h, env, key, v).0),
        heap_well_keyed(env_set_spec(h, env, key, v).1),
{
    match key {
        Val::Sym(s) => {
            lemma_sets_well_keyed(h, env, s, v);
        },
        _ => {},
    }
}

/// A new, empty scope keeps the heap well keyed.
proof fn lemma_new_well_keyed(h: Heap, outer: Option<usize>)
    requires
        heap_well_keyed(h),
    ensures
        heap_well_keyed(env_new_spec(h, outer).0),
{
    let h2 = env_new_spec(h, outer).0;
    assert forall|i: int| 0 <= i < h2.envs.len() implies scope_well_keyed(#[trigger] h2.envs[i]) by {
        if i < h.envs.len() {
            assert(h2.envs[i] == h.envs[i]);
        }
    }
}

/// The bindings that parameters take from well keyed arguments are well keyed.
proof fn lemma_bind_pairs_well_keyed(binds: Seq<Val>, exprs: Seq<Val>, i: int)
    requires
        all_well_keyed(exprs),
    ensures
        match bind_pairs(binds, exprs, i) {
            Ok(pairs) => forall|j: int| 0 <= j < pairs.len() ==> well_keyed((#[trigger] pairs[j]).1),
            Err(e) => well_keyed(e),
        },
    decreases binds.len() - i,
{
    if 0 <= i < binds.len() {
        if binds[i] == Val::Sym("&"@) {
            if i + 1 < binds.len() && i <= exprs.len() {
                lemma_skip_well_keyed(exprs, i);
                lemma_nil_meta(exprs.skip(i));
            }
        } else if i < exprs.len() {
            match binds[i] {
                Val::Sym(s) => {
                    lemma_bind_pairs_well_keyed(binds, exprs, i + 1);
                    match bind_pairs(binds, exprs, i + 1) {
                        Ok(rest) => {
                            let all = seq![(s, exprs[i])] + rest;
                            assert forall|j: int| 0 <= j < all.len() implies well_keyed(
                                (#[trigger] all[j]).1,
                            ) by {
                                if j == 0 {
                                    assert(all[j].1 == exprs[i]);
                                } else {
                                    assert(all[j] == rest[j - 1]);
                                }
                            }
                        },
                        Err(_) => {},
                    }
                },
                _ => {},
            }
        }
    }
}

/// The table of well keyed bindings binds well keyed values.
proof fn lemma_table_well_keyed(pairs: Seq<(Seq<char>, Val)>)
    requires
        forall|j: int| 0 <= j < pairs.len() ==> well_keyed((#[trigger] pairs[j]).1),
    ensures
        forall|k: Seq<char>|
            table_of(pairs).contains_key(k) ==> well_keyed(#[trigger] table_of(pairs)[k]),
    decreases pairs.len(),
{
    if pairs.len() > 0 {
        let before = pairs.drop_last();
        assert forall|j: int| 0 <= j < before.len() implies well_keyed((#[trigger] before[j]).1) by {
            assert(before[j] == pairs[j]);
        }
        lemma_table_well_keyed(before);
        assert(well_keyed(pairs.last().1));
        let t = table_of(pairs);
        assert(t == table_of(before).insert(pairs.last().0, pairs.last().1));
        assert forall|k: Seq<char>| t.contains_key(k) implies well_keyed(#[trigger] t[k]) by {
            if k != pairs.last().0 {
                assert(table_of(before).contains_key(k));
                assert(t[k] == table_of(before)[k]);
            }
        }
    }
}

/// Binding parameters to well keyed arguments keeps the heap well keyed.
proof fn lemma_bind_well_keyed(h: Heap, outer: usize, mbinds: Val, exprs: Seq<Val>)
    requires
        heap_well_keyed(h),
        all_well_keyed(exprs),
    ensures
        env_bind_spec(h, outer, mbinds, exprs).0 is Err ==> well_keyed(
            env_bind_spec(h, outer, mbinds, exprs).0->Err_0,
        ),
        heap_well_keyed(env_bind_spec(h, outer, mbinds, exprs).1),
{
    match seq_of(mbinds) {
        Some(b) => {
            lemma_bind_pairs_well_keyed(b, exprs, 0);
            match bind_pairs(b, exprs, 0) {
                Ok(pairs) => {
                    lemma_table_well_keyed(pairs);
                    let h2 = env_bind_spec(h, outer, mbinds, exprs).1;
                    assert forall|i: int| 0 <= i < h2.envs.len() implies scope_well_keyed(
                        #[trigger] h2.envs[i],
                    ) by {
                        if i < h.envs.len() {
                            assert(h2.envs[i] == h.envs[i]);
                        }
                    }
                },
                Err(_) => {},
            }
        },
        None => {},
    }
}

/// A new atom that holds a well keyed value keeps the heap well keyed.
proof fn lemma_atom_new_well_keyed(h: Heap, v: Val)
    requires
        heap_well_keyed(h),
        well_keyed(v),
    ensures
        heap_well_keyed(atom_new_spec(h, v)),
{
    lemma_push_well_keyed(h.atoms, v);
}

/// Setting an atom to a well keyed value keeps the heap well keyed.
proof fn lemma_atom_set_well_keyed(h: Heap, a: usize, v: Val)
    requires
        heap_well_keyed(h),
        well_keyed(v),
    ensures
        heap_well_keyed(atom_set_spec(h, a, v)),
{
    let h2 = atom_set_spec(h, a, v);
    assert forall|i: int| 0 <= i < h2.atoms.len() implies well_keyed(#[trigger] h2.atoms[i]) by {
        if a < h.atoms.len() && i != a {
            assert(h2.atoms[i] == h.atoms[i]);
        }
    }
}

/// The form that builds a well keyed form again is well keyed.
pub proof fn lemma_quasiquote_well_keyed(ast: Val)
    requires
        well_keyed(ast),
    ensures
        well_keyed(quasiquote_spec(ast)),
    decreases ast, 0nat,
{
    lemma_parts_well_keyed(ast);
    match ast {
        Val::List(v, _) => {
            if is_call_of(ast, "unquote"@) {
                assert(well_keyed(v[1]));
            } else {
                lemma_qq_iter_well_keyed(v, 0);
            }
        },
        Val::Vector(v, _) => {
            lemma_qq_iter_well_keyed(v, 0);
            lemma_list2_well_keyed(Val::Sym("vec"@), qq_iter_spec(v, 0));
        },
        Val::Hash(_, _) => {
            lemma_list2_well_keyed(Val::Sym("quote"@), ast);
        },
        Val::Sym(_) => {
            lemma_list2_well_keyed(Val::Sym("quote"@), ast);
        },
        _ => {},
    }
}

/// The form that builds the list of well keyed items is well keyed.
pub proof fn lemma_qq_iter_well_keyed(elts: Seq<Val>, i: int)
    requires
        all_well_keyed(elts),
    ensures
        well_keyed(qq_iter_spec(elts, i)),
    decreases elts, elts.len() - i,
{
    if 0 <= i < elts.len() {
        lemma_qq_iter_well_keyed(elts, i + 1);
        let acc = qq_iter_spec(elts, i + 1);
        assert(well_keyed(elts[i]));
        if is_call_of(elts[i], "splice-unquote"@) {
            lemma_parts_well_keyed(elts[i]);
            assert(well_keyed(elts[i]->List_0[1]));
            lemma_list3_well_keyed(Val::Sym("concat"@), elts[i]->List_0[1], acc);
        } else {
            lemma_quasiquote_well_keyed(elts[i]);
            lemma_list3_well_keyed(Val::Sym("cons"@), quasiquote_spec(elts[i]), acc);
        }
    } else {
        lemma_nil_meta(Seq::empty());
    }
}

/// Evaluation keeps every key of a map once: the value of a well keyed
/// form on a well keyed heap is well keyed, and so are what it throws
/// and the heap that it leaves.
pub proof fn law_eval_keeps_keys(ast: Val, env: usize, h: Heap, fuel: nat)
    requires
        well_keyed(ast),
        heap_well_keyed(h),
    ensures
        ret_well_keyed(eval_spec(ast, env, h, fuel).0),
        heap_well_keyed(eval_spec(ast, env, h, fuel).1),
    decreases fuel, 0nat, 0nat,
{
    if fuel > 0 {
        let f = (fuel - 1) as nat;
        lemma_step_well_keyed(ast, env, h, f);
        let s = step_spec(ast, env, h, f);
        match s.0 {
            Step::Done(_) => {},
            Step::Tail(ast2, env2) => {
                law_eval_keeps_keys(ast2, env2, s.1, f);
            },
        }
    }
}

proof fn lemma_step_well_keyed(ast: Val, env: usize, h: Heap, fuel: nat)
    requires
        well_keyed(ast),
        heap_well_keyed(h),
    ensures
        step_well_keyed(step_spec(ast, env, h, fuel).0),
        heap_well_keyed(step_spec(ast, env, h, fuel).1),
    decreases fuel, 6nat, 0nat,
{
    lemma_parts_well_keyed(ast);
    match ast {
        Val::Sym(s) => {
            lemma_get_well_keyed(h, env, s);
        },
        Val::Vector(v, _) => {
            lemma_items_well_keyed(v, 0, env, h, fuel, Seq::empty());
            match eval_items_spec(v, 0, env, h, fuel, Seq::empty()).0 {
                Ok(items) => {
                    lemma_nil_meta(items);
                },
                Err(_) => {},
            }
        },
        Val::Hash(m, _) => {
            lemma_entries_well_keyed(m, 0, env, h, fuel, Seq::empty());
            match eval_entries_spec(m, 0, env, h, fuel, Seq::empty()).0 {
                Ok(items) => {
                    assert(items.len() == m.len());
                    assert forall|i: int, j: int| 0 <= i < j < items.len() implies (
                    #[trigger] items[i]).0 != (#[trigger] items[j]).0 by {
                        assert(items[i].0 == m[i].0);
                        assert(items[j].0 == m[j].0);
                    }
                    lemma_hash_well_keyed(items);
                },
                Err(_) => {},
            }
        },
        Val::List(l, _) => {
            if l.len() > 0 {
                lemma_form_well_keyed(l, env, h, fuel);
            }
        },
        _ => {},
    }
}

proof fn lemma_items_well_keyed(
    items: Seq<Val>,
    i: int,
    env: usize,
    h: Heap,
    fuel: nat,
    acc: Seq<Val>,
)
    requires
        all_well_keyed(items),
        all_well_keyed(acc),
        heap_well_keyed(h),
    ensures
        match eval_items_spec(items, i, env, h, fuel, acc).0 {
            Ok(vs) => all_well_keyed(vs),
            Err(e) => well_keyed(e),
        },
        heap_well_keyed(eval_items_spec(items, i, env, h, fuel, acc).1),
    decreases fuel, 1nat, items.len() - i,
{
    if 0 <= i < items.len() {
        assert(well_keyed(items[i]));
        law_eval_keeps_keys(items[i], env, h, fuel);
        let r = eval_spec(items[i], env, h, fuel);
        match r.0 {
            Ok(v) => {
                lemma_push_well_keyed(acc, v);
                lemma_items_well_keyed(items, i + 1, env, r.1, fuel, acc.push(v));
            },
            Err(_) => {},
        }
    }
}

proof fn lemma_entries_well_keyed(
    m: Seq<(Seq<char>, Val)>,
    i: int,
    env: usize,
    h: Heap,
    fuel: nat,
    acc: Seq<(Seq<char>, Val)>,
)
    requires
        entries_well_keyed(m),
        0 <= i,
        acc.len() == (if i <= m.len() {
            i
        } else {
            m.len() as int
        }),
        forall|j: int| 0 <= j < acc.len() ==> (#[trigger] acc[j]).0 == m[j].0 && well_keyed(acc[j].1),
        heap_well_keyed(h),
    ensures
        match eval_entries_spec(m, i, env, h, fuel, acc).0 {
            Ok(vs) => vs.len() == m.len() && forall|j: int|
                0 <= j < vs.len() ==> (#[trigger] vs[j]).0 == m[j].0 && well_keyed(vs[j].1),
            Err(e) => well_keyed(e),
        },
        heap_well_keyed(eval_entries_spec(m, i, env, h, fuel, acc).1),
    decreases fuel, 1nat, m.len() - i,
{
    if i < m.len() {
        assert(well_keyed(m[i].1));
        law_eval_keeps_keys(m[i].1, env, h, fuel);
        let r = eval_spec(m[i].1, env, h, fuel);
        match r.0 {
            Ok(v) => {
                let more = acc.push((m[i].0, v));
                assert forall|j: int| 0 <= j < more.len() implies (#[trigger] more[j]).0 == m[j].0
                    && well_keyed(more[j].1) by {
                    if j < acc.len() {
                        assert(more[j] == acc[j]);
                    }
                }
                lemma_entries_well_keyed(m, i + 1, env, r.1, fuel, more);
            },
            Err(_) => {},
        }
    }
}

proof fn lemma_form_well_keyed(l: Seq<Val>, env: usize, h: Heap, fuel: nat)
    requires
        l.len() > 0,
        all_well_keyed(l),
        heap_well_keyed(h),
    ensures
        step_well_keyed(form_spec(l, env, h, fuel).0),
        heap_well_keyed(form_spec(l, env, h, fuel).1),
    decreases fuel, 5nat, 0nat,
{
    let head = l[0];
    if head == Val::Sym("def!"@) {
        lemma_def_well_keyed(l, env, h, fuel);
    } else if head == Val::Sym("let*"@) {
        lemma_let_well_keyed(l, env, h, fuel);
    } else if head == Val::Sym("quote"@) {
        if l.len() >= 2 {
            assert(well_keyed(l[1]));
        }
    } else if head == Val::Sym("quasiquote"@) {
        if l.len() >= 2 {
            assert(well_keyed(l[1]));
            lemma_quasiquote_well_keyed(l[1]);
        }
    } else if head == Val::Sym("defmacro!"@) {
        lemma_defmacro_well_keyed(l, env, h, fuel);
    } else if head == Val::Sym("try*"@) {
        lemma_try_well_keyed(l, env, h, fuel);
    } else if head == Val::Sym("do"@) {
        lemma_do_well_keyed(l, env, h, fuel);
    } else if head == Val::Sym("if"@) {
        lemma_if_well_keyed(l, env, h, fuel);
    } else if head == Val::Sym("fn*"@) {
        if l.len() >= 3 {
            assert(well_keyed(l[1]));
            assert(well_keyed(l[2]));
            assert(well_keyed(Val::Nil));
            let c = Closure {
                ast: Box::new(l[2]),
                env,
                params: Box::new(l[1]),
                is_macro: false,
                meta: Box::new(Val::Nil),
            };
            assert(well_keyed(Val::MalFunc(c)));
        }
    } else {
        lemma_call_well_keyed(l, env, h, fuel);
    }
}

proof fn lemma_def_well_keyed(l: Seq<Val>, env: usize, h: Heap, fuel: nat)
    requires
        all_well_keyed(l),
        heap_well_keyed(h),
    ensures
        step_well_keyed(def_spec(l, env, h, fuel).0),
        heap_well_keyed(def_spec(l, env, h, fuel).1),
    decreases fuel, 4nat, 0nat,
{
    if l.len() >= 3 {
        assert(well_keyed(l[2]));
        law_eval_keeps_keys(l[2], env, h, fuel);
        let r = eval_spec(l[2], env, h, fuel);
        match r.0 {
            Ok(v) => {
                lemma_set_well_keyed(r.1, env, l[1], v);
            },
            Err(_) => {},
        }
    }
}

proof fn lemma_let_binds_well_keyed(binds: Seq<Val>, i: int, env: usize, h: Heap, fuel: nat)
    requires
        all_well_keyed(binds),
        heap_well_keyed(h),
    ensures
        ret_well_keyed(let_binds_spec(binds, i, env, h, fuel).0),
        heap_well_keyed(let_binds_spec(binds, i, env, h, fuel).1),
    decreases fuel, 1nat, binds.len() - i,
{
    if 0 <= i && i + 1 < binds.len() {
        assert(well_keyed(binds[i + 1]));
        law_eval_keeps_keys(binds[i + 1], env, h, fuel);
        let r = eval_spec(binds[i + 1], env, h, fuel);
        match r.0 {
            Ok(v) => {
                lemma_set_well_keyed(r.1, env, binds[i], v);
                let s = env_set_spec(r.1, env, binds[i], v);
                match s.0 {
                    Ok(_) => {
                        lemma_let_binds_well_keyed(binds, i + 2, env, s.1, fuel);
                    },
                    Err(_) => {},
                }
            },
            Err(_) => {},
        }
    }
}

proof fn lemma_let_well_keyed(l: Seq<Val>, env: usize, h: Heap, fuel: nat)
    requires
        all_well_keyed(l),
        heap_well_keyed(h),
    ensures
        step_well_keyed(let_spec(l, env, h, fuel).0),
        heap_well_keyed(let_spec(l, env, h, fuel).1),
    decreases fuel, 4nat, 0nat,
{
    if l.len() >= 3 {
        assert(well_keyed(l[1]));
        assert(well_keyed(l[2]));
        lemma_parts_well_keyed(l[1]);
        match seq_of(l[1]) {
            Some(binds) => {
                lemma_new_well_keyed(h, Some(env));
                let n = env_new_spec(h, Some(env));
                lemma_let_binds_well_keyed(binds, 0, n.1, n.0, fuel);
            },
            None => {},
        }
    }
}

proof fn lemma_defmacro_well_keyed(l: Seq<Val>, env: usize, h: Heap, fuel: nat)
    requires
        all_well_keyed(l),
        heap_well_keyed(h),
    ensures
        step_well_keyed(defmacro_spec(l, env, h, fuel).0),
        heap_well_keyed(defmacro_spec(l, env, h, fuel).1),
    decreases fuel, 4nat, 0nat,
{
    if l.len() >= 3 {
        assert(well_keyed(l[2]));
        law_eval_keeps_keys(l[2], env, h, fuel);
        let r = eval_spec(l[2], env, h, fuel);
        match r.0 {
            Ok(Val::MalFunc(f)) => {
                assert(well_keyed(as_macro(f)));
                lemma_set_well_keyed(r.1, env, l[1], as_macro(f));
            },
            _ => {},
        }
    }
}

proof fn lemma_try_well_keyed(l: Seq<Val>, env: usize, h: Heap, fuel: nat)
    requires
        all_well_keyed(l),
        heap_well_keyed(h),
    ensures
        step_well_keyed(try_spec(l, env, h, fuel).0),
        heap_well_keyed(try_spec(l, env, h, fuel).1),
    decreases fuel, 4nat, 0nat,
{
    if l.len() >= 2 {
        assert(well_keyed(l[1]));
        if l.len() >= 3 {
            law_eval_keeps_keys(l[1], env, h, fuel);
            let r = eval_spec(l[1], env, h, fuel);
            match r.0 {
                Ok(_) => {},
                Err(exc) => {
                    if is_catch(l[2]) {
                        assert(well_keyed(l[2]));
                        lemma_parts_well_keyed(l[2]);
                        let c = l[2]->List_0;
                        assert(well_keyed(c[2]));
                        lemma_new_well_keyed(r.1, Some(env));
                        let n = env_new_spec(r.1, Some(env));
                        lemma_sets_well_keyed(n.0, n.1, c[1]->Sym_0, exc);
                    }
                },
            }
        }
    }
}

proof fn lemma_do_prefix_well_keyed(l: Seq<Val>, i: int, env: usize, h: Heap, fuel: nat)
    requires
        all_well_keyed(l),
        heap_well_keyed(h),
    ensures
        ret_well_keyed(do_prefix_spec(l, i, env, h, fuel).0),
        heap_well_keyed(do_prefix_spec(l, i, env, h, fuel).1),
    decreases fuel, 1nat, l.len() - i,
{
    if 0 <= i && i + 1 < l.len() {
        assert(well_keyed(l[i]));
        law_eval_keeps_keys(l[i], env, h, fuel);
        let r = eval_spec(l[i], env, h, fuel);
        match r.0 {
            Ok(_) => {
                lemma_do_prefix_well_keyed(l, i + 1, env, r.1, fuel);
            },
            Err(_) => {},
        }
    }
}

proof fn lemma_do_well_keyed(l: Seq<Val>, env: usize, h: Heap, fuel: nat)
    requires
        all_well_keyed(l),
        heap_well_keyed(h),
    ensures
        step_well_keyed(do_spec(l, env, h, fuel).0),
        heap_well_keyed(do_spec(l, env, h, fuel).1),
    decreases fuel, 4nat, 0nat,
{
    if l.len() >= 2 {
        lemma_do_prefix_well_keyed(l, 1, env, h, fuel);
        assert(well_keyed(l[l.len() - 1]));
    }
}

proof fn lemma_if_well_keyed(l: Seq<Val>, env: usize, h: Heap, fuel: nat)
    requires
        all_well_keyed(l),
        heap_well_keyed(h),
    ensures
        step_well_keyed(if_spec(l, env, h, fuel).0),
        heap_well_keyed(if_spec(l, env, h, fuel).1),
    decreases fuel, 4nat, 0nat,
{
    if l.len() >= 2 {
        assert(well_keyed(l[1]));
        law_eval_keeps_keys(l[1], env, h, fuel);
        if l.len() >= 3 {
            assert(well_keyed(l[2]));
        }
        if l.len() >= 4 {
            assert(well_keyed(l[3]));
        }
    }
}

proof fn lemma_call_well_keyed(l: Seq<Val>, env: usize, h: Heap, fuel: nat)
    requires
        l.len() > 0,
        all_well_keyed(l),
        heap_well_keyed(h),
    ensures
        step_well_keyed(call_spec(l, env, h, fuel).0),
        heap_well_keyed(call_spec(l, env, h, fuel).1),
    decreases fuel, 4nat, 0nat,
{
    assert(well_keyed(l[0]));
    law_eval_keeps_keys(l[0], env, h, fuel);
    let f = eval_spec(l[0], env, h, fuel);
    match f.0 {
        Ok(Val::MalFunc(c)) => {
            assert(well_keyed(Val::MalFunc(c)));
            if c.is_macro {
                lemma_skip_well_keyed(l, 1);
                lemma_apply_well_keyed(Val::MalFunc(c), l.skip(1), f.1, fuel);
            } else {
                lemma_items_well_keyed(l, 1, env, f.1, fuel, Seq::empty());
                let a = eval_items_spec(l, 1, env, f.1, fuel, Seq::empty());
                match a.0 {
                    Ok(args) => {
                        lemma_bind_well_keyed(a.1, c.env, *c.params, args);
                    },
                    Err(_) => {},
                }
            }
        },
        Ok(Val::Func(b, _)) => {
            lemma_items_well_keyed(l, 1, env, f.1, fuel, Seq::empty());
            let a = eval_items_spec(l, 1, env, f.1, fuel, Seq::empty());
            match a.0 {
                Ok(args) => {
                    law_native_keeps_keys(b, args, a.1, fuel);
                },
                Err(_) => {},
            }
        },
        _ => {},
    }
}

proof fn lemma_apply_well_keyed(f: Val, args: Seq<Val>, h: Heap, fuel: nat)
    requires
        well_keyed(f),
        all_well_keyed(args),
        heap_well_keyed(h),
    ensures
        ret_well_keyed(apply_spec(f, args, h, fuel).0),
        heap_well_keyed(apply_spec(f, args, h, fuel).1),
    decreases fuel, 3nat, 0nat,
{
    match f {
        Val::Func(b, _) => {
            law_native_keeps_keys(b, args, h, fuel);
        },
        Val::MalFunc(c) => {
            lemma_bind_well_keyed(h, c.env, *c.params, args);
            let b = env_bind_spec(h, c.env, *c.params, args);
            match b.0 {
                Ok(env2) => {
                    law_eval_keeps_keys(*c.ast, env2, b.1, fuel);
                },
                Err(_) => {},
            }
        },
        _ => {},
    }
}

/// Every native function keeps every key of a map once: what it gives
/// for well keyed arguments on a well keyed heap is well keyed, and so
/// is the heap that it leaves.
pub proof fn law_native_keeps_keys(b: Builtin, a: Seq<Val>, h: Heap, fuel: nat)
    requires
        all_well_keyed(a),
        heap_well_keyed(h),
    ensures
        ret_well_keyed(native_spec(b, a, h, fuel).0),
        heap_well_keyed(native_spec(b, a, h, fuel).1),
    decreases fuel, 2nat, 0nat,
{
    if is_pure(b) {
        law_natives_keep_keys(b, a);
    } else if a.len() < min_args(b) {
    } else {
        match b {
            Builtin::PrStr => {},
            Builtin::ToStr => {},
            Builtin::MakeAtom => {
                assert(well_keyed(a[0]));
                lemma_atom_new_well_keyed(h, a[0]);
            },
            Builtin::Deref => {
                match atom_of(a[0], h) {
                    Some(i) => {
                        assert(well_keyed(h.atoms[i as int]));
                    },
                    None => {},
                }
            },
            Builtin::Reset => {
                match atom_of(a[0], h) {
                    Some(i) => {
                        if a.len() >= 2 {
                            assert(well_keyed(a[1]));
                            lemma_atom_set_well_keyed(h, i, a[1]);
                        }
                    },
                    None => {},
                }
            },
            Builtin::Swap => {
                lemma_swap_well_keyed(a, h, fuel);
            },
            Builtin::Apply => {
                assert(well_keyed(a[a.len() - 1]));
                lemma_parts_well_keyed(a[a.len() - 1]);
                match seq_of(a[a.len() - 1]) {
                    Some(v) => {
                        if a.len() >= 2 && fuel > 0 {
                            assert(well_keyed(a[0]));
                            lemma_part_well_keyed(a, 1, a.len() - 1);
                            lemma_add_well_keyed(a.subrange(1, a.len() - 1), v);
                            lemma_apply_well_keyed(
                                a[0],
                                a.subrange(1, a.len() - 1) + v,
                                h,
                                (fuel - 1) as nat,
                            );
                        }
                    },
                    None => {},
                }
            },
            Builtin::MapOver => {
                assert(well_keyed(a[1]));
                lemma_parts_well_keyed(a[1]);
                match seq_of(a[1]) {
                    Some(v) => {
                        if fuel > 0 {
                            assert(well_keyed(a[0]));
                            lemma_map_well_keyed(a[0], v, 0, h, (fuel - 1) as nat, Seq::empty());
                        }
                    },
                    None => {},
                }
            },
            _ => {
                if fuel > 0 {
                    assert(well_keyed(a[0]));
                    law_eval_keeps_keys(a[0], 0, h, (fuel - 1) as nat);
                }
            },
        }
    }
}

proof fn lemma_swap_well_keyed(a: Seq<Val>, h: Heap, fuel: nat)
    requires
        all_well_keyed(a),
        heap_well_keyed(h),
    ensures
        ret_well_keyed(swap_spec(a, h, fuel).0),
        heap_well_keyed(swap_spec(a, h, fuel).1),
    decreases fuel, 1nat, 0nat,
{
    if a.len() >= 1 {
        match atom_of(a[0], h) {
            Some(i) => {
                if a.len() >= 2 && fuel > 0 {
                    assert(well_keyed(a[1]));
                    let one = seq![h.atoms[i as int]];
                    assert(all_well_keyed(one)) by {
                        assert forall|j: int| 0 <= j < one.len() implies well_keyed(
                            #[trigger] one[j],
                        ) by {
                            assert(one[j] == h.atoms[i as int]);
                        }
                    }
                    lemma_skip_well_keyed(a, 2);
                    lemma_add_well_keyed(one, a.skip(2));
                    lemma_apply_well_keyed(a[1], one + a.skip(2), h, (fuel - 1) as nat);
                    let r = apply_spec(a[1], one + a.skip(2), h, (fuel - 1) as nat);
                    match r.0 {
                        Ok(v) => {
                            lemma_atom_set_well_keyed(r.1, i, v);
                        },
                        Err(_) => {},
                    }
                }
            },
            None => {},
        }
    }
}

proof fn lemma_map_well_keyed(
    f: Val,
    items: Seq<Val>,
    i: int,
    h: Heap,
    fuel: nat,
    acc: Seq<Val>,
)
    requires
        well_keyed(f),
        all_well_keyed(items),
        all_well_keyed(acc),
        heap_well_keyed(h),
    ensures
        ret_well_keyed(map_spec(f, items, i, h, fuel, acc).0),
        heap_well_keyed(map_spec(f, items, i, h, fuel, acc).1),
    decreases fuel, 4nat, items.len() - i,
{
    if 0 <= i < items.len() {
        let one = seq![items[i]];
        assert(all_well_keyed(one)) by {
            assert forall|j: int| 0 <= j < one.len() implies well_keyed(#[trigger] one[j]) by {
                assert(one[j] == items[i]);
            }
        }
        lemma_apply_well_keyed(f, one, h, fuel);
        let r = apply_spec(f, one, h, fuel);
        match r.0 {
            Ok(v) => {
                lemma_push_well_keyed(acc, v);
                lemma_map_well_keyed(f, items, i + 1, r.1, fuel, acc.push(v));
            },
            Err(_) => {},
        }
    } else {
        lemma_nil_meta(acc);
    }
}

/// Binding well keyed values one after the other keeps the heap well keyed.
proof fn lemma_bind_all_well_keyed(h: Heap, env: usize, pairs: Seq<(Seq<char>, Val)>, n: nat)
    requires
        heap_well_keyed(h),
        forall|j: int| 0 <= j < pairs.len() ==> well_keyed((#[trigger] pairs[j]).1),
    ensures
        heap_well_keyed(bind_all(h, env, pairs, n)),
    decreases n,
{
    if n > 0 && n <= pairs.len() {
        lemma_bind_all_well_keyed(h, env, pairs, (n - 1) as nat);
        assert(well_keyed(pairs[n - 1].1));
        lemma_sets_well_keyed(
            bind_all(h, env, pairs, (n - 1) as nat),
            env,
            pairs[n - 1].0,
            pairs[n - 1].1,
        );
    }
}

/// A new interpreter holds no map in which a key occurs twice.
pub proof fn law_new_interpreter_is_well_keyed()
    ensures
        heap_well_keyed(mal_env_spec()),
{
    let h0 = env_new_spec(empty_heap(), None).0;
    lemma_new_well_keyed(empty_heap(), None);
    assert(well_keyed(Val::Nil));
    assert(well_keyed(func_val(Builtin::Eval)));
    lemma_sets_well_keyed(h0, ROOT, "eval"@, func_val(Builtin::Eval));
    let pairs = ns_spec();
    assert forall|j: int| 0 <= j < pairs.len() implies well_keyed((#[trigger] pairs[j]).1) by {
        assert(pairs[j].1 is Func && pairs[j].1->Func_1 == Box::new(Val::Nil));
    }
    lemma_bind_all_well_keyed(
        env_sets_spec(h0, ROOT, "eval"@, func_val(Builtin::Eval)),
        ROOT,
        pairs,
        pairs.len(),
    );
}

/// Reading a text and evaluating its form keeps the heap well keyed.
pub proof fn law_re_keeps_keys(text: Seq<char>, env: usize, h: Heap)
    requires
        heap_well_keyed(h),
    ensures
        heap_well_keyed(re_spec(text, env, h).1),
        ret_well_keyed(rep_value_spec(text, env, h)),
{
    law_read_str_keeps_keys(text);
    match read_str_spec(text) {
        Ok(ast) => {
            law_eval_keeps_keys(ast, env, h, EVAL_LIMIT as nat);
        },
        Err(_) => {},
    }
}

/// The value of the first form of a text, or what reading or evaluating it throws.
pub open spec fn rep_value_spec(text: Seq<char>, env: usize, h: Heap) -> Result<Val, Val> {
    match read_str_spec(text) {
        Ok(ast) => eval_spec(ast, env, h, EVAL_LIMIT as nat).0,
        Err(e) => Err(e),
    }
}

} // verus!
