//! Scopes and atoms, kept in a store and named by handle.

use vstd::prelude::*;
use std::hash::BuildHasherDefault;
use fnv::{FnvHashMap, FnvHasher};
use crate::text::text_eq;
use crate::types::{
    copy_range, entries, error, lemma_vals_subrange, list, list_val, ret_val, seq_of, vals, Env,
    MalRet, MalVal, Val,
};

verus! {

/// `fnv::FnvHasher`, the hasher of a table of names. Nothing is claimed
/// of it; it is declared so that the table's type can be written.
#[verifier::external_type_specification]
#[verifier::external_body]
pub struct ExFnvHasher(FnvHasher);

/// `std::hash::BuildHasherDefault`, which makes a table's hashers.
/// Nothing is claimed of it; it is declared so that the table's type can
/// be written.
#[verifier::external_type_specification]
#[verifier::external_body]
#[verifier::reject_recursive_types(H)]
pub struct ExBuildHasherDefault<H>(BuildHasherDefault<H>);

/// What a table of names holds: each name with the value bound to it.
/// `FnvHashMap::default`, `HashMap::insert` and `HashMap::get` are stated
/// over it.
pub uninterp spec fn bindings(t: FnvHashMap<String, MalVal>) -> Map<Seq<char>, MalVal>;

pub open spec fn no_bindings() -> Map<Seq<char>, MalVal> {
    Map::empty()
}

/// `FnvHashMap::default`: a table that holds nothing.
#[verifier::external_body]
fn table_new() -> (t: FnvHashMap<String, MalVal>)
    ensures
        bindings(t) == no_bindings(),
{
    FnvHashMap::default()
}

/// `HashMap::insert` on a table with the FNV hasher: binds `k` to `v`,
/// in place of what `k` was bound to before.
#[verifier::external_body]
fn table_insert(t: &mut FnvHashMap<String, MalVal>, k: String, v: MalVal)
    ensures
        bindings(*final(t)) == bindings(*old(t)).insert(k@, v),
{
    t.insert(k, v);
}

/// `HashMap::get` on a table with the FNV hasher: what `k` is bound to, if anything.
#[verifier::external_body]
fn table_get<'a>(t: &'a FnvHashMap<String, MalVal>, k: &str) -> (r: Option<&'a MalVal>)
    ensures
        r == (if bindings(*t).contains_key(k@) {
            Some(&bindings(*t)[k@])
        } else {
            None
        }),
{
    t.get(k)
}

/// One scope: the names bound in it, and the scope around it.
pub struct EnvStruct {
    data: FnvHashMap<String, MalVal>,
    outer: Option<Env>,
}

/// The mathematical value of a scope.
pub struct Scope {
    pub data: Map<Seq<char>, Val>,
    pub outer: Option<usize>,
}

impl View for EnvStruct {
    type V = Scope;

    closed spec fn view(&self) -> Scope {
        Scope {
            data: Map::new(
                |k: Seq<char>| bindings(self.data).contains_key(k),
                |k: Seq<char>| bindings(self.data)[k]@,
            ),
            outer: self.outer,
        }
    }
}

/// All scopes and all atoms of one interpreter. A scope is named by its
/// position among the scopes, an atom by its position among the atoms;
/// neither is ever removed.
pub struct Store {
    envs: Vec<EnvStruct>,
    atoms: Vec<MalVal>,
}

/// The mathematical value of a [`Store`].
pub struct Heap {
    pub envs: Seq<Scope>,
    pub atoms: Seq<Val>,
}

impl View for Store {
    type V = Heap;

    closed spec fn view(&self) -> Heap {
        Heap {
            envs: Seq::new(self.envs@.len(), |i: int| self.envs@[i]@),
            atoms: vals(self.atoms@),
        }
    }
}

/// A heap without scopes or atoms.
pub open spec fn empty_heap() -> Heap {
    Heap { envs: Seq::empty(), atoms: Seq::empty() }
}

/// The heap after a new, empty scope inside `outer` was added, and that scope's handle.
pub open spec fn env_new_spec(h: Heap, outer: Option<usize>) -> (Heap, usize) {
    (
        Heap { envs: h.envs.push(Scope { data: Map::empty(), outer }), atoms: h.atoms },
        h.envs.len() as usize,
    )
}

/// What `key` is bound to, seen from scope `env`: the binding of the
/// nearest scope that has one, walking outward. A scope's outer link is
/// followed only where it leads to an older scope.
pub open spec fn env_get_spec(h: Heap, env: usize, key: Seq<char>) -> Option<Val>
    decreases env,
{
    if env >= h.envs.len() {
        None
    } else if h.envs[env as int].data.contains_key(key) {
        Some(h.envs[env as int].data[key])
    } else {
        match h.envs[env as int].outer {
            Some(o) => if o < env {
                env_get_spec(h, o, key)
            } else {
                None
            },
            None => None,
        }
    }
}

/// The heap after `key` was bound to `val` in scope `env`; unchanged where
/// there is no such scope.
pub open spec fn env_sets_spec(h: Heap, env: usize, key: Seq<char>, val: Val) -> Heap {
    if env < h.envs.len() {
        Heap {
            envs: h.envs.update(
                env as int,
                Scope {
                    data: h.envs[env as int].data.insert(key, val),
                    outer: h.envs[env as int].outer,
                },
            ),
            atoms: h.atoms,
        }
    } else {
        h
    }
}

/// The heap and the result of binding the symbol `key` to `val` in scope `env`.
pub open spec fn env_set_spec(h: Heap, env: usize, key: Val, val: Val) -> (
    Result<Val, Val>,
    Heap,
) {
    match key {
        Val::Sym(s) => if env < h.envs.len() {
            (Ok(val), env_sets_spec(h, env, s, val))
        } else {
            (Err(Val::Str("no such environment"@)), h)
        },
        _ => (Err(Val::Str("Env.set called with non-Str"@)), h),
    }
}

/// The bindings that the parameters `binds[i..]` take from the arguments
/// `exprs`, in order. The symbol `&` gives all arguments from its position
/// on, as a list, to the one symbol after it. Without it there must be as
/// many arguments as parameters.
pub open spec fn bind_pairs(binds: Seq<Val>, exprs: Seq<Val>, i: int) -> Result<
    Seq<(Seq<char>, Val)>,
    Val,
>
    decreases binds.len() - i,
{
    if i < 0 || i >= binds.len() {
        if exprs.len() > binds.len() {
            Err(
                Val::Str(
                    "wrong number of arguments: function received more arguments than expected"@,
                ),
            )
        } else {
            Ok(Seq::empty())
        }
    } else if binds[i] == Val::Sym("&"@) {
        if i + 1 < binds.len() && i <= exprs.len() {
            match binds[i + 1] {
                Val::Sym(r) => Ok(seq![(r, list_val(exprs.skip(i)))]),
                _ => Err(Val::Str("Env.set called with non-Str"@)),
            }
        } else {
            Err(Val::Str("wrong number of arguments: no parameter after &"@))
        }
    } else if i >= exprs.len() {
        Err(
            Val::Str(
                "wrong number of arguments: function requires more arguments than provided"@,
            ),
        )
    } else {
        match binds[i] {
            Val::Sym(s) => match bind_pairs(binds, exprs, i + 1) {
                Ok(rest) => Ok(seq![(s, exprs[i])] + rest),
                Err(e) => Err(e),
            },
            _ => Err(Val::Str("Env.set called with non-Str"@)),
        }
    }
}

/// The table that binds each name of `pairs` to its value, a later pair
/// in place of an earlier one of the same name.
pub open spec fn table_of(pairs: Seq<(Seq<char>, Val)>) -> Map<Seq<char>, Val>
    decreases pairs.len(),
{
    if pairs.len() == 0 {
        Map::empty()
    } else {
        table_of(pairs.drop_last()).insert(pairs.last().0, pairs.last().1)
    }
}

/// The heap and the result of binding the parameters `mbinds` to `exprs`
/// in a new scope inside `outer`. Where binding fails the heap is unchanged.
pub open spec fn env_bind_spec(h: Heap, outer: usize, mbinds: Val, exprs: Seq<Val>) -> (
    Result<usize, Val>,
    Heap,
) {
    match seq_of(mbinds) {
        Some(b) => match bind_pairs(b, exprs, 0) {
            Ok(pairs) => (
                Ok(h.envs.len() as usize),
                Heap {
                    envs: h.envs.push(Scope { data: table_of(pairs), outer: Some(outer) }),
                    atoms: h.atoms,
                },
            ),
            Err(e) => (Err(e), h),
        },
        None => (Err(Val::Str("env_bind binds not List/Vector"@)), h),
    }
}

/// The heap after a new atom that holds `v` was added.
pub open spec fn atom_new_spec(h: Heap, v: Val) -> Heap {
    Heap { envs: h.envs, atoms: h.atoms.push(v) }
}

/// The heap after atom `a` was set to `v`; unchanged where there is no such atom.
pub open spec fn atom_set_spec(h: Heap, a: usize, v: Val) -> Heap {
    if a < h.atoms.len() {
        Heap { envs: h.envs, atoms: h.atoms.update(a as int, v) }
    } else {
        h
    }
}

impl Store {
    /// A store without scopes or atoms.
    pub fn new() -> (s: Store)
        ensures
            s@ == empty_heap(),
    {
        let s = Store { envs: Vec::new(), atoms: Vec::new() };
        assert(s@.envs =~= Seq::empty());
        assert(s@.atoms =~= Seq::empty());
        s
    }

    /// The number of scopes.
    pub fn env_count(&self) -> (n: usize)
        ensures
            n == self@.envs.len(),
    {
        self.envs.len()
    }

    /// The number of atoms.
    pub fn atom_count(&self) -> (n: usize)
        ensures
            n == self@.atoms.len(),
    {
        self.atoms.len()
    }

    /// Adds an atom that holds `v`, and hands back its handle.
    pub fn atom_new(&mut self, v: MalVal) -> (a: usize)
        ensures
            final(self)@ == atom_new_spec(old(self)@, v@),
            a == old(self)@.atoms.len(),
    {
        let a = self.atoms.len();
        self.atoms.push(v);
        assert(self@.atoms =~= old(self)@.atoms.push(v@));
        assert(self@.envs =~= old(self)@.envs);
        a
    }

    /// What atom `a` holds, if there is such an atom.
    pub fn atom_get(&self, a: usize) -> (r: Option<MalVal>)
        ensures
            match r {
                Some(v) => a < self@.atoms.len() && v@ == self@.atoms[a as int],
                None => a >= self@.atoms.len(),
            },
    {
        if a < self.atoms.len() {
            Some(self.atoms[a].clone())
        } else {
            None
        }
    }

    /// Sets atom `a` to `v`, and says whether there is such an atom.
    pub fn atom_set(&mut self, a: usize, v: MalVal) -> (r: bool)
        ensures
            r == (a < old(self)@.atoms.len()),
            final(self)@ == atom_set_spec(old(self)@, a, v@),
    {
        if a < self.atoms.len() {
            self.atoms[a] = v;
            assert(self@.atoms =~= old(self)@.atoms.update(a as int, v@));
            assert(self@.envs =~= old(self)@.envs);
            true
        } else {
            false
        }
    }
}

/// Adds an empty scope inside `outer` and hands back its handle.
pub fn env_new(store: &mut Store, outer: Option<Env>) -> (env: Env)
    ensures
        (final(store)@, env) == env_new_spec(old(store)@, outer),
{
    let env = store.envs.len();
    let scope = EnvStruct { data: table_new(), outer };
    assert(scope@.data =~= Map::empty());
    store.envs.push(scope);
    assert(store@.envs =~= old(store)@.envs.push(Scope { data: Map::empty(), outer }));
    assert(store@.atoms =~= old(store)@.atoms);
    env
}

/// Looks `key` up from scope `env` outward.
pub fn env_get(store: &Store, env: Env, key: &str) -> (r: Option<MalVal>)
    ensures
        match r {
            Some(v) => env_get_spec(store@, env, key@) == Some(v@),
            None => env_get_spec(store@, env, key@) is None,
        },
{
    let mut cur: usize = env;
    loop
        invariant
            env_get_spec(store@, env, key@) == env_get_spec(store@, cur, key@),
        decreases cur,
    {
        if cur >= store.envs.len() {
            return None;
        }
        let scope = &store.envs[cur];
        assert(store@.envs[cur as int] == scope@);
        match table_get(&scope.data, key) {
            Some(v) => {
                return Some(v.clone());
            },
            None => {},
        }
        match scope.outer {
            Some(o) => {
                if o < cur {
                    cur = o;
                } else {
                    return None;
                }
            },
            None => {
                return None;
            },
        }
    }
}

/// Binds `key` to `val` in scope `env`. Does nothing where there is no such scope.
pub fn env_sets(store: &mut Store, env: Env, key: &str, val: MalVal)
    ensures
        final(store)@ == env_sets_spec(old(store)@, env, key@, val@),
{
    if env < store.envs.len() {
        let ghost before = store.envs@[env as int];
        table_insert(&mut store.envs[env].data, key.to_string(), val);
        assert(store.envs@[env as int]@.data =~= before@.data.insert(key@, val@));
        assert(store@.envs =~= old(store)@.envs.update(
            env as int,
            Scope { data: before@.data.insert(key@, val@), outer: before@.outer },
        ));
        assert(store@.atoms =~= old(store)@.atoms);
    }
}

/// Binds the symbol `key` to `val` in scope `env` and hands `val` back.
/// Fails where `key` is no symbol or there is no such scope.
pub fn env_set(store: &mut Store, env: Env, key: &MalVal, val: MalVal) -> (r: MalRet)
    ensures
        (ret_val(r), final(store)@) == env_set_spec(old(store)@, env, key@, val@),
{
    match key {
        MalVal::Sym(s) => {
            if env < store.envs.len() {
                env_sets(store, env, s.as_str(), val.clone());
                Ok(val)
            } else {
                error("no such environment")
            }
        },
        _ => error("Env.set called with non-Str"),
    }
}

/// `acc`, then what `r` holds; or the failure of `r`.
pub open spec fn after(acc: Seq<(Seq<char>, Val)>, r: Result<Seq<(Seq<char>, Val)>, Val>) -> Result<
    Seq<(Seq<char>, Val)>,
    Val,
> {
    match r {
        Ok(rest) => Ok(acc + rest),
        Err(e) => Err(e),
    }
}

/// The bindings that the parameters `binds` take from the arguments `exprs`.
pub fn bind_params(binds: &Vec<MalVal>, exprs: &Vec<MalVal>) -> (r: Result<
    Vec<(String, MalVal)>,
    MalVal,
>)
    ensures
        match r {
            Ok(p) => bind_pairs(vals(binds@), vals(exprs@), 0) == Ok::<_, Val>(entries(p@)),
            Err(e) => bind_pairs(vals(binds@), vals(exprs@), 0) == Err::<Seq<(Seq<char>, Val)>, _>(
                e@,
            ),
        },
{
    let ghost bs = vals(binds@);
    let ghost es = vals(exprs@);
    let mut acc: Vec<(String, MalVal)> = Vec::new();
    let mut i: usize = 0;
    assert(entries(acc@) =~= Seq::empty());
    assert(after(entries(acc@), bind_pairs(bs, es, 0)) == bind_pairs(bs, es, 0)) by {
        match bind_pairs(bs, es, 0) {
            Ok(rest) => {
                assert(entries(acc@) + rest =~= rest);
            },
            Err(_) => {},
        }
    }
    while i < binds.len()
        invariant
            i <= binds.len(),
            bs == vals(binds@),
            es == vals(exprs@),
            bind_pairs(bs, es, 0) == after(entries(acc@), bind_pairs(bs, es, i as int)),
        decreases binds.len() - i,
    {
        let ghost prev = entries(acc@);
        match &binds[i] {
            MalVal::Sym(s) => {
                if text_eq(s.as_str(), "&") {
                    if i + 1 < binds.len() && i <= exprs.len() {
                        match &binds[i + 1] {
                            MalVal::Sym(r) => {
                                let rest = copy_range(exprs, i, exprs.len());
                                proof {
                                    lemma_vals_subrange(exprs@, i as int, exprs@.len() as int);
                                    assert(es.subrange(i as int, es.len() as int) =~= es.skip(
                                        i as int,
                                    ));
                                }
                                let v = list(rest);
                                acc.push((r.clone(), v));
                                assert(entries(acc@) =~= prev + seq![(r@, list_val(es.skip(i as int)))]);
                                return Ok(acc);
                            },
                            _ => {
                                return error("Env.set called with non-Str");
                            },
                        }
                    } else {
                        return error("wrong number of arguments: no parameter after &");
                    }
                }
                if i >= exprs.len() {
                    return error(
                        "wrong number of arguments: function requires more arguments than provided",
                    );
                }
                acc.push((s.clone(), exprs[i].clone()));
                proof {
                    assert(entries(acc@) =~= prev + seq![(s@, es[i as int])]);
                    match bind_pairs(bs, es, i + 1) {
                        Ok(rest) => {
                            assert(prev + (seq![(s@, es[i as int])] + rest) =~= entries(acc@)
                                + rest);
                        },
                        Err(_) => {},
                    }
                }
            },
            _ => {
                if i >= exprs.len() {
                    return error(
                        "wrong number of arguments: function requires more arguments than provided",
                    );
                }
                return error("Env.set called with non-Str");
            },
        }
        i += 1;
    }
    if exprs.len() > binds.len() {
        return error(
            "wrong number of arguments: function received more arguments than expected",
        );
    }
    proof {
        assert(entries(acc@) + Seq::empty() =~= entries(acc@));
    }
    Ok(acc)
}

/// Adds a scope inside `outer` in which the parameters `mbinds` are bound
/// to the arguments `exprs`, and hands back its handle.
pub fn env_bind(store: &mut Store, outer: Env, mbinds: &MalVal, exprs: Vec<MalVal>) -> (r: Result<
    Env,
    MalVal,
>)
    ensures
        (
            match r {
                Ok(e) => Ok(e),
                Err(e) => Err(e@),
            },
            final(store)@,
        ) == env_bind_spec(old(store)@, outer, mbinds@, vals(exprs@)),
{
    let pairs = match mbinds.items() {
        Some(b) => bind_params(b, &exprs),
        None => {
            return error("env_bind binds not List/Vector");
        },
    };
    match pairs {
        Ok(p) => {
            let env = store.envs.len();
            let mut scope = EnvStruct { data: table_new(), outer: Some(outer) };
            let mut j: usize = 0;
            assert(scope@.data =~= table_of(entries(p@).take(0)));
            while j < p.len()
                invariant
                    j <= p.len(),
                    scope.outer == Some(outer),
                    scope@.data == table_of(entries(p@).take(j as int)),
                decreases p.len() - j,
            {
                let ghost before = scope@.data;
                table_insert(&mut scope.data, p[j].0.clone(), p[j].1.clone());
                proof {
                    let t = entries(p@).take(j + 1);
                    assert(t.drop_last() =~= entries(p@).take(j as int));
                    assert(t.last() == (p@[j as int].0@, p@[j as int].1@));
                    assert(scope@.data =~= before.insert(p@[j as int].0@, p@[j as int].1@));
                }
                j += 1;
            }
            assert(entries(p@).take(j as int) =~= entries(p@));
            store.envs.push(scope);
            assert(store@.envs =~= old(store)@.envs.push(
                Scope { data: table_of(entries(p@)), outer: Some(outer) },
            ));
            assert(store@.atoms =~= old(store)@.atoms);
            Ok(env)
        },
        Err(e) => Err(e),
    }
}

} // verus!
