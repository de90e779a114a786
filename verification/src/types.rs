//! Values and their mathematical model.

use vstd::prelude::*;
use std::rc::Rc;
use itertools::Itertools;
use crate::keys::{all_well_keyed, entries_well_keyed, law_assoc_keeps_keys, ret_well_keyed};
use crate::text::text_eq;

verus! {

/// Handle of a scope in a [`crate::env::Store`].
pub type Env = usize;

/// The arguments of a call.
pub type MalArgs = Vec<MalVal>;

/// A value, or the value that was thrown.
pub type MalRet = Result<MalVal, MalVal>;

/// The native functions of the core library.
#[derive(Clone, Copy, PartialEq, Eq, Structural, Debug)]
pub enum Builtin {
    Equal,
    Throw,
    IsNil,
    IsTrue,
    IsFalse,
    Symbol,
    IsSymbol,
    IsString,
    Keyword,
    IsKeyword,
    IsNumber,
    IsInt,
    IsFloat,
    IsFn,
    IsMacro,
    PrStr,
    ToStr,
    ReadString,
    Lt,
    Le,
    Gt,
    Ge,
    Add,
    Sub,
    Mul,
    Div,
    ToFloat,
    ToInt,
    IsSequential,
    MakeList,
    IsList,
    MakeVector,
    IsVector,
    MakeHashMap,
    IsMap,
    Assoc,
    Dissoc,
    Get,
    Contains,
    Keys,
    Vals,
    ToVector,
    Cons,
    Concat,
    IsEmpty,
    Nth,
    First,
    Rest,
    Count,
    Apply,
    MapOver,
    Conj,
    ToSeq,
    Meta,
    WithMeta,
    MakeAtom,
    IsAtom,
    Deref,
    Reset,
    Swap,
    Eval,
}

/// A runtime value of the language.
///
/// Sequences and maps are shared, never changed in place. A map keeps its
/// entries in the order in which their keys were first added; a key is the
/// text of a string, or a mark and the name of a keyword. The reader, the
/// native functions and the evaluator make no map in which a key occurs
/// twice ([`crate::keys::well_keyed`]). A float is
/// carried as the decimal text it was written with. An atom and a closure's
/// scope are handles into a [`crate::env::Store`].
#[derive(Debug)]
pub enum MalVal {
    Nil,
    Bool(bool),
    Int(i64),
    Float(String),
    Str(String),
    Sym(String),
    Kwd(String),
    List(Rc<Vec<MalVal>>, Rc<MalVal>),
    Vector(Rc<Vec<MalVal>>, Rc<MalVal>),
    Hash(Rc<Vec<(String, MalVal)>>, Rc<MalVal>),
    Func(Builtin, Rc<MalVal>),
    MalFunc(FuncStruct),
    Atom(usize),
}

/// A closure: body, captured scope, parameter list, macro flag, metadata.
#[derive(Debug)]
pub struct FuncStruct {
    pub ast: Rc<MalVal>,
    pub env: Env,
    pub params: Rc<MalVal>,
    pub is_macro: bool,
    pub meta: Rc<MalVal>,
}

/// The mathematical value that a [`MalVal`] stands for.
pub enum Val {
    Nil,
    Bool(bool),
    Int(i64),
    Float(Seq<char>),
    Str(Seq<char>),
    Sym(Seq<char>),
    Kwd(Seq<char>),
    List(Seq<Val>, Box<Val>),
    Vector(Seq<Val>, Box<Val>),
    Hash(Seq<(Seq<char>, Val)>, Box<Val>),
    Func(Builtin, Box<Val>),
    MalFunc(Closure),
    Atom(usize),
}

/// The mathematical value of a [`FuncStruct`].
pub struct Closure {
    pub ast: Box<Val>,
    pub env: usize,
    pub params: Box<Val>,
    pub is_macro: bool,
    pub meta: Box<Val>,
}

/// The mathematical value of `v`.
pub open spec fn val_of(v: MalVal) -> Val
    decreases v,
{
    match v {
        MalVal::Nil => Val::Nil,
        MalVal::Bool(b) => Val::Bool(b),
        MalVal::Int(i) => Val::Int(i),
        MalVal::Float(s) => Val::Float(s@),
        MalVal::Str(s) => Val::Str(s@),
        MalVal::Sym(s) => Val::Sym(s@),
        MalVal::Kwd(s) => Val::Kwd(s@),
        MalVal::List(items, meta) => Val::List(
            Seq::new(
                items@.len(),
                |i: int|
                    if 0 <= i < items@.len() {
                        val_of(items@[i])
                    } else {
                        Val::Nil
                    },
            ),
            Box::new(val_of(*meta)),
        ),
        MalVal::Vector(items, meta) => Val::Vector(
            Seq::new(
                items@.len(),
                |i: int|
                    if 0 <= i < items@.len() {
                        val_of(items@[i])
                    } else {
                        Val::Nil
                    },
            ),
            Box::new(val_of(*meta)),
        ),
        MalVal::Hash(entries, meta) => Val::Hash(
            Seq::new(
                entries@.len(),
                |i: int|
                    if 0 <= i < entries@.len() {
                        (entries@[i].0@, val_of(entries@[i].1))
                    } else {
                        (Seq::empty(), Val::Nil)
                    },
            ),
            Box::new(val_of(*meta)),
        ),
        MalVal::Func(b, meta) => Val::Func(b, Box::new(val_of(*meta))),
        MalVal::MalFunc(f) => Val::MalFunc(
            Closure {
                ast: Box::new(val_of(*f.ast)),
                env: f.env,
                params: Box::new(val_of(*f.params)),
                is_macro: f.is_macro,
                meta: Box::new(val_of(*f.meta)),
            },
        ),
        MalVal::Atom(a) => Val::Atom(a),
    }
}

impl View for MalVal {
    type V = Val;

    open spec fn view(&self) -> Val {
        val_of(*self)
    }
}

/// The values of a sequence of [`MalVal`]s.
pub open spec fn vals(items: Seq<MalVal>) -> Seq<Val> {
    Seq::new(items.len(), |i: int| items[i]@)
}

/// The entries of a map, each key with its value's mathematical value.
pub open spec fn entries(items: Seq<(String, MalVal)>) -> Seq<(Seq<char>, Val)> {
    Seq::new(items.len(), |i: int| (items[i].0@, items[i].1@))
}

pub proof fn lemma_view_list(items: Rc<Vec<MalVal>>, meta: Rc<MalVal>)
    ensures
        MalVal::List(items, meta)@ == Val::List(vals(items@), Box::new(meta@)),
        MalVal::Vector(items, meta)@ == Val::Vector(vals(items@), Box::new(meta@)),
{
    assert(MalVal::List(items, meta)@->List_0 =~= vals(items@));
    assert(MalVal::Vector(items, meta)@->Vector_0 =~= vals(items@));
}

pub proof fn lemma_view_hash(items: Rc<Vec<(String, MalVal)>>, meta: Rc<MalVal>)
    ensures
        MalVal::Hash(items, meta)@ == Val::Hash(entries(items@), Box::new(meta@)),
{
    assert(MalVal::Hash(items, meta)@->Hash_0 =~= entries(items@));
}

impl Clone for FuncStruct {
    fn clone(&self) -> (r: Self)
        ensures
            r == *self,
    {
        FuncStruct {
            ast: Rc::clone(&self.ast),
            env: self.env,
            params: Rc::clone(&self.params),
            is_macro: self.is_macro,
            meta: Rc::clone(&self.meta),
        }
    }
}

impl Clone for MalVal {
    fn clone(&self) -> (r: Self)
        ensures
            r == *self,
    {
        match self {
            MalVal::Nil => MalVal::Nil,
            MalVal::Bool(b) => MalVal::Bool(*b),
            MalVal::Int(i) => MalVal::Int(*i),
            MalVal::Float(s) => MalVal::Float(s.clone()),
            MalVal::Str(s) => MalVal::Str(s.clone()),
            MalVal::Sym(s) => MalVal::Sym(s.clone()),
            MalVal::Kwd(s) => MalVal::Kwd(s.clone()),
            MalVal::List(items, meta) => MalVal::List(Rc::clone(items), Rc::clone(meta)),
            MalVal::Vector(items, meta) => MalVal::Vector(Rc::clone(items), Rc::clone(meta)),
            MalVal::Hash(items, meta) => MalVal::Hash(Rc::clone(items), Rc::clone(meta)),
            MalVal::Func(b, meta) => MalVal::Func(*b, Rc::clone(meta)),
            MalVal::MalFunc(f) => MalVal::MalFunc(f.clone()),
            MalVal::Atom(a) => MalVal::Atom(*a),
        }
    }
}

} // verus!

verus! {

/// The list of `items`, without metadata.
pub open spec fn list_val(items: Seq<Val>) -> Val {
    Val::List(items, Box::new(Val::Nil))
}

/// The vector of `items`, without metadata.
pub open spec fn vector_val(items: Seq<Val>) -> Val {
    Val::Vector(items, Box::new(Val::Nil))
}

/// The map of `items`, without metadata.
pub open spec fn hash_val(items: Seq<(Seq<char>, Val)>) -> Val {
    Val::Hash(items, Box::new(Val::Nil))
}

/// The thrown value that carries the message `msg`.
pub open spec fn failure(msg: Seq<char>) -> Result<Val, Val> {
    Err(Val::Str(msg))
}

/// The mathematical value of a result: of what was returned, or of what was thrown.
pub open spec fn ret_val(r: MalRet) -> Result<Val, Val> {
    match r {
        Ok(v) => Ok(v@),
        Err(e) => Err(e@),
    }
}

/// Fails with the message `s`.
pub fn error<T>(s: &str) -> (r: Result<T, MalVal>)
    ensures
        r is Err,
        r->Err_0@ == Val::Str(s@),
{
    Err(MalVal::Str(s.to_string()))
}

/// The list that holds `seq`, without metadata.
pub fn list(seq: MalArgs) -> (r: MalVal)
    ensures
        r@ == list_val(vals(seq@)),
{
    let items = Rc::new(seq);
    let meta = Rc::new(MalVal::Nil);
    proof {
        lemma_view_list(items, meta);
    }
    MalVal::List(items, meta)
}

/// The vector that holds `seq`, without metadata.
pub fn vector(seq: MalArgs) -> (r: MalVal)
    ensures
        r@ == vector_val(vals(seq@)),
{
    let items = Rc::new(seq);
    let meta = Rc::new(MalVal::Nil);
    proof {
        lemma_view_list(items, meta);
    }
    MalVal::Vector(items, meta)
}

/// The native function `f` as a value, without metadata.
pub fn func(f: Builtin) -> (r: MalVal)
    ensures
        r@ == Val::Func(f, Box::new(Val::Nil)),
{
    let meta = Rc::new(MalVal::Nil);
    assert(meta@ == Val::Nil);
    MalVal::Func(f, meta)
}

/// A copy of `v[from..to]`.
pub fn copy_range(v: &Vec<MalVal>, from: usize, to: usize) -> (r: Vec<MalVal>)
    requires
        from <= to <= v.len(),
    ensures
        r@ == v@.subrange(from as int, to as int),
{
    let mut r: Vec<MalVal> = Vec::new();
    let mut i: usize = from;
    while i < to
        invariant
            from <= i <= to <= v.len(),
            r@ == v@.subrange(from as int, i as int),
        decreases to - i,
    {
        r.push(v[i].clone());
        i += 1;
    }
    r
}

/// Appends a copy of each item of `more` to `out`.
pub fn extend_from(out: &mut Vec<MalVal>, more: &Vec<MalVal>)
    ensures
        final(out)@ == old(out)@ + more@,
{
    let mut i: usize = 0;
    while i < more.len()
        invariant
            i <= more.len(),
            out@ == old(out)@ + more@.take(i as int),
        decreases more.len() - i,
    {
        out.push(more[i].clone());
        i += 1;
    }
}

pub proof fn lemma_vals_push(s: Seq<MalVal>, x: MalVal)
    ensures
        vals(s.push(x)) == vals(s).push(x@),
{
    assert(vals(s.push(x)) =~= vals(s).push(x@));
}

pub proof fn lemma_vals_add(a: Seq<MalVal>, b: Seq<MalVal>)
    ensures
        vals(a + b) == vals(a) + vals(b),
{
    assert(vals(a + b) =~= vals(a) + vals(b));
}

pub proof fn lemma_vals_subrange(s: Seq<MalVal>, i: int, j: int)
    requires
        0 <= i <= j <= s.len(),
    ensures
        vals(s.subrange(i, j)) == vals(s).subrange(i, j),
{
    assert(vals(s.subrange(i, j)) =~= vals(s).subrange(i, j));
}

/// The items of a list or of a vector; nothing for any other value.
pub open spec fn seq_of(v: Val) -> Option<Seq<Val>> {
    match v {
        Val::List(items, _) => Some(items),
        Val::Vector(items, _) => Some(items),
        _ => None,
    }
}

impl MalVal {
    /// The items of a list or of a vector.
    pub fn items(&self) -> (r: Option<&Vec<MalVal>>)
        ensures
            match r {
                Some(v) => seq_of(self@) == Some(vals(v@)),
                None => seq_of(self@) is None,
            },
    {
        match self {
            MalVal::List(items, meta) => {
                proof {
                    lemma_view_list(*items, *meta);
                }
                Some(items)
            },
            MalVal::Vector(items, meta) => {
                proof {
                    lemma_view_list(*items, *meta);
                }
                Some(items)
            },
            _ => None,
        }
    }
}

/// The mark that a map's key carries in front where it stands for a keyword.
pub open spec fn kwd_mark() -> char {
    '\u{29e}'
}

/// The key under which a map files the value `k`: a string as it is, a
/// keyword with the mark in front. No other value is a key.
pub open spec fn key_of(k: Val) -> Result<Seq<char>, Val> {
    match k {
        Val::Str(s) => Ok(s),
        Val::Kwd(s) => Ok(seq![kwd_mark()] + s),
        _ => Err(Val::Str("key is not string"@)),
    }
}

/// The value that the key `k` of a map stands for.
pub open spec fn key_val(k: Seq<char>) -> Val {
    if k.len() > 0 && k[0] == kwd_mark() {
        Val::Kwd(k.skip(1))
    } else {
        Val::Str(k)
    }
}

/// The key under which a map files `k`.
pub fn wrap_map_key(k: &MalVal) -> (r: Result<String, MalVal>)
    ensures
        match r {
            Ok(s) => key_of(k@) == Ok::<_, Val>(s@),
            Err(e) => key_of(k@) == Err::<Seq<char>, _>(e@),
        },
{
    match k {
        MalVal::Str(s) => Ok(s.clone()),
        MalVal::Kwd(s) => {
            let mut key = String::new();
            key.push('\u{29e}');
            crate::text::push_text(&mut key, s.as_str());
            assert(key@ =~= seq![kwd_mark()] + s@);
            Ok(key)
        },
        _ => error("key is not string"),
    }
}

/// The value that the key `s` of a map stands for.
pub fn unwrap_map_key(s: &str) -> (r: MalVal)
    ensures
        r@ == key_val(s@),
{
    let cs = crate::text::chars_of(s);
    if cs.len() > 0 && cs[0] == '\u{29e}' {
        let rest = crate::text::text_of(&cs, 1, cs.len());
        assert(cs@.subrange(1, cs@.len() as int) =~= cs@.skip(1));
        MalVal::Kwd(rest)
    } else {
        MalVal::Str(s.to_string())
    }
}

/// `Itertools::tuples` on the items of `items`: the first with the second,
/// the third with the fourth and so on, each item copied. An item left
/// over at the end is dropped.
#[verifier::external_body]
pub(crate) fn pairs_of(items: &Vec<MalVal>) -> (r: Vec<(MalVal, MalVal)>)
    ensures
        r@.len() == items@.len() / 2,
        forall|i: int| 0 <= i < r@.len() ==> r@[i] == (items@[2 * i], items@[2 * i + 1]),
{
    items.iter().cloned().tuples().collect()
}

/// The position of the first entry of `items`, from `i` on, whose key is
/// `k`; the length of `items` where there is none.
pub open spec fn key_index(items: Seq<(Seq<char>, Val)>, k: Seq<char>, i: int) -> int
    decreases items.len() - i,
{
    if i < 0 || i >= items.len() {
        items.len() as int
    } else if items[i].0 == k {
        i
    } else {
        key_index(items, k, i + 1)
    }
}

/// What the map `items` holds under the key `k`.
pub open spec fn map_get(items: Seq<(Seq<char>, Val)>, k: Seq<char>) -> Option<Val> {
    let i = key_index(items, k, 0);
    if i < items.len() {
        Some(items[i].1)
    } else {
        None
    }
}

/// The map `items` with `v` under the key `k`: in the place of the entry
/// that had this key, or at the end where none had.
pub open spec fn map_put(items: Seq<(Seq<char>, Val)>, k: Seq<char>, v: Val) -> Seq<
    (Seq<char>, Val),
> {
    let i = key_index(items, k, 0);
    if i < items.len() {
        items.update(i, (k, v))
    } else {
        items.push((k, v))
    }
}

/// The first `n` entries of `items` without those whose key is `k`.
pub open spec fn map_del(items: Seq<(Seq<char>, Val)>, k: Seq<char>, n: nat) -> Seq<
    (Seq<char>, Val),
>
    decreases n,
{
    if n == 0 || n > items.len() {
        Seq::empty()
    } else if items[n - 1].0 == k {
        map_del(items, k, (n - 1) as nat)
    } else {
        map_del(items, k, (n - 1) as nat).push(items[n - 1])
    }
}

/// The map `items` after each key of `kvs[i..]`, taken two by two, was
/// given the value behind it. A key that is neither string nor keyword fails.
pub open spec fn assoc_pairs(items: Seq<(Seq<char>, Val)>, kvs: Seq<Val>, i: int) -> Result<
    Seq<(Seq<char>, Val)>,
    Val,
>
    decreases kvs.len() - i,
{
    if i < 0 || i + 1 >= kvs.len() {
        Ok(items)
    } else {
        match key_of(kvs[i]) {
            Ok(k) => assoc_pairs(map_put(items, k, kvs[i + 1]), kvs, i + 2),
            Err(e) => Err(e),
        }
    }
}

/// The map `items` with the keys and values `kvs` added, as a value
/// without metadata. An odd number of `kvs` fails.
pub open spec fn assoc_spec(items: Seq<(Seq<char>, Val)>, kvs: Seq<Val>) -> Result<Val, Val> {
    if kvs.len() % 2 != 0 {
        Err(Val::Str("odd number of elements"@))
    } else {
        match assoc_pairs(items, kvs, 0) {
            Ok(m) => Ok(hash_val(m)),
            Err(e) => Err(e),
        }
    }
}

/// The position of the first entry whose key is `k`.
pub fn find_key(items: &Vec<(String, MalVal)>, k: &str) -> (r: usize)
    ensures
        r == key_index(entries(items@), k@, 0),
        r <= items@.len(),
{
    let mut i: usize = 0;
    while i < items.len()
        invariant
            i <= items.len(),
            key_index(entries(items@), k@, 0) == key_index(entries(items@), k@, i as int),
        decreases items.len() - i,
    {
        if text_eq(items[i].0.as_str(), k) {
            return i;
        }
        i += 1;
    }
    i
}

/// Puts `v` under the key `k`.
pub fn put_entry(items: &mut Vec<(String, MalVal)>, k: String, v: MalVal)
    ensures
        entries(final(items)@) == map_put(entries(old(items)@), k@, v@),
{
    let i = find_key(items, k.as_str());
    if i < items.len() {
        items[i] = (k, v);
        assert(entries(items@) =~= entries(old(items)@).update(i as int, (k@, v@)));
    } else {
        items.push((k, v));
        assert(entries(items@) =~= entries(old(items)@).push((k@, v@)));
    }
}

/// The map that holds `items`, without metadata.
pub fn hash(items: Vec<(String, MalVal)>) -> (r: MalVal)
    ensures
        r@ == hash_val(entries(items@)),
{
    let items = Rc::new(items);
    let meta = Rc::new(MalVal::Nil);
    proof {
        lemma_view_hash(items, meta);
    }
    MalVal::Hash(items, meta)
}

/// The map `hm` with the keys and values `kvs` added. Where every key
/// occurred once before, at whatever depth, it does so behind.
pub fn _assoc(hm: Vec<(String, MalVal)>, kvs: MalArgs) -> (r: MalRet)
    ensures
        ret_val(r) == assoc_spec(entries(hm@), vals(kvs@)),
        entries_well_keyed(entries(hm@)) && all_well_keyed(vals(kvs@)) ==> ret_well_keyed(
            ret_val(r),
        ),
{
    proof {
        if entries_well_keyed(entries(hm@)) && all_well_keyed(vals(kvs@)) {
            law_assoc_keeps_keys(entries(hm@), vals(kvs@));
        }
    }
    assoc_entries(hm, kvs)
}

/// The map `hm` with the keys and values `kvs` added.
fn assoc_entries(hm: Vec<(String, MalVal)>, kvs: MalArgs) -> (r: MalRet)
    ensures
        ret_val(r) == assoc_spec(entries(hm@), vals(kvs@)),
{
    if kvs.len() % 2 != 0 {
        return error("odd number of elements");
    }
    let mut map = hm;
    let ghost ks = vals(kvs@);
    let pairs = pairs_of(&kvs);
    let mut j: usize = 0;
    while j < pairs.len()
        invariant
            j <= pairs.len(),
            ks == vals(kvs@),
            pairs@.len() == kvs@.len() / 2,
            kvs@.len() % 2 == 0,
            forall|i: int|
                0 <= i < pairs@.len() ==> pairs@[i] == (kvs@[2 * i], kvs@[2 * i + 1]),
            assoc_pairs(entries(hm@), ks, 0) == assoc_pairs(entries(map@), ks, 2 * j),
        decreases pairs.len() - j,
    {
        proof {
            assert(pairs@[j as int] == (kvs@[2 * j], kvs@[2 * j + 1]));
            assert(ks[2 * j] == pairs@[j as int].0@);
            assert(ks[2 * j + 1] == pairs@[j as int].1@);
        }
        match wrap_map_key(&pairs[j].0) {
            Ok(k) => {
                put_entry(&mut map, k, pairs[j].1.clone());
            },
            Err(e) => {
                return Err(e);
            },
        }
        j += 1;
    }
    Ok(hash(map))
}

/// The map with the keys and values `kvs`, each key once.
pub fn hash_map(kvs: MalArgs) -> (r: MalRet)
    ensures
        ret_val(r) == assoc_spec(Seq::empty(), vals(kvs@)),
        all_well_keyed(vals(kvs@)) ==> ret_well_keyed(ret_val(r)),
{
    let hm: Vec<(String, MalVal)> = Vec::new();
    assert(entries(hm@) =~= Seq::empty());
    _assoc(hm, kvs)
}

/// The symbol named `s`.
pub fn sym(s: &str) -> (r: MalVal)
    ensures
        r@ == Val::Sym(s@),
{
    MalVal::Sym(s.to_string())
}

/// The list of `a` and `b`.
pub fn list2(a: MalVal, b: MalVal) -> (r: MalVal)
    ensures
        r@ == list_val(seq![a@, b@]),
{
    let mut v: Vec<MalVal> = Vec::new();
    v.push(a);
    v.push(b);
    assert(vals(v@) =~= seq![a@, b@]);
    list(v)
}

/// The list of `a`, `b` and `c`.
pub fn list3(a: MalVal, b: MalVal, c: MalVal) -> (r: MalVal)
    ensures
        r@ == list_val(seq![a@, b@, c@]),
{
    let mut v: Vec<MalVal> = Vec::new();
    v.push(a);
    v.push(b);
    v.push(c);
    assert(vals(v@) =~= seq![a@, b@, c@]);
    list(v)
}

/// The entries of a map; nothing for any other value.
pub open spec fn hash_of(v: Val) -> Option<Seq<(Seq<char>, Val)>> {
    match v {
        Val::Hash(items, _) => Some(items),
        _ => None,
    }
}

/// The metadata of a sequence, a map or a function; nothing for any other value.
pub open spec fn meta_of(v: Val) -> Option<Val> {
    match v {
        Val::List(_, m) => Some(*m),
        Val::Vector(_, m) => Some(*m),
        Val::Hash(_, m) => Some(*m),
        Val::Func(_, m) => Some(*m),
        Val::MalFunc(f) => Some(*f.meta),
        _ => None,
    }
}

/// `v` with the metadata `m`, where `v` is a sequence, a map or a function.
pub open spec fn with_meta_of(v: Val, m: Val) -> Option<Val> {
    match v {
        Val::List(items, _) => Some(Val::List(items, Box::new(m))),
        Val::Vector(items, _) => Some(Val::Vector(items, Box::new(m))),
        Val::Hash(items, _) => Some(Val::Hash(items, Box::new(m))),
        Val::Func(b, _) => Some(Val::Func(b, Box::new(m))),
        Val::MalFunc(f) => Some(
            Val::MalFunc(
                Closure {
                    ast: f.ast,
                    env: f.env,
                    params: f.params,
                    is_macro: f.is_macro,
                    meta: Box::new(m),
                },
            ),
        ),
        _ => None,
    }
}

/// Whether two sequences have the same length and equal items.
pub open spec fn seq_eq(a: Seq<Val>, b: Seq<Val>) -> bool
    decreases a,
{
    a.len() == b.len() && forall|i: int| 0 <= i < a.len() ==> val_eq(#[trigger] a[i], b[i])
}

/// Whether two values are equal. A list equals a vector of equal items.
/// Two maps are equal where they have as many entries and each key of the
/// first has an equal value in the second. Metadata does not count.
/// Functions and atoms equal nothing, not even themselves.
pub open spec fn val_eq(a: Val, b: Val) -> bool
    decreases a,
{
    match a {
        Val::Nil => b is Nil,
        Val::Bool(x) => b == Val::Bool(x),
        Val::Int(x) => b == Val::Int(x),
        Val::Float(x) => b == Val::Float(x),
        Val::Str(x) => b == Val::Str(x),
        Val::Sym(x) => b == Val::Sym(x),
        Val::Kwd(x) => b == Val::Kwd(x),
        Val::List(x, _) => seq_of(b) is Some && seq_eq(x, seq_of(b)->0),
        Val::Vector(x, _) => seq_of(b) is Some && seq_eq(x, seq_of(b)->0),
        Val::Hash(x, _) => hash_of(b) is Some && x.len() == hash_of(b)->0.len() && forall|i: int|
            0 <= i < x.len() ==> {
                let e = #[trigger] x[i];
                map_get(hash_of(b)->0, e.0) is Some && val_eq(e.1, map_get(hash_of(b)->0, e.0)->0)
            },
        _ => false,
    }
}

impl MalVal {
    /// The entries of a map.
    pub fn hash_entries(&self) -> (r: Option<&Vec<(String, MalVal)>>)
        ensures
            match r {
                Some(v) => hash_of(self@) == Some(entries(v@)),
                None => hash_of(self@) is None,
            },
    {
        match self {
            MalVal::Hash(items, meta) => {
                proof {
                    lemma_view_hash(*items, *meta);
                }
                Some(items)
            },
            _ => None,
        }
    }

    /// Whether `self` equals `other`.
    pub fn equals(&self, other: &MalVal) -> (r: bool)
        ensures
            r == val_eq(self@, other@),
        decreases self,
    {
        match self {
            MalVal::Nil => match other {
                MalVal::Nil => true,
                _ => false,
            },
            MalVal::Bool(x) => match other {
                MalVal::Bool(y) => *x == *y,
                _ => false,
            },
            MalVal::Int(x) => match other {
                MalVal::Int(y) => *x == *y,
                _ => false,
            },
            MalVal::Float(x) => match other {
                MalVal::Float(y) => text_eq(x.as_str(), y.as_str()),
                _ => false,
            },
            MalVal::Str(x) => match other {
                MalVal::Str(y) => text_eq(x.as_str(), y.as_str()),
                _ => false,
            },
            MalVal::Sym(x) => match other {
                MalVal::Sym(y) => text_eq(x.as_str(), y.as_str()),
                _ => false,
            },
            MalVal::Kwd(x) => match other {
                MalVal::Kwd(y) => text_eq(x.as_str(), y.as_str()),
                _ => false,
            },
            MalVal::List(x, m) => {
                proof {
                    lemma_view_list(*x, *m);
                }
                match other.items() {
                    Some(y) => items_equal(x, y),
                    None => false,
                }
            },
            MalVal::Vector(x, m) => {
                proof {
                    lemma_view_list(*x, *m);
                }
                match other.items() {
                    Some(y) => items_equal(x, y),
                    None => false,
                }
            },
            MalVal::Hash(x, m) => {
                proof {
                    lemma_view_hash(*x, *m);
                }
                match other.hash_entries() {
                    Some(y) => {
                        if x.len() != y.len() {
                            return false;
                        }
                        let mut i: usize = 0;
                        while i < x.len()
                            invariant
                                i <= x.len(),
                                x.len() == y.len(),
                                self@ is Hash,
                                hash_of(self@) == Some(entries(x@)),
                                hash_of(other@) == Some(entries(y@)),
                                forall|k: int|
                                    0 <= k < x@.len() ==> decreases_to!(*self => (#[trigger] x@[k]).1),
                                forall|k: int|
                                    0 <= k < i ==> {
                                        let e = #[trigger] entries(x@)[k];
                                        map_get(entries(y@), e.0) is Some && val_eq(
                                            e.1,
                                            map_get(entries(y@), e.0)->0,
                                        )
                                    },
                            decreases x.len() - i,
                        {
                            let j = find_key(y, x[i].0.as_str());
                            if j >= y.len() {
                                assert(map_get(entries(y@), entries(x@)[i as int].0) is None);
                                return false;
                            }
                            let mine = &x[i].1;
                            if !mine.equals(&y[j].1) {
                                assert(!val_eq(
                                    entries(x@)[i as int].1,
                                    map_get(entries(y@), entries(x@)[i as int].0)->0,
                                ));
                                return false;
                            }
                            i += 1;
                        }
                        true
                    },
                    None => false,
                }
            },
            _ => false,
        }
    }
}

/// Whether two sequences have the same length and equal items.
pub fn items_equal(x: &Vec<MalVal>, y: &Vec<MalVal>) -> (r: bool)
    ensures
        r == seq_eq(vals(x@), vals(y@)),
    decreases x,
{
    if x.len() != y.len() {
        return false;
    }
    let mut i: usize = 0;
    while i < x.len()
        invariant
            i <= x.len(),
            x.len() == y.len(),
            forall|k: int| 0 <= k < i ==> val_eq(#[trigger] vals(x@)[k], vals(y@)[k]),
        decreases x.len() - i,
    {
        if !x[i].equals(&y[i]) {
            assert(!val_eq(vals(x@)[i as int], vals(y@)[i as int]));
            return false;
        }
        i += 1;
    }
    true
}

} // verus!
