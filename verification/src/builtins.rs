//! The native functions that work on their arguments alone.

use vstd::prelude::*;
use crate::keys::{all_well_keyed, law_natives_keep_keys, ret_well_keyed};
use std::rc::Rc;
use crate::reader::{float_literal, is_float_literal, read_str, read_str_spec};
use crate::text::{int_literal, int_text, push_int};
use crate::types::{
    _assoc, assoc_spec, copy_range, entries, error, extend_from, failure, hash, hash_map,
    hash_of, hash_val, key_of, key_val, lemma_vals_add, lemma_vals_subrange, lemma_view_hash,
    lemma_view_list, list, list_val, map_del, map_get, meta_of, ret_val, seq_of, unwrap_map_key,
    val_eq, vals, vector, vector_val, with_meta_of, wrap_map_key, find_key, Builtin, FuncStruct,
    MalArgs, MalRet, MalVal, Val,
};

verus! {

/// The failure of a native function that was given too few arguments.
pub open spec fn wrong_args() -> Result<Val, Val> {
    failure("wrong number of arguments"@)
}

/// The least number of arguments that the native function `b` takes.
pub open spec fn min_args(b: Builtin) -> nat {
    match b {
        Builtin::PrStr | Builtin::ToStr | Builtin::ReadString | Builtin::Lt | Builtin::Le
        | Builtin::Gt | Builtin::Ge | Builtin::Add | Builtin::Sub | Builtin::Mul | Builtin::Div
        | Builtin::MakeList | Builtin::MakeVector | Builtin::MakeHashMap | Builtin::Concat => 0,
        Builtin::Equal | Builtin::Cons | Builtin::Nth | Builtin::MapOver | Builtin::WithMeta => 2,
        _ => 1,
    }
}

/// What the type test `b` says of `v`.
pub open spec fn type_test(b: Builtin, v: Val) -> bool {
    match b {
        Builtin::IsNil => v is Nil,
        Builtin::IsTrue => v == Val::Bool(true),
        Builtin::IsFalse => v == Val::Bool(false),
        Builtin::IsSymbol => v is Sym,
        Builtin::IsString => v is Str,
        Builtin::IsKeyword => v is Kwd,
        Builtin::IsNumber => v is Int,
        Builtin::IsInt => v is Int,
        Builtin::IsFloat => v is Float,
        Builtin::IsFn => match v {
            Val::MalFunc(f) => !f.is_macro,
            Val::Func(_, _) => true,
            _ => false,
        },
        Builtin::IsMacro => match v {
            Val::MalFunc(f) => f.is_macro,
            _ => false,
        },
        Builtin::IsSequential => v is List || v is Vector,
        Builtin::IsList => v is List,
        Builtin::IsVector => v is Vector,
        Builtin::IsMap => v is Hash,
        Builtin::IsAtom => v is Atom,
        _ => false,
    }
}

/// Whether `b` is a type test.
pub open spec fn is_type_test(b: Builtin) -> bool {
    match b {
        Builtin::IsNil | Builtin::IsTrue | Builtin::IsFalse | Builtin::IsSymbol
        | Builtin::IsString | Builtin::IsKeyword | Builtin::IsNumber | Builtin::IsInt
        | Builtin::IsFloat | Builtin::IsFn | Builtin::IsMacro | Builtin::IsSequential
        | Builtin::IsList | Builtin::IsVector | Builtin::IsMap | Builtin::IsAtom => true,
        _ => false,
    }
}

fn type_test_of(b: Builtin, v: &MalVal) -> (r: bool)
    ensures
        r == type_test(b, v@),
{
    match b {
        Builtin::IsNil => matches!(v, MalVal::Nil),
        Builtin::IsTrue => matches!(v, MalVal::Bool(true)),
        Builtin::IsFalse => matches!(v, MalVal::Bool(false)),
        Builtin::IsSymbol => matches!(v, MalVal::Sym(_)),
        Builtin::IsString => matches!(v, MalVal::Str(_)),
        Builtin::IsKeyword => matches!(v, MalVal::Kwd(_)),
        Builtin::IsNumber => matches!(v, MalVal::Int(_)),
        Builtin::IsInt => matches!(v, MalVal::Int(_)),
        Builtin::IsFloat => matches!(v, MalVal::Float(_)),
        Builtin::IsFn => match v {
            MalVal::MalFunc(f) => !f.is_macro,
            MalVal::Func(_, _) => true,
            _ => false,
        },
        Builtin::IsMacro => match v {
            MalVal::MalFunc(f) => f.is_macro,
            _ => false,
        },
        Builtin::IsSequential => matches!(v, MalVal::List(_, _)) || matches!(
            v,
            MalVal::Vector(_, _)
        ),
        Builtin::IsList => matches!(v, MalVal::List(_, _)),
        Builtin::IsVector => matches!(v, MalVal::Vector(_, _)),
        Builtin::IsMap => matches!(v, MalVal::Hash(_, _)),
        Builtin::IsAtom => matches!(v, MalVal::Atom(_)),
        _ => false,
    }
}

/// The quotient of `x` by `y`, rounded toward zero.
pub open spec fn quotient(x: int, y: int) -> int {
    if x == 0 {
        0
    } else if x > 0 && y > 0 {
        x / y
    } else if x < 0 && y < 0 {
        (x * -1) / (y * -1)
    } else if x < 0 {
        ((x * -1) / y) * -1
    } else {
        (x / (y * -1)) * -1
    }
}

/// What an operation on two integers gives: a comparison a truth value,
/// arithmetic a number, or a failure where the result leaves the 64-bit
/// range or the divisor is zero.
pub open spec fn int_op(b: Builtin, x: i64, y: i64) -> Result<Val, Val> {
    match b {
        Builtin::Lt => Ok(Val::Bool(x < y)),
        Builtin::Le => Ok(Val::Bool(x <= y)),
        Builtin::Gt => Ok(Val::Bool(x > y)),
        Builtin::Ge => Ok(Val::Bool(x >= y)),
        Builtin::Add => if i64::MIN <= x + y <= i64::MAX {
            Ok(Val::Int((x + y) as i64))
        } else {
            failure("integer overflow"@)
        },
        Builtin::Sub => if i64::MIN <= x - y <= i64::MAX {
            Ok(Val::Int((x - y) as i64))
        } else {
            failure("integer overflow"@)
        },
        Builtin::Mul => if i64::MIN <= x * y <= i64::MAX {
            Ok(Val::Int((x * y) as i64))
        } else {
            failure("integer overflow"@)
        },
        _ => if y == 0 {
            failure("division by zero"@)
        } else if i64::MIN <= quotient(x as int, y as int) <= i64::MAX {
            Ok(Val::Int(quotient(x as int, y as int) as i64))
        } else {
            failure("integer overflow"@)
        },
    }
}

/// Whether `b` works on two integers.
pub open spec fn is_int_op(b: Builtin) -> bool {
    match b {
        Builtin::Lt | Builtin::Le | Builtin::Gt | Builtin::Ge | Builtin::Add | Builtin::Sub
        | Builtin::Mul | Builtin::Div => true,
        _ => false,
    }
}

/// What the operation `b` on two integers gives for the arguments `a`.
pub open spec fn int_op_spec(b: Builtin, a: Seq<Val>) -> Result<Val, Val> {
    if a.len() != 2 {
        failure("expecting exactly 2 args"@)
    } else {
        match (a[0], a[1]) {
            (Val::Int(x), Val::Int(y)) => int_op(b, x, y),
            _ => failure("expecting (int,int) args"@),
        }
    }
}

fn int_op_of(b: Builtin, a: MalArgs) -> (r: MalRet)
    requires
        is_int_op(b),
    ensures
        ret_val(r) == int_op_spec(b, vals(a@)),
{
    if a.len() != 2 {
        return error("expecting exactly 2 args");
    }
    match (&a[0], &a[1]) {
        (MalVal::Int(x), MalVal::Int(y)) => {
            let x = *x;
            let y = *y;
            match b {
                Builtin::Lt => Ok(MalVal::Bool(x < y)),
                Builtin::Le => Ok(MalVal::Bool(x <= y)),
                Builtin::Gt => Ok(MalVal::Bool(x > y)),
                Builtin::Ge => Ok(MalVal::Bool(x >= y)),
                Builtin::Add => match x.checked_add(y) {
                    Some(z) => Ok(MalVal::Int(z)),
                    None => error("integer overflow"),
                },
                Builtin::Sub => match x.checked_sub(y) {
                    Some(z) => Ok(MalVal::Int(z)),
                    None => error("integer overflow"),
                },
                Builtin::Mul => match x.checked_mul(y) {
                    Some(z) => Ok(MalVal::Int(z)),
                    None => error("integer overflow"),
                },
                _ => {
                    if y == 0 {
                        error("division by zero")
                    } else {
                        match x.checked_div(y) {
                            Some(z) => Ok(MalVal::Int(z)),
                            None => error("integer overflow"),
                        }
                    }
                },
            }
        },
        _ => error("expecting (int,int) args"),
    }
}

/// Divides two integers; fails on a zero divisor.
pub fn divide(a: MalArgs) -> (r: MalRet)
    ensures
        ret_val(r) == int_op_spec(Builtin::Div, vals(a@)),
{
    int_op_of(Builtin::Div, a)
}

pub open spec fn symbol_spec(a: Seq<Val>) -> Result<Val, Val> {
    match a[0] {
        Val::Str(s) => Ok(Val::Sym(s)),
        _ => failure("illegal symbol call"@),
    }
}

fn symbol(a: MalArgs) -> (r: MalRet)
    requires
        a.len() >= 1,
    ensures
        ret_val(r) == symbol_spec(vals(a@)),
{
    match &a[0] {
        MalVal::Str(s) => Ok(MalVal::Sym(s.clone())),
        _ => error("illegal symbol call"),
    }
}

pub open spec fn keyword_spec(a: Seq<Val>) -> Result<Val, Val> {
    match a[0] {
        Val::Kwd(s) => Ok(a[0]),
        Val::Str(s) => Ok(Val::Kwd(s)),
        _ => failure("invalid type for keyword"@),
    }
}

fn keyword(a: MalArgs) -> (r: MalRet)
    requires
        a.len() >= 1,
    ensures
        ret_val(r) == keyword_spec(vals(a@)),
{
    match &a[0] {
        MalVal::Kwd(_) => Ok(a[0].clone()),
        MalVal::Str(s) => Ok(MalVal::Kwd(s.clone())),
        _ => error("invalid type for keyword"),
    }
}

pub open spec fn read_string_spec(a: Seq<Val>) -> Result<Val, Val> {
    if a.len() != 1 {
        failure("expecting exactly 1 arg"@)
    } else {
        match a[0] {
            Val::Str(s) => read_str_spec(s),
            _ => failure("expecting (str) arg"@),
        }
    }
}

fn read_string(a: MalArgs) -> (r: MalRet)
    ensures
        ret_val(r) == read_string_spec(vals(a@)),
{
    if a.len() != 1 {
        return error("expecting exactly 1 arg");
    }
    match &a[0] {
        MalVal::Str(s) => read_str(s.as_str()),
        _ => error("expecting (str) arg"),
    }
}

pub open spec fn to_float_spec(a: Seq<Val>) -> Result<Val, Val> {
    match a[0] {
        Val::Int(i) => Ok(Val::Float(int_text(i as int))),
        Val::Float(s) => Ok(a[0]),
        _ => failure("float: invalid argument"@),
    }
}

fn to_float(a: MalArgs) -> (r: MalRet)
    requires
        a.len() >= 1,
    ensures
        ret_val(r) == to_float_spec(vals(a@)),
{
    match &a[0] {
        MalVal::Int(i) => {
            let mut s = String::new();
            push_int(&mut s, *i);
            assert(s@ =~= int_text(*i as int));
            Ok(MalVal::Float(s))
        },
        MalVal::Float(_) => Ok(a[0].clone()),
        _ => error("float: invalid argument"),
    }
}

/// Where the first point of `s` stands, from `i` on; the length of `s` where there is none.
pub open spec fn dot_index(s: Seq<char>, i: int) -> int
    decreases s.len() - i,
{
    if i < 0 || i >= s.len() {
        s.len() as int
    } else if s[i] == '.' {
        i
    } else {
        dot_index(s, i + 1)
    }
}

/// The integer that a float's text is cut down to: what stands before
/// its point, which is 0 where no digit stands there, and the nearest
/// integer of 64 bits where it is beyond their range. A text that
/// writes no decimal number fails.
pub open spec fn float_to_int(s: Seq<char>) -> Result<Val, Val> {
    if !is_float_literal(s) {
        failure("int: invalid argument"@)
    } else {
        let p = s.take(dot_index(s, 0));
        if p.len() == 0 || (p.len() == 1 && p[0] == '-') {
            Ok(Val::Int(0))
        } else {
            match int_literal(p) {
                Some(i) => Ok(Val::Int(i)),
                None => if p[0] == '-' {
                    Ok(Val::Int(i64::MIN))
                } else {
                    Ok(Val::Int(i64::MAX))
                },
            }
        }
    }
}

pub open spec fn to_int_spec(a: Seq<Val>) -> Result<Val, Val> {
    match a[0] {
        Val::Int(i) => Ok(a[0]),
        Val::Float(s) => float_to_int(s),
        _ => failure("int: invalid argument"@),
    }
}

/// Cuts a float's text down to an integer.
pub fn int_of_float(s: &str) -> (r: MalRet)
    ensures
        ret_val(r) == float_to_int(s@),
{
    let cs = crate::text::chars_of(s);
    if !float_literal(&cs) {
        return error("int: invalid argument");
    }
    let mut p: Vec<char> = Vec::new();
    let mut d: usize = 0;
    while d < cs.len() && cs[d] != '.'
        invariant
            d <= cs.len(),
            dot_index(cs@, 0) == dot_index(cs@, d as int),
            p@ == cs@.take(d as int),
        decreases cs.len() - d,
    {
        p.push(cs[d]);
        assert(p@ =~= cs@.take(d + 1));
        d += 1;
    }
    if p.len() == 0 || (p.len() == 1 && p[0] == '-') {
        return Ok(MalVal::Int(0));
    }
    match crate::text::parse_int(&p) {
        Some(i) => Ok(MalVal::Int(i)),
        None => {
            if p[0] == '-' {
                Ok(MalVal::Int(i64::MIN))
            } else {
                Ok(MalVal::Int(i64::MAX))
            }
        },
    }
}

fn to_int(a: MalArgs) -> (r: MalRet)
    requires
        a.len() >= 1,
    ensures
        ret_val(r) == to_int_spec(vals(a@)),
{
    match &a[0] {
        MalVal::Int(_) => Ok(a[0].clone()),
        MalVal::Float(s) => int_of_float(s.as_str()),
        _ => error("int: invalid argument"),
    }
}

pub open spec fn assoc_native_spec(a: Seq<Val>) -> Result<Val, Val> {
    match hash_of(a[0]) {
        Some(m) => assoc_spec(m, a.skip(1)),
        None => failure("assoc on non-Hash Map"@),
    }
}

/// A copy of the entries `items`.
fn copy_entries(items: &Vec<(String, MalVal)>) -> (r: Vec<(String, MalVal)>)
    ensures
        r@ == items@,
{
    let mut r: Vec<(String, MalVal)> = Vec::new();
    let mut i: usize = 0;
    while i < items.len()
        invariant
            i <= items.len(),
            r@ == items@.take(i as int),
        decreases items.len() - i,
    {
        r.push((items[i].0.clone(), items[i].1.clone()));
        i += 1;
    }
    r
}

fn assoc(a: MalArgs) -> (r: MalRet)
    requires
        a.len() >= 1,
    ensures
        ret_val(r) == assoc_native_spec(vals(a@)),
{
    match a[0].hash_entries() {
        Some(hm) => {
            let rest = copy_range(&a, 1, a.len());
            proof {
                lemma_vals_subrange(a@, 1, a@.len() as int);
                assert(vals(a@).subrange(1, a@.len() as int) =~= vals(a@).skip(1));
            }
            _assoc(copy_entries(hm), rest)
        },
        None => error("assoc on non-Hash Map"),
    }
}

/// The map `m` without the keys `a[i..]`.
pub open spec fn dissoc_keys(m: Seq<(Seq<char>, Val)>, a: Seq<Val>, i: int) -> Result<
    Seq<(Seq<char>, Val)>,
    Val,
>
    decreases a.len() - i,
{
    if i < 0 || i >= a.len() {
        Ok(m)
    } else {
        match key_of(a[i]) {
            Ok(k) => dissoc_keys(map_del(m, k, m.len()), a, i + 1),
            Err(e) => Err(e),
        }
    }
}

pub open spec fn dissoc_spec(a: Seq<Val>) -> Result<Val, Val> {
    match hash_of(a[0]) {
        Some(m) => match dissoc_keys(m, a, 1) {
            Ok(r) => Ok(hash_val(r)),
            Err(e) => Err(e),
        },
        None => failure("dissoc on non-Hash Map"@),
    }
}

/// The entries `items` without those whose key is `k`.
fn without_key(items: &Vec<(String, MalVal)>, k: &str) -> (r: Vec<(String, MalVal)>)
    ensures
        entries(r@) == map_del(entries(items@), k@, items@.len()),
{
    let mut r: Vec<(String, MalVal)> = Vec::new();
    let mut i: usize = 0;
    assert(entries(r@) =~= map_del(entries(items@), k@, 0));
    while i < items.len()
        invariant
            i <= items.len(),
            entries(r@) == map_del(entries(items@), k@, i as nat),
        decreases items.len() - i,
    {
        let ghost before = entries(r@);
        if !crate::text::text_eq(items[i].0.as_str(), k) {
            r.push((items[i].0.clone(), items[i].1.clone()));
            assert(entries(r@) =~= before.push(entries(items@)[i as int]));
        }
        i += 1;
    }
    r
}

fn dissoc(a: MalArgs) -> (r: MalRet)
    requires
        a.len() >= 1,
    ensures
        ret_val(r) == dissoc_spec(vals(a@)),
{
    match a[0].hash_entries() {
        Some(hm) => {
            let mut new_hm = copy_entries(hm);
            let mut i: usize = 1;
            while i < a.len()
                invariant
                    1 <= i <= a.len(),
                    hash_of(vals(a@)[0]) == Some(entries(hm@)),
                    dissoc_keys(entries(hm@), vals(a@), 1) == dissoc_keys(
                        entries(new_hm@),
                        vals(a@),
                        i as int,
                    ),
                decreases a.len() - i,
            {
                match wrap_map_key(&a[i]) {
                    Ok(k) => {
                        new_hm = without_key(&new_hm, k.as_str());
                    },
                    Err(e) => {
                        return Err(e);
                    },
                }
                i += 1;
            }
            Ok(hash(new_hm))
        },
        None => error("dissoc on non-Hash Map"),
    }
}

pub open spec fn get_spec(a: Seq<Val>) -> Result<Val, Val> {
    match a[0] {
        Val::Nil => Ok(Val::Nil),
        Val::Hash(m, _) => if a.len() < 2 {
            wrong_args()
        } else {
            match key_of(a[1]) {
                Ok(k) => match map_get(m, k) {
                    Some(v) => Ok(v),
                    None => Ok(Val::Nil),
                },
                Err(e) => Err(e),
            }
        },
        _ => failure("illegal get args"@),
    }
}

fn get(a: MalArgs) -> (r: MalRet)
    requires
        a.len() >= 1,
    ensures
        ret_val(r) == get_spec(vals(a@)),
{
    match &a[0] {
        MalVal::Nil => Ok(MalVal::Nil),
        MalVal::Hash(hm, meta) => {
            proof {
                lemma_view_hash(*hm, *meta);
            }
            if a.len() < 2 {
                return error("wrong number of arguments");
            }
            match wrap_map_key(&a[1]) {
                Ok(k) => {
                    let i = find_key(hm, k.as_str());
                    if i < hm.len() {
                        Ok(hm[i].1.clone())
                    } else {
                        Ok(MalVal::Nil)
                    }
                },
                Err(e) => Err(e),
            }
        },
        _ => error("illegal get args"),
    }
}

pub open spec fn contains_spec(a: Seq<Val>) -> Result<Val, Val> {
    match hash_of(a[0]) {
        Some(m) => if a.len() < 2 {
            wrong_args()
        } else {
            match key_of(a[1]) {
                Ok(k) => Ok(Val::Bool(map_get(m, k) is Some)),
                Err(e) => Err(e),
            }
        },
        None => failure("illegal get args"@),
    }
}

fn contains_q(a: MalArgs) -> (r: MalRet)
    requires
        a.len() >= 1,
    ensures
        ret_val(r) == contains_spec(vals(a@)),
{
    match a[0].hash_entries() {
        Some(hm) => {
            if a.len() < 2 {
                return error("wrong number of arguments");
            }
            match wrap_map_key(&a[1]) {
                Ok(k) => {
                    let i = find_key(hm, k.as_str());
                    Ok(MalVal::Bool(i < hm.len()))
                },
                Err(e) => Err(e),
            }
        },
        None => error("illegal get args"),
    }
}

pub open spec fn keys_spec(a: Seq<Val>) -> Result<Val, Val> {
    match hash_of(a[0]) {
        Some(m) => Ok(list_val(Seq::new(m.len(), |i: int| key_val(m[i].0)))),
        None => failure("keys requires Hash Map"@),
    }
}

fn keys(a: MalArgs) -> (r: MalRet)
    requires
        a.len() >= 1,
    ensures
        ret_val(r) == keys_spec(vals(a@)),
{
    match a[0].hash_entries() {
        Some(hm) => {
            let mut out: Vec<MalVal> = Vec::new();
            let mut i: usize = 0;
            while i < hm.len()
                invariant
                    i <= hm.len(),
                    out@.len() == i,
                    forall|j: int| 0 <= j < i ==> (#[trigger] out@[j])@ == key_val(hm@[j].0@),
                decreases hm.len() - i,
            {
                out.push(unwrap_map_key(hm[i].0.as_str()));
                i += 1;
            }
            assert(vals(out@) =~= Seq::new(
                entries(hm@).len(),
                |i: int| key_val(entries(hm@)[i].0),
            ));
            Ok(list(out))
        },
        None => error("keys requires Hash Map"),
    }
}

pub open spec fn vals_spec(a: Seq<Val>) -> Result<Val, Val> {
    match hash_of(a[0]) {
        Some(m) => Ok(list_val(Seq::new(m.len(), |i: int| m[i].1))),
        None => failure("vals requires Hash Map"@),
    }
}

fn vals_of(a: MalArgs) -> (r: MalRet)
    requires
        a.len() >= 1,
    ensures
        ret_val(r) == vals_spec(vals(a@)),
{
    match a[0].hash_entries() {
        Some(hm) => {
            let mut out: Vec<MalVal> = Vec::new();
            let mut i: usize = 0;
            while i < hm.len()
                invariant
                    i <= hm.len(),
                    out@.len() == i,
                    forall|j: int| 0 <= j < i ==> #[trigger] out@[j] == hm@[j].1,
                decreases hm.len() - i,
            {
                out.push(hm[i].1.clone());
                i += 1;
            }
            assert(vals(out@) =~= Seq::new(entries(hm@).len(), |i: int| entries(hm@)[i].1));
            Ok(list(out))
        },
        None => error("vals requires Hash Map"),
    }
}

pub open spec fn vec_spec(a: Seq<Val>) -> Result<Val, Val> {
    match a[0] {
        Val::List(v, _) => Ok(vector_val(v)),
        Val::Vector(_, _) => Ok(a[0]),
        _ => failure("non-seq passed to vec"@),
    }
}

fn vec(a: MalArgs) -> (r: MalRet)
    requires
        a.len() >= 1,
    ensures
        ret_val(r) == vec_spec(vals(a@)),
{
    match &a[0] {
        MalVal::List(v, m) => {
            let meta = Rc::new(MalVal::Nil);
            proof {
                lemma_view_list(*v, *m);
                lemma_view_list(*v, meta);
            }
            Ok(MalVal::Vector(Rc::clone(v), meta))
        },
        MalVal::Vector(_, _) => Ok(a[0].clone()),
        _ => error("non-seq passed to vec"),
    }
}

pub open spec fn cons_spec(a: Seq<Val>) -> Result<Val, Val> {
    match seq_of(a[1]) {
        Some(v) => Ok(list_val(seq![a[0]] + v)),
        None => failure("cons expects seq as second arg"@),
    }
}

fn cons(a: MalArgs) -> (r: MalRet)
    requires
        a.len() >= 2,
    ensures
        ret_val(r) == cons_spec(vals(a@)),
{
    match a[1].items() {
        Some(v) => {
            let mut new_v: Vec<MalVal> = Vec::new();
            new_v.push(a[0].clone());
            extend_from(&mut new_v, v);
            assert(vals(new_v@) =~= seq![a@[0]@] + vals(v@));
            Ok(list(new_v))
        },
        None => error("cons expects seq as second arg"),
    }
}

/// The items of the sequences `a[i..]`, one after the other, behind `acc`.
pub open spec fn concat_from(a: Seq<Val>, i: int, acc: Seq<Val>) -> Result<Val, Val>
    decreases a.len() - i,
{
    if i < 0 || i >= a.len() {
        Ok(list_val(acc))
    } else {
        match seq_of(a[i]) {
            Some(v) => concat_from(a, i + 1, acc + v),
            None => failure("non-seq passed to concat"@),
        }
    }
}

pub open spec fn concat_spec(a: Seq<Val>) -> Result<Val, Val> {
    concat_from(a, 0, Seq::empty())
}

fn concat(a: MalArgs) -> (r: MalRet)
    ensures
        ret_val(r) == concat_spec(vals(a@)),
{
    let mut new_v: Vec<MalVal> = Vec::new();
    let mut i: usize = 0;
    assert(vals(new_v@) =~= Seq::empty());
    while i < a.len()
        invariant
            i <= a.len(),
            concat_spec(vals(a@)) == concat_from(vals(a@), i as int, vals(new_v@)),
        decreases a.len() - i,
    {
        match a[i].items() {
            Some(v) => {
                proof {
                    lemma_vals_add(new_v@, v@);
                }
                extend_from(&mut new_v, v);
            },
            None => {
                return error("non-seq passed to concat");
            },
        }
        i += 1;
    }
    Ok(list(new_v))
}

pub open spec fn empty_spec(a: Seq<Val>) -> Result<Val, Val> {
    if a.len() < 1 {
        wrong_args()
    } else {
        match a[0] {
            Val::List(l, _) => Ok(Val::Bool(l.len() == 0)),
            Val::Vector(l, _) => Ok(Val::Bool(l.len() == 0)),
            Val::Nil => Ok(Val::Bool(true)),
            _ => failure("invalid type for empty?"@),
        }
    }
}

/// Whether the first argument is an empty sequence or `nil`; fails without an argument.
pub fn empty_q(a: MalArgs) -> (r: MalRet)
    ensures
        ret_val(r) == empty_spec(vals(a@)),
{
    if a.len() < 1 {
        return error("wrong number of arguments");
    }
    match a[0].items() {
        Some(l) => Ok(MalVal::Bool(l.len() == 0)),
        None => match &a[0] {
            MalVal::Nil => Ok(MalVal::Bool(true)),
            _ => error("invalid type for empty?"),
        },
    }
}

/// The length `n` of a sequence as a value; a failure where it exceeds the 64-bit range.
pub open spec fn length_val(n: nat) -> Result<Val, Val> {
    if n <= i64::MAX {
        Ok(Val::Int(n as i64))
    } else {
        failure("count out of range"@)
    }
}

pub open spec fn count_spec(a: Seq<Val>) -> Result<Val, Val> {
    if a.len() < 1 {
        wrong_args()
    } else {
        match a[0] {
            Val::List(l, _) => length_val(l.len()),
            Val::Vector(l, _) => length_val(l.len()),
            Val::Nil => Ok(Val::Int(0)),
            _ => failure("invalid type for count"@),
        }
    }
}

/// The number of items of the first argument, a sequence or `nil`; fails without an argument.
pub fn count(a: MalArgs) -> (r: MalRet)
    ensures
        ret_val(r) == count_spec(vals(a@)),
{
    if a.len() < 1 {
        return error("wrong number of arguments");
    }
    match a[0].items() {
        Some(l) => {
            if (l.len() as u64) <= 0x7fff_ffff_ffff_ffff {
                Ok(MalVal::Int(l.len() as i64))
            } else {
                error("count out of range")
            }
        },
        None => match &a[0] {
            MalVal::Nil => Ok(MalVal::Int(0)),
            _ => error("invalid type for count"),
        },
    }
}

pub open spec fn nth_spec(a: Seq<Val>) -> Result<Val, Val> {
    match (seq_of(a[0]), a[1]) {
        (Some(v), Val::Int(idx)) => if 0 <= idx < v.len() {
            Ok(v[idx as int])
        } else {
            failure("nth: index out of range"@)
        },
        _ => failure("invalid args to nth"@),
    }
}

fn nth(a: MalArgs) -> (r: MalRet)
    requires
        a.len() >= 2,
    ensures
        ret_val(r) == nth_spec(vals(a@)),
{
    match (a[0].items(), &a[1]) {
        (Some(v), MalVal::Int(idx)) => {
            if 0 <= *idx && (*idx as u64) < (v.len() as u64) {
                Ok(v[*idx as usize].clone())
            } else {
                error("nth: index out of range")
            }
        },
        _ => error("invalid args to nth"),
    }
}

pub open spec fn first_spec(a: Seq<Val>) -> Result<Val, Val> {
    match seq_of(a[0]) {
        Some(v) => if v.len() > 0 {
            Ok(v[0])
        } else {
            Ok(Val::Nil)
        },
        None => if a[0] is Nil {
            Ok(Val::Nil)
        } else {
            failure("invalid args to first"@)
        },
    }
}

fn first(a: MalArgs) -> (r: MalRet)
    requires
        a.len() >= 1,
    ensures
        ret_val(r) == first_spec(vals(a@)),
{
    match a[0].items() {
        Some(v) => {
            if v.len() > 0 {
                Ok(v[0].clone())
            } else {
                Ok(MalVal::Nil)
            }
        },
        None => match &a[0] {
            MalVal::Nil => Ok(MalVal::Nil),
            _ => error("invalid args to first"),
        },
    }
}

pub open spec fn rest_spec(a: Seq<Val>) -> Result<Val, Val> {
    match seq_of(a[0]) {
        Some(v) => if v.len() > 1 {
            Ok(list_val(v.skip(1)))
        } else {
            Ok(list_val(Seq::empty()))
        },
        None => if a[0] is Nil {
            Ok(list_val(Seq::empty()))
        } else {
            failure("invalid args to first"@)
        },
    }
}

/// The empty list.
pub fn empty_list() -> (r: MalVal)
    ensures
        r@ == list_val(Seq::empty()),
{
    let v: Vec<MalVal> = Vec::new();
    assert(vals(v@) =~= Seq::empty());
    list(v)
}

fn rest(a: MalArgs) -> (r: MalRet)
    requires
        a.len() >= 1,
    ensures
        ret_val(r) == rest_spec(vals(a@)),
{
    match a[0].items() {
        Some(v) => {
            if v.len() > 1 {
                let tail = copy_range(v, 1, v.len());
                proof {
                    lemma_vals_subrange(v@, 1, v@.len() as int);
                    assert(vals(v@).subrange(1, v@.len() as int) =~= vals(v@).skip(1));
                }
                Ok(list(tail))
            } else {
                Ok(empty_list())
            }
        },
        None => match &a[0] {
            MalVal::Nil => Ok(empty_list()),
            _ => error("invalid args to first"),
        },
    }
}

pub open spec fn conj_spec(a: Seq<Val>) -> Result<Val, Val> {
    match a[0] {
        Val::List(v, _) => Ok(list_val(a.skip(1).reverse() + v)),
        Val::Vector(v, _) => Ok(vector_val(v + a.skip(1))),
        _ => failure("conj: called with non-seq"@),
    }
}

fn conj(a: MalArgs) -> (r: MalRet)
    requires
        a.len() >= 1,
    ensures
        ret_val(r) == conj_spec(vals(a@)),
{
    match &a[0] {
        MalVal::List(v, m) => {
            proof {
                lemma_view_list(*v, *m);
            }
            let mut out: Vec<MalVal> = Vec::new();
            let mut i: usize = a.len();
            while i > 1
                invariant
                    1 <= i <= a.len(),
                    out@.len() == a.len() - i,
                    forall|j: int| 0 <= j < out@.len() ==> #[trigger] out@[j] == a@[a.len() - 1 - j],
                decreases i,
            {
                i -= 1;
                out.push(a[i].clone());
            }
            assert(vals(out@) =~= vals(a@).skip(1).reverse());
            proof {
                lemma_vals_add(out@, v@);
            }
            extend_from(&mut out, v);
            Ok(list(out))
        },
        MalVal::Vector(v, m) => {
            proof {
                lemma_view_list(*v, *m);
            }
            let mut out: Vec<MalVal> = Vec::new();
            extend_from(&mut out, v);
            let tail = copy_range(&a, 1, a.len());
            extend_from(&mut out, &tail);
            assert(vals(out@) =~= vals(v@) + vals(a@).skip(1));
            Ok(vector(out))
        },
        _ => error("conj: called with non-seq"),
    }
}

pub open spec fn seq_spec(a: Seq<Val>) -> Result<Val, Val> {
    match a[0] {
        Val::List(v, _) => if v.len() > 0 {
            Ok(a[0])
        } else {
            Ok(Val::Nil)
        },
        Val::Vector(v, _) => if v.len() > 0 {
            Ok(list_val(v))
        } else {
            Ok(Val::Nil)
        },
        Val::Str(s) => if s.len() > 0 {
            Ok(list_val(Seq::new(s.len(), |i: int| Val::Str(seq![s[i]]))))
        } else {
            Ok(Val::Nil)
        },
        Val::Nil => Ok(Val::Nil),
        _ => failure("seq: called with non-seq"@),
    }
}

fn seq(a: MalArgs) -> (r: MalRet)
    requires
        a.len() >= 1,
    ensures
        ret_val(r) == seq_spec(vals(a@)),
{
    match &a[0] {
        MalVal::List(v, m) => {
            proof {
                lemma_view_list(*v, *m);
            }
            if v.len() > 0 {
                Ok(a[0].clone())
            } else {
                Ok(MalVal::Nil)
            }
        },
        MalVal::Vector(v, m) => {
            proof {
                lemma_view_list(*v, *m);
            }
            if v.len() > 0 {
                let items = copy_range(v, 0, v.len());
                assert(items@ =~= v@);
                Ok(list(items))
            } else {
                Ok(MalVal::Nil)
            }
        },
        MalVal::Str(s) => {
            let cs = crate::text::chars_of(s.as_str());
            if cs.len() > 0 {
                let mut out: Vec<MalVal> = Vec::new();
                let mut i: usize = 0;
                while i < cs.len()
                    invariant
                        i <= cs.len(),
                        out@.len() == i,
                        forall|j: int|
                            0 <= j < i ==> (#[trigger] out@[j])@ == Val::Str(seq![cs@[j]]),
                    decreases cs.len() - i,
                {
                    let mut one = String::new();
                    crate::text::push_char(&mut one, cs[i]);
                    assert(one@ =~= seq![cs@[i as int]]);
                    out.push(MalVal::Str(one));
                    i += 1;
                }
                assert(vals(out@) =~= Seq::new(s@.len(), |i: int| Val::Str(seq![s@[i]])));
                Ok(list(out))
            } else {
                Ok(MalVal::Nil)
            }
        },
        MalVal::Nil => Ok(MalVal::Nil),
        _ => error("seq: called with non-seq"),
    }
}

pub open spec fn get_meta_spec(a: Seq<Val>) -> Result<Val, Val> {
    if a.len() < 1 {
        wrong_args()
    } else {
        match meta_of(a[0]) {
            Some(m) => Ok(m),
            None => failure("meta not supported by type"@),
        }
    }
}

/// The metadata of the first argument; fails without an argument.
pub fn get_meta(a: MalArgs) -> (r: MalRet)
    ensures
        ret_val(r) == get_meta_spec(vals(a@)),
{
    if a.len() < 1 {
        return error("wrong number of arguments");
    }
    match &a[0] {
        MalVal::List(_, meta) => Ok((**meta).clone()),
        MalVal::Vector(_, meta) => Ok((**meta).clone()),
        MalVal::Hash(_, meta) => Ok((**meta).clone()),
        MalVal::Func(_, meta) => Ok((**meta).clone()),
        MalVal::MalFunc(f) => Ok((*f.meta).clone()),
        _ => error("meta not supported by type"),
    }
}

pub open spec fn with_meta_spec(a: Seq<Val>) -> Result<Val, Val> {
    if a.len() < 2 {
        wrong_args()
    } else {
        match with_meta_of(a[0], a[1]) {
            Some(v) => Ok(v),
            None => failure("with-meta not supported by type"@),
        }
    }
}

/// The first argument with the second as its metadata; fails on fewer than two arguments.
pub fn with_meta(a: MalArgs) -> (r: MalRet)
    ensures
        ret_val(r) == with_meta_spec(vals(a@)),
{
    if a.len() < 2 {
        return error("wrong number of arguments");
    }
    let m = Rc::new(a[1].clone());
    match &a[0] {
        MalVal::List(l, old_meta) => {
            proof {
                lemma_view_list(*l, *old_meta);
                lemma_view_list(*l, m);
            }
            Ok(MalVal::List(Rc::clone(l), m))
        },
        MalVal::Vector(l, old_meta) => {
            proof {
                lemma_view_list(*l, *old_meta);
                lemma_view_list(*l, m);
            }
            Ok(MalVal::Vector(Rc::clone(l), m))
        },
        MalVal::Hash(l, old_meta) => {
            proof {
                lemma_view_hash(*l, *old_meta);
                lemma_view_hash(*l, m);
            }
            Ok(MalVal::Hash(Rc::clone(l), m))
        },
        MalVal::Func(l, _) => Ok(MalVal::Func(*l, m)),
        MalVal::MalFunc(f) => Ok(
            MalVal::MalFunc(
                FuncStruct {
                    ast: Rc::clone(&f.ast),
                    env: f.env,
                    params: Rc::clone(&f.params),
                    is_macro: f.is_macro,
                    meta: m,
                },
            ),
        ),
        _ => error("with-meta not supported by type"),
    }
}

/// What the native function `b` gives for the arguments `a`, where it
/// neither reads the store nor calls a function.
pub open spec fn pure_native(b: Builtin, a: Seq<Val>) -> Result<Val, Val> {
    if a.len() < min_args(b) {
        wrong_args()
    } else if is_type_test(b) {
        Ok(Val::Bool(type_test(b, a[0])))
    } else if is_int_op(b) {
        int_op_spec(b, a)
    } else {
        match b {
            Builtin::Equal => Ok(Val::Bool(val_eq(a[0], a[1]))),
            Builtin::Throw => Err(a[0]),
            Builtin::Symbol => symbol_spec(a),
            Builtin::Keyword => keyword_spec(a),
            Builtin::ReadString => read_string_spec(a),
            Builtin::ToFloat => to_float_spec(a),
            Builtin::ToInt => to_int_spec(a),
            Builtin::MakeList => Ok(list_val(a)),
            Builtin::MakeVector => Ok(vector_val(a)),
            Builtin::MakeHashMap => assoc_spec(Seq::empty(), a),
            Builtin::Assoc => assoc_native_spec(a),
            Builtin::Dissoc => dissoc_spec(a),
            Builtin::Get => get_spec(a),
            Builtin::Contains => contains_spec(a),
            Builtin::Keys => keys_spec(a),
            Builtin::Vals => vals_spec(a),
            Builtin::ToVector => vec_spec(a),
            Builtin::Cons => cons_spec(a),
            Builtin::Concat => concat_spec(a),
            Builtin::IsEmpty => empty_spec(a),
            Builtin::Nth => nth_spec(a),
            Builtin::First => first_spec(a),
            Builtin::Rest => rest_spec(a),
            Builtin::Count => count_spec(a),
            Builtin::Conj => conj_spec(a),
            Builtin::ToSeq => seq_spec(a),
            Builtin::Meta => get_meta_spec(a),
            Builtin::WithMeta => with_meta_spec(a),
            _ => failure("attempt to call non-function"@),
        }
    }
}

/// Whether the native function `b` neither reads the store nor calls a function.
pub open spec fn is_pure(b: Builtin) -> bool {
    match b {
        Builtin::PrStr | Builtin::ToStr | Builtin::MakeAtom | Builtin::Deref | Builtin::Reset
        | Builtin::Swap | Builtin::Apply | Builtin::MapOver | Builtin::Eval => false,
        _ => true,
    }
}

/// The least number of arguments that the native function `b` takes.
pub fn min_args_of(b: Builtin) -> (n: usize)
    ensures
        n == min_args(b),
{
    match b {
        Builtin::PrStr | Builtin::ToStr | Builtin::ReadString | Builtin::Lt | Builtin::Le
        | Builtin::Gt | Builtin::Ge | Builtin::Add | Builtin::Sub | Builtin::Mul | Builtin::Div
        | Builtin::MakeList | Builtin::MakeVector | Builtin::MakeHashMap | Builtin::Concat => 0,
        Builtin::Equal | Builtin::Cons | Builtin::Nth | Builtin::MapOver | Builtin::WithMeta => 2,
        _ => 1,
    }
}

/// Calls a native function that neither reads the store nor calls a
/// function; any other is refused as no function.
pub fn call_pure(b: Builtin, a: MalArgs) -> (r: MalRet)
    ensures
        ret_val(r) == pure_native(b, vals(a@)),
        all_well_keyed(vals(a@)) ==> ret_well_keyed(ret_val(r)),
{
    proof {
        if all_well_keyed(vals(a@)) {
            law_natives_keep_keys(b, vals(a@));
        }
    }
    if a.len() < min_args_of(b) {
        return error("wrong number of arguments");
    }
    match b {
        Builtin::IsNil | Builtin::IsTrue | Builtin::IsFalse | Builtin::IsSymbol
        | Builtin::IsString | Builtin::IsKeyword | Builtin::IsNumber | Builtin::IsInt
        | Builtin::IsFloat | Builtin::IsFn | Builtin::IsMacro | Builtin::IsSequential
        | Builtin::IsList | Builtin::IsVector | Builtin::IsMap | Builtin::IsAtom => Ok(
            MalVal::Bool(type_test_of(b, &a[0])),
        ),
        Builtin::Lt | Builtin::Le | Builtin::Gt | Builtin::Ge | Builtin::Add | Builtin::Sub
        | Builtin::Mul | Builtin::Div => int_op_of(b, a),
        Builtin::Equal => Ok(MalVal::Bool(a[0].equals(&a[1]))),
        Builtin::Throw => Err(a[0].clone()),
        Builtin::Symbol => symbol(a),
        Builtin::Keyword => keyword(a),
        Builtin::ReadString => read_string(a),
        Builtin::ToFloat => to_float(a),
        Builtin::ToInt => to_int(a),
        Builtin::MakeList => Ok(list(a)),
        Builtin::MakeVector => Ok(vector(a)),
        Builtin::MakeHashMap => hash_map(a),
        Builtin::Assoc => assoc(a),
        Builtin::Dissoc => dissoc(a),
        Builtin::Get => get(a),
        Builtin::Contains => contains_q(a),
        Builtin::Keys => keys(a),
        Builtin::Vals => vals_of(a),
        Builtin::ToVector => vec(a),
        Builtin::Cons => cons(a),
        Builtin::Concat => concat(a),
        Builtin::IsEmpty => empty_q(a),
        Builtin::Nth => nth(a),
        Builtin::First => first(a),
        Builtin::Rest => rest(a),
        Builtin::Count => count(a),
        Builtin::Conj => conj(a),
        Builtin::ToSeq => seq(a),
        Builtin::Meta => get_meta(a),
        Builtin::WithMeta => with_meta(a),
        _ => error("attempt to call non-function"),
    }
}

} // verus!
