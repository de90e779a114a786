//! Every key of a map occurs once: what that means, and that reading,
//! the map operations and the native functions keep it so.

use vstd::prelude::*;
use crate::builtins::{concat_from, dissoc_keys, is_int_op, is_type_test, min_args, pure_native};
use crate::reader::{ahead, quoted, read_form_spec, read_seq_spec, read_str_spec};
use crate::types::{
    assoc_pairs, assoc_spec, failure, hash_of, hash_val, key_index, key_of, key_val, list_val,
    map_del, map_get, map_put, meta_of, seq_eq, seq_of, val_eq, vector_val, with_meta_of, Builtin,
    Val,
};

verus! {

/// Whether no key occurs twice among the entries `items`.
pub open spec fn unique_keys(items: Seq<(Seq<char>, Val)>) -> bool {
    forall|i: int, j: int|
        0 <= i < j < items.len() ==> (#[trigger] items[i]).0 != (#[trigger] items[j]).0
}

/// Whether every map in `v`, at whatever depth, holds each of its keys once.
pub open spec fn well_keyed(v: Val) -> bool
    decreases v,
{
    match v {
        Val::List(items, m) => well_keyed(*m) && forall|i: int|
            0 <= i < items.len() ==> well_keyed(#[trigger] items[i]),
        Val::Vector(items, m) => well_keyed(*m) && forall|i: int|
            0 <= i < items.len() ==> well_keyed(#[trigger] items[i]),
        Val::Hash(items, m) => well_keyed(*m) && unique_keys(items) && forall|i: int|
            0 <= i < items.len() ==> well_keyed((#[trigger] items[i]).1),
        Val::Func(_, m) => well_keyed(*m),
        Val::MalFunc(c) => well_keyed(*c.ast) && well_keyed(*c.params) && well_keyed(*c.meta),
        _ => true,
    }
}

/// Whether each of `items` is well keyed.
pub open spec fn all_well_keyed(items: Seq<Val>) -> bool {
    forall|i: int| 0 <= i < items.len() ==> well_keyed(#[trigger] items[i])
}

/// Whether the entries `items` have unique keys and well keyed values.
pub open spec fn entries_well_keyed(items: Seq<(Seq<char>, Val)>) -> bool {
    unique_keys(items) && forall|i: int| 0 <= i < items.len() ==> well_keyed(
        (#[trigger] items[i]).1,
    )
}

/// Whether a result is well keyed: the value, or what was thrown.
pub open spec fn ret_well_keyed(r: Result<Val, Val>) -> bool {
    match r {
        Ok(v) => well_keyed(v),
        Err(e) => well_keyed(e),
    }
}

/// A value that holds no other value is well keyed.
pub proof fn lemma_plain_well_keyed(v: Val)
    requires
        !(v is List) && !(v is Vector) && !(v is Hash) && !(v is Func) && !(v is MalFunc),
    ensures
        well_keyed(v),
{
}

/// A list and a vector of well keyed items, without metadata, are well keyed.
pub proof fn lemma_nil_meta(items: Seq<Val>)
    requires
        all_well_keyed(items),
    ensures
        well_keyed(list_val(items)),
        well_keyed(vector_val(items)),
{
    assert(well_keyed(Val::Nil));
}

/// A map of well keyed entries, without metadata, is well keyed.
pub proof fn lemma_hash_well_keyed(items: Seq<(Seq<char>, Val)>)
    requires
        entries_well_keyed(items),
    ensures
        well_keyed(hash_val(items)),
{
    assert(well_keyed(Val::Nil));
}

/// What a well keyed sequence or map holds is well keyed, and so is its metadata.
pub proof fn lemma_parts_well_keyed(v: Val)
    requires
        well_keyed(v),
    ensures
        seq_of(v) is Some ==> all_well_keyed(seq_of(v)->0),
        hash_of(v) is Some ==> entries_well_keyed(hash_of(v)->0),
        meta_of(v) is Some ==> well_keyed(meta_of(v)->0),
{
}

/// The first entry with a key, where there is one, lies within the entries and has that key.
pub proof fn lemma_key_index(items: Seq<(Seq<char>, Val)>, k: Seq<char>, i: int)
    requires
        0 <= i,
    ensures
        i <= key_index(items, k, i) || key_index(items, k, i) == items.len(),
        key_index(items, k, i) <= items.len(),
        key_index(items, k, i) < items.len() ==> items[key_index(items, k, i)].0 == k,
        forall|j: int| i <= j < key_index(items, k, i) ==> (#[trigger] items[j]).0 != k,
    decreases items.len() - i,
{
    if i < items.len() && items[i].0 != k {
        lemma_key_index(items, k, i + 1);
    }
}

/// Putting a well keyed value under a key keeps the keys unique and the values well keyed.
pub proof fn lemma_put_well_keyed(items: Seq<(Seq<char>, Val)>, k: Seq<char>, v: Val)
    requires
        entries_well_keyed(items),
        well_keyed(v),
    ensures
        entries_well_keyed(map_put(items, k, v)),
{
    lemma_key_index(items, k, 0);
    let at = key_index(items, k, 0);
    let r = map_put(items, k, v);
    if at < items.len() {
        assert forall|i: int, j: int| 0 <= i < j < r.len() implies (#[trigger] r[i]).0 != (
        #[trigger] r[j]).0 by {
            assert(r[i].0 == items[i].0);
            assert(r[j].0 == items[j].0);
        }
        assert forall|i: int| 0 <= i < r.len() implies well_keyed((#[trigger] r[i]).1) by {
            if i != at {
                assert(r[i] == items[i]);
            }
        }
    } else {
        assert forall|i: int, j: int| 0 <= i < j < r.len() implies (#[trigger] r[i]).0 != (
        #[trigger] r[j]).0 by {
            assert(r[i] == items[i]);
            if j < items.len() {
                assert(r[j] == items[j]);
            }
        }
        assert forall|i: int| 0 <= i < r.len() implies well_keyed((#[trigger] r[i]).1) by {
            if i < items.len() {
                assert(r[i] == items[i]);
            }
        }
    }
}

/// Taking a key away leaves entries of the map in their order: the keys
/// stay unique and the values well keyed.
pub proof fn lemma_del_well_keyed(items: Seq<(Seq<char>, Val)>, k: Seq<char>, n: nat)
    requires
        entries_well_keyed(items),
        n <= items.len(),
    ensures
        entries_well_keyed(map_del(items, k, n)),
        forall|i: int|
            0 <= i < map_del(items, k, n).len() ==> exists|j: int|
                0 <= j < n && #[trigger] map_del(items, k, n)[i] == items[j],
    decreases n,
{
    if n > 0 {
        lemma_del_well_keyed(items, k, (n - 1) as nat);
        let before = map_del(items, k, (n - 1) as nat);
        let r = map_del(items, k, n);
        if items[n - 1].0 != k {
            assert(r == before.push(items[n - 1]));
            assert forall|i: int| 0 <= i < r.len() implies exists|j: int|
                0 <= j < n && #[trigger] r[i] == items[j] by {
                if i < before.len() {
                    let j = choose|j: int| 0 <= j < n - 1 && before[i] == items[j];
                    assert(r[i] == items[j]);
                } else {
                    assert(r[i] == items[n - 1]);
                }
            }
            assert forall|i: int, j: int| 0 <= i < j < r.len() implies (#[trigger] r[i]).0 != (
            #[trigger] r[j]).0 by {
                let a = choose|a: int| 0 <= a < n - 1 && before[i] == items[a];
                assert(r[i] == items[a]);
                if j < before.len() {
                    assert(r[i] == before[i] && r[j] == before[j]);
                } else {
                    assert(r[j] == items[n - 1]);
                    assert(items[a].0 != items[n - 1].0);
                }
            }
            assert forall|i: int| 0 <= i < r.len() implies well_keyed((#[trigger] r[i]).1) by {
                let j = choose|j: int| 0 <= j < n && r[i] == items[j];
                assert(well_keyed(items[j].1));
            }
        }
    }
}

/// Adding keys and values two by two keeps the keys unique and the values well keyed.
pub proof fn lemma_assoc_pairs_well_keyed(items: Seq<(Seq<char>, Val)>, kvs: Seq<Val>, i: int)
    requires
        entries_well_keyed(items),
        all_well_keyed(kvs),
        0 <= i,
    ensures
        match assoc_pairs(items, kvs, i) {
            Ok(m) => entries_well_keyed(m),
            Err(e) => well_keyed(e),
        },
    decreases kvs.len() - i,
{
    if i + 1 < kvs.len() {
        match key_of(kvs[i]) {
            Ok(k) => {
                assert(well_keyed(kvs[i + 1]));
                lemma_put_well_keyed(items, k, kvs[i + 1]);
                lemma_assoc_pairs_well_keyed(map_put(items, k, kvs[i + 1]), kvs, i + 2);
            },
            Err(e) => {},
        }
    }
}

/// A map in which every key occurs once keeps that when keys and values
/// are added to it: a key that is there already takes the new value in
/// its place, and no key comes to occur twice.
pub proof fn law_assoc_keeps_keys(items: Seq<(Seq<char>, Val)>, kvs: Seq<Val>)
    requires
        entries_well_keyed(items),
        all_well_keyed(kvs),
    ensures
        ret_well_keyed(assoc_spec(items, kvs)),
{
    lemma_assoc_pairs_well_keyed(items, kvs, 0);
    match assoc_pairs(items, kvs, 0) {
        Ok(m) => {
            lemma_hash_well_keyed(m);
        },
        Err(_) => {},
    }
}

/// The list of two well keyed values is well keyed.
pub proof fn lemma_list2_well_keyed(a: Val, b: Val)
    requires
        well_keyed(a),
        well_keyed(b),
    ensures
        well_keyed(list_val(seq![a, b])),
{
    let items = seq![a, b];
    assert forall|i: int| 0 <= i < items.len() implies well_keyed(#[trigger] items[i]) by {
        if i == 0 {
            assert(items[i] == a);
        } else {
            assert(items[i] == b);
        }
    }
    lemma_nil_meta(items);
}

/// The list of three well keyed values is well keyed.
pub proof fn lemma_list3_well_keyed(a: Val, b: Val, c: Val)
    requires
        well_keyed(a),
        well_keyed(b),
        well_keyed(c),
    ensures
        well_keyed(list_val(seq![a, b, c])),
{
    let items = seq![a, b, c];
    assert forall|i: int| 0 <= i < items.len() implies well_keyed(#[trigger] items[i]) by {
        if i == 0 {
            assert(items[i] == a);
        } else if i == 1 {
            assert(items[i] == b);
        } else {
            assert(items[i] == c);
        }
    }
    lemma_nil_meta(items);
}

/// What a reader macro makes of a well keyed form is well keyed.
proof fn lemma_quoted_well_keyed(name: Seq<char>, r: (Result<Val, Val>, int))
    requires
        ret_well_keyed(r.0),
    ensures
        ret_well_keyed(quoted(name, r).0),
{
    match r.0 {
        Ok(v) => {
            lemma_list2_well_keyed(Val::Sym(name), v);
        },
        Err(_) => {},
    }
}

/// Every map that the reader reads holds each of its keys once: a form
/// that is read is well keyed, and so is the failure of reading it.
pub proof fn law_reader_keeps_keys(tokens: Seq<Seq<char>>, pos: int)
    ensures
        ret_well_keyed(read_form_spec(tokens, pos).0),
    decreases tokens.len() - pos, 1nat,
{
    if 0 <= pos < tokens.len() {
        let t = tokens[pos];
        if t == "'"@ {
            law_reader_keeps_keys(tokens, pos + 1);
            lemma_quoted_well_keyed("quote"@, read_form_spec(tokens, pos + 1));
        } else if t == "`"@ {
            law_reader_keeps_keys(tokens, pos + 1);
            lemma_quoted_well_keyed("quasiquote"@, read_form_spec(tokens, pos + 1));
        } else if t == "~"@ {
            law_reader_keeps_keys(tokens, pos + 1);
            lemma_quoted_well_keyed("unquote"@, read_form_spec(tokens, pos + 1));
        } else if t == "~@"@ {
            law_reader_keeps_keys(tokens, pos + 1);
            lemma_quoted_well_keyed("splice-unquote"@, read_form_spec(tokens, pos + 1));
        } else if t == "^"@ {
            law_reader_keeps_keys(tokens, pos + 1);
            let m = read_form_spec(tokens, pos + 1);
            match m.0 {
                Ok(meta) => {
                    let at = ahead(tokens.len() as int, pos, m.1);
                    law_reader_keeps_keys(tokens, at);
                    match read_form_spec(tokens, at).0 {
                        Ok(val) => {
                            lemma_list3_well_keyed(Val::Sym("with-meta"@), val, meta);
                        },
                        Err(_) => {},
                    }
                },
                Err(_) => {},
            }
        } else if t == "@"@ {
            law_reader_keeps_keys(tokens, pos + 1);
            lemma_quoted_well_keyed("deref"@, read_form_spec(tokens, pos + 1));
        } else if t == ")"@ {
        } else if t == "("@ {
            lemma_read_seq_well_keyed(tokens, pos + 1, ")"@, Seq::empty());
            match read_seq_spec(tokens, pos + 1, ")"@, Seq::empty()).0 {
                Ok(items) => {
                    lemma_nil_meta(items);
                },
                Err(_) => {},
            }
        } else if t == "]"@ {
        } else if t == "["@ {
            lemma_read_seq_well_keyed(tokens, pos + 1, "]"@, Seq::empty());
            match read_seq_spec(tokens, pos + 1, "]"@, Seq::empty()).0 {
                Ok(items) => {
                    lemma_nil_meta(items);
                },
                Err(_) => {},
            }
        } else if t == "}"@ {
        } else if t == "{"@ {
            lemma_read_seq_well_keyed(tokens, pos + 1, "}"@, Seq::empty());
            match read_seq_spec(tokens, pos + 1, "}"@, Seq::empty()).0 {
                Ok(items) => {
                    law_assoc_keeps_keys(Seq::empty(), items);
                },
                Err(_) => {},
            }
        } else {
        }
    }
}

/// The forms that are read up to a closing bracket are well keyed, behind well keyed ones.
pub proof fn lemma_read_seq_well_keyed(
    tokens: Seq<Seq<char>>,
    pos: int,
    end: Seq<char>,
    acc: Seq<Val>,
)
    requires
        all_well_keyed(acc),
    ensures
        match read_seq_spec(tokens, pos, end, acc).0 {
            Ok(items) => all_well_keyed(items),
            Err(e) => well_keyed(e),
        },
    decreases tokens.len() - pos, 2nat,
{
    if 0 <= pos < tokens.len() && tokens[pos] != end {
        law_reader_keeps_keys(tokens, pos);
        let r = read_form_spec(tokens, pos);
        match r.0 {
            Ok(v) => {
                let more = acc.push(v);
                assert forall|i: int| 0 <= i < more.len() implies well_keyed(
                    #[trigger] more[i],
                ) by {
                    if i < acc.len() {
                        assert(more[i] == acc[i]);
                    }
                }
                lemma_read_seq_well_keyed(
                    tokens,
                    ahead(tokens.len() as int, pos, r.1),
                    end,
                    more,
                );
            },
            Err(_) => {},
        }
    }
}

/// The first form of a text is well keyed, and so is the failure of reading it.
pub proof fn law_read_str_keeps_keys(s: Seq<char>)
    ensures
        ret_well_keyed(read_str_spec(s)),
{
    law_reader_keeps_keys(crate::reader::tokens_of(s), 0);
}

/// Well keyed items behind well keyed items are well keyed items.
pub proof fn lemma_add_well_keyed(a: Seq<Val>, b: Seq<Val>)
    requires
        all_well_keyed(a),
        all_well_keyed(b),
    ensures
        all_well_keyed(a + b),
{
    assert forall|i: int| 0 <= i < (a + b).len() implies well_keyed(#[trigger] (a + b)[i]) by {
        if i < a.len() {
            assert((a + b)[i] == a[i]);
        } else {
            assert((a + b)[i] == b[i - a.len()]);
        }
    }
}

/// A run of well keyed items is well keyed items, in whatever order it is taken.
pub proof fn lemma_part_well_keyed(a: Seq<Val>, from: int, to: int)
    requires
        all_well_keyed(a),
        0 <= from <= to <= a.len(),
    ensures
        all_well_keyed(a.subrange(from, to)),
        all_well_keyed(a.subrange(from, to).reverse()),
{
    let p = a.subrange(from, to);
    assert forall|i: int| 0 <= i < p.len() implies well_keyed(#[trigger] p[i]) by {
        assert(p[i] == a[from + i]);
    }
    let r = p.reverse();
    assert forall|i: int| 0 <= i < r.len() implies well_keyed(#[trigger] r[i]) by {
        assert(r[i] == p[p.len() - 1 - i]);
    }
}

/// A map without some keys has unique keys and well keyed values, as it had with them.
proof fn lemma_dissoc_well_keyed(m: Seq<(Seq<char>, Val)>, a: Seq<Val>, i: int)
    requires
        entries_well_keyed(m),
        0 <= i,
    ensures
        match dissoc_keys(m, a, i) {
            Ok(r) => entries_well_keyed(r),
            Err(e) => well_keyed(e),
        },
    decreases a.len() - i,
{
    if i < a.len() {
        match key_of(a[i]) {
            Ok(k) => {
                lemma_del_well_keyed(m, k, m.len());
                lemma_dissoc_well_keyed(map_del(m, k, m.len()), a, i + 1);
            },
            Err(_) => {},
        }
    }
}

/// The items of well keyed sequences, one after the other, are well keyed.
proof fn lemma_concat_well_keyed(a: Seq<Val>, i: int, acc: Seq<Val>)
    requires
        all_well_keyed(a),
        all_well_keyed(acc),
        0 <= i,
    ensures
        ret_well_keyed(concat_from(a, i, acc)),
    decreases a.len() - i,
{
    if i < a.len() {
        match seq_of(a[i]) {
            Some(v) => {
                lemma_parts_well_keyed(a[i]);
                lemma_add_well_keyed(acc, v);
                lemma_concat_well_keyed(a, i + 1, acc + v);
            },
            None => {},
        }
    } else {
        lemma_nil_meta(acc);
    }
}

/// A value with other metadata is well keyed where the value and the metadata are.
proof fn lemma_with_meta_well_keyed(v: Val, m: Val)
    requires
        well_keyed(v),
        well_keyed(m),
    ensures
        with_meta_of(v, m) is Some ==> well_keyed(with_meta_of(v, m)->0),
{
}

/// What a native function that works on its arguments alone gives for
/// well keyed arguments is well keyed: no native function makes a map in
/// which a key occurs twice, and none hands out a part of its arguments
/// that they did not hold.
pub proof fn law_natives_keep_keys(b: Builtin, a: Seq<Val>)
    requires
        all_well_keyed(a),
    ensures
        ret_well_keyed(pure_native(b, a)),
{
    if a.len() < min_args(b) {
    } else if is_type_test(b) {
    } else if is_int_op(b) {
    } else {
        match b {
            Builtin::Equal => {},
            Builtin::Throw => {
                assert(well_keyed(a[0]));
            },
            Builtin::Symbol => {},
            Builtin::Keyword => {
                assert(well_keyed(a[0]));
            },
            Builtin::ReadString => {
                if a.len() == 1 {
                    match a[0] {
                        Val::Str(s) => {
                            law_read_str_keeps_keys(s);
                        },
                        _ => {},
                    }
                }
            },
            Builtin::ToFloat => {
                assert(well_keyed(a[0]));
            },
            Builtin::ToInt => {
                assert(well_keyed(a[0]));
            },
            Builtin::MakeList => {
                lemma_nil_meta(a);
            },
            Builtin::MakeVector => {
                lemma_nil_meta(a);
            },
            Builtin::MakeHashMap => {
                law_assoc_keeps_keys(Seq::empty(), a);
            },
            Builtin::Assoc => {
                lemma_parts_well_keyed(a[0]);
                match hash_of(a[0]) {
                    Some(m) => {
                        lemma_part_well_keyed(a, 1, a.len() as int);
                        assert(a.skip(1) =~= a.subrange(1, a.len() as int));
                        law_assoc_keeps_keys(m, a.skip(1));
                    },
                    None => {},
                }
            },
            Builtin::Dissoc => {
                lemma_parts_well_keyed(a[0]);
                match hash_of(a[0]) {
                    Some(m) => {
                        lemma_dissoc_well_keyed(m, a, 1);
                        match dissoc_keys(m, a, 1) {
                            Ok(r) => {
                                lemma_hash_well_keyed(r);
                            },
                            Err(_) => {},
                        }
                    },
                    None => {},
                }
            },
            Builtin::Get => {
                lemma_parts_well_keyed(a[0]);
                match a[0] {
                    Val::Hash(m, _) => {
                        if a.len() >= 2 {
                            match key_of(a[1]) {
                                Ok(k) => {
                                    lemma_key_index(m, k, 0);
                                },
                                Err(_) => {},
                            }
                        }
                    },
                    _ => {},
                }
            },
            Builtin::Contains => {},
            Builtin::Keys => {
                match hash_of(a[0]) {
                    Some(m) => {
                        let ks = Seq::new(m.len(), |i: int| key_val(m[i].0));
                        assert forall|i: int| 0 <= i < ks.len() implies well_keyed(
                            #[trigger] ks[i],
                        ) by {
                            lemma_plain_well_keyed(ks[i]);
                        }
                        lemma_nil_meta(ks);
                    },
                    None => {},
                }
            },
            Builtin::Vals => {
                lemma_parts_well_keyed(a[0]);
                match hash_of(a[0]) {
                    Some(m) => {
                        let vs = Seq::new(m.len(), |i: int| m[i].1);
                        assert forall|i: int| 0 <= i < vs.len() implies well_keyed(
                            #[trigger] vs[i],
                        ) by {
                            assert(well_keyed(m[i].1));
                        }
                        lemma_nil_meta(vs);
                    },
                    None => {},
                }
            },
            Builtin::ToVector => {
                lemma_parts_well_keyed(a[0]);
                assert(well_keyed(a[0]));
                match a[0] {
                    Val::List(v, _) => {
                        lemma_nil_meta(v);
                    },
                    _ => {},
                }
            },
            Builtin::Cons => {
                lemma_parts_well_keyed(a[1]);
                match seq_of(a[1]) {
                    Some(v) => {
                        let one = seq![a[0]];
                        assert(all_well_keyed(one)) by {
                            assert forall|i: int| 0 <= i < one.len() implies well_keyed(
                                #[trigger] one[i],
                            ) by {
                                assert(one[i] == a[0]);
                            }
                        }
                        lemma_add_well_keyed(one, v);
                        lemma_nil_meta(one + v);
                    },
                    None => {},
                }
            },
            Builtin::Concat => {
                lemma_concat_well_keyed(a, 0, Seq::empty());
            },
            Builtin::IsEmpty => {},
            Builtin::Count => {},
            Builtin::Nth => {
                lemma_parts_well_keyed(a[0]);
                match (seq_of(a[0]), a[1]) {
                    (Some(v), Val::Int(idx)) => {
                        if 0 <= idx < v.len() {
                            assert(well_keyed(v[idx as int]));
                        }
                    },
                    _ => {},
                }
            },
            Builtin::First => {
                lemma_parts_well_keyed(a[0]);
                match seq_of(a[0]) {
                    Some(v) => {
                        if v.len() > 0 {
                            assert(well_keyed(v[0]));
                        }
                    },
                    None => {},
                }
            },
            Builtin::Rest => {
                lemma_parts_well_keyed(a[0]);
                lemma_nil_meta(Seq::empty());
                match seq_of(a[0]) {
                    Some(v) => {
                        if v.len() > 1 {
                            lemma_part_well_keyed(v, 1, v.len() as int);
                            assert(v.skip(1) =~= v.subrange(1, v.len() as int));
                            lemma_nil_meta(v.skip(1));
                        }
                    },
                    None => {},
                }
            },
            Builtin::Conj => {
                lemma_parts_well_keyed(a[0]);
                lemma_part_well_keyed(a, 1, a.len() as int);
                assert(a.skip(1) =~= a.subrange(1, a.len() as int));
                match a[0] {
                    Val::List(v, _) => {
                        lemma_add_well_keyed(a.skip(1).reverse(), v);
                        lemma_nil_meta(a.skip(1).reverse() + v);
                    },
                    Val::Vector(v, _) => {
                        lemma_add_well_keyed(v, a.skip(1));
                        lemma_nil_meta(v + a.skip(1));
                    },
                    _ => {},
                }
            },
            Builtin::ToSeq => {
                lemma_parts_well_keyed(a[0]);
                assert(well_keyed(a[0]));
                match a[0] {
                    Val::Vector(v, _) => {
                        lemma_nil_meta(v);
                    },
                    Val::Str(s) => {
                        let cs = Seq::new(s.len(), |i: int| Val::Str(seq![s[i]]));
                        assert forall|i: int| 0 <= i < cs.len() implies well_keyed(
                            #[trigger] cs[i],
                        ) by {
                            lemma_plain_well_keyed(cs[i]);
                        }
                        lemma_nil_meta(cs);
                    },
                    _ => {},
                }
            },
            Builtin::Meta => {
                lemma_parts_well_keyed(a[0]);
            },
            Builtin::WithMeta => {
                assert(well_keyed(a[0]));
                assert(well_keyed(a[1]));
                lemma_with_meta_well_keyed(a[0], a[1]);
            },
            _ => {},
        }
    }
}

/// Whether `j` is among the numbers `f`.
pub open spec fn hit(f: Seq<int>, j: int) -> bool {
    exists|i: int| 0 <= i < f.len() && #[trigger] f[i] == j
}

/// Whether the entry `j` of the map `y` has the key of some entry of the map `x`.
pub open spec fn key_shared(x: Seq<(Seq<char>, Val)>, y: Seq<(Seq<char>, Val)>, j: int) -> bool {
    exists|i: int| 0 <= i < x.len() && #[trigger] key_index(y, x[i].0, 0) == j
}

/// As many different numbers below `n` as there are numbers below `n` are all of them.
proof fn lemma_onto(f: Seq<int>, n: int)
    requires
        f.len() == n,
        forall|i: int| 0 <= i < n ==> 0 <= #[trigger] f[i] < n,
        f.no_duplicates(),
    ensures
        forall|j: int| 0 <= j < n ==> #[trigger] hit(f, j),
{
    f.unique_seq_to_set();
    vstd::seq_lib::seq_to_set_is_finite(f);
    vstd::set_lib::lemma_int_range(0, n);
    let all = vstd::set_lib::set_int_range(0, n);
    assert(f.to_set().subset_of(all)) by {
        assert forall|x: int| f.to_set().contains(x) implies all.contains(x) by {
            let i = choose|i: int| 0 <= i < f.len() && f[i] == x;
            assert(0 <= f[i] < n);
        }
    }
    vstd::set_lib::lemma_subset_equality(f.to_set(), all);
    assert forall|j: int| 0 <= j < n implies #[trigger] hit(f, j) by {
        assert(all.contains(j));
        assert(f.to_set().contains(j));
        assert(f.contains(j));
    }
}

/// In a map whose keys are unique, the entry of a key is the one entry that has it.
proof fn lemma_get_unique(items: Seq<(Seq<char>, Val)>, i: int)
    requires
        unique_keys(items),
        0 <= i < items.len(),
    ensures
        key_index(items, items[i].0, 0) == i,
        map_get(items, items[i].0) == Some(items[i].1),
{
    lemma_key_index(items, items[i].0, 0);
    let at = key_index(items, items[i].0, 0);
    if at < i {
        assert(items[at].0 != items[i].0);
    }
}

/// Two maps with unique keys and as many entries, of which the first has
/// every key in the second, have the same keys.
proof fn lemma_same_keys(x: Seq<(Seq<char>, Val)>, y: Seq<(Seq<char>, Val)>)
    requires
        unique_keys(x),
        unique_keys(y),
        x.len() == y.len(),
        forall|i: int| 0 <= i < x.len() ==> map_get(y, (#[trigger] x[i]).0) is Some,
    ensures
        forall|j: int| 0 <= j < y.len() ==> #[trigger] key_shared(x, y, j),
{
    let n = x.len() as int;
    let f = Seq::new(x.len(), |i: int| key_index(y, x[i].0, 0));
    assert forall|i: int| 0 <= i < n implies 0 <= #[trigger] f[i] < n by {
        lemma_key_index(y, x[i].0, 0);
        assert(map_get(y, x[i].0) is Some);
    }
    assert(f.no_duplicates()) by {
        assert forall|i: int, j: int| 0 <= i < f.len() && 0 <= j < f.len() && i != j implies f[i]
            != f[j] by {
            lemma_key_index(y, x[i].0, 0);
            lemma_key_index(y, x[j].0, 0);
            assert(map_get(y, x[i].0) is Some);
            assert(map_get(y, x[j].0) is Some);
            if f[i] == f[j] {
                assert(y[f[i]].0 == x[i].0);
                assert(y[f[j]].0 == x[j].0);
                if i < j {
                    assert(x[i].0 != x[j].0);
                } else {
                    assert(x[j].0 != x[i].0);
                }
            }
        }
    }
    lemma_onto(f, n);
    assert forall|j: int| 0 <= j < y.len() implies #[trigger] key_shared(x, y, j) by {
        assert(hit(f, j));
        let i = choose|i: int| 0 <= i < f.len() && #[trigger] f[i] == j;
        assert(key_index(y, x[i].0, 0) == j);
    }
}

/// Where one value equals another, the other equals it, so long as no map in them holds a key twice.
proof fn lemma_equal_turned(a: Val, b: Val)
    requires
        well_keyed(a),
        well_keyed(b),
        val_eq(a, b),
    ensures
        val_eq(b, a),
    decreases a,
{
    lemma_parts_well_keyed(a);
    lemma_parts_well_keyed(b);
    match a {
        Val::List(x, _) => {
            lemma_items_equal_turned(x, seq_of(b)->0);
        },
        Val::Vector(x, _) => {
            lemma_items_equal_turned(x, seq_of(b)->0);
        },
        Val::Hash(x, _) => {
            let y = hash_of(b)->0;
            assert forall|i: int| 0 <= i < x.len() implies map_get(y, (#[trigger] x[i]).0) is Some by {}
            lemma_same_keys(x, y);
            assert forall|j: int| 0 <= j < y.len() implies ({
                let e = #[trigger] y[j];
                map_get(x, e.0) is Some && val_eq(e.1, map_get(x, e.0)->0)
            }) by {
                assert(key_shared(x, y, j));
                let i = choose|i: int| 0 <= i < x.len() && #[trigger] key_index(y, x[i].0, 0) == j;
                lemma_key_index(y, x[i].0, 0);
                assert(map_get(y, x[i].0) is Some);
                assert(y[j].0 == x[i].0);
                lemma_get_unique(x, i);
                assert(map_get(y, x[i].0) == Some(y[j].1));
                assert(val_eq(x[i].1, y[j].1));
                assert(well_keyed(x[i].1));
                assert(well_keyed(y[j].1));
                lemma_equal_turned(x[i].1, y[j].1);
            }
        },
        _ => {},
    }
}

/// Where the items of one sequence equal those of another, those of the other equal them.
proof fn lemma_items_equal_turned(x: Seq<Val>, y: Seq<Val>)
    requires
        all_well_keyed(x),
        all_well_keyed(y),
        seq_eq(x, y),
    ensures
        seq_eq(y, x),
    decreases x,
{
    assert forall|i: int| 0 <= i < y.len() implies val_eq(#[trigger] y[i], x[i]) by {
        assert(val_eq(x[i], y[i]));
        assert(well_keyed(x[i]));
        assert(well_keyed(y[i]));
        lemma_equal_turned(x[i], y[i]);
    }
}

/// Equality of values does not depend on the side: `a` equals `b`
/// exactly where `b` equals `a`, so long as no map in them holds a key twice.
pub proof fn law_equality_is_symmetric(a: Val, b: Val)
    requires
        well_keyed(a),
        well_keyed(b),
    ensures
        val_eq(a, b) == val_eq(b, a),
{
    if val_eq(a, b) {
        lemma_equal_turned(a, b);
    }
    if val_eq(b, a) {
        lemma_equal_turned(b, a);
    }
}

} // verus!
