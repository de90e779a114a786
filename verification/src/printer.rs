//! The text of a value, readable or plain.

use vstd::prelude::*;
use crate::env::{Heap, Store};
use crate::text::{int_text, push_int, push_text};
use crate::types::{entries, key_val, lemma_view_hash, unwrap_map_key, vals, MalVal, Val};

verus! {

/// How many atoms, one inside the other, are printed with what they hold.
pub const ATOM_DEPTH: usize = 256;

/// How one character of a string is written in readable form.
pub open spec fn escape_char(c: char) -> Seq<char> {
    if c == '"' {
        seq!['\\', '"']
    } else if c == '\n' {
        seq!['\\', 'n']
    } else if c == '\\' {
        seq!['\\', '\\']
    } else {
        seq![c]
    }
}

/// A string's characters in readable form, without the quotes around them.
pub open spec fn escape_text(s: Seq<char>) -> Seq<char>
    decreases s.len(),
{
    if s.len() == 0 {
        Seq::empty()
    } else {
        escape_text(s.drop_last()) + escape_char(s.last())
    }
}

/// The text of `v`. In readable form a string is quoted and escaped;
/// otherwise it is written as it is. An atom is written with what it
/// holds in `h`, up to `depth` atoms deep.
pub open spec fn pr_str_spec(v: Val, readably: bool, h: Heap, depth: nat) -> Seq<char>
    decreases depth, v, 0nat,
{
    match v {
        Val::Nil => "nil"@,
        Val::Bool(b) => if b {
            "true"@
        } else {
            "false"@
        },
        Val::Int(i) => int_text(i as int),
        Val::Float(s) => s,
        Val::Str(s) => if readably {
            seq!['"'] + escape_text(s) + seq!['"']
        } else {
            s
        },
        Val::Sym(s) => s,
        Val::Kwd(s) => seq![':'] + s,
        Val::List(items, _) => seq!['('] + pr_items_spec(items, items.len(), readably, " "@, h, depth)
            + seq![')'],
        Val::Vector(items, _) => seq!['['] + pr_items_spec(
            items,
            items.len(),
            readably,
            " "@,
            h,
            depth,
        ) + seq![']'],
        Val::Hash(items, _) => seq!['{'] + pr_entries_spec(items, items.len(), readably, h, depth)
            + seq!['}'],
        Val::Func(_, _) => "#<fn ...>"@,
        Val::MalFunc(f) => "(fn* "@ + pr_str_spec(*f.params, true, h, depth) + seq![' ']
            + pr_str_spec(*f.ast, true, h, depth) + seq![')'],
        Val::Atom(a) => if depth > 0 && a < h.atoms.len() {
            "(atom "@ + pr_str_spec(h.atoms[a as int], true, h, (depth - 1) as nat) + seq![')']
        } else {
            "(atom)"@
        },
    }
}

/// The texts of the first `n` of `items`, with `sep` between them.
pub open spec fn pr_items_spec(
    items: Seq<Val>,
    n: nat,
    readably: bool,
    sep: Seq<char>,
    h: Heap,
    depth: nat,
) -> Seq<char>
    decreases depth, items, n,
{
    if n == 0 || n > items.len() {
        Seq::empty()
    } else if n == 1 {
        pr_str_spec(items[0], readably, h, depth)
    } else {
        pr_items_spec(items, (n - 1) as nat, readably, sep, h, depth) + sep + pr_str_spec(
            items[n - 1],
            readably,
            h,
            depth,
        )
    }
}

/// The texts of the first `n` entries of a map: each key, then its value,
/// with one space between any two.
pub open spec fn pr_entries_spec(
    items: Seq<(Seq<char>, Val)>,
    n: nat,
    readably: bool,
    h: Heap,
    depth: nat,
) -> Seq<char>
    decreases depth, items, n,
{
    if n == 0 || n > items.len() {
        Seq::empty()
    } else {
        let head = if n == 1 {
            Seq::empty()
        } else {
            pr_entries_spec(items, (n - 1) as nat, readably, h, depth) + seq![' ']
        };
        head + pr_key_spec(items[n - 1].0, readably) + seq![' '] + pr_str_spec(
            items[n - 1].1,
            readably,
            h,
            depth,
        )
    }
}

/// The text of a map's key: that of the string or keyword it stands for.
pub open spec fn pr_key_spec(k: Seq<char>, readably: bool) -> Seq<char> {
    match key_val(k) {
        Val::Kwd(s) => seq![':'] + s,
        Val::Str(s) => if readably {
            seq!['"'] + escape_text(s) + seq!['"']
        } else {
            s
        },
        _ => Seq::empty(),
    }
}

/// The texts of `items` between `start` and `end`, with `join` between any two.
pub open spec fn pr_seq_spec(
    items: Seq<Val>,
    readably: bool,
    start: Seq<char>,
    end: Seq<char>,
    join: Seq<char>,
    h: Heap,
) -> Seq<char> {
    start + pr_items_spec(items, items.len(), readably, join, h, ATOM_DEPTH as nat) + end
}

/// Appends the readable form of the characters of `s` to `out`.
fn push_escaped(out: &mut String, s: &str)
    ensures
        final(out)@ == old(out)@ + escape_text(s@),
{
    let ghost start = out@;
    for c in it: s.chars()
        invariant
            it.seq() == s@,
            out@ == start + escape_text(s@.take(it.index() as int)),
    {
        let ghost before = out@;
        let ghost k = it.index() as int;
        if c == '"' {
            out.push('\\');
            out.push('"');
        } else if c == '\n' {
            out.push('\\');
            out.push('n');
        } else if c == '\\' {
            out.push('\\');
            out.push('\\');
        } else {
            out.push(c);
        }
        proof {
            assert(s@.take(k + 1).drop_last() =~= s@.take(k));
            assert(s@.take(k + 1).last() == c);
            assert(out@ =~= before + escape_char(c));
            assert(out@ =~= start + escape_text(s@.take(k + 1)));
        }
    }
    assert(s@.take(s@.len() as int) =~= s@);
}

/// Appends a string's text to `out`: quoted and escaped in readable form.
fn push_string(out: &mut String, s: &str, readably: bool)
    ensures
        final(out)@ == old(out)@ + (if readably {
            seq!['"'] + escape_text(s@) + seq!['"']
        } else {
            s@
        }),
{
    if readably {
        out.push('"');
        push_escaped(out, s);
        out.push('"');
        assert(out@ =~= old(out)@ + (seq!['"'] + escape_text(s@) + seq!['"']));
    } else {
        push_text(out, s);
    }
}

/// Appends the text of a map's key to `out`.
fn push_key(out: &mut String, k: &str, readably: bool)
    ensures
        final(out)@ == old(out)@ + pr_key_spec(k@, readably),
{
    match unwrap_map_key(k) {
        MalVal::Kwd(s) => {
            out.push(':');
            push_text(out, s.as_str());
            assert(out@ =~= old(out)@ + (seq![':'] + s@));
        },
        MalVal::Str(s) => {
            push_string(out, s.as_str(), readably);
        },
        _ => {},
    }
}

impl MalVal {
    /// Appends the text of `self` to `out`.
    pub fn pr_into(&self, out: &mut String, print_readably: bool, store: &Store, depth: usize)
        ensures
            final(out)@ == old(out)@ + pr_str_spec(self@, print_readably, store@, depth as nat),
        decreases depth, self,
    {
        let ghost start = out@;
        match self {
            MalVal::Nil => push_text(out, "nil"),
            MalVal::Bool(b) => {
                if *b {
                    push_text(out, "true")
                } else {
                    push_text(out, "false")
                }
            },
            MalVal::Int(i) => push_int(out, *i),
            MalVal::Float(s) => push_text(out, s.as_str()),
            MalVal::Str(s) => push_string(out, s.as_str(), print_readably),
            MalVal::Sym(s) => push_text(out, s.as_str()),
            MalVal::Kwd(s) => {
                out.push(':');
                push_text(out, s.as_str());
                assert(out@ =~= start + (seq![':'] + s@));
            },
            MalVal::List(items, meta) => {
                proof {
                    crate::types::lemma_view_list(*items, *meta);
                }
                out.push('(');
                pr_items_into(items, out, print_readably, " ", store, depth);
                out.push(')');
                assert(out@ =~= start + (seq!['('] + pr_items_spec(
                    vals(items@),
                    items@.len(),
                    print_readably,
                    " "@,
                    store@,
                    depth as nat,
                ) + seq![')']));
            },
            MalVal::Vector(items, meta) => {
                proof {
                    crate::types::lemma_view_list(*items, *meta);
                }
                out.push('[');
                pr_items_into(items, out, print_readably, " ", store, depth);
                out.push(']');
                assert(out@ =~= start + (seq!['['] + pr_items_spec(
                    vals(items@),
                    items@.len(),
                    print_readably,
                    " "@,
                    store@,
                    depth as nat,
                ) + seq![']']));
            },
            MalVal::Hash(items, meta) => {
                proof {
                    lemma_view_hash(*items, *meta);
                }
                out.push('{');
                let mut i: usize = 0;
                while i < items.len()
                    invariant
                        i <= items.len(),
                        forall|k: int|
                            0 <= k < items@.len() ==> decreases_to!(*self => (#[trigger] items@[k]).1),
                        out@ == start.push('{') + pr_entries_spec(
                            entries(items@),
                            i as nat,
                            print_readably,
                            store@,
                            depth as nat,
                        ),
                    decreases items.len() - i,
                {
                    let ghost before = out@;
                    if i > 0 {
                        out.push(' ');
                    }
                    push_key(out, items[i].0.as_str(), print_readably);
                    out.push(' ');
                    let value = &items[i].1;
                    value.pr_into(out, print_readably, store, depth);
                    i += 1;
                    assert(out@ =~= start.push('{') + pr_entries_spec(
                        entries(items@),
                        i as nat,
                        print_readably,
                        store@,
                        depth as nat,
                    ));
                }
                out.push('}');
                assert(out@ =~= start + (seq!['{'] + pr_entries_spec(
                    entries(items@),
                    items@.len(),
                    print_readably,
                    store@,
                    depth as nat,
                ) + seq!['}']));
            },
            MalVal::Func(_, _) => push_text(out, "#<fn ...>"),
            MalVal::MalFunc(f) => {
                push_text(out, "(fn* ");
                f.params.pr_into(out, true, store, depth);
                out.push(' ');
                f.ast.pr_into(out, true, store, depth);
                out.push(')');
                assert(out@ =~= start + ("(fn* "@ + pr_str_spec(
                    f.params@,
                    true,
                    store@,
                    depth as nat,
                ) + seq![' '] + pr_str_spec(f.ast@, true, store@, depth as nat) + seq![')']));
            },
            MalVal::Atom(a) => {
                if depth > 0 {
                    match store.atom_get(*a) {
                        Some(v) => {
                            push_text(out, "(atom ");
                            v.pr_into(out, true, store, depth - 1);
                            out.push(')');
                            assert(out@ =~= start + ("(atom "@ + pr_str_spec(
                                v@,
                                true,
                                store@,
                                (depth - 1) as nat,
                            ) + seq![')']));
                        },
                        None => push_text(out, "(atom)"),
                    }
                } else {
                    push_text(out, "(atom)")
                }
            },
        }
    }

    /// The text of `self`: readable (strings quoted and escaped) or plain.
    pub fn pr_str(&self, print_readably: bool, store: &Store) -> (r: String)
        ensures
            r@ == pr_str_spec(self@, print_readably, store@, ATOM_DEPTH as nat),
    {
        let mut out = String::new();
        self.pr_into(&mut out, print_readably, store, ATOM_DEPTH);
        assert(Seq::<char>::empty() + pr_str_spec(self@, print_readably, store@, ATOM_DEPTH as nat)
            =~= pr_str_spec(self@, print_readably, store@, ATOM_DEPTH as nat));
        out
    }
}

/// Appends the texts of `items` to `out`, with `sep` between any two.
pub fn pr_items_into(
    items: &Vec<MalVal>,
    out: &mut String,
    print_readably: bool,
    sep: &str,
    store: &Store,
    depth: usize,
)
    ensures
        final(out)@ == old(out)@ + pr_items_spec(
            vals(items@),
            items@.len(),
            print_readably,
            sep@,
            store@,
            depth as nat,
        ),
    decreases depth, items,
{
    let ghost start = out@;
    let mut i: usize = 0;
    assert(out@ =~= start + Seq::<char>::empty());
    while i < items.len()
        invariant
            i <= items.len(),
            out@ == start + pr_items_spec(
                vals(items@),
                i as nat,
                print_readably,
                sep@,
                store@,
                depth as nat,
            ),
        decreases items.len() - i,
    {
        if i > 0 {
            push_text(out, sep);
        }
        items[i].pr_into(out, print_readably, store, depth);
        i += 1;
        assert(out@ =~= start + pr_items_spec(
            vals(items@),
            i as nat,
            print_readably,
            sep@,
            store@,
            depth as nat,
        ));
    }
}

/// The texts of `seq` between `start` and `end`, with `join` between any two.
pub fn pr_seq(
    seq: &Vec<MalVal>,
    print_readably: bool,
    start: &str,
    end: &str,
    join: &str,
    store: &Store,
) -> (r: String)
    ensures
        r@ == pr_seq_spec(vals(seq@), print_readably, start@, end@, join@, store@),
{
    let mut out = String::new();
    push_text(&mut out, start);
    pr_items_into(seq, &mut out, print_readably, join, store, ATOM_DEPTH);
    push_text(&mut out, end);
    assert(out@ =~= pr_seq_spec(vals(seq@), print_readably, start@, end@, join@, store@));
    out
}

} // verus!
