use mal::printer::pr_seq;
use mal::types::{func, hash_map, list, vector, Builtin, MalVal};
use mal::{print, Store};

fn text(s: &str) -> MalVal {
    MalVal::Str(s.to_string())
}

#[test]
fn strings_are_quoted_only_when_readable() {
    let store = Store::new();
    let s = text("a\"b\\c\nd");
    assert_eq!(s.pr_str(true, &store), "\"a\\\"b\\\\c\\nd\"");
    assert_eq!(s.pr_str(false, &store), "a\"b\\c\nd");
    assert_eq!(text("").pr_str(true, &store), "\"\"");
    assert_eq!(print(&text("x"), &store), "\"x\"");
}

#[test]
fn numbers_print_in_decimal() {
    let store = Store::new();
    assert_eq!(MalVal::Int(0).pr_str(true, &store), "0");
    assert_eq!(MalVal::Int(7).pr_str(true, &store), "7");
    assert_eq!(MalVal::Int(10).pr_str(true, &store), "10");
    assert_eq!(MalVal::Int(-120).pr_str(true, &store), "-120");
    assert_eq!(
        MalVal::Int(i64::MAX).pr_str(true, &store),
        "9223372036854775807"
    );
    assert_eq!(
        MalVal::Int(i64::MIN).pr_str(true, &store),
        "-9223372036854775808"
    );
    assert_eq!(MalVal::Float("1.25".to_string()).pr_str(true, &store), "1.25");
}

#[test]
fn every_kind_of_value_has_a_text() {
    let mut store = Store::new();
    assert_eq!(MalVal::Nil.pr_str(true, &store), "nil");
    assert_eq!(MalVal::Bool(true).pr_str(true, &store), "true");
    assert_eq!(MalVal::Bool(false).pr_str(true, &store), "false");
    assert_eq!(MalVal::Sym("s".to_string()).pr_str(true, &store), "s");
    assert_eq!(MalVal::Kwd("k".to_string()).pr_str(true, &store), ":k");
    assert_eq!(func(Builtin::Add).pr_str(true, &store), "#<fn ...>");
    let l = list(vec![MalVal::Int(1), text("a"), vector(vec![MalVal::Nil])]);
    assert_eq!(l.pr_str(true, &store), "(1 \"a\" [nil])");
    assert_eq!(l.pr_str(false, &store), "(1 a [nil])");
    assert_eq!(list(vec![]).pr_str(true, &store), "()");
    let m = hash_map(vec![
        text("a"),
        MalVal::Int(1),
        MalVal::Kwd("b".to_string()),
        text("x"),
    ])
    .ok()
    .unwrap();
    assert_eq!(m.pr_str(true, &store), "{\"a\" 1 :b \"x\"}");
    assert_eq!(m.pr_str(false, &store), "{a 1 :b x}");
    let a = store.atom_new(text("in"));
    assert_eq!(MalVal::Atom(a).pr_str(false, &store), "(atom \"in\")");
    assert_eq!(MalVal::Atom(a + 1).pr_str(true, &store), "(atom)");
}

#[test]
fn sequences_are_joined() {
    let store = Store::new();
    let items = vec![MalVal::Int(1), text("b"), MalVal::Nil];
    assert_eq!(pr_seq(&items, true, "(", ")", " ", &store), "(1 \"b\" nil)");
    assert_eq!(pr_seq(&items, false, "", "", "", &store), "1bnil");
    assert_eq!(pr_seq(&items, false, "<", ">", ", ", &store), "<1, b, nil>");
    assert_eq!(pr_seq(&vec![], true, "[", "]", " ", &store), "[]");
    assert_eq!(pr_seq(&vec![MalVal::Int(5)], true, "[", "]", " ", &store), "[5]");
}
