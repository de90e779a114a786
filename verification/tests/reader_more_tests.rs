use mal::reader::{read_atom, read_form, tokenize, unescape_str, Reader};
use mal::types::MalVal;
use mal::{read, read_str, Store};

fn shown(text: &str) -> String {
    let store = Store::new();
    match read_str(text) {
        Ok(v) => v.pr_str(true, &store),
        Err(e) => panic!("{} failed: {}", text, e.pr_str(true, &store)),
    }
}

fn refused(text: &str) -> String {
    let store = Store::new();
    match read_str(text) {
        Ok(v) => panic!("{} gave {}", text, v.pr_str(true, &store)),
        Err(e) => e.pr_str(false, &store),
    }
}

#[test]
fn tokens_are_split_as_the_grammar_says() {
    assert_eq!(tokenize("(+ 1 2)"), vec!["(", "+", "1", "2", ")"]);
    assert_eq!(tokenize("  a\tb\nc\r"), vec!["a", "b", "c"]);
    assert_eq!(tokenize("~@x ~y 'z `w ^m @a"), vec![
        "~@", "x", "~", "y", "'", "z", "`", "w", "^", "m", "@", "a"
    ]);
    assert_eq!(tokenize("[a]{b}"), vec!["[", "a", "]", "{", "b", "}"]);
    assert_eq!(tokenize("a ; rest of line\nb"), vec!["a", "b"]);
    assert_eq!(tokenize("; only a comment"), Vec::<String>::new());
    assert_eq!(tokenize(""), Vec::<String>::new());
    assert_eq!(tokenize("\"a b\" c"), vec!["\"a b\"", "c"]);
    assert_eq!(tokenize("\"a\\\"b\""), vec!["\"a\\\"b\""]);
    assert_eq!(tokenize("\"a\\\\\" b"), vec!["\"a\\\\\"", "b"]);
    assert_eq!(tokenize("\"open"), vec!["\"open"]);
    assert_eq!(tokenize("ab\"cd\"ef"), vec!["ab", "\"cd\"", "ef"]);
    assert_eq!(tokenize(":kw a-b! x@y"), vec![":kw", "a-b!", "x@y"]);
    assert_eq!(tokenize("a,b"), vec!["a,b"]);
    assert_eq!(tokenize("~"), vec!["~"]);
}

#[test]
fn atoms_are_read_by_their_shape() {
    assert!(matches!(read_str("nil"), Ok(MalVal::Nil)));
    assert!(matches!(read_str("true"), Ok(MalVal::Bool(true))));
    assert!(matches!(read_str("false"), Ok(MalVal::Bool(false))));
    assert!(matches!(read_str("0"), Ok(MalVal::Int(0))));
    assert!(matches!(read_str("-17"), Ok(MalVal::Int(-17))));
    assert!(matches!(read_str("007"), Ok(MalVal::Int(7))));
    assert!(matches!(
        read_str("9223372036854775807"),
        Ok(MalVal::Int(9223372036854775807))
    ));
    assert!(matches!(
        read_str("-9223372036854775808"),
        Ok(MalVal::Int(i64::MIN))
    ));
    match read_str("9223372036854775808") {
        Ok(MalVal::Float(s)) => assert_eq!(s, "9223372036854775808"),
        _ => panic!("expected a float"),
    }
    match read_str("1.5") {
        Ok(MalVal::Float(s)) => assert_eq!(s, "1.5"),
        _ => panic!("expected a float"),
    }
    match read_str("-.5") {
        Ok(MalVal::Float(s)) => assert_eq!(s, "-.5"),
        _ => panic!("expected a float"),
    }
    match read_str("3.") {
        Ok(MalVal::Float(s)) => assert_eq!(s, "3."),
        _ => panic!("expected a float"),
    }
    match read_str("1.2.3") {
        Ok(MalVal::Sym(s)) => assert_eq!(s, "1.2.3"),
        _ => panic!("expected a symbol"),
    }
    match read_str("-") {
        Ok(MalVal::Sym(s)) => assert_eq!(s, "-"),
        _ => panic!("expected a symbol"),
    }
    match read_str(".") {
        Ok(MalVal::Sym(s)) => assert_eq!(s, "."),
        _ => panic!("expected a symbol"),
    }
    match read_str("1-2") {
        Ok(MalVal::Sym(s)) => assert_eq!(s, "1-2"),
        _ => panic!("expected a symbol"),
    }
    match read_str("--1") {
        Ok(MalVal::Sym(s)) => assert_eq!(s, "--1"),
        _ => panic!("expected a symbol"),
    }
    match read_str(":name") {
        Ok(MalVal::Kwd(s)) => assert_eq!(s, "name"),
        _ => panic!("expected a keyword"),
    }
    match read_str("abc") {
        Ok(MalVal::Sym(s)) => assert_eq!(s, "abc"),
        _ => panic!("expected a symbol"),
    }
    match read_str("\"a\\nb\\tc\\rd\\\\e\\\"f\\qg\"") {
        Ok(MalVal::Str(s)) => assert_eq!(s, "a\nb\tc\rd\\e\"f\\qg"),
        _ => panic!("expected a string"),
    }
    match read_str("\"\"") {
        Ok(MalVal::Str(s)) => assert_eq!(s, ""),
        _ => panic!("expected a string"),
    }
}

#[test]
fn literal_atoms_come_back_as_written() {
    assert_eq!(shown("1"), "1");
    assert_eq!(shown("\"ab\""), "\"ab\"");
    assert_eq!(shown("nil"), "nil");
    assert_eq!(shown("true"), "true");
    assert_eq!(shown("false"), "false");
    assert_eq!(shown("-0"), "0");
    assert_eq!(shown("0042"), "42");
    assert_eq!(shown("-9223372036854775808"), "-9223372036854775808");
    assert_eq!(shown("\"a\\\"b\\\\c\\nd\""), "\"a\\\"b\\\\c\\nd\"");
    assert_eq!(shown("\"tab\\there\""), "\"tab\there\"");
    assert_eq!(shown(":k"), ":k");
    assert_eq!(shown("sym"), "sym");
    assert_eq!(shown("2.50"), "2.50");
}

#[test]
fn reader_macros_expand_to_calls() {
    assert_eq!(shown("'x"), "(quote x)");
    assert_eq!(shown("`x"), "(quasiquote x)");
    assert_eq!(shown("~x"), "(unquote x)");
    assert_eq!(shown("~@x"), "(splice-unquote x)");
    assert_eq!(shown("@x"), "(deref x)");
    assert_eq!(shown("^{:a 1} [1 2]"), "(with-meta [1 2] {:a 1})");
    assert_eq!(shown("'(1 'b)"), "(quote (1 (quote b)))");
}

#[test]
fn sequences_nest() {
    assert_eq!(shown("(1 (2 [3 {:a (4)}]))"), "(1 (2 [3 {:a (4)}]))");
    assert_eq!(shown("()"), "()");
    assert_eq!(shown("[]"), "[]");
    assert_eq!(shown("{}"), "{}");
    assert_eq!(shown("{\"a\" 1 :b 2}"), "{\"a\" 1 :b 2}");
    assert_eq!(shown("{:a 1 :a 2}"), "{:a 2}");
    assert_eq!(shown("(1 2) 3"), "(1 2)");
    assert_eq!(shown(" ; note\n 5"), "5");
}

#[test]
fn malformed_text_is_refused() {
    assert_eq!(refused(""), "no input");
    assert_eq!(refused("   "), "no input");
    assert_eq!(refused("; nothing"), "no input");
    assert_eq!(refused(")"), "unexpected ')'");
    assert_eq!(refused("]"), "unexpected ']'");
    assert_eq!(refused("}"), "unexpected '}'");
    assert_eq!(refused("(1 ]"), "unexpected ']'");
    assert_eq!(refused("{:a}"), "odd number of elements");
    assert_eq!(refused("{1 2}"), "key is not string");
}

#[test]
fn input_that_ends_early_is_incomplete() {
    assert_eq!(refused("(+ 1"), "INCOMPLETE:expected ')', got EOF");
    assert_eq!(refused("[1 (2)"), "INCOMPLETE:expected ']', got EOF");
    assert_eq!(refused("{:a 1"), "INCOMPLETE:expected '}', got EOF");
    assert_eq!(refused("\"abc"), "INCOMPLETE:expected '\"', got EOF");
    assert_eq!(refused("\"abc\\\""), "INCOMPLETE:expected '\"', got EOF");
    assert_eq!(refused("\""), "INCOMPLETE:expected '\"', got EOF");
    assert_eq!(refused("(1 \"x"), "INCOMPLETE:expected '\"', got EOF");
    assert_eq!(refused("'"), "INCOMPLETE:expected form, got EOF");
    assert_eq!(refused("(a '"), "INCOMPLETE:expected form, got EOF");
    assert_eq!(refused("(a `"), "INCOMPLETE:expected form, got EOF");
    assert_eq!(refused("[~"), "INCOMPLETE:expected form, got EOF");
    assert_eq!(refused("{:a ~@"), "INCOMPLETE:expected form, got EOF");
    assert_eq!(refused("(@"), "INCOMPLETE:expected form, got EOF");
    assert_eq!(refused("(^"), "INCOMPLETE:expected form, got EOF");
    assert_eq!(refused("^{}"), "INCOMPLETE:expected form, got EOF");
    assert_eq!(refused("(^{:a 1}"), "INCOMPLETE:expected form, got EOF");
    assert_eq!(refused("''"), "INCOMPLETE:expected form, got EOF");
    assert_eq!(refused("(a ')"), "unexpected ')'");
    assert_eq!(shown("(+ 1)"), "(+ 1)");
    match read("(+ 1") {
        Err(MalVal::Str(m)) => assert!(m.starts_with("INCOMPLETE:")),
        _ => panic!("expected a message"),
    }
}

#[test]
fn escapes_are_undone() {
    assert_eq!(unescape_str("a\\nb"), "a\nb");
    assert_eq!(unescape_str("\\t\\r\\\\\\\""), "\t\r\\\"");
    assert_eq!(unescape_str("\\x"), "\\x");
    assert_eq!(unescape_str("end\\"), "end\\");
    assert_eq!(unescape_str(""), "");
    assert_eq!(unescape_str("plain"), "plain");
}

#[test]
fn reader_walks_its_tokens() {
    let mut rdr = Reader {
        tokens: vec!["a".to_string(), "b".to_string()],
        pos: 0,
    };
    assert_eq!(rdr.peek().ok().unwrap(), "a");
    assert_eq!(rdr.next().ok().unwrap(), "a");
    assert_eq!(rdr.pos, 1);
    assert_eq!(rdr.peek().ok().unwrap(), "b");
    assert_eq!(rdr.next().ok().unwrap(), "b");
    assert!(matches!(rdr.peek(), Err(MalVal::Str(m)) if m == "underflow"));
    assert!(matches!(rdr.next(), Err(MalVal::Str(m)) if m == "underflow"));
    assert_eq!(rdr.pos, 2);
}

#[test]
fn forms_are_read_from_a_position() {
    let mut rdr = Reader {
        tokens: vec!["1".to_string(), "(".to_string(), "x".to_string(), ")".to_string()],
        pos: 1,
    };
    let store = Store::new();
    match read_form(&mut rdr) {
        Ok(v) => assert_eq!(v.pr_str(true, &store), "(x)"),
        Err(_) => panic!("expected a list"),
    }
    assert_eq!(rdr.pos, 4);
    rdr.pos = 0;
    assert!(matches!(read_atom(&mut rdr), Ok(MalVal::Int(1))));
    assert_eq!(rdr.pos, 1);
}
