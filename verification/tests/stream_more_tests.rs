use mal::reader::{ByteToCharAdapter, CharReader, MalStream, TokenStream};
use mal::stream::{first_char, starts_with, try_parse, utf8_width};
use mal::reader::Reader;
use mal::types::MalVal;
use mal::{mal_env, rep_stream_to_string_vec, Store, ROOT};

fn bytes_reader(bytes: Vec<u8>) -> ByteToCharAdapter<impl FnMut() -> Option<u8>> {
    let mut idx = 0;
    ByteToCharAdapter::new(move || {
        if idx < bytes.len() {
            let b = bytes[idx];
            idx += 1;
            Some(b)
        } else {
            None
        }
    })
}

#[test]
fn bytes_are_decoded_as_utf8() {
    let mut r = bytes_reader("a\u{e9}\u{20ac}\u{1f600}z".as_bytes().to_vec());
    assert_eq!(r.read_char(), Some('a'));
    assert_eq!(r.read_char(), Some('\u{e9}'));
    assert_eq!(r.read_char(), Some('\u{20ac}'));
    assert_eq!(r.read_char(), Some('\u{1f600}'));
    assert_eq!(r.read_char(), Some('z'));
    assert_eq!(r.read_char(), None);
}

#[test]
fn bytes_that_are_no_character_give_nothing() {
    assert_eq!(bytes_reader(vec![0x80]).read_char(), None);
    assert_eq!(bytes_reader(vec![0xff]).read_char(), None);
    assert_eq!(bytes_reader(vec![0xc3]).read_char(), None);
    assert_eq!(bytes_reader(vec![0xc3, 0x41]).read_char(), None);
    assert_eq!(bytes_reader(vec![0xc0, 0x80]).read_char(), None);
    assert_eq!(bytes_reader(vec![0xed, 0xa0, 0x80]).read_char(), None);
    assert_eq!(bytes_reader(vec![0xe2, 0x82]).read_char(), None);
    assert_eq!(bytes_reader(vec![]).read_char(), None);
}

#[test]
fn width_follows_the_first_byte() {
    assert_eq!(utf8_width(0x41), None);
    assert_eq!(utf8_width(0x80), None);
    assert_eq!(utf8_width(0xbf), None);
    assert_eq!(utf8_width(0xc0), Some(2));
    assert_eq!(utf8_width(0xdf), Some(2));
    assert_eq!(utf8_width(0xe0), Some(3));
    assert_eq!(utf8_width(0xef), Some(3));
    assert_eq!(utf8_width(0xf0), Some(4));
    assert_eq!(utf8_width(0xf7), Some(4));
    assert_eq!(utf8_width(0xf8), None);
    assert_eq!(utf8_width(0xff), None);
}

#[test]
fn first_character_of_bytes() {
    assert_eq!(first_char(&vec![0x41, 0x42]), Some('A'));
    assert_eq!(first_char(&vec![0xc3, 0xa9]), Some('\u{e9}'));
    assert_eq!(first_char(&vec![0xc3]), None);
    assert_eq!(first_char(&vec![]), None);
}

#[test]
fn token_stream_hands_out_tokens_in_order() {
    let mut ts = TokenStream::new("(a \"b c\" ~@d) ; end".chars());
    let mut seen: Vec<String> = Vec::new();
    while let Some(t) = ts.next() {
        seen.push(t);
    }
    assert_eq!(seen, vec!["(", "a", "\"b c\"", "~@", "d", ")"]);
    assert_eq!(ts.next(), None);
    let mut empty = TokenStream::new("".chars());
    assert_eq!(empty.next(), None);
    assert_eq!(empty.collect(), Vec::<String>::new());
}

#[test]
fn stream_of_bytes_gives_forms() {
    let store = Store::new();
    let mut stream = MalStream::new(bytes_reader("(a \"\u{e9}\") 2".as_bytes().to_vec()));
    match stream.next() {
        Some(Ok(v)) => assert_eq!(v.pr_str(true, &store), "(a \"\u{e9}\")"),
        _ => panic!("expected a list"),
    }
    assert!(matches!(stream.next(), Some(Ok(MalVal::Int(2)))));
    assert!(stream.next().is_none());
}

#[test]
fn stream_goes_on_behind_a_failure() {
    let mut stream = MalStream::new(") 1 (2".chars());
    assert!(matches!(stream.next(), Some(Err(MalVal::Str(m))) if m == "unexpected ')'"));
    assert!(matches!(stream.next(), Some(Ok(MalVal::Int(1)))));
    assert!(
        matches!(stream.next(), Some(Err(MalVal::Str(m))) if m == "INCOMPLETE:expected ')', got EOF")
    );
    assert!(stream.next().is_none());
}

#[test]
fn gathered_tokens_are_tried() {
    let mut rdr = Reader {
        tokens: vec!["(".to_string(), "1".to_string()],
        pos: 0,
    };
    assert!(try_parse(&mut rdr).is_none());
    rdr.tokens.push(")".to_string());
    assert!(matches!(try_parse(&mut rdr), Some(Ok(MalVal::List(_, _)))));
    assert_eq!(rdr.pos, 0);
    let mut bad = Reader {
        tokens: vec!["]".to_string()],
        pos: 0,
    };
    assert!(matches!(try_parse(&mut bad), Some(Err(MalVal::Str(_)))));
    assert!(starts_with("INCOMPLETE:x", "INCOMPLETE:"));
    assert!(!starts_with("INCOMPLET", "INCOMPLETE:"));
    assert!(!starts_with("xINCOMPLETE:", "INCOMPLETE:"));
    assert!(starts_with("abc", ""));
}

#[test]
fn failures_are_rendered_in_a_stream() {
    let mut store = mal_env();
    let out = rep_stream_to_string_vec("(+ 1 2) (/ 1 0) \"s\" nope".chars(), ROOT, &mut store);
    assert_eq!(
        out,
        vec![
            "3",
            "Error: \"division by zero\"",
            "\"s\"",
            "Error: \"'nope' not found\""
        ]
    );
}

#[test]
fn characters_are_taken_only_as_far_as_needed() {
    let count = std::cell::Cell::new(0usize);
    let chars = "(+ 1 2) (* 3 4)".chars().inspect(|_| count.set(count.get() + 1));
    let mut stream = MalStream::new(chars);
    assert!(matches!(stream.next(), Some(Ok(MalVal::List(_, _)))));
    assert_eq!(count.get(), 7);
    assert!(matches!(stream.next(), Some(Ok(MalVal::List(_, _)))));
    assert_eq!(count.get(), 15);
    assert!(stream.next().is_none());
    assert_eq!(count.get(), 15);

    let seen = std::cell::Cell::new(0usize);
    let mut tokens = TokenStream::new("ab cd \"x y\"z".chars().inspect(|_| seen.set(seen.get() + 1)));
    assert_eq!(tokens.next().unwrap(), "ab");
    assert_eq!(seen.get(), 3);
    assert_eq!(tokens.next().unwrap(), "cd");
    assert_eq!(seen.get(), 6);
    assert_eq!(tokens.next().unwrap(), "\"x y\"");
    assert_eq!(seen.get(), 11);
    assert_eq!(tokens.next().unwrap(), "z");
    assert_eq!(seen.get(), 12);
    assert_eq!(tokens.next(), None);
}

#[test]
fn a_stream_gives_the_tokens_of_its_text() {
    let texts = [
        "(+ 1 2)",
        "  a ; c\n b ~@c ~",
        "\"open",
        "\"a\\\"b\" [x]{y}",
        "; only\n",
        "",
        "~",
        "'a`b^c@d",
    ];
    for text in texts.iter() {
        let mut stream = TokenStream::new(text.chars());
        assert_eq!(stream.collect(), mal::reader::tokenize(text));
    }
}

#[test]
fn an_iterator_of_characters_is_a_source() {
    let mut chars = "a\u{e9}".chars();
    assert_eq!(chars.read_char(), Some('a'));
    assert_eq!(chars.read_char(), Some('\u{e9}'));
    assert_eq!(chars.read_char(), None);
    assert_eq!(chars.read_char(), None);
    let mut none = "".chars();
    assert_eq!(none.read_char(), None);
    let mut owned = vec!['x', 'y'].into_iter();
    assert_eq!(owned.read_char(), Some('x'));
    assert_eq!(owned.read_char(), Some('y'));
    assert_eq!(owned.read_char(), None);
}

#[test]
fn a_reader_macro_waits_for_its_form() {
    let store = Store::new();
    let shown = |text: &str| -> Vec<String> {
        let mut stream = MalStream::new(text.chars());
        stream
            .collect()
            .iter()
            .map(|r| match r {
                Ok(v) => v.pr_str(true, &store),
                Err(e) => format!("!{}", e.pr_str(false, &store)),
            })
            .collect()
    };
    assert_eq!(shown("'a"), vec!["(quote a)"]);
    assert_eq!(shown("`(a ~b ~@c) @d"), vec![
        "(quasiquote (a (unquote b) (splice-unquote c)))",
        "(deref d)"
    ]);
    assert_eq!(shown("^{:m 1} [2] 3"), vec!["(with-meta [2] {:m 1})", "3"]);
    assert_eq!(shown("(1 '(2) ''3)"), vec!["(1 (quote (2)) (quote (quote 3)))"]);
    assert_eq!(shown("'"), vec!["!INCOMPLETE:expected form, got EOF"]);
    assert_eq!(shown("^{}"), vec!["!INCOMPLETE:expected form, got EOF"]);
    assert_eq!(shown("a ')"), vec!["a", "!unexpected ')'"]);
    let mut rdr = Reader {
        tokens: vec!["'".to_string()],
        pos: 0,
    };
    assert!(try_parse(&mut rdr).is_none());
    rdr.tokens.push("x".to_string());
    assert!(matches!(try_parse(&mut rdr), Some(Ok(MalVal::List(_, _)))));
}

#[test]
fn one_byte_says_how_many_follow() {
    assert_eq!(mal::stream::char_width(0x00), Some(1));
    assert_eq!(mal::stream::char_width(0x7f), Some(1));
    assert_eq!(mal::stream::char_width(0x80), None);
    assert_eq!(mal::stream::char_width(0xbf), None);
    assert_eq!(mal::stream::char_width(0xc2), Some(2));
    assert_eq!(mal::stream::char_width(0xe2), Some(3));
    assert_eq!(mal::stream::char_width(0xf0), Some(4));
    assert_eq!(mal::stream::char_width(0xf8), None);
    let mut r = bytes_reader(vec![0xe2, 0x82, 0xac, 0x41]);
    assert_eq!(r.read_bytes(), Some(vec![0xe2, 0x82, 0xac]));
    assert_eq!(r.read_bytes(), Some(vec![0x41]));
    assert_eq!(r.read_bytes(), None);
    assert_eq!(bytes_reader(vec![0xe2, 0x82]).read_bytes(), None);
    assert_eq!(bytes_reader(vec![0xff, 0x41]).read_bytes(), None);
}
