use mal::reader::{ByteToCharAdapter, CharReader, MalStream, TokenStream};
use mal::types::{MalRet, MalVal};
use mal::{initialize_mal_env, mal_env, Store, ROOT};

#[test]
fn test_token_stream_simple() {
    let input = "(+ 1 2)";
    let char_reader = input.chars();
    let mut token_stream = TokenStream::new(char_reader);

    let tokens: Vec<String> = token_stream.collect();
    assert!(!tokens.is_empty());
}

#[test]
fn test_mal_stream_single_expression() {
    let store = Store::new();
    let input = "(+ 1 2)";
    let char_reader = input.chars();
    let mut mal_stream = MalStream::new(char_reader);

    // Should get one expression
    match mal_stream.next() {
        Some(Ok(val)) => {
            let result = val.pr_str(true, &store);
            assert_eq!(result, "(+ 1 2)");
        }
        Some(Err(e)) => panic!("Got error: {}", e.pr_str(true, &store)),
        None => panic!("Expected an expression"),
    }

    // Should get None after (end of stream)
    assert!(mal_stream.next().is_none());
}

#[test]
fn test_mal_stream_multiple_expressions() {
    let store = Store::new();
    let input = "(+ 1 2)\n(* 3 4)\n(def! x 5)";
    let char_reader = input.chars();
    let mut mal_stream = MalStream::new(char_reader);

    let results: Vec<MalRet> = mal_stream.collect();

    // Should have 3 expressions
    assert_eq!(results.len(), 3);

    // Check each result
    for (i, result) in results.iter().enumerate() {
        match result {
            Ok(_) => {} // Success
            Err(e) => panic!("Expression {} failed: {}", i, e.pr_str(true, &store)),
        }
    }
}

#[test]
fn test_mal_stream_incomplete_expression() {
    let store = Store::new();
    let input = "(+ 1\n2)"; // Incomplete on first line, completed on second
    let char_reader = input.chars();
    let mut mal_stream = MalStream::new(char_reader);

    match mal_stream.next() {
        Some(Ok(val)) => {
            // Should successfully parse the complete expression
            assert!(val.pr_str(true, &store).contains("+"));
        }
        Some(Err(e)) => panic!("Got error: {}", e.pr_str(true, &store)),
        None => panic!("Expected an expression"),
    }
}

#[test]
fn test_mal_stream_with_strings() {
    let input = r#""hello world" "foo bar""#;
    let char_reader = input.chars();
    let mut mal_stream = MalStream::new(char_reader);

    let results: Vec<MalRet> = mal_stream.collect();

    assert_eq!(results.len(), 2);

    if let Some(Ok(MalVal::Str(s))) = results.first() {
        assert_eq!(s, "hello world");
    } else {
        panic!("Expected first string");
    }
}

#[test]
fn test_mal_stream_error_handling() {
    let store = Store::new();
    let input = "(+ 1 2"; // Unclosed parenthesis
    let char_reader = input.chars();
    let mut mal_stream = MalStream::new(char_reader);

    match mal_stream.next() {
        Some(Err(e)) => {
            let err_msg = e.pr_str(false, &store);
            // Should get an incomplete or EOF error
            assert!(err_msg.contains("EOF") || err_msg.contains("expected"));
        }
        Some(Ok(_)) => panic!("Should have gotten an error"),
        None => {} // Also acceptable - stream ended
    }
}

#[test]
fn test_byte_to_char_adapter_ascii() {
    let bytes = b"(+ 1 2)";
    let mut idx = 0;

    let byte_reader = || {
        if idx < bytes.len() {
            let b = bytes[idx];
            idx += 1;
            Some(b)
        } else {
            None
        }
    };

    let mut adapter = ByteToCharAdapter::new(byte_reader);

    // Read first few characters
    assert_eq!(adapter.read_char(), Some('('));
    assert_eq!(adapter.read_char(), Some('+'));
    assert_eq!(adapter.read_char(), Some(' '));
}

#[test]
fn test_mal_stream_empty_input() {
    let input = "";
    let char_reader = input.chars();
    let mut mal_stream = MalStream::new(char_reader);

    // Should return None for empty input
    assert!(mal_stream.next().is_none());
}

#[test]
fn test_mal_stream_whitespace_only() {
    let input = "   \n\t  ";
    let char_reader = input.chars();
    let mut mal_stream = MalStream::new(char_reader);

    // Should return None or error for whitespace only
    match mal_stream.next() {
        None => {}         // Expected
        Some(Err(_)) => {} // Also acceptable
        Some(Ok(_)) => panic!("Should not parse whitespace as expression"),
    }
}

// Example: How to use MalStream in a real application
#[test]
fn test_example_usage() {
    // Simulate reading from a source (file, UART, etc.)
    let lisp_code = r#"
        (def! square (fn* (x) (* x x)))
        (square 5)
        (+ 1 2)
    "#;

    let char_reader = lisp_code.chars();
    let mut mal_stream = MalStream::new(char_reader);

    let mut env = mal_env();
    initialize_mal_env(ROOT, &mut env, vec![]);

    // Process each expression as it comes
    let mut i = 0;
    while let Some(result) = mal_stream.next() {
        match result {
            Ok(expr) => match mal::eval(&expr, ROOT, &mut env) {
                Ok(val) => println!("Result {}: {}", i + 1, val.pr_str(true, &env)),
                Err(e) => println!(
                    "Error evaluating expression {}: {}",
                    i + 1,
                    e.pr_str(true, &env)
                ),
            },
            Err(e) => {
                println!("Error in expression {}: {}", i + 1, e.pr_str(true, &env));
            }
        }
        i += 1;
    }
    assert_eq!(i, 3);
}

// Example 2: Using rep_stream_to_string (one text at a time)
#[test]
fn test_rep_stream_to_string() {
    let lisp_code = r#"
        (def! add-one (fn* (x) (+ x 1)))
        (add-one 10)
        (add-one 20)
        (* 3 4)
    "#;

    let mut env = mal_env();
    initialize_mal_env(ROOT, &mut env, vec![]);

    // Lazy evaluation with strings
    let mut stream = mal::rep_stream_to_string(lisp_code.chars(), ROOT);
    let mut results: Vec<String> = Vec::new();
    while let Some(s) = stream.next_string(&mut env) {
        results.push(s);
    }

    assert_eq!(results.len(), 4);
    assert_eq!(results[0], "(fn* (x) (+ x 1))");
    assert_eq!(results[1], "11");
    assert_eq!(results[2], "21");
    assert_eq!(results[3], "12");
}

// Example 3: Using rep_stream_to_string_vec (eager Vec<String>)
#[test]
fn test_rep_stream_to_string_vec() {
    let lisp_code = r#"
        (+ 5 5)
        (- 10 3)
        (* 2 2)
    "#;

    let mut env = mal_env();
    initialize_mal_env(ROOT, &mut env, vec![]);

    let results = mal::rep_stream_to_string_vec(lisp_code.chars(), ROOT, &mut env);

    assert_eq!(results.len(), 3);
    assert_eq!(results[0], "10");
    assert_eq!(results[1], "7");
    assert_eq!(results[2], "4");
}

// Example 4: Using rep_stream_to_malret (one result at a time)
#[test]
fn test_rep_stream_to_malret() {
    let lisp_code = r#"
        (+ 1 1)
        (* 5 5)
        (/ 10 2)
    "#;

    let mut env = mal_env();
    initialize_mal_env(ROOT, &mut env, vec![]);

    // Lazy evaluation with raw results
    let mut count = 0;
    let mut stream = mal::rep_stream_to_malret(lisp_code.chars(), ROOT);
    while let Some(result) = stream.next(&mut env) {
        match result {
            Ok(mal::types::MalVal::Int(n)) => {
                match count {
                    0 => assert_eq!(n, 2),
                    1 => assert_eq!(n, 25),
                    2 => assert_eq!(n, 5),
                    _ => panic!("Too many results"),
                }
                count += 1;
            }
            Ok(_) => panic!("Expected Int"),
            Err(e) => panic!("Unexpected error: {}", e.pr_str(true, &env)),
        }
    }

    assert_eq!(count, 3);
}

// Example 5: Using rep_stream_to_malret_vec (raw results)
#[test]
fn test_rep_stream_to_malret_vec() {
    let lisp_code = r#"
        (+ 2 3)
        (* 4 5)
        (- 100 50)
    "#;

    let mut env = mal_env();
    initialize_mal_env(ROOT, &mut env, vec![]);

    let results = mal::rep_stream_to_malret_vec(lisp_code.chars(), ROOT, &mut env);

    assert_eq!(results.len(), 3);

    // Check raw values
    if let Ok(mal::types::MalVal::Int(n)) = results[0] {
        assert_eq!(n, 5);
    } else {
        panic!("Expected Int(5)");
    }

    if let Ok(mal::types::MalVal::Int(n)) = results[1] {
        assert_eq!(n, 20);
    } else {
        panic!("Expected Int(20)");
    }

    if let Ok(mal::types::MalVal::Int(n)) = results[2] {
        assert_eq!(n, 50);
    } else {
        panic!("Expected Int(50)");
    }
}
