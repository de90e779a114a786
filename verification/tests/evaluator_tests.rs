use mal::types::MalVal;
use mal::{eval_bounded, initialize_mal_env, mal_env, read, rep, Store, ROOT};

fn fresh() -> Store {
    let mut store = mal_env();
    assert!(initialize_mal_env(ROOT, &mut store, vec![]));
    store
}

fn ok(store: &mut Store, text: &str) -> String {
    match rep(text, ROOT, store) {
        Ok(s) => s,
        Err(e) => panic!("{} failed: {}", text, e.pr_str(true, store)),
    }
}

fn thrown(store: &mut Store, text: &str) -> String {
    match rep(text, ROOT, store) {
        Ok(s) => panic!("{} gave {}", text, s),
        Err(e) => e.pr_str(false, store),
    }
}

#[test]
fn quote_hands_back_its_argument() {
    let mut s = fresh();
    assert_eq!(ok(&mut s, "(quote (+ 1 2))"), "(+ 1 2)");
    assert_eq!(ok(&mut s, "(quote undefined-name)"), "undefined-name");
    assert_eq!(ok(&mut s, "'(a [b {:c d}])"), "(a [b {:c d}])");
}

#[test]
fn closure_takes_exactly_its_parameters() {
    let mut s = fresh();
    ok(&mut s, "(def! f (fn* (a b) (+ a b)))");
    assert_eq!(
        thrown(&mut s, "(f 1)"),
        "wrong number of arguments: function requires more arguments than provided"
    );
    assert_eq!(
        thrown(&mut s, "(f 1 2 3)"),
        "wrong number of arguments: function received more arguments than expected"
    );
    assert_eq!(ok(&mut s, "(f 1 2)"), "3");
}

#[test]
fn tail_calls_run_in_a_loop() {
    let mut s = fresh();
    ok(
        &mut s,
        "(def! count-down (fn* (n) (if (= n 0) 0 (count-down (- n 1)))))",
    );
    assert_eq!(ok(&mut s, "(count-down 100000)"), "0");
    ok(
        &mut s,
        "(def! sum-to (fn* (n acc) (do 1 (let* (m (- n 1)) (if (= n 0) acc (sum-to m (+ acc n)))))))",
    );
    assert_eq!(ok(&mut s, "(sum-to 100000 0)"), "5000050000");
}

#[test]
fn quasiquote_unquotes_and_splices() {
    let mut s = fresh();
    assert_eq!(ok(&mut s, "`(1 (unquote (+ 1 1)) 3)"), "(1 2 3)");
    assert_eq!(ok(&mut s, "`(1 ~@(list 2 3) 4)"), "(1 2 3 4)");
    assert_eq!(ok(&mut s, "`(1 ~(+ 1 1) 3)"), "(1 2 3)");
    assert_eq!(ok(&mut s, "(quasiquote (a b))"), "(a b)");
    assert_eq!(ok(&mut s, "`[1 ~(+ 1 1)]"), "[1 2]");
    assert_eq!(ok(&mut s, "`{:a b}"), "{:a b}");
    assert_eq!(ok(&mut s, "`7"), "7");
    assert_eq!(ok(&mut s, "(quasiquote (unquote (+ 2 3)))"), "5");
}

#[test]
fn only_nil_and_false_are_false() {
    let mut s = fresh();
    assert_eq!(ok(&mut s, "(if 0 \"t\" \"f\")"), "\"t\"");
    assert_eq!(ok(&mut s, "(if nil \"t\" \"f\")"), "\"f\"");
    assert_eq!(ok(&mut s, "(if false \"t\" \"f\")"), "\"f\"");
    assert_eq!(ok(&mut s, "(if () \"t\" \"f\")"), "\"t\"");
    assert_eq!(ok(&mut s, "(if \"\" \"t\" \"f\")"), "\"t\"");
    assert_eq!(ok(&mut s, "(if false 1)"), "nil");
    assert_eq!(ok(&mut s, "(if true)"), "nil");
    assert_eq!(ok(&mut s, "(if true 1)"), "1");
}

#[test]
fn def_binds_in_the_current_scope() {
    let mut s = fresh();
    assert_eq!(ok(&mut s, "(def! x 42)"), "42");
    assert_eq!(ok(&mut s, "(* x 2)"), "84");
    assert_eq!(thrown(&mut s, "(def! 1 2)"), "Env.set called with non-Str");
    assert_eq!(thrown(&mut s, "(def! y)"), "wrong number of arguments");
}

#[test]
fn division_by_zero_is_thrown() {
    let mut s = fresh();
    assert_eq!(thrown(&mut s, "(/ 1 0)"), "division by zero");
    assert_eq!(ok(&mut s, "(/ 7 2)"), "3");
    assert_eq!(ok(&mut s, "(/ -7 2)"), "-3");
    assert_eq!(ok(&mut s, "(/ 7 -2)"), "-3");
    assert_eq!(ok(&mut s, "(/ -7 -2)"), "3");
    assert_eq!(
        thrown(&mut s, "(/ -9223372036854775808 -1)"),
        "integer overflow"
    );
}

#[test]
fn rest_parameter_collects_the_other_arguments() {
    let mut s = fresh();
    assert_eq!(ok(&mut s, "((fn* (a & rest) rest) 1 2 3)"), "(2 3)");
    assert_eq!(ok(&mut s, "((fn* (a & rest) rest) 1)"), "()");
    assert_eq!(ok(&mut s, "((fn* (& all) all) 1 2)"), "(1 2)");
    assert_eq!(
        thrown(&mut s, "((fn* (a b & rest) rest) 1)"),
        "wrong number of arguments: function requires more arguments than provided"
    );
    assert_eq!(
        thrown(&mut s, "((fn* (a &) a) 1)"),
        "wrong number of arguments: no parameter after &"
    );
}

#[test]
fn catch_binds_what_was_thrown() {
    let mut s = fresh();
    assert_eq!(
        ok(&mut s, "(try* (throw \"boom\") (catch* e e))"),
        "\"boom\""
    );
    assert_eq!(ok(&mut s, "(try* (/ 1 0) (catch* e (str \"got \" e)))"), "\"got division by zero\"");
    assert_eq!(ok(&mut s, "(try* 5 (catch* e 6))"), "5");
    assert_eq!(ok(&mut s, "(try* 5)"), "5");
    assert_eq!(thrown(&mut s, "(try* (throw 1) 7)"), "1");
    assert_eq!(thrown(&mut s, "(try* (throw 1) (catch* 2 3))"), "1");
    assert_eq!(thrown(&mut s, "(try* (throw 1) (catch e 3))"), "1");
    assert_eq!(thrown(&mut s, "(try* (throw 1) (list e 3))"), "1");
    assert_eq!(thrown(&mut s, "(try* (throw 1) (\"catch*\" e 3))"), "1");
    assert_eq!(thrown(&mut s, "(try* (throw 1) (catch* e))"), "1");
    assert_eq!(ok(&mut s, "(try* (throw 1) (catch* e (+ e 1) ignored))"), "2");
    assert_eq!(ok(&mut s, "(def! err 5)"), "5");
    assert_eq!(ok(&mut s, "(try* (throw 1) (catch* err (+ err 1)))"), "2");
    assert_eq!(ok(&mut s, "(try* 7 (catch* e (def! never-run 1)))"), "7");
    assert_eq!(thrown(&mut s, "never-run"), "'never-run' not found");
    assert_eq!(ok(&mut s, "err"), "5");
    assert_eq!(ok(&mut s, "(let* (x 1) (do (def! y 2) (+ x y)))"), "3");
    assert_eq!(thrown(&mut s, "y"), "'y' not found");
    assert_eq!(ok(&mut s, "(try* (throw {:a 1}) (catch* e (get e :a)))"), "1");
    assert_eq!(thrown(&mut s, "e"), "'e' not found");
}

#[test]
fn do_evaluates_in_order() {
    let mut s = fresh();
    assert_eq!(ok(&mut s, "(do)"), "nil");
    assert_eq!(ok(&mut s, "(do 1)"), "1");
    assert_eq!(ok(&mut s, "(do (def! a 1) (def! b (+ a 1)) (+ a b))"), "3");
    assert_eq!(thrown(&mut s, "(do (throw 9) (def! never 1))"), "9");
    assert_eq!(thrown(&mut s, "never"), "'never' not found");
}

#[test]
fn let_sees_earlier_bindings() {
    let mut s = fresh();
    assert_eq!(ok(&mut s, "(let* (a 1 b (+ a 1)) (* b 10))"), "20");
    assert_eq!(ok(&mut s, "(let* [a 1 b (+ a 1)] (* b 10))"), "20");
    assert_eq!(ok(&mut s, "(let* (a 1 b) a)"), "1");
    assert_eq!(thrown(&mut s, "a"), "'a' not found");
    assert_eq!(thrown(&mut s, "(let* 1 2)"), "let* with non-List bindings");
    assert_eq!(thrown(&mut s, "(let* (1 2) 3)"), "Env.set called with non-Str");
}

#[test]
fn symbols_vectors_and_maps_evaluate() {
    let mut s = fresh();
    assert_eq!(thrown(&mut s, "nothing-here"), "'nothing-here' not found");
    assert_eq!(ok(&mut s, "[1 (+ 1 1) \"x\"]"), "[1 2 \"x\"]");
    assert_eq!(ok(&mut s, "{\"a\" (+ 1 1) :b (* 2 3)}"), "{\"a\" 2 :b 6}");
    assert_eq!(ok(&mut s, "()"), "()");
    assert_eq!(ok(&mut s, ":kw"), ":kw");
    assert_eq!(ok(&mut s, "+"), "#<fn ...>");
    assert_eq!(ok(&mut s, "(fn* (a) a)"), "(fn* (a) a)");
}

#[test]
fn calling_what_is_no_function_fails() {
    let mut s = fresh();
    assert_eq!(thrown(&mut s, "(1 2)"), "attempt to call non-function");
    assert_eq!(thrown(&mut s, "(\"f\")"), "attempt to call non-function");
    assert_eq!(thrown(&mut s, "((throw 3) 1)"), "3");
    assert_eq!(thrown(&mut s, "(+ 1 (throw 4))"), "4");
}

#[test]
fn macros_get_their_arguments_unevaluated() {
    let mut s = fresh();
    ok(&mut s, "(defmacro! unless (fn* (c a b) (list 'if c b a)))");
    assert_eq!(ok(&mut s, "(unless false 1 (throw 2))"), "1");
    assert_eq!(ok(&mut s, "(macro? unless)"), "true");
    assert_eq!(ok(&mut s, "(fn? unless)"), "false");
    assert_eq!(ok(&mut s, "(cond false 1 true 2)"), "2");
    assert_eq!(ok(&mut s, "(cond false 1)"), "nil");
    assert_eq!(thrown(&mut s, "(cond true)"), "odd number of forms to cond");
    assert_eq!(thrown(&mut s, "(defmacro! m 1)"), "set_macro on non-function");
    assert_eq!(ok(&mut s, "(not nil)"), "true");
    assert_eq!(ok(&mut s, "(not 0)"), "false");
    assert_eq!(ok(&mut s, "*host-language*"), "\"rust\"");
}

#[test]
fn closures_capture_their_scope() {
    let mut s = fresh();
    ok(&mut s, "(def! make-adder (fn* (n) (fn* (x) (+ x n))))");
    ok(&mut s, "(def! add5 (make-adder 5))");
    assert_eq!(ok(&mut s, "(add5 10)"), "15");
    ok(&mut s, "(def! fib (fn* (n) (if (< n 2) n (+ (fib (- n 1)) (fib (- n 2))))))");
    assert_eq!(ok(&mut s, "(fib 15)"), "610");
}

#[test]
fn atoms_are_the_only_mutable_places() {
    let mut s = fresh();
    ok(&mut s, "(def! a (atom 1))");
    assert_eq!(ok(&mut s, "(atom? a)"), "true");
    assert_eq!(ok(&mut s, "(deref a)"), "1");
    assert_eq!(ok(&mut s, "@a"), "1");
    assert_eq!(ok(&mut s, "(swap! a + 2)"), "3");
    assert_eq!(ok(&mut s, "(swap! a (fn* (x y z) (* x (+ y z))) 2 3)"), "15");
    assert_eq!(ok(&mut s, "(reset! a (list 1 2))"), "(1 2)");
    assert_eq!(ok(&mut s, "a"), "(atom (1 2))");
    assert_eq!(ok(&mut s, "(= a a)"), "false");
    assert_eq!(thrown(&mut s, "(deref 1)"), "attempt to deref a non-Atom");
    assert_eq!(thrown(&mut s, "(reset! 1 2)"), "attempt to reset! a non-Atom");
    assert_eq!(thrown(&mut s, "(swap! 1 +)"), "attempt to swap! a non-Atom");
    assert_eq!(thrown(&mut s, "(swap! a (fn* (x) (throw \"no\")))"), "no");
    assert_eq!(ok(&mut s, "@a"), "(1 2)");
    ok(&mut s, "(reset! a a)");
    let looped = ok(&mut s, "a");
    assert!(looped.starts_with("(atom (atom (atom "));
    assert!(looped.contains("(atom (atom)))"));
    assert_eq!(looped.len(), 6 + 7 * 256);
}

#[test]
fn apply_and_map_call_functions() {
    let mut s = fresh();
    assert_eq!(ok(&mut s, "(apply + (list 1 2))"), "3");
    assert_eq!(ok(&mut s, "(apply + 1 [2])"), "3");
    assert_eq!(ok(&mut s, "(apply (fn* (& xs) xs) 1 2 (list 3 4))"), "(1 2 3 4)");
    assert_eq!(thrown(&mut s, "(apply + 1)"), "apply called with non-seq");
    assert_eq!(ok(&mut s, "(map (fn* (x) (* x 2)) (list 1 2 3))"), "(2 4 6)");
    assert_eq!(ok(&mut s, "(map list [1 2])"), "((1) (2))");
    assert_eq!(thrown(&mut s, "(map list 1)"), "map called with non-seq");
    assert_eq!(thrown(&mut s, "(map (fn* (x) (throw x)) [7 8])"), "7");
    assert_eq!(ok(&mut s, "(eval (list + 1 2))"), "3");
    ok(&mut s, "(def! z 9)");
    assert_eq!(ok(&mut s, "(let* (z 1) (eval 'z))"), "9");
}

#[test]
fn evaluation_stops_at_its_limit() {
    let mut s = fresh();
    let ast = read("(+ 1 (+ 2 3))").unwrap();
    match eval_bounded(&ast, ROOT, &mut s, 2) {
        Err(MalVal::Str(m)) => assert_eq!(m, "evaluation limit reached"),
        _ => panic!("expected the limit"),
    }
    match eval_bounded(&ast, ROOT, &mut s, 0) {
        Err(MalVal::Str(m)) => assert_eq!(m, "evaluation limit reached"),
        _ => panic!("expected the limit"),
    }
    match eval_bounded(&ast, ROOT, &mut s, 3) {
        Ok(MalVal::Int(n)) => assert_eq!(n, 6),
        _ => panic!("expected 6"),
    }
    let forever = read("((fn* (f) (f f)) (fn* (f) (f f)))").unwrap();
    match eval_bounded(&forever, ROOT, &mut s, 10000) {
        Err(MalVal::Str(m)) => assert_eq!(m, "evaluation limit reached"),
        _ => panic!("expected the limit"),
    }
}

#[test]
fn argv_is_bound_as_a_list_of_strings() {
    let mut store = mal_env();
    assert!(initialize_mal_env(
        ROOT,
        &mut store,
        vec!["a".to_string(), "b c".to_string()]
    ));
    assert_eq!(ok(&mut store, "*ARGV*"), "(\"a\" \"b c\")");
}

struct Shelf;

impl mal::SystemOps for Shelf {
    fn read_file(&self, path: &str) -> Result<String, String> {
        match path {
            "defs.mal" => Ok("(def! a 1) ; first\n(def! b (+ a 1))\n(throw-if-missing)".to_string()),
            "good.mal" => Ok("(def! c 3)\n(def! d (* c 2)) ; last".to_string()),
            "empty.mal" => Ok("".to_string()),
            "open.mal" => Ok("(def! e 1".to_string()),
            _ => Err(format!("no file {}", path)),
        }
    }

    fn time_ms(&self) -> Result<i64, String> {
        Ok(0)
    }

    fn readline(&self, _prompt: &str) -> Option<String> {
        None
    }
}

#[test]
fn a_file_is_evaluated_form_by_form() {
    let mut s = fresh();
    assert!(matches!(mal::load_file(&Shelf, "good.mal", ROOT, &mut s), Ok(MalVal::Nil)));
    assert_eq!(ok(&mut s, "(list c d)"), "(3 6)");
    assert!(matches!(mal::load_file(&Shelf, "empty.mal", ROOT, &mut s), Ok(MalVal::Nil)));
    match mal::load_file(&Shelf, "defs.mal", ROOT, &mut s) {
        Err(MalVal::Str(m)) => assert_eq!(m, "'throw-if-missing' not found"),
        _ => panic!("expected a failure"),
    }
    assert_eq!(ok(&mut s, "(list a b)"), "(1 2)");
    match mal::load_file(&Shelf, "none.mal", ROOT, &mut s) {
        Err(MalVal::Str(m)) => assert_eq!(m, "no file none.mal"),
        _ => panic!("expected the host's words"),
    }
    match mal::load_file(&Shelf, "open.mal", ROOT, &mut s) {
        Err(MalVal::Str(m)) => assert_eq!(m, "INCOMPLETE:expected ')', got EOF"),
        _ => panic!("expected a failure"),
    }
    assert!(matches!(mal::load_text("(def! z 9) z", ROOT, &mut s), Ok(MalVal::Nil)));
    assert_eq!(ok(&mut s, "z"), "9");
}
