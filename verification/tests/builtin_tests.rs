use mal::builtins::call_pure;
use mal::eval::call_native;
use mal::types::{
    error, func, hash_map, list, unwrap_map_key, vector, wrap_map_key, Builtin, MalVal, _assoc,
};
use mal::{
    atom, count, deref, divide, empty_q, get_meta, initialize_mal_env, mal_env, ns, rep,
    reset_bang, swap_bang, with_meta, Store, ROOT,
};

fn fresh() -> Store {
    let mut store = mal_env();
    assert!(initialize_mal_env(ROOT, &mut store, vec![]));
    store
}

fn ok(store: &mut Store, text: &str) -> String {
    match rep(text, ROOT, store) {
        Ok(s) => s,
        Err(e) => panic!("{} failed: {}", text, e.pr_str(true, store)),
    }
}

fn thrown(store: &mut Store, text: &str) -> String {
    match rep(text, ROOT, store) {
        Ok(s) => panic!("{} gave {}", text, s),
        Err(e) => e.pr_str(false, store),
    }
}

fn text(s: &str) -> MalVal {
    MalVal::Str(s.to_string())
}

#[test]
fn arithmetic_is_on_64_bit_integers() {
    let mut s = fresh();
    assert_eq!(ok(&mut s, "(+ 2 3)"), "5");
    assert_eq!(ok(&mut s, "(- 2 3)"), "-1");
    assert_eq!(ok(&mut s, "(* -4 3)"), "-12");
    assert_eq!(ok(&mut s, "(/ 12 4)"), "3");
    assert_eq!(ok(&mut s, "(+ 9223372036854775806 1)"), "9223372036854775807");
    assert_eq!(thrown(&mut s, "(+ 9223372036854775807 1)"), "integer overflow");
    assert_eq!(thrown(&mut s, "(- -9223372036854775808 1)"), "integer overflow");
    assert_eq!(thrown(&mut s, "(* 4611686018427387904 2)"), "integer overflow");
    assert_eq!(thrown(&mut s, "(+ 1)"), "expecting exactly 2 args");
    assert_eq!(thrown(&mut s, "(+ 1 2 3)"), "expecting exactly 2 args");
    assert_eq!(thrown(&mut s, "(+ 1 \"a\")"), "expecting (int,int) args");
    assert_eq!(thrown(&mut s, "(+ 1 1.5)"), "expecting (int,int) args");
}

#[test]
fn comparisons_give_truth_values() {
    let mut s = fresh();
    assert_eq!(ok(&mut s, "(< 1 2)"), "true");
    assert_eq!(ok(&mut s, "(< 2 2)"), "false");
    assert_eq!(ok(&mut s, "(<= 2 2)"), "true");
    assert_eq!(ok(&mut s, "(<= 3 2)"), "false");
    assert_eq!(ok(&mut s, "(> 3 2)"), "true");
    assert_eq!(ok(&mut s, "(> 2 2)"), "false");
    assert_eq!(ok(&mut s, "(>= 2 2)"), "true");
    assert_eq!(ok(&mut s, "(>= 1 2)"), "false");
    assert_eq!(thrown(&mut s, "(< 1 nil)"), "expecting (int,int) args");
}

#[test]
fn equality_is_structural() {
    let mut s = fresh();
    assert_eq!(ok(&mut s, "(= 1 1)"), "true");
    assert_eq!(ok(&mut s, "(= 1 2)"), "false");
    assert_eq!(ok(&mut s, "(= 1 \"1\")"), "false");
    assert_eq!(ok(&mut s, "(= nil nil)"), "true");
    assert_eq!(ok(&mut s, "(= \"a\" \"a\")"), "true");
    assert_eq!(ok(&mut s, "(= :a :a)"), "true");
    assert_eq!(ok(&mut s, "(= :a \"a\")"), "false");
    assert_eq!(ok(&mut s, "(= 'a 'a)"), "true");
    assert_eq!(ok(&mut s, "(= (list 1 2) [1 2])"), "true");
    assert_eq!(ok(&mut s, "(= [1 2] (list 1 2))"), "true");
    assert_eq!(ok(&mut s, "(= [1 [2 (list 3)]] (list 1 (list 2 [3])))"), "true");
    assert_eq!(ok(&mut s, "(= [1 2] [1 3])"), "false");
    assert_eq!(ok(&mut s, "(= [1 2] [1 2 3])"), "false");
    assert_eq!(ok(&mut s, "(= () nil)"), "false");
    assert_eq!(ok(&mut s, "(= {:a 1 :b 2} {:b 2 :a 1})"), "true");
    assert_eq!(ok(&mut s, "(= {:a 1} {:a 2})"), "false");
    assert_eq!(ok(&mut s, "(= {:a 1} {:a 1 :b 2})"), "false");
    assert_eq!(ok(&mut s, "(= {:a [1]} {:a (list 1)})"), "true");
    assert_eq!(ok(&mut s, "(= (with-meta [1] 5) [1])"), "true");
    assert_eq!(ok(&mut s, "(= + +)"), "false");
    assert_eq!(ok(&mut s, "(let* (f (fn* () 1)) (= f f))"), "false");
    assert_eq!(thrown(&mut s, "(= 1)"), "wrong number of arguments");
    let a = MalVal::Float("1.5".to_string());
    assert!(a.equals(&MalVal::Float("1.5".to_string())));
    assert!(!a.equals(&MalVal::Float("1.50".to_string())));
}

#[test]
fn type_tests_tell_the_kinds_apart() {
    let mut s = fresh();
    assert_eq!(ok(&mut s, "(nil? nil)"), "true");
    assert_eq!(ok(&mut s, "(nil? false)"), "false");
    assert_eq!(ok(&mut s, "(true? true)"), "true");
    assert_eq!(ok(&mut s, "(true? 1)"), "false");
    assert_eq!(ok(&mut s, "(false? false)"), "true");
    assert_eq!(ok(&mut s, "(false? nil)"), "false");
    assert_eq!(ok(&mut s, "(symbol? 'a)"), "true");
    assert_eq!(ok(&mut s, "(symbol? \"a\")"), "false");
    assert_eq!(ok(&mut s, "(string? \"a\")"), "true");
    assert_eq!(ok(&mut s, "(string? :a)"), "false");
    assert_eq!(ok(&mut s, "(keyword? :a)"), "true");
    assert_eq!(ok(&mut s, "(keyword? 'a)"), "false");
    assert_eq!(ok(&mut s, "(number? 1)"), "true");
    assert_eq!(ok(&mut s, "(number? 1.5)"), "false");
    assert_eq!(ok(&mut s, "(int? 1)"), "true");
    assert_eq!(ok(&mut s, "(int? 1.5)"), "false");
    assert_eq!(ok(&mut s, "(float? 1.5)"), "true");
    assert_eq!(ok(&mut s, "(float? 1)"), "false");
    assert_eq!(ok(&mut s, "(fn? +)"), "true");
    assert_eq!(ok(&mut s, "(fn? (fn* () 1))"), "true");
    assert_eq!(ok(&mut s, "(fn? cond)"), "false");
    assert_eq!(ok(&mut s, "(macro? cond)"), "true");
    assert_eq!(ok(&mut s, "(macro? +)"), "false");
    assert_eq!(ok(&mut s, "(sequential? [1])"), "true");
    assert_eq!(ok(&mut s, "(sequential? (list))"), "true");
    assert_eq!(ok(&mut s, "(sequential? {})"), "false");
    assert_eq!(ok(&mut s, "(list? (list))"), "true");
    assert_eq!(ok(&mut s, "(list? [])"), "false");
    assert_eq!(ok(&mut s, "(vector? [])"), "true");
    assert_eq!(ok(&mut s, "(vector? (list))"), "false");
    assert_eq!(ok(&mut s, "(map? {})"), "true");
    assert_eq!(ok(&mut s, "(map? [])"), "false");
    assert_eq!(ok(&mut s, "(atom? (atom 1))"), "true");
    assert_eq!(ok(&mut s, "(atom? 1)"), "false");
    assert_eq!(thrown(&mut s, "(nil?)"), "wrong number of arguments");
}

#[test]
fn sequences_are_taken_apart_and_built() {
    let mut s = fresh();
    assert_eq!(ok(&mut s, "(list)"), "()");
    assert_eq!(ok(&mut s, "(list 1 (+ 1 1))"), "(1 2)");
    assert_eq!(ok(&mut s, "(vector 1 2)"), "[1 2]");
    assert_eq!(ok(&mut s, "(vec (list 1 2))"), "[1 2]");
    assert_eq!(ok(&mut s, "(vec [1 2])"), "[1 2]");
    assert_eq!(thrown(&mut s, "(vec 1)"), "non-seq passed to vec");
    assert_eq!(ok(&mut s, "(cons 1 (list 2 3))"), "(1 2 3)");
    assert_eq!(ok(&mut s, "(cons 1 [2 3])"), "(1 2 3)");
    assert_eq!(ok(&mut s, "(cons [1] ())"), "([1])");
    assert_eq!(thrown(&mut s, "(cons 1 2)"), "cons expects seq as second arg");
    assert_eq!(thrown(&mut s, "(cons 1)"), "wrong number of arguments");
    assert_eq!(ok(&mut s, "(concat)"), "()");
    assert_eq!(ok(&mut s, "(concat (list 1) [2 3] () (list 4))"), "(1 2 3 4)");
    assert_eq!(thrown(&mut s, "(concat (list 1) 2)"), "non-seq passed to concat");
    assert_eq!(ok(&mut s, "(empty? ())"), "true");
    assert_eq!(ok(&mut s, "(empty? [1])"), "false");
    assert_eq!(ok(&mut s, "(empty? nil)"), "true");
    assert_eq!(thrown(&mut s, "(empty? 1)"), "invalid type for empty?");
    assert_eq!(ok(&mut s, "(count (list 1 2 3))"), "3");
    assert_eq!(ok(&mut s, "(count [])"), "0");
    assert_eq!(ok(&mut s, "(count nil)"), "0");
    assert_eq!(thrown(&mut s, "(count 1)"), "invalid type for count");
    assert_eq!(ok(&mut s, "(nth [10 20 30] 0)"), "10");
    assert_eq!(ok(&mut s, "(nth (list 10 20 30) 2)"), "30");
    assert_eq!(thrown(&mut s, "(nth [10 20 30] 3)"), "nth: index out of range");
    assert_eq!(thrown(&mut s, "(nth [10 20 30] -1)"), "nth: index out of range");
    assert_eq!(thrown(&mut s, "(nth 1 1)"), "invalid args to nth");
    assert_eq!(thrown(&mut s, "(nth [1] :a)"), "invalid args to nth");
    assert_eq!(ok(&mut s, "(first [7 8])"), "7");
    assert_eq!(ok(&mut s, "(first ())"), "nil");
    assert_eq!(ok(&mut s, "(first nil)"), "nil");
    assert_eq!(thrown(&mut s, "(first 1)"), "invalid args to first");
    assert_eq!(ok(&mut s, "(rest [7 8 9])"), "(8 9)");
    assert_eq!(ok(&mut s, "(rest [7])"), "()");
    assert_eq!(ok(&mut s, "(rest ())"), "()");
    assert_eq!(ok(&mut s, "(rest nil)"), "()");
    assert_eq!(thrown(&mut s, "(rest 1)"), "invalid args to first");
    assert_eq!(ok(&mut s, "(conj (list 1 2) 3 4)"), "(4 3 1 2)");
    assert_eq!(ok(&mut s, "(conj [1 2] 3 4)"), "[1 2 3 4]");
    assert_eq!(ok(&mut s, "(conj [1])"), "[1]");
    assert_eq!(thrown(&mut s, "(conj 1 2)"), "conj: called with non-seq");
    assert_eq!(ok(&mut s, "(seq (list 1 2))"), "(1 2)");
    assert_eq!(ok(&mut s, "(seq [1 2])"), "(1 2)");
    assert_eq!(ok(&mut s, "(seq \"abc\")"), "(\"a\" \"b\" \"c\")");
    assert_eq!(ok(&mut s, "(seq \"\")"), "nil");
    assert_eq!(ok(&mut s, "(seq ())"), "nil");
    assert_eq!(ok(&mut s, "(seq [])"), "nil");
    assert_eq!(ok(&mut s, "(seq nil)"), "nil");
    assert_eq!(thrown(&mut s, "(seq 1)"), "seq: called with non-seq");
}

#[test]
fn maps_keep_the_order_of_their_keys() {
    let mut s = fresh();
    assert_eq!(ok(&mut s, "(hash-map)"), "{}");
    assert_eq!(ok(&mut s, "(hash-map :a 1 \"b\" 2)"), "{:a 1 \"b\" 2}");
    assert_eq!(ok(&mut s, "(hash-map :a 1 :b 2 :a 3)"), "{:a 3 :b 2}");
    assert_eq!(thrown(&mut s, "(hash-map :a)"), "odd number of elements");
    assert_eq!(thrown(&mut s, "(hash-map 1 2)"), "key is not string");
    assert_eq!(ok(&mut s, "(assoc {:a 1} :b 2 :a 3)"), "{:a 3 :b 2}");
    assert_eq!(ok(&mut s, "(assoc {})"), "{}");
    assert_eq!(thrown(&mut s, "(assoc 1 :a 2)"), "assoc on non-Hash Map");
    assert_eq!(thrown(&mut s, "(assoc {} :a)"), "odd number of elements");
    assert_eq!(ok(&mut s, "(dissoc {:a 1 :b 2 :c 3} :b :x)"), "{:a 1 :c 3}");
    assert_eq!(ok(&mut s, "(dissoc {:a 1})"), "{:a 1}");
    assert_eq!(thrown(&mut s, "(dissoc [] :a)"), "dissoc on non-Hash Map");
    assert_eq!(thrown(&mut s, "(dissoc {} 1)"), "key is not string");
    assert_eq!(ok(&mut s, "(get {:a 1} :a)"), "1");
    assert_eq!(ok(&mut s, "(get {:a 1} \"a\")"), "nil");
    assert_eq!(ok(&mut s, "(get {\"a\" 1} \"a\")"), "1");
    assert_eq!(ok(&mut s, "(get nil :a)"), "nil");
    assert_eq!(ok(&mut s, "(get nil)"), "nil");
    assert_eq!(thrown(&mut s, "(get 1 :a)"), "illegal get args");
    assert_eq!(thrown(&mut s, "(get {} 1)"), "key is not string");
    assert_eq!(thrown(&mut s, "(get {})"), "wrong number of arguments");
    assert_eq!(ok(&mut s, "(contains? {:a nil} :a)"), "true");
    assert_eq!(ok(&mut s, "(contains? {:a nil} :b)"), "false");
    assert_eq!(thrown(&mut s, "(contains? 1 :a)"), "illegal get args");
    assert_eq!(ok(&mut s, "(keys {:a 1 \"b\" 2})"), "(:a \"b\")");
    assert_eq!(ok(&mut s, "(vals {:a 1 \"b\" 2})"), "(1 2)");
    assert_eq!(thrown(&mut s, "(keys 1)"), "keys requires Hash Map");
    assert_eq!(thrown(&mut s, "(vals 1)"), "vals requires Hash Map");
    let m = ok(&mut s, "(def! m {:a 1})");
    assert_eq!(m, "{:a 1}");
    ok(&mut s, "(assoc m :b 2)");
    assert_eq!(ok(&mut s, "m"), "{:a 1}");
}

#[test]
fn texts_are_made_and_read() {
    let mut s = fresh();
    assert_eq!(ok(&mut s, "(str)"), "\"\"");
    assert_eq!(ok(&mut s, "(str 1 \"a\" :k 'b nil true [1 \"x\"])"), "\"1a:kbniltrue[1 x]\"");
    assert_eq!(ok(&mut s, "(pr-str)"), "\"\"");
    assert_eq!(ok(&mut s, "(pr-str 1 \"a\" :k)"), "\"1 \\\"a\\\" :k\"");
    assert_eq!(ok(&mut s, "(read-string \"(1 2)\")"), "(1 2)");
    assert_eq!(thrown(&mut s, "(read-string 1)"), "expecting (str) arg");
    assert_eq!(thrown(&mut s, "(read-string)"), "expecting exactly 1 arg");
    assert_eq!(thrown(&mut s, "(read-string \"(\")"), "INCOMPLETE:expected ')', got EOF");
    assert_eq!(ok(&mut s, "(symbol \"abc\")"), "abc");
    assert_eq!(thrown(&mut s, "(symbol 1)"), "illegal symbol call");
    assert_eq!(ok(&mut s, "(keyword \"abc\")"), ":abc");
    assert_eq!(ok(&mut s, "(keyword :abc)"), ":abc");
    assert_eq!(thrown(&mut s, "(keyword 1)"), "invalid type for keyword");
    assert_eq!(ok(&mut s, "(float 3)"), "3");
    assert_eq!(ok(&mut s, "(float? (float 3))"), "true");
    assert_eq!(ok(&mut s, "(float 2.5)"), "2.5");
    assert_eq!(thrown(&mut s, "(float \"a\")"), "float: invalid argument");
    assert_eq!(ok(&mut s, "(int 3)"), "3");
    assert_eq!(ok(&mut s, "(int 2.5)"), "2");
    assert_eq!(ok(&mut s, "(int -2.9)"), "-2");
    assert_eq!(ok(&mut s, "(int .5)"), "0");
    assert_eq!(ok(&mut s, "(int -.5)"), "0");
    assert_eq!(ok(&mut s, "(int 3.)"), "3");
    assert_eq!(ok(&mut s, "(int 007.25)"), "7");
    assert_eq!(ok(&mut s, "(int 99999999999999999999.5)"), "9223372036854775807");
    assert_eq!(ok(&mut s, "(int -99999999999999999999.5)"), "-9223372036854775808");
    assert_eq!(ok(&mut s, "(int (float 12))"), "12");
    assert_eq!(thrown(&mut s, "(int \"2.5\")"), "int: invalid argument");
    assert!(matches!(
        mal::builtins::int_of_float("1.2.3"),
        Err(MalVal::Str(m)) if m == "int: invalid argument"
    ));
    assert_eq!(thrown(&mut s, "(throw \"x\")"), "x");
    assert_eq!(thrown(&mut s, "(throw (list 1 2))"), "(1 2)");
}

#[test]
fn metadata_rides_along() {
    let mut s = fresh();
    assert_eq!(ok(&mut s, "(meta [1 2])"), "nil");
    assert_eq!(ok(&mut s, "(meta (with-meta [1 2] {:a 1}))"), "{:a 1}");
    assert_eq!(ok(&mut s, "(with-meta [1 2] {:a 1})"), "[1 2]");
    assert_eq!(ok(&mut s, "(meta (with-meta (list 1) 5))"), "5");
    assert_eq!(ok(&mut s, "(meta (with-meta {} 6))"), "6");
    assert_eq!(ok(&mut s, "(meta (with-meta + 7))"), "7");
    assert_eq!(ok(&mut s, "(meta (with-meta (fn* () 1) 8))"), "8");
    assert_eq!(ok(&mut s, "((with-meta (fn* (x) (* x 2)) 8) 4)"), "8");
    assert_eq!(ok(&mut s, "(meta ^{:m 1} [3])"), "{:m 1}");
    assert_eq!(ok(&mut s, "(meta +)"), "nil");
    assert_eq!(thrown(&mut s, "(meta 1)"), "meta not supported by type");
    assert_eq!(thrown(&mut s, "(with-meta 1 2)"), "with-meta not supported by type");
    ok(&mut s, "(def! v [1])");
    ok(&mut s, "(with-meta v 9)");
    assert_eq!(ok(&mut s, "(meta v)"), "nil");
}

#[test]
fn natives_can_be_called_directly() {
    let mut store = Store::new();
    let args = vec![list(vec![MalVal::Int(1), MalVal::Int(2)])];
    assert!(matches!(count(args), Ok(MalVal::Int(2))));
    assert!(matches!(count(vec![MalVal::Nil]), Ok(MalVal::Int(0))));
    assert!(matches!(empty_q(vec![vector(vec![])]), Ok(MalVal::Bool(true))));
    assert!(matches!(empty_q(vec![text("")]), Err(MalVal::Str(_))));
    assert!(matches!(
        divide(vec![MalVal::Int(9), MalVal::Int(2)]),
        Ok(MalVal::Int(4))
    ));
    assert!(matches!(
        divide(vec![MalVal::Int(9), MalVal::Int(0)]),
        Err(MalVal::Str(m)) if m == "division by zero"
    ));
    let with = with_meta(vec![vector(vec![]), MalVal::Int(3)]).ok().unwrap();
    assert!(matches!(get_meta(vec![with]), Ok(MalVal::Int(3))));
    assert!(matches!(get_meta(vec![MalVal::Nil]), Err(MalVal::Str(_))));
    let a = atom(vec![MalVal::Int(1)], &mut store).ok().unwrap();
    assert!(matches!(a, MalVal::Atom(0)));
    assert!(matches!(deref(vec![a.clone()], &store), Ok(MalVal::Int(1))));
    assert!(matches!(
        reset_bang(vec![a.clone(), MalVal::Int(4)], &mut store),
        Ok(MalVal::Int(4))
    ));
    assert!(matches!(
        swap_bang(
            vec![a.clone(), func(Builtin::Add), MalVal::Int(6)],
            &mut store,
            100
        ),
        Ok(MalVal::Int(10))
    ));
    assert!(matches!(deref(vec![a.clone()], &store), Ok(MalVal::Int(10))));
    assert!(matches!(
        swap_bang(vec![a.clone(), func(Builtin::Add), MalVal::Int(6)], &mut store, 0),
        Err(MalVal::Str(m)) if m == "evaluation limit reached"
    ));
    assert!(matches!(
        reset_bang(vec![a.clone()], &mut store),
        Err(MalVal::Str(m)) if m == "wrong number of arguments"
    ));
    assert!(matches!(
        call_pure(Builtin::Add, vec![MalVal::Int(1), MalVal::Int(2)]),
        Ok(MalVal::Int(3))
    ));
    assert!(matches!(
        call_native(Builtin::Deref, vec![a], &mut store, 5),
        Ok(MalVal::Int(10))
    ));
    assert!(matches!(
        func(Builtin::Mul).apply(vec![MalVal::Int(3), MalVal::Int(4)], &mut store, 5),
        Ok(MalVal::Int(12))
    ));
    assert!(matches!(
        MalVal::Int(1).apply(vec![], &mut store, 5),
        Err(MalVal::Str(m)) if m == "attempt to call non-function"
    ));
}

#[test]
fn every_native_has_its_name() {
    let natives = ns();
    assert_eq!(natives.len(), 60);
    assert_eq!(natives[0].0, "=");
    assert!(matches!(natives[0].1, MalVal::Func(Builtin::Equal, _)));
    assert_eq!(natives[59].0, "swap!");
    assert!(matches!(natives[59].1, MalVal::Func(Builtin::Swap, _)));
    let mut s = fresh();
    for (name, _) in natives.iter() {
        assert_eq!(ok(&mut s, name), "#<fn ...>");
    }
    assert_eq!(ok(&mut s, "eval"), "#<fn ...>");
}

#[test]
fn keys_carry_a_mark_for_keywords() {
    assert_eq!(wrap_map_key(&text("a")).ok().unwrap(), "a");
    assert_eq!(
        wrap_map_key(&MalVal::Kwd("a".to_string())).ok().unwrap(),
        "\u{29e}a"
    );
    assert!(matches!(
        wrap_map_key(&MalVal::Int(1)),
        Err(MalVal::Str(m)) if m == "key is not string"
    ));
    assert!(matches!(unwrap_map_key("a"), MalVal::Str(s) if s == "a"));
    assert!(matches!(unwrap_map_key("\u{29e}a"), MalVal::Kwd(s) if s == "a"));
    assert!(matches!(unwrap_map_key(""), MalVal::Str(s) if s == ""));
    assert!(matches!(unwrap_map_key("\u{29e}"), MalVal::Kwd(s) if s == ""));
}

#[test]
fn constructors_make_plain_values() {
    let store = Store::new();
    let r: Result<i64, MalVal> = error("bad");
    assert!(matches!(r, Err(MalVal::Str(m)) if m == "bad"));
    assert_eq!(list(vec![MalVal::Int(1)]).pr_str(true, &store), "(1)");
    assert_eq!(vector(vec![MalVal::Int(1)]).pr_str(true, &store), "[1]");
    assert!(matches!(func(Builtin::Count), MalVal::Func(Builtin::Count, _)));
    let m = hash_map(vec![text("k"), MalVal::Int(1)]).ok().unwrap();
    assert_eq!(m.pr_str(true, &store), "{\"k\" 1}");
    let base = vec![("k".to_string(), MalVal::Int(1))];
    let more = _assoc(base, vec![text("j"), MalVal::Int(2), text("k"), MalVal::Int(3)])
        .ok()
        .unwrap();
    assert_eq!(more.pr_str(true, &store), "{\"k\" 3 \"j\" 2}");
    assert!(matches!(
        _assoc(vec![], vec![text("j")]),
        Err(MalVal::Str(m)) if m == "odd number of elements"
    ));
    let c = MalVal::Int(5).clone();
    assert!(matches!(c, MalVal::Int(5)));
}

#[test]
fn the_operator_compares_as_the_language_does() {
    let a = list(vec![MalVal::Int(1), text("x")]);
    let b = vector(vec![MalVal::Int(1), text("x")]);
    assert!(a == b);
    assert!(a != vector(vec![MalVal::Int(1)]));
    assert!(MalVal::Nil == MalVal::Nil);
    assert!(func(Builtin::Add) != func(Builtin::Add));
    assert!(MalVal::Atom(0) != MalVal::Atom(0));
    assert!(MalVal::Kwd("a".to_string()) != text("a"));
}

#[test]
fn natives_fail_on_too_few_arguments() {
    let mut store = Store::new();
    let few = |r: mal::MalRet| matches!(r, Err(MalVal::Str(m)) if m == "wrong number of arguments");
    assert!(few(empty_q(vec![])));
    assert!(few(count(vec![])));
    assert!(few(get_meta(vec![])));
    assert!(few(with_meta(vec![])));
    assert!(few(with_meta(vec![vector(vec![])])));
    assert!(few(atom(vec![], &mut store)));
    assert_eq!(store.atom_count(), 0);
    assert!(few(deref(vec![], &store)));
    assert!(few(reset_bang(vec![], &mut store)));
    assert!(few(swap_bang(vec![], &mut store, 10)));
    let a = atom(vec![MalVal::Int(1)], &mut store).ok().unwrap();
    assert!(few(reset_bang(vec![a.clone()], &mut store)));
    assert!(few(swap_bang(vec![a.clone()], &mut store, 10)));
    assert!(matches!(deref(vec![a], &store), Ok(MalVal::Int(1))));
    let mut s = fresh();
    assert_eq!(thrown(&mut s, "(atom)"), "wrong number of arguments");
    assert_eq!(thrown(&mut s, "(deref)"), "wrong number of arguments");
    assert_eq!(thrown(&mut s, "(count)"), "wrong number of arguments");
    assert_eq!(thrown(&mut s, "(with-meta [1])"), "wrong number of arguments");
}

#[test]
fn no_key_comes_to_occur_twice() {
    let store = Store::new();
    let twice = hash_map(vec![
        text("a"),
        MalVal::Int(1),
        text("b"),
        MalVal::Int(2),
        text("a"),
        MalVal::Int(3),
        MalVal::Kwd("a".to_string()),
        MalVal::Int(4),
    ])
    .ok()
    .unwrap();
    assert_eq!(twice.pr_str(true, &store), "{\"a\" 3 \"b\" 2 :a 4}");
    let mut s = fresh();
    assert_eq!(ok(&mut s, "(keys {:a 1 :b 2 :a 3})"), "(:a :b)");
    assert_eq!(ok(&mut s, "(count (keys (assoc {:a 1} :a 2 :a 3 :b 4)))"), "2");
    assert_eq!(ok(&mut s, "(dissoc (assoc {:a 1 :b 2} :a 5) :a)"), "{:b 2}");
    assert_eq!(ok(&mut s, "(= {:a 1 :b 2} {:b 2 :a 1})"), "true");
    assert_eq!(ok(&mut s, "(= {:b 2 :a 1} {:a 1 :b 2})"), "true");
    assert_eq!(ok(&mut s, "(= {:a 1 :b 2} {:a 1 :c 2})"), "false");
    assert_eq!(ok(&mut s, "(= {:a 1 :c 2} {:a 1 :b 2})"), "false");
    assert_eq!(ok(&mut s, "(= {:a {:x [1]}} {:a {:x (list 1)}})"), "true");
}
