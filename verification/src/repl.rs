//! Read, evaluate, print: one form, or all forms of a source.

use vstd::prelude::*;
use crate::env::{
    empty_heap, env_new, env_new_spec, env_sets, env_sets_spec, Heap, Store,
};
use crate::eval::eval;
use crate::keys_eval::{heap_well_keyed, law_new_interpreter_is_well_keyed};
use crate::semantics::{eval_spec, EVAL_LIMIT};
use crate::printer::{pr_str_spec, ATOM_DEPTH};
use crate::reader::{read_str, read_str_spec};
use crate::stream::{
    agrees_forms, form_of, forms_of_text, lemma_forms_step, no_form_sooner, read_out, rets,
    text_of_token, CharReader, MalStream, READ_LIMIT,
};
use crate::system::SystemOps;
use crate::text::push_text;
use crate::types::{func, list, list_val, ret_val, vals, Builtin, Env, MalRet, MalVal, Val};

verus! {

/// The scope in which an interpreter's native functions are bound.
pub const ROOT: Env = 0;

/// The native function `b` as a value.
pub open spec fn func_val(b: Builtin) -> Val {
    Val::Func(b, Box::new(Val::Nil))
}

/// The names of the native functions, each with its function.
pub open spec fn ns_spec() -> Seq<(Seq<char>, Val)> {
    seq![
        ("="@, func_val(Builtin::Equal)),
        ("throw"@, func_val(Builtin::Throw)),
        ("nil?"@, func_val(Builtin::IsNil)),
        ("true?"@, func_val(Builtin::IsTrue)),
        ("false?"@, func_val(Builtin::IsFalse)),
        ("symbol"@, func_val(Builtin::Symbol)),
        ("symbol?"@, func_val(Builtin::IsSymbol)),
        ("string?"@, func_val(Builtin::IsString)),
        ("keyword"@, func_val(Builtin::Keyword)),
        ("keyword?"@, func_val(Builtin::IsKeyword)),
        ("number?"@, func_val(Builtin::IsNumber)),
        ("int?"@, func_val(Builtin::IsInt)),
        ("float?"@, func_val(Builtin::IsFloat)),
        ("fn?"@, func_val(Builtin::IsFn)),
        ("macro?"@, func_val(Builtin::IsMacro)),
        ("pr-str"@, func_val(Builtin::PrStr)),
        ("str"@, func_val(Builtin::ToStr)),
        ("read-string"@, func_val(Builtin::ReadString)),
        ("<"@, func_val(Builtin::Lt)),
        ("<="@, func_val(Builtin::Le)),
        (">"@, func_val(Builtin::Gt)),
        (">="@, func_val(Builtin::Ge)),
        ("+"@, func_val(Builtin::Add)),
        ("-"@, func_val(Builtin::Sub)),
        ("*"@, func_val(Builtin::Mul)),
        ("/"@, func_val(Builtin::Div)),
        ("float"@, func_val(Builtin::ToFloat)),
        ("int"@, func_val(Builtin::ToInt)),
        ("sequential?"@, func_val(Builtin::IsSequential)),
        ("list"@, func_val(Builtin::MakeList)),
        ("list?"@, func_val(Builtin::IsList)),
        ("vector"@, func_val(Builtin::MakeVector)),
        ("vector?"@, func_val(Builtin::IsVector)),
        ("hash-map"@, func_val(Builtin::MakeHashMap)),
        ("map?"@, func_val(Builtin::IsMap)),
        ("assoc"@, func_val(Builtin::Assoc)),
        ("dissoc"@, func_val(Builtin::Dissoc)),
        ("get"@, func_val(Builtin::Get)),
        ("contains?"@, func_val(Builtin::Contains)),
        ("keys"@, func_val(Builtin::Keys)),
        ("vals"@, func_val(Builtin::Vals)),
        ("vec"@, func_val(Builtin::ToVector)),
        ("cons"@, func_val(Builtin::Cons)),
        ("concat"@, func_val(Builtin::Concat)),
        ("empty?"@, func_val(Builtin::IsEmpty)),
        ("nth"@, func_val(Builtin::Nth)),
        ("first"@, func_val(Builtin::First)),
        ("rest"@, func_val(Builtin::Rest)),
        ("count"@, func_val(Builtin::Count)),
        ("apply"@, func_val(Builtin::Apply)),
        ("map"@, func_val(Builtin::MapOver)),
        ("conj"@, func_val(Builtin::Conj)),
        ("seq"@, func_val(Builtin::ToSeq)),
        ("meta"@, func_val(Builtin::Meta)),
        ("with-meta"@, func_val(Builtin::WithMeta)),
        ("atom"@, func_val(Builtin::MakeAtom)),
        ("atom?"@, func_val(Builtin::IsAtom)),
        ("deref"@, func_val(Builtin::Deref)),
        ("reset!"@, func_val(Builtin::Reset)),
        ("swap!"@, func_val(Builtin::Swap)),
    ]
}

/// The names and values of a list of bindings.
pub open spec fn registry(items: Seq<(&'static str, MalVal)>) -> Seq<(Seq<char>, Val)> {
    Seq::new(items.len(), |i: int| (items[i].0@, items[i].1@))
}

fn register(v: &mut Vec<(&'static str, MalVal)>, name: &'static str, b: Builtin)
    ensures
        registry(final(v)@) == registry(old(v)@).push((name@, func_val(b))),
{
    v.push((name, func(b)));
    assert(registry(v@) =~= registry(old(v)@).push((name@, func_val(b))));
}

/// The native functions, each with the name under which it is bound.
pub fn ns() -> (r: Vec<(&'static str, MalVal)>)
    ensures
        registry(r@) == ns_spec(),
{
    let mut v: Vec<(&'static str, MalVal)> = Vec::new();
    assert(registry(v@) =~= Seq::empty());
    register(&mut v, "=", Builtin::Equal);
    register(&mut v, "throw", Builtin::Throw);
    register(&mut v, "nil?", Builtin::IsNil);
    register(&mut v, "true?", Builtin::IsTrue);
    register(&mut v, "false?", Builtin::IsFalse);
    register(&mut v, "symbol", Builtin::Symbol);
    register(&mut v, "symbol?", Builtin::IsSymbol);
    register(&mut v, "string?", Builtin::IsString);
    register(&mut v, "keyword", Builtin::Keyword);
    register(&mut v, "keyword?", Builtin::IsKeyword);
    register(&mut v, "number?", Builtin::IsNumber);
    register(&mut v, "int?", Builtin::IsInt);
    register(&mut v, "float?", Builtin::IsFloat);
    register(&mut v, "fn?", Builtin::IsFn);
    register(&mut v, "macro?", Builtin::IsMacro);
    register(&mut v, "pr-str", Builtin::PrStr);
    register(&mut v, "str", Builtin::ToStr);
    register(&mut v, "read-string", Builtin::ReadString);
    register(&mut v, "<", Builtin::Lt);
    register(&mut v, "<=", Builtin::Le);
    register(&mut v, ">", Builtin::Gt);
    register(&mut v, ">=", Builtin::Ge);
    register(&mut v, "+", Builtin::Add);
    register(&mut v, "-", Builtin::Sub);
    register(&mut v, "*", Builtin::Mul);
    register(&mut v, "/", Builtin::Div);
    register(&mut v, "float", Builtin::ToFloat);
    register(&mut v, "int", Builtin::ToInt);
    register(&mut v, "sequential?", Builtin::IsSequential);
    register(&mut v, "list", Builtin::MakeList);
    register(&mut v, "list?", Builtin::IsList);
    register(&mut v, "vector", Builtin::MakeVector);
    register(&mut v, "vector?", Builtin::IsVector);
    register(&mut v, "hash-map", Builtin::MakeHashMap);
    register(&mut v, "map?", Builtin::IsMap);
    register(&mut v, "assoc", Builtin::Assoc);
    register(&mut v, "dissoc", Builtin::Dissoc);
    register(&mut v, "get", Builtin::Get);
    register(&mut v, "contains?", Builtin::Contains);
    register(&mut v, "keys", Builtin::Keys);
    register(&mut v, "vals", Builtin::Vals);
    register(&mut v, "vec", Builtin::ToVector);
    register(&mut v, "cons", Builtin::Cons);
    register(&mut v, "concat", Builtin::Concat);
    register(&mut v, "empty?", Builtin::IsEmpty);
    register(&mut v, "nth", Builtin::Nth);
    register(&mut v, "first", Builtin::First);
    register(&mut v, "rest", Builtin::Rest);
    register(&mut v, "count", Builtin::Count);
    register(&mut v, "apply", Builtin::Apply);
    register(&mut v, "map", Builtin::MapOver);
    register(&mut v, "conj", Builtin::Conj);
    register(&mut v, "seq", Builtin::ToSeq);
    register(&mut v, "meta", Builtin::Meta);
    register(&mut v, "with-meta", Builtin::WithMeta);
    register(&mut v, "atom", Builtin::MakeAtom);
    register(&mut v, "atom?", Builtin::IsAtom);
    register(&mut v, "deref", Builtin::Deref);
    register(&mut v, "reset!", Builtin::Reset);
    register(&mut v, "swap!", Builtin::Swap);
    v
}

/// The heap after the first `n` of `pairs` were bound in scope `env`, one after the other.
pub open spec fn bind_all(h: Heap, env: usize, pairs: Seq<(Seq<char>, Val)>, n: nat) -> Heap
    decreases n,
{
    if n == 0 || n > pairs.len() {
        h
    } else {
        env_sets_spec(
            bind_all(h, env, pairs, (n - 1) as nat),
            env,
            pairs[n - 1].0,
            pairs[n - 1].1,
        )
    }
}

/// The heap of a new interpreter: one scope, the root, in which `eval`
/// and the native functions are bound.
pub open spec fn mal_env_spec() -> Heap {
    bind_all(
        env_sets_spec(env_new_spec(empty_heap(), None).0, ROOT, "eval"@, func_val(Builtin::Eval)),
        ROOT,
        ns_spec(),
        ns_spec().len(),
    )
}

/// A new interpreter: a store whose only scope, [`ROOT`], binds `eval`
/// and the native functions.
pub fn mal_env() -> (store: Store)
    ensures
        store@ == mal_env_spec(),
        heap_well_keyed(store@),
{
    proof {
        law_new_interpreter_is_well_keyed();
    }
    let mut store = Store::new();
    let repl_env = env_new(&mut store, None);
    env_sets(&mut store, repl_env, "eval", func(Builtin::Eval));
    let ghost start = store@;
    let natives = ns();
    let mut i: usize = 0;
    while i < natives.len()
        invariant
            i <= natives.len(),
            repl_env == ROOT,
            registry(natives@) == ns_spec(),
            store@ == bind_all(start, ROOT, ns_spec(), i as nat),
        decreases natives.len() - i,
    {
        assert(registry(natives@)[i as int] == (natives@[i as int].0@, natives@[i as int].1@));
        env_sets(&mut store, repl_env, natives[i].0, natives[i].1.clone());
        i += 1;
    }
    store
}

/// The form that the text `s` writes.
pub fn read(str: &str) -> (r: MalRet)
    ensures
        ret_val(r) == read_str_spec(str@),
{
    read_str(str)
}

/// The readable text of `ast`.
pub fn print(ast: &MalVal, store: &Store) -> (r: String)
    ensures
        r@ == pr_str_spec(ast@, true, store@, ATOM_DEPTH as nat),
{
    ast.pr_str(true, store)
}

/// What reading `s`, evaluating the form in scope `env` and printing its value gives.
pub open spec fn rep_spec(s: Seq<char>, env: usize, h: Heap) -> (Result<Seq<char>, Val>, Heap) {
    match read_str_spec(s) {
        Ok(ast) => {
            let r = eval_spec(ast, env, h, EVAL_LIMIT as nat);
            match r.0 {
                Ok(v) => (Ok(pr_str_spec(v, true, r.1, ATOM_DEPTH as nat)), r.1),
                Err(e) => (Err(e), r.1),
            }
        },
        Err(e) => (Err(e), h),
    }
}

/// Reads `str`, evaluates the form in scope `env` and prints its value.
pub fn rep(str: &str, env: Env, store: &mut Store) -> (r: Result<String, MalVal>)
    ensures
        (
            match r {
                Ok(s) => Ok(s@),
                Err(e) => Err(e@),
            },
            final(store)@,
        ) == rep_spec(str@, env, old(store)@),
{
    let ast = match read(str) {
        Ok(a) => a,
        Err(e) => {
            return Err(e);
        },
    };
    match eval(&ast, env, store) {
        Ok(exp) => Ok(print(&exp, store)),
        Err(e) => Err(e),
    }
}

/// The text of a file as one form: all its forms in a `do`, with `nil` behind them.
pub open spec fn wrapped(text: Seq<char>) -> Seq<char> {
    "(do "@ + text + "\nnil)"@
}

/// What evaluating all forms of the text `text` in scope `env`, one after
/// the other and for their effect, gives: `nil`, or what was thrown
/// first; and the heap behind it.
pub open spec fn load_text_spec(text: Seq<char>, env: usize, h: Heap) -> (Result<Val, Val>, Heap) {
    eval_read_spec(read_str_spec(wrapped(text)), env, h)
}

/// Evaluates all forms of `text` in scope `env`, one after the other, for their effect.
pub fn load_text(text: &str, env: Env, store: &mut Store) -> (r: MalRet)
    ensures
        (ret_val(r), final(store)@) == load_text_spec(text@, env, old(store)@),
{
    let mut all = String::new();
    push_text(&mut all, "(do ");
    push_text(&mut all, text);
    push_text(&mut all, "\nnil)");
    assert(all@ =~= wrapped(text@));
    eval_read(read(all.as_str()), env, store)
}

/// What loading a file gives, where `read` is what the host read from it:
/// the forms of its text are evaluated; where the host could not read it,
/// the host's words are thrown and nothing is changed.
pub open spec fn load_file_spec(
    read: Result<Seq<char>, Seq<char>>,
    env: usize,
    h: Heap,
) -> (Result<Val, Val>, Heap) {
    match read {
        Ok(text) => load_text_spec(text, env, h),
        Err(msg) => (Err(Val::Str(msg)), h),
    }
}

/// The texts of what a host read from a file.
pub open spec fn read_text(read: Result<String, String>) -> Result<Seq<char>, Seq<char>> {
    match read {
        Ok(text) => Ok(text@),
        Err(msg) => Err(msg@),
    }
}

/// Evaluates what the host read from a file, or throws the host's words.
pub fn load_read(read: Result<String, String>, env: Env, store: &mut Store) -> (r: MalRet)
    ensures
        (ret_val(r), final(store)@) == load_file_spec(read_text(read), env, old(store)@),
{
    match read {
        Ok(text) => load_text(text.as_str(), env, store),
        Err(msg) => Err(MalVal::Str(msg)),
    }
}

/// Has the host read the file at `path` and evaluates all its forms in
/// scope `env`, for their effect: whatever the host read, the result is
/// what [`load_read`] makes of it.
pub fn load_file<S: SystemOps>(sys: &S, path: &str, env: Env, store: &mut Store) -> (r: MalRet)
    ensures
        exists|read: Result<Seq<char>, Seq<char>>|
            (ret_val(r), final(store)@) == #[trigger] load_file_spec(read, env, old(store)@),
{
    let read = sys.read_file(path);
    let ghost texts = read_text(read);
    let r = load_read(read, env, store);
    assert((ret_val(r), store@) == load_file_spec(texts, env, old(store)@));
    r
}

/// Whether reading `s` and evaluating the form in scope `env` succeeds, and the heap after it.
pub open spec fn re_spec(s: Seq<char>, env: usize, h: Heap) -> (bool, Heap) {
    match read_str_spec(s) {
        Ok(ast) => {
            let r = eval_spec(ast, env, h, EVAL_LIMIT as nat);
            (r.0 is Ok, r.1)
        },
        Err(_) => (false, h),
    }
}

/// Reads `str` and evaluates the form in scope `env` for its effect; says whether both succeeded.
pub fn re(str: &str, env: Env, store: &mut Store) -> (ok: bool)
    ensures
        (ok, final(store)@) == re_spec(str@, env, old(store)@),
{
    match read(str) {
        Ok(ast) => eval(&ast, env, store).is_ok(),
        Err(_) => false,
    }
}

/// The strings `argv` as values.
pub open spec fn strs(argv: Seq<String>) -> Seq<Val> {
    Seq::new(argv.len(), |i: int| Val::Str(argv[i]@))
}

/// The heap after the definitions that the language makes in itself were
/// evaluated in scope `env`, `*ARGV*` bound to `argv` first; and whether all succeeded.
pub open spec fn init_spec(h: Heap, env: usize, argv: Seq<Val>) -> (bool, Heap) {
    let h0 = env_sets_spec(h, env, "*ARGV*"@, list_val(argv));
    let a = re_spec("(def! *host-language* \"rust\")"@, env, h0);
    let b = re_spec("(def! not (fn* (a) (if a false true)))"@, env, a.1);
    let c = re_spec(
        "(def! load-file (fn* (f) (eval (read-string (str \"(do \" (slurp f) \"\\nnil)\")))))"@,
        env,
        b.1,
    );
    let d = re_spec(
        "(defmacro! cond (fn* (& xs) (if (> (count xs) 0) (list 'if (first xs) (if (> (count xs) 1) (nth xs 1) (throw \"odd number of forms to cond\")) (cons 'cond (rest (rest xs)))))))"@,
        env,
        c.1,
    );
    (a.0 && b.0 && c.0 && d.0, d.1)
}

/// Binds `*ARGV*` to `argv` in scope `repl_env` and evaluates there the
/// definitions that the language makes in itself: `*host-language*`,
/// `not`, `load-file` and `cond`. Says whether all succeeded.
pub fn initialize_mal_env(repl_env: Env, store: &mut Store, argv: Vec<String>) -> (ok: bool)
    ensures
        (ok, final(store)@) == init_spec(old(store)@, repl_env, strs(argv@)),
{
    let mut args: Vec<MalVal> = Vec::new();
    let mut i: usize = 0;
    while i < argv.len()
        invariant
            i <= argv.len(),
            args@.len() == i,
            forall|j: int| 0 <= j < i ==> (#[trigger] args@[j])@ == Val::Str(argv@[j]@),
        decreases argv.len() - i,
    {
        args.push(MalVal::Str(argv[i].clone()));
        i += 1;
    }
    assert(vals(args@) =~= strs(argv@));
    env_sets(store, repl_env, "*ARGV*", list(args));
    let a = re("(def! *host-language* \"rust\")", repl_env, store);
    let b = re("(def! not (fn* (a) (if a false true)))", repl_env, store);
    let c = re(
        "(def! load-file (fn* (f) (eval (read-string (str \"(do \" (slurp f) \"\\nnil)\")))))",
        repl_env,
        store,
    );
    let d = re(
        "(defmacro! cond (fn* (& xs) (if (> (count xs) 0) (list 'if (first xs) (if (> (count xs) 1) (nth xs 1) (throw \"odd number of forms to cond\")) (cons 'cond (rest (rest xs)))))))",
        repl_env,
        store,
    );
    a && b && c && d
}

/// What evaluating a form that was read gives; the failure of reading it where it was not read.
pub open spec fn eval_read_spec(form: Result<Val, Val>, env: usize, h: Heap) -> (
    Result<Val, Val>,
    Heap,
) {
    match form {
        Ok(ast) => eval_spec(ast, env, h, EVAL_LIMIT as nat),
        Err(e) => (Err(e), h),
    }
}

/// Evaluates in scope `env` a form that was read; hands on the failure of reading it.
pub fn eval_read(form: MalRet, env: Env, store: &mut Store) -> (r: MalRet)
    ensures
        (ret_val(r), final(store)@) == eval_read_spec(ret_val(form), env, old(store)@),
{
    match form {
        Ok(ast) => eval(&ast, env, store),
        Err(e) => Err(e),
    }
}

/// The text of a result: the readable text of the value, or `Error: `
/// and the readable text of what was thrown.
pub open spec fn render_spec(r: Result<Val, Val>, h: Heap) -> Seq<char> {
    match r {
        Ok(v) => pr_str_spec(v, true, h, ATOM_DEPTH as nat),
        Err(e) => "Error: "@ + pr_str_spec(e, true, h, ATOM_DEPTH as nat),
    }
}

/// The text of a result.
pub fn render(r: &MalRet, store: &Store) -> (s: String)
    ensures
        s@ == render_spec(ret_val(*r), store@),
{
    match r {
        Ok(v) => print(v, store),
        Err(e) => {
            let mut out = String::new();
            push_text(&mut out, "Error: ");
            let text = print(e, store);
            push_text(&mut out, text.as_str());
            assert(out@ =~= "Error: "@ + text@);
            out
        },
    }
}

/// The forms of a source, evaluated one by one as they are asked for.
pub struct RepStream<R: CharReader> {
    stream: MalStream<R>,
    env: Env,
}

/// The forms of `reader`, to be evaluated in scope `env` one by one.
pub fn rep_stream_to_malret<R: CharReader>(reader: R, env: Env) -> (r: RepStream<R>)
    ensures
        r.scope() == env,
        r.left() == READ_LIMIT,
        r.pending() == Seq::<char>::empty(),
        !r.is_done(),
{
    RepStream { stream: MalStream::new(reader), env }
}

/// The forms of `reader`, to be evaluated in scope `env` and printed one by one.
pub fn rep_stream_to_string<R: CharReader>(reader: R, env: Env) -> (r: RepStream<R>)
    ensures
        r.scope() == env,
        r.left() == READ_LIMIT,
        r.pending() == Seq::<char>::empty(),
        !r.is_done(),
{
    RepStream { stream: MalStream::new(reader), env }
}

/// The values of the first `n` of the forms `forms`, each evaluated in
/// scope `env` on the heap that the one before left, and the heap behind the last.
pub open spec fn run_spec(forms: Seq<Result<Val, Val>>, n: nat, env: usize, h: Heap) -> (
    Seq<Result<Val, Val>>,
    Heap,
)
    decreases n,
{
    if n == 0 || n > forms.len() {
        (Seq::empty(), h)
    } else {
        let before = run_spec(forms, (n - 1) as nat, env, h);
        let r = eval_read_spec(forms[n - 1], env, before.1);
        (before.0.push(r.0), r.1)
    }
}

/// The text of the value of a form that was read, evaluated in scope
/// `env` and printed on the heap that evaluating it left; and that heap.
pub open spec fn rendered(form: Result<Val, Val>, env: usize, h: Heap) -> (Seq<char>, Heap) {
    let e = eval_read_spec(form, env, h);
    (render_spec(e.0, e.1), e.1)
}

/// The texts of the values of the first `n` of the forms `forms`, each
/// evaluated in scope `env` on the heap that the one before left and
/// printed on the heap that it left itself; and the heap behind the last.
pub open spec fn run_text_spec(forms: Seq<Result<Val, Val>>, n: nat, env: usize, h: Heap) -> (
    Seq<Seq<char>>,
    Heap,
)
    decreases n,
{
    if n == 0 || n > forms.len() {
        (Seq::empty(), h)
    } else {
        let before = run_text_spec(forms, (n - 1) as nat, env, h);
        let r = rendered(forms[n - 1], env, before.1);
        (before.0.push(r.0), r.1)
    }
}

/// The values of all forms of the text `s`, read as a stream reads them
/// and evaluated in scope `env` one after the other; and the heap behind the last.
pub open spec fn rep_all_spec(s: Seq<char>, env: usize, h: Heap) -> (Seq<Result<Val, Val>>, Heap) {
    run_spec(forms_of_text(s), forms_of_text(s).len(), env, h)
}

/// The texts of the values of all forms of the text `s`; and the heap behind the last.
pub open spec fn rep_all_text_spec(s: Seq<char>, env: usize, h: Heap) -> (Seq<Seq<char>>, Heap) {
    run_text_spec(forms_of_text(s), forms_of_text(s).len(), env, h)
}

/// The texts of a sequence of strings.
pub open spec fn lines(items: Seq<String>) -> Seq<Seq<char>> {
    Seq::new(items.len(), |i: int| items[i]@)
}

/// What one call for a value does, where `s` is the pending text with
/// the characters taken in during the call and `form` what was read out
/// of it: the form is evaluated in scope `env`; at the end of the source
/// nothing is changed.
pub open spec fn evaluated_out(
    form: Option<Result<Val, Val>>,
    r: Option<Result<Val, Val>>,
    env: usize,
    before: Heap,
    after: Heap,
) -> bool {
    match form {
        Some(f) => r is Some && (r->0, after) == eval_read_spec(f, env, before),
        None => r is None && after == before,
    }
}

/// What one call for a text does: as [`evaluated_out`], with the value printed.
pub open spec fn printed_out(
    form: Option<Result<Val, Val>>,
    r: Option<Seq<char>>,
    env: usize,
    before: Heap,
    after: Heap,
) -> bool {
    match form {
        Some(f) => r is Some && (r->0, after) == rendered(f, env, before),
        None => r is None && after == before,
    }
}

impl<R: CharReader> RepStream<R> {
    /// The scope in which the forms are evaluated.
    pub closed spec fn scope(&self) -> Env {
        self.env
    }

    /// How many characters may still be taken from the source.
    pub closed spec fn left(&self) -> nat {
        self.stream.left()
    }

    /// The characters that were taken from the source and not yet read in a token.
    pub closed spec fn pending(&self) -> Seq<char> {
        self.stream.pending()
    }

    /// Whether the source has ended.
    pub closed spec fn is_done(&self) -> bool {
        self.stream.is_done()
    }

    /// The value of the next form, evaluated in the stream's scope;
    /// nothing at the end of the source, and then nothing is changed. No
    /// character is taken from the source behind a complete form.
    pub fn next(&mut self, store: &mut Store) -> (r: Option<MalRet>)
        ensures
            final(self).scope() == old(self).scope(),
            final(self).left() <= old(self).left(),
            old(self).is_done() ==> final(self).is_done() && final(self).left() == old(self).left(),
            r is Some ==> final(self).left() < old(self).left() || final(self).pending().len()
                < old(self).pending().len(),
            exists|s: Seq<char>, form: Option<Result<Val, Val>>|
                old(self).pending().is_prefix_of(s) && s.len() - old(self).pending().len() == old(
                    self).left() - final(self).left() && #[trigger] read_out(
                    s,
                    form,
                    final(self).pending(),
                    final(self).is_done(),
                ) && no_form_sooner(old(self).pending(), s) && evaluated_out(
                    form,
                    form_of(r),
                    old(self).scope(),
                    old(store)@,
                    final(store)@,
                ),
    {
        let ghost pending = self.pending();
        let ghost left = self.left();
        let read = self.stream.next();
        let ghost form = form_of(read);
        let ghost s = choose|s: Seq<char>|
            pending.is_prefix_of(s) && s.len() - pending.len() == left - self.left()
                && #[trigger] read_out(s, form, self.pending(), self.is_done()) && no_form_sooner(
                pending,
                s,
            );
        match read {
            Some(form) => {
                let r = Some(eval_read(form, self.env, store));
                assert(read_out(s, form_of(read), self.pending(), self.is_done()) && no_form_sooner(
                    old(self).pending(),
                    s,
                ) && evaluated_out(
                    form_of(read),
                    form_of(r),
                    old(self).scope(),
                    old(store)@,
                    store@,
                ));
                r
            },
            None => {
                assert(read_out(s, form_of(read), self.pending(), self.is_done()) && no_form_sooner(
                    old(self).pending(),
                    s,
                ) && evaluated_out(
                    form_of(read),
                    form_of(None),
                    old(self).scope(),
                    old(store)@,
                    store@,
                ));
                None
            },
        }
    }

    /// The text of the value of the next form; nothing at the end of the
    /// source, and then nothing is changed. No character is taken from
    /// the source behind a complete form.
    pub fn next_string(&mut self, store: &mut Store) -> (r: Option<String>)
        ensures
            final(self).scope() == old(self).scope(),
            final(self).left() <= old(self).left(),
            old(self).is_done() ==> final(self).is_done() && final(self).left() == old(self).left(),
            r is Some ==> final(self).left() < old(self).left() || final(self).pending().len()
                < old(self).pending().len(),
            exists|s: Seq<char>, form: Option<Result<Val, Val>>|
                old(self).pending().is_prefix_of(s) && s.len() - old(self).pending().len() == old(
                    self).left() - final(self).left() && #[trigger] read_out(
                    s,
                    form,
                    final(self).pending(),
                    final(self).is_done(),
                ) && no_form_sooner(old(self).pending(), s) && printed_out(
                    form,
                    text_of_token(r),
                    old(self).scope(),
                    old(store)@,
                    final(store)@,
                ),
    {
        let ghost pending = self.pending();
        let ghost left = self.left();
        let read = self.stream.next();
        let ghost form = form_of(read);
        let ghost s = choose|s: Seq<char>|
            pending.is_prefix_of(s) && s.len() - pending.len() == left - self.left()
                && #[trigger] read_out(s, form, self.pending(), self.is_done()) && no_form_sooner(
                pending,
                s,
            );
        match read {
            Some(form) => {
                let value = eval_read(form, self.env, store);
                let r = Some(render(&value, store));
                assert(read_out(s, form_of(read), self.pending(), self.is_done()) && no_form_sooner(
                    old(self).pending(),
                    s,
                ) && printed_out(
                    form_of(read),
                    text_of_token(r),
                    old(self).scope(),
                    old(store)@,
                    store@,
                ));
                r
            },
            None => {
                assert(read_out(s, form_of(read), self.pending(), self.is_done()) && no_form_sooner(
                    old(self).pending(),
                    s,
                ) && printed_out(
                    form_of(read),
                    text_of_token(None),
                    old(self).scope(),
                    old(store)@,
                    store@,
                ));
                None
            },
        }
    }
}

/// Evaluating one more form behind `forms` adds its value to the values of `forms`.
pub proof fn lemma_run_push(forms: Seq<Result<Val, Val>>, f: Result<Val, Val>, env: usize, h: Heap)
    ensures
        run_spec(forms.push(f), forms.len() + 1, env, h) == ({
            let before = run_spec(forms, forms.len(), env, h);
            let r = eval_read_spec(f, env, before.1);
            (before.0.push(r.0), r.1)
        }),
        run_text_spec(forms.push(f), forms.len() + 1, env, h) == ({
            let before = run_text_spec(forms, forms.len(), env, h);
            let r = rendered(f, env, before.1);
            (before.0.push(r.0), r.1)
        }),
{
    lemma_run_prefix(forms, f, forms.len(), env, h);
}

/// The values of the first `n` forms do not depend on a form that is put behind them.
pub proof fn lemma_run_prefix(
    forms: Seq<Result<Val, Val>>,
    f: Result<Val, Val>,
    n: nat,
    env: usize,
    h: Heap,
)
    requires
        n <= forms.len(),
    ensures
        run_spec(forms.push(f), n, env, h) == run_spec(forms, n, env, h),
        run_text_spec(forms.push(f), n, env, h) == run_text_spec(forms, n, env, h),
    decreases n,
{
    if n > 0 {
        lemma_run_prefix(forms, f, (n - 1) as nat, env, h);
        assert(forms.push(f)[n - 1] == forms[n - 1]);
    }
}

/// The values of all forms of `reader`, evaluated in scope `env` one
/// after the other: whatever characters the source gave, the results are
/// those of reading their forms and evaluating them in order.
pub fn rep_stream_to_malret_vec<R: CharReader>(reader: R, env: Env, store: &mut Store) -> (r: Vec<
    MalRet,
>)
    ensures
        exists|all: Seq<char>|
            all.len() <= READ_LIMIT && (rets(r@), final(store)@) == #[trigger] rep_all_spec(
                all,
                env,
                old(store)@,
            ),
{
    let mut stream = MalStream::new(reader);
    let mut out: Vec<MalRet> = Vec::new();
    let ghost mut forms: Seq<Result<Val, Val>> = Seq::empty();
    let ghost mut seen: Seq<char> = Seq::empty();
    proof {
        assert(rets(out@) =~= Seq::empty());
        assert forall|f: Seq<char>|
            (stream.is_done() ==> f.len() == 0) implies #[trigger] forms_of_text(seen + f) == forms
            + forms_of_text(stream.pending() + f) by {
            assert(seen + f =~= stream.pending() + f);
            assert(forms + forms_of_text(seen + f) =~= forms_of_text(seen + f));
        }
    }
    loop
        invariant
            seen.len() + stream.left() == READ_LIMIT,
            agrees_forms(seen, forms, stream.pending(), stream.is_done()),
            (rets(out@), store@) == run_spec(forms, forms.len(), env, old(store)@),
        ensures
            seen.len() <= READ_LIMIT,
            forms == forms_of_text(seen),
            (rets(out@), store@) == run_spec(forms, forms.len(), env, old(store)@),
        decreases stream.left(), stream.pending().len(),
    {
        let ghost pending = stream.pending();
        let ghost done = stream.is_done();
        let ghost left = stream.left();
        let read = stream.next();
        proof {
            let s = choose|s: Seq<char>|
                pending.is_prefix_of(s) && s.len() - pending.len() == left - stream.left()
                    && #[trigger] read_out(s, form_of(read), stream.pending(), stream.is_done());
            if done {
                assert(s =~= pending);
            }
            lemma_forms_step(
                seen,
                forms,
                pending,
                done,
                s,
                form_of(read),
                stream.pending(),
                stream.is_done(),
            );
            seen = seen + s.skip(pending.len() as int);
        }
        match read {
            Some(form) => {
                let ghost f = ret_val(form);
                let ghost before = rets(out@);
                let r = eval_read(form, env, store);
                proof {
                    lemma_run_push(forms, f, env, old(store)@);
                    forms = forms.push(f);
                }
                out.push(r);
                assert(rets(out@) =~= before.push(ret_val(r)));
            },
            None => {
                break ;
            },
        }
    }
    assert((rets(out@), store@) == rep_all_spec(seen, env, old(store)@));
    out
}

/// The texts of the values of all forms of `reader`, evaluated in scope
/// `env` one after the other: whatever characters the source gave, the
/// texts are those of reading their forms, evaluating them in order and
/// printing each value.
pub fn rep_stream_to_string_vec<R: CharReader>(reader: R, env: Env, store: &mut Store) -> (r: Vec<
    String,
>)
    ensures
        exists|all: Seq<char>|
            all.len() <= READ_LIMIT && (lines(r@), final(store)@) == #[trigger] rep_all_text_spec(
                all,
                env,
                old(store)@,
            ),
{
    let mut stream = MalStream::new(reader);
    let mut out: Vec<String> = Vec::new();
    let ghost mut forms: Seq<Result<Val, Val>> = Seq::empty();
    let ghost mut seen: Seq<char> = Seq::empty();
    proof {
        assert(lines(out@) =~= Seq::empty());
        assert forall|f: Seq<char>|
            (stream.is_done() ==> f.len() == 0) implies #[trigger] forms_of_text(seen + f) == forms
            + forms_of_text(stream.pending() + f) by {
            assert(seen + f =~= stream.pending() + f);
            assert(forms + forms_of_text(seen + f) =~= forms_of_text(seen + f));
        }
    }
    loop
        invariant
            seen.len() + stream.left() == READ_LIMIT,
            agrees_forms(seen, forms, stream.pending(), stream.is_done()),
            (lines(out@), store@) == run_text_spec(forms, forms.len(), env, old(store)@),
        ensures
            seen.len() <= READ_LIMIT,
            forms == forms_of_text(seen),
            (lines(out@), store@) == run_text_spec(forms, forms.len(), env, old(store)@),
        decreases stream.left(), stream.pending().len(),
    {
        let ghost pending = stream.pending();
        let ghost done = stream.is_done();
        let ghost left = stream.left();
        let read = stream.next();
        proof {
            let s = choose|s: Seq<char>|
                pending.is_prefix_of(s) && s.len() - pending.len() == left - stream.left()
                    && #[trigger] read_out(s, form_of(read), stream.pending(), stream.is_done());
            if done {
                assert(s =~= pending);
            }
            lemma_forms_step(
                seen,
                forms,
                pending,
                done,
                s,
                form_of(read),
                stream.pending(),
                stream.is_done(),
            );
            seen = seen + s.skip(pending.len() as int);
        }
        match read {
            Some(form) => {
                let ghost f = ret_val(form);
                let ghost before = lines(out@);
                let r = eval_read(form, env, store);
                let text = render(&r, store);
                proof {
                    lemma_run_push(forms, f, env, old(store)@);
                    forms = forms.push(f);
                }
                out.push(text);
                assert(lines(out@) =~= before.push(text@));
            },
            None => {
                break ;
            },
        }
    }
    assert((lines(out@), store@) == rep_all_text_spec(seen, env, old(store)@));
    out
}

} // verus!
