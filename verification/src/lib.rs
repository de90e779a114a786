//! A small Lisp: values, a reader, scopes and an evaluator with tail calls,
//! quasiquote and macros, each with a mathematical model and a contract
//! that Verus proves.
//!
//! A [`Store`] holds every scope and every atom of one interpreter; values
//! name them by handle. [`mal_env`] makes a store whose root scope binds
//! the native functions, [`rep`] reads, evaluates and prints one form.

pub mod builtins;
pub mod env;
pub mod equality;
pub mod eval;
pub mod keys;
pub mod keys_eval;
pub mod laws;
pub mod printer;
pub mod reader;
pub mod reader_laws;
pub mod repl;
pub mod semantics;
pub mod stream;
pub mod system;
pub mod text;
pub mod types;

pub use crate::builtins::{count, divide, empty_q, get_meta, with_meta};
pub use crate::env::{env_bind, env_get, env_new, env_set, env_sets, EnvStruct, Store};
pub use crate::eval::{atom, deref, eval, eval_bounded, reset_bang, swap_bang};
pub use crate::reader::read_str;
pub use crate::repl::{
    initialize_mal_env, load_file, load_text, mal_env, ns, print, re, read, rep,
    rep_stream_to_malret,
    rep_stream_to_malret_vec, rep_stream_to_string, rep_stream_to_string_vec, ROOT,
};
pub use crate::stream::{ByteToCharAdapter, CharReader, MalStream, TokenStream};
pub use crate::system::SystemOps;
pub use crate::types::{
    error, func, hash_map, list, unwrap_map_key, vector, wrap_map_key, Builtin, Env, FuncStruct,
    MalArgs, MalRet, MalVal,
};
