use mal::types::{list, vector, MalVal};
use mal::{env_bind, env_get, env_new, env_set, env_sets, Store};

fn sym(s: &str) -> MalVal {
    MalVal::Sym(s.to_string())
}

fn int_of(v: Option<MalVal>) -> i64 {
    match v {
        Some(MalVal::Int(i)) => i,
        _ => panic!("expected an integer"),
    }
}

#[test]
fn lookup_walks_outward() {
    let mut store = Store::new();
    let root = env_new(&mut store, None);
    let inner = env_new(&mut store, Some(root));
    assert_eq!(root, 0);
    assert_eq!(inner, 1);
    assert_eq!(store.env_count(), 2);
    env_sets(&mut store, root, "a", MalVal::Int(1));
    env_sets(&mut store, root, "b", MalVal::Int(2));
    env_sets(&mut store, inner, "b", MalVal::Int(3));
    assert_eq!(int_of(env_get(&store, inner, "a")), 1);
    assert_eq!(int_of(env_get(&store, inner, "b")), 3);
    assert_eq!(int_of(env_get(&store, root, "b")), 2);
    assert!(env_get(&store, inner, "c").is_none());
    assert!(env_get(&store, 7, "a").is_none());
    env_sets(&mut store, root, "a", MalVal::Int(10));
    assert_eq!(int_of(env_get(&store, inner, "a")), 10);
    env_sets(&mut store, 9, "zz", MalVal::Int(1));
    assert_eq!(store.env_count(), 2);
}

#[test]
fn a_link_to_a_younger_scope_is_not_followed() {
    let mut store = Store::new();
    let a = env_new(&mut store, Some(1));
    let b = env_new(&mut store, Some(a));
    env_sets(&mut store, b, "x", MalVal::Int(1));
    assert!(env_get(&store, a, "x").is_none());
    assert_eq!(int_of(env_get(&store, b, "x")), 1);
}

#[test]
fn set_wants_a_symbol() {
    let mut store = Store::new();
    let root = env_new(&mut store, None);
    match env_set(&mut store, root, &sym("k"), MalVal::Int(5)) {
        Ok(MalVal::Int(5)) => {}
        _ => panic!("expected the value back"),
    }
    assert_eq!(int_of(env_get(&store, root, "k")), 5);
    match env_set(&mut store, root, &MalVal::Int(1), MalVal::Int(5)) {
        Err(MalVal::Str(m)) => assert_eq!(m, "Env.set called with non-Str"),
        _ => panic!("expected a failure"),
    }
    match env_set(&mut store, 3, &sym("k"), MalVal::Int(5)) {
        Err(MalVal::Str(m)) => assert_eq!(m, "no such environment"),
        _ => panic!("expected a failure"),
    }
}

#[test]
fn bind_checks_the_number_of_arguments() {
    let mut store = Store::new();
    let root = env_new(&mut store, None);
    let params = list(vec![sym("a"), sym("b")]);
    let e = env_bind(&mut store, root, &params, vec![MalVal::Int(1), MalVal::Int(2)])
        .ok()
        .unwrap();
    assert_eq!(e, 1);
    assert_eq!(int_of(env_get(&store, e, "a")), 1);
    assert_eq!(int_of(env_get(&store, e, "b")), 2);
    match env_bind(&mut store, root, &params, vec![MalVal::Int(1)]) {
        Err(MalVal::Str(m)) => assert_eq!(
            m,
            "wrong number of arguments: function requires more arguments than provided"
        ),
        _ => panic!("expected too few"),
    }
    match env_bind(
        &mut store,
        root,
        &params,
        vec![MalVal::Int(1), MalVal::Int(2), MalVal::Int(3)],
    ) {
        Err(MalVal::Str(m)) => assert_eq!(
            m,
            "wrong number of arguments: function received more arguments than expected"
        ),
        _ => panic!("expected too many"),
    }
    assert_eq!(store.env_count(), 2);
    match env_bind(&mut store, root, &MalVal::Int(1), vec![]) {
        Err(MalVal::Str(m)) => assert_eq!(m, "env_bind binds not List/Vector"),
        _ => panic!("expected a failure"),
    }
    match env_bind(&mut store, root, &vector(vec![MalVal::Int(1)]), vec![MalVal::Nil]) {
        Err(MalVal::Str(m)) => assert_eq!(m, "Env.set called with non-Str"),
        _ => panic!("expected a failure"),
    }
}

#[test]
fn bind_collects_the_rest() {
    let mut store = Store::new();
    let root = env_new(&mut store, None);
    let params = vector(vec![sym("a"), sym("&"), sym("more")]);
    let e = env_bind(
        &mut store,
        root,
        &params,
        vec![MalVal::Int(1), MalVal::Int(2), MalVal::Int(3)],
    )
    .ok()
    .unwrap();
    match env_get(&store, e, "more") {
        Some(v) => assert_eq!(v.pr_str(true, &store), "(2 3)"),
        None => panic!("expected the rest"),
    }
    let e2 = env_bind(&mut store, root, &params, vec![MalVal::Int(1)])
        .ok()
        .unwrap();
    match env_get(&store, e2, "more") {
        Some(v) => assert_eq!(v.pr_str(true, &store), "()"),
        None => panic!("expected the rest"),
    }
    let twice = list(vec![sym("a"), sym("a")]);
    let e3 = env_bind(&mut store, root, &twice, vec![MalVal::Int(1), MalVal::Int(2)])
        .ok()
        .unwrap();
    assert_eq!(int_of(env_get(&store, e3, "a")), 2);
}

#[test]
fn atoms_live_in_the_store() {
    let mut store = Store::new();
    assert_eq!(store.atom_count(), 0);
    let a = store.atom_new(MalVal::Int(1));
    let b = store.atom_new(MalVal::Int(2));
    assert_eq!((a, b), (0, 1));
    assert_eq!(int_of(store.atom_get(a)), 1);
    assert!(store.atom_set(a, MalVal::Int(5)));
    assert_eq!(int_of(store.atom_get(a)), 5);
    assert_eq!(int_of(store.atom_get(b)), 2);
    assert!(!store.atom_set(2, MalVal::Int(5)));
    assert!(store.atom_get(2).is_none());
    assert_eq!(store.atom_count(), 2);
}
