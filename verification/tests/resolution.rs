use resolver::ident::{Ident, Loc, TranslateErr};
use resolver::modules::{add_child, search_const, search_module, search_namedhole, Name, Scope};

fn strs(v: &[&str]) -> Vec<String> {
    v.iter().map(|s| s.to_string()).collect()
}

fn root_scope() -> Scope {
    Scope { module: 0, names: Vec::new(), parent: None }
}

#[test]
fn empty_path_resolves_to_start() {
    let (mut tree, _s0) = Scope::top();
    let a = add_child(&mut tree, 0, "A".to_string()).unwrap();
    let empty: Vec<String> = Vec::new();
    assert_eq!(search_module(&tree, 0, &empty), Ok(0));
    assert_eq!(search_module(&tree, a, &empty), Ok(a));
}

#[test]
fn retrace_and_super_return() {
    let (mut tree, _s0) = Scope::top();
    let a = add_child(&mut tree, 0, "A".to_string()).unwrap();
    let b = add_child(&mut tree, a, "B".to_string()).unwrap();
    // descending by the child names reaches the node
    assert_eq!(search_module(&tree, 0, &strs(&["A", "B"])), Ok(b));
    // "super" as many times as it descended returns to the start
    assert_eq!(search_module(&tree, b, &strs(&["super", "super"])), Ok(0));
    // "self" is a no-op anywhere on the way
    assert_eq!(search_module(&tree, 0, &strs(&["self", "A", "self", "B"])), Ok(b));
}

#[test]
fn super_at_root_fails_with_reserved_segment() {
    let (tree, _s0) = Scope::top();
    assert_eq!(search_module(&tree, 0, &strs(&["super"])), Err("super".to_string()));
}

#[test]
fn missing_child_reports_the_segment() {
    let (tree, _s0) = Scope::top();
    assert_eq!(search_module(&tree, 0, &strs(&["nowhere"])), Err("nowhere".to_string()));
}

#[test]
fn duplicate_child_is_rejected_and_first_child_kept() {
    let (mut tree, _s0) = Scope::top();
    let a1 = add_child(&mut tree, 0, "A".to_string()).unwrap();
    tree.nodes[a1].register(11, "marker".to_string());
    assert_eq!(add_child(&mut tree, 0, "A".to_string()), Err(()));
    // the first child's identity is unchanged
    assert_eq!(search_module(&tree, 0, &strs(&["A"])), Ok(a1));
    assert_eq!(search_const(&tree, 0, &strs(&["A"]), &"marker".to_string()), Some(11));
}

#[test]
fn namespaces_are_independent() {
    let (mut tree, _s0) = Scope::top();
    tree.nodes[0].register(5, "x".to_string());
    tree.nodes[0].register_namedhole(9, "x".to_string());
    let empty: Vec<String> = Vec::new();
    assert_eq!(search_const(&tree, 0, &empty, &"x".to_string()), Some(5));
    assert_eq!(search_namedhole(&tree, 0, &empty, &"x".to_string()), Some(9));
    // a name registered in only one namespace is invisible to the other
    tree.nodes[0].register(6, "only_const".to_string());
    tree.nodes[0].register_namedhole(7, "only_hole".to_string());
    assert_eq!(search_namedhole(&tree, 0, &empty, &"only_const".to_string()), None);
    assert_eq!(search_const(&tree, 0, &empty, &"only_hole".to_string()), None);
}

#[test]
fn reregistration_replaces_silently() {
    let (mut tree, _s0) = Scope::top();
    tree.nodes[0].register(1, "x".to_string());
    tree.nodes[0].register(2, "x".to_string());
    let empty: Vec<String> = Vec::new();
    assert_eq!(search_const(&tree, 0, &empty, &"x".to_string()), Some(2));
}

#[test]
fn scope_fallback_prefers_nearest_enclosing() {
    let (mut tree, s0) = Scope::top();
    let a = add_child(&mut tree, 0, "A".to_string()).unwrap();
    let b = add_child(&mut tree, 0, "B".to_string()).unwrap();
    tree.nodes[0].register(100, "y".to_string());
    let s1 = Scope::new(a, s0);
    let s2 = Scope::new(b, s1);
    let empty: Vec<String> = Vec::new();
    // only the root scope's module defines "y": the chain falls back to it
    assert_eq!(s2.resolve(&tree, &empty, &"y".to_string()), Some(100));
    // once the middle scope's module defines "y" too, the nearer one wins
    tree.nodes[a].register(200, "y".to_string());
    assert_eq!(s2.resolve(&tree, &empty, &"y".to_string()), Some(200));
    // and the nearest scope's own module wins over both
    tree.nodes[b].register(300, "y".to_string());
    assert_eq!(s2.resolve(&tree, &empty, &"y".to_string()), Some(300));
}

#[test]
fn registration_never_searches_the_scope_chain() {
    let (mut tree, s0) = Scope::top();
    let a = add_child(&mut tree, 0, "A".to_string()).unwrap();
    add_child(&mut tree, 0, "B".to_string()).unwrap();
    // from the root module the qualifier ["B"] resolves fine
    assert_eq!(search_module(&tree, 0, &strs(&["B"])), Ok(2));
    // but registering through a scope anchored at A must fail: the
    // ancestor scope's module is never consulted
    let mut s1 = Scope::new(a, s0);
    let r = s1.register_const(&mut tree, &strs(&["B"]), "f".to_string(), 1);
    assert_eq!(r, Err("B".to_string()));
    assert_eq!(s1.names().len(), 0);
}

#[test]
fn end_to_end_scenario() {
    let (mut tree, s0) = Scope::top();
    let a = add_child(&mut tree, 0, "A".to_string()).unwrap();
    let mut s1 = Scope::new(a, s0);
    let empty: Vec<String> = Vec::new();
    // registration lands in A and is logged in s1
    assert_eq!(s1.register_const(&mut tree, &empty, "f".to_string(), 7), Ok(7));
    assert_eq!(search_const(&tree, a, &empty, &"f".to_string()), Some(7));
    assert_eq!(s1.names().len(), 1);
    assert_eq!(s1.names()[0].identifier, "f".to_string());
    assert_eq!(s1.names()[0].qualifier.len(), 0);
    // s1 resolves it; a root scope does not (no fallback downward)
    assert_eq!(s1.resolve(&tree, &empty, &"f".to_string()), Some(7));
    let s0_again = root_scope();
    assert_eq!(s0_again.resolve(&tree, &empty, &"f".to_string()), None);
    // ["super"] from A starts the walk at A's parent, the root
    tree.nodes[0].register(42, "g".to_string());
    assert_eq!(s1.resolve(&tree, &strs(&["super"]), &"g".to_string()), Some(42));
}

#[test]
fn resolve_from_ident_uses_domain_and_name() {
    let (mut tree, s0) = Scope::top();
    let a = add_child(&mut tree, 0, "A".to_string()).unwrap();
    tree.nodes[a].register(13, "h".to_string());
    let ident = Ident {
        domain: strs(&["A"]),
        name: "h".to_string(),
        loc: Loc { line: 3, column: 7 },
    };
    assert_eq!(s0.resolve_from_ident(&tree, &ident), Some(13));
}

#[test]
fn namedhole_registration_and_resolution() {
    let (mut tree, s0) = Scope::top();
    let a = add_child(&mut tree, 0, "A".to_string()).unwrap();
    let ident = Ident {
        domain: strs(&["A"]),
        name: "hole".to_string(),
        loc: Loc { line: 1, column: 2 },
    };
    assert!(s0.register_namedhole(&mut tree, ident, 4).is_ok());
    assert_eq!(search_namedhole(&tree, a, &Vec::new(), &"hole".to_string()), Some(4));
    let query = Ident {
        domain: strs(&["A"]),
        name: "hole".to_string(),
        loc: Loc { line: 9, column: 9 },
    };
    assert_eq!(s0.resolve_namedhole(&tree, &query), Some(4));
    // the hole is not visible as a constant
    assert_eq!(s0.resolve(&tree, &strs(&["A"]), &"hole".to_string()), None);
}

#[test]
fn namedhole_registration_reports_segment_and_location() {
    let (mut tree, s0) = Scope::top();
    let loc = Loc { line: 12, column: 34 };
    let ident = Ident { domain: strs(&["Missing"]), name: "h".to_string(), loc };
    match s0.register_namedhole(&mut tree, ident, 1) {
        Err((TranslateErr::UndefinedModule { name }, at)) => {
            assert_eq!(name, "Missing".to_string());
            assert_eq!(at, loc);
        },
        Ok(()) => panic!("registration under a missing module must fail"),
    }
}

#[test]
fn module_accessors() {
    let (mut tree, s0) = Scope::top();
    let a = add_child(&mut tree, 0, "A".to_string()).unwrap();
    assert_eq!(tree.nodes[0].name(), "");
    assert_eq!(tree.nodes[a].name(), "A");
    assert_eq!(s0.module(), 0);
    let simple = Name::simple("z".to_string());
    assert_eq!(simple.identifier, "z".to_string());
    assert!(simple.qualifier.is_empty());
}

#[test]
fn fallback_restarts_the_whole_qualifier_walk() {
    let (mut tree, s0) = Scope::top();
    let a = add_child(&mut tree, 0, "A".to_string()).unwrap();
    let m = add_child(&mut tree, 0, "M".to_string()).unwrap();
    tree.nodes[m].register(77, "z".to_string());
    // A has no child "M", so from a scope anchored at A the qualifier
    // ["M"] fails; the whole resolution restarts from the root scope's
    // module, where it succeeds
    let s1 = Scope::new(a, s0);
    assert_eq!(s1.resolve(&tree, &strs(&["M"]), &"z".to_string()), Some(77));
    // with no enclosing scope the same lookup misses
    let lone = Scope { module: a, names: Vec::new(), parent: None };
    assert_eq!(lone.resolve(&tree, &strs(&["M"]), &"z".to_string()), None);
}
