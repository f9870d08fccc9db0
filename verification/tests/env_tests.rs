use lispdm::{Expr, Store};

#[test]
fn add_then_lookup_in_child_and_parent() {
    let mut store = Store::new();
    let root = store.root();
    root.add(&mut store, "x".to_string(), Expr::Integer(1));
    let child = root.extend(&mut store);
    assert_eq!(child.get_expr(&store, "x"), Some(Expr::Integer(1)));
    child.add(&mut store, "x".to_string(), Expr::Integer(2));
    assert_eq!(child.get_expr(&store, "x"), Some(Expr::Integer(2)));
    assert_eq!(root.get_expr(&store, "x"), Some(Expr::Integer(1)));
    assert!(child.has(&store, "x"));
    assert!(!child.has(&store, "y"));
    assert!(!child.is_root(&store));
    assert!(root.is_root(&store));
}

#[test]
fn set_changes_nearest_binding_or_fails() {
    let mut store = Store::new();
    let root = store.root();
    root.add(&mut store, "x".to_string(), Expr::Integer(1));
    let child = root.extend(&mut store);
    assert_eq!(child.set(&mut store, "x".to_string(), Expr::Integer(3)), Ok(()));
    assert_eq!(root.get_expr(&store, "x"), Some(Expr::Integer(3)));
    assert_eq!(
        child.set(&mut store, "y".to_string(), Expr::Integer(3)),
        Err("symbol 'y' is not defined".to_string())
    );
    assert_eq!(child.get_expr(&store, "y"), None);
}

#[test]
fn copy_is_independent() {
    let mut store = Store::new();
    let root = store.root();
    root.add(&mut store, "x".to_string(), Expr::Integer(1));
    let copy = root.copy(&mut store);
    copy.add(&mut store, "x".to_string(), Expr::Integer(9));
    assert_eq!(root.get_expr(&store, "x"), Some(Expr::Integer(1)));
    assert_eq!(copy.get_expr(&store, "x"), Some(Expr::Integer(9)));
}
