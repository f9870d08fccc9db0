use lispdm::expr::Expr;

fn sym(s: &str) -> Expr {
    Expr::Symbol(s.to_string())
}

#[test]
fn display_empty_list() {
    let expr = Expr::new_empty_list();
    assert_eq!(expr.to_string(), "()");
}

#[test]
fn display_proper_list() {
    let expr = Expr::new_proper_list(vec![Expr::Integer(1), Expr::Integer(2), Expr::Integer(3)]);
    assert_eq!(expr.to_string(), "(1 2 3)");
}

#[test]
fn display_dotted_list() {
    let expr = Expr::new_dotted_list(vec![Expr::Integer(1), Expr::Integer(2), Expr::Integer(3)]);
    assert_eq!(expr.to_string(), "(1 2 . 3)");
}

#[test]
fn display_tailing_dotted_list() {
    let expr = Expr::new_dotted_list(vec![
        Expr::Integer(1),
        Expr::new_dotted_list(vec![Expr::Integer(2), Expr::Integer(3)]),
    ]);
    assert_eq!(expr.to_string(), "(1 2 . 3)");
}

#[test]
fn display_nested_list() {
    let expr = Expr::new_proper_list(vec![
        Expr::new_proper_list(vec![
            sym("lambda"),
            Expr::new_proper_list(vec![sym("x")]),
            Expr::new_proper_list(vec![sym("*"), sym("x"), sym("x")]),
        ]),
        Expr::Integer(3),
    ]);
    assert_eq!(expr.to_string(), "((lambda (x) (* x x)) 3)");
}

#[test]
fn display_inner_dotted_list() {
    let expr = Expr::new_proper_list(vec![
        Expr::new_proper_list(vec![
            sym("lambda"),
            Expr::new_dotted_list(vec![sym("x"), sym("y")]),
            Expr::new_proper_list(vec![sym("*"), sym("x"), sym("y")]),
        ]),
        Expr::Integer(3),
        Expr::Integer(4),
    ]);
    assert_eq!(expr.to_string(), "((lambda (x . y) (* x y)) 3 4)");
}

#[test]
fn display_atoms() {
    assert_eq!(Expr::Integer(-42).to_string(), "-42");
    assert_eq!(Expr::Integer(i64::MIN).to_string(), "-9223372036854775808");
    assert_eq!(Expr::Boolean(true).to_string(), "#t");
    assert_eq!(Expr::Boolean(false).to_string(), "#f");
    assert_eq!(Expr::Char('a').to_string(), "'a'");
    assert_eq!(Expr::new_string("hi").to_string(), "\"hi\"");
    assert_eq!(Expr::Void.to_string(), "#<void>");
    assert_eq!(Expr::Float("2.5".to_string()).to_string(), "2.5");
}

#[test]
fn expr_kinds_and_predicates() {
    assert_eq!(Expr::new_empty_list().kind(), "list");
    assert_eq!(Expr::new_dotted_list(vec![sym("a"), sym("b")]).kind(), "dotted list");
    assert_eq!(Expr::Integer(1).kind(), "integer");
    assert!(Expr::Boolean(false).is_truthy() == false);
    assert!(Expr::Integer(0).is_truthy());
    assert!(sym("else").is_specific_symbol("else"));
    assert!(!sym("else").is_specific_symbol("els"));
    assert!(Expr::new_empty_list().is_empty_list());
    assert_eq!(Expr::Integer(7).into::<i64>(), Ok(7));
    assert_eq!(Expr::Integer(7).into::<bool>(), Err(Expr::Integer(7)));
}
