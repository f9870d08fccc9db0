use lispdm::expr::{Expr, List};

#[test]
fn validate_empty() {
    let list = List::new_empty();
    assert!(list.is_empty());
    assert!(list.is_proper());
    assert_eq!(list.into_exprs(), vec![]);
}

#[test]
fn validate_proper() {
    let list = List::new_proper(vec![Expr::Integer(1), Expr::Integer(2)]);
    assert_eq!(list.len(), 2);
    assert!(list.is_proper());
    assert_eq!(list.into_exprs(), vec![Expr::Integer(1), Expr::Integer(2)]);
}

#[test]
fn validate_dotted_simple() {
    let list = List::new_dotted(vec![Expr::Integer(1), Expr::Integer(2)], Expr::Integer(3));
    assert_eq!(list.len(), 3);
    assert!(list.is_dotted());
    assert_eq!(
        list.into_exprs(),
        vec![Expr::Integer(1), Expr::Integer(2), Expr::Integer(3)]
    );
}

#[test]
fn validate_dotted_nested() {
    let list = List::new_dotted(
        vec![Expr::Integer(1), Expr::Integer(2)],
        Expr::List(List::new_dotted(vec![Expr::Integer(3)], Expr::Integer(4))),
    );
    assert_eq!(list.len(), 4);
    assert!(list.is_dotted());
    assert_eq!(
        list.into_exprs(),
        vec![Expr::Integer(1), Expr::Integer(2), Expr::Integer(3), Expr::Integer(4)]
    );
}

#[test]
fn validate_dotted_with_proper_tail() {
    let list = List::new_dotted(
        vec![Expr::Integer(1), Expr::Integer(2)],
        Expr::List(List::new_proper(vec![Expr::Integer(3), Expr::Integer(4)])),
    );
    assert_eq!(list.len(), 4);
    assert!(list.is_proper());
    assert_eq!(
        list.into_exprs(),
        vec![Expr::Integer(1), Expr::Integer(2), Expr::Integer(3), Expr::Integer(4)]
    );
}

#[test]
fn list_car_pop_and_split() {
    let mut list = List::new_dotted(vec![Expr::Integer(1)], Expr::Integer(2));
    assert_eq!(list.car(), Some(&Expr::Integer(1)));
    assert_eq!(list.last(), Some(&Expr::Integer(2)));
    assert_eq!(list.but_last(), &[Expr::Integer(1)]);
    assert_eq!(list.pop_front(), Some(Expr::Integer(1)));
    assert!(list.is_dotted());
    assert_eq!(list.car(), None);
    let (first, rest) = List::new_proper(vec![Expr::Integer(5), Expr::Integer(6)])
        .split_first()
        .unwrap();
    assert_eq!(first, Expr::Integer(5));
    assert_eq!(rest.into_exprs(), vec![Expr::Integer(6)]);
    assert!(List::new_empty().split_first().is_err());
}
