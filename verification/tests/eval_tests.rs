use lispdm::expr::{Body, Expr, Procedure, ProcedureParams};
use lispdm::parser::parse_str;
use lispdm::procedure::NamedProcedure;
use lispdm::{eval_exprs, new_root_env, EnvRef, EvalResult, Store};

fn eval_str(source: &str, store: &mut Store, env: EnvRef) -> EvalResult {
    let exprs = parse_str(source).unwrap();
    eval_exprs(exprs, env, store, u64::MAX)
}

fn sym(s: &str) -> Expr {
    Expr::Symbol(s.to_string())
}

fn list(items: Vec<Expr>) -> Expr {
    Expr::new_proper_list(items)
}

#[test]
fn create_lambda() {
    let (mut store, env) = new_root_env();
    let result = eval_str("(lambda (x) (* x x))", &mut store, env).unwrap();
    match result {
        Expr::Procedure(proc) => match proc {
            Procedure::Compound(compound) => {
                assert_eq!(compound.params, ProcedureParams::Fixed(vec!["x".to_string()]));
                assert_eq!(
                    compound.body,
                    Box::new(Body::new_single(list(vec![sym("*"), sym("x"), sym("x")])))
                );
            }
            _ => panic!("expected compound procedure"),
        },
        _ => panic!("expected procedure"),
    }
}

#[test]
fn define_lambda() {
    let (mut store, env) = new_root_env();
    let result = eval_str("(define square (lambda (x) (* x x)))", &mut store, env).unwrap();
    assert_eq!(result, Expr::Void);
    match env.get_expr(&store, "square") {
        Some(Expr::Procedure(Procedure::Compound(compound))) => {
            assert_eq!(compound.params, ProcedureParams::Fixed(vec!["x".to_string()]));
            assert_eq!(
                compound.body,
                Box::new(Body::new_single(list(vec![sym("*"), sym("x"), sym("x")])))
            );
        }
        _ => panic!("expected procedure"),
    }
}

#[test]
fn define_proc_with_fixed_param() {
    let (mut store, env) = new_root_env();
    let result = eval_str("(define (square x) (* x x))", &mut store, env).unwrap();
    assert_eq!(result, Expr::Void);
    match env.get_expr(&store, "square") {
        Some(Expr::Procedure(Procedure::Compound(compound))) => {
            assert_eq!(compound.name(), "square");
            assert_eq!(compound.params, ProcedureParams::Fixed(vec!["x".to_string()]));
            assert_eq!(
                compound.body,
                Box::new(Body::new_single(list(vec![sym("*"), sym("x"), sym("x")])))
            );
        }
        _ => panic!("expected procedure"),
    }
}

#[test]
fn define_proc_with_variadic_param() {
    let (mut store, env) = new_root_env();
    let result = eval_str("(define (f . x) x)", &mut store, env).unwrap();
    assert_eq!(result, Expr::Void);
    match env.get_expr(&store, "f") {
        Some(Expr::Procedure(Procedure::Compound(compound))) => {
            assert_eq!(compound.name(), "f");
            assert_eq!(compound.params, ProcedureParams::Variadic("x".to_string()));
            assert_eq!(compound.body, Box::new(Body::new_single(sym("x"))));
        }
        _ => panic!("expected procedure"),
    }
}

#[test]
fn define_proc_with_mixed_params() {
    let (mut store, env) = new_root_env();
    let result = eval_str("(define (f x . y) (list x y))", &mut store, env).unwrap();
    assert_eq!(result, Expr::Void);
    match env.get_expr(&store, "f") {
        Some(Expr::Procedure(Procedure::Compound(compound))) => {
            assert_eq!(compound.name(), "f");
            assert_eq!(
                compound.params,
                ProcedureParams::Mixed(vec!["x".to_string()], "y".to_string())
            );
            assert_eq!(
                compound.body,
                Box::new(Body::new_single(list(vec![sym("list"), sym("x"), sym("y")])))
            );
        }
        _ => panic!("expected procedure"),
    }
}

#[test]
fn define_macro() {
    let source = "
            (define-macro (infix infixed)
                (list (car (cdr infixed)) (car infixed) (car (cdr (cdr infixed)))))
        ";
    let (mut store, env) = new_root_env();
    assert!(env.get_macro(&store, "infix").is_none());
    let result = eval_str(source, &mut store, env).unwrap();
    assert_eq!(result, Expr::Void);
    match env.get_macro(&store, "infix") {
        Some(Procedure::Compound(macro_proc)) => {
            assert_eq!(
                macro_proc.params,
                ProcedureParams::Fixed(vec!["infixed".to_string()])
            );
            assert_eq!(
                macro_proc.body,
                Box::new(Body::new_single(list(vec![
                    sym("list"),
                    list(vec![sym("car"), list(vec![sym("cdr"), sym("infixed")])]),
                    list(vec![sym("car"), sym("infixed")]),
                    list(vec![
                        sym("car"),
                        list(vec![sym("cdr"), list(vec![sym("cdr"), sym("infixed")])]),
                    ]),
                ])))
            );
        }
        _ => panic!("expected macro procedure"),
    }
}
