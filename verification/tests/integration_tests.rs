use lispdm::{Engine, Expr};

fn sym(s: &str) -> Expr {
    Expr::new_symbol(s)
}

fn list(items: Vec<Expr>) -> Expr {
    Expr::new_proper_list(items)
}

#[test]
fn ensure_lexical_scope() {
    let source = "
        (define x 1)
        (define (foo) x)
        (define (bar) (define x 2) (foo))
        (bar)
    ";
    let mut engine = Engine::default();
    let result = engine.eval::<i64>(source).unwrap().unwrap();
    assert_eq!(result, 1);
}

#[test]
fn integration_tests_eval_number() {
    let source = "1";
    let mut engine = Engine::default();
    let result = engine.eval::<i64>(source).unwrap().unwrap();
    assert_eq!(result, 1);
}

#[test]
fn integration_tests_eval_sum() {
    let source = "(+ 1 2)";
    let mut engine = Engine::default();
    let result = engine.eval::<i64>(source).unwrap().unwrap();
    assert_eq!(result, 3);
}

#[test]
fn integration_tests_eval_sum_multiple() {
    let source = "(+ 1 2 3 4 5)";
    let mut engine = Engine::default();
    let result = engine.eval::<i64>(source).unwrap().unwrap();
    assert_eq!(result, 15);
}

#[test]
fn integration_tests_eval_mult_multiple() {
    let source = "(* 1 2 3 4 5)";
    let mut engine = Engine::default();
    let result = engine.eval::<i64>(source).unwrap().unwrap();
    assert_eq!(result, 120);
}

#[test]
fn integration_tests_eval_sum_no_args() {
    let source = "(+)";
    let mut engine = Engine::default();
    let result = engine.eval::<i64>(source).unwrap().unwrap();
    assert_eq!(result, 0);
}

#[test]
fn integration_tests_eval_mult_no_args() {
    let source = "(*)";
    let mut engine = Engine::default();
    let result = engine.eval::<i64>(source).unwrap().unwrap();
    assert_eq!(result, 1);
}

#[test]
fn integration_tests_eval_complex_arithmethic() {
    let source = "(+ (- 1 (* 3 (/ 3 (- 2 1)))) (* 3 (+ 2 (- 1 2))))";
    let mut engine = Engine::default();
    let result = engine.eval::<i64>(source).unwrap().unwrap();
    assert_eq!(result, -5);
}

#[test]
fn integration_tests_eval_anon_lambda() {
    let source = "((lambda (x) (* x x)) 3)";
    let mut engine = Engine::default();
    let result = engine.eval::<i64>(source).unwrap().unwrap();
    assert_eq!(result, 9);
}

#[test]
fn integration_tests_eval_if() {
    let source = "(if (< 1 2) 1 2)";
    let mut engine = Engine::default();
    let result = engine.eval::<i64>(source).unwrap().unwrap();
    assert_eq!(result, 1);
}

#[test]
fn integration_tests_eval_begin() {
    let source = "(begin (define x 1) (+ x 1))";
    let mut engine = Engine::default();
    let result = engine.eval::<i64>(source).unwrap().unwrap();
    assert_eq!(result, 2);
}

#[test]
fn eval_nested_empty_lits() {
    let source = "'(() . (() . ()))";
    let mut engine = Engine::default();
    let result = engine.eval::<Expr>(source).unwrap().unwrap();
    assert_eq!(
        result,
        list(vec![list(vec![]), list(vec![])])
    );
}

#[test]
fn integration_tests_eval_define() {
    let source = "(define x 1)";
    let mut engine = Engine::default();
    let result = engine.eval::<Expr>(source).unwrap().unwrap();
    let env = engine.env();

    assert_eq!(result, Expr::Void);
    assert_eq!(env.get_expr(engine.store(), "x"), Some(Expr::Integer(1)));
}

#[test]
fn eval_let_simple() {
    let source = "(let ((x 2) (y 3)) (* x y))";
    let mut engine = Engine::default();
    let result = engine.eval::<i64>(source).unwrap().unwrap();
    assert_eq!(result, 6);
}

#[test]
fn eval_let_nested() {
    let source = "(let ((x 2) (y 3)) (let ((x 7) (z (+ x y))) (* z x)))";
    let mut engine = Engine::default();
    let result = engine.eval::<i64>(source).unwrap().unwrap();
    assert_eq!(result, 35);
}

#[test]
fn eval_let_named() {
    let source = "(let fac ((n 10)) (if (= n 0) 1 (* n (fac (- n 1)))))";
    let mut engine = Engine::default();
    let result = engine.eval::<i64>(source).unwrap().unwrap();
    assert_eq!(result, 3628800);
}

#[test]
fn eval_letrec_mutual() {
    let source = "(letrec ((zero? (lambda (n) (= n 0)))
                               (even? (lambda (n) (if (zero? n) #t (odd? (- n 1)))))
                               (odd? (lambda (n) (if (zero? n) #f (even? (- n 1))))))
                          (even? 100))";
    let mut engine = Engine::default();
    let result = engine.eval::<bool>(source).unwrap().unwrap();
    assert!(result);
}

#[test]
fn eval_cond_simple() {
    let source = "(cond ((> 3 2) 'greater) ((< 3 2) 'less))";
    let mut engine = Engine::default();
    let result = engine.eval::<Expr>(source).unwrap().unwrap();
    assert_eq!(result, sym("greater"));
}

#[test]
fn eval_cond_no_else() {
    let source = "(cond ((> 3 3) 'greater) ((< 3 3) 'less))";
    let mut engine = Engine::default();
    let result = engine.eval::<Expr>(source).unwrap().unwrap();
    assert_eq!(result, Expr::Void);
}

#[test]
fn eval_cond_else() {
    let source = "(cond ((> 3 3) 'greater) ((< 3 3) 'less) (else 'equal))";
    let mut engine = Engine::default();
    let result = engine.eval::<Expr>(source).unwrap().unwrap();
    assert_eq!(result, sym("equal"));
}

#[test]
fn eval_cond_with_arrow() {
    let source = "(cond (1 => (lambda (x) x)))";
    let mut engine = Engine::default();
    let result = engine.eval::<i64>(source).unwrap().unwrap();
    assert_eq!(result, 1);
}

#[test]
fn eval_cond_no_clauses() {
    let source = "(cond)";
    let mut engine = Engine::default();
    let result = engine.eval::<()>(source);
    assert!(result.is_err());
}

#[test]
fn eval_cond_else_with_no_expr() {
    let source = "(cond (else))";
    let mut engine = Engine::default();
    let result = engine.eval::<()>(source);
    assert!(result.is_err());
}

#[test]
fn eval_cond_with_arrow_not_procedure() {
    let source = "(cond (1 => 1))";
    let mut engine = Engine::default();
    let result = engine.eval::<()>(source);
    assert!(result.is_err());
}

#[test]
fn eval_cond_with_arrow_incorrect_args() {
    let source = "(cond (1 => (lambda (x y) x)))";
    let mut engine = Engine::default();
    let result = engine.eval::<()>(source);
    assert!(result.is_err());
}

#[test]
fn integration_tests_eval_program_circle_area() {
    let program = "
                (define pi 314)
                (define r0 10)
                (define sqr (lambda (r) (* r r)))
                (define area (lambda (r) (* pi (sqr r))))
                (area r0)
        ";
    let mut engine = Engine::default();
    let result = engine.eval::<i64>(program).unwrap().unwrap();
    assert_eq!(result, 314 * 10 * 10);
}

#[test]
fn integration_tests_eval_program_factorial() {
    let program = "
                (define fact (lambda (n) (if (= n 0) 1 (* n (fact (- n 1))))))
                (fact 5)
        ";
    let mut engine = Engine::default();
    let result = engine.eval::<i64>(program).unwrap().unwrap();
    assert_eq!(result, 120);
}

#[test]
fn integration_tests_eval_program_fibonacci() {
    let program = "
                (define fib (lambda (n) (if (< n 2) n (+ (fib (- n 1)) (fib (- n 2))))))
                (fib 10)
        ";
    let mut engine = Engine::default();
    let result = engine.eval::<i64>(program).unwrap().unwrap();
    assert_eq!(result, 55);
}

#[test]
fn eval_quoted_symbol() {
    let source = "'x";
    let mut engine = Engine::default();
    let result = engine.eval::<Expr>(source).unwrap().unwrap();
    assert_eq!(result, sym("x"));
}

#[test]
fn eval_quoted_list() {
    let source = "'(lambda (x) (* x x))";
    let mut engine = Engine::default();
    let result = engine.eval::<Expr>(source).unwrap().unwrap();
    assert_eq!(result, list(vec![
            sym("lambda"),
            list(vec![sym("x")]),
            list(vec![sym("*"), sym("x"), sym("x")]),
        ]));
}

#[test]
fn eval_quoted_proper_list_with_dot() {
    let source = "'(1 . (2 3 4))";
    let mut engine = Engine::default();
    let result = engine.eval::<Vec<i64>>(source).unwrap().unwrap();
    assert_eq!(result, vec![1, 2, 3, 4]);
}

#[test]
fn eval_quasiquoted_symbol() {
    let source = "`x";
    let mut engine = Engine::default();
    let result = engine.eval::<Expr>(source).unwrap().unwrap();
    assert_eq!(result, sym("x"));
}

#[test]
fn eval_quasiquoted_list() {
    let source = "`(lambda (x) (* x x))";
    let mut engine = Engine::default();
    let result = engine.eval::<Expr>(source).unwrap().unwrap();
    assert_eq!(result, list(vec![
            sym("lambda"),
            list(vec![sym("x")]),
            list(vec![sym("*"), sym("x"), sym("x")]),
        ]));
}

#[test]
fn eval_quasiquoted_list_with_unquote() {
    let source = "`(+ 1 ,(+ 2 3))";
    let mut engine = Engine::default();
    let result = engine.eval::<Expr>(source).unwrap().unwrap();
    assert_eq!(result, list(vec![sym("+"), Expr::Integer(1), Expr::Integer(5)]));
}

#[test]
fn eval_lambda_with_variadic_param() {
    let source = "((lambda x x) '(1 2 3))";
    let mut engine = Engine::default();
    let result = engine.eval::<Expr>(source).unwrap().unwrap();
    assert_eq!(result, list(vec![list(vec![Expr::Integer(1), Expr::Integer(2), Expr::Integer(3)])]));
}

#[test]
fn eval_lambda_with_multiple_body_exprs() {
    let source = "((lambda (x) (define y 1) (set! y 10) (+ x y)) 1)";
    let mut engine = Engine::default();
    let result = engine.eval::<i64>(source).unwrap().unwrap();
    assert_eq!(result, 11);
}

#[test]
fn eval_macro_quasiquoted() {
    let source = "
            (define-macro (unless test . body) `(if ,test #f (begin ,@body)))
            (unless #f 1 2 3)
        ";
    let mut engine = Engine::default();
    let result = engine.eval::<i64>(source).unwrap().unwrap();
    assert_eq!(result, 3);
}

#[test]
fn eval_macro_nested() {
    let source = "
            (define-macro (when test . body) `(if ,test (begin ,@body) #f))
            (define-macro (unless test . body) `(if ,test #f (begin ,@body)))
            (when #t (unless #f 1 2 3))
        ";
    let mut engine = Engine::default();
    let result = engine.eval::<i64>(source).unwrap().unwrap();
    assert_eq!(result, 3);
}

#[test]
fn eval_macro_nested_define() {
    let source = "
            (define-macro (when test . body) `(if ,test (begin ,@body) #f))
            (define (not x) (if x #f #t))
            (define-macro (unless test . body) `(when (not ,test) ,@body))
            (unless #f 1 2 3)
        ";
    let mut engine = Engine::default();
    let result = engine.eval::<i64>(source).unwrap().unwrap();
    assert_eq!(result, 3);
}

const ITERATIONS: i64 = 345000;

#[test]
fn if_tco() {
    let source = format!(
        "
            (define (f x) (if (= x 0) 0 (f (- x 1))))
            (f {})
            ",
        ITERATIONS
    );
    let mut engine = Engine::default();
    let result = engine.eval::<i64>(&source).unwrap().unwrap();
    assert_eq!(result, 0);
}

#[test]
fn begin_tco() {
    let source = format!(
        "
            (begin (define (f x) (if (= x 0) 0 (f (- x 1)))) (f {}))
            ",
        ITERATIONS
    );
    let mut engine = Engine::default();
    let result = engine.eval::<i64>(&source).unwrap().unwrap();
    assert_eq!(result, 0);
}

#[test]
fn define_tco() {
    let source = format!(
        "
            (define (f x) (if (= x 0) 0 (f (- x 1))))
            (f {})
            ",
        ITERATIONS
    );
    let mut engine = Engine::default();
    let result = engine.eval::<i64>(&source).unwrap().unwrap();
    assert_eq!(result, 0);
}

#[test]
fn eval_tco() {
    let source = format!(
        "
            (define (f x) (if (= x 0) 0 (f (- x 1))))
            (eval '(f {}))
            ",
        ITERATIONS
    );
    let mut engine = Engine::default();
    let result = engine.eval::<i64>(&source).unwrap().unwrap();
    assert_eq!(result, 0);
}

#[test]
fn apply_tco() {
    let source = format!(
        "
            (define (get-f x)
             (if (= x 0)
               (lambda (x) x)
               (get-f (- x 1))))
            (apply (get-f {}) '(1))
            ",
        ITERATIONS
    );
    let mut engine = Engine::default();
    let result = engine.eval::<i64>(&source).unwrap().unwrap();
    assert_eq!(result, 1);
}

#[test]
fn mutual_recursion() {
    let source = format!(
        "
            (define (even? n) (if (= n 0) #t (odd? (- n 1))))
            (define (odd? n) (if (= n 0) #f (even? (- n 1))))
            (even? {})
            ",
        ITERATIONS
    );
    let mut engine = Engine::default();
    let result = engine.eval::<bool>(&source).unwrap().unwrap();
    assert_eq!(result, ITERATIONS % 2 == 0);
}

#[test]
fn named_let_tco() {
    let source = format!("(let f ((x {})) (if (= x 0) 0 (f (- x 1))))", ITERATIONS);
    let mut engine = Engine::default();
    let result = engine.eval::<i64>(&source).unwrap().unwrap();
    assert_eq!(result, 0);
}

#[test]
fn letrec_tco() {
    let source = format!(
        "(letrec ((zero? (lambda (n) (= n 0)))
                               (even? (lambda (n) (if (zero? n) #t (odd? (- n 1)))))
                               (odd? (lambda (n) (if (zero? n) #f (even? (- n 1))))))
                        (even? {}))",
        ITERATIONS
    );
    let mut engine = Engine::default();
    let result = engine.eval::<bool>(&source).unwrap().unwrap();
    assert_eq!(result, ITERATIONS % 2 == 0);
}

#[test]
fn integration_tests_eval_list() {
    let source = "(list 1 (list 2 (+ 3 4)))";
    let mut engine = Engine::default();
    let result = engine.eval::<Expr>(source).unwrap().unwrap();

    assert_eq!(
        result,
        Expr::new_proper_list(vec![
            Expr::Integer(1),
            Expr::new_proper_list(vec![Expr::Integer(2), Expr::Integer(7)])
        ])
    );
}

#[test]
fn integration_tests_eval_apply() {
    let source = "(apply + (list 1 2))";
    let mut engine = Engine::default();
    let result = engine.eval::<i64>(source).unwrap().unwrap();

    assert_eq!(result, 3);
}

#[test]
fn eval_quasiquoted_list_with_unquote_splicing() {
    let source = "`(+ 1 ,@(list 2 3))";
    let mut engine = Engine::default();
    let result = engine.eval::<Expr>(source).unwrap().unwrap();
    assert_eq!(
        result,
        Expr::new_proper_list(vec![
            Expr::new_symbol("+"),
            Expr::Integer(1),
            Expr::Integer(2),
            Expr::Integer(3)
        ])
    )
}

#[test]
fn eval_lambda_with_mixed_params() {
    let source = "((lambda (x . y) (list x y)) 1 2 3)";
    let mut engine = Engine::default();
    let result = engine.eval::<Expr>(source).unwrap().unwrap();
    assert_eq!(
        result,
        Expr::new_proper_list(vec![
            Expr::Integer(1),
            Expr::new_proper_list(vec![Expr::Integer(2), Expr::Integer(3)])
        ])
    )
}

#[test]
fn eval_macro_simple() {
    let source = "
            (define-macro (unless test . body) (list 'if test '#f (cons 'begin body)))
            (unless #f 1 2 3)
        ";
    let mut engine = Engine::default();
    let result = engine.eval::<i64>(source).unwrap().unwrap();
    assert_eq!(result, 3);
}

#[test]
fn eval_macro_with_list_call() {
    let source = "
            (define-macro (unless test . body) `(if ,test #f (begin ,@body)))
            (define-macro (ret str) (list 'unless '#f str))
            (ret 1)
        ";
    let mut engine = Engine::default();
    let result = engine.eval::<i64>(source).unwrap().unwrap();
    assert_eq!(result, 1);
}

#[test]
fn eval_macro_recursive() {
    let source = "
            (define (caar x) (car (car x)))
            (define (cdar x) (cdr (car x)))
            (define-macro (rec . clauses)
              (if (null? clauses)
                1
               `(rec ,@(cdr clauses))))
            (rec ((1 1) (2 2) (3 3)))
        ";
    let mut engine = Engine::default();
    let result = engine.eval::<i64>(source).unwrap().unwrap();
    assert_eq!(result, 1);
}

#[test]
fn null_recognises_only_the_empty_list() {
    let mut engine = Engine::default();
    assert_eq!(engine.eval::<bool>("(null? '())").unwrap(), Ok(true));
    assert_eq!(engine.eval::<bool>("(null? (list))").unwrap(), Ok(true));
    assert_eq!(engine.eval::<bool>("(null? '(1))").unwrap(), Ok(false));
    assert_eq!(engine.eval::<bool>("(null? 0)").unwrap(), Ok(false));
}

#[test]
fn eval_hands_back_what_does_not_convert() {
    let mut engine = Engine::default();
    assert_eq!(engine.eval::<i64>("(+ 1 2)").unwrap(), Ok(3));
    assert_eq!(engine.eval::<i64>("'a").unwrap(), Err(Expr::new_symbol("a")));
    assert_eq!(
        engine.eval::<Vec<i64>>("'(1 b 3)").unwrap(),
        Err(Expr::new_symbol("b"))
    );
    assert_eq!(engine.eval::<Vec<i64>>("(list 1 2)").unwrap(), Ok(vec![1, 2]));
}

#[test]
fn eval_converts_into_pairs_and_queues() {
    let mut engine = Engine::default();
    assert_eq!(engine.eval::<(i64, bool)>("'(1 . #t)").unwrap(), Ok((1, true)));
    assert_eq!(engine.eval::<(i64, bool)>("'(1 . 2)").unwrap(), Err(Expr::Integer(2)));
    assert_eq!(engine.eval::<(i64, i64)>("(cons 1 2)").unwrap(), Ok((1, 2)));
    assert_eq!(
        engine.eval::<(i64, i64)>("'(1 2)").unwrap(),
        Err(Expr::new_proper_list(vec![Expr::Integer(1), Expr::Integer(2)]))
    );
    assert_eq!(engine.eval::<(i64, i64)>("'(1 2 3)").unwrap().is_err(), true);
    let q = engine
        .eval::<std::collections::VecDeque<i64>>("(list 4 5 6)")
        .unwrap()
        .unwrap();
    assert_eq!(q, std::collections::VecDeque::from(vec![4, 5, 6]));
}
