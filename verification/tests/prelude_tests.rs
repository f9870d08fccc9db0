use lispdm::{Engine, Expr};

fn absent(engine: &Engine, name: &str) {
    let env = engine.env();
    assert!(!env.has(engine.store(), name));
    assert!(!env.has_macro(engine.store(), name));
}

fn present(engine: &Engine, name: &str) {
    let env = engine.env();
    assert!(env.has(engine.store(), name) || env.has_macro(engine.store(), name));
}

#[test]
fn ensure_special_forms_defined_in_scheme_prelude() {
    let engine = Engine::new_without_prelude();
    for name in ["let*", "letrec*", "case", "when", "unless", "and", "or"] {
        absent(&engine, name);
    }
    let engine = Engine::default();
    for name in ["let*", "letrec*", "case", "when", "unless", "and", "or"] {
        present(&engine, name);
    }
}

fn eval_int(src: &str) -> i64 {
    let mut engine = Engine::default();
    engine.eval::<i64>(src).unwrap().unwrap()
}

fn boolean(src: &str) -> bool {
    let mut engine = Engine::default();
    engine.eval::<bool>(src).unwrap().unwrap()
}

#[test]
fn prelude_and_or() {
    assert!(boolean("(and)"));
    assert!(!boolean("(or)"));
    assert_eq!(eval_int("(and 1 2 3)"), 3);
    assert!(!boolean("(and 1 #f 3)"));
    assert_eq!(eval_int("(or #f 2 (car '()))"), 2);
    assert!(!boolean("(or #f #f)"));
    assert_eq!(eval_int("(define v 7) (or #f v)"), 7);
    assert!(boolean("(not #f)"));
}

#[test]
fn prelude_when_unless() {
    assert_eq!(eval_int("(when (< 1 2) 1 2)"), 2);
    assert_eq!(eval_int("(unless (< 2 1) 3 4)"), 4);
    let mut engine = Engine::default();
    assert_eq!(engine.eval::<Expr>("(when #f 1)").unwrap(), Ok(Expr::Void));
    assert_eq!(engine.eval::<Expr>("(unless #t 1)").unwrap(), Ok(Expr::Void));
}

#[test]
fn prelude_let_star_and_letrec_star() {
    assert_eq!(eval_int("(let* ((x 1) (y (+ x 1))) (* x y))"), 2);
    assert_eq!(eval_int("(let* () 5)"), 5);
    assert_eq!(
        eval_int("(letrec* ((even? (lambda (n) (if (= n 0) #t (odd? (- n 1))))) (odd? (lambda (n) (if (= n 0) #f (even? (- n 1)))))) (if (even? 10) 1 0))"),
        1
    );
}

#[test]
fn prelude_case() {
    assert_eq!(eval_int("(case (* 2 3) ((2 3 5 7) 1) ((1 4 6 8 9) 2) (else 3))"), 2);
    assert_eq!(eval_int("(case 'x ((a) 1) (else 9))"), 9);
    let mut engine = Engine::default();
    assert_eq!(engine.eval::<Expr>("(case 5 ((1) 1))").unwrap(), Ok(Expr::Void));
}

#[test]
fn prelude_list_procedures() {
    let mut engine = Engine::default();
    assert_eq!(
        engine.eval::<Vec<i64>>("(map (lambda (x) (* x x)) '(1 2 3))").unwrap(),
        Ok(vec![1, 4, 9])
    );
    assert_eq!(engine.eval::<Vec<i64>>("(append '(1 2) '(3))").unwrap(), Ok(vec![1, 2, 3]));
    assert_eq!(engine.eval::<i64>("(length '(1 2 3))").unwrap(), Ok(3));
    assert_eq!(engine.eval::<Vec<i64>>("(memv 2 '(1 2 3))").unwrap(), Ok(vec![2, 3]));
    assert_eq!(engine.eval::<bool>("(memv 5 '(1 2 3))").unwrap(), Ok(false));
}

fn int_of(engine: &Engine, name: &str) -> i64 {
    engine.env().get::<i64>(engine.store(), name).unwrap().unwrap()
}

#[test]
fn eval_case_simple() {
    let source = "(case (* 2 3) ((2 3 5 7) 'prime)
                             ((1 4 6 8 9) 'composite))";
    let mut engine = Engine::default();
    let result = engine.eval::<Expr>(source).unwrap().unwrap();
    assert_eq!(result, Expr::new_symbol("composite"));
}

#[test]
fn eval_case_no_else() {
    let source = "(case (car '(c d))
        ((a) 'a)
        ((b) 'b))";
    let mut engine = Engine::default();
    let result = engine.eval::<Expr>(source).unwrap().unwrap();
    assert_eq!(result, Expr::Void);
}

#[test]
fn eval_case_with_arrow() {
    let source = "(case (car '(2 1))
        ((1 3 5 7 9) => (lambda (x) (+ x 1)))
        ((2 4 6 8) => (lambda (x) (* x 2))))";
    let mut engine = Engine::default();
    let result = engine.eval::<i64>(source).unwrap().unwrap();
    assert_eq!(result, 4);
}

#[test]
fn eval_case_else() {
    let source = "(case 10 ((2 3 5 7) 'prime)
                            ((1 4 6 8 9) 'composite)
                            (else 'other))";
    let mut engine = Engine::default();
    let result = engine.eval::<Expr>(source).unwrap().unwrap();
    assert_eq!(result, Expr::new_symbol("other"));
}

#[test]
fn eval_case_else_single() {
    let source = "(case (car '(c d))
        (else => (lambda (x) x)))";
    let mut engine = Engine::default();
    let result = engine.eval::<Expr>(source).unwrap().unwrap();
    assert_eq!(result, Expr::new_symbol("c"));
}

#[test]
fn eval_case_else_with_arrow() {
    let source = "(case (car '(c d))
        ((a e i o u) 'vowel)
        ((w y) 'semivowel)
        (else => (lambda (x) x)))";
    let mut engine = Engine::default();
    let result = engine.eval::<Expr>(source).unwrap().unwrap();
    assert_eq!(result, Expr::new_symbol("c"));
}

#[test]
fn eval_do_simple() {
    let source = "(do ((i 0 (+ i 1))
                             (sum 0 (+ sum i)))
                            ((> i 10) sum))";
    let mut engine = Engine::default();
    let result = engine.eval::<i64>(source).unwrap().unwrap();
    assert_eq!(result, 55);
}

#[test]
fn eval_do_from_standard() {
    let source = "
            (let ((x '(1 3 5 7 9)))
             (do ((x x (cdr x))
                  (sum 0 (+ sum (car x))))
              ((null? x) sum)))";
    let mut engine = Engine::default();
    let result = engine.eval::<i64>(source).unwrap().unwrap();
    assert_eq!(result, 25);
}

#[test]
fn eval_do_with_mutation() {
    let source = "(do ((i 0 (+ i 1))
                             (sum 0 (+ sum i)))
                            ((> i 10) sum)
                            (set! sum (+ sum i)))";
    let mut engine = Engine::default();
    let result = engine.eval::<i64>(source).unwrap().unwrap();
    assert_eq!(result, 110);
}

#[test]
fn eval_do_with_no_step() {
    let source = "(do ((i 1)
                             (sum 0 (+ sum i)))
                            ((> sum 10) sum))";
    let mut engine = Engine::default();
    let result = engine.eval::<i64>(source).unwrap().unwrap();
    assert_eq!(result, 11);
}

#[test]
fn eval_do_with_no_expr() {
    let source = "(do ((i 0 (+ i 1))
                             (sum 0 (+ sum i)))
                            ((> i 10) sum)
                            ())";
    let mut engine = Engine::default();
    let result = engine.eval::<()>(source);
    assert!(result.is_err());
}

#[test]
fn eval_do_with_no_test() {
    let source = "(do ((i 0 (+ i 1))
                             (sum 0 (+ sum i)))
                            ()
                            (display sum))";
    let mut engine = Engine::default();
    let result = engine.eval::<()>(source);
    assert!(result.is_err());
}

#[test]
fn eval_and_simple() {
    let mut engine = Engine::default();
    assert!(engine.eval::<bool>("(and #t #t #t)").unwrap().unwrap());
}

#[test]
fn eval_and_empty() {
    let mut engine = Engine::default();
    assert!(engine.eval::<bool>("(and)").unwrap().unwrap());
}

#[test]
fn eval_and_single() {
    let mut engine = Engine::default();
    assert_eq!(engine.eval::<i64>("(and 1)").unwrap().unwrap(), 1);
}

#[test]
fn eval_and_evaluation() {
    let source = "
        (define x 1)
        (and #t (set! x 10) 2)";
    let mut engine = Engine::default();
    let result = engine.eval::<i64>(source).unwrap().unwrap();
    assert_eq!(result, 2);
    assert_eq!(int_of(&engine, "x"), 10);
}

#[test]
fn eval_and_no_evaluation() {
    let source = "
        (define x 1)
        (and #f (set! x 10) 2)";
    let mut engine = Engine::default();
    let result = engine.eval::<bool>(source).unwrap().unwrap();
    assert!(!result);
    assert_eq!(int_of(&engine, "x"), 1);
}

#[test]
fn eval_or_simple() {
    let mut engine = Engine::default();
    assert!(engine.eval::<bool>("(or #t #t #t)").unwrap().unwrap());
}

#[test]
fn eval_or_empty() {
    let mut engine = Engine::default();
    assert!(!engine.eval::<bool>("(or)").unwrap().unwrap());
}

#[test]
fn eval_or_single() {
    let mut engine = Engine::default();
    assert_eq!(engine.eval::<i64>("(or 1)").unwrap().unwrap(), 1);
}

#[test]
fn eval_or_no_evaluation() {
    let source = "
        (define x 1)
        (or 2 (set! x 10) 1)";
    let mut engine = Engine::default();
    let result = engine.eval::<i64>(source).unwrap().unwrap();
    assert_eq!(result, 2);
    assert_eq!(int_of(&engine, "x"), 1);
}

#[test]
fn eval_or_evaluation() {
    let source = "
        (define x 1)
        (or #f (set! x 10) 3)";
    let mut engine = Engine::default();
    engine.eval::<()>(source).unwrap().unwrap();
    assert_eq!(int_of(&engine, "x"), 10);
}

const ITERATIONS: i64 = 345000;

#[test]
fn do_loop() {
    let source = format!(
        "(do ((i 0 (+ i 1))
                     (sum 0 (+ sum i)))
                    ((> i {}) sum))",
        ITERATIONS
    );
    let mut engine = Engine::default();
    let result = engine.eval::<i64>(&source).unwrap().unwrap();
    assert_eq!(result, ITERATIONS * (ITERATIONS + 1) / 2);
}

#[test]
fn do_tco() {
    let source = format!(
        "(define (f x) (if (= x 0)
            0
            (do ((i 0 (+ i 1)))
             ((> i 5) (f (- x 1))))))
            (f {})",
        ITERATIONS / 5
    );
    let mut engine = Engine::default();
    let result = engine.eval::<i64>(&source).unwrap().unwrap();
    assert_eq!(result, 0);
}
fn eval_match_empty() {
    let source = "(match)";
    let mut engine = Engine::default();
    let result = engine.eval::<()>(source);
    assert!(result.is_err());
}
#[test]
fn eval_match_no_clauses() {
    let source = "(match 1)";
    let mut engine = Engine::default();
    let result = engine.eval::<()>(source);
    assert!(result.is_err());
}
#[test]
fn eval_match_unkown_pattern() {
    let source = "(match 1
        (,(unknown _) 'unknown))";
    let mut engine = Engine::default();
    let result = engine.eval::<()>(source);
    assert!(result.is_err());
}
#[test]
fn eval_match_no_match() {
    let source = "(match 1
        (0 'zero)
        (2 'two))";
    let mut engine = Engine::default();
    let result = engine.eval::<()>(source);
    
    assert!(result.is_err());
}
#[test]
fn eval_match_simple() {
    let source = "(match 1
        (0 'zero)
        (1 'one)
        (2 'two))";
    let mut engine = Engine::default();
    let result = engine.eval::<Expr>(source).unwrap().unwrap();
    assert_eq!(result, Expr::new_symbol("one"));
}
#[test]
fn eval_match_exact() {
    let source = "(match '(1 2 3)
        ((1 2) 'one-two)
        ((1 2 3) 'one-two-three)
        ((1 2 3 4) 'one-two-three-four))";
    let mut engine = Engine::default();
    let result = engine.eval::<Expr>(source).unwrap().unwrap();
    assert_eq!(result, Expr::new_symbol("one-two-three"));
}
#[test]
fn eval_match_any() {
    let source = "(match 23
        (0 'zero)
        (1 'one)
        (,_ 'something-else))";
    let mut engine = Engine::default();
    let result = engine.eval::<Expr>(source).unwrap().unwrap();
    assert_eq!(result, Expr::new_symbol("something-else"));
}
#[test]
fn eval_match_any_bind() {
    let source = "(match 23
        (0 'zero)
        (1 'one)
        (,x x))";
    let mut engine = Engine::default();
    let result = engine.eval::<i64>(source).unwrap().unwrap();
    assert_eq!(result, 23);
}
#[test]
fn eval_match_type() {
    let source = "(match 23
        (,(symbol _) 'symbol)
        (,(string _) 'string)
        (,(number _) 'number))";
    let mut engine = Engine::default();
    let result = engine.eval::<Expr>(source).unwrap().unwrap();
    assert_eq!(result, Expr::new_symbol("number"));
}
#[test]
fn eval_match_type_bind() {
    let source = "(match 23
        (,(symbol sym) (list 'symbol sym))
        (,(string str) (list 'string str))
        (,(number num) (list 'number num)))";
    let mut engine = Engine::default();
    let result = engine.eval::<Expr>(source).unwrap().unwrap();
    assert_eq!(
        result,
        Expr::new_proper_list(vec![Expr::new_symbol("number"), Expr::Integer(23)])
    );
}
#[test]
fn eval_match_literal_string() {
    let source = r#"(match "hello"
        ("hello" 'hello)
        ("world" 'world))"#;
    let mut engine = Engine::default();
    let result = engine.eval::<Expr>(source).unwrap().unwrap();
    assert_eq!(result, Expr::new_symbol("hello"));
}
#[test]
fn eval_match_literal_symbol() {
    let source = "(match 'hello
        (hello 1)
        (world 0))";
    let mut engine = Engine::default();
    let result = engine.eval::<i64>(source).unwrap().unwrap();
    assert_eq!(result, 1);
}
#[test]
fn eval_match_literal_list() {
    let source = r#"(match '(1 ("2" 'three) ((4) 5))
        ((1 (2 3) ((4) 5)) 'int-list)
        ((1 ("2" 'three) ((4) 5)) 'mixed-list)
        (,_ 'no-match))"#;
    let mut engine = Engine::default();
    let result = engine.eval::<Expr>(source).unwrap().unwrap();
    assert_eq!(result, Expr::new_symbol("mixed-list"));
}

#[test]
fn prelude_lazy_lists_are_forced_once() {
    let mut engine = Engine::default();
    let source = "
        (define count 0)
        (define p (delay (begin (set! count (+ count 1)) 42)))
        (force p)
        (force p)
        (list (force p) count)";
    assert_eq!(engine.eval::<Vec<i64>>(source).unwrap(), Ok(vec![42, 1]));
    let source = "
        (define (from n) (lazy-cons n (from (+ n 1))))
        (define evens (lazy-filter even? (lazy-map (lambda (x) (* x 3)) (from 1))))
        (list (lazy-ref evens 2) (head evens 3))";
    let result = engine.eval::<Expr>(source).unwrap().unwrap();
    assert_eq!(
        result,
        Expr::new_proper_list(vec![
            Expr::Integer(18),
            Expr::new_proper_list(vec![Expr::Integer(6), Expr::Integer(12), Expr::Integer(18)])
        ])
    );
}

#[test]
fn prelude_list_and_number_procedures() {
    let mut engine = Engine::default();
    assert_eq!(engine.eval::<Vec<i64>>("(reverse '(1 2 3))").unwrap(), Ok(vec![3, 2, 1]));
    assert_eq!(engine.eval::<i64>("(list-ref '(5 6 7) 2)").unwrap(), Ok(7));
    assert_eq!(engine.eval::<Vec<i64>>("(assv 2 '((1 10) (2 20)))").unwrap(), Ok(vec![2, 20]));
    assert_eq!(engine.eval::<bool>("(list? '(1 . 2))").unwrap(), Ok(false));
    assert_eq!(engine.eval::<bool>("(list? '(1 2))").unwrap(), Ok(true));
    assert_eq!(engine.eval::<bool>("(even? -4)").unwrap(), Ok(true));
    assert_eq!(engine.eval::<bool>("(odd? -3)").unwrap(), Ok(true));
    assert_eq!(engine.eval::<bool>("(<= 2 2)").unwrap(), Ok(true));
    assert_eq!(engine.eval::<bool>("(boolean? 0)").unwrap(), Ok(false));
    assert_eq!(engine.eval::<i64>("(cadr '(1 2 3))").unwrap(), Ok(2));
}
