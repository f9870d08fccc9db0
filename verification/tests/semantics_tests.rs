use lispdm::{Engine, Expr, LispDMError};

fn run(source: &str) -> Result<Expr, LispDMError> {
    let mut engine = Engine::default();
    engine.eval_value(source)
}

fn eval_int(source: &str) -> i64 {
    let mut engine = Engine::default();
    engine.eval::<i64>(source).unwrap().unwrap()
}

fn error_text(source: &str) -> String {
    match run(source) {
        Err(e) => e.to_string(),
        Ok(v) => panic!("expected an error, got {}", v.to_string()),
    }
}

#[test]
fn if_leaves_the_other_branch_unevaluated() {
    assert_eq!(eval_int("(if #t 1 (car '()))"), 1);
    assert_eq!(eval_int("(if #f (car '()) 2)"), 2);
    assert_eq!(eval_int("(define n 0) (if #t 1 (set! n 5)) n"), 0);
}

#[test]
fn define_then_read_gives_the_value() {
    assert_eq!(eval_int("(define x (+ 1 2)) x"), 3);
    assert_eq!(eval_int("(define x 1) (define x 7) x"), 7);
}

#[test]
fn set_then_read_gives_the_new_value() {
    assert_eq!(eval_int("(define y 1) (set! y (* 5 5)) y"), 25);
    assert_eq!(
        error_text("(set! z 1)"),
        "eval error: runtime error: symbol 'z' is not defined"
    );
}

#[test]
fn procedure_body_sees_its_defining_environment() {
    assert_eq!(eval_int("(define k 10) (define (f) k) (let ((k 20)) (f))"), 10);
    assert_eq!(eval_int("(define (adder n) (lambda (m) (+ n m))) ((adder 3) 4)"), 7);
}

#[test]
fn apply_spreads_the_last_argument() {
    assert_eq!(eval_int("(apply + 1 2 '(3 4))"), 10);
    assert_eq!(
        error_text("(apply 1 '(2))"),
        "eval error: runtime error: expected procedure as first argument of apply, got integer"
    );
}

#[test]
fn cond_arrow_hands_the_test_value_on() {
    assert_eq!(eval_int("(cond ((+ 1 1) => (lambda (x) (* x 10))) (else 0))"), 20);
}

#[test]
fn macros_expand_before_evaluation() {
    assert_eq!(eval_int("(define-macro (twice e) `(+ ,e ,e)) (twice 21)"), 42);
}

#[test]
fn nested_calls_compute_exact_values() {
    assert_eq!(eval_int("(+ 1 (* 2 3) (- 10 4))"), 13);
    assert_eq!(eval_int("(begin 1 2 (+ 3 4))"), 7);
}

#[test]
fn dotted_cond_clauses_read_their_tail_as_body() {
    assert_eq!(eval_int("(cond (#t . 5))"), 5);
    assert_eq!(eval_int("(cond (#f . 1) (else . 2))"), 2);
}

#[test]
fn an_extended_environment_sees_its_parent() {
    let mut engine = Engine::default();
    engine.eval_value("(define z 4)").unwrap();
    assert_eq!(eval_int("(define z 4) (let () z)"), 4);
    let mut store_engine = Engine::new_without_prelude();
    store_engine.eval_value("(define q 9)").unwrap();
    assert_eq!(store_engine.eval::<i64>("((lambda () q))").unwrap(), Ok(9));
}

#[test]
fn without_macros_expansion_changes_nothing() {
    let mut engine = Engine::new_without_prelude();
    assert_eq!(
        engine.eval_value("'(when 1 2)").unwrap(),
        Expr::new_proper_list(vec![Expr::new_symbol("when"), Expr::Integer(1), Expr::Integer(2)])
    );
}

#[test]
fn apply_of_a_special_form_receives_the_values_as_operands() {
    assert_eq!(eval_int("(apply if '(#t 1 2))"), 1);
    assert_eq!(eval_int("(apply if #f '(1 2))"), 2);
    assert_eq!(eval_int("(apply quote '(7))"), 7);
}

#[test]
fn evaluation_writes_exactly_what_display_writes() {
    let mut engine = Engine::default();
    engine.eval_value("(define (f x) (display x) (newline) x) (f (f 3))").unwrap();
    assert_eq!(engine.take_output(), "3\n3\n");
}

#[test]
fn number_text_has_radix_digits_and_no_leading_zero() {
    let mut engine = Engine::default();
    for (src, text) in [("(number->string 0 16)", "0"), ("(number->string -255 16)", "-FF"), ("(number->string 8 8)", "10"), ("(number->string -5 2)", "-101")] {
        assert_eq!(engine.eval::<Expr>(src).unwrap(), Ok(Expr::new_string(text)));
    }
}
