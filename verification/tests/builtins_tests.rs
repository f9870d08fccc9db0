use lispdm::error::LispDMError;
use lispdm::{Engine, Expr};

fn eval_expr(src: &str) -> Result<Expr, LispDMError> {
    let mut engine = Engine::default();
    engine.eval::<Expr>(src).map(|r| r.unwrap())
}

fn eval_err(src: &str) -> String {
    match eval_expr(src) {
        Err(e) => e.to_string(),
        Ok(v) => panic!("expected an error, got {:?}", v),
    }
}

fn string(s: &str) -> Expr {
    Expr::new_string(s)
}

#[test]
fn arithmetic_exact_values() {
    assert_eq!(eval_expr("(- 5)").unwrap(), Expr::Integer(-5));
    assert_eq!(eval_expr("(- 10 1 2)").unwrap(), Expr::Integer(7));
    assert_eq!(eval_expr("(/ 7 2)").unwrap(), Expr::Integer(3));
    assert_eq!(eval_expr("(/ -7 2)").unwrap(), Expr::Integer(-3));
    assert_eq!(eval_expr("(quotient -7 2)").unwrap(), Expr::Integer(-3));
    assert_eq!(eval_expr("(remainder -7 2)").unwrap(), Expr::Integer(-1));
    assert_eq!(eval_expr("(modulo -7 2)").unwrap(), Expr::Integer(1));
    assert_eq!(eval_expr("(modulo 7 -2)").unwrap(), Expr::Integer(-1));
    assert_eq!(eval_expr("(abs -4)").unwrap(), Expr::Integer(4));
    assert_eq!(eval_expr("(square 12)").unwrap(), Expr::Integer(144));
    assert_eq!(eval_expr("(< 1 2)").unwrap(), Expr::Boolean(true));
    assert_eq!(eval_expr("(= 2 2)").unwrap(), Expr::Boolean(true));
    assert_eq!(eval_expr("(> 1 2)").unwrap(), Expr::Boolean(false));
    assert_eq!(eval_expr("(integer? 3)").unwrap(), Expr::Boolean(true));
    assert_eq!(eval_expr("(integer? 'a)").unwrap(), Expr::Boolean(false));
}

#[test]
fn arithmetic_errors() {
    assert_eq!(
        eval_err("(+ 1 'a)"),
        "eval error: runtime error: expected integers or floats for +, got integer and symbol"
    );
    assert_eq!(
        eval_err("(- 1 'a)"),
        "eval error: runtime error: expected integers or floats -, got 1 and a"
    );
    assert_eq!(eval_err("(/ 1 0)"), "eval error: runtime error: division by zero in /");
    assert_eq!(
        eval_err("(quotient 1 0)"),
        "eval error: runtime error: division by zero in quotient"
    );
    assert_eq!(
        eval_err("(* 9223372036854775807 2)"),
        "eval error: runtime error: integer overflow in *"
    );
    assert_eq!(
        eval_err("(+ 1 2.5)"),
        "eval error: runtime error: inexact numbers are not supported by +"
    );
    assert_eq!(
        eval_err("(abs #t)"),
        "eval error: runtime error: expected integer or float for abs, got boolean"
    );
    assert_eq!(
        eval_err("(< 1 \"a\")"),
        "eval error: runtime error: expected integers or floats for <, got integer and string"
    );
}

#[test]
fn list_operations() {
    assert_eq!(
        eval_expr("(cons 1 2)").unwrap(),
        Expr::new_dotted_list(vec![Expr::Integer(1), Expr::Integer(2)])
    );
    assert_eq!(
        eval_expr("(cons 1 '(2 3))").unwrap(),
        Expr::new_proper_list(vec![Expr::Integer(1), Expr::Integer(2), Expr::Integer(3)])
    );
    assert_eq!(eval_expr("(cons 1 '(2 . 3))").unwrap(), eval_expr("'(1 2 . 3)").unwrap());
    assert_eq!(
        eval_expr("(let ((l '(1 2 . 3))) (cons (car l) (cdr l)))").unwrap(),
        eval_expr("'(1 2 . 3)").unwrap()
    );
    assert_eq!(eval_expr("(car '(1 2))").unwrap(), Expr::Integer(1));
    assert_eq!(
        eval_expr("(cdr '(1 2))").unwrap(),
        Expr::new_proper_list(vec![Expr::Integer(2)])
    );
    assert_eq!(eval_expr("(cdr '(1 . 2))").unwrap(), Expr::Integer(2));
    assert_eq!(
        eval_expr("(make-list 2 'a)").unwrap(),
        Expr::new_proper_list(vec![Expr::new_symbol("a"), Expr::new_symbol("a")])
    );
    assert_eq!(
        eval_expr("(list-copy '(1 . 2))").unwrap(),
        Expr::new_proper_list(vec![Expr::Integer(1), Expr::Integer(2)])
    );
    assert_eq!(eval_err("(car '())"), "eval error: runtime error: expected non-empty list for car");
    assert_eq!(eval_err("(car 1)"), "eval error: runtime error: expected list for car, got integer");
    assert_eq!(eval_err("(cdr '())"), "eval error: runtime error: expected non-empty list for cdr");
}

#[test]
fn type_predicates_and_equivalence() {
    assert_eq!(eval_expr("(pair? '(1))").unwrap(), Expr::Boolean(true));
    assert_eq!(eval_expr("(pair? '())").unwrap(), Expr::Boolean(false));
    assert_eq!(eval_expr("(number? 1)").unwrap(), Expr::Boolean(true));
    assert_eq!(eval_expr("(symbol? 'a)").unwrap(), Expr::Boolean(true));
    assert_eq!(eval_expr("(string? \"a\")").unwrap(), Expr::Boolean(true));
    assert_eq!(eval_expr("(procedure? car)").unwrap(), Expr::Boolean(true));
    assert_eq!(eval_expr("(char? #\\a)").unwrap(), Expr::Boolean(true));
    assert_eq!(eval_expr("(port? 1)").unwrap(), Expr::Boolean(false));
    assert_eq!(eval_expr("(eqv? 'a 'a)").unwrap(), Expr::Boolean(true));
    assert_eq!(eval_expr("(eq? '(1) '(1))").unwrap(), Expr::Boolean(true));
    assert_eq!(eval_expr("(eqv? '(1 2) '(1 2 . 3))").unwrap(), Expr::Boolean(false));
    assert_eq!(eval_expr("(let ((p '(1 2))) (eqv? p p))").unwrap(), Expr::Boolean(true));
    assert_eq!(eval_expr("(equal? '(1 (2)) '(1 (2)))").unwrap(), Expr::Boolean(true));
    assert_eq!(eval_expr("(equal? \"ab\" \"ab\")").unwrap(), Expr::Boolean(true));
    assert_eq!(eval_expr("(eqv? \"ab\" \"ab\")").unwrap(), Expr::Boolean(true));
    assert_eq!(eval_expr("(eqv? \"ab\" \"ac\")").unwrap(), Expr::Boolean(false));
    assert_eq!(eval_expr("(eqv? car car)").unwrap(), Expr::Boolean(true));
    assert_eq!(eval_expr("(eqv? '() '())").unwrap(), Expr::Boolean(true));
    assert_eq!(eval_expr("(eq? '() '(1))").unwrap(), Expr::Boolean(false));
    assert_eq!(eval_expr("(equal? '(1 2 . 3) '(1 2 3))").unwrap(), Expr::Boolean(false));
    assert_eq!(eval_expr("(equal? '(1 2 . 3) '(1 2 . 3))").unwrap(), Expr::Boolean(true));
    assert_eq!(eval_expr("`(1 (2 . 3))").unwrap(), eval_expr("'(1 (2 . 3))").unwrap());
    assert_eq!(eval_expr("`(1 . 2)").unwrap(), eval_expr("'(1 . 2)").unwrap());
}

#[test]
fn strings_and_chars() {
    assert_eq!(eval_expr("(string=? \"ab\" \"ab\")").unwrap(), Expr::Boolean(true));
    assert_eq!(eval_expr("(string<? \"ab\" \"b\")").unwrap(), Expr::Boolean(true));
    assert_eq!(eval_expr("(string<? \"ab\" \"a\")").unwrap(), Expr::Boolean(false));
    assert_eq!(eval_expr("(string>=? \"ab\" \"a\")").unwrap(), Expr::Boolean(true));
    assert_eq!(eval_expr("(make-string 3)").unwrap(), string("###"));
    assert_eq!(eval_expr("(make-string 2 #\\z)").unwrap(), string("zz"));
    assert_eq!(eval_expr("(string #\\a #\\b)").unwrap(), string("ab"));
    assert_eq!(eval_expr("(string-length \"héllo\")").unwrap(), Expr::Integer(6));
    assert_eq!(eval_expr("(char-upcase #\\a)").unwrap(), Expr::Char('A'));
    assert_eq!(eval_expr("(char-downcase #\\A)").unwrap(), Expr::Char('a'));
    assert_eq!(eval_expr("(char-whitespace? #\\a)").unwrap(), Expr::Boolean(false));
    assert_eq!(eval_expr("(char-alphabetic? #\\a)").unwrap(), Expr::Boolean(true));
    assert_eq!(eval_expr("(char-numeric? #\\7)").unwrap(), Expr::Boolean(true));
    assert_eq!(eval_expr("(digit-value #\\7)").unwrap(), Expr::Integer(7));
    assert_eq!(eval_expr("(digit-value #\\a)").unwrap(), Expr::Boolean(false));
    assert_eq!(eval_expr("(char->integer #\\A)").unwrap(), Expr::Integer(65));
    assert_eq!(
        eval_err("(string=? 1 \"a\")"),
        "eval error: runtime error: Expected a string as the first argument"
    );
    assert_eq!(eval_err("(char-upcase 1)"), "eval error: runtime error: Expected a character");
}

#[test]
fn number_conversions() {
    assert_eq!(eval_expr("(number->string 255)").unwrap(), string("255"));
    assert_eq!(eval_expr("(number->string 255 16)").unwrap(), string("FF"));
    assert_eq!(eval_expr("(number->string 5 2)").unwrap(), string("101"));
    assert_eq!(eval_expr("(number->string -5)").unwrap(), string("-5"));
    assert_eq!(eval_expr("(string->number \"ff\" 16)").unwrap(), Expr::Integer(255));
    assert_eq!(eval_expr("(string->number \"-101\" 2)").unwrap(), Expr::Integer(-5));
    assert_eq!(eval_expr("(string->number \"42\")").unwrap(), Expr::Integer(42));
    assert_eq!(eval_expr("(string->number \"0\")").unwrap(), Expr::Integer(0));
    assert_eq!(
        eval_expr("(string->number \"2.5\")").unwrap(),
        Expr::Float("2.5".to_string())
    );
    assert_eq!(eval_expr("(string->number (number->string -255))").unwrap(), Expr::Integer(-255));
    assert_eq!(
        eval_err("(number->string 1 3)"),
        "eval error: runtime error: radix must be one of 2, 8, 10, or 16, got integer"
    );
    assert_eq!(eval_expr("(string->number \"12\" 2)").unwrap(), Expr::Boolean(false));
    assert_eq!(eval_expr("(string->number \"abc\")").unwrap(), Expr::Boolean(false));
    assert_eq!(eval_expr("(modulo 1 9223372036854775807)").unwrap(), Expr::Integer(1));
    assert_eq!(eval_expr("(modulo -9223372036854775808 -1)").unwrap(), Expr::Integer(0));
    assert_eq!(eval_expr("(remainder -9223372036854775808 -1)").unwrap(), Expr::Integer(0));
    assert_eq!(
        eval_err("(quotient -9223372036854775808 -1)"),
        "eval error: runtime error: integer overflow in quotient"
    );
}

#[test]
fn evaluation_errors() {
    assert_eq!(eval_err("undefined-name"), "eval error: runtime error: undefined symbol: undefined-name");
    assert_eq!(eval_err("()"), "eval error: runtime error: empty list cannot be evaluated");
    assert_eq!(eval_err("(1 2)"), "eval error: runtime error: expected procedure as first element of call, got 1");
    assert_eq!(eval_err("(car)"), "eval error: runtime error: expected 1 arguments for car");
    assert_eq!(eval_err("(if 1)"), "eval error: runtime error: expected 2 to 3 arguments for if");
    assert_eq!(eval_err("(set! nothing 1)"), "eval error: runtime error: symbol 'nothing' is not defined");
    assert_eq!(
        eval_err("(define 1 2)"),
        "eval error: runtime error: expected symbol or list as the first argument for define, got 1"
    );
    assert_eq!(
        eval_err("(lambda (1) 1)"),
        "eval error: runtime error: expected symbols in lambda params, got integer"
    );
    assert_eq!(
        eval_err("(let ((x)) x)"),
        "eval error: runtime error: expected 2 elements in binding in let, got 1"
    );
    assert_eq!(
        eval_err("(cond (else 1) (1 2))"),
        "eval error: runtime error: else clause must be last in cond"
    );
    assert_eq!(eval_err("(+ 1"), "parse error: lex error: unexpected EOF");
    assert_eq!(eval_err(". 1"), "parse error: unexpected token: Dot");
}

#[test]
fn engine_state_and_registration() {
    let mut engine = Engine::new_without_prelude();
    engine.eval::<()>("(define x 5)").unwrap().unwrap();
    let env = engine.env();
    assert_eq!(env.get::<i64>(engine.store(), "x"), Some(Ok(5)));
    assert!(env.has(engine.store(), "car"));
    assert!(!env.has(engine.store(), "and"));
    engine.register_fn(
        "plus",
        lispdm::ProcedureKind::Procedure,
        lispdm::Arity::Any,
        lispdm::Primitive::Add,
    );
    assert_eq!(engine.eval::<i64>("(plus 1 2 3)").unwrap(), Ok(6));
    assert!(engine.eval::<i64>("(set! x 7)").unwrap().is_err());
    assert_eq!(engine.eval::<i64>("x").unwrap(), Ok(7));
}

#[test]
fn string_set_replaces_a_character_of_a_variable() {
    let mut engine = lispdm::Engine::default();
    assert_eq!(
        engine
            .eval_value("(define s (make-string 3 #\\a)) (string-set! s 1 #\\b) s")
            .unwrap(),
        string("aba")
    );
    assert_eq!(engine.eval_value("(string-set! s 0 #\\z)").unwrap(), Expr::Void);
    assert_eq!(engine.eval_value("s").unwrap(), string("zba"));
    assert_eq!(
        engine.eval_value("(define (f) (define t \"xy\") (string-set! t 1 #\\q) t) (f)").unwrap(),
        string("xq")
    );
}

#[test]
fn string_set_checks_its_arguments() {
    assert_eq!(
        eval_err("(string-set! 1 0 #\\a)"),
        "eval error: runtime error: string-set! expected a string as its first argument"
    );
    assert_eq!(
        eval_err("(string-set! \"ab\" #\\a #\\a)"),
        "eval error: runtime error: string-set! expected a integer as its second argument"
    );
    assert_eq!(
        eval_err("(string-set! \"ab\" 0 1)"),
        "eval error: runtime error: string-set! expected a character as its third argument"
    );
    assert_eq!(
        eval_err("(string-set! \"ab\" 2 #\\a)"),
        "eval error: runtime error: string-set! index out of bounds: 2"
    );
    assert_eq!(
        eval_err("(string-set! \"ab\" -1 #\\a)"),
        "eval error: runtime error: string-set! index out of bounds: -1"
    );
    assert_eq!(eval_expr("(string-set! \"ab\" 0 #\\c)").unwrap(), Expr::Void);
}
