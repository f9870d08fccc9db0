use lispdm::{Engine, Expr};

fn output_of(source: &str) -> String {
    let mut engine = Engine::default();
    engine.eval_value(source).unwrap();
    engine.take_output()
}

fn error_text(source: &str) -> String {
    let mut engine = Engine::default();
    match engine.eval_value(source) {
        Err(e) => e.to_string(),
        Ok(v) => panic!("expected an error, got {}", v.to_string()),
    }
}

#[test]
fn display_writes_the_display_of_a_value() {
    assert_eq!(output_of("(display (+ 40 2))"), "42");
    assert_eq!(output_of("(display '(1 (2 . 3) #t))"), "(1 (2 . 3) #t)");
    assert_eq!(output_of("(write \"hi\")"), "\"hi\"");
}

#[test]
fn display_returns_void() {
    let mut engine = Engine::default();
    let v = engine.eval_value("(display 1)").unwrap();
    assert!(matches!(v, Expr::Void));
}

#[test]
fn output_accumulates_in_order_until_taken() {
    let mut engine = Engine::default();
    engine
        .eval_value("(display 1) (newline) (write-char #\\a) (write-string \"bc\")")
        .unwrap();
    assert_eq!(engine.take_output(), "1\nabc");
    assert_eq!(engine.take_output(), "");
    engine.eval_value("(define (f n) (display n) (* n 2)) (f 3)").unwrap();
    assert_eq!(engine.take_output(), "3");
}

#[test]
fn output_before_an_error_is_kept() {
    let mut engine = Engine::default();
    assert!(engine.eval_value("(display 7) (car '())").is_err());
    assert_eq!(engine.take_output(), "7");
}

#[test]
fn output_procedures_check_their_arguments() {
    assert_eq!(
        error_text("(display 1 2)"),
        "eval error: runtime error: expected port as second display argument, got integer"
    );
    assert_eq!(
        error_text("(newline \"x\")"),
        "eval error: runtime error: expected port as newline argument, got string"
    );
    assert_eq!(
        error_text("(write-char 1)"),
        "eval error: runtime error: expected char as write-char argument, got integer"
    );
    assert_eq!(
        error_text("(write-string #\\a)"),
        "eval error: runtime error: expected string as write-string argument, got char"
    );
    assert_eq!(
        error_text("(write-string \"a\" 1)"),
        "eval error: runtime error: expected port as second write-string argument, got integer"
    );
    assert_eq!(
        error_text("(display)"),
        "eval error: runtime error: expected 1 to 2 arguments for display"
    );
}

#[test]
fn failed_output_writes_nothing() {
    let mut engine = Engine::default();
    assert!(engine.eval_value("(write-char \"a\")").is_err());
    assert_eq!(engine.take_output(), "");
}
