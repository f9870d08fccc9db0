use lispdm::expr::Expr;
use lispdm::lexer::{LexicalError, Lexer, Token};
use lispdm::parser::{parse, parse_str, ParseError};

fn sym(s: &str) -> Expr {
    Expr::Symbol(s.to_string())
}

fn list(items: Vec<Expr>) -> Expr {
    Expr::new_proper_list(items)
}

fn parse_text(src: &str) -> Result<Vec<Expr>, ParseError> {
    parse(Lexer::new(src).into_tokens())
}

#[test]
fn parse_complex() {
    let parsed = parse_text("(cos (* 3.14159 1))").unwrap();
    assert_eq!(parsed.len(), 1);
    let outer = parsed[0].as_list().unwrap().iter();
    assert_eq!(outer.len(), 2);
    assert_eq!(outer[0], sym("cos"));
    let inner = outer[1].as_list().unwrap().iter();
    assert_eq!(inner.len(), 3);
    assert_eq!(inner[0], sym("*"));
    match &inner[1] {
        Expr::Float(text) => assert_eq!(text.parse::<f64>().unwrap(), 3.14159),
        other => panic!("expected a float, got {:?}", other),
    }
    assert_eq!(inner[2], Expr::Integer(1));
}

#[test]
fn parse_quote() {
    let parsed = parse_text("'(1 2 3)").unwrap();
    assert_eq!(
        parsed,
        vec![list(vec![
            sym("quote"),
            list(vec![Expr::Integer(1), Expr::Integer(2), Expr::Integer(3)]),
        ])]
    );
}

#[test]
fn parse_long() {
    let parsed = parse_text("(+ (* 3 (+ (* 2 4)  (+ 3 5))) (+ (- 10 7) 6))").unwrap();
    assert_eq!(
        parsed,
        vec![list(vec![
            sym("+"),
            list(vec![
                sym("*"),
                Expr::Integer(3),
                list(vec![
                    sym("+"),
                    list(vec![sym("*"), Expr::Integer(2), Expr::Integer(4)]),
                    list(vec![sym("+"), Expr::Integer(3), Expr::Integer(5)]),
                ]),
            ]),
            list(vec![
                sym("+"),
                list(vec![sym("-"), Expr::Integer(10), Expr::Integer(7)]),
                Expr::Integer(6),
            ]),
        ])]
    );
}

#[test]
fn parse_unexpected_eof() {
    let parsed = parse_text("(+ 1 2");
    assert_eq!(parsed, Err(ParseError::LexError(LexicalError::UnexpectedEOF)));
}

#[test]
fn parse_string() {
    let parsed = parse_text(r#"(display "Hello, world!")"#).unwrap();
    assert_eq!(
        parsed,
        vec![list(vec![sym("display"), Expr::String("Hello, world!".to_string())])]
    );
}

#[test]
fn parse_unclosed_string() {
    let parsed = parse_text(r#"(display "hello)"#);
    assert_eq!(parsed, Err(ParseError::LexError(LexicalError::UnclosedString)));
}

#[test]
fn parse_unexpected_close_paren() {
    let parsed = parse_text("(+ 1 2))");
    assert_eq!(parsed, Err(ParseError::LexError(LexicalError::UnexpectedRParen)));
}

#[test]
fn parse_void() {
    let parsed = parse_text("").unwrap();
    assert_eq!(parsed, vec![Expr::Void]);
}

#[test]
fn parse_two_parens() {
    let parsed = parse_text(
        "(define pi 314)
        (+ pi 1)",
    )
    .unwrap();
    assert_eq!(
        parsed,
        vec![
            list(vec![sym("define"), sym("pi"), Expr::Integer(314)]),
            list(vec![sym("+"), sym("pi"), Expr::Integer(1)]),
        ]
    );
}

#[test]
fn parse_boolean() {
    let parsed = parse_text("(not #t)").unwrap();
    assert_eq!(parsed, vec![list(vec![sym("not"), Expr::Boolean(true)])]);
}

#[test]
fn parse_char() {
    let parsed = parse_text("(not #\\e)").unwrap();
    assert_eq!(parsed, vec![list(vec![sym("not"), Expr::Char('e')])]);
}

#[test]
fn parse_comment() {
    let parsed = parse_text("; this is a comment\n(+ 1 2)").unwrap();
    assert_eq!(
        parsed,
        vec![list(vec![sym("+"), Expr::Integer(1), Expr::Integer(2)])]
    );
}

#[test]
fn parse_dotted_list() {
    let parsed = parse_text("(f x . y)").unwrap();
    assert_eq!(
        parsed,
        vec![Expr::new_dotted_list(vec![sym("f"), sym("x"), sym("y")])]
    );
}

#[test]
fn parse_quasiquote_with_unquote() {
    let parsed = parse_text("`(list ,(+ 1 2) 4)").unwrap();
    assert_eq!(
        parsed,
        vec![list(vec![
            sym("quasiquote"),
            list(vec![
                sym("list"),
                list(vec![
                    sym("unquote"),
                    list(vec![sym("+"), Expr::Integer(1), Expr::Integer(2)]),
                ]),
                Expr::Integer(4),
            ]),
        ])]
    );
}

#[test]
fn parse_str_reads_text() {
    assert_eq!(
        parse_str("(a . (b c))").unwrap(),
        vec![list(vec![sym("a"), sym("b"), sym("c")])]
    );
}

#[test]
fn parse_stray_dot_is_unexpected() {
    assert_eq!(parse_str(". 1"), Err(ParseError::UnexpectedToken(Token::Dot)));
}

#[test]
fn parse_error_messages() {
    assert_eq!(
        ParseError::UnexpectedToken(Token::Eof).to_string(),
        "unexpected token: Eof"
    );
    assert_eq!(
        ParseError::UnexpectedToken(Token::Symbol("a\"b".to_string())).to_string(),
        "unexpected token: Symbol(\"a\\\"b\")"
    );
    assert_eq!(
        ParseError::LexError(LexicalError::UnclosedString).to_string(),
        "lex error: unclosed string"
    );
}
