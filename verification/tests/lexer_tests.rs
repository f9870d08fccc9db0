use lispdm::lexer::{LexResult, Lexer, LexicalError, Token};

fn lex(src: &str) -> Vec<LexResult> {
    Lexer::new(src).into_tokens()
}

fn sym(s: &str) -> LexResult {
    Ok(Token::Symbol(s.to_string()))
}

#[test]
fn lex_complex() {
    let tokens = lex("(cos (* 3.14159 1))");
    assert_eq!(tokens.len(), 8);
    assert_eq!(tokens[0], Ok(Token::LParen));
    assert_eq!(tokens[1], sym("cos"));
    assert_eq!(tokens[2], Ok(Token::LParen));
    assert_eq!(tokens[3], sym("*"));
    match &tokens[4] {
        Ok(Token::Float(text)) => assert_eq!(text.parse::<f64>().unwrap(), 3.14159),
        other => panic!("expected a float, got {:?}", other),
    }
    assert_eq!(tokens[5], Ok(Token::Integer(1)));
    assert_eq!(tokens[6], Ok(Token::RParen));
    assert_eq!(tokens[7], Ok(Token::RParen));
}

#[test]
fn lex_quote() {
    let tokens = lex("'(1 2 3)");
    assert_eq!(
        tokens,
        vec![
            Ok(Token::Quote),
            Ok(Token::LParen),
            Ok(Token::Integer(1)),
            Ok(Token::Integer(2)),
            Ok(Token::Integer(3)),
            Ok(Token::RParen),
        ]
    );
}

#[test]
fn lex_long() {
    let tokens = lex("(+ (* 3 (+ (* 2 4)  (+ 3 5))) (+ (- 10 7) 6))");
    assert_eq!(
        tokens,
        vec![
            Ok(Token::LParen),
            sym("+"),
            Ok(Token::LParen),
            sym("*"),
            Ok(Token::Integer(3)),
            Ok(Token::LParen),
            sym("+"),
            Ok(Token::LParen),
            sym("*"),
            Ok(Token::Integer(2)),
            Ok(Token::Integer(4)),
            Ok(Token::RParen),
            Ok(Token::LParen),
            sym("+"),
            Ok(Token::Integer(3)),
            Ok(Token::Integer(5)),
            Ok(Token::RParen),
            Ok(Token::RParen),
            Ok(Token::RParen),
            Ok(Token::LParen),
            sym("+"),
            Ok(Token::LParen),
            sym("-"),
            Ok(Token::Integer(10)),
            Ok(Token::Integer(7)),
            Ok(Token::RParen),
            Ok(Token::Integer(6)),
            Ok(Token::RParen),
            Ok(Token::RParen),
        ]
    );
}

#[test]
fn lex_unexpected_eof() {
    let tokens = lex("(+ 1 2");
    assert_eq!(
        tokens,
        vec![
            Ok(Token::LParen),
            sym("+"),
            Ok(Token::Integer(1)),
            Ok(Token::Integer(2)),
            Err(LexicalError::UnexpectedEOF)
        ]
    );
}

#[test]
fn lex_unclosed_string() {
    let tokens = lex(r#"(display "hello)"#);
    assert_eq!(
        tokens,
        vec![Ok(Token::LParen), sym("display"), Err(LexicalError::UnclosedString),]
    );
}

#[test]
fn lex_unexpected_close_paren() {
    let tokens = lex("(+ 1 2))");
    assert_eq!(
        tokens,
        vec![
            Ok(Token::LParen),
            sym("+"),
            Ok(Token::Integer(1)),
            Ok(Token::Integer(2)),
            Ok(Token::RParen),
            Err(LexicalError::UnexpectedRParen),
        ]
    );
}

#[test]
fn lex_void() {
    let tokens = lex("");
    assert_eq!(tokens, vec![]);
}

#[test]
fn lex_two_parens() {
    let tokens = lex("(define pi 314)
                                                    (+ pi 1)");
    assert_eq!(
        tokens,
        vec![
            Ok(Token::LParen),
            sym("define"),
            sym("pi"),
            Ok(Token::Integer(314)),
            Ok(Token::RParen),
            Ok(Token::LParen),
            sym("+"),
            sym("pi"),
            Ok(Token::Integer(1)),
            Ok(Token::RParen)
        ]
    );
}

#[test]
fn lex_reader_syntax() {
    let tokens = lex("`(a ,b ,@c . d) #t #false #\\e \"x y\" ; note\n");
    assert_eq!(
        tokens,
        vec![
            Ok(Token::Quasiquote),
            Ok(Token::LParen),
            sym("a"),
            Ok(Token::Unquote),
            sym("b"),
            Ok(Token::UnquoteSplicing),
            sym("c"),
            Ok(Token::Dot),
            sym("d"),
            Ok(Token::RParen),
            Ok(Token::Boolean(true)),
            Ok(Token::Boolean(false)),
            Ok(Token::Char('e')),
            Ok(Token::String("x y".to_string())),
            Ok(Token::Comment(" note".to_string())),
        ]
    );
}

#[test]
fn lex_numbers() {
    let tokens = lex("-12 +7 9223372036854775807 9223372036854775808 1e5 .5 nan - + -inf Infinity");
    assert_eq!(tokens[0], Ok(Token::Integer(-12)));
    assert_eq!(tokens[1], Ok(Token::Integer(7)));
    assert_eq!(tokens[2], Ok(Token::Integer(i64::MAX)));
    assert_eq!(tokens[3], Ok(Token::Float("9223372036854775808".to_string())));
    assert_eq!(tokens[4], Ok(Token::Float("1e5".to_string())));
    assert_eq!(tokens[5], Ok(Token::Float(".5".to_string())));
    assert_eq!(tokens[6], sym("nan"));
    assert_eq!(tokens[7], sym("-"));
    assert_eq!(tokens[8], sym("+"));
    assert_eq!(tokens[9], sym("-inf"));
    assert_eq!(tokens[10], sym("Infinity"));
    for t in &tokens[3..6] {
        if let Ok(Token::Float(text)) = t {
            assert!(text.parse::<f64>().is_ok());
        }
    }
}

fn depth(tokens: &[LexResult]) -> i64 {
    let mut d = 0;
    for t in tokens {
        match t {
            Ok(Token::LParen) => d += 1,
            Ok(Token::RParen) => d -= 1,
            _ => {}
        }
    }
    d
}

#[test]
fn lexer_errors_come_last_and_parentheses_balance() {
    for src in ["((1) 2", ")(", "(a \"b", "(a) (b (c)) d", "'(1 . 2)"] {
        let tokens = lex(src);
        for t in tokens.iter().take(tokens.len().saturating_sub(1)) {
            assert!(t.is_ok());
        }
        if tokens.iter().all(|t| t.is_ok()) {
            assert_eq!(depth(&tokens), 0);
            for k in 0..=tokens.len() {
                assert!(depth(&tokens[..k]) >= 0);
            }
        }
    }
    assert_eq!(lex("((1) 2").last(), Some(&Err(LexicalError::UnexpectedEOF)));
    assert_eq!(lex(")(").len(), 1);
}
