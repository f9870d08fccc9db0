//! The errors of evaluation and of the interpreter as a whole, and their messages.
use crate::expr::push_str_lit;
use crate::lexer::{LexicalError, Token, TokenV};
use crate::parser::{ParseError, ParseErrorV};
use crate::text::{int_decimal, push_char, push_int};
use vstd::prelude::*;

verus! {

/// An error of evaluation.
#[derive(Debug, PartialEq)]
pub enum EvalError {
    RuntimeError(String),
}

impl EvalError {
    /// The text of the error, without its kind.
    pub open spec fn message(&self) -> Seq<char> {
        match self {
            EvalError::RuntimeError(m) => m@,
        }
    }

    /// How the error is displayed.
    pub fn to_string(&self) -> (s: String)
        ensures
            s@ == "runtime error: "@ + self.message(),
    {
        let mut s = String::from_str("runtime error: ");
        match self {
            EvalError::RuntimeError(m) => s.append(m.as_str()),
        }
        proof {
            reveal_strlit("runtime error: ");
        }
        s
    }
}

/// Whether `r` is what `s` describes: the value by its view, or an error with the message.
pub open spec fn outcome(r: Result<crate::expr::Expr, EvalError>, s: Result<crate::expr::ExprV, Seq<char>>) -> bool {
    match s {
        Ok(v) => r is Ok && r->Ok_0@ == v,
        Err(m) => r is Err && r->Err_0.message() == m,
    }
}

/// A runtime error with message `m`.
pub fn runtime_error(m: String) -> (e: EvalError)
    ensures
        e.message() == m@,
{
    EvalError::RuntimeError(m)
}

/// Every error of the interpreter.
#[derive(Debug, PartialEq)]
pub enum LispDMError {
    /// The source text could not be parsed.
    ParseError(String),
    /// Evaluation failed.
    EvalError(String),
}

impl LispDMError {
    /// How the error is displayed.
    pub fn to_string(&self) -> (s: String)
        ensures
            s@ == match self {
                LispDMError::ParseError(m) => "parse error: "@ + m@,
                LispDMError::EvalError(m) => "eval error: "@ + m@,
            },
    {
        proof {
            reveal_strlit("parse error: ");
            reveal_strlit("eval error: ");
        }
        match self {
            LispDMError::ParseError(m) => {
                let mut s = String::from_str("parse error: ");
                s.append(m.as_str());
                s
            },
            LispDMError::EvalError(m) => {
                let mut s = String::from_str("eval error: ");
                s.append(m.as_str());
                s
            },
        }
    }

    /// The error for a failed parse: it carries the parse error's display.
    pub fn from_parse_error(e: ParseError) -> (r: LispDMError)
        ensures
            r == LispDMError::ParseError(r->ParseError_0),
            r->ParseError_0@ == parse_error_text(e@),
    {
        LispDMError::ParseError(e.to_string())
    }

    /// The error for a failed evaluation: it carries the evaluation error's display.
    pub fn from_eval_error(e: EvalError) -> (r: LispDMError)
        ensures
            r == LispDMError::EvalError(r->EvalError_0),
            r->EvalError_0@ == "runtime error: "@ + e.message(),
    {
        LispDMError::EvalError(e.to_string())
    }
}

/// The name of a token variant as its `Debug` form shows it.
pub open spec fn token_name(t: TokenV) -> Seq<char> {
    match t {
        TokenV::Integer(_) => "Integer"@,
        TokenV::Float(_) => "Float"@,
        TokenV::Symbol(_) => "Symbol"@,
        TokenV::Str(_) => "String"@,
        TokenV::Char(_) => "Char"@,
        TokenV::Boolean(_) => "Boolean"@,
        TokenV::Comment(_) => "Comment"@,
        TokenV::LParen => "LParen"@,
        TokenV::RParen => "RParen"@,
        TokenV::Quote => "Quote"@,
        TokenV::Quasiquote => "Quasiquote"@,
        TokenV::Unquote => "Unquote"@,
        TokenV::UnquoteSplicing => "UnquoteSplicing"@,
        TokenV::Dot => "Dot"@,
        TokenV::Eof => "Eof"@,
    }
}

/// A character inside a quoted text of a `Debug` form: quotes, backslashes and the
/// newline, return and tab characters are escaped.
pub open spec fn escape_char(c: char) -> Seq<char> {
    if c == '"' {
        seq!['\\', '"']
    } else if c == '\\' {
        seq!['\\', '\\']
    } else if c == '\n' {
        seq!['\\', 'n']
    } else if c == '\r' {
        seq!['\\', 'r']
    } else if c == '\t' {
        seq!['\\', 't']
    } else {
        seq![c]
    }
}

/// The text `s` with each character escaped.
pub open spec fn escape_text(s: Seq<char>) -> Seq<char>
    decreases s.len(),
{
    if s.len() == 0 {
        Seq::empty()
    } else {
        escape_text(s.drop_last()) + escape_char(s.last())
    }
}

/// A token as its `Debug` form shows it.
pub open spec fn token_debug(t: TokenV) -> Seq<char> {
    match t {
        TokenV::Integer(i) => token_name(t) + seq!['('] + int_decimal(i as int) + seq![')'],
        TokenV::Float(s) => token_name(t) + seq!['(', '"'] + escape_text(s) + seq!['"', ')'],
        TokenV::Symbol(s) => token_name(t) + seq!['(', '"'] + escape_text(s) + seq!['"', ')'],
        TokenV::Str(s) => token_name(t) + seq!['(', '"'] + escape_text(s) + seq!['"', ')'],
        TokenV::Comment(s) => token_name(t) + seq!['(', '"'] + escape_text(s) + seq!['"', ')'],
        TokenV::Char(c) => token_name(t) + seq!['(', '\''] + (if c == '\'' {
            seq!['\\', '\'']
        } else if c == '"' {
            seq!['"']
        } else {
            escape_char(c)
        }) + seq!['\'', ')'],
        TokenV::Boolean(b) => token_name(t) + seq!['('] + (if b {
            "true"@
        } else {
            "false"@
        }) + seq![')'],
        _ => token_name(t),
    }
}

/// How a parse error is displayed.
pub open spec fn parse_error_text(e: ParseErrorV) -> Seq<char> {
    match e {
        ParseErrorV::LexError(l) => "lex error: "@ + l.spec_message(),
        ParseErrorV::UnexpectedToken(t) => "unexpected token: "@ + token_debug(t),
    }
}

fn push_escaped(out: &mut String, s: &str)
    ensures
        final(out)@ == old(out)@ + escape_text(s@),
{
    let chars = crate::text::chars_of(s);
    let mut i: usize = 0;
    while i < chars.len()
        invariant
            chars@ == s@,
            0 <= i <= chars@.len(),
            out@ == old(out)@ + escape_text(chars@.take(i as int)),
        decreases chars@.len() - i,
    {
        let c = chars[i];
        if c == '"' {
            push_char(out, '\\');
            push_char(out, '"');
        } else if c == '\\' {
            push_char(out, '\\');
            push_char(out, '\\');
        } else if c == '\n' {
            push_char(out, '\\');
            push_char(out, 'n');
        } else if c == '\r' {
            push_char(out, '\\');
            push_char(out, 'r');
        } else if c == '\t' {
            push_char(out, '\\');
            push_char(out, 't');
        } else {
            push_char(out, c);
        }
        proof {
            assert(chars@.take(i + 1).drop_last() =~= chars@.take(i as int));
            assert(out@ =~= old(out)@ + escape_text(chars@.take(i + 1)));
        }
        i = i + 1;
    }
    assert(chars@.take(chars@.len() as int) =~= chars@);
}

fn push_token_name(out: &mut String, t: &Token)
    ensures
        final(out)@ == old(out)@ + token_name(t@),
{
    proof {
        reveal_strlit("Integer");
        reveal_strlit("Float");
        reveal_strlit("Symbol");
        reveal_strlit("String");
        reveal_strlit("Char");
        reveal_strlit("Boolean");
        reveal_strlit("Comment");
        reveal_strlit("LParen");
        reveal_strlit("RParen");
        reveal_strlit("Quote");
        reveal_strlit("Quasiquote");
        reveal_strlit("Unquote");
        reveal_strlit("UnquoteSplicing");
        reveal_strlit("Dot");
        reveal_strlit("Eof");
    }
    let name = match t {
        Token::Integer(_) => "Integer",
        Token::Float(_) => "Float",
        Token::Symbol(_) => "Symbol",
        Token::String(_) => "String",
        Token::Char(_) => "Char",
        Token::Boolean(_) => "Boolean",
        Token::Comment(_) => "Comment",
        Token::LParen => "LParen",
        Token::RParen => "RParen",
        Token::Quote => "Quote",
        Token::Quasiquote => "Quasiquote",
        Token::Unquote => "Unquote",
        Token::UnquoteSplicing => "UnquoteSplicing",
        Token::Dot => "Dot",
        Token::Eof => "Eof",
    };
    push_str_lit(out, name);
}

/// Appends the `Debug` form of `t` to `out`.
fn push_token_debug(out: &mut String, t: &Token)
    ensures
        final(out)@ == old(out)@ + token_debug(t@),
{
    push_token_name(out, t);
    let ghost named = out@;
    match t {
        Token::Integer(i) => {
            push_char(out, '(');
            push_int(out, *i);
            push_char(out, ')');
        },
        Token::Float(s) | Token::Symbol(s) | Token::String(s) | Token::Comment(s) => {
            push_char(out, '(');
            push_char(out, '"');
            push_escaped(out, s.as_str());
            push_char(out, '"');
            push_char(out, ')');
        },
        Token::Char(c) => {
            push_char(out, '(');
            push_char(out, '\'');
            if *c == '\'' {
                push_char(out, '\\');
                push_char(out, '\'');
            } else if *c == '"' {
                push_char(out, '"');
            } else {
                let mut buf = String::new();
                push_char(&mut buf, *c);
                proof {
                    assert(buf@ =~= seq![*c]);
                    assert(seq![*c].drop_last() =~= Seq::<char>::empty());
                    assert(escape_text(Seq::<char>::empty()) =~= Seq::<char>::empty());
                    assert(escape_text(seq![*c]) =~= escape_char(*c));
                }
                push_escaped(out, buf.as_str());
            }
            push_char(out, '\'');
            push_char(out, ')');
        },
        Token::Boolean(b) => {
            proof {
                reveal_strlit("true");
                reveal_strlit("false");
            }
            push_char(out, '(');
            if *b {
                push_str_lit(out, "true");
            } else {
                push_str_lit(out, "false");
            }
            push_char(out, ')');
        },
        _ => {},
    }
    assert(final(out)@ =~= old(out)@ + token_debug(t@));
}

impl ParseError {
    /// How the error is displayed.
    pub fn to_string(&self) -> (s: String)
        ensures
            s@ == parse_error_text(self@),
    {
        proof {
            reveal_strlit("lex error: ");
            reveal_strlit("unexpected token: ");
        }
        match self {
            ParseError::LexError(e) => {
                let mut s = String::from_str("lex error: ");
                let m = e.to_string();
                s.append(m.as_str());
                s
            },
            ParseError::UnexpectedToken(t) => {
                let mut s = String::from_str("unexpected token: ");
                push_token_debug(&mut s, t);
                s
            },
        }
    }
}

} // verus!
