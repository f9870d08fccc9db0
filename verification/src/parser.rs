//! The parser: builds expressions from the lexer's tokens.
use crate::expr::{
    exprs_view, lemma_exprs_view_add, lemma_exprs_view_push, lemma_view_variant, Expr, ExprV, Exprs,
    List, ListKind,
};
use crate::lexer::{lex_result_view, lex_results_view, spec_lex, LexResult, Lexer, LexicalError, Token, TokenV};
use vstd::prelude::*;

verus! {

/// Errors the parser reports.
#[derive(Debug, PartialEq)]
pub enum ParseError {
    LexError(LexicalError),
    UnexpectedToken(Token),
}

/// The mathematical value of a [`ParseError`].
pub enum ParseErrorV {
    LexError(LexicalError),
    UnexpectedToken(TokenV),
}

impl View for ParseError {
    type V = ParseErrorV;

    open spec fn view(&self) -> ParseErrorV {
        match self {
            ParseError::LexError(e) => ParseErrorV::LexError(*e),
            ParseError::UnexpectedToken(t) => ParseErrorV::UnexpectedToken(t@),
        }
    }
}

pub type PTok = Result<TokenV, LexicalError>;

pub type ParseExprResult = Result<Expr, ParseError>;

pub open spec fn parse_result_view(r: ParseExprResult) -> Result<ExprV, ParseErrorV> {
    match r {
        Ok(e) => Ok(e@),
        Err(e) => Err(e@),
    }
}

/// The symbol that a quotation token abbreviates.
pub open spec fn quotation_name(t: TokenV) -> Seq<char> {
    match t {
        TokenV::Quote => "quote"@,
        TokenV::Quasiquote => "quasiquote"@,
        TokenV::Unquote => "unquote"@,
        _ => "unquote-splicing"@,
    }
}

/// The list of the elements `acc` followed by `tail`: the elements of `tail` when it is a
/// list, else `tail` as the tail of a dotted list.
pub open spec fn attach_tail(acc: Seq<ExprV>, tail: ExprV) -> ExprV {
    match tail {
        ExprV::List(items, dotted) => ExprV::List(acc + items, dotted),
        e => ExprV::List(acc.push(e), true),
    }
}

pub open spec fn eof_error() -> ParseErrorV {
    ParseErrorV::UnexpectedToken(TokenV::Eof)
}

/// Parses one expression from the tokens `ts`: the result (`None` at the end of the
/// tokens) and the number of tokens used.
pub open spec fn spec_parse_expr(ts: Seq<PTok>) -> (Option<Result<ExprV, ParseErrorV>>, nat)
    decreases ts.len(), 0nat,
{
    if ts.len() == 0 {
        (None, 0)
    } else {
        match ts[0] {
            Err(e) => (Some(Err(ParseErrorV::LexError(e))), 1),
            Ok(t) => match t {
                TokenV::Comment(_) => (Some(Ok(ExprV::Void)), 1),
                TokenV::Boolean(b) => (Some(Ok(ExprV::Boolean(b))), 1),
                TokenV::Str(s) => (Some(Ok(ExprV::Str(s))), 1),
                TokenV::Symbol(s) => (Some(Ok(ExprV::Symbol(s))), 1),
                TokenV::Integer(i) => (Some(Ok(ExprV::Integer(i))), 1),
                TokenV::Float(s) => (Some(Ok(ExprV::Float(s))), 1),
                TokenV::Char(c) => (Some(Ok(ExprV::Char(c))), 1),
                TokenV::LParen => {
                    let (r, n) = spec_parse_list(ts.drop_first(), Seq::empty());
                    (Some(r), n + 1)
                },
                TokenV::RParen => (
                    Some(Err(ParseErrorV::LexError(LexicalError::UnexpectedRParen))),
                    1,
                ),
                TokenV::Dot => (Some(Err(ParseErrorV::UnexpectedToken(TokenV::Dot))), 1),
                TokenV::Eof => (None, 1),
                q => {
                    let (r, n) = spec_parse_expr(ts.drop_first());
                    let res = match r {
                        None => Err(eof_error()),
                        Some(Err(e)) => Err(e),
                        Some(Ok(e)) => Ok(
                            ExprV::List(seq![ExprV::Symbol(quotation_name(q)), e], false),
                        ),
                    };
                    (Some(res), n + 1)
                },
            },
        }
    }
}

/// Parses the rest of a list whose elements so far are `acc`, up to its `)`: the result and
/// the number of tokens used. Comments inside the list are left out.
pub open spec fn spec_parse_list(ts: Seq<PTok>, acc: Seq<ExprV>) -> (Result<ExprV, ParseErrorV>, nat)
    decreases ts.len(), 1nat,
{
    if ts.len() == 0 {
        (Err(eof_error()), 0)
    } else {
        match ts[0] {
            Err(e) => (Err(ParseErrorV::LexError(e)), 1),
            Ok(TokenV::RParen) => (Ok(ExprV::List(acc, false)), 1),
            Ok(TokenV::Dot) => {
                let (r, n) = spec_parse_expr(ts.drop_first());
                match r {
                    None => (Err(eof_error()), 1 + n),
                    Some(Err(e)) => (Err(e), 1 + n),
                    Some(Ok(tail)) => {
                        let rest = ts.skip(1 + n as int);
                        if rest.len() > 0 && rest[0] == Ok::<TokenV, LexicalError>(TokenV::RParen) {
                            (Ok(attach_tail(acc, tail)), 2 + n)
                        } else if rest.len() > 0 {
                            (Err(ParseErrorV::UnexpectedToken(TokenV::Dot)), 2 + n)
                        } else {
                            (Err(ParseErrorV::UnexpectedToken(TokenV::Dot)), 1 + n)
                        }
                    },
                }
            },
            Ok(_) => {
                let (r, n) = spec_parse_expr(ts);
                match r {
                    None => (Err(eof_error()), n),
                    Some(Err(e)) => (Err(e), n),
                    Some(Ok(e)) => if 1 <= n <= ts.len() {
                        let acc2 = if e is Void {
                            acc
                        } else {
                            acc.push(e)
                        };
                        let (r2, m) = spec_parse_list(ts.skip(n as int), acc2);
                        (r2, n + m)
                    } else {
                        (Err(eof_error()), n)
                    },
                }
            },
        }
    }
}

/// Parses all the expressions of `ts`, leaving out comments; at least one expression
/// (`#<void>` for a text with none) or the first error.
pub open spec fn spec_parse_all(ts: Seq<PTok>, acc: Seq<ExprV>) -> Result<Seq<ExprV>, ParseErrorV>
    decreases ts.len(),
{
    let (r, n) = spec_parse_expr(ts);
    match r {
        None => if acc.len() == 0 {
            Ok(seq![ExprV::Void])
        } else {
            Ok(acc)
        },
        Some(Err(e)) => Err(e),
        Some(Ok(e)) => if 1 <= n <= ts.len() {
            spec_parse_all(ts.skip(n as int), if e is Void { acc } else { acc.push(e) })
        } else {
            Err(eof_error())
        },
    }
}

/// Builds expressions from a sequence of tokens.
pub struct Parser {
    /// The tokens not yet read, last first.
    rev: Vec<LexResult>,
}

impl Parser {
    /// The tokens not yet read.
    pub closed spec fn remaining(&self) -> Seq<PTok> {
        lex_results_view(self.rev@).reverse()
    }

    /// A parser of `tokens`.
    pub fn new(tokens: Vec<LexResult>) -> (p: Self)
        ensures
            p.remaining() == lex_results_view(tokens@),
    {
        let mut tokens = tokens;
        let ghost all = lex_results_view(tokens@);
        let mut rev: Vec<LexResult> = Vec::new();
        while tokens.len() > 0
            invariant
                all == lex_results_view(tokens@) + lex_results_view(rev@).reverse(),
            decreases tokens@.len(),
        {
            let ghost before_t = tokens@;
            let ghost before_r = rev@;
            let t = tokens.pop().unwrap();
            rev.push(t);
            proof {
                assert(before_t == tokens@.push(t));
                Self::lemma_lrv_push(tokens@, t);
                Self::lemma_lrv_push(before_r, t);
                assert(lex_results_view(rev@).reverse() =~= seq![lex_result_view(t)]
                    + lex_results_view(before_r).reverse());
                assert(all =~= lex_results_view(tokens@) + lex_results_view(rev@).reverse());
            }
        }
        assert(lex_results_view(tokens@) =~= Seq::empty());
        assert(all =~= lex_results_view(rev@).reverse());
        Parser { rev }
    }

    proof fn lemma_lrv_push(s: Seq<LexResult>, t: LexResult)
        ensures
            lex_results_view(s.push(t)) == lex_results_view(s).push(lex_result_view(t)),
    {
        assert(lex_results_view(s.push(t)) =~= lex_results_view(s).push(lex_result_view(t)));
    }

    proof fn lemma_pop(&self, t: LexResult, rest: Seq<LexResult>)
        requires
            self.rev@ == rest.push(t),
        ensures
            self.remaining()[0] == lex_result_view(t),
            self.remaining().drop_first() == lex_results_view(rest).reverse(),
            self.remaining().len() == rest.len() + 1,
    {
        assert(lex_results_view(self.rev@) =~= lex_results_view(rest).push(lex_result_view(t)));
        assert(self.remaining() =~= seq![lex_result_view(t)] + lex_results_view(rest).reverse());
    }

    /// Takes the next token.
    fn next_token(&mut self) -> (t: Option<LexResult>)
        ensures
            old(self).remaining().len() == 0 ==> t is None && final(self).remaining() == old(self).remaining(),
            old(self).remaining().len() > 0 ==> (t matches Some(x) && lex_result_view(x) == old(
                self,
            ).remaining()[0] && final(self).remaining() == old(self).remaining().drop_first()),
    {
        let ghost before = self.rev@;
        let t = self.rev.pop();
        proof {
            if t is Some {
                let x = t->0;
                assert(before == self.rev@.push(x));
                old(self).lemma_pop(x, self.rev@);
            } else {
                assert(lex_results_view(before) =~= Seq::empty());
            }
        }
        t
    }

    /// Whether the next token is `)`, and whether it is a `.`, and whether it is an error,
    /// and whether there is one at all.
    fn peek(&self) -> (r: (bool, bool, bool, bool))
        ensures
            r.3 == (self.remaining().len() > 0),
            r.3 ==> r.0 == (self.remaining()[0] == Ok::<TokenV, LexicalError>(TokenV::RParen)),
            r.3 ==> r.1 == (self.remaining()[0] == Ok::<TokenV, LexicalError>(TokenV::Dot)),
            r.3 ==> r.2 == (self.remaining()[0] is Err),
    {
        let n = self.rev.len();
        if n == 0 {
            assert(lex_results_view(self.rev@) =~= Seq::empty());
            return (false, false, false, false);
        }
        proof {
            assert(self.rev@ == self.rev@.drop_last().push(self.rev@[n - 1]));
            self.lemma_pop(self.rev@[n - 1], self.rev@.drop_last());
        }
        match &self.rev[n - 1] {
            Ok(Token::RParen) => (true, false, false, true),
            Ok(Token::Dot) => (false, true, false, true),
            Ok(_) => (false, false, false, true),
            Err(_) => (false, false, true, true),
        }
    }

    /// Parses the next expression; `None` at the end of the tokens.
    pub fn parse_expr(&mut self) -> (r: Option<ParseExprResult>)
        ensures
            (match r {
                Some(x) => Some(parse_result_view(x)),
                None => None,
            }) == spec_parse_expr(old(self).remaining()).0,
            final(self).remaining() == old(self).remaining().skip(
                spec_parse_expr(old(self).remaining()).1 as int,
            ),
            old(self).remaining().len() > 0 ==> 1 <= spec_parse_expr(old(self).remaining()).1
                <= old(self).remaining().len(),
            old(self).remaining().len() == 0 ==> spec_parse_expr(old(self).remaining()).1 == 0,
        decreases old(self).remaining().len(), 0nat,
    {
        let ghost ts = self.remaining();
        let t = self.next_token();
        match t {
            None => {
                assert(ts.skip(0) =~= ts);
                None
            },
            Some(Err(e)) => Some(Err(ParseError::LexError(e))),
            Some(Ok(tok)) => match tok {
                Token::Comment(_) => Some(Ok(Expr::Void)),
                Token::Boolean(b) => Some(Ok(Expr::Boolean(b))),
                Token::String(s) => Some(Ok(Expr::String(s))),
                Token::Symbol(s) => Some(Ok(Expr::Symbol(s))),
                Token::Integer(i) => Some(Ok(Expr::Integer(i))),
                Token::Float(s) => Some(Ok(Expr::Float(s))),
                Token::Char(c) => Some(Ok(Expr::Char(c))),
                Token::LParen => {
                    let r = self.parse_list();
                    proof {
                        assert(ts.drop_first().skip(spec_parse_list(ts.drop_first(), Seq::empty()).1 as int)
                            =~= ts.skip(spec_parse_list(ts.drop_first(), Seq::empty()).1 + 1 as int));
                    }
                    Some(r)
                },
                Token::RParen => Some(Err(ParseError::LexError(LexicalError::UnexpectedRParen))),
                Token::Dot => Some(Err(ParseError::UnexpectedToken(Token::Dot))),
                Token::Eof => None,
                Token::Quote => Some(self.parse_quotation("quote")),
                Token::Quasiquote => Some(self.parse_quotation("quasiquote")),
                Token::Unquote => Some(self.parse_quotation("unquote")),
                Token::UnquoteSplicing => Some(self.parse_quotation("unquote-splicing")),
            },
        }
    }

    /// Parses the expression after a quotation token and wraps it in a call of `name`.
    fn parse_quotation(&mut self, name: &str) -> (r: ParseExprResult)
        ensures
            ({
                let (q, n) = spec_parse_expr(old(self).remaining());
                &&& parse_result_view(r) == match q {
                    None => Err(eof_error()),
                    Some(Err(e)) => Err(e),
                    Some(Ok(e)) => Ok(ExprV::List(seq![ExprV::Symbol(name@), e], false)),
                }
                &&& final(self).remaining() == old(self).remaining().skip(n as int)
                &&& old(self).remaining().len() > 0 ==> 1 <= n <= old(self).remaining().len()
                &&& old(self).remaining().len() == 0 ==> n == 0
            }),
        decreases old(self).remaining().len(), 1nat,
    {
        match self.parse_expr() {
            None => Err(ParseError::UnexpectedToken(Token::Eof)),
            Some(Err(e)) => Err(e),
            Some(Ok(e)) => {
                let mut v: Exprs = Vec::new();
                v.push(Expr::new_symbol(name));
                v.push(e);
                let l = Expr::new_proper_list(v);
                proof {
                    assert(exprs_view(v@) =~= seq![ExprV::Symbol(name@), e@]) by {
                        lemma_exprs_view_push(seq![v@[0]], e);
                        lemma_exprs_view_push(Seq::empty(), v@[0]);
                        assert(seq![v@[0]] == Seq::<Expr>::empty().push(v@[0]));
                        assert(v@ == seq![v@[0]].push(e));
                    }
                }
                Ok(l)
            },
        }
    }

    fn parse_list(&mut self) -> (r: ParseExprResult)
        ensures
            parse_result_view(r) == spec_parse_list(old(self).remaining(), Seq::empty()).0,
            final(self).remaining() == old(self).remaining().skip(
                spec_parse_list(old(self).remaining(), Seq::empty()).1 as int,
            ),
            spec_parse_list(old(self).remaining(), Seq::empty()).1 <= old(self).remaining().len(),
        decreases old(self).remaining().len(), 1nat,
    {
        let ghost ts0 = self.remaining();
        let mut list: Exprs = Vec::new();
        loop
            invariant
                ts0 == old(self).remaining(),
                self.remaining().len() <= ts0.len(),
                self.remaining() == ts0.skip(ts0.len() - self.remaining().len()),
                spec_parse_list(ts0, Seq::empty()).0 == spec_parse_list(
                    self.remaining(),
                    exprs_view(list@),
                ).0,
                spec_parse_list(ts0, Seq::empty()).1 == (ts0.len() - self.remaining().len())
                    + spec_parse_list(self.remaining(), exprs_view(list@)).1,
            decreases self.remaining().len(),
        {
            let ghost ts = self.remaining();
            let ghost k: int = ts0.len() - ts.len();
            let ghost acc = exprs_view(list@);
            let (is_rparen, is_dot, is_err, any) = self.peek();
            if !any {
                proof {
                    lemma_skip_skip(ts0, k, 0);
                }
                return Err(ParseError::UnexpectedToken(Token::Eof));
            }
            if is_err {
                let t = self.next_token();
                proof {
                    lemma_skip_skip(ts0, k, 1);
                }
                match t {
                    Some(Err(e)) => {
                        return Err(ParseError::LexError(e));
                    },
                    _ => {
                        assert(false);
                        return Err(ParseError::UnexpectedToken(Token::Eof));
                    },
                }
            }
            if is_rparen {
                self.next_token();
                proof {
                    lemma_skip_skip(ts0, k, 1);
                }
                let e = Expr::new_proper_list(list);
                return Ok(e);
            }
            if is_dot {
                self.next_token();
                let ghost ts1 = self.remaining();
                let r = self.parse_expr();
                let ghost n = spec_parse_expr(ts1).1;
                proof {
                    assert(ts1 == ts.drop_first());
                    lemma_skip_skip(ts, 1, n as int);
                    lemma_skip_skip(ts0, k, 1 + n as int);
                }
                let tail = match r {
                    None => {
                        return Err(ParseError::UnexpectedToken(Token::Eof));
                    },
                    Some(Err(e)) => {
                        return Err(e);
                    },
                    Some(Ok(tail)) => tail,
                };
                let close = self.next_token();
                match close {
                    Some(Ok(Token::RParen)) => {},
                    _ => {
                        proof {
                            if ts.skip(1 + n as int).len() > 0 {
                                lemma_skip_skip(ts0, k, 2 + n as int);
                                lemma_skip_skip(ts, 1 + n as int, 1);
                            }
                        }
                        return Err(ParseError::UnexpectedToken(Token::Dot));
                    },
                }
                proof {
                    lemma_skip_skip(ts0, k, 2 + n as int);
                    lemma_skip_skip(ts, 1 + n as int, 1);
                }
                let r = match tail.into_list() {
                    Ok(tail_list) => {
                        proof {
                            List::lemma_view(tail_list);
                        }
                        tail_list.lemma_flat();
                        let kind = tail_list.kind();
                        let mut items = tail_list.into_exprs();
                        let ghost ti = items@;
                        let ghost lb = list@;
                        list.append(&mut items);
                        proof {
                            lemma_exprs_view_add(lb, ti);
                        }
                        Expr::new_list(list, kind)
                    },
                    Err(expr) => {
                        let ghost lb = list@;
                        list.push(expr);
                        proof {
                            lemma_exprs_view_push(lb, expr);
                            lemma_view_variant(expr);
                        }
                        Expr::new_list(list, ListKind::Dotted)
                    },
                };
                proof {
                    if r is List {
                        List::lemma_view(r->List_0);
                    }
                }
                return Ok(r);
            }
            let ghost lb = list@;
            let pe = self.parse_expr();
            let ghost n = spec_parse_expr(ts).1;
            proof {
                lemma_skip_skip(ts0, k, n as int);
                if pe is Some && pe->0 is Ok {
                    lemma_view_variant(pe->0->Ok_0);
                }
            }
            match pe {
                None => {
                    return Err(ParseError::UnexpectedToken(Token::Eof));
                },
                Some(Err(e)) => {
                    return Err(e);
                },
                Some(Ok(Expr::Void)) => {},
                Some(Ok(e)) => {
                    list.push(e);
                    proof {
                        lemma_exprs_view_push(lb, e);
                    }
                },
            }
        }
    }
}

proof fn lemma_skip_skip<A>(s: Seq<A>, a: int, b: int)
    requires
        0 <= a,
        0 <= b,
        a + b <= s.len(),
    ensures
        s.skip(a).skip(b) == s.skip(a + b),
{
    assert(s.skip(a).skip(b) =~= s.skip(a + b));
}

/// Parses all the expressions of `tokens`, leaving out comments: at least one expression
/// (`#<void>` for tokens with none), or the first error.
pub fn parse(tokens: Vec<LexResult>) -> (r: Result<Exprs, ParseError>)
    ensures
        match r {
            Ok(v) => spec_parse_all(lex_results_view(tokens@), Seq::empty()) == Ok::<
                Seq<ExprV>,
                ParseErrorV,
            >(exprs_view(v@)),
            Err(e) => spec_parse_all(lex_results_view(tokens@), Seq::empty()) == Err::<
                Seq<ExprV>,
                ParseErrorV,
            >(e@),
        },
{
    let mut parser = Parser::new(tokens);
    let ghost ts0 = parser.remaining();
    let mut exprs: Exprs = Vec::new();
    loop
        invariant
            ts0 == lex_results_view(tokens@),
            spec_parse_all(ts0, Seq::empty()) == spec_parse_all(parser.remaining(), exprs_view(exprs@)),
        decreases parser.remaining().len(),
    {
        let ghost ts = parser.remaining();
        let ghost eb = exprs@;
        let pe = parser.parse_expr();
        proof {
            if pe is Some && pe->0 is Ok {
                lemma_view_variant(pe->0->Ok_0);
            }
        }
        match pe {
            None => {
                if exprs.len() == 0 {
                    exprs.push(Expr::Void);
                    proof {
                        lemma_exprs_view_push(eb, Expr::Void);
                        assert(eb =~= Seq::<Expr>::empty());
                        assert(exprs_view(eb) =~= Seq::empty());
                    }
                } else {
                    proof {
                        crate::expr::lemma_exprs_view_len(exprs@);
                    }
                }
                return Ok(exprs);
            },
            Some(Err(err)) => {
                return Err(err);
            },
            Some(Ok(Expr::Void)) => {},
            Some(Ok(e)) => {
                exprs.push(e);
                proof {
                    lemma_exprs_view_push(eb, e);
                }
            },
        }
    }
}

/// Reads and parses a source text.
pub fn parse_str(string: &str) -> (r: Result<Exprs, ParseError>)
    ensures
        match r {
            Ok(v) => spec_parse_all(spec_lex(string@), Seq::empty()) == Ok::<
                Seq<ExprV>,
                ParseErrorV,
            >(exprs_view(v@)),
            Err(e) => spec_parse_all(spec_lex(string@), Seq::empty()) == Err::<
                Seq<ExprV>,
                ParseErrorV,
            >(e@),
        },
{
    let lexer = Lexer::new(string);
    let tokens = lexer.into_tokens();
    parse(tokens)
}

} // verus!
