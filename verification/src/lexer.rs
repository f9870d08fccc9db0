//! The lexer: turns source text into a sequence of tokens.
use crate::text::{
    chars_of, check_float_literal, is_float_literal, is_white_space, is_whitespace, parse_i64,
    spec_parse_i64, string_from_chars,
};
use vstd::prelude::*;

verus! {

/// A lexical token.
///
/// An inexact number is carried as the text of its decimal literal.
#[derive(PartialEq, Debug, Clone)]
pub enum Token {
    Integer(i64),
    Float(String),
    Symbol(String),
    String(String),
    Char(char),
    Boolean(bool),
    Comment(String),
    LParen,
    RParen,
    Quote,
    Quasiquote,
    Unquote,
    UnquoteSplicing,
    Dot,
    Eof,
}

/// The mathematical value of a [`Token`].
pub enum TokenV {
    Integer(i64),
    Float(Seq<char>),
    Symbol(Seq<char>),
    Str(Seq<char>),
    Char(char),
    Boolean(bool),
    Comment(Seq<char>),
    LParen,
    RParen,
    Quote,
    Quasiquote,
    Unquote,
    UnquoteSplicing,
    Dot,
    Eof,
}

impl View for Token {
    type V = TokenV;

    open spec fn view(&self) -> TokenV {
        match self {
            Token::Integer(i) => TokenV::Integer(*i),
            Token::Float(s) => TokenV::Float(s@),
            Token::Symbol(s) => TokenV::Symbol(s@),
            Token::String(s) => TokenV::Str(s@),
            Token::Char(c) => TokenV::Char(*c),
            Token::Boolean(b) => TokenV::Boolean(*b),
            Token::Comment(s) => TokenV::Comment(s@),
            Token::LParen => TokenV::LParen,
            Token::RParen => TokenV::RParen,
            Token::Quote => TokenV::Quote,
            Token::Quasiquote => TokenV::Quasiquote,
            Token::Unquote => TokenV::Unquote,
            Token::UnquoteSplicing => TokenV::UnquoteSplicing,
            Token::Dot => TokenV::Dot,
            Token::Eof => TokenV::Eof,
        }
    }
}

/// Errors the lexer reports.
#[derive(PartialEq, Eq, Debug, Clone, Copy, Structural)]
pub enum LexicalError {
    UnexpectedEOF,
    UnexpectedRParen,
    UnclosedString,
}

impl LexicalError {
    /// The message that describes the error.
    pub fn to_string(&self) -> (s: String)
        ensures
            s@ == self.spec_message(),
    {
        match self {
            LexicalError::UnexpectedEOF => String::from_str("unexpected EOF"),
            LexicalError::UnexpectedRParen => String::from_str("unexpected ')'"),
            LexicalError::UnclosedString => String::from_str("unclosed string"),
        }
    }

    pub closed spec fn spec_message(&self) -> Seq<char> {
        match self {
            LexicalError::UnexpectedEOF => "unexpected EOF"@,
            LexicalError::UnexpectedRParen => "unexpected ')'"@,
            LexicalError::UnclosedString => "unclosed string"@,
        }
    }
}

pub type LexResult = Result<Token, LexicalError>;

pub open spec fn lex_result_view(r: LexResult) -> Result<TokenV, LexicalError> {
    match r {
        Ok(t) => Ok(t@),
        Err(e) => Err(e),
    }
}

pub open spec fn lex_results_view(v: Seq<LexResult>) -> Seq<Result<TokenV, LexicalError>> {
    v.map_values(|r: LexResult| lex_result_view(r))
}

/// The state of the lexer between tokens: the position of the next character, the
/// number of open parentheses, and whether an error has been reported.
pub struct LexState {
    pub pos: nat,
    pub open: nat,
    pub failed: bool,
}

/// Characters that end a token outside a string.
pub open spec fn is_delimiter(c: char) -> bool {
    is_white_space(c) || c == '(' || c == ')' || c == '\''
}

/// The first position at or after `i` that holds no whitespace.
pub open spec fn skip_white_space(chars: Seq<char>, i: nat) -> nat
    decreases chars.len() - i,
{
    if i < chars.len() && is_white_space(chars[i as int]) {
        skip_white_space(chars, i + 1)
    } else {
        i
    }
}

/// The first position at or after `i` that holds a newline, or the end of the text.
pub open spec fn line_end(chars: Seq<char>, i: nat) -> nat
    decreases chars.len() - i,
{
    if i < chars.len() && chars[i as int] != '\n' {
        line_end(chars, i + 1)
    } else {
        i
    }
}

/// Reads the characters of an atom from position `i`, `in_str` telling whether a string
/// is open: returns the characters read, whether a string is still open, and the position
/// after the atom. A `"` opens or closes a string and is not kept; closing a string ends
/// the atom; outside a string a delimiter ends the atom.
pub open spec fn scan_atom(chars: Seq<char>, i: nat, in_str: bool, acc: Seq<char>) -> (
    Seq<char>,
    bool,
    nat,
)
    decreases chars.len() - i,
{
    if i >= chars.len() {
        (acc, in_str, i)
    } else {
        let c = chars[i as int];
        if c == '"' {
            if in_str {
                (acc, false, i + 1)
            } else {
                scan_atom(chars, i + 1, true, acc)
            }
        } else if !in_str && is_delimiter(c) {
            (acc, false, i)
        } else {
            scan_atom(chars, i + 1, in_str, acc.push(c))
        }
    }
}

/// The token an atom of text `t` stands for, when it did not start with `"`.
pub open spec fn classify_atom(t: Seq<char>) -> TokenV {
    if t == seq!['#', 't'] || t == seq!['#', 't', 'r', 'u', 'e'] {
        TokenV::Boolean(true)
    } else if t == seq!['#', 'f'] || t == seq!['#', 'f', 'a', 'l', 's', 'e'] {
        TokenV::Boolean(false)
    } else if t.len() == 3 && t[0] == '#' && t[1] == '\\' {
        TokenV::Char(t[2])
    } else if t == seq!['.'] {
        TokenV::Dot
    } else if spec_parse_i64(t) is Some {
        TokenV::Integer(spec_parse_i64(t)->0)
    } else if is_float_literal(t) {
        TokenV::Float(t)
    } else {
        TokenV::Symbol(t)
    }
}

/// The result of lexing the atom at position `p`, and the position after it.
pub open spec fn spec_atom(chars: Seq<char>, p: nat) -> (Result<TokenV, LexicalError>, nat) {
    let (t, open_str, e) = scan_atom(chars, p, false, Seq::empty());
    if open_str {
        (Err(LexicalError::UnclosedString), e)
    } else if chars[p as int] == '"' {
        (Ok(TokenV::Str(t)), e)
    } else {
        (Ok(classify_atom(t)), e)
    }
}

/// One step of the lexer: the next token (`None` at the end), and the state after it.
pub open spec fn spec_next(chars: Seq<char>, st: LexState) -> (
    Option<Result<TokenV, LexicalError>>,
    LexState,
) {
    if st.failed {
        (None, st)
    } else {
        let p = skip_white_space(chars, st.pos);
        if p >= chars.len() {
            if st.open > 0 {
                (Some(Err(LexicalError::UnexpectedEOF)), LexState { pos: p, open: st.open, failed: true })
            } else {
                (None, LexState { pos: p, open: st.open, failed: false })
            }
        } else {
            let c = chars[p as int];
            if c == '(' {
                (Some(Ok(TokenV::LParen)), LexState { pos: p + 1, open: st.open + 1, failed: false })
            } else if c == ')' {
                if st.open == 0 {
                    (Some(Err(LexicalError::UnexpectedRParen)), LexState { pos: p + 1, open: 0, failed: true })
                } else {
                    (Some(Ok(TokenV::RParen)), LexState { pos: p + 1, open: (st.open - 1) as nat, failed: false })
                }
            } else if c == '\'' {
                (Some(Ok(TokenV::Quote)), LexState { pos: p + 1, open: st.open, failed: false })
            } else if c == '`' {
                (Some(Ok(TokenV::Quasiquote)), LexState { pos: p + 1, open: st.open, failed: false })
            } else if c == ',' {
                if p + 1 < chars.len() && chars[p + 1 as int] == '@' {
                    (Some(Ok(TokenV::UnquoteSplicing)), LexState { pos: p + 2, open: st.open, failed: false })
                } else {
                    (Some(Ok(TokenV::Unquote)), LexState { pos: p + 1, open: st.open, failed: false })
                }
            } else if c == ';' {
                let e = line_end(chars, p + 1);
                (Some(Ok(TokenV::Comment(chars.subrange(p + 1 as int, e as int)))), LexState { pos: e, open: st.open, failed: false })
            } else {
                let (r, e) = spec_atom(chars, p);
                (Some(r), LexState { pos: e, open: st.open, failed: r is Err })
            }
        }
    }
}

/// A measure that every step of the lexer that yields a token decreases.
pub open spec fn lex_measure(chars: Seq<char>, st: LexState) -> int {
    (chars.len() - st.pos) * 2 + if st.failed { 0int } else { 1int }
}

/// All the tokens the lexer yields from state `st` until it yields `None`.
pub open spec fn spec_tokens(chars: Seq<char>, st: LexState) -> Seq<Result<TokenV, LexicalError>>
    decreases lex_measure(chars, st),
{
    let (t, st2) = spec_next(chars, st);
    match t {
        None => Seq::empty(),
        Some(r) => if 0 <= lex_measure(chars, st2) < lex_measure(chars, st) {
            seq![r] + spec_tokens(chars, st2)
        } else {
            seq![r]
        },
    }
}

/// The initial state of the lexer.
pub open spec fn lex_start() -> LexState {
    LexState { pos: 0, open: 0, failed: false }
}

/// The tokens of a source text.
pub open spec fn spec_lex(chars: Seq<char>) -> Seq<Result<TokenV, LexicalError>> {
    spec_tokens(chars, lex_start())
}

/// Reads a source text into tokens, one token at a time.
pub struct Lexer {
    chars: Vec<char>,
    pos: usize,
    open_paren_count: usize,
    has_error: bool,
}

impl Lexer {
    /// The characters of the source text.
    pub closed spec fn source(&self) -> Seq<char> {
        self.chars@
    }

    /// The state the lexer is in.
    pub closed spec fn state(&self) -> LexState {
        LexState { pos: self.pos as nat, open: self.open_paren_count as nat, failed: self.has_error }
    }

    pub closed spec fn wf(&self) -> bool {
        &&& self.pos <= self.chars@.len()
        &&& self.open_paren_count <= self.pos
    }

    /// A lexer at the start of `program`.
    pub fn new(program: &str) -> (l: Self)
        ensures
            l.wf(),
            l.source() == program@,
            l.state() == lex_start(),
    {
        Lexer { chars: chars_of(program), pos: 0, open_paren_count: 0, has_error: false }
    }

    fn skip_white_space(&self, i: usize) -> (r: usize)
        requires
            i <= self.chars@.len(),
        ensures
            r == skip_white_space(self.chars@, i as nat),
            i <= r <= self.chars@.len(),
        decreases self.chars@.len() - i,
    {
        if i < self.chars.len() && is_whitespace(self.chars[i]) {
            self.skip_white_space(i + 1)
        } else {
            i
        }
    }

    fn line_end(&self, i: usize) -> (r: usize)
        requires
            i <= self.chars@.len(),
        ensures
            r == line_end(self.chars@, i as nat),
            i <= r <= self.chars@.len(),
        decreases self.chars@.len() - i,
    {
        let mut j = i;
        while j < self.chars.len() && self.chars[j] != '\n'
            invariant
                i <= j <= self.chars@.len(),
                line_end(self.chars@, i as nat) == line_end(self.chars@, j as nat),
            decreases self.chars@.len() - j,
        {
            j = j + 1;
        }
        j
    }

    /// Reads the atom starting at `p`: its characters, whether a string was left open,
    /// and the position after it.
    fn scan_atom(&self, p: usize) -> (r: (Vec<char>, bool, usize))
        requires
            p <= self.chars@.len(),
        ensures
            (r.0@, r.1, r.2 as nat) == scan_atom(self.chars@, p as nat, false, Seq::empty()),
            p <= r.2 <= self.chars@.len(),
    {
        let mut acc: Vec<char> = Vec::new();
        let mut in_str = false;
        let mut i = p;
        while i < self.chars.len()
            invariant
                p <= i <= self.chars@.len(),
                scan_atom(self.chars@, p as nat, false, Seq::empty()) == scan_atom(
                    self.chars@,
                    i as nat,
                    in_str,
                    acc@,
                ),
            decreases self.chars@.len() - i,
        {
            let c = self.chars[i];
            if c == '"' {
                if in_str {
                    return (acc, false, i + 1);
                }
                in_str = true;
            } else if !in_str && (is_whitespace(c) || c == '(' || c == ')' || c == '\'') {
                return (acc, false, i);
            } else {
                acc.push(c);
            }
            i = i + 1;
        }
        (acc, in_str, i)
    }

    /// The token that an atom of text `t` stands for, when it did not start with `"`.
    fn classify_atom(t: Vec<char>) -> (r: Token)
        ensures
            r@ == classify_atom(t@),
    {
        let n = t.len();
        let is_true = (n == 2 && t[0] == '#' && t[1] == 't') || (n == 5 && t[0] == '#' && t[1]
            == 't' && t[2] == 'r' && t[3] == 'u' && t[4] == 'e');
        let is_false = (n == 2 && t[0] == '#' && t[1] == 'f') || (n == 6 && t[0] == '#' && t[1]
            == 'f' && t[2] == 'a' && t[3] == 'l' && t[4] == 's' && t[5] == 'e');
        assert(is_true == (t@ == seq!['#', 't'] || t@ == seq!['#', 't', 'r', 'u', 'e'])) by {
            if n == 2 && t@[0] == '#' && t@[1] == 't' {
                assert(t@ =~= seq!['#', 't']);
            }
            if n == 5 && t@[0] == '#' && t@[1] == 't' && t@[2] == 'r' && t@[3] == 'u' && t@[4] == 'e' {
                assert(t@ =~= seq!['#', 't', 'r', 'u', 'e']);
            }
        }
        assert(is_false == (t@ == seq!['#', 'f'] || t@ == seq!['#', 'f', 'a', 'l', 's', 'e'])) by {
            if n == 2 && t@[0] == '#' && t@[1] == 'f' {
                assert(t@ =~= seq!['#', 'f']);
            }
            if n == 6 && t@[0] == '#' && t@[1] == 'f' && t@[2] == 'a' && t@[3] == 'l' && t@[4]
                == 's' && t@[5] == 'e' {
                assert(t@ =~= seq!['#', 'f', 'a', 'l', 's', 'e']);
            }
        }
        if is_true {
            return Token::Boolean(true);
        }
        if is_false {
            return Token::Boolean(false);
        }
        if n == 3 && t[0] == '#' && t[1] == '\\' {
            return Token::Char(t[2]);
        }
        if n == 1 && t[0] == '.' {
            assert(t@ =~= seq!['.']);
            return Token::Dot;
        }
        assert(t@ != seq!['.']);
        match parse_i64(t.as_slice()) {
            Some(v) => Token::Integer(v),
            None => {
                let s = string_from_chars(t.as_slice(), 0, n);
                assert(t@.subrange(0, n as int) =~= t@);
                if check_float_literal(t.as_slice()) {
                    Token::Float(s)
                } else {
                    Token::Symbol(s)
                }
            },
        }
    }

    /// Reads the next token, or `None` at the end of the text and after an error.
    pub fn next_token(&mut self) -> (r: Option<LexResult>)
        requires
            old(self).wf(),
        ensures
            final(self).wf(),
            final(self).source() == old(self).source(),
            (match r {
                Some(t) => Some(lex_result_view(t)),
                None => None,
            }) == spec_next(old(self).source(), old(self).state()).0,
            final(self).state() == spec_next(old(self).source(), old(self).state()).1,
    {
        if self.has_error {
            return None;
        }
        let p = self.skip_white_space(self.pos);
        let n = self.chars.len();
        if p >= n {
            self.pos = p;
            if self.open_paren_count > 0 {
                self.has_error = true;
                return Some(Err(LexicalError::UnexpectedEOF));
            }
            return None;
        }
        let c = self.chars[p];
        if c == '(' {
            self.pos = p + 1;
            self.open_paren_count = self.open_paren_count + 1;
            Some(Ok(Token::LParen))
        } else if c == ')' {
            self.pos = p + 1;
            if self.open_paren_count == 0 {
                self.has_error = true;
                Some(Err(LexicalError::UnexpectedRParen))
            } else {
                self.open_paren_count = self.open_paren_count - 1;
                Some(Ok(Token::RParen))
            }
        } else if c == '\'' {
            self.pos = p + 1;
            Some(Ok(Token::Quote))
        } else if c == '`' {
            self.pos = p + 1;
            Some(Ok(Token::Quasiquote))
        } else if c == ',' {
            if p + 1 < n && self.chars[p + 1] == '@' {
                self.pos = p + 2;
                Some(Ok(Token::UnquoteSplicing))
            } else {
                self.pos = p + 1;
                Some(Ok(Token::Unquote))
            }
        } else if c == ';' {
            let e = self.line_end(p + 1);
            let text = string_from_chars(self.chars.as_slice(), p + 1, e);
            self.pos = e;
            Some(Ok(Token::Comment(text)))
        } else {
            let (t, open_str, e) = self.scan_atom(p);
            self.pos = e;
            if open_str {
                self.has_error = true;
                Some(Err(LexicalError::UnclosedString))
            } else if c == '"' {
                let n = t.len();
                let s = string_from_chars(t.as_slice(), 0, n);
                assert(t@.subrange(0, n as int) =~= t@);
                Some(Ok(Token::String(s)))
            } else {
                Some(Ok(Self::classify_atom(t)))
            }
        }
    }

    /// All the tokens that remain, up to the end of the text or the first error.
    pub fn into_tokens(self) -> (v: Vec<LexResult>)
        requires
            self.wf(),
        ensures
            lex_results_view(v@) == spec_tokens(self.source(), self.state()),
    {
        let mut lexer = self;
        let ghost chars = lexer.source();
        let ghost st0 = lexer.state();
        let mut out: Vec<LexResult> = Vec::new();
        loop
            invariant
                lexer.wf(),
                lexer.source() == chars,
                chars == self.source(),
                st0 == self.state(),
                lex_results_view(out@) + spec_tokens(chars, lexer.state()) == spec_tokens(
                    chars,
                    st0,
                ),
            decreases lex_measure(chars, lexer.state()),
        {
            let ghost st = lexer.state();
            proof {
                lemma_step_decreases(chars, st);
            }
            match lexer.next_token() {
                None => {
                    assert(spec_tokens(chars, st) == Seq::<Result<TokenV, LexicalError>>::empty());
                    assert(lex_results_view(out@) =~= lex_results_view(out@) + spec_tokens(chars, st));
                    return out;
                },
                Some(t) => {
                    let ghost before = out@;
                    out.push(t);
                    assert(lex_results_view(out@) =~= lex_results_view(before) + seq![
                        lex_result_view(t),
                    ]);
                    assert(spec_tokens(chars, st) == seq![lex_result_view(t)] + spec_tokens(
                        chars,
                        lexer.state(),
                    ));
                },
            }
        }
    }
}

proof fn lemma_skip_white_space_bounds(chars: Seq<char>, i: nat)
    requires
        i <= chars.len(),
    ensures
        i <= skip_white_space(chars, i) <= chars.len(),
        skip_white_space(chars, i) < chars.len() ==> !is_white_space(
            chars[skip_white_space(chars, i) as int],
        ),
    decreases chars.len() - i,
{
    if i < chars.len() && is_white_space(chars[i as int]) {
        lemma_skip_white_space_bounds(chars, i + 1);
    }
}

proof fn lemma_line_end_bounds(chars: Seq<char>, i: nat)
    requires
        i <= chars.len(),
    ensures
        i <= line_end(chars, i) <= chars.len(),
    decreases chars.len() - i,
{
    if i < chars.len() && chars[i as int] != '\n' {
        lemma_line_end_bounds(chars, i + 1);
    }
}

proof fn lemma_scan_atom_bounds(chars: Seq<char>, i: nat, in_str: bool, acc: Seq<char>)
    requires
        i <= chars.len(),
    ensures
        i <= scan_atom(chars, i, in_str, acc).2 <= chars.len(),
        in_str && i < chars.len() ==> i < scan_atom(chars, i, in_str, acc).2,
        scan_atom(chars, i, in_str, acc).1 ==> scan_atom(chars, i, in_str, acc).2 == chars.len(),
    decreases chars.len() - i,
{
    if i < chars.len() {
        let c = chars[i as int];
        if c == '"' {
            if !in_str {
                lemma_scan_atom_bounds(chars, i + 1, true, acc);
            }
        } else if !in_str && is_delimiter(c) {
        } else {
            lemma_scan_atom_bounds(chars, i + 1, in_str, acc.push(c));
        }
    }
}

/// Every step that yields a token leaves the lexer in a state of smaller measure, and the
/// lexer never moves past the end of the text.
pub proof fn lemma_step_decreases(chars: Seq<char>, st: LexState)
    requires
        st.pos <= chars.len(),
    ensures
        spec_next(chars, st).1.pos <= chars.len(),
        spec_next(chars, st).0 is Some ==> 0 <= lex_measure(chars, spec_next(chars, st).1)
            < lex_measure(chars, st),
{
    if !st.failed {
        lemma_skip_white_space_bounds(chars, st.pos);
        let p = skip_white_space(chars, st.pos);
        if p < chars.len() {
            lemma_line_end_bounds(chars, p + 1);
            lemma_scan_atom_bounds(chars, p, false, Seq::empty());
            let c = chars[p as int];
            if c == '"' {
                lemma_scan_atom_bounds(chars, p + 1, true, Seq::empty());
            } else {
                lemma_scan_atom_bounds(chars, p + 1, false, Seq::empty().push(c));
            }
        }
    }
}

} // verus!

verus! {

/// The reader reads an integer's display back as that integer.
pub proof fn lemma_read_displayed_integer(i: i64)
    ensures
        classify_atom(crate::text::int_decimal(i as int)) == TokenV::Integer(i),
{
    crate::text::lemma_parse_int_decimal(i);
    let t = crate::text::int_decimal(i as int);
    if i < 0 {
        crate::text::lemma_decimal_digits((-(i as int)) as nat);
        assert(t[0] == '-');
    } else {
        crate::text::lemma_decimal_digits(i as nat);
        assert(crate::text::is_ascii_digit(t[0]));
    }
    assert(t != seq!['#', 't'] && t != seq!['#', 't', 'r', 'u', 'e']);
    assert(t != seq!['#', 'f'] && t != seq!['#', 'f', 'a', 'l', 's', 'e']);
    assert(t != seq!['.']);
}

/// How a token changes the depth of parentheses.
pub open spec fn paren_weight(r: Result<TokenV, LexicalError>) -> int {
    match r {
        Ok(TokenV::LParen) => 1,
        Ok(TokenV::RParen) => -1,
        _ => 0,
    }
}

/// The opening minus the closing parentheses among `toks`.
pub open spec fn paren_depth(toks: Seq<Result<TokenV, LexicalError>>) -> int
    decreases toks.len(),
{
    if toks.len() == 0 {
        0
    } else {
        paren_weight(toks[0]) + paren_depth(toks.drop_first())
    }
}

/// Whether no token of `toks` is an error.
pub open spec fn no_error(toks: Seq<Result<TokenV, LexicalError>>) -> bool {
    forall|i: int| 0 <= i < toks.len() ==> #[trigger] toks[i] is Ok
}

/// From a state in which `open` parentheses are open, the lexer yields at most one error, as
/// its last token; and where it yields none, every prefix of its tokens leaves at least as
/// many parentheses closed as it opens beyond `open`, and all of them leave every one closed.
pub proof fn lemma_tokens_shape(chars: Seq<char>, st: LexState)
    requires
        st.pos <= chars.len(),
    ensures
        forall|i: int| 0 <= i < spec_tokens(chars, st).len() - 1 ==> #[trigger] spec_tokens(chars, st)[i] is Ok,
        !st.failed && no_error(spec_tokens(chars, st)) ==> st.open + paren_depth(spec_tokens(chars, st)) == 0,
        !st.failed && no_error(spec_tokens(chars, st)) ==> forall|k: int|
            0 <= k <= spec_tokens(chars, st).len() ==> st.open + paren_depth(
                #[trigger] spec_tokens(chars, st).take(k),
            ) >= 0,
    decreases lex_measure(chars, st),
{
    let toks = spec_tokens(chars, st);
    let (t, st2) = spec_next(chars, st);
    lemma_step_decreases(chars, st);
    match t {
        None => {
            assert(toks.len() == 0);
            assert forall|k: int| 0 <= k <= toks.len() implies st.open + paren_depth(#[trigger] toks.take(k)) >= 0 by {
                assert(toks.take(k).len() == 0);
            }
        },
        Some(r) => {
            let rest = spec_tokens(chars, st2);
            assert(toks == seq![r] + rest);
            if r is Err {
                assert(st2.failed);
                assert(rest.len() == 0);
            }
            lemma_tokens_shape(chars, st2);
            assert forall|i: int| 0 <= i < toks.len() - 1 implies #[trigger] toks[i] is Ok by {
                if i > 0 {
                    assert(toks[i] == rest[i - 1]);
                }
            }
            assert(toks.drop_first() =~= rest);
            if !st.failed && no_error(toks) {
                assert(r is Ok) by {
                    assert(toks[0] == r);
                }
                assert(!st2.failed);
                assert forall|i: int| 0 <= i < rest.len() implies #[trigger] rest[i] is Ok by {
                    assert(toks[i + 1] == rest[i]);
                }
                assert(st2.open == st.open + paren_weight(r));
                assert forall|k: int| 0 <= k <= toks.len() implies st.open + paren_depth(#[trigger] toks.take(k)) >= 0 by {
                    if k > 0 {
                        assert(toks.take(k).drop_first() =~= rest.take(k - 1));
                        assert(toks.take(k)[0] == r);
                        assert(st2.open + paren_depth(rest.take(k - 1)) >= 0);
                    } else {
                        assert(toks.take(k).len() == 0);
                    }
                }
            }
        },
    }
}

/// The tokens of a source text hold at most one error, as the last; and where they hold
/// none, their parentheses balance: no prefix closes more than it opens, and the whole
/// closes all it opens.
pub proof fn lemma_lex_shape(chars: Seq<char>)
    ensures
        forall|i: int| 0 <= i < spec_lex(chars).len() - 1 ==> #[trigger] spec_lex(chars)[i] is Ok,
        no_error(spec_lex(chars)) ==> paren_depth(spec_lex(chars)) == 0,
        no_error(spec_lex(chars)) ==> forall|k: int|
            0 <= k <= spec_lex(chars).len() ==> paren_depth(#[trigger] spec_lex(chars).take(k)) >= 0,
{
    lemma_tokens_shape(chars, lex_start());
}

proof fn lemma_scan_string_rest(chars: Seq<char>, p: nat, t: Seq<char>, k: nat)
    requires
        k <= t.len(),
        p + t.len() + 1 < chars.len(),
        forall|i: int| 0 <= i < t.len() ==> chars[p + 1 + i] == #[trigger] t[i] && t[i] != '"',
        chars[(p + 1 + t.len()) as int] == '"',
    ensures
        scan_atom(chars, p + 1 + k, true, t.take(k as int)) == (t, false, p + t.len() + 2),
    decreases t.len() - k,
{
    if k < t.len() {
        assert(chars[(p + 1 + k) as int] == t[k as int]);
        assert(t.take(k as int).push(t[k as int]) =~= t.take((k + 1) as int));
        lemma_scan_string_rest(chars, p, t, k + 1);
    } else {
        assert(t.take(k as int) =~= t);
    }
}

/// A string literal is read whole: where a `"` stands at position `p`, followed by the
/// characters of `t`, none of them a `"`, and a closing `"`, the lexer reads there the string
/// token of `t` (parentheses, quotes and white space inside it included) and goes on after the
/// closing `"`; and a text that is only that literal is lexed as that one token.
pub proof fn lemma_string_literal(chars: Seq<char>, p: nat, t: Seq<char>)
    requires
        p + t.len() + 1 < chars.len(),
        chars[p as int] == '"',
        forall|i: int| 0 <= i < t.len() ==> chars[p + 1 + i] == #[trigger] t[i] && t[i] != '"',
        chars[(p + 1 + t.len()) as int] == '"',
    ensures
        spec_atom(chars, p) == (Ok::<TokenV, LexicalError>(TokenV::Str(t)), p + t.len() + 2),
        chars == seq!['"'] + t + seq!['"'] ==> spec_lex(chars) == seq![Ok::<TokenV, LexicalError>(TokenV::Str(t))],
{
    lemma_scan_string_rest(chars, p, t, 0);
    assert(t.take(0) =~= Seq::<char>::empty());
    if chars == seq!['"'] + t + seq!['"'] {
        let st = lex_start();
        assert(!is_white_space(chars[0]));
        assert(skip_white_space(chars, 0) == 0);
        let (tok, st2) = spec_next(chars, st);
        assert(st2 == LexState { pos: chars.len(), open: 0, failed: false });
        lemma_step_decreases(chars, st);
        assert(skip_white_space(chars, chars.len()) == chars.len());
        let (tok2, st3) = spec_next(chars, st2);
        assert(tok2 is None);
        assert(spec_tokens(chars, st2) == Seq::<Result<TokenV, LexicalError>>::empty());
        assert(spec_lex(chars) =~= seq![Ok::<TokenV, LexicalError>(TokenV::Str(t))]);
    }
}

proof fn lemma_scan_atom_rest(chars: Seq<char>, p: nat, t: Seq<char>, k: nat)
    requires
        k <= t.len(),
        p + t.len() <= chars.len(),
        forall|i: int| 0 <= i < t.len() ==> chars[p + i] == #[trigger] t[i] && t[i] != '"' && !is_delimiter(t[i]),
        p + t.len() == chars.len() || is_delimiter(chars[(p + t.len()) as int]),
    ensures
        scan_atom(chars, p + k, false, t.take(k as int)) == (t, false, p + t.len()),
    decreases t.len() - k,
{
    if k < t.len() {
        assert(chars[(p + k) as int] == t[k as int]);
        assert(t.take(k as int).push(t[k as int]) =~= t.take((k + 1) as int));
        lemma_scan_atom_rest(chars, p, t, k + 1);
    } else {
        assert(t.take(k as int) =~= t);
    }
}

/// An atom is read whole: where the characters of a non-empty `t`, none of them a `"` or a
/// delimiter, stand at position `p` and are followed by a delimiter or the end of the text,
/// the lexer reads there the token that `t` stands for and goes on right after it. Among
/// those tokens, `#t` and `#f` are the booleans and `#\` followed by one character is
/// that character.
pub proof fn lemma_atom_read(chars: Seq<char>, p: nat, t: Seq<char>, x: char)
    requires
        t.len() > 0,
        p + t.len() <= chars.len(),
        forall|i: int| 0 <= i < t.len() ==> chars[p + i] == #[trigger] t[i] && t[i] != '"' && !is_delimiter(t[i]),
        p + t.len() == chars.len() || is_delimiter(chars[(p + t.len()) as int]),
    ensures
        spec_atom(chars, p) == (Ok::<TokenV, LexicalError>(classify_atom(t)), p + t.len()),
        classify_atom(seq!['#', 't']) == TokenV::Boolean(true),
        classify_atom(seq!['#', 'f']) == TokenV::Boolean(false),
        classify_atom(seq!['#', '\\', x]) == TokenV::Char(x),
{
    lemma_scan_atom_rest(chars, p, t, 0);
    assert(t.take(0) =~= Seq::<char>::empty());
    assert(chars[p as int] == t[0]);
    assert(seq!['#', '\\', x] != seq!['#', 't']);
    assert(seq!['#', '\\', x] != seq!['#', 't', 'r', 'u', 'e']);
    assert(seq!['#', '\\', x] != seq!['#', 'f']);
    assert(seq!['#', '\\', x] != seq!['#', 'f', 'a', 'l', 's', 'e']);
}

} // verus!
