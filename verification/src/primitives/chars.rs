//! Characters, and the conversions between numbers, strings and characters.
use crate::error::{outcome, runtime_error, EvalError};
use crate::expr::{display, kind_name, lemma_view_variant, push_str_lit, Expr, ExprV};
use crate::primitives::nums::in_i64;
use crate::text::{
    ascii_lower, chars_of, check_float_literal, is_float_literal, is_white_space, is_whitespace,
    parse_i64, push_char, spec_parse_i64,
};
use vstd::prelude::*;

verus! {

/// Whether `c` has the Unicode `Alphabetic` property, as `char::is_alphabetic` tells.
pub uninterp spec fn unicode_alphabetic(c: char) -> bool;

/// Whether `c` is in one of the Unicode general categories for numbers (`Nd`, `Nl`, `No`),
/// as `char::is_numeric` tells.
pub uninterp spec fn unicode_numeric(c: char) -> bool;

/// Calls `char::is_alphabetic`, which the standard library documents as telling whether
/// `c` has the `Alphabetic` property; the result is that property, named.
#[verifier::external_body]
fn char_is_alphabetic(c: char) -> (b: bool)
    ensures
        b == unicode_alphabetic(c),
{
    c.is_alphabetic()
}

/// Calls `char::is_numeric`, which the standard library documents as telling whether `c`
/// is in a general category for numbers; the result is that property, named.
#[verifier::external_body]
fn char_is_numeric(c: char) -> (b: bool)
    ensures
        b == unicode_numeric(c),
{
    c.is_numeric()
}

/// ASCII upper-casing of one character.
pub open spec fn ascii_upper(c: char) -> char {
    if 'a' <= c <= 'z' {
        ((c as u32) - 32) as char
    } else {
        c
    }
}

/// The character operations.
#[derive(PartialEq, Eq, Debug, Clone, Copy, Structural)]
pub enum CharOp {
    Upcase,
    Downcase,
    Foldcase,
    IsWhitespace,
    IsUpperCase,
    IsLowerCase,
    IsAlphabetic,
    IsNumeric,
    DigitValue,
}

/// What a character operation gives for the character `c`.
pub open spec fn char_op_value(op: CharOp, c: char) -> Result<ExprV, Seq<char>> {
    match op {
        CharOp::Upcase => Ok(ExprV::Char(ascii_upper(c))),
        CharOp::Downcase => Ok(ExprV::Char(ascii_lower(c))),
        CharOp::Foldcase => Ok(ExprV::Char(ascii_lower(c))),
        CharOp::IsWhitespace => Ok(ExprV::Boolean(is_white_space(c))),
        CharOp::IsUpperCase => Ok(ExprV::Boolean('A' <= c <= 'Z')),
        CharOp::IsLowerCase => Ok(ExprV::Boolean('a' <= c <= 'z')),
        CharOp::IsAlphabetic => Ok(ExprV::Boolean(unicode_alphabetic(c))),
        CharOp::IsNumeric => Ok(ExprV::Boolean(unicode_numeric(c))),
        CharOp::DigitValue => if '0' <= c <= '9' {
            Ok(ExprV::Integer((c as u32 - '0' as u32) as i64))
        } else if unicode_numeric(c) {
            Err("digit-value expected a decimal digit"@)
        } else {
            Ok(ExprV::Boolean(false))
        },
    }
}

/// Whether the character predicate `op` holds of `c`, as `char-upper-case?` and the others
/// answer it.
pub open spec fn char_test_holds(op: CharOp, c: char) -> bool {
    char_op_spec(op, ExprV::Char(c)) == Ok::<ExprV, Seq<char>>(ExprV::Boolean(true))
}

/// The character that the case mapping `op` gives for `c`.
pub open spec fn char_mapped(op: CharOp, c: char) -> char {
    char_op_spec(op, ExprV::Char(c))->Ok_0->Char_0
}

/// The case procedures on ASCII letters: `char-upper-case?` holds exactly of `A`..`Z` and
/// `char-lower-case?` exactly of `a`..`z`; `char-upcase` of a letter gives an upper-case
/// letter and `char-downcase` a lower-case one, the two undo each other, and `char-foldcase`
/// is `char-downcase`; an upper-case letter is its own upcase, a lower-case one its own
/// downcase; and no character is both upper- and lower-case.
pub proof fn lemma_char_case(c: char)
    ensures
        char_op_spec(CharOp::Upcase, ExprV::Char(c)) matches Ok(ExprV::Char(_)),
        char_op_spec(CharOp::Downcase, ExprV::Char(c)) matches Ok(ExprV::Char(_)),
        char_test_holds(CharOp::IsUpperCase, c) == ('A' <= c && c <= 'Z'),
        char_test_holds(CharOp::IsLowerCase, c) == ('a' <= c && c <= 'z'),
        !(char_test_holds(CharOp::IsUpperCase, c) && char_test_holds(CharOp::IsLowerCase, c)),
        char_test_holds(CharOp::IsUpperCase, c) || char_test_holds(CharOp::IsLowerCase, c) ==> {
            &&& char_test_holds(CharOp::IsUpperCase, char_mapped(CharOp::Upcase, c))
            &&& char_test_holds(CharOp::IsLowerCase, char_mapped(CharOp::Downcase, c))
            &&& char_mapped(CharOp::Upcase, char_mapped(CharOp::Downcase, c)) == char_mapped(CharOp::Upcase, c)
            &&& char_mapped(CharOp::Downcase, char_mapped(CharOp::Upcase, c)) == char_mapped(CharOp::Downcase, c)
        },
        char_test_holds(CharOp::IsUpperCase, c) ==> char_mapped(CharOp::Upcase, c) == c
            && char_mapped(CharOp::Downcase, c) != c,
        char_test_holds(CharOp::IsLowerCase, c) ==> char_mapped(CharOp::Downcase, c) == c
            && char_mapped(CharOp::Upcase, c) != c,
        !char_test_holds(CharOp::IsUpperCase, c) && !char_test_holds(CharOp::IsLowerCase, c)
            ==> char_mapped(CharOp::Upcase, c) == c && char_mapped(CharOp::Downcase, c) == c,
        char_op_spec(CharOp::Foldcase, ExprV::Char(c)) == char_op_spec(CharOp::Downcase, ExprV::Char(c)),
{
    if 'a' <= c && c <= 'z' {
        let u = ((c as u32) - 32) as char;
        assert((u as u32) == (c as u32) - 32);
        assert('A' <= u && u <= 'Z');
        assert(((u as u32) + 32) as char == c) by {
            vstd::utf8::char_u32_cast(c, c as u32);
        }
    } else if 'A' <= c && c <= 'Z' {
        let l = ((c as u32) + 32) as char;
        assert((l as u32) == (c as u32) + 32);
        assert('a' <= l && l <= 'z');
        assert(((l as u32) - 32) as char == c) by {
            vstd::utf8::char_u32_cast(c, c as u32);
        }
    }
}

/// `digit-value` gives the value of a decimal digit: the character `d` places after `0`
/// gives `d`, for every `d < 10`; a character that is no decimal digit gives no number.
pub proof fn lemma_digit_value(d: nat, c: char)
    requires
        d < 10,
    ensures
        char_op_spec(CharOp::DigitValue, ExprV::Char((d + ('0' as nat)) as char)) == Ok::<ExprV, Seq<char>>(
            ExprV::Integer(d as i64),
        ),
        !('0' <= c && c <= '9') ==> !(char_op_spec(CharOp::DigitValue, ExprV::Char(c)) matches Ok(
            ExprV::Integer(_),
        )),
{
    let x = (d + ('0' as nat)) as char;
    assert((x as nat) == d + ('0' as nat));
    assert('0' <= x && x <= '9');
}

/// What a character operation gives for the argument `e`.
pub open spec fn char_op_spec(op: CharOp, e: ExprV) -> Result<ExprV, Seq<char>> {
    match e {
        ExprV::Char(c) => char_op_value(op, c),
        _ => Err("Expected a character"@),
    }
}

pub fn char_op_fn(op: CharOp, e: &Expr) -> (r: Result<Expr, EvalError>)
    ensures
        outcome(r, char_op_spec(op, e@)),
{
    proof {
        lemma_view_variant(*e);
        reveal_strlit("Expected a character");
        reveal_strlit("digit-value expected a decimal digit");
    }
    let c = match e {
        Expr::Char(c) => *c,
        _ => {
            return Err(runtime_error(String::from_str("Expected a character")));
        },
    };
    match op {
        CharOp::Upcase => Ok(Expr::Char(if 'a' <= c && c <= 'z' {
            ((c as u8) - 32) as char
        } else {
            c
        })),
        CharOp::Downcase | CharOp::Foldcase => Ok(Expr::Char(if 'A' <= c && c <= 'Z' {
            ((c as u8) + 32) as char
        } else {
            c
        })),
        CharOp::IsWhitespace => Ok(Expr::Boolean(is_whitespace(c))),
        CharOp::IsUpperCase => Ok(Expr::Boolean('A' <= c && c <= 'Z')),
        CharOp::IsLowerCase => Ok(Expr::Boolean('a' <= c && c <= 'z')),
        CharOp::IsAlphabetic => Ok(Expr::Boolean(char_is_alphabetic(c))),
        CharOp::IsNumeric => Ok(Expr::Boolean(char_is_numeric(c))),
        CharOp::DigitValue => if '0' <= c && c <= '9' {
            Ok(Expr::Integer(((c as u8) - 48) as i64))
        } else if char_is_numeric(c) {
            Err(runtime_error(String::from_str("digit-value expected a decimal digit")))
        } else {
            Ok(Expr::Boolean(false))
        },
    }
}

/// What `char->integer` gives: the code point.
pub open spec fn char_to_integer_spec(e: ExprV) -> Result<ExprV, Seq<char>> {
    match e {
        ExprV::Char(c) => Ok(ExprV::Integer(c as u32 as i64)),
        _ => Err("char->integer is only supported for char arguments"@),
    }
}

pub fn char_to_integer_fn(e: &Expr) -> (r: Result<Expr, EvalError>)
    ensures
        outcome(r, char_to_integer_spec(e@)),
{
    proof {
        lemma_view_variant(*e);
        reveal_strlit("char->integer is only supported for char arguments");
    }
    match e {
        Expr::Char(c) => Ok(Expr::Integer((*c as u32) as i64)),
        _ => Err(runtime_error(String::from_str("char->integer is only supported for char arguments"))),
    }
}

} // verus!

verus! {

/// The digit for `d` in a radix up to 36: `0`-`9`, then upper-case letters.
pub open spec fn radix_digit_char(d: nat) -> char {
    if d < 10 {
        (d + '0' as nat) as char
    } else {
        (d - 10 + 'A' as nat) as char
    }
}

/// The digits of `m` in radix `r`, without leading zeros.
pub open spec fn radix_digits(m: nat, r: nat) -> Seq<char>
    decreases m,
{
    if r < 2 || m < r {
        seq![radix_digit_char(m)]
    } else {
        proof {
            assert(m / r < m) by (nonlinear_arith)
                requires
                    r >= 2,
                    m >= r,
            ;
        }
        radix_digits(m / r, r).push(radix_digit_char(m % r))
    }
}

/// The representation of `n` in radix `r`, with a `-` for a negative number.
pub open spec fn radix_text(n: int, r: nat) -> Seq<char> {
    if n < 0 {
        seq!['-'] + radix_digits((-n) as nat, r)
    } else {
        radix_digits(n as nat, r)
    }
}

pub open spec fn valid_radix(r: i64) -> bool {
    r == 2 || r == 8 || r == 10 || r == 16
}

/// The radix an optional argument asks for, or the message of the error.
pub open spec fn radix_spec(arg: Option<ExprV>) -> Result<nat, Seq<char>> {
    match arg {
        None => Ok(10),
        Some(ExprV::Integer(r)) => if valid_radix(r) {
            Ok(r as nat)
        } else {
            Err("radix must be one of 2, 8, 10, or 16, got "@ + kind_name(ExprV::Integer(r)))
        },
        Some(e) => Err("radix must be one of 2, 8, 10, or 16, got "@ + kind_name(e)),
    }
}

/// What `number->string` gives. An inexact number is shown by its text.
pub open spec fn number_to_string_spec(n: ExprV, radix: Option<ExprV>) -> Result<ExprV, Seq<char>> {
    match radix_spec(radix) {
        Err(m) => Err(m),
        Ok(r) => match n {
            ExprV::Integer(i) => Ok(ExprV::Str(radix_text(i as int, r))),
            ExprV::Float(s) => if r == 10 {
                Ok(ExprV::Str(display(n)))
            } else {
                Err("number->string is only supported for integers and inexact numbers with radix 10"@)
            },
            _ => Err("number->string is only supported for integers and inexact numbers with radix 10"@),
        },
    }
}

fn radix_of(arg: Option<&Expr>) -> (r: Result<u64, EvalError>)
    ensures
        match radix_spec(match arg {
            Some(e) => Some(e@),
            None => None,
        }) {
            Ok(v) => r is Ok && r->Ok_0 == v,
            Err(m) => r is Err && r->Err_0.message() == m,
        },
{
    proof {
        reveal_strlit("radix must be one of 2, 8, 10, or 16, got ");
    }
    match arg {
        None => Ok(10),
        Some(e) => {
            proof {
                lemma_view_variant(*e);
            }
            match e {
                Expr::Integer(r) => if *r == 2 || *r == 8 || *r == 10 || *r == 16 {
                    Ok(*r as u64)
                } else {
                    Err(crate::primitives::data::kind_error("radix must be one of 2, 8, 10, or 16, got ", e))
                },
                _ => Err(crate::primitives::data::kind_error("radix must be one of 2, 8, 10, or 16, got ", e)),
            }
        },
    }
}

fn push_radix_digits(s: &mut String, m: u64, r: u64)
    requires
        2 <= r <= 16,
    ensures
        final(s)@ == old(s)@ + radix_digits(m as nat, r as nat),
    decreases m,
{
    if m >= r {
        assert(m / r < m) by (nonlinear_arith)
            requires
                r >= 2,
                m >= r,
        ;
        push_radix_digits(s, m / r, r);
    }
    let d = m % r;
    let c = if d < 10 {
        ((d as u8) + 48) as char
    } else {
        ((d as u8) - 10 + 65) as char
    };
    push_char(s, c);
    proof {
        if m >= r {
            assert(final(s)@ =~= old(s)@ + radix_digits(m as nat, r as nat));
        } else {
            assert(m % r == m) by (nonlinear_arith)
                requires
                    m < r,
                    r > 0,
            ;
            assert(final(s)@ =~= old(s)@ + radix_digits(m as nat, r as nat));
        }
    }
}

pub fn number_to_string_fn(n: &Expr, radix: Option<&Expr>) -> (r: Result<Expr, EvalError>)
    ensures
        outcome(r, number_to_string_spec(n@, match radix {
            Some(e) => Some(e@),
            None => None,
        })),
{
    proof {
        lemma_view_variant(*n);
        reveal_strlit("number->string is only supported for integers and inexact numbers with radix 10");
    }
    let r = match radix_of(radix) {
        Ok(r) => r,
        Err(e) => {
            return Err(e);
        },
    };
    match n {
        Expr::Integer(i) => {
            let mut s = String::new();
            let m: u64 = if *i >= 0 {
                *i as u64
            } else {
                push_char(&mut s, '-');
                if *i == i64::MIN {
                    0x8000_0000_0000_0000u64
                } else {
                    (-*i) as u64
                }
            };
            push_radix_digits(&mut s, m, r);
            proof {
                assert(s@ =~= radix_text(*i as int, r as nat));
            }
            Ok(Expr::String(s))
        },
        Expr::Float(_) => if r == 10 {
            Ok(Expr::String(n.to_string()))
        } else {
            Err(runtime_error(String::from_str("number->string is only supported for integers and inexact numbers with radix 10")))
        },
        _ => Err(runtime_error(String::from_str("number->string is only supported for integers and inexact numbers with radix 10"))),
    }
}


/// The value of the digit `c` in radix `r`, if it is one: `0`-`9`, then letters of
/// either case.
pub open spec fn digit_in_radix(c: char, r: nat) -> Option<nat> {
    let d: int = if '0' <= c <= '9' {
        c as int - '0' as int
    } else if 'a' <= c <= 'z' {
        c as int - 'a' as int + 10
    } else if 'A' <= c <= 'Z' {
        c as int - 'A' as int + 10
    } else {
        r as int
    };
    if 0 <= d < r {
        Some(d as nat)
    } else {
        None
    }
}

/// The value of the digits `s` in radix `r`, if each is a digit.
pub open spec fn radix_value(s: Seq<char>, r: nat) -> Option<nat>
    decreases s.len(),
{
    if s.len() == 0 {
        Some(0)
    } else {
        match (radix_value(s.drop_last(), r), digit_in_radix(s.last(), r)) {
            (Some(v), Some(d)) => Some(v * r + d),
            _ => None,
        }
    }
}

/// What `i64::from_str_radix` gives: an optional sign, then at least one digit, and a
/// value within the range of `i64`.
pub open spec fn spec_from_str_radix(s: Seq<char>, r: nat) -> Option<i64> {
    let neg = s.len() > 0 && s[0] == '-';
    let body = if s.len() > 0 && (s[0] == '+' || s[0] == '-') {
        s.drop_first()
    } else {
        s
    };
    if body.len() == 0 {
        None
    } else {
        match radix_value(body, r) {
            Some(v) => {
                let x: int = if neg {
                    -(v as int)
                } else {
                    v as int
                };
                if in_i64(x) {
                    Some(x as i64)
                } else {
                    None
                }
            },
            None => None,
        }
    }
}

proof fn lemma_radix_value_push(s: Seq<char>, c: char, r: nat)
    ensures
        radix_value(s.push(c), r) == match (radix_value(s, r), digit_in_radix(c, r)) {
            (Some(v), Some(d)) => Some(v * r + d),
            _ => None,
        },
{
    assert(s.push(c).drop_last() =~= s);
}

proof fn lemma_radix_value_none(s: Seq<char>, t: Seq<char>, r: nat)
    requires
        radix_value(s, r) is None,
    ensures
        radix_value(s + t, r) is None,
    decreases t.len(),
{
    if t.len() == 0 {
        assert(s + t =~= s);
    } else {
        lemma_radix_value_none(s, t.drop_last(), r);
        assert((s + t).drop_last() =~= s + t.drop_last());
    }
}

/// `i64::from_str_radix(s, r)`.
#[verifier::rlimit(40)]
fn from_str_radix(s: &[char], r: u64) -> (res: Option<i64>)
    requires
        2 <= r <= 16,
    ensures
        res == spec_from_str_radix(s@, r as nat),
{
    let n = s.len();
    let mut start: usize = 0;
    let neg = n > 0 && s[0] == '-';
    if n > 0 && (s[0] == '+' || s[0] == '-') {
        start = 1;
    }
    let ghost body = s@.subrange(start as int, n as int);
    proof {
        if start == 1 {
            assert(body =~= s@.drop_first());
        } else {
            assert(body =~= s@);
        }
    }
    if start >= n {
        return None;
    }
    let mut acc: u128 = 0;
    let mut big = false;
    let mut i = start;
    while i < n
        invariant
            start <= i <= n,
            n == s@.len(),
            2 <= r <= 16,
            body == s@.subrange(start as int, n as int),
            body == (if s@.len() > 0 && (s@[0] == '+' || s@[0] == '-') {
                s@.drop_first()
            } else {
                s@
            }),
            body.len() > 0,
            radix_value(s@.subrange(start as int, i as int), r as nat) is Some,
            !big ==> acc == radix_value(s@.subrange(start as int, i as int), r as nat)->0,
            !big ==> acc <= 0x8000_0000_0000_0000u128,
            big ==> radix_value(s@.subrange(start as int, i as int), r as nat)->0 > 0x8000_0000_0000_0000u128,
        decreases n - i,
    {
        let c = s[i];
        let d: u64 = if '0' <= c && c <= '9' {
            (c as u32 - 48) as u64
        } else if 'a' <= c && c <= 'z' {
            (c as u32 - 97 + 10) as u64
        } else if 'A' <= c && c <= 'Z' {
            (c as u32 - 65 + 10) as u64
        } else {
            r
        };
        proof {
            lemma_radix_value_push(s@.subrange(start as int, i as int), c, r as nat);
            assert(s@.subrange(start as int, i + 1) =~= s@.subrange(start as int, i as int).push(c));
        }
        if d >= r {
            proof {
                assert(digit_in_radix(c, r as nat) is None);
                lemma_radix_value_none(s@.subrange(start as int, i + 1), s@.subrange(i + 1, n as int), r as nat);
                assert(s@.subrange(start as int, i + 1) + s@.subrange(i + 1, n as int) =~= body);
            }
            return None;
        }
        if !big {
            assert(acc * (r as u128) <= 0x8000_0000_0000_0000u128 * 16) by (nonlinear_arith)
                requires
                    acc <= 0x8000_0000_0000_0000u128,
                    r <= 16,
            ;
            let next = acc * (r as u128) + (d as u128);
            if next > 0x8000_0000_0000_0000u128 {
                big = true;
            } else {
                acc = next;
            }
        } else {
            let ghost v = radix_value(s@.subrange(start as int, i as int), r as nat)->0;
            assert(v * r + d >= v) by (nonlinear_arith)
                requires
                    r >= 2,
            ;
        }
        i = i + 1;
    }
    proof {
        assert(s@.subrange(start as int, n as int) == body);
    }
    if big {
        None
    } else if neg {
        if acc == 0x8000_0000_0000_0000u128 {
            Some(i64::MIN)
        } else {
            Some(-(acc as i64))
        }
    } else if acc <= 0x7FFF_FFFF_FFFF_FFFFu128 {
        Some(acc as i64)
    } else {
        None
    }
}

/// What `string->number` gives: the integer that the text writes in the radix; in radix 10,
/// else an inexact number for a decimal float literal, carried by its text; `#f` for a text
/// that is no number.
pub open spec fn string_to_number_spec(s: ExprV, radix: Option<ExprV>) -> Result<ExprV, Seq<char>> {
    match radix_spec(radix) {
        Err(m) => Err(m),
        Ok(r) => match s {
            ExprV::Str(t) => if r == 10 {
                match spec_parse_i64(t) {
                    Some(v) => Ok(ExprV::Integer(v)),
                    None => if is_float_literal(t) {
                        Ok(ExprV::Float(t))
                    } else {
                        Ok(ExprV::Boolean(false))
                    },
                }
            } else {
                match spec_from_str_radix(t, r) {
                    Some(v) => Ok(ExprV::Integer(v)),
                    None => Ok(ExprV::Boolean(false)),
                }
            },
            _ => Err("string->number is only supported for string arguments"@),
        },
    }
}

pub fn string_to_number_fn(s: &Expr, radix: Option<&Expr>) -> (r: Result<Expr, EvalError>)
    ensures
        outcome(r, string_to_number_spec(s@, match radix {
            Some(e) => Some(e@),
            None => None,
        })),
{
    proof {
        lemma_view_variant(*s);
        reveal_strlit("string->number is only supported for string arguments");
    }
    let r = match radix_of(radix) {
        Ok(r) => r,
        Err(e) => {
            return Err(e);
        },
    };
    match s {
        Expr::String(t) => {
            let cs = chars_of(t.as_str());
            if r == 10 {
                match parse_i64(cs.as_slice()) {
                    Some(v) => Ok(Expr::Integer(v)),
                    None => if check_float_literal(cs.as_slice()) {
                        Ok(Expr::Float(t.clone()))
                    } else {
                        Ok(Expr::Boolean(false))
                    },
                }
            } else {
                match from_str_radix(cs.as_slice(), r) {
                    Some(v) => Ok(Expr::Integer(v)),
                    None => Ok(Expr::Boolean(false)),
                }
            }
        },
        _ => Err(runtime_error(String::from_str("string->number is only supported for string arguments"))),
    }
}

} // verus!

verus! {

proof fn lemma_radix_digit_char(d: nat, r: nat)
    requires
        d < r <= 16,
    ensures
        digit_in_radix(radix_digit_char(d), r) == Some(d),
        radix_digit_char(d) != '+' && radix_digit_char(d) != '-',
{
    if d < 10 {
        assert((radix_digit_char(d) as nat) == d + ('0' as nat));
    } else {
        assert((radix_digit_char(d) as nat) == d - 10 + ('A' as nat));
    }
}

/// The digits of `m` in radix `r` read back as `m`.
proof fn lemma_radix_digits_value(m: nat, r: nat)
    requires
        2 <= r <= 16,
    ensures
        radix_digits(m, r).len() > 0,
        radix_value(radix_digits(m, r), r) == Some(m),
        radix_digits(m, r)[0] != '+' && radix_digits(m, r)[0] != '-',
    decreases m,
{
    if m < r {
        lemma_radix_digit_char(m, r);
        let s = radix_digits(m, r);
        assert(s.drop_last() =~= Seq::<char>::empty());
        assert(radix_value(Seq::<char>::empty(), r) == Some(0nat));
        assert(0nat * r == 0) by (nonlinear_arith);
        assert(radix_value(s, r) == Some(0nat * r + m));
    } else {
        assert(m / r < m) by (nonlinear_arith)
            requires
                r >= 2,
                m >= r,
        ;
        lemma_radix_digits_value(m / r, r);
        assert(m % r < r) by (nonlinear_arith)
            requires
                r >= 2,
        ;
        lemma_radix_digit_char(m % r, r);
        let p = radix_digits(m / r, r);
        lemma_radix_value_push(p, radix_digit_char(m % r), r);
        assert((m / r) * r + m % r == m) by (nonlinear_arith)
            requires
                r >= 2,
        ;
        assert(radix_digits(m, r)[0] == p[0]);
    }
}

/// Whether `c` is a digit of radix `r`, written with `0`-`9` and then upper-case letters.
pub open spec fn is_radix_digit(c: char, r: nat) -> bool {
    digit_in_radix(c, r) is Some && (('0' <= c && c <= '9') || ('A' <= c && c <= 'Z'))
}

proof fn lemma_radix_digits_shape(m: nat, r: nat)
    requires
        2 <= r <= 16,
    ensures
        radix_digits(m, r).len() > 0,
        forall|i: int| 0 <= i < radix_digits(m, r).len() ==> is_radix_digit(#[trigger] radix_digits(m, r)[i], r),
        radix_digits(m, r)[0] == '0' ==> m == 0 && radix_digits(m, r) == seq!['0'],
    decreases m,
{
    if m < r {
        lemma_radix_digit_char(m, r);
        if m < 10 {
            assert((radix_digit_char(m) as nat) == m + ('0' as nat));
        } else {
            assert((radix_digit_char(m) as nat) == m - 10 + ('A' as nat));
        }
        assert(radix_digits(m, r) == seq![radix_digit_char(m)]);
    } else {
        assert(m / r < m && m / r >= 1 && m % r < r) by (nonlinear_arith)
            requires
                r >= 2,
                m >= r,
        ;
        lemma_radix_digits_shape(m / r, r);
        lemma_radix_digit_char(m % r, r);
        let d = m % r;
        if d < 10 {
            assert((radix_digit_char(d) as nat) == d + ('0' as nat));
        } else {
            assert((radix_digit_char(d) as nat) == d - 10 + ('A' as nat));
        }
        let p = radix_digits(m / r, r);
        assert(radix_digits(m, r) == p.push(radix_digit_char(d)));
        assert forall|i: int| 0 <= i < radix_digits(m, r).len() implies is_radix_digit(
            #[trigger] radix_digits(m, r)[i],
            r,
        ) by {
            if i < p.len() {
                assert(radix_digits(m, r)[i] == p[i]);
            }
        }
        assert(radix_digits(m, r)[0] == p[0]);
    }
}

/// What `number->string` writes for an integer `n` in radix `r`: a text that is not empty,
/// starts with `-` exactly when `n` is negative, is otherwise made of digits of the radix
/// (`0`-`9`, then upper-case letters), and has no leading zero unless it is `0`.
pub proof fn lemma_radix_text_shape(n: int, r: nat)
    requires
        2 <= r <= 16,
    ensures
        radix_text(n, r).len() > 0,
        (radix_text(n, r)[0] == '-') == (n < 0),
        forall|i: int|
            (if n < 0 { 1int } else { 0int }) <= i < radix_text(n, r).len() ==> is_radix_digit(
                #[trigger] radix_text(n, r)[i],
                r,
            ),
        radix_text(n, r)[if n < 0 { 1int } else { 0int }] == '0' ==> radix_text(n, r) == seq!['0'],
{
    if n < 0 {
        let m = (-n) as nat;
        lemma_radix_digits_shape(m, r);
        let t = radix_text(n, r);
        assert forall|i: int| 1 <= i < t.len() implies is_radix_digit(#[trigger] t[i], r) by {
            assert(t[i] == radix_digits(m, r)[i - 1]);
        }
        assert(t[1] == radix_digits(m, r)[0]);
    } else {
        lemma_radix_digits_shape(n as nat, r);
        assert(is_radix_digit(radix_text(n, r)[0], r));
    }
}

/// The digits of `m` in radix 10 are its decimal representation.
proof fn lemma_radix_digits_decimal(m: nat)
    ensures
        radix_digits(m, 10) == crate::text::decimal(m),
    decreases m,
{
    if m >= 10 {
        lemma_radix_digits_decimal(m / 10);
    }
}

/// `string->number` reads back, as the same exact integer, what `number->string` writes, in
/// every radix.
pub proof fn lemma_number_string_roundtrip(n: i64, r: i64)
    requires
        valid_radix(r),
    ensures
        number_to_string_spec(ExprV::Integer(n), Some(ExprV::Integer(r))) == Ok::<ExprV, Seq<char>>(
            ExprV::Str(radix_text(n as int, r as nat)),
        ),
        string_to_number_spec(ExprV::Str(radix_text(n as int, r as nat)), Some(ExprV::Integer(r)))
            == Ok::<ExprV, Seq<char>>(ExprV::Integer(n)),
{
    let rn = r as nat;
    let t = radix_text(n as int, rn);
    if r == 10 {
        if n < 0 {
            lemma_radix_digits_decimal((-(n as int)) as nat);
        } else {
            lemma_radix_digits_decimal(n as nat);
        }
        assert(t == crate::text::int_decimal(n as int));
        crate::text::lemma_parse_int_decimal(n);
    } else if n < 0 {
        let m = (-(n as int)) as nat;
        lemma_radix_digits_value(m, rn);
        assert(t[0] == '-');
        assert(t.drop_first() =~= radix_digits(m, rn));
    } else {
        lemma_radix_digits_value(n as nat, rn);
    }
}

} // verus!
