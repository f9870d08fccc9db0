//! Strings, characters and conversions between numbers, strings and characters.
use crate::error::{outcome, runtime_error, EvalError};
use crate::expr::{kind_name, lemma_view_variant, push_str_lit, Expr, ExprV, Exprs, exprs_view, lemma_exprs_view_index, lemma_exprs_view_len};
use crate::text::{chars_of, is_white_space, is_whitespace, push_char, is_float_literal, check_float_literal, spec_parse_i64, parse_i64};
use vstd::prelude::*;

verus! {

/// The string comparisons.
#[derive(PartialEq, Eq, Debug, Clone, Copy, Structural)]
pub enum StringComparison {
    Eq,
    Lt,
    Gt,
    Le,
    Ge,
}

/// Whether `a` comes before `b` in the order of code points, a prefix first.
pub open spec fn text_lt(a: Seq<char>, b: Seq<char>) -> bool
    decreases a.len(),
{
    if b.len() == 0 {
        false
    } else if a.len() == 0 {
        true
    } else if a[0] != b[0] {
        (a[0] as u32) < (b[0] as u32)
    } else {
        text_lt(a.drop_first(), b.drop_first())
    }
}

pub open spec fn string_compare(c: StringComparison, a: Seq<char>, b: Seq<char>) -> bool {
    match c {
        StringComparison::Eq => a == b,
        StringComparison::Lt => text_lt(a, b),
        StringComparison::Gt => text_lt(b, a),
        StringComparison::Le => !text_lt(b, a),
        StringComparison::Ge => !text_lt(a, b),
    }
}

/// What a string comparison gives.
pub open spec fn string_compare_spec(c: StringComparison, a: ExprV, b: ExprV) -> Result<ExprV, Seq<char>> {
    match (a, b) {
        (ExprV::Str(x), ExprV::Str(y)) => Ok(ExprV::Boolean(string_compare(c, x, y))),
        (ExprV::Str(_), _) => Err("Expected a string as the second argument"@),
        _ => Err("Expected a string as the first argument"@),
    }
}

fn less_text(a: &Vec<char>, b: &Vec<char>) -> (r: bool)
    ensures
        r == text_lt(a@, b@),
{
    let mut i: usize = 0;
    assert(a@.skip(0) =~= a@);
    assert(b@.skip(0) =~= b@);
    while i < a.len() && i < b.len()
        invariant
            0 <= i <= a@.len(),
            i <= b@.len(),
            a@.subrange(0, i as int) == b@.subrange(0, i as int),
            text_lt(a@, b@) == text_lt(a@.skip(i as int), b@.skip(i as int)),
        decreases a@.len() - i,
    {
        proof {
            assert(a@.skip(i as int)[0] == a@[i as int]);
            assert(b@.skip(i as int)[0] == b@[i as int]);
            assert(a@.skip(i as int).drop_first() =~= a@.skip(i + 1));
            assert(b@.skip(i as int).drop_first() =~= b@.skip(i + 1));
        }
        if a[i] != b[i] {
            return (a[i] as u32) < (b[i] as u32);
        }
        proof {
            assert(a@.subrange(0, i + 1) =~= a@.subrange(0, i as int).push(a@[i as int]));
            assert(b@.subrange(0, i + 1) =~= b@.subrange(0, i as int).push(b@[i as int]));
        }
        i = i + 1;
    }
    i < b.len()
}

/// `string=?`, `string<?`, `string>?`, `string<=?` or `string>=?`.
pub fn string_compare_fn(c: StringComparison, a: &Expr, b: &Expr) -> (r: Result<Expr, EvalError>)
    ensures
        outcome(r, string_compare_spec(c, a@, b@)),
{
    proof {
        lemma_view_variant(*a);
        lemma_view_variant(*b);
        reveal_strlit("Expected a string as the second argument");
        reveal_strlit("Expected a string as the first argument");
    }
    match (a, b) {
        (Expr::String(x), Expr::String(y)) => {
            let xs = chars_of(x.as_str());
            let ys = chars_of(y.as_str());
            let res = match c {
                StringComparison::Eq => *x == *y,
                StringComparison::Lt => less_text(&xs, &ys),
                StringComparison::Gt => less_text(&ys, &xs),
                StringComparison::Le => !less_text(&ys, &xs),
                StringComparison::Ge => !less_text(&xs, &ys),
            };
            Ok(Expr::Boolean(res))
        },
        (Expr::String(_), _) => Err(runtime_error(String::from_str("Expected a string as the second argument"))),
        _ => Err(runtime_error(String::from_str("Expected a string as the first argument"))),
    }
}

/// What `make-string` gives: `k` copies of `fill`.
pub open spec fn make_string_spec(k: ExprV, fill: Option<ExprV>) -> Result<ExprV, Seq<char>> {
    match k {
        ExprV::Integer(n) => if fill is Some && !(fill->0 is Char) {
            Err("make-string expected a character as its second argument"@)
        } else if n < 0 {
            Err("make-string expected a non-negative length"@)
        } else {
            Ok(ExprV::Str(Seq::new(n as nat, |i: int| match fill {
                Some(ExprV::Char(c)) => c,
                _ => '#',
            })))
        },
        _ => Err("make-string expected an integer as its first argument"@),
    }
}

pub fn make_string_fn(k: &Expr, fill: Option<&Expr>) -> (r: Result<Expr, EvalError>)
    ensures
        outcome(r, make_string_spec(k@, match fill {
            Some(f) => Some(f@),
            None => None,
        })),
{
    proof {
        lemma_view_variant(*k);
        if fill is Some {
            lemma_view_variant(*fill->0);
        }
        reveal_strlit("make-string expected a non-negative length");
        reveal_strlit("make-string expected a character as its second argument");
        reveal_strlit("make-string expected an integer as its first argument");
    }
    let n = match k {
        Expr::Integer(n) => *n,
        _ => {
            return Err(runtime_error(String::from_str("make-string expected an integer as its first argument")));
        },
    };
    let c = match fill {
        None => '#',
        Some(Expr::Char(c)) => *c,
        Some(_) => {
            return Err(runtime_error(String::from_str("make-string expected a character as its second argument")));
        },
    };
    if n < 0 {
        return Err(runtime_error(String::from_str("make-string expected a non-negative length")));
    }
    let mut s = String::new();
    let mut i: i64 = 0;
    while i < n
        invariant
            0 <= i <= n,
            s@ =~= Seq::new(i as nat, |j: int| c),
        decreases n - i,
    {
        push_char(&mut s, c);
        i = i + 1;
    }
    proof {
        let fv = match fill {
            Some(f) => Some(f@),
            None => None,
        };
        assert(s@ =~= Seq::new(n as nat, |j: int| match fv {
            Some(ExprV::Char(c)) => c,
            _ => '#',
        }));
    }
    Ok(Expr::String(s))
}

/// What `string` gives for its arguments: the string of those characters.
pub open spec fn string_of_spec(args: Seq<ExprV>) -> Result<ExprV, Seq<char>> {
    if forall|i: int| 0 <= i < args.len() ==> (#[trigger] args[i]) is Char {
        Ok(ExprV::Str(args.map_values(|e: ExprV| e->Char_0)))
    } else {
        Err("string expected characters as arguments"@)
    }
}

pub fn string_of_fn(args: &Exprs) -> (r: Result<Expr, EvalError>)
    ensures
        outcome(r, string_of_spec(exprs_view(args@))),
{
    proof {
        reveal_strlit("string expected characters as arguments");
        lemma_exprs_view_len(args@);
    }
    let ghost vs = exprs_view(args@);
    let mut s = String::new();
    let mut i: usize = 0;
    while i < args.len()
        invariant
            vs == exprs_view(args@),
            vs.len() == args@.len(),
            0 <= i <= args@.len(),
            forall|j: int| 0 <= j < i ==> (#[trigger] vs[j]) is Char,
            s@ =~= vs.take(i as int).map_values(|e: ExprV| e->Char_0),
        decreases args@.len() - i,
    {
        proof {
            lemma_exprs_view_index(args@, i as int);
            lemma_view_variant(args@[i as int]);
        }
        match &args[i] {
            Expr::Char(c) => {
                push_char(&mut s, *c);
                proof {
                    assert(vs.take(i + 1) =~= vs.take(i as int).push(vs[i as int]));
                }
            },
            _ => {
                return Err(runtime_error(String::from_str("string expected characters as arguments")));
            },
        }
        i = i + 1;
    }
    proof {
        assert(vs.take(vs.len() as int) =~= vs);
    }
    Ok(Expr::String(s))
}

/// The number of bytes of the UTF-8 encoding of `c`.
pub open spec fn utf8_width(c: char) -> nat {
    let u = c as u32;
    if u < 0x80 {
        1
    } else if u < 0x800 {
        2
    } else if u < 0x10000 {
        3
    } else {
        4
    }
}

/// The number of bytes of the UTF-8 encoding of `s`, which `String::len` gives.
pub open spec fn utf8_len(s: Seq<char>) -> nat
    decreases s.len(),
{
    if s.len() == 0 {
        0
    } else {
        utf8_len(s.drop_last()) + utf8_width(s.last())
    }
}

/// What `string-length` gives: the length in bytes of the UTF-8 encoding.
pub open spec fn string_length_spec(e: ExprV) -> Result<ExprV, Seq<char>> {
    match e {
        ExprV::Str(s) => Ok(ExprV::Integer(utf8_len(s) as i64)),
        _ => Err("string-length expected a string as its argument"@),
    }
}

pub fn string_length_fn(e: &Expr) -> (r: Result<Expr, EvalError>)
    ensures
        outcome(r, string_length_spec(e@)),
{
    proof {
        lemma_view_variant(*e);
        reveal_strlit("string-length expected a string as its argument");
    }
    match e {
        Expr::String(s) => {
            let cs = chars_of(s.as_str());
            let mut n: u128 = 0;
            let mut i: usize = 0;
            while i < cs.len()
                invariant
                    0 <= i <= cs@.len(),
                    n == utf8_len(cs@.take(i as int)),
                    n <= 4 * i,
                decreases cs@.len() - i,
            {
                let u = cs[i] as u32;
                let w: u128 = if u < 0x80 {
                    1
                } else if u < 0x800 {
                    2
                } else if u < 0x10000 {
                    3
                } else {
                    4
                };
                proof {
                    assert(cs@.take(i + 1).drop_last() =~= cs@.take(i as int));
                }
                n = n + w;
                i = i + 1;
            }
            proof {
                assert(cs@.take(cs@.len() as int) =~= cs@);
            }
            Ok(Expr::Integer(n as i64))
        },
        _ => Err(runtime_error(String::from_str("string-length expected a string as its argument"))),
    }
}

} // verus!

verus! {

/// No string comes before itself.
pub proof fn lemma_text_lt_irreflexive(a: Seq<char>)
    ensures
        !text_lt(a, a),
    decreases a.len(),
{
    if a.len() > 0 {
        lemma_text_lt_irreflexive(a.drop_first());
    }
}

/// Of two strings, at most one comes before the other.
pub proof fn lemma_text_lt_asymmetric(a: Seq<char>, b: Seq<char>)
    ensures
        text_lt(a, b) ==> !text_lt(b, a),
    decreases a.len(),
{
    if a.len() > 0 && b.len() > 0 && a[0] == b[0] {
        lemma_text_lt_asymmetric(a.drop_first(), b.drop_first());
    }
}

/// Of two different strings, one comes before the other.
pub proof fn lemma_text_lt_total(a: Seq<char>, b: Seq<char>)
    ensures
        a != b ==> text_lt(a, b) || text_lt(b, a),
    decreases a.len(),
{
    if a.len() > 0 && b.len() > 0 && a[0] == b[0] {
        lemma_text_lt_total(a.drop_first(), b.drop_first());
        if a.drop_first() == b.drop_first() {
            assert(a =~= seq![a[0]] + a.drop_first());
            assert(b =~= seq![b[0]] + b.drop_first());
        }
    } else if a.len() == 0 && b.len() == 0 {
        assert(a =~= b);
    } else if a.len() > 0 && b.len() > 0 {
        vstd::utf8::char_u32_cast(a[0], a[0] as u32);
        vstd::utf8::char_u32_cast(b[0], b[0] as u32);
    }
}

/// `string=?`, `string<?` and `string>?`: exactly one holds of two strings.
pub proof fn lemma_string_trichotomy(a: Seq<char>, b: Seq<char>)
    ensures
        string_compare(StringComparison::Eq, a, b) || string_compare(StringComparison::Lt, a, b)
            || string_compare(StringComparison::Gt, a, b),
        !(string_compare(StringComparison::Lt, a, b) && string_compare(StringComparison::Gt, a, b)),
        string_compare(StringComparison::Eq, a, b) ==> !string_compare(StringComparison::Lt, a, b),
        string_compare(StringComparison::Le, a, b) == (string_compare(StringComparison::Lt, a, b)
            || string_compare(StringComparison::Eq, a, b)),
{
    lemma_text_lt_total(a, b);
    lemma_text_lt_asymmetric(a, b);
    lemma_text_lt_irreflexive(a);
}

/// Whether the string comparison `c` holds of the strings `a` and `b`, as `string=?`,
/// `string<?` and the others answer it.
pub open spec fn comparison_holds(c: StringComparison, a: Seq<char>, b: Seq<char>) -> bool {
    string_compare_spec(c, ExprV::Str(a), ExprV::Str(b)) == Ok::<ExprV, Seq<char>>(ExprV::Boolean(true))
}

/// The string comparisons answer every two strings with a boolean and agree with one another:
/// `string=?` holds exactly of equal strings; `string>?` is `string<?` with the strings
/// swapped; `string>=?` is the negation of `string<?`, and `string<=?` that of `string>?`;
/// exactly one of `string<?`, `string=?` and `string>?` holds; so `string<=?` and
/// `string>=?` hold of equal strings and `string<?` of none.
pub proof fn lemma_string_comparisons(a: Seq<char>, b: Seq<char>)
    ensures
        forall|c: StringComparison| #[trigger] string_compare_spec(c, ExprV::Str(a), ExprV::Str(b)) is Ok
            && string_compare_spec(c, ExprV::Str(a), ExprV::Str(b))->Ok_0 is Boolean,
        comparison_holds(StringComparison::Eq, a, b) == (a == b),
        comparison_holds(StringComparison::Gt, a, b) == comparison_holds(StringComparison::Lt, b, a),
        comparison_holds(StringComparison::Ge, a, b) == !comparison_holds(StringComparison::Lt, a, b),
        comparison_holds(StringComparison::Le, a, b) == !comparison_holds(StringComparison::Gt, a, b),
        comparison_holds(StringComparison::Lt, a, b) || comparison_holds(StringComparison::Eq, a, b)
            || comparison_holds(StringComparison::Gt, a, b),
        !(comparison_holds(StringComparison::Lt, a, b) && comparison_holds(StringComparison::Eq, a, b)),
        !(comparison_holds(StringComparison::Lt, a, b) && comparison_holds(StringComparison::Gt, a, b)),
        !(comparison_holds(StringComparison::Eq, a, b) && comparison_holds(StringComparison::Gt, a, b)),
        comparison_holds(StringComparison::Le, a, a) && comparison_holds(StringComparison::Ge, a, a)
            && !comparison_holds(StringComparison::Lt, a, a) && !comparison_holds(StringComparison::Gt, a, a),
{
    lemma_text_lt_total(a, b);
    lemma_text_lt_asymmetric(a, b);
    lemma_text_lt_irreflexive(a);
    lemma_text_lt_irreflexive(b);
}

/// What `string-set!` makes of the values `vals` of its three arguments: the string with the
/// character at the index replaced; or the error for an argument of the wrong type, or for an
/// index out of the string's characters.
pub open spec fn string_set_spec(vals: Seq<ExprV>) -> Result<ExprV, Seq<char>> {
    match vals[0] {
        ExprV::Str(t) => match vals[1] {
            ExprV::Integer(k) => if k < 0 {
                Err(index_error_message(k as int))
            } else {
                match vals[2] {
                    ExprV::Char(c) => if k >= t.len() {
                        Err(index_error_message(k as int))
                    } else {
                        Ok(ExprV::Str(t.update(k as int, c)))
                    },
                    _ => Err("string-set! expected a character as its third argument"@),
                }
            },
            _ => Err("string-set! expected a integer as its second argument"@),
        },
        _ => Err("string-set! expected a string as its first argument"@),
    }
}

pub open spec fn index_error_message(k: int) -> Seq<char> {
    "string-set! index out of bounds: "@ + crate::text::int_decimal(k)
}

fn index_error(k: i64) -> (e: EvalError)
    ensures
        e.message() == index_error_message(k as int),
{
    let mut m = String::from_str("string-set! index out of bounds: ");
    crate::text::push_int(&mut m, k);
    runtime_error(m)
}

/// The string that `string-set!` makes of the values of its arguments.
pub fn string_set_value(vals: &Exprs) -> (r: Result<Expr, EvalError>)
    requires
        vals@.len() == 3,
    ensures
        outcome(r, string_set_spec(exprs_view(vals@))),
{
    proof {
        reveal_strlit("string-set! expected a character as its third argument");
        reveal_strlit("string-set! expected a integer as its second argument");
        reveal_strlit("string-set! expected a string as its first argument");
        lemma_exprs_view_index(vals@, 0);
        lemma_exprs_view_index(vals@, 1);
        lemma_exprs_view_index(vals@, 2);
        lemma_view_variant(vals@[0]);
        lemma_view_variant(vals@[1]);
        lemma_view_variant(vals@[2]);
    }
    match &vals[0] {
        Expr::String(t) => match &vals[1] {
            Expr::Integer(k) => {
                let k = *k;
                if k < 0 {
                    return Err(index_error(k));
                }
                match &vals[2] {
                    Expr::Char(c) => {
                        let mut cs = chars_of(t.as_str());
                        if k as u64 >= cs.len() as u64 {
                            return Err(index_error(k));
                        }
                        cs.set(k as usize, *c);
                        let n = cs.len();
                        let u = crate::text::string_from_chars(cs.as_slice(), 0, n);
                        proof {
                            assert(cs@.subrange(0, n as int) =~= cs@);
                        }
                        Ok(Expr::String(u))
                    },
                    _ => Err(runtime_error(String::from_str("string-set! expected a character as its third argument"))),
                }
            },
            _ => Err(runtime_error(String::from_str("string-set! expected a integer as its second argument"))),
        },
        _ => Err(runtime_error(String::from_str("string-set! expected a string as its first argument"))),
    }
}

/// The byte length of a string is at least its number of characters, and equal to it exactly
/// for a string of ASCII characters.
proof fn lemma_utf8_len_ascii(t: Seq<char>)
    ensures
        utf8_len(t) >= t.len(),
        (forall|i: int| 0 <= i < t.len() ==> (#[trigger] t[i] as u32) < 0x80) ==> utf8_len(t) == t.len(),
    decreases t.len(),
{
    if t.len() > 0 {
        lemma_utf8_len_ascii(t.drop_last());
        if forall|i: int| 0 <= i < t.len() ==> (#[trigger] t[i] as u32) < 0x80 {
            assert forall|i: int| 0 <= i < t.drop_last().len() implies (#[trigger] t.drop_last()[i] as u32) < 0x80 by {
                assert(t.drop_last()[i] == t[i]);
            }
            assert((t.last() as u32) < 0x80) by {
                assert(t.last() == t[t.len() - 1]);
            }
        }
    }
}

/// The string procedures that build and change strings: `make-string` of a length `n >= 0`
/// and a character `c` gives `n` copies of `c`; `string-set!` succeeds exactly for an index
/// inside the string and a character, and then changes only the character at that index;
/// `string-length` of a string of ASCII characters is its number of characters, so
/// `string-set!` with an ASCII character keeps the length of an ASCII string.
pub proof fn lemma_string_building(n: i64, c: char, t: Seq<char>, k: i64, d: char)
    ensures
        n >= 0 ==> (make_string_spec(ExprV::Integer(n), Some(ExprV::Char(c))) matches Ok(ExprV::Str(m))
            && m.len() == n && forall|i: int| 0 <= i < n ==> #[trigger] m[i] == c),
        n < 0 ==> make_string_spec(ExprV::Integer(n), Some(ExprV::Char(c))) is Err,
        (string_set_spec(seq![ExprV::Str(t), ExprV::Integer(k), ExprV::Char(d)]) is Ok) == (0 <= k < t.len()),
        (string_set_spec(seq![ExprV::Str(t), ExprV::Integer(k), ExprV::Char(d)]) matches Ok(ExprV::Str(u))
            ==> u.len() == t.len() && u[k as int] == d && forall|i: int|
            0 <= i < t.len() && i != k ==> #[trigger] u[i] == t[i]),
        t.len() <= i64::MAX && (forall|i: int| 0 <= i < t.len() ==> (#[trigger] t[i] as u32) < 0x80)
            ==> string_length_spec(ExprV::Str(t)) == Ok::<ExprV, Seq<char>>(ExprV::Integer(t.len() as i64)),
{
    lemma_utf8_len_ascii(t);
}

} // verus!
