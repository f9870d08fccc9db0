//! Integer arithmetic and comparison. Inexact numbers are carried as text and take part in
//! no arithmetic: every numeric procedure refuses them with an error.
use crate::error::{runtime_error, EvalError};
use crate::expr::{
    display, exprs_view, kind_name, lemma_exprs_view_index, lemma_exprs_view_len, lemma_view_variant,
    push_str_lit, write_expr, Expr, ExprV, Exprs,
};
use crate::text::{int_decimal, push_int};
use vstd::prelude::*;

verus! {

/// The integer operations that fold over the arguments of `+`, `-`, `*` and `/`.
#[derive(PartialEq, Eq, Debug, Clone, Copy, Structural)]
pub enum IntOp {
    Add,
    Sub,
    Mul,
    Div,
}

pub open spec fn op_symbol(op: IntOp) -> Seq<char> {
    match op {
        IntOp::Add => "+"@,
        IntOp::Sub => "-"@,
        IntOp::Mul => "*"@,
        IntOp::Div => "/"@,
    }
}

pub open spec fn abs(a: int) -> int {
    if a < 0 {
        -a
    } else {
        a
    }
}

/// Division rounding toward zero, as Rust's `/` on integers does.
pub open spec fn tdiv(a: int, b: int) -> int {
    let q = abs(a) / abs(b);
    if (a < 0) != (b < 0) {
        -q
    } else {
        q
    }
}

/// The remainder of `tdiv`: it has the sign of `a`, as Rust's `%` on integers does.
pub open spec fn trem(a: int, b: int) -> int {
    if a < 0 {
        -(abs(a) % abs(b))
    } else {
        abs(a) % abs(b)
    }
}

pub open spec fn in_i64(x: int) -> bool {
    i64::MIN <= x <= i64::MAX
}

pub open spec fn apply_op(op: IntOp, a: int, b: int) -> int {
    match op {
        IntOp::Add => a + b,
        IntOp::Sub => a - b,
        IntOp::Mul => a * b,
        IntOp::Div => tdiv(a, b),
    }
}

pub open spec fn overflow_message(name: Seq<char>) -> Seq<char> {
    "integer overflow in "@ + name
}

pub open spec fn float_message(name: Seq<char>) -> Seq<char> {
    "inexact numbers are not supported by "@ + name
}

pub open spec fn division_by_zero_message(name: Seq<char>) -> Seq<char> {
    "division by zero in "@ + name
}

/// The message for operands of the wrong type: `-` shows the values, the others their types.
pub open spec fn operands_message(op: IntOp, lhs: ExprV, rhs: ExprV) -> Seq<char> {
    if op == IntOp::Sub {
        "expected integers or floats -, got "@ + display(lhs) + " and "@ + display(rhs)
    } else {
        "expected integers or floats for "@ + op_symbol(op) + ", got "@ + kind_name(lhs)
            + " and "@ + kind_name(rhs)
    }
}

/// Folds `op` over `s` from the accumulator `acc`, left to right.
pub open spec fn fold_ints(op: IntOp, acc: int, s: Seq<ExprV>) -> Result<int, Seq<char>>
    decreases s.len(),
{
    if s.len() == 0 {
        Ok(acc)
    } else {
        match s[0] {
            ExprV::Integer(v) => if op == IntOp::Div && v == 0 {
                Err(division_by_zero_message(op_symbol(op)))
            } else if in_i64(apply_op(op, acc, v as int)) {
                fold_ints(op, apply_op(op, acc, v as int), s.drop_first())
            } else {
                Err(overflow_message(op_symbol(op)))
            },
            ExprV::Float(_) => Err(float_message(op_symbol(op))),
            e => Err(operands_message(op, ExprV::Integer(acc as i64), e)),
        }
    }
}

/// What `+`, `-`, `*` or `/` gives for the arguments `args`.
pub open spec fn arith(op: IntOp, args: Seq<ExprV>) -> Result<int, Seq<char>> {
    if (op == IntOp::Sub || op == IntOp::Div) && args.len() > 1 {
        match args[0] {
            ExprV::Integer(v) => fold_ints(op, v as int, args.drop_first()),
            ExprV::Float(_) => Err(float_message(op_symbol(op))),
            e => if args[1] is Float {
                Err(float_message(op_symbol(op)))
            } else {
                Err(operands_message(op, e, args[1]))
            },
        }
    } else {
        fold_ints(
            op,
            if op == IntOp::Add || op == IntOp::Sub {
                0
            } else {
                1
            },
            args,
        )
    }
}

fn op_name(op: IntOp) -> (s: &'static str)
    ensures
        s@ == op_symbol(op),
{
    proof {
        reveal_strlit("+");
        reveal_strlit("-");
        reveal_strlit("*");
        reveal_strlit("/");
    }
    match op {
        IntOp::Add => "+",
        IntOp::Sub => "-",
        IntOp::Mul => "*",
        IntOp::Div => "/",
    }
}

/// An error whose message is `prefix` followed by `name`.
pub fn named_error(prefix: &str, name: &str) -> (e: EvalError)
    ensures
        e.message() == prefix@ + name@,
{
    let mut s = String::from_str(prefix);
    push_str_lit(&mut s, name);
    runtime_error(s)
}

fn overflow_error(name: &str) -> (e: EvalError)
    ensures
        e.message() == overflow_message(name@),
{
    proof {
        reveal_strlit("integer overflow in ");
    }
    named_error("integer overflow in ", name)
}

fn float_error(name: &str) -> (e: EvalError)
    ensures
        e.message() == float_message(name@),
{
    proof {
        reveal_strlit("inexact numbers are not supported by ");
    }
    named_error("inexact numbers are not supported by ", name)
}

fn division_by_zero(name: &str) -> (e: EvalError)
    ensures
        e.message() == division_by_zero_message(name@),
{
    proof {
        reveal_strlit("division by zero in ");
    }
    named_error("division by zero in ", name)
}

/// The error for the operands `lhs` and `rhs` of `op`.
fn operands_error(op: IntOp, lhs: &Expr, rhs: &Expr) -> (e: EvalError)
    ensures
        e.message() == operands_message(op, lhs@, rhs@),
{
    proof {
        reveal_strlit("expected integers or floats -, got ");
        reveal_strlit(" and ");
        reveal_strlit("expected integers or floats for ");
        reveal_strlit(", got ");
    }
    if op == IntOp::Sub {
        let mut s = String::from_str("expected integers or floats -, got ");
        write_expr(lhs, &mut s);
        push_str_lit(&mut s, " and ");
        write_expr(rhs, &mut s);
        runtime_error(s)
    } else {
        let mut s = String::from_str("expected integers or floats for ");
        push_str_lit(&mut s, op_name(op));
        push_str_lit(&mut s, ", got ");
        push_str_lit(&mut s, lhs.kind());
        push_str_lit(&mut s, " and ");
        push_str_lit(&mut s, rhs.kind());
        runtime_error(s)
    }
}

/// `|a|` as an unsigned number.
fn unsigned_abs(a: i64) -> (r: u64)
    ensures
        r as int == abs(a as int),
{
    if a >= 0 {
        a as u64
    } else if a == i64::MIN {
        0x8000_0000_0000_0000u64
    } else {
        (-a) as u64
    }
}

/// `tdiv(a, b)` when it is an `i64`.
pub fn checked_tdiv(a: i64, b: i64) -> (r: Option<i64>)
    requires
        b != 0,
    ensures
        match r {
            Some(q) => q as int == tdiv(a as int, b as int),
            None => !in_i64(tdiv(a as int, b as int)),
        },
        !(a == i64::MIN && b == -1) ==> r is Some,
{
    let ua = unsigned_abs(a);
    let ub = unsigned_abs(b);
    let q = ua / ub;
    assert(q as int == abs(a as int) / abs(b as int));
    assert(q <= ua) by (nonlinear_arith)
        requires
            ub >= 1,
            q == ua / ub,
    ;
    if q > 0x7fff_ffff_ffff_ffffu64 {
        assert(q * ub <= ua) by (nonlinear_arith)
            requires
                ub >= 1,
                q == ua / ub,
        ;
        assert(ub == 1) by (nonlinear_arith)
            requires
                q * ub <= ua,
                ua <= 0x8000_0000_0000_0000u64,
                q >= 0x8000_0000_0000_0000u64,
                ub >= 1,
        ;
    }
    if (a < 0) != (b < 0) {
        if q == 0x8000_0000_0000_0000u64 {
            Some(i64::MIN)
        } else {
            Some(-(q as i64))
        }
    } else {
        if q > 0x7fff_ffff_ffff_ffffu64 {
            None
        } else {
            Some(q as i64)
        }
    }
}

/// `trem(a, b)`, which is always an `i64`.
pub fn int_trem(a: i64, b: i64) -> (r: i64)
    requires
        b != 0,
    ensures
        r as int == trem(a as int, b as int),
{
    let ua = unsigned_abs(a);
    let ub = unsigned_abs(b);
    let m = ua % ub;
    assert(m < ub);
    if a < 0 {
        -(m as i64)
    } else {
        m as i64
    }
}

fn step(op: IntOp, acc: i64, v: i64) -> (r: Result<i64, EvalError>)
    ensures
        op == IntOp::Div && v == 0 ==> r is Err && r->Err_0.message() == division_by_zero_message(
            op_symbol(op),
        ),
        !(op == IntOp::Div && v == 0) && in_i64(apply_op(op, acc as int, v as int)) ==> r is Ok
            && r->Ok_0 as int == apply_op(op, acc as int, v as int),
        !(op == IntOp::Div && v == 0) && !in_i64(apply_op(op, acc as int, v as int)) ==> r is Err
            && r->Err_0.message() == overflow_message(op_symbol(op)),
{
    match op {
        IntOp::Add => match acc.checked_add(v) {
            Some(x) => Ok(x),
            None => Err(overflow_error(op_name(op))),
        },
        IntOp::Sub => match acc.checked_sub(v) {
            Some(x) => Ok(x),
            None => Err(overflow_error(op_name(op))),
        },
        IntOp::Mul => match acc.checked_mul(v) {
            Some(x) => Ok(x),
            None => Err(overflow_error(op_name(op))),
        },
        IntOp::Div => if v == 0 {
            Err(division_by_zero(op_name(op)))
        } else {
            match checked_tdiv(acc, v) {
                Some(x) => Ok(x),
                None => Err(overflow_error(op_name(op))),
            }
        },
    }
}

/// Folds `op` over `args[from..]` from `acc`.
fn fold_from(op: IntOp, acc: i64, args: &Exprs, from: usize) -> (r: Result<i64, EvalError>)
    requires
        from <= args@.len(),
    ensures
        match fold_ints(op, acc as int, exprs_view(args@).skip(from as int)) {
            Ok(v) => r is Ok && r->Ok_0 as int == v,
            Err(m) => r is Err && r->Err_0.message() == m,
        },
{
    proof {
        lemma_exprs_view_len(args@);
    }
    let ghost vs = exprs_view(args@);
    let mut cur = acc;
    let mut i = from;
    while i < args.len()
        invariant
            from <= i <= args@.len(),
            vs == exprs_view(args@),
            vs.len() == args@.len(),
            fold_ints(op, acc as int, vs.skip(from as int)) == fold_ints(op, cur as int, vs.skip(i as int)),
        decreases args@.len() - i,
    {
        proof {
            lemma_exprs_view_index(args@, i as int);
            lemma_view_variant(args@[i as int]);
            assert(vs.skip(i as int)[0] == vs[i as int]);
            assert(vs.skip(i as int).drop_first() =~= vs.skip(i + 1));
        }
        match &args[i] {
            Expr::Integer(v) => {
                let x = step(op, cur, *v);
                match x {
                    Ok(x) => {
                        cur = x;
                    },
                    Err(e) => {
                        return Err(e);
                    },
                }
            },
            Expr::Float(_) => {
                return Err(float_error(op_name(op)));
            },
            other => {
                let lhs = Expr::Integer(cur);
                return Err(operands_error(op, &lhs, other));
            },
        }
        i = i + 1;
    }
    Ok(cur)
}

/// `+`, `-`, `*` or `/` of the arguments.
pub fn arith_fn(op: IntOp, args: &Exprs) -> (r: Result<Expr, EvalError>)
    ensures
        match arith(op, exprs_view(args@)) {
            Ok(v) => r is Ok && r->Ok_0@ == ExprV::Integer(v as i64) && in_i64(v),
            Err(m) => r is Err && r->Err_0.message() == m,
        },
{
    proof {
        lemma_exprs_view_len(args@);
    }
    let ghost vs = exprs_view(args@);
    if (op == IntOp::Sub || op == IntOp::Div) && args.len() > 1 {
        proof {
            lemma_exprs_view_index(args@, 0);
            lemma_exprs_view_index(args@, 1);
            lemma_view_variant(args@[0]);
            lemma_view_variant(args@[1]);
            assert(vs.skip(1) =~= vs.drop_first());
        }
        match &args[0] {
            Expr::Integer(v) => match fold_from(op, *v, args, 1) {
                Ok(x) => Ok(Expr::Integer(x)),
                Err(e) => Err(e),
            },
            Expr::Float(_) => Err(float_error(op_name(op))),
            first => if args[1].is_float() {
                Err(float_error(op_name(op)))
            } else {
                Err(operands_error(op, first, &args[1]))
            },
        }
    } else {
        let start: i64 = if op == IntOp::Add || op == IntOp::Sub {
            0
        } else {
            1
        };
        proof {
            assert(vs.skip(0) =~= vs);
        }
        match fold_from(op, start, args, 0) {
            Ok(x) => Ok(Expr::Integer(x)),
            Err(e) => Err(e),
        }
    }
}

} // verus!

verus! {

/// The integer comparisons.
#[derive(PartialEq, Eq, Debug, Clone, Copy, Structural)]
pub enum Comparison {
    Less,
    Equal,
    More,
}

pub open spec fn comparison_symbol(c: Comparison) -> Seq<char> {
    match c {
        Comparison::Less => "<"@,
        Comparison::Equal => "="@,
        Comparison::More => ">"@,
    }
}

pub open spec fn is_number(e: ExprV) -> bool {
    e is Integer || e is Float
}

/// The message for two operands of which one is no number.
pub open spec fn two_numbers_message(name: Seq<char>, lhs: ExprV, rhs: ExprV) -> Seq<char> {
    "expected integers or floats for "@ + name + ", got "@ + kind_name(lhs) + " and "@ + kind_name(rhs)
}

/// What `<`, `=` or `>` gives for `lhs` and `rhs`.
pub open spec fn compare(c: Comparison, lhs: ExprV, rhs: ExprV) -> Result<ExprV, Seq<char>> {
    match (lhs, rhs) {
        (ExprV::Integer(a), ExprV::Integer(b)) => Ok(ExprV::Boolean(match c {
            Comparison::Less => a < b,
            Comparison::Equal => a == b,
            Comparison::More => a > b,
        })),
        _ => if is_number(lhs) && is_number(rhs) {
            Err(float_message(comparison_symbol(c)))
        } else {
            Err(two_numbers_message(comparison_symbol(c), lhs, rhs))
        },
    }
}

fn comparison_name(c: Comparison) -> (s: &'static str)
    ensures
        s@ == comparison_symbol(c),
{
    proof {
        reveal_strlit("<");
        reveal_strlit("=");
        reveal_strlit(">");
    }
    match c {
        Comparison::Less => "<",
        Comparison::Equal => "=",
        Comparison::More => ">",
    }
}

fn two_numbers_error(name: &str, lhs: &Expr, rhs: &Expr) -> (e: EvalError)
    ensures
        e.message() == two_numbers_message(name@, lhs@, rhs@),
{
    proof {
        reveal_strlit("expected integers or floats for ");
        reveal_strlit(", got ");
        reveal_strlit(" and ");
    }
    let mut s = String::from_str("expected integers or floats for ");
    push_str_lit(&mut s, name);
    push_str_lit(&mut s, ", got ");
    push_str_lit(&mut s, lhs.kind());
    push_str_lit(&mut s, " and ");
    push_str_lit(&mut s, rhs.kind());
    runtime_error(s)
}

/// `<`, `=` or `>` of two arguments.
pub fn compare_fn(c: Comparison, lhs: &Expr, rhs: &Expr) -> (r: Result<Expr, EvalError>)
    ensures
        crate::error::outcome(r, compare(c, lhs@, rhs@)),
{
    proof {
        lemma_view_variant(*lhs);
        lemma_view_variant(*rhs);
    }
    match (lhs, rhs) {
        (Expr::Integer(a), Expr::Integer(b)) => Ok(Expr::Boolean(match c {
            Comparison::Less => *a < *b,
            Comparison::Equal => *a == *b,
            Comparison::More => *a > *b,
        })),
        _ => if (lhs.is_integer() || lhs.is_float()) && (rhs.is_integer() || rhs.is_float()) {
            Err(float_error(comparison_name(c)))
        } else {
            Err(two_numbers_error(comparison_name(c), lhs, rhs))
        },
    }
}

/// The message for an argument that is no number.
pub open spec fn one_number_message(name: Seq<char>, e: ExprV) -> Seq<char> {
    "expected integer or float for "@ + name + ", got "@ + kind_name(e)
}

fn one_number_error(name: &str, e: &Expr) -> (r: EvalError)
    ensures
        r.message() == one_number_message(name@, e@),
{
    proof {
        reveal_strlit("expected integer or float for ");
        reveal_strlit(", got ");
    }
    let mut s = String::from_str("expected integer or float for ");
    push_str_lit(&mut s, name);
    push_str_lit(&mut s, ", got ");
    push_str_lit(&mut s, e.kind());
    runtime_error(s)
}

/// What `abs` gives.
pub open spec fn abs_spec(e: ExprV) -> Result<ExprV, Seq<char>> {
    match e {
        ExprV::Integer(n) => if n == i64::MIN {
            Err(overflow_message("abs"@))
        } else {
            Ok(ExprV::Integer(abs(n as int) as i64))
        },
        ExprV::Float(_) => Err(float_message("abs"@)),
        _ => Err(one_number_message("abs"@, e)),
    }
}

pub fn abs_fn(e: &Expr) -> (r: Result<Expr, EvalError>)
    ensures
        crate::error::outcome(r, abs_spec(e@)),
{
    proof {
        reveal_strlit("abs");
        lemma_view_variant(*e);
    }
    match e {
        Expr::Integer(n) => if *n == i64::MIN {
            Err(overflow_error("abs"))
        } else if *n < 0 {
            Ok(Expr::Integer(-*n))
        } else {
            Ok(Expr::Integer(*n))
        },
        Expr::Float(_) => Err(float_error("abs")),
        _ => Err(one_number_error("abs", e)),
    }
}

/// What `square` gives.
pub open spec fn square_spec(e: ExprV) -> Result<ExprV, Seq<char>> {
    match e {
        ExprV::Integer(n) => if in_i64(n * n) {
            Ok(ExprV::Integer((n * n) as i64))
        } else {
            Err(overflow_message("square"@))
        },
        ExprV::Float(_) => Err(float_message("square"@)),
        _ => Err(one_number_message("square"@, e)),
    }
}

pub fn square_fn(e: &Expr) -> (r: Result<Expr, EvalError>)
    ensures
        crate::error::outcome(r, square_spec(e@)),
{
    proof {
        reveal_strlit("square");
        lemma_view_variant(*e);
    }
    match e {
        Expr::Integer(n) => match n.checked_mul(*n) {
            Some(m) => Ok(Expr::Integer(m)),
            None => Err(overflow_error("square")),
        },
        Expr::Float(_) => Err(float_error("square")),
        _ => Err(one_number_error("square", e)),
    }
}

/// What `integer?` gives.
pub open spec fn is_integer_spec(e: ExprV) -> Result<ExprV, Seq<char>> {
    match e {
        ExprV::Integer(_) => Ok(ExprV::Boolean(true)),
        ExprV::Float(_) => Err(float_message("integer?"@)),
        _ => Ok(ExprV::Boolean(false)),
    }
}

pub fn is_integer_fn(e: &Expr) -> (r: Result<Expr, EvalError>)
    ensures
        crate::error::outcome(r, is_integer_spec(e@)),
{
    proof {
        reveal_strlit("integer?");
        lemma_view_variant(*e);
    }
    match e {
        Expr::Integer(_) => Ok(Expr::Boolean(true)),
        Expr::Float(_) => Err(float_error("integer?")),
        _ => Ok(Expr::Boolean(false)),
    }
}

/// `quotient`, `remainder` and `modulo`.
#[derive(PartialEq, Eq, Debug, Clone, Copy, Structural)]
pub enum Division {
    Quotient,
    Remainder,
    Modulo,
}

pub open spec fn division_name(d: Division) -> Seq<char> {
    match d {
        Division::Quotient => "quotient"@,
        Division::Remainder => "remainder"@,
        Division::Modulo => "modulo"@,
    }
}

/// The remainder of floor division: the remainder of `tdiv`, moved by `b` where its sign
/// differs from that of `b`, so that it has the sign of `b`.
pub open spec fn floor_rem(a: int, b: int) -> int {
    let r = trem(a, b);
    if r != 0 && (r < 0) != (b < 0) {
        r + b
    } else {
        r
    }
}

/// What `quotient`, `remainder` or `modulo` gives for two integers: the truncated quotient,
/// which overflows only for `i64::MIN` by `-1`; the remainder, with the sign of the dividend;
/// and the modulo, with the sign of the divisor.
pub open spec fn divide_ints(d: Division, a: int, b: int) -> Result<ExprV, Seq<char>> {
    if b == 0 {
        Err(division_by_zero_message(division_name(d)))
    } else {
        match d {
            Division::Quotient => if in_i64(tdiv(a, b)) {
                Ok(ExprV::Integer(tdiv(a, b) as i64))
            } else {
                Err(overflow_message(division_name(d)))
            },
            Division::Remainder => Ok(ExprV::Integer(trem(a, b) as i64)),
            Division::Modulo => Ok(ExprV::Integer(floor_rem(a, b) as i64)),
        }
    }
}

pub open spec fn division_spec(d: Division, lhs: ExprV, rhs: ExprV) -> Result<ExprV, Seq<char>> {
    match (lhs, rhs) {
        (ExprV::Integer(a), ExprV::Integer(b)) => divide_ints(d, a as int, b as int),
        _ => if is_number(lhs) && is_number(rhs) {
            Err(float_message(division_name(d)))
        } else {
            Err(two_numbers_message(division_name(d), lhs, rhs))
        },
    }
}

fn division_label(d: Division) -> (s: &'static str)
    ensures
        s@ == division_name(d),
{
    proof {
        reveal_strlit("quotient");
        reveal_strlit("remainder");
        reveal_strlit("modulo");
    }
    match d {
        Division::Quotient => "quotient",
        Division::Remainder => "remainder",
        Division::Modulo => "modulo",
    }
}

pub fn division_fn(d: Division, lhs: &Expr, rhs: &Expr) -> (r: Result<Expr, EvalError>)
    ensures
        crate::error::outcome(r, division_spec(d, lhs@, rhs@)),
{
    proof {
        lemma_view_variant(*lhs);
        lemma_view_variant(*rhs);
    }
    let name = division_label(d);
    match (lhs, rhs) {
        (Expr::Integer(a), Expr::Integer(b)) => {
            let a = *a;
            let b = *b;
            if b == 0 {
                return Err(division_by_zero(name));
            }
            proof {
                lemma_quotient_remainder(a as int, b as int);
            }
            match d {
                Division::Quotient => match checked_tdiv(a, b) {
                    Some(q) => Ok(Expr::Integer(q)),
                    None => Err(overflow_error(name)),
                },
                Division::Remainder => Ok(Expr::Integer(int_trem(a, b))),
                Division::Modulo => {
                    let t = int_trem(a, b);
                    if t != 0 && ((t < 0) != (b < 0)) {
                        Ok(Expr::Integer(t + b))
                    } else {
                        Ok(Expr::Integer(t))
                    }
                },
            }
        },
        _ => if (lhs.is_integer() || lhs.is_float()) && (rhs.is_integer() || rhs.is_float()) {
            Err(float_error(name))
        } else {
            Err(two_numbers_error(name, lhs, rhs))
        },
    }
}

} // verus!

verus! {

/// `quotient` and `remainder` split the dividend: `a = b * q + r`, with `|r| < |b|`.
pub proof fn lemma_quotient_remainder(a: int, b: int)
    requires
        b != 0,
    ensures
        a == b * tdiv(a, b) + trem(a, b),
        abs(trem(a, b)) < abs(b),
{
    let q = abs(a) / abs(b);
    let m = abs(a) % abs(b);
    vstd::arithmetic::div_mod::lemma_fundamental_div_mod(abs(a), abs(b));
    assert(0 <= m < abs(b)) by {
        vstd::arithmetic::div_mod::lemma_mod_pos_bound(abs(a), abs(b));
    }
    let ab = abs(b);
    if a >= 0 && b > 0 {
    } else if a >= 0 {
        assert(b * (-q) == ab * q) by (nonlinear_arith)
            requires
                ab == -b,
        ;
    } else if b > 0 {
        assert(b * (-q) == -(ab * q)) by (nonlinear_arith)
            requires
                ab == b,
        ;
    } else {
        assert(b * q == -(ab * q)) by (nonlinear_arith)
            requires
                ab == -b,
        ;
    }
}

/// `modulo` gives the remainder of floor division, with the sign of the divisor, for every
/// two integers of which the divisor is not zero; it never overflows.
pub proof fn lemma_modulo_floor(a: int, b: int)
    requires
        b != 0,
        in_i64(a),
        in_i64(b),
    ensures
        in_i64(floor_rem(a, b)),
        divide_ints(Division::Modulo, a, b) == Ok::<ExprV, Seq<char>>(ExprV::Integer(floor_rem(a, b) as i64)),
        b > 0 ==> 0 <= floor_rem(a, b) < b,
        b < 0 ==> b < floor_rem(a, b) <= 0,
        b > 0 ==> floor_rem(a, b) == a % b,
        b < 0 ==> floor_rem(a, b) == -((-a) % (-b)),
{
    lemma_quotient_remainder(a, b);
    let t = trem(a, b);
    let q = tdiv(a, b);
    let r = floor_rem(a, b);
    let k = if r == t { q } else { q - 1 };
    assert(a == b * q + t);
    assert(a - r == b * k) by (nonlinear_arith)
        requires
            a == b * q + t,
            r == t || r == t + b,
            k == (if r == t { q } else { q - 1 }),
    ;
    if b > 0 {
        assert(a == k * b + r) by (nonlinear_arith)
            requires
                a - r == b * k,
        ;
        vstd::arithmetic::div_mod::lemma_fundamental_div_mod_converse_mod(a, b, k, r);
    } else {
        assert(-a == k * (-b) + (-r)) by (nonlinear_arith)
            requires
                a - r == b * k,
        ;
        vstd::arithmetic::div_mod::lemma_fundamental_div_mod_converse_mod(-a, -b, k, -r);
    }
}

} // verus!
