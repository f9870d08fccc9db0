//! The evaluator: macro expansion, evaluation with proper tail calls, procedure
//! application, the special forms, and the built-in procedures of the root environment.
use crate::env::{entry_put, lookup, FrameV, Store};
use crate::error::{outcome, runtime_error, EvalError};
use crate::expr::{
    copy_exprs, display, exprs_view, kind_name, lemma_view_variant, list_of, list_value,
    push_str_lit, write_expr,
    Arity, Body, EnvRef, Expr, ExprV, Exprs, List, ParamsV, Primitive, ProcV, Procedure,
    ProcedureKind, ProcedureParams,
};
use crate::primitives::chars::{
    char_op_fn, char_op_spec, char_to_integer_fn, char_to_integer_spec, number_to_string_fn,
    number_to_string_spec, string_to_number_fn, string_to_number_spec, CharOp,
};
use crate::primitives::data::{
    car_fn, car_spec, cdr_fn, cdr_spec, cons_fn, cons_spec, equal_fn, equal_spec, eqv_fn, eqv_spec,
    kind_error, list_copy_fn, list_copy_spec, make_list_fn, make_list_spec, type_test_fn,
    type_test_spec, TypeTest,
};
use crate::primitives::nums::{
    abs_fn, abs_spec, arith, arith_fn, compare, compare_fn, division_fn, division_spec,
    is_integer_fn, is_integer_spec, square_fn, square_spec, Comparison, Division, IntOp,
};
use crate::primitives::output::{is_output, output_fn, output_text, output_value};
use crate::primitives::strings::{
    string_set_spec, string_set_value,
    make_string_fn, make_string_spec, string_compare_fn, string_compare_spec, string_length_fn,
    string_length_spec, string_of_fn, string_of_spec, StringComparison,
};
use crate::procedure::{check_arity, create_procedure, arity_error, NamedProcedure, ProcedureResult, ProcedureReturn};
use crate::text::push_decimal;
use vstd::prelude::*;

verus! {

/// The result of evaluating an expression.
pub type EvalResult = Result<Expr, EvalError>;

/// Whether a value is a proper list, the only value whose evaluation is a call.
pub open spec fn is_call(e: ExprV) -> bool {
    e matches ExprV::List(_, dotted) && !dotted
}

/// What evaluating a value that is no call gives, in environment `env` of `frames`.
pub open spec fn eval_atom(e: ExprV, frames: Seq<crate::env::FrameV>, env: int) -> Result<ExprV, Seq<char>> {
    match e {
        ExprV::Symbol(s) => match lookup(frames, env, s) {
            Some(v) => Ok(v),
            None => Err("undefined symbol: "@ + s),
        },
        ExprV::Void => Err("void object cannot be evaluated"@),
        ExprV::Procedure(_) => Err("procedure object cannot be evaluated"@),
        ExprV::List(_, _) => Err("dotted list cannot be evaluated"@),
        _ => Ok(e),
    }
}

/// An error whose message is `m`.
pub fn error_of(m: &str) -> (e: EvalError)
    ensures
        e.message() == m@,
{
    runtime_error(String::from_str(m))
}

/// An error whose message is `prefix` followed by the display of `e`.
pub fn display_error(prefix: &str, e: &Expr) -> (r: EvalError)
    ensures
        r.message() == prefix@ + display(e@),
{
    let mut s = String::from_str(prefix);
    write_expr(e, &mut s);
    runtime_error(s)
}

/// The error of an evaluation that used up its step budget.
pub open spec fn out_of_steps_message() -> Seq<char> {
    "evaluation exceeded its step limit"@
}

fn out_of_steps() -> (e: EvalError)
    ensures
        e.message() == out_of_steps_message(),
{
    proof {
        reveal_strlit("evaluation exceeded its step limit");
    }
    error_of("evaluation exceeded its step limit")
}

fn no_environment() -> (e: EvalError)
    ensures
        e.message() == "environment does not exist"@,
{
    error_of("environment does not exist")
}

/// Evaluates a value that is no call.
pub fn eval_non_call(expr: Expr, env: EnvRef, store: &Store) -> (r: EvalResult)
    requires
        !is_call(expr@),
    ensures
        outcome(r, eval_atom(expr@, store@, env.index as int)),
{
    proof {
        lemma_view_variant(expr);
        reveal_strlit("undefined symbol: ");
        reveal_strlit("void object cannot be evaluated");
        reveal_strlit("procedure object cannot be evaluated");
        reveal_strlit("dotted list cannot be evaluated");
    }
    match expr {
        Expr::Symbol(symbol) => match env.get_expr(store, symbol.as_str()) {
            Some(v) => Ok(v),
            None => {
                let mut s = String::from_str("undefined symbol: ");
                s.append(symbol.as_str());
                Err(runtime_error(s))
            },
        },
        Expr::Void => Err(error_of("void object cannot be evaluated")),
        Expr::Procedure(_) => Err(error_of("procedure object cannot be evaluated")),
        Expr::List(_) => Err(error_of("dotted list cannot be evaluated")),
        _ => Ok(expr),
    }
}

/// The name, kind and arity with which a built-in is bound in the root environment.
pub open spec fn builtin_arity(p: Primitive) -> Arity {
    match p {
        Primitive::Lambda => Arity::AtLeast(2),
        Primitive::Define => Arity::AtLeast(2),
        Primitive::SetBang => Arity::Exact(2),
        Primitive::StringSet => Arity::Exact(3),
        Primitive::Let => Arity::AtLeast(1),
        Primitive::Letrec => Arity::AtLeast(1),
        Primitive::Quote => Arity::Exact(1),
        Primitive::Quasiquote => Arity::Exact(1),
        Primitive::If => Arity::Range(2, 3),
        Primitive::Cond => Arity::AtLeast(1),
        Primitive::Begin => Arity::Any,
        Primitive::DefineMacro => Arity::AtLeast(2),
        Primitive::Eval => Arity::Exact(1),
        Primitive::Apply => Arity::AtLeast(2),
        Primitive::Add | Primitive::Mult | Primitive::ListOf => Arity::Any,
        Primitive::Sub | Primitive::Divide => Arity::AtLeast(1),
        Primitive::MakeList | Primitive::NumberToString | Primitive::StringToNumber
        | Primitive::MakeString => Arity::AtLeast(1),
        Primitive::StringFromChars => Arity::AtLeast(0),
        Primitive::Eqv | Primitive::Eq | Primitive::Equal | Primitive::Less | Primitive::NumEqual
        | Primitive::More | Primitive::Quotient | Primitive::Remainder | Primitive::Modulo
        | Primitive::Cons | Primitive::StringEq | Primitive::StringLt | Primitive::StringGt
        | Primitive::StringLe | Primitive::StringGe => Arity::Exact(2),
        Primitive::Display | Primitive::Write | Primitive::WriteChar => Arity::Range(1, 2),
        Primitive::Newline => Arity::Range(0, 1),
        Primitive::WriteString => Arity::Range(1, 4),
        _ => Arity::Exact(1),
    }
}

/// Whether a built-in receives its arguments unevaluated.
pub open spec fn builtin_is_form(p: Primitive) -> bool {
    match p {
        Primitive::Lambda | Primitive::Define | Primitive::SetBang | Primitive::StringSet | Primitive::Let
        | Primitive::Letrec | Primitive::Quote | Primitive::Quasiquote | Primitive::If
        | Primitive::Cond | Primitive::Begin | Primitive::DefineMacro => true,
        _ => false,
    }
}

/// The arity of a built-in.
pub fn builtin_arity_of(p: Primitive) -> (a: Arity)
    ensures
        a == builtin_arity(p),
{
    match p {
        Primitive::Lambda => Arity::AtLeast(2),
        Primitive::Define => Arity::AtLeast(2),
        Primitive::SetBang => Arity::Exact(2),
        Primitive::StringSet => Arity::Exact(3),
        Primitive::Let => Arity::AtLeast(1),
        Primitive::Letrec => Arity::AtLeast(1),
        Primitive::Quote => Arity::Exact(1),
        Primitive::Quasiquote => Arity::Exact(1),
        Primitive::If => Arity::Range(2, 3),
        Primitive::Cond => Arity::AtLeast(1),
        Primitive::Begin => Arity::Any,
        Primitive::DefineMacro => Arity::AtLeast(2),
        Primitive::Eval => Arity::Exact(1),
        Primitive::Apply => Arity::AtLeast(2),
        Primitive::Add | Primitive::Mult | Primitive::ListOf => Arity::Any,
        Primitive::Sub | Primitive::Divide => Arity::AtLeast(1),
        Primitive::MakeList | Primitive::NumberToString | Primitive::StringToNumber
        | Primitive::MakeString => Arity::AtLeast(1),
        Primitive::StringFromChars => Arity::AtLeast(0),
        Primitive::Eqv | Primitive::Eq | Primitive::Equal | Primitive::Less | Primitive::NumEqual
        | Primitive::More | Primitive::Quotient | Primitive::Remainder | Primitive::Modulo
        | Primitive::Cons | Primitive::StringEq | Primitive::StringLt | Primitive::StringGt
        | Primitive::StringLe | Primitive::StringGe => Arity::Exact(2),
        Primitive::Display | Primitive::Write | Primitive::WriteChar => Arity::Range(1, 2),
        Primitive::Newline => Arity::Range(0, 1),
        Primitive::WriteString => Arity::Range(1, 4),
        _ => Arity::Exact(1),
    }
}

/// Whether a built-in receives its arguments unevaluated.
pub fn builtin_kind_of(p: Primitive) -> (k: ProcedureKind)
    ensures
        (k == ProcedureKind::SpecialForm) == builtin_is_form(p),
{
    match p {
        Primitive::Lambda | Primitive::Define | Primitive::SetBang | Primitive::StringSet | Primitive::Let
        | Primitive::Letrec | Primitive::Quote | Primitive::Quasiquote | Primitive::If
        | Primitive::Cond | Primitive::Begin | Primitive::DefineMacro => ProcedureKind::SpecialForm,
        _ => ProcedureKind::Procedure,
    }
}

/// The name a built-in is bound to in the root environment.
pub open spec fn builtin_name_v(p: Primitive) -> Seq<char> {
    match p {
        Primitive::Lambda => "lambda"@,
        Primitive::Define => "define"@,
        Primitive::SetBang => "set!"@,
        Primitive::Let => "let"@,
        Primitive::Letrec => "letrec"@,
        Primitive::Quote => "quote"@,
        Primitive::Quasiquote => "quasiquote"@,
        Primitive::If => "if"@,
        Primitive::Cond => "cond"@,
        Primitive::Begin => "begin"@,
        Primitive::DefineMacro => "define-macro"@,
        Primitive::Eval => "eval"@,
        Primitive::Apply => "apply"@,
        Primitive::Eqv => "eqv?"@,
        Primitive::Eq => "eq?"@,
        Primitive::Equal => "equal?"@,
        Primitive::Add => "+"@,
        Primitive::Sub => "-"@,
        Primitive::Mult => "*"@,
        Primitive::Divide => "/"@,
        Primitive::Less => "<"@,
        Primitive::NumEqual => "="@,
        Primitive::More => ">"@,
        Primitive::Abs => "abs"@,
        Primitive::Square => "square"@,
        Primitive::IsInteger => "integer?"@,
        Primitive::Quotient => "quotient"@,
        Primitive::Remainder => "remainder"@,
        Primitive::Modulo => "modulo"@,
        Primitive::Cons => "cons"@,
        Primitive::Car => "car"@,
        Primitive::Cdr => "cdr"@,
        Primitive::MakeList => "make-list"@,
        Primitive::ListCopy => "list-copy"@,
        Primitive::NumberToString => "number->string"@,
        Primitive::StringToNumber => "string->number"@,
        Primitive::CharToInteger => "char->integer"@,
        Primitive::IsPair => "pair?"@,
        Primitive::IsNumber => "number?"@,
        Primitive::IsSymbol => "symbol?"@,
        Primitive::IsString => "string?"@,
        Primitive::IsProcedure => "procedure?"@,
        Primitive::IsChar => "char?"@,
        Primitive::IsPort => "port?"@,
        Primitive::StringEq => "string=?"@,
        Primitive::StringLt => "string<?"@,
        Primitive::StringGt => "string>?"@,
        Primitive::StringLe => "string<=?"@,
        Primitive::StringGe => "string>=?"@,
        Primitive::MakeString => "make-string"@,
        Primitive::StringFromChars => "string"@,
        Primitive::StringLength => "string-length"@,
        Primitive::CharUpcase => "char-upcase"@,
        Primitive::CharDowncase => "char-downcase"@,
        Primitive::CharFoldcase => "char-foldcase"@,
        Primitive::IsCharWhitespace => "char-whitespace?"@,
        Primitive::IsCharUpperCase => "char-upper-case?"@,
        Primitive::IsCharLowerCase => "char-lower-case?"@,
        Primitive::IsCharAlphabetic => "char-alphabetic?"@,
        Primitive::IsCharNumeric => "char-numeric?"@,
        Primitive::DigitValue => "digit-value"@,
        Primitive::Display => "display"@,
        Primitive::Write => "write"@,
        Primitive::Newline => "newline"@,
        Primitive::WriteChar => "write-char"@,
        Primitive::WriteString => "write-string"@,
        Primitive::ListOf => "list"@,
        Primitive::IsNull => "null?"@,
        Primitive::StringSet => "string-set!"@,
    }
}

/// The name a built-in is bound to.
pub fn builtin_name(p: Primitive) -> (s: &'static str)
    ensures
        s@ == builtin_name_v(p),
{
    match p {
        Primitive::Lambda => "lambda",
        Primitive::Define => "define",
        Primitive::SetBang => "set!",
        Primitive::Let => "let",
        Primitive::Letrec => "letrec",
        Primitive::Quote => "quote",
        Primitive::Quasiquote => "quasiquote",
        Primitive::If => "if",
        Primitive::Cond => "cond",
        Primitive::Begin => "begin",
        Primitive::DefineMacro => "define-macro",
        Primitive::Eval => "eval",
        Primitive::Apply => "apply",
        Primitive::Eqv => "eqv?",
        Primitive::Eq => "eq?",
        Primitive::Equal => "equal?",
        Primitive::Add => "+",
        Primitive::Sub => "-",
        Primitive::Mult => "*",
        Primitive::Divide => "/",
        Primitive::Less => "<",
        Primitive::NumEqual => "=",
        Primitive::More => ">",
        Primitive::Abs => "abs",
        Primitive::Square => "square",
        Primitive::IsInteger => "integer?",
        Primitive::Quotient => "quotient",
        Primitive::Remainder => "remainder",
        Primitive::Modulo => "modulo",
        Primitive::Cons => "cons",
        Primitive::Car => "car",
        Primitive::Cdr => "cdr",
        Primitive::MakeList => "make-list",
        Primitive::ListCopy => "list-copy",
        Primitive::NumberToString => "number->string",
        Primitive::StringToNumber => "string->number",
        Primitive::CharToInteger => "char->integer",
        Primitive::IsPair => "pair?",
        Primitive::IsNumber => "number?",
        Primitive::IsSymbol => "symbol?",
        Primitive::IsString => "string?",
        Primitive::IsProcedure => "procedure?",
        Primitive::IsChar => "char?",
        Primitive::IsPort => "port?",
        Primitive::StringEq => "string=?",
        Primitive::StringLt => "string<?",
        Primitive::StringGt => "string>?",
        Primitive::StringLe => "string<=?",
        Primitive::StringGe => "string>=?",
        Primitive::MakeString => "make-string",
        Primitive::StringFromChars => "string",
        Primitive::StringLength => "string-length",
        Primitive::CharUpcase => "char-upcase",
        Primitive::CharDowncase => "char-downcase",
        Primitive::CharFoldcase => "char-foldcase",
        Primitive::IsCharWhitespace => "char-whitespace?",
        Primitive::IsCharUpperCase => "char-upper-case?",
        Primitive::IsCharLowerCase => "char-lower-case?",
        Primitive::IsCharAlphabetic => "char-alphabetic?",
        Primitive::IsCharNumeric => "char-numeric?",
        Primitive::DigitValue => "digit-value",
        Primitive::Display => "display",
        Primitive::Write => "write",
        Primitive::Newline => "newline",
        Primitive::WriteChar => "write-char",
        Primitive::WriteString => "write-string",
        Primitive::ListOf => "list",
        Primitive::IsNull => "null?",
        Primitive::StringSet => "string-set!",
    }
}

} // verus!

verus! {

/// Whether `r` and the environments `after` are the decided outcome `o`: a value or an error,
/// and the environments after it.
pub open spec fn outcome_with(r: EvalResult, after: Seq<FrameV>, o: (Result<ExprV, Seq<char>>, Seq<FrameV>)) -> bool {
    outcome(r, o.0) && after == o.1
}

/// Whether `r` and the environments `after` are the decided step `o`: a value or an error, or
/// an expression handed back as a tail call in the environment with the given index.
pub open spec fn step_outcome(r: ProcedureResult, after: Seq<FrameV>, o: (Step, Seq<FrameV>)) -> bool {
    after == o.1 && match o.0 {
        Step::Done(res) => proc_outcome(r, res),
        Step::Tail(e, en_i) => r matches Ok(ProcedureReturn::TailCall(t, en)) && t@ == e && en.index == en_i,
    }
}

/// Whether the text written after is the text written before, followed by more.
pub open spec fn appends(before: Seq<char>, after: Seq<char>) -> bool {
    before.len() <= after.len() && forall|i: int| 0 <= i < before.len() ==> #[trigger] after[i] == before[i]
}

/// Whether the store has at least the frames it had.
pub open spec fn grows(before: Seq<crate::env::FrameV>, after: Seq<crate::env::FrameV>) -> bool {
    before.len() <= after.len()
}

/// A new environment whose parent is `env`, or an error when the store is full.
fn extend_env(env: EnvRef, store: &mut Store) -> (r: Result<EnvRef, EvalError>)
    ensures
        grows(old(store)@, final(store)@),
        appends(old(store).written(), final(store).written()),
        r is Ok ==> r->Ok_0.index < final(store)@.len(),
        old(store)@.len() >= usize::MAX ==> r is Err && r->Err_0.message() == "too many environments"@
            && final(store)@ == old(store)@,
        old(store)@.len() < usize::MAX ==> r == Ok::<EnvRef, EvalError>(EnvRef { index: old(store)@.len() as usize })
            && final(store)@ == old(store)@.push(
            crate::env::FrameV { bindings: Seq::empty(), macros: Seq::empty(), parent: Some(env), output: Seq::empty() },
        ),
{
    if store.len() == usize::MAX {
        return Err(error_of("too many environments"));
    }
    Ok(env.extend(store))
}

/// Evaluates `expr` in `env`: expands its macro calls, then evaluates the result. A value
/// that is no call is evaluated at once; a call takes steps of `fuel`, and fails once the
/// steps are used up.
pub fn eval_expr(expr: Expr, env: EnvRef, store: &mut Store, fuel: u64) -> (r: EvalResult)
    ensures
        grows(old(store)@, final(store)@),
        appends(old(store).written(), final(store).written()),
        !is_call(expr@) ==> outcome(r, eval_atom(expr@, old(store)@, env.index as int))
            && final(store)@ == old(store)@,
        tree_value(expr@, old(store)@, env.index as int, fuel as nat) is Some ==> outcome_with(
            r,
            final(store)@,
            tree_value(expr@, old(store)@, env.index as int, fuel as nat)->0,
        ),
    decreases fuel,
{
    if !expr.is_proper_list() {
        return eval_non_call(expr, env, store);
    }
    if fuel == 0 {
        return Err(out_of_steps());
    }
    let expanded = match expand_macros(expr, env, store, fuel - 1) {
        Ok(e) => e,
        Err(e) => {
            return Err(e);
        },
    };
    eval_expanded_expr(expanded, env, store, fuel - 1)
}

/// Expands the macro calls of `expr`: the arguments of a call first, then the call itself
/// when its operator is a symbol bound to a macro, until no macro call is left at the top.
/// A value that is no call, and the empty list, stay as they are.
pub fn expand_macros(expr: Expr, env: EnvRef, store: &mut Store, fuel: u64) -> (r: EvalResult)
    ensures
        grows(old(store)@, final(store)@),
        appends(old(store).written(), final(store).written()),
        !is_call(expr@) || expr@ == ExprV::List(Seq::empty(), false) ==> r == Ok::<Expr, EvalError>(expr)
            && final(store)@ == old(store)@,
        expand_value(expr@, old(store)@, env.index as int, fuel as nat) is Some ==> outcome_with(
            r,
            final(store)@,
            expand_value(expr@, old(store)@, env.index as int, fuel as nat)->0,
        ),
    decreases fuel,
{
    proof {
        lemma_view_variant(expr);
    }
    let list = match expr {
        Expr::List(l) => l,
        other => {
            return Ok(other);
        },
    };
    proof {
        List::lemma_view(list);
        crate::expr::lemma_exprs_view_len(list.items());
    }
    if !list.is_proper() || list.is_empty() {
        return Ok(Expr::List(list));
    }
    if fuel == 0 {
        return Err(out_of_steps());
    }
    expand_call(list, env, store, fuel - 1)
}

/// Expands the macro calls of a call.
fn expand_call(list: List, env: EnvRef, store: &mut Store, fuel: u64) -> (r: EvalResult)
    ensures
        grows(old(store)@, final(store)@),
        appends(old(store).written(), final(store).written()),
        !list.dotted() && list.items().len() > 0 && expand_call_value(
            exprs_view(list.items()),
            old(store)@,
            env.index as int,
            fuel as nat,
        ) is Some ==> outcome_with(
            r,
            final(store)@,
            expand_call_value(exprs_view(list.items()), old(store)@, env.index as int, fuel as nat)->0,
        ),
    decreases fuel,
{
    if fuel == 0 {
        return Err(out_of_steps());
    }
    let ghost items = list.items();
    let ghost cv = exprs_view(items);
    let ghost decided = !list.dotted() && items.len() > 0 && expand_call_value(
        cv,
        old(store)@,
        env.index as int,
        fuel as nat,
    ) is Some;
    proof {
        crate::expr::lemma_exprs_view_len(items);
        if items.len() > 0 {
            lemma_exprs_view_split(items);
        }
    }
    let (first, rest) = match list.split_first() {
        Ok(parts) => parts,
        Err(l) => {
            return Ok(Expr::List(l));
        },
    };
    let rest = rest.into_exprs();
    let ghost rv = rest@;
    let ghost xs = exprs_view(rv);
    let ghost g = (fuel - 1) as nat;
    proof {
        crate::expr::lemma_exprs_view_len(rv);
        if decided {
            lemma_expand_each_prefix(xs, old(store)@, env.index as int, g, 0);
        }
        assert(rv.skip(0) =~= rv);
        assert(xs.take(0) =~= Seq::<ExprV>::empty());
    }
    let n = rest.len();
    let mut rest = rest;
    let mut expanded: Exprs = Vec::new();
    let mut i: usize = 0;
    proof {
        assert(exprs_view(expanded@) =~= Seq::<ExprV>::empty());
    }
    while rest.len() > 0
        invariant
            grows(old(store)@, store@),
            appends(old(store).written(), store.written()),
            fuel > 0,
            g == fuel - 1,
            n == rv.len(),
            0 <= i <= n,
            rest@ == rv.skip(i as int),
            xs == exprs_view(rv),
            xs.len() == rv.len(),
            rv == items.drop_first(),
            items == list.items(),
            cv == exprs_view(items),
            decided == (!list.dotted() && items.len() > 0 && expand_call_value(
                cv,
                old(store)@,
                env.index as int,
                fuel as nat,
            ) is Some),
            decided ==> cv.drop_first() == xs && expand_each(xs, old(store)@, env.index as int, g) is Some
                && expand_each(xs.take(i as int), old(store)@, env.index as int, g) == Some(
                (Ok::<Seq<ExprV>, Seq<char>>(exprs_view(expanded@)), store@),
            ),
        decreases rest@.len(),
    {
        assert(rest@.len() == n - i);
        let e = rest.remove(0);
        proof {
            crate::expr::lemma_exprs_view_index(rv, i as int);
            assert(e == rv[i as int]);
            assert(rv.skip(i + 1) =~= rv.skip(i as int).drop_first());
            assert(xs.take(i + 1).drop_last() =~= xs.take(i as int));
            assert(xs.take(i + 1).last() == xs[i as int]);
            if decided {
                lemma_expand_each_prefix(xs, old(store)@, env.index as int, g, i + 1);
            }
        }
        let ghost eb = expanded@;
        match expand_macros(e, env, store, fuel - 1) {
            Ok(x) => {
                expanded.push(x);
                proof {
                    crate::expr::lemma_exprs_view_push(eb, x);
                }
            },
            Err(err) => {
                proof {
                    if decided {
                        lemma_expand_each_error(xs, old(store)@, env.index as int, g, i + 1);
                    }
                }
                return Err(err);
            },
        }
        i = i + 1;
    }
    proof {
        assert(xs.take(i as int) =~= xs);
    }
    let ghost eb_all = expanded@;
    let ghost f1 = store@;
    proof {
        lemma_view_variant(first);
    }
    match first {
        Expr::Symbol(name) => match env.get_macro(store, name.as_str()) {
            Some(m) => {
                let ghost xv = expanded@;
                let applied_r = m.apply(expanded, env, store, fuel - 1);
                proof {
                    lemma_proc_step_outcome(m, xv, env, (fuel - 1) as u64, applied_r, f1, store@);
                }
                let result = match applied_r {
                    Ok(ProcedureReturn::Value(e)) => e,
                    Ok(ProcedureReturn::TailCall(e, eval_env)) => {
                        match eval_expanded_expr(e, eval_env, store, fuel - 1) {
                            Ok(v) => v,
                            Err(err) => {
                                return Err(err);
                            },
                        }
                    },
                    Err(err) => {
                        return Err(err);
                    },
                };
                expand_macros(result, env, store, fuel - 1)
            },
            None => {
                expanded.insert(0, Expr::Symbol(name));
                proof {
                    assert(exprs_view(expanded@) =~= seq![cv[0]] + exprs_view(eb_all)) by {
                        crate::expr::lemma_exprs_view_len(expanded@);
                        crate::expr::lemma_exprs_view_len(eb_all);
                        assert forall|j: int| 0 <= j < expanded@.len() implies exprs_view(expanded@)[j] == (seq![
                            cv[0],
                        ] + exprs_view(eb_all))[j] by {
                            crate::expr::lemma_exprs_view_index(expanded@, j);
                            if j > 0 {
                                crate::expr::lemma_exprs_view_index(eb_all, j - 1);
                            }
                        }
                    }
                }
                Ok(Expr::new_proper_list(expanded))
            },
        },
        other => {
            expanded.insert(0, other);
            proof {
                assert(exprs_view(expanded@) =~= seq![cv[0]] + exprs_view(eb_all)) by {
                    crate::expr::lemma_exprs_view_len(expanded@);
                    crate::expr::lemma_exprs_view_len(eb_all);
                    assert forall|j: int| 0 <= j < expanded@.len() implies exprs_view(expanded@)[j] == (seq![
                        cv[0],
                    ] + exprs_view(eb_all))[j] by {
                        crate::expr::lemma_exprs_view_index(expanded@, j);
                        if j > 0 {
                            crate::expr::lemma_exprs_view_index(eb_all, j - 1);
                        }
                    }
                }
            }
            Ok(Expr::new_proper_list(expanded))
        },
    }
}

/// Evaluates an expression whose macro calls are expanded.
pub fn eval_expanded_expr(expr: Expr, env: EnvRef, store: &mut Store, fuel: u64) -> (r: EvalResult)
    ensures
        grows(old(store)@, final(store)@),
        appends(old(store).written(), final(store).written()),
        !is_call(expr@) ==> outcome(r, eval_atom(expr@, old(store)@, env.index as int))
            && final(store)@ == old(store)@,
        expanded_value(expr@, old(store)@, env.index as int, fuel as nat) is Some ==> outcome_with(
            r,
            final(store)@,
            expanded_value(expr@, old(store)@, env.index as int, fuel as nat)->0,
        ),
    decreases fuel,
{
    if !expr.is_proper_list() {
        return eval_non_call(expr, env, store);
    }
    if fuel == 0 {
        return Err(out_of_steps());
    }
    run_calls(expr, env, store, fuel - 1)
}

/// Evaluates a call, and the calls its procedures hand back as tail calls.
fn run_calls(expr: Expr, env: EnvRef, store: &mut Store, fuel: u64) -> (r: EvalResult)
    ensures
        grows(old(store)@, final(store)@),
        appends(old(store).written(), final(store).written()),
        run_value(expr@, old(store)@, env.index as int, fuel as nat) is Some ==> outcome_with(
            r,
            final(store)@,
            run_value(expr@, old(store)@, env.index as int, fuel as nat)->0,
        ),
    decreases fuel,
{
    if !expr.is_proper_list() {
        return eval_non_call(expr, env, store);
    }
    if fuel == 0 {
        return Err(out_of_steps());
    }
    let list = match expr {
        Expr::List(l) => {
            proof {
                List::lemma_view(l);
            }
            l.into_exprs()
        },
        _ => {
            return Err(error_of("dotted list cannot be evaluated"));
        },
    };
    proof {
        if list@.len() > 0 {
            lemma_exprs_view_split(list@);
        }
    }
    match eval_list(list, env, store, fuel - 1) {
        Ok(ProcedureReturn::Value(v)) => Ok(v),
        Ok(ProcedureReturn::TailCall(e, eval_env)) => continue_calls(e, eval_env, store, fuel - 1),
        Err(err) => Err(err),
    }
}

/// Evaluates expressions handed back as tail calls: a call whose procedure hands back a
/// tail call goes on in this loop, so that tail calls take no stack.
fn continue_calls(expr: Expr, env: EnvRef, store: &mut Store, fuel: u64) -> (r: EvalResult)
    ensures
        grows(old(store)@, final(store)@),
        appends(old(store).written(), final(store).written()),
        run_value(expr@, old(store)@, env.index as int, fuel as nat) is Some ==> outcome_with(
            r,
            final(store)@,
            run_value(expr@, old(store)@, env.index as int, fuel as nat)->0,
        ),
    decreases fuel,
{
    let ghost decided = run_value(expr@, old(store)@, env.index as int, fuel as nat) is Some;
    let ghost value = run_value(expr@, old(store)@, env.index as int, fuel as nat);
    let mut cur = expr;
    let mut cur_env = env;
    let mut f = fuel;
    loop
        invariant
            grows(old(store)@, store@),
            appends(old(store).written(), store.written()),
            f <= fuel,
            decided == (value is Some),
            value == run_value(expr@, old(store)@, env.index as int, fuel as nat),
            decided ==> run_value(cur@, store@, cur_env.index as int, f as nat) == value,
        decreases f,
    {
        if !cur.is_proper_list() {
            return eval_non_call(cur, cur_env, store);
        }
        if f == 0 {
            return Err(out_of_steps());
        }
        f = f - 1;
        let list = match cur {
            Expr::List(l) => {
                proof {
                    List::lemma_view(l);
                }
                l.into_exprs()
            },
            _ => {
                return Err(error_of("dotted list cannot be evaluated"));
            },
        };
        match eval_list(list, cur_env, store, f) {
            Ok(ProcedureReturn::Value(v)) => {
                return Ok(v);
            },
            Ok(ProcedureReturn::TailCall(e, eval_env)) => {
                cur = e;
                cur_env = eval_env;
            },
            Err(err) => {
                return Err(err);
            },
        }
    }
}

/// What `named_let_outcome` says agrees with `named_let_step`.
proof fn lemma_named_let_step_outcome(
    name: Seq<char>,
    ops: Seq<ExprV>,
    env: EnvRef,
    fuel: u64,
    r: ProcedureResult,
    before: Seq<FrameV>,
    after: Seq<FrameV>,
)
    requires
        named_let_outcome(name, ops, env, fuel, r, before, after),
    ensures
        named_let_step(name, ops, before, env.index as int, fuel as nat) is Some ==> step_outcome(
            r,
            after,
            named_let_step(name, ops, before, env.index as int, fuel as nat)->0,
        ),
{
    assert(EnvRef { index: (env.index as int) as usize } == env);
}

/// What `let_outcome` says agrees with `let_step`.
proof fn lemma_let_step_outcome(
    first: ExprV,
    body: Seq<ExprV>,
    rec: bool,
    env: EnvRef,
    fuel: u64,
    r: ProcedureResult,
    before: Seq<FrameV>,
    after: Seq<FrameV>,
)
    requires
        let_outcome(first, body, rec, env, fuel, r, before, after),
    ensures
        let_step(first, body, rec, before, env.index as int, fuel as nat) is Some ==> step_outcome(
            r,
            after,
            let_step(first, body, rec, before, env.index as int, fuel as nat)->0,
        ),
{
    assert(EnvRef { index: (env.index as int) as usize } == env);
}

#[verifier::spinoff_prover]
#[verifier::rlimit(60)]
proof fn lemma_form_step_outcome_a(
    p: Primitive,
    args: Seq<Expr>,
    env: EnvRef,
    fuel: u64,
    r: ProcedureResult,
    before: Seq<FrameV>,
    after: Seq<FrameV>,
)
    requires
        fuel >= 2,
        builtin_call(p, args, env, (fuel - 1) as u64, r, before, after),
        crate::procedure::arity_accepts(builtin_arity(p), args.len()),
        p == Primitive::Quote || p == Primitive::If || p == Primitive::Begin || p == Primitive::Cond || p == Primitive::Lambda,
    ensures
        form_step(p, exprs_view(args), before, env.index as int, fuel as nat) is Some ==> step_outcome(
            r,
            after,
            form_step(p, exprs_view(args), before, env.index as int, fuel as nat)->0,
        ),
{
    crate::expr::lemma_exprs_view_len(args);
    if args.len() > 0 {
        lemma_exprs_view_split(args);
        lemma_view_variant(args[0]);
    }
    if args.len() > 1 {
        crate::expr::lemma_exprs_view_index(args, 1);
    }
    if args.len() > 2 {
        crate::expr::lemma_exprs_view_index(args, 2);
    }
    assert(EnvRef { index: (env.index as int) as usize } == env);
}

#[verifier::spinoff_prover]
#[verifier::rlimit(60)]
proof fn lemma_form_step_outcome_b(
    p: Primitive,
    args: Seq<Expr>,
    env: EnvRef,
    fuel: u64,
    r: ProcedureResult,
    before: Seq<FrameV>,
    after: Seq<FrameV>,
)
    requires
        fuel >= 2,
        builtin_call(p, args, env, (fuel - 1) as u64, r, before, after),
        crate::procedure::arity_accepts(builtin_arity(p), args.len()),
        p == Primitive::Define || p == Primitive::StringSet || p == Primitive::SetBang || p == Primitive::DefineMacro || p == Primitive::Quasiquote,
    ensures
        form_step(p, exprs_view(args), before, env.index as int, fuel as nat) is Some ==> step_outcome(
            r,
            after,
            form_step(p, exprs_view(args), before, env.index as int, fuel as nat)->0,
        ),
{
    crate::expr::lemma_exprs_view_len(args);
    if args.len() > 0 {
        lemma_exprs_view_split(args);
        lemma_view_variant(args[0]);
    }
    if args.len() > 1 {
        crate::expr::lemma_exprs_view_index(args, 1);
    }
    if args.len() > 2 {
        crate::expr::lemma_exprs_view_index(args, 2);
    }
    assert(EnvRef { index: (env.index as int) as usize } == env);
}

#[verifier::spinoff_prover]
#[verifier::rlimit(100)]
proof fn lemma_form_step_outcome_c(
    p: Primitive,
    args: Seq<Expr>,
    env: EnvRef,
    fuel: u64,
    r: ProcedureResult,
    before: Seq<FrameV>,
    after: Seq<FrameV>,
)
    requires
        fuel >= 2,
        builtin_call(p, args, env, (fuel - 1) as u64, r, before, after),
        crate::procedure::arity_accepts(builtin_arity(p), args.len()),
        p == Primitive::Let,
    ensures
        form_step(p, exprs_view(args), before, env.index as int, fuel as nat) is Some ==> step_outcome(
            r,
            after,
            form_step(p, exprs_view(args), before, env.index as int, fuel as nat)->0,
        ),
{
    crate::expr::lemma_exprs_view_len(args);
    if args.len() > 0 {
        lemma_exprs_view_split(args);
        lemma_view_variant(args[0]);
    }
    if args.len() > 1 {
        crate::expr::lemma_exprs_view_index(args, 1);
    }
    if args.len() > 2 {
        crate::expr::lemma_exprs_view_index(args, 2);
    }
    assert(EnvRef { index: (env.index as int) as usize } == env);
    if p == Primitive::Let && !(args[0]@ is Symbol) && fuel >= 3 {
        lemma_let_step_outcome(args[0]@, exprs_view(args.drop_first()), false, env, (fuel - 2) as u64, r, before, after);
    }
    if p == Primitive::Let && args[0]@ is Symbol && fuel >= 5 {
        lemma_named_let_step_outcome(args[0]@->Symbol_0, exprs_view(args.drop_first()), env, (fuel - 3) as u64, r, before, after);
    }
}

#[verifier::spinoff_prover]
#[verifier::rlimit(100)]
proof fn lemma_form_step_outcome_d(
    p: Primitive,
    args: Seq<Expr>,
    env: EnvRef,
    fuel: u64,
    r: ProcedureResult,
    before: Seq<FrameV>,
    after: Seq<FrameV>,
)
    requires
        fuel >= 2,
        builtin_call(p, args, env, (fuel - 1) as u64, r, before, after),
        crate::procedure::arity_accepts(builtin_arity(p), args.len()),
        p == Primitive::Letrec,
    ensures
        form_step(p, exprs_view(args), before, env.index as int, fuel as nat) is Some ==> step_outcome(
            r,
            after,
            form_step(p, exprs_view(args), before, env.index as int, fuel as nat)->0,
        ),
{
    crate::expr::lemma_exprs_view_len(args);
    if args.len() > 0 {
        lemma_exprs_view_split(args);
        lemma_view_variant(args[0]);
    }
    if args.len() > 1 {
        crate::expr::lemma_exprs_view_index(args, 1);
    }
    if args.len() > 2 {
        crate::expr::lemma_exprs_view_index(args, 2);
    }
    assert(EnvRef { index: (env.index as int) as usize } == env);
    if p == Primitive::Letrec && fuel >= 3 {
        lemma_let_step_outcome(args[0]@, exprs_view(args.drop_first()), true, env, (fuel - 2) as u64, r, before, after);
    }
}

/// What `builtin_call` says of a special form agrees with `form_step`.
proof fn lemma_form_step_outcome(
    p: Primitive,
    args: Seq<Expr>,
    env: EnvRef,
    fuel: u64,
    r: ProcedureResult,
    before: Seq<FrameV>,
    after: Seq<FrameV>,
)
    requires
        fuel >= 2,
        builtin_call(p, args, env, (fuel - 1) as u64, r, before, after),
        crate::procedure::arity_accepts(builtin_arity(p), args.len()),
    ensures
        form_step(p, exprs_view(args), before, env.index as int, fuel as nat) is Some ==> step_outcome(
            r,
            after,
            form_step(p, exprs_view(args), before, env.index as int, fuel as nat)->0,
        ),
{
    if p == Primitive::Quote || p == Primitive::If || p == Primitive::Begin || p == Primitive::Cond
        || p == Primitive::Lambda {
        lemma_form_step_outcome_a(p, args, env, fuel, r, before, after);
    } else if p == Primitive::Define || p == Primitive::StringSet || p == Primitive::SetBang
        || p == Primitive::DefineMacro || p == Primitive::Quasiquote {
        lemma_form_step_outcome_b(p, args, env, fuel, r, before, after);
    } else if p == Primitive::Let {
        lemma_form_step_outcome_c(p, args, env, fuel, r, before, after);
    } else if p == Primitive::Letrec {
        lemma_form_step_outcome_d(p, args, env, fuel, r, before, after);
    }
}

/// What `applied` says of a procedure agrees with `proc_step`.
proof fn lemma_proc_step_outcome(
    p: Procedure,
    args: Seq<Expr>,
    env: EnvRef,
    fuel: u64,
    r: ProcedureResult,
    before: Seq<FrameV>,
    after: Seq<FrameV>,
)
    requires
        applied(p, args, env, fuel, r, before, after),
    ensures
        proc_step(p@, exprs_view(args), before, env.index as int, fuel as nat) is Some ==> step_outcome(
            r,
            after,
            proc_step(p@, exprs_view(args), before, env.index as int, fuel as nat)->0,
        ),
    decreases fuel,
{
    crate::expr::lemma_exprs_view_len(args);
    if args.len() > 0 {
        crate::expr::lemma_exprs_view_index(args, 0);
        crate::expr::lemma_exprs_view_index(args, args.len() - 1);
        lemma_view_variant(args[0]);
        lemma_view_variant(args.last());
    }
    match p {
        Procedure::Atomic(a) => {
            if fuel >= 2 && a.kind == ProcedureKind::SpecialForm && crate::procedure::arity_accepts(a.arity, args.len())
                && crate::procedure::arity_accepts(builtin_arity(a.proc), args.len()) {
                lemma_form_step_outcome(a.proc, args, env, fuel, r, before, after);
            }
            if fuel >= 3 && a.proc == Primitive::Apply && crate::procedure::arity_accepts(a.arity, args.len())
                && crate::procedure::arity_accepts(builtin_arity(a.proc), args.len()) && args[0] is Procedure
                && args.last() is List {
                let q = args[0]->Procedure_0;
                let l = args.last()->List_0;
                List::lemma_view(l);
                let mid = args.subrange(1, args.len() - 1);
                let args2 = mid + l.items();
                lemma_proc_step_outcome(q, args2, env, (fuel - 3) as u64, r, before, after);
                crate::expr::lemma_exprs_view_add(mid, l.items());
                crate::expr::lemma_exprs_view_len(mid);
                assert(exprs_view(mid) =~= exprs_view(args).subrange(1, args.len() - 1)) by {
                    assert forall|i: int| 0 <= i < mid.len() implies exprs_view(mid)[i] == exprs_view(args).subrange(
                        1,
                        args.len() - 1,
                    )[i] by {
                        crate::expr::lemma_exprs_view_index(mid, i);
                        crate::expr::lemma_exprs_view_index(args, i + 1);
                    }
                }
            }
        },
        Procedure::Compound(_) => {
            if fuel > 0 {
                lemma_compound_step_outcome(
                    p@->Compound_0,
                    p@->Compound_1,
                    p@->Compound_2,
                    p@->Compound_3,
                    exprs_view(args),
                    (fuel - 1) as u64,
                    r,
                    before,
                    after,
                );
            }
        },
    }
}

/// What `compound_call` says agrees with `compound_step`.
proof fn lemma_compound_step_outcome(
    name: Option<Seq<char>>,
    pv: ParamsV,
    body: Seq<ExprV>,
    cenv: EnvRef,
    vs: Seq<ExprV>,
    fuel: u64,
    r: ProcedureResult,
    before: Seq<FrameV>,
    after: Seq<FrameV>,
)
    requires
        compound_call(name, pv, body, cenv, vs, fuel, r, before, after),
    ensures
        compound_step(name, pv, body, cenv, vs, before, fuel as nat) is Some ==> step_outcome(
            r,
            after,
            compound_step(name, pv, body, cenv, vs, before, fuel as nat)->0,
        ),
{
}

/// Evaluates a call: its first element must evaluate to a procedure, which is applied to
/// the other elements, evaluated first unless it is a special form.
#[verifier::rlimit(60)]
#[verifier::spinoff_prover]
fn eval_list(call: Exprs, env: EnvRef, store: &mut Store, fuel: u64) -> (r: ProcedureResult)
    ensures
        grows(old(store)@, final(store)@),
        appends(old(store).written(), final(store).written()),
        call@.len() == 0 ==> r is Err && r->Err_0.message() == "empty list cannot be evaluated"@,
        fuel >= 3 && call@.len() > 0 && !is_call(call@[0]@) ==> call_step(
            call@,
            env,
            fuel,
            r,
            old(store)@,
            final(store)@,
        ),
        step_value(exprs_view(call@), old(store)@, env.index as int, fuel as nat) is Some ==> step_outcome(
            r,
            final(store)@,
            step_value(exprs_view(call@), old(store)@, env.index as int, fuel as nat)->0,
        ),
    decreases fuel,
{
    proof {
        reveal_strlit("empty list cannot be evaluated");
    }
    if call.len() == 0 {
        return Err(error_of("empty list cannot be evaluated"));
    }
    if fuel == 0 {
        return Err(out_of_steps());
    }
    let mut list = call;
    let first = list.remove(0);
    proof {
        reveal_strlit("expected procedure as first element of call, got ");
        crate::expr::lemma_exprs_view_len(call@);
        crate::expr::lemma_exprs_view_len(list@);
        assert(list@ == call@.drop_first());
        lemma_exprs_view_split(call@);
    }
    let proc = match eval_expr(first, env, store, fuel - 1) {
        Ok(Expr::Procedure(p)) => p,
        Ok(other) => {
            proof {
                lemma_view_variant(other);
            }
            return Err(display_error("expected procedure as first element of call, got ", &other));
        },
        Err(e) => {
            return Err(e);
        },
    };
    proof {
        if proc is Atomic {
            let a = proc->Atomic_0;
            assert(proc@ == ProcV::Atomic(crate::expr::opt_string_view(a.name), a.kind, a.arity, a.proc));
        } else {
            let c = proc->Compound_0;
            assert(proc@ == ProcV::Compound(
                crate::expr::opt_string_view(c.name),
                c.params.view(),
                exprs_view(c.body.body@),
                c.env,
            ));
        }
    }
    let args = if proc.is_special_form() {
        list
    } else {
        match eval_each(list, env, store, fuel - 1) {
            Ok(args) => args,
            Err(err) => {
                return Err(err);
            },
        }
    };
    proof {
        crate::expr::lemma_exprs_view_len(args@);
    }
    let ghost av = args@;
    let ghost before = store@;
    let r = proc.apply(args, env, store, fuel - 1);
    proof {
        if av.len() > 0 {
            crate::expr::lemma_exprs_view_index(av, 0);
        }
        if av.len() > 1 {
            crate::expr::lemma_exprs_view_index(av, 1);
        }
        if av.len() > 2 {
            crate::expr::lemma_exprs_view_index(av, 2);
        }
        if proc is Atomic && proc->Atomic_0.kind == ProcedureKind::SpecialForm
            && crate::procedure::arity_accepts(proc->Atomic_0.arity, av.len())
            && crate::procedure::arity_accepts(builtin_arity(proc->Atomic_0.proc), av.len()) && fuel >= 3 {
            lemma_form_step_outcome(proc->Atomic_0.proc, av, env, (fuel - 1) as u64, r, before, store@);
        }
        if fuel >= 3 {
            lemma_proc_step_outcome(proc, av, env, (fuel - 1) as u64, r, before, store@);
        }
    }
    r
}

/// What expanding the macro calls of `e` in `env` with `fuel` steps gives, and the
/// environments after it, where they are decided: a value that is no call, and the empty list,
/// stay as they are; a call is expanded as `expand_call_value` says, once a step is taken.
pub open spec fn expand_value(e: ExprV, frames: Seq<FrameV>, env: int, fuel: nat) -> Option<
    (Result<ExprV, Seq<char>>, Seq<FrameV>),
>
    decreases fuel, 0nat,
{
    match e {
        ExprV::List(cv, dotted) => if dotted || cv.len() == 0 {
            Some((Ok(e), frames))
        } else if fuel == 0 {
            Some((Err(out_of_steps_message()), frames))
        } else {
            expand_call_value(cv, frames, env, (fuel - 1) as nat)
        },
        _ => Some((Ok(e), frames)),
    }
}

/// What expanding the call of the elements `cv` gives in `env` with `fuel` steps, and the
/// environments after it: its operands are expanded in order; when its operator is a symbol
/// bound to a macro, the macro is applied to them (as `macro_value` says) and what it gives is
/// expanded in turn; else the call of the expanded operands.
pub open spec fn expand_call_value(cv: Seq<ExprV>, frames: Seq<FrameV>, env: int, fuel: nat) -> Option<
    (Result<ExprV, Seq<char>>, Seq<FrameV>),
>
    decreases fuel, 2nat,
{
    if fuel == 0 {
        Some((Err(out_of_steps_message()), frames))
    } else {
        match expand_each(cv.drop_first(), frames, env, (fuel - 1) as nat) {
            None => None,
            Some((Err(m), f1)) => Some((Err(m), f1)),
            Some((Ok(xs), f1)) => match cv[0] {
                ExprV::Symbol(n) => match crate::env::lookup_macro(f1, env, n) {
                    Some(mp) => match macro_value(mp, xs, f1, env, (fuel - 1) as nat) {
                        None => None,
                        Some((Err(m), f2)) => Some((Err(m), f2)),
                        Some((Ok(x), f2)) => expand_value(x, f2, env, (fuel - 1) as nat),
                    },
                    None => Some((Ok(ExprV::List(seq![cv[0]] + xs, false)), f1)),
                },
                _ => Some((Ok(ExprV::List(seq![cv[0]] + xs, false)), f1)),
            },
        }
    }
}

/// The expansions of `xs`, each with `fuel` steps, in order, and the environments after them;
/// or the first error.
pub open spec fn expand_each(xs: Seq<ExprV>, frames: Seq<FrameV>, env: int, fuel: nat) -> Option<
    (Result<Seq<ExprV>, Seq<char>>, Seq<FrameV>),
>
    decreases fuel, xs.len() + 1,
{
    if xs.len() == 0 {
        Some((Ok(Seq::empty()), frames))
    } else {
        match expand_each(xs.drop_last(), frames, env, fuel) {
            None => None,
            Some((Err(m), f1)) => Some((Err(m), f1)),
            Some((Ok(ys), f1)) => match expand_value(xs.last(), f1, env, fuel) {
                None => None,
                Some((Err(m), f2)) => Some((Err(m), f2)),
                Some((Ok(y), f2)) => Some((Ok(ys.push(y)), f2)),
            },
        }
    }
}

/// What the macro `mp` gives for the operands `xs` in `env`, applied with `fuel` steps, and the
/// environments after it: applied as a procedure (see `proc_step`), its value, or the value of
/// the expression it hands back (see `expanded_value`).
pub open spec fn macro_value(mp: ProcV, xs: Seq<ExprV>, frames: Seq<FrameV>, env: int, fuel: nat) -> Option<
    (Result<ExprV, Seq<char>>, Seq<FrameV>),
>
    decreases fuel, 2nat,
{
    match proc_step(mp, xs, frames, env, fuel) {
        None => None,
        Some((Step::Done(res), f)) => Some((res, f)),
        Some((Step::Tail(e2, env2), f)) => expanded_value(e2, f, env2, fuel),
    }
}

/// The value of `e`, whose macro calls are expanded, in `env` with `fuel` steps, and the
/// environments after it, where they are decided: a value that is no call; the error when the
/// steps are used up; else the call run as `run_value` says.
pub open spec fn expanded_value(e: ExprV, frames: Seq<FrameV>, env: int, fuel: nat) -> Option<
    (Result<ExprV, Seq<char>>, Seq<FrameV>),
>
    decreases fuel, 0nat,
{
    if !is_call(e) {
        Some((eval_atom(e, frames, env), frames))
    } else if fuel == 0 {
        Some((Err(out_of_steps_message()), frames))
    } else {
        run_value(e, frames, env, (fuel - 1) as nat)
    }
}

proof fn lemma_expand_each_prefix(xs: Seq<ExprV>, frames: Seq<FrameV>, env: int, fuel: nat, k: int)
    requires
        0 <= k <= xs.len(),
        expand_each(xs, frames, env, fuel) is Some,
    ensures
        expand_each(xs.take(k), frames, env, fuel) is Some,
    decreases xs.len(),
{
    if k == xs.len() {
        assert(xs.take(k) =~= xs);
    } else {
        assert(xs.drop_last().take(k) =~= xs.take(k));
        lemma_expand_each_prefix(xs.drop_last(), frames, env, fuel, k);
    }
}

proof fn lemma_expand_each_error(xs: Seq<ExprV>, frames: Seq<FrameV>, env: int, fuel: nat, k: int)
    requires
        0 <= k <= xs.len(),
        expand_each(xs.take(k), frames, env, fuel) matches Some((Err(_), _)),
    ensures
        expand_each(xs, frames, env, fuel) == expand_each(xs.take(k), frames, env, fuel),
    decreases xs.len() - k,
{
    if k < xs.len() {
        assert(xs.take(k + 1).drop_last() =~= xs.take(k));
        lemma_expand_each_error(xs, frames, env, fuel, k + 1);
    } else {
        assert(xs.take(k) =~= xs);
    }
}

/// The value of `e` in `env`, evaluated with `fuel` steps, and the environments after it,
/// where they are decided: a value that is no call; the error when the steps are used up; else
/// its macro calls expanded (see `expand_value`) and what that gives evaluated (see
/// `expanded_value`). `None` where this does not decide them.
pub open spec fn tree_value(e: ExprV, frames: Seq<FrameV>, env: int, fuel: nat) -> Option<
    (Result<ExprV, Seq<char>>, Seq<FrameV>),
>
    decreases fuel, 0nat,
{
    if !is_call(e) {
        Some((eval_atom(e, frames, env), frames))
    } else if fuel == 0 {
        Some((Err(out_of_steps_message()), frames))
    } else {
        match expand_value(e, frames, env, (fuel - 1) as nat) {
            None => None,
            Some((Err(m), f1)) => Some((Err(m), f1)),
            Some((Ok(x), f1)) => expanded_value(x, f1, env, (fuel - 1) as nat),
        }
    }
}

/// The value of `e` in `env`, run with `fuel` steps as a call whose tail calls are followed,
/// and the environments after it, where they are decided: a value that is no call; the error
/// when the steps are used up; else what `step_value` decides for the call, following the
/// expression it hands back in the environment it names.
pub open spec fn run_value(e: ExprV, frames: Seq<FrameV>, env: int, fuel: nat) -> Option<
    (Result<ExprV, Seq<char>>, Seq<FrameV>),
>
    decreases fuel, 0nat,
{
    if !is_call(e) {
        Some((eval_atom(e, frames, env), frames))
    } else if fuel == 0 {
        Some((Err(out_of_steps_message()), frames))
    } else {
        match step_value(e->List_0, frames, env, (fuel - 1) as nat) {
            None => None,
            Some((Step::Done(res), after)) => Some((res, after)),
            Some((Step::Tail(e2, env2), after)) => run_value(e2, after, env2, (fuel - 1) as nat),
        }
    }
}

/// What one step of a call gives: its value (or error), or an expression to evaluate in its
/// place, in the environment with the given index.
pub enum Step {
    Done(Result<ExprV, Seq<char>>),
    Tail(ExprV, int),
}

/// What the call of the elements `cv` gives in `env` with `fuel` steps, and the environments
/// after it, where they are decided: the empty list is an error; the operator's value (or
/// error) comes first; a value that is no procedure is an error. A special form checks the
/// number of operands and runs as `form_step` says. A procedure that is no special form
/// receives the operands' values (or the first error among them), and is applied to them as
/// `proc_step` says.
pub open spec fn step_value(cv: Seq<ExprV>, frames: Seq<FrameV>, env: int, fuel: nat) -> Option<
    (Step, Seq<FrameV>),
>
    decreases fuel, 2nat,
{
    if cv.len() == 0 {
        Some((Step::Done(Err("empty list cannot be evaluated"@)), frames))
    } else if fuel < 3 {
        None
    } else {
        match tree_value(cv[0], frames, env, (fuel - 1) as nat) {
            None => None,
            Some((Err(m), f1)) => Some((Step::Done(Err(m)), f1)),
            Some((Ok(ExprV::Procedure(ProcV::Atomic(name, kind, arity, p))), f1)) => if kind
                == ProcedureKind::SpecialForm {
                if !crate::procedure::arity_accepts(arity, (cv.len() - 1) as nat) {
                    Some((Step::Done(Err(crate::procedure::arity_message(arity, crate::expr::shown_name(name)))), f1))
                } else if !crate::procedure::arity_accepts(builtin_arity(p), (cv.len() - 1) as nat) {
                    Some((Step::Done(Err(crate::procedure::arity_message(builtin_arity(p), builtin_name_v(p)))), f1))
                } else {
                    form_step(p, cv.drop_first(), f1, env, (fuel - 1) as nat)
                }
            } else {
                match values_of(cv.drop_first(), f1, env, (fuel - 2) as nat) {
                    None => None,
                    Some((Err(m), f2)) => Some((Step::Done(Err(m)), f2)),
                    Some((Ok(vals), f2)) => proc_step(
                        ProcV::Atomic(name, kind, arity, p),
                        vals,
                        f2,
                        env,
                        (fuel - 1) as nat,
                    ),
                }
            },
            Some((Ok(ExprV::Procedure(pv)), f1)) => match values_of(cv.drop_first(), f1, env, (fuel - 2) as nat) {
                None => None,
                Some((Err(m), f2)) => Some((Step::Done(Err(m)), f2)),
                Some((Ok(vals), f2)) => proc_step(pv, vals, f2, env, (fuel - 1) as nat),
            },
            Some((Ok(v), f1)) => Some(
                (Step::Done(Err("expected procedure as first element of call, got "@ + display(v))), f1),
            ),
        }
    }
}

/// What evaluating the body `bv` in `env` with `fuel` steps gives, and the environments after
/// it, where they are decided (see `body_outcome`): `#<void>` for an empty body, else the last
/// expression handed back once the others have values.
pub open spec fn body_step(bv: Seq<ExprV>, frames: Seq<FrameV>, env: int, fuel: nat) -> Option<(Step, Seq<FrameV>)>
    decreases fuel, 1nat,
{
    if bv.len() == 0 {
        Some((Step::Done(Ok(ExprV::Void)), frames))
    } else if bv.len() == 1 {
        Some((Step::Tail(bv[0], env), frames))
    } else if fuel >= 2 {
        match values_of(bv.drop_last(), frames, env, (fuel - 2) as nat) {
            None => None,
            Some((Err(m), f2)) => Some((Step::Done(Err(m)), f2)),
            Some((Ok(_), f2)) => Some((Step::Tail(bv.last(), env), f2)),
        }
    } else {
        None
    }
}

/// What the special form `p` with the operands `ops` gives in `env`, its call evaluated with
/// `fuel` steps, and the environments after it, where they are decided: `quote` gives its
/// operand; `if` hands back the branch that its test chooses; `begin` and `cond` their body;
/// `lambda` a procedure closing over `env`; `define`, `set!` and `define-macro` make their
/// binding; `let` and `letrec` bind in a new environment and hand back their body there, and a
/// named `let` applies its procedure; `quasiquote` builds its list. `None` for the other forms.
pub open spec fn form_step(p: Primitive, ops: Seq<ExprV>, frames: Seq<FrameV>, env: int, fuel: nat) -> Option<
    (Step, Seq<FrameV>),
>
    decreases fuel, 0nat,
{
    let here = EnvRef { index: env as usize };
    if p == Primitive::Quote {
        Some((Step::Done(Ok(ops[0])), frames))
    } else if p == Primitive::If && fuel >= 3 {
        match tree_value(ops[0], frames, env, (fuel - 3) as nat) {
            None => None,
            Some((Err(m), f2)) => Some((Step::Done(Err(m)), f2)),
            Some((Ok(v), f2)) => if crate::expr::truthy(v) {
                Some((Step::Tail(ops[1], env), f2))
            } else if ops.len() == 3 {
                Some((Step::Tail(ops[2], env), f2))
            } else {
                Some((Step::Done(Ok(ExprV::Void)), f2))
            },
        }
    } else if p == Primitive::Begin && fuel >= 2 {
        body_step(ops, frames, env, (fuel - 2) as nat)
    } else if p == Primitive::Cond && fuel >= 3 {
        match cond_choice(ops, frames, env, (fuel - 3) as nat) {
            None => None,
            Some((CondChoice::Fail(m), f2)) => Some((Step::Done(Err(m)), f2)),
            Some((CondChoice::Value(v), f2)) => Some((Step::Done(Ok(v)), f2)),
            Some((CondChoice::Body(b), f2)) => body_step(b, f2, env, (fuel - 3) as nat),
            Some((CondChoice::Arrow(v, pe), f2)) => match tree_value(pe, f2, env, (fuel - 3) as nat) {
                None => None,
                Some((Err(m), f3)) => Some((Step::Done(Err(m)), f3)),
                Some((Ok(ExprV::Procedure(pv)), f3)) => if crate::procedure::proc_arity(pv) != Arity::Exact(1) {
                    Some((Step::Done(Err("expected procedure with 1 argument after `=>` in cond clause"@)), f3))
                } else {
                    proc_step(pv, seq![v], f3, env, (fuel - 3) as nat)
                },
                Some((Ok(other), f3)) => Some(
                    (Step::Done(Err("expected procedure after `=>` in cond clause, got "@ + kind_name(other))), f3),
                ),
            },
        }
    } else if p == Primitive::Lambda {
        match crate::procedure::params_of(ops[0]) {
            Err(m) => Some((Step::Done(Err(m)), frames)),
            Ok(pv) => Some(
                (Step::Done(Ok(ExprV::Procedure(ProcV::Compound(None, pv, ops.drop_first(), here)))), frames),
            ),
        }
    } else if p == Primitive::Define && fuel >= 3 {
        match ops[0] {
            ExprV::Symbol(name) => match tree_value(ops[1], frames, env, (fuel - 3) as nat) {
                None => None,
                Some((Err(m), f2)) => Some((Step::Done(Err(m)), f2)),
                Some((Ok(v), f2)) => if env < f2.len() {
                    Some((Step::Done(Ok(ExprV::Void)), f2.update(env, crate::env::frame_bind(f2[env], name, v))))
                } else {
                    Some((Step::Done(Err("environment does not exist"@)), f2))
                },
            },
            ExprV::List(items, dotted) => match formals_of(
                items,
                dotted,
                "expected at least 1 argument for define procedure formals list, got 0"@,
            ) {
                Err(m) => Some((Step::Done(Err(m)), frames)),
                Ok((name, pv)) => if env < frames.len() {
                    Some(
                        (
                            Step::Done(Ok(ExprV::Void)),
                            frames.update(
                                env,
                                crate::env::frame_bind(
                                    frames[env],
                                    name,
                                    ExprV::Procedure(ProcV::Compound(Some(name), pv, ops.drop_first(), here)),
                                ),
                            ),
                        ),
                    )
                } else {
                    Some((Step::Done(Err("environment does not exist"@)), frames))
                },
            },
            other => Some(
                (
                    Step::Done(Err("expected symbol or list as the first argument for define, got "@ + display(other))),
                    frames,
                ),
            ),
        }
    } else if p == Primitive::StringSet && fuel >= 4 {
        match values_of(ops, frames, env, (fuel - 4) as nat) {
            None => None,
            Some((Err(m), f2)) => Some((Step::Done(Err(m)), f2)),
            Some((Ok(vals), f2)) => match string_set_spec(vals) {
                Err(m) => Some((Step::Done(Err(m)), f2)),
                Ok(nv) => Some((Step::Done(Ok(ExprV::Void)), string_set_frames(ops[0], nv, f2, env))),
            },
        }
    } else if p == Primitive::SetBang && fuel >= 3 {
        match ops[0] {
            ExprV::Symbol(name) => match tree_value(ops[1], frames, env, (fuel - 3) as nat) {
                None => None,
                Some((Err(m), f2)) => Some((Step::Done(Err(m)), f2)),
                Some((Ok(v), f2)) => match crate::env::defining_frame(f2, env, name) {
                    Some(d) => Some((Step::Done(Ok(ExprV::Void)), f2.update(d, crate::env::frame_bind(f2[d], name, v)))),
                    None => Some((Step::Done(Err(crate::env::undefined_symbol_message(name))), f2)),
                },
            },
            other => Some(
                (Step::Done(Err("expected symbol as first argument of define, got "@ + kind_name(other))), frames),
            ),
        }
    } else if p == Primitive::DefineMacro {
        match ops[0] {
            ExprV::List(items, dotted) => match formals_of(
                items,
                dotted,
                "expected at least 1 argument for define-macro formals list, got 0"@,
            ) {
                Err(m) => Some((Step::Done(Err(m)), frames)),
                Ok((name, pv)) => if env < frames.len() {
                    Some(
                        (
                            Step::Done(Ok(ExprV::Void)),
                            frames.update(
                                env,
                                crate::env::frame_bind_macro(
                                    frames[env],
                                    name,
                                    ProcV::Compound(Some(name), pv, ops.drop_first(), here),
                                ),
                            ),
                        ),
                    )
                } else {
                    Some((Step::Done(Err("environment does not exist"@)), frames))
                },
            },
            other => Some(
                (
                    Step::Done(Err("expected list as the first argument for define-macro, got "@ + display(other))),
                    frames,
                ),
            ),
        }
    } else if p == Primitive::Let && fuel >= 3 && !(ops[0] is Symbol) {
        let_step(ops[0], ops.drop_first(), false, frames, env, (fuel - 2) as nat)
    } else if p == Primitive::Let && fuel >= 5 && ops[0] is Symbol {
        named_let_step(ops[0]->Symbol_0, ops.drop_first(), frames, env, (fuel - 3) as nat)
    } else if p == Primitive::Letrec && fuel >= 3 {
        let_step(ops[0], ops.drop_first(), true, frames, env, (fuel - 2) as nat)
    } else if p == Primitive::Quasiquote && fuel >= 2 {
        match ops[0] {
            ExprV::List(items, d) => match quasi_items(items, frames, env, (fuel - 2) as nat) {
                None => None,
                Some((Err(m), f2)) => Some((Step::Done(Err(m)), f2)),
                Some((Ok(ys), f2)) => Some((Step::Done(Ok(list_value(ys, d))), f2)),
            },
            other => Some((Step::Done(Ok(other)), frames)),
        }
    } else {
        None
    }
}

/// What `let` (with `rec`, `letrec`) with the bindings list `first` and the body `body` gives in
/// `env` with `fuel` steps, and the environments after it, where they are decided (see
/// `let_outcome`): the body handed back in a new environment, where the bindings are made.
pub open spec fn let_step(
    first: ExprV,
    body: Seq<ExprV>,
    rec: bool,
    frames: Seq<FrameV>,
    env: int,
    fuel: nat,
) -> Option<(Step, Seq<FrameV>)>
    decreases fuel, 1nat,
{
    let form = if rec {
        "letrec"@
    } else {
        "let"@
    };
    match first {
        ExprV::List(bs, _) => if frames.len() >= usize::MAX {
            Some((Step::Done(Err("too many environments"@)), frames))
        } else if fuel == 0 {
            None
        } else {
            let k = frames.len() as int;
            let frames0 = frames.push(
                FrameV { bindings: Seq::empty(), macros: Seq::empty(), parent: Some(EnvRef { index: env as usize }), output: Seq::empty() },
            );
            match bind_each(bs, form, frames0, k, if rec { k } else { env }, (fuel - 1) as nat) {
                None => None,
                Some((fr, Some(m))) => Some((Step::Done(Err(m)), fr)),
                Some((fr, None)) => body_step(body, fr, k, (fuel - 1) as nat),
            }
        },
        other => Some(
            (
                Step::Done(Err("expected bindings list as first argument of "@ + form + ", got "@ + display(other))),
                frames,
            ),
        ),
    }
}

/// What a named `let` with the name `name` and the arguments `args` after it gives in `env`,
/// with `fuel` steps, and the environments after it, where they are decided (see
/// `named_let_outcome`).
pub open spec fn named_let_step(name: Seq<char>, args: Seq<ExprV>, frames: Seq<FrameV>, env: int, fuel: nat) -> Option<
    (Step, Seq<FrameV>),
>
    decreases fuel, 1nat,
{
    if args.len() == 0 {
        Some((Step::Done(Err(crate::procedure::arity_message(Arity::AtLeast(2), "let"@))), frames))
    } else {
        match args[0] {
            ExprV::List(bs, _) => if fuel < 2 {
                None
            } else {
                match named_bindings(bs, frames, env, (fuel - 1) as nat) {
                    None => None,
                    Some((Err(m), f1)) => Some((Step::Done(Err(m)), f1)),
                    Some((Ok((ps, vs)), f1)) => if f1.len() >= usize::MAX {
                        Some((Step::Done(Err("too many environments"@)), f1))
                    } else {
                        let cenv = EnvRef { index: f1.len() as usize };
                        let frame = FrameV {
                            bindings: Seq::empty(),
                            macros: Seq::empty(),
                            parent: Some(EnvRef { index: env as usize }),
                            output: Seq::empty(),
                        };
                        match crate::procedure::params_of(ExprV::List(ps, false)) {
                            Err(m) => Some((Step::Done(Err(m)), f1.push(frame))),
                            Ok(pv) => {
                                let pr = ProcV::Compound(Some(name), pv, args.drop_first(), cenv);
                                compound_step(
                                    Some(name),
                                    pv,
                                    args.drop_first(),
                                    cenv,
                                    vs,
                                    f1.push(crate::env::frame_bind(frame, name, ExprV::Procedure(pr))),
                                    (fuel - 2) as nat,
                                )
                            },
                        }
                    },
                }
            },
            other => Some(
                (
                    Step::Done(Err("expected bindings list as first argument of "@ + "let"@ + ", got "@ + display(other))),
                    frames,
                ),
            ),
        }
    }
}

/// What applying the procedure `pv` to the values `vals` in `env` gives, with `fuel` steps, and
/// the environments after it, where they are decided: a built-in checks the number of
/// arguments, then computes, or for `eval` hands back its argument, or for `apply` runs as
/// `apply_step` says; a compound procedure runs as `compound_step` says. `None` for a special
/// form.
pub open spec fn proc_step(pv: ProcV, vals: Seq<ExprV>, frames: Seq<FrameV>, env: int, fuel: nat) -> Option<
    (Step, Seq<FrameV>),
>
    decreases fuel, 1nat,
{
    if fuel < 2 {
        None
    } else {
        match pv {
            ProcV::Atomic(name, kind, arity, p) => if !crate::procedure::arity_accepts(arity, vals.len()) {
                Some((Step::Done(Err(crate::procedure::arity_message(arity, crate::expr::shown_name(name)))), frames))
            } else if !crate::procedure::arity_accepts(builtin_arity(p), vals.len()) {
                Some((Step::Done(Err(crate::procedure::arity_message(builtin_arity(p), builtin_name_v(p)))), frames))
            } else if kind == ProcedureKind::SpecialForm {
                form_step(p, vals, frames, env, fuel)
            } else if is_computed(p) {
                Some((Step::Done(builtin_value(p, vals)), computed_frames(p, vals, frames)))
            } else if p == Primitive::Eval {
                Some((Step::Tail(vals[0], env), frames))
            } else if p == Primitive::Apply && fuel >= 3 {
                apply_step(vals, frames, env, (fuel - 2) as nat)
            } else {
                None
            },
            ProcV::Compound(name, params, body, cenv) => compound_step(
                name,
                params,
                body,
                cenv,
                vals,
                frames,
                (fuel - 1) as nat,
            ),
        }
    }
}

/// What `apply` with the argument values `vals` gives in `env`, with `fuel` steps, and the
/// environments after it, where they are decided (see `apply_outcome`).
pub open spec fn apply_step(vals: Seq<ExprV>, frames: Seq<FrameV>, env: int, fuel: nat) -> Option<(Step, Seq<FrameV>)>
    decreases fuel, 1nat,
{
    if fuel == 0 {
        None
    } else {
        match vals[0] {
            ExprV::Procedure(pv) => match vals.last() {
                ExprV::List(items, _) => proc_step(
                    pv,
                    vals.subrange(1, vals.len() - 1) + items,
                    frames,
                    env,
                    (fuel - 1) as nat,
                ),
                other => Some(
                    (Step::Done(Err("expected list as second argument for apply, got "@ + kind_name(other))), frames),
                ),
            },
            other => Some(
                (Step::Done(Err("expected procedure as first argument of apply, got "@ + kind_name(other))), frames),
            ),
        }
    }
}

/// What applying a compound procedure (see `compound_call`) to the values `vs` gives, its call
/// run with `fuel` steps, and the environments after it, where they are decided: the body
/// handed back in a new environment where the parameters are bound.
pub open spec fn compound_step(
    name: Option<Seq<char>>,
    pv: ParamsV,
    body: Seq<ExprV>,
    cenv: EnvRef,
    vs: Seq<ExprV>,
    frames: Seq<FrameV>,
    fuel: nat,
) -> Option<(Step, Seq<FrameV>)>
    decreases fuel, 1nat,
{
    let frame = FrameV { bindings: Seq::empty(), macros: Seq::empty(), parent: Some(cenv), output: Seq::empty() };
    if frames.len() >= usize::MAX {
        Some((Step::Done(Err("too many environments"@)), frames))
    } else if !crate::procedure::arity_accepts(params_arity(pv), vs.len()) {
        Some(
            (
                Step::Done(Err(crate::procedure::arity_message(params_arity(pv), crate::expr::shown_name(name)))),
                frames.push(frame),
            ),
        )
    } else {
        let bound = frames.push(FrameV { bindings: call_bindings(pv, vs), ..frame });
        if fuel == 0 {
            Some((Step::Done(Err(out_of_steps_message())), bound))
        } else {
            body_step(body, bound, frames.len() as int, (fuel - 1) as nat)
        }
    }
}

/// The values of `xs`, each evaluated with `fuel` steps in order, and the environments after
/// them, where `tree_value` decides them: their values, or the first error; `None` where an
/// expression up to the first error is not decided.
pub open spec fn values_of(xs: Seq<ExprV>, frames: Seq<FrameV>, env: int, fuel: nat) -> Option<
    (Result<Seq<ExprV>, Seq<char>>, Seq<FrameV>),
>
    decreases fuel, xs.len() + 2,
{
    if xs.len() == 0 {
        Some((Ok(Seq::empty()), frames))
    } else {
        match values_of(xs.drop_last(), frames, env, fuel) {
            None => None,
            Some((Err(m), f1)) => Some((Err(m), f1)),
            Some((Ok(vs), f1)) => match tree_value(xs.last(), f1, env, fuel) {
                None => None,
                Some((Err(m), f2)) => Some((Err(m), f2)),
                Some((Ok(v), f2)) => Some((Ok(vs.push(v)), f2)),
            },
        }
    }
}

/// What evaluating the call `call`, whose operator is no call, gives in `env` with `fuel`
/// steps: the error of the operator, or for a value that is no procedure; a special form
/// receives the operands as they are; a procedure, where `values_of` decides the operands,
/// receives their values (or the first error among them): a built-in then checks their number
/// and computes, and a compound procedure binds them and hands back its body.
pub open spec fn call_step(
    call: Seq<Expr>,
    env: EnvRef,
    fuel: u64,
    r: ProcedureResult,
    before: Seq<crate::env::FrameV>,
    after: Seq<crate::env::FrameV>,
) -> bool {
    let operands = call.drop_first();
    match eval_atom(call[0]@, before, env.index as int) {
        Err(m) => r is Err && r->Err_0.message() == m && after == before,
        Ok(ExprV::Procedure(pv)) => match pv {
            ProcV::Atomic(name, kind, arity, p) => if kind == ProcedureKind::SpecialForm {
                if !crate::procedure::arity_accepts(arity, operands.len()) {
                    r is Err && r->Err_0.message() == crate::procedure::arity_message(
                        arity,
                        crate::expr::shown_name(name),
                    ) && after == before
                } else {
                    builtin_call(p, operands, env, (fuel - 2) as u64, r, before, after)
                }
            } else {
                values_of(exprs_view(operands), before, env.index as int, (fuel - 2) as nat) is Some ==> {
                    let (res, f) = values_of(exprs_view(operands), before, env.index as int, (fuel - 2) as nat)->0;
                    match res {
                        Err(m) => r is Err && r->Err_0.message() == m && after == f,
                        Ok(vals) => if !crate::procedure::arity_accepts(arity, vals.len()) {
                            r is Err && r->Err_0.message() == crate::procedure::arity_message(
                                arity,
                                crate::expr::shown_name(name),
                            ) && after == f
                        } else if !crate::procedure::arity_accepts(builtin_arity(p), vals.len()) {
                            r is Err && r->Err_0.message() == crate::procedure::arity_message(
                                builtin_arity(p),
                                builtin_name_v(p),
                            ) && after == f
                        } else {
                            is_computed(p) ==> proc_outcome(r, builtin_value(p, vals)) && after
                                == computed_frames(p, vals, f)
                        },
                    }
                }
            },
            ProcV::Compound(name, pv, body, cenv) => values_of(
                exprs_view(operands),
                before,
                env.index as int,
                (fuel - 2) as nat,
            ) is Some ==> {
                let (res, f) = values_of(exprs_view(operands), before, env.index as int, (fuel - 2) as nat)->0;
                match res {
                    Err(m) => r is Err && r->Err_0.message() == m && after == f,
                    Ok(vals) => compound_call(name, pv, body, cenv, vals, (fuel - 2) as u64, r, f, after),
                }
            },
        },
        Ok(v) => r is Err && r->Err_0.message() == "expected procedure as first element of call, got "@
            + display(v) && after == before,
    }
}

proof fn lemma_exprs_view_split(s: Seq<Expr>)
    requires
        s.len() > 0,
    ensures
        exprs_view(s)[0] == s[0]@,
        exprs_view(s).drop_first() == exprs_view(s.drop_first()),
{
    crate::expr::lemma_exprs_view_len(s);
    crate::expr::lemma_exprs_view_len(s.drop_first());
    crate::expr::lemma_exprs_view_index(s, 0);
    assert forall|i: int| 0 <= i < s.len() - 1 implies exprs_view(s).drop_first()[i]
        == exprs_view(s.drop_first())[i] by {
        crate::expr::lemma_exprs_view_index(s, i + 1);
        crate::expr::lemma_exprs_view_index(s.drop_first(), i);
    }
    assert(exprs_view(s).drop_first() =~= exprs_view(s.drop_first()));
}

proof fn lemma_values_of_prefix(xs: Seq<ExprV>, frames: Seq<crate::env::FrameV>, env: int, fuel: nat, k: int)
    requires
        0 <= k <= xs.len(),
        values_of(xs, frames, env, fuel) is Some,
    ensures
        values_of(xs.take(k), frames, env, fuel) is Some,
    decreases xs.len(),
{
    if k == xs.len() {
        assert(xs.take(k) =~= xs);
    } else {
        assert(xs.drop_last().take(k) =~= xs.take(k));
        lemma_values_of_prefix(xs.drop_last(), frames, env, fuel, k);
    }
}

proof fn lemma_values_of_error(xs: Seq<ExprV>, frames: Seq<crate::env::FrameV>, env: int, fuel: nat, k: int)
    requires
        0 <= k <= xs.len(),
        values_of(xs.take(k), frames, env, fuel) matches Some((Err(_), _)),
    ensures
        values_of(xs, frames, env, fuel) == values_of(xs.take(k), frames, env, fuel),
    decreases xs.len() - k,
{
    if k < xs.len() {
        assert(xs.take(k + 1).drop_last() =~= xs.take(k));
        lemma_values_of_error(xs, frames, env, fuel, k + 1);
    } else {
        assert(xs.take(k) =~= xs);
    }
}

/// The values of `exprs`, evaluated in order.
fn eval_each(exprs: Exprs, env: EnvRef, store: &mut Store, fuel: u64) -> (r: Result<Exprs, EvalError>)
    ensures
        grows(old(store)@, final(store)@),
        appends(old(store).written(), final(store).written()),
        r is Ok ==> r->Ok_0@.len() == exprs@.len(),
        fuel > 0 && values_of(exprs_view(exprs@), old(store)@, env.index as int, (fuel - 1) as nat)
            is Some ==> {
            let (res, f) = values_of(exprs_view(exprs@), old(store)@, env.index as int, (fuel - 1) as nat)->0;
            final(store)@ == f && match res {
                Ok(vals) => r is Ok && exprs_view(r->Ok_0@) == vals,
                Err(m) => r is Err && r->Err_0.message() == m,
            }
        },
    decreases fuel,
{
    if fuel == 0 {
        return Err(out_of_steps());
    }
    proof {
        crate::expr::lemma_exprs_view_len(exprs@);
        assert(exprs@.skip(0) =~= exprs@);
        assert(exprs_view(exprs@).take(0) =~= Seq::<ExprV>::empty());
        assert(exprs_view(Seq::<Expr>::empty()) =~= Seq::<ExprV>::empty());
    }
    let ghost xs = exprs_view(exprs@);
    let n = exprs.len();
    let mut rest = exprs;
    let mut values: Exprs = Vec::new();
    let mut i: usize = 0;
    while rest.len() > 0
        invariant
            grows(old(store)@, store@),
            appends(old(store).written(), store.written()),
            fuel > 0,
            n == exprs@.len(),
            xs == exprs_view(exprs@),
            xs.len() == exprs@.len(),
            0 <= i <= exprs@.len(),
            rest@ == exprs@.skip(i as int),
            values@.len() == i,
            values_of(xs, old(store)@, env.index as int, (fuel - 1) as nat) is Some ==> values_of(
                xs.take(i as int),
                old(store)@,
                env.index as int,
                (fuel - 1) as nat,
            ) == Some((Ok::<Seq<ExprV>, Seq<char>>(exprs_view(values@)), store@)),
        decreases rest@.len(),
    {
        assert(rest@.len() == exprs@.len() - i);
        assert(i < exprs@.len());
        let e = rest.remove(0);
        proof {
            crate::expr::lemma_exprs_view_index(exprs@, i as int);
            assert(e == exprs@[i as int]);
            assert(exprs@.skip(i + 1) =~= exprs@.skip(i as int).drop_first());
            assert(xs.take(i + 1).drop_last() =~= xs.take(i as int));
            if values_of(xs, old(store)@, env.index as int, (fuel - 1) as nat) is Some {
                lemma_values_of_prefix(xs, old(store)@, env.index as int, (fuel - 1) as nat, i + 1);
                assert(xs.take(i + 1).last() == xs[i as int]);
            }
        }
        let ghost vb = values@;
        match eval_expr(e, env, store, fuel - 1) {
            Ok(v) => {
                values.push(v);
                proof {
                    crate::expr::lemma_exprs_view_push(vb, v);
                }
            },
            Err(err) => {
                proof {
                    if values_of(xs, old(store)@, env.index as int, (fuel - 1) as nat) is Some {
                        lemma_values_of_error(xs, old(store)@, env.index as int, (fuel - 1) as nat, i + 1);
                    }
                }
                return Err(err);
            },
        }
        assert(i < exprs@.len());
        i = i + 1;
    }
    proof {
        assert(xs.take(i as int) =~= xs);
    }
    Ok(values)
}

/// The value of the expressions `es`, evaluated in order in `env` with `fuel` steps, and the
/// environments after them, where they are decided: `#<void>` for none, the value of the only
/// one, or else the value of the last once all have values (or the first error).
pub open spec fn program_value(es: Seq<ExprV>, frames: Seq<FrameV>, env: int, fuel: nat) -> Option<
    (Result<ExprV, Seq<char>>, Seq<FrameV>),
> {
    if es.len() == 0 {
        Some((Ok(ExprV::Void), frames))
    } else if es.len() == 1 {
        tree_value(es[0], frames, env, fuel)
    } else if fuel > 0 {
        match values_of(es, frames, env, (fuel - 1) as nat) {
            None => None,
            Some((Err(m), f)) => Some((Err(m), f)),
            Some((Ok(vals), f)) => Some((Ok(vals.last()), f)),
        }
    } else {
        None
    }
}

/// Evaluates `exprs` in order: the value of the last, or `#<void>` when there is none.
pub fn eval_exprs(exprs: Exprs, env: EnvRef, store: &mut Store, fuel: u64) -> (r: EvalResult)
    ensures
        grows(old(store)@, final(store)@),
        appends(old(store).written(), final(store).written()),
        exprs@.len() == 0 ==> r == Ok::<Expr, EvalError>(Expr::Void),
        exprs@.len() == 1 && !is_call(exprs@[0]@) ==> outcome(
            r,
            eval_atom(exprs@[0]@, old(store)@, env.index as int),
        ) && final(store)@ == old(store)@,
        program_value(exprs_view(exprs@), old(store)@, env.index as int, fuel as nat) is Some ==> outcome_with(
            r,
            final(store)@,
            program_value(exprs_view(exprs@), old(store)@, env.index as int, fuel as nat)->0,
        ),
{
    proof {
        crate::expr::lemma_exprs_view_len(exprs@);
        if exprs@.len() > 0 {
            crate::expr::lemma_exprs_view_index(exprs@, 0);
        }
    }
    if exprs.len() == 0 {
        return Ok(Expr::Void);
    }
    if exprs.len() == 1 {
        let mut exprs = exprs;
        return eval_expr(exprs.remove(0), env, store, fuel);
    }
    match eval_each(exprs, env, store, fuel) {
        Ok(mut values) => {
            proof {
                crate::expr::lemma_exprs_view_len(values@);
                if values@.len() > 0 {
                    crate::expr::lemma_exprs_view_index(values@, values@.len() - 1);
                }
            }
            match values.pop() {
                Some(v) => Ok(v),
                None => Ok(Expr::Void),
            }
        },
        Err(err) => Err(err),
    }
}

/// What evaluating the body `bv` in `env` with `fuel` steps hands back, where it is decided:
/// `#<void>` for an empty body; the last expression as a tail call, once the others are
/// evaluated in order (with `tree_value` deciding them), or the first error among them.
pub open spec fn body_outcome(
    bv: Seq<ExprV>,
    env: EnvRef,
    fuel: u64,
    r: ProcedureResult,
    before: Seq<crate::env::FrameV>,
    after: Seq<crate::env::FrameV>,
) -> bool {
    if bv.len() == 0 {
        (r matches Ok(ProcedureReturn::Value(v)) && v == Expr::Void) && after == before
    } else if bv.len() == 1 {
        (r matches Ok(ProcedureReturn::TailCall(e, en)) && e@ == bv[0] && en == env) && after == before
    } else if fuel >= 2 && values_of(bv.drop_last(), before, env.index as int, (fuel - 2) as nat) is Some {
        let (res, f2) = values_of(bv.drop_last(), before, env.index as int, (fuel - 2) as nat)->0;
        after == f2 && match res {
            Ok(_) => r matches Ok(ProcedureReturn::TailCall(e, en)) && e@ == bv.last() && en == env,
            Err(m) => r is Err && r->Err_0.message() == m,
        }
    } else {
        true
    }
}

/// Evaluates all of `exprs` but the last, and hands the last back as a tail call in `env`;
/// `#<void>` when there is none.
pub fn eval_exprs_with_tailcall(exprs: Exprs, env: EnvRef, store: &mut Store, fuel: u64) -> (r: ProcedureResult)
    ensures
        grows(old(store)@, final(store)@),
        appends(old(store).written(), final(store).written()),
        exprs@.len() == 0 ==> (r matches Ok(ProcedureReturn::Value(v)) && v == Expr::Void)
            && final(store)@ == old(store)@,
        exprs@.len() == 1 ==> (r matches Ok(ProcedureReturn::TailCall(e, en)) && e == exprs@[0]
            && en == env) && final(store)@ == old(store)@,
        body_outcome(exprs_view(exprs@), env, fuel, r, old(store)@, final(store)@),
    decreases fuel,
{
    proof {
        crate::expr::lemma_exprs_view_len(exprs@);
        if exprs@.len() > 0 {
            crate::expr::lemma_exprs_view_index(exprs@, 0);
            crate::expr::lemma_exprs_view_index(exprs@, exprs@.len() - 1);
            crate::expr::lemma_exprs_view_push(exprs@.drop_last(), exprs@.last());
            assert(exprs@.drop_last().push(exprs@.last()) =~= exprs@);
        }
    }
    if exprs.len() == 0 {
        return Ok(ProcedureReturn::Value(Expr::Void));
    }
    if exprs.len() == 1 {
        let mut exprs = exprs;
        return Ok(ProcedureReturn::TailCall(exprs.remove(0), env));
    }
    if fuel == 0 {
        return Err(out_of_steps());
    }
    let mut rest = exprs;
    let tail = match rest.pop() {
        Some(t) => t,
        None => {
            return Ok(ProcedureReturn::Value(Expr::Void));
        },
    };
    proof {
        assert(rest@ == exprs@.drop_last());
        assert(exprs_view(exprs@).drop_last() =~= exprs_view(rest@));
        assert(exprs_view(exprs@).last() == tail@);
    }
    match eval_each(rest, env, store, fuel - 1) {
        Ok(_) => Ok(ProcedureReturn::TailCall(tail, env)),
        Err(err) => Err(err),
    }
}

} // verus!

verus! {

/// What applying the procedure `p` to the arguments `args` in `env` with `fuel` steps gives:
/// a built-in checks the number of arguments, then runs as `builtin_call` says; a compound
/// procedure runs as `compound_call` says.
pub open spec fn applied(
    p: Procedure,
    args: Seq<Expr>,
    env: EnvRef,
    fuel: u64,
    r: ProcedureResult,
    before: Seq<crate::env::FrameV>,
    after: Seq<crate::env::FrameV>,
) -> bool
    decreases fuel, 0nat,
{
    fuel > 0 ==> match p {
        Procedure::Atomic(a) => if !crate::procedure::arity_accepts(a.arity, args.len()) {
            r is Err && r->Err_0.message() == crate::procedure::arity_message(
                a.arity,
                crate::expr::shown_name(crate::expr::opt_string_view(a.name)),
            ) && after == before
        } else {
            builtin_call(a.proc, args, env, (fuel - 1) as u64, r, before, after)
        },
        Procedure::Compound(_) => compound_call(
            p@->Compound_0,
            p@->Compound_1,
            p@->Compound_2,
            p@->Compound_3,
            exprs_view(args),
            (fuel - 1) as u64,
            r,
            before,
            after,
        ),
    }
}

impl Procedure {
    /// Applies the procedure to `args` in `env`: a built-in checks the number of
    /// arguments and computes; a compound procedure binds its parameters in a new
    /// environment, whose parent is the one it closes over, and evaluates its body there.
    pub fn apply(&self, args: Exprs, env: EnvRef, store: &mut Store, fuel: u64) -> (r: ProcedureResult)
        ensures
            grows(old(store)@, final(store)@),
            appends(old(store).written(), final(store).written()),
            applied(*self, args@, env, fuel, r, old(store)@, final(store)@),
        decreases fuel,
    {
        if fuel == 0 {
            return Err(out_of_steps());
        }
        match self {
            Procedure::Atomic(a) => {
                let name = a.name();
                match check_arity(&args, name, a.arity) {
                    Ok(()) => {},
                    Err(e) => {
                        return Err(e);
                    },
                }
                apply_builtin(a.proc, args, env, store, fuel - 1)
            },
            Procedure::Compound(c) => apply_compound(c, args, store, fuel - 1),
        }
    }
}

/// Binds `value` to `name` in `env`, which must exist.
fn bind(env: EnvRef, store: &mut Store, name: String, value: Expr) -> (r: Result<(), EvalError>)
    ensures
        final(store)@.len() == old(store)@.len(),
        final(store).written() == old(store).written(),
        env.index >= old(store)@.len() ==> r is Err && r->Err_0.message() == "environment does not exist"@
            && final(store)@ == old(store)@,
        env.index < old(store)@.len() ==> r is Ok && final(store)@ == old(store)@.update(
            env.index as int,
            crate::env::frame_bind(old(store)@[env.index as int], name@, value@),
        ),
{
    if env.index >= store.len() {
        return Err(no_environment());
    }
    env.add(store, name, value);
    Ok(())
}

/// The bindings `base` with `names[i]` bound to `vals[i]` in order.
pub open spec fn bind_all(
    base: Seq<(Seq<char>, ExprV)>,
    names: Seq<Seq<char>>,
    vals: Seq<ExprV>,
) -> Seq<(Seq<char>, ExprV)>
    decreases names.len(),
{
    if names.len() == 0 {
        base
    } else {
        entry_put(bind_all(base, names.drop_last(), vals), names.last(), vals[names.len() - 1])
    }
}

/// The arity that the parameters of a compound procedure give it.
pub open spec fn params_arity(pv: ParamsV) -> Arity {
    match pv {
        ParamsV::Fixed(ps) => Arity::Exact(ps.len() as usize),
        ParamsV::Variadic(_) => Arity::Any,
        ParamsV::Mixed(ps, _) => Arity::AtLeast(ps.len() as usize),
    }
}

/// The bindings with which a compound procedure with parameters `pv` runs its body on the
/// arguments `vs`.
pub open spec fn call_bindings(pv: ParamsV, vs: Seq<ExprV>) -> Seq<(Seq<char>, ExprV)> {
    match pv {
        ParamsV::Fixed(ps) => bind_all(Seq::empty(), ps, vs),
        ParamsV::Variadic(p) => entry_put(Seq::empty(), p, ExprV::List(vs, false)),
        ParamsV::Mixed(ps, v) => entry_put(
            bind_all(Seq::empty(), ps, vs),
            v,
            ExprV::List(vs.skip(ps.len() as int), false),
        ),
    }
}

/// What applying a compound procedure, named `name`, with parameters `pv`, body `body`,
/// closing over `cenv`, to arguments whose values are `vs` gives: an error when the store is
/// full; else a new environment whose parent is `cenv`; the error for a wrong number of arguments, with that environment left
/// empty; else the parameters bound to the arguments there, and the body evaluated there as
/// `body_outcome` says.
pub open spec fn compound_call(
    name: Option<Seq<char>>,
    pv: ParamsV,
    body: Seq<ExprV>,
    cenv: EnvRef,
    vs: Seq<ExprV>,
    fuel: u64,
    r: ProcedureResult,
    before: Seq<crate::env::FrameV>,
    after: Seq<crate::env::FrameV>,
) -> bool {
    let frame = crate::env::FrameV { bindings: Seq::empty(), macros: Seq::empty(), parent: Some(cenv), output: Seq::empty() };
    if before.len() >= usize::MAX {
        r is Err && r->Err_0.message() == "too many environments"@ && after == before
    } else if !crate::procedure::arity_accepts(params_arity(pv), vs.len()) {
        r is Err && r->Err_0.message() == crate::procedure::arity_message(
            params_arity(pv),
            crate::expr::shown_name(name),
        ) && after == before.push(frame)
    } else {
        let bound = before.push(crate::env::FrameV { bindings: call_bindings(pv, vs), ..frame });
        &&& fuel == 0 ==> r is Err && r->Err_0.message() == out_of_steps_message() && after == bound
        &&& fuel > 0 ==> body_outcome(body, EnvRef { index: before.len() as usize }, (fuel - 1) as u64, r, bound, after)
    }
}

/// Binds `names[i]` to `args[i]` in order in `env`.
fn bind_params(env: EnvRef, store: &mut Store, names: &Vec<String>, args: Exprs) -> (rest: Exprs)
    requires
        env.index < old(store)@.len(),
        names@.len() <= args@.len(),
    ensures
        final(store)@ == old(store)@.update(
            env.index as int,
            crate::env::FrameV {
                bindings: bind_all(
                    old(store)@[env.index as int].bindings,
                    crate::expr::strings_view(names@),
                    exprs_view(args@),
                ),
                ..old(store)@[env.index as int]
            },
        ),
        rest@ == args@.skip(names@.len() as int),
        final(store).written() == old(store).written(),
{
    proof {
        crate::expr::lemma_exprs_view_len(args@);
    }
    let ghost base = old(store)@[env.index as int];
    let ghost ns = crate::expr::strings_view(names@);
    let ghost vs = exprs_view(args@);
    let mut rest = args;
    let mut i: usize = 0;
    proof {
        assert(ns.take(0) =~= Seq::<Seq<char>>::empty());
        assert(args@.skip(0) =~= args@);
        assert(old(store)@.update(env.index as int, crate::env::FrameV { bindings: bind_all(base.bindings, ns.take(0), vs), ..base }) =~= old(store)@);
    }
    while i < names.len()
        invariant
            0 <= i <= names@.len(),
            names@.len() <= args@.len(),
            env.index < old(store)@.len(),
            base == old(store)@[env.index as int],
            ns == crate::expr::strings_view(names@),
            vs == exprs_view(args@),
            vs.len() == args@.len(),
            rest@ == args@.skip(i as int),
            store.written() == old(store).written(),
            store@ == old(store)@.update(
                env.index as int,
                crate::env::FrameV { bindings: bind_all(base.bindings, ns.take(i as int), vs), ..base },
            ),
        decreases names@.len() - i,
    {
        let a = rest.remove(0);
        proof {
            crate::expr::lemma_exprs_view_index(args@, i as int);
            assert(a == args@[i as int]);
            assert(args@.skip(i + 1) =~= args@.skip(i as int).drop_first());
            assert(ns.take(i + 1).drop_last() =~= ns.take(i as int));
            assert(ns[i as int] == names@[i as int]@);
        }
        env.add(store, names[i].clone(), a);
        proof {
            assert(store@ =~= old(store)@.update(
                env.index as int,
                crate::env::FrameV { bindings: bind_all(base.bindings, ns.take(i + 1), vs), ..base },
            ));
        }
        i = i + 1;
    }
    proof {
        assert(ns.take(names@.len() as int) =~= ns);
    }
    rest
}

fn apply_compound(c: &crate::expr::CompoundProcedure, args: Exprs, store: &mut Store, fuel: u64) -> (r: ProcedureResult)
    ensures
        grows(old(store)@, final(store)@),
        appends(old(store).written(), final(store).written()),
        compound_call(
            crate::expr::opt_string_view(c.name),
            c.params.view(),
            exprs_view(c.body.body@),
            c.env,
            exprs_view(args@),
            fuel,
            r,
            old(store)@,
            final(store)@,
        ),
    decreases fuel,
{
    proof {
        crate::expr::lemma_exprs_view_len(args@);
    }
    if store.len() == usize::MAX {
        return Err(error_of("too many environments"));
    }
    let eval_env = c.env.extend(store);
    let ghost frame = crate::env::FrameV { bindings: Seq::empty(), macros: Seq::empty(), parent: Some(c.env), output: Seq::empty() };
    let ghost vs = exprs_view(args@);
    let ghost pushed = store@;
    let name = c.name();
    match &c.params {
        ProcedureParams::Fixed(params) => {
            match check_arity(&args, name, Arity::Exact(params.len())) {
                Ok(()) => {},
                Err(e) => {
                    return Err(e);
                },
            }
            let _ = bind_params(eval_env, store, params, args);
            proof {
                assert(store@ =~= old(store)@.push(crate::env::FrameV { bindings: call_bindings(c.params.view(), vs), ..frame }));
            }
        },
        ProcedureParams::Variadic(param) => {
            let l = Expr::new_proper_list(args);
            eval_env.add(store, param.clone(), l);
            proof {
                assert(store@ =~= old(store)@.push(crate::env::FrameV { bindings: call_bindings(c.params.view(), vs), ..frame }));
            }
        },
        ProcedureParams::Mixed(params, variadic) => {
            match check_arity(&args, name, Arity::AtLeast(params.len())) {
                Ok(()) => {},
                Err(e) => {
                    return Err(e);
                },
            }
            let rest = bind_params(eval_env, store, params, args);
            proof {
                crate::expr::lemma_exprs_view_len(rest@);
                assert(exprs_view(rest@) =~= vs.skip(params@.len() as int)) by {
                    assert forall|k: int| 0 <= k < rest@.len() implies exprs_view(rest@)[k]
                        == vs.skip(params@.len() as int)[k] by {
                        crate::expr::lemma_exprs_view_index(rest@, k);
                        crate::expr::lemma_exprs_view_index(args@, k + params@.len());
                    }
                }
            }
            let l = Expr::new_proper_list(rest);
            eval_env.add(store, variadic.clone(), l);
            proof {
                assert(store@ =~= old(store)@.push(crate::env::FrameV { bindings: call_bindings(c.params.view(), vs), ..frame }));
            }
        },
    }
    let body = copy_exprs(&c.body.body);
    proof {
        crate::expr::lemma_exprs_view_len(body@);
        crate::expr::lemma_exprs_view_len(c.body.body@);
        if body@.len() == 1 {
            crate::expr::lemma_exprs_view_index(body@, 0);
            crate::expr::lemma_exprs_view_index(c.body.body@, 0);
        }
    }
    if fuel == 0 {
        return Err(out_of_steps());
    }
    eval_exprs_with_tailcall(body, eval_env, store, fuel - 1)
}

/// Applies the built-in `p` to `args`, after checking them against the arity with which
/// the root environment binds it.
fn apply_builtin(p: Primitive, args: Exprs, env: EnvRef, store: &mut Store, fuel: u64) -> (r: ProcedureResult)
    ensures
        grows(old(store)@, final(store)@),
        appends(old(store).written(), final(store).written()),
        builtin_call(p, args@, env, fuel, r, old(store)@, final(store)@),
    decreases fuel,
{
    match check_arity(&args, builtin_name(p), builtin_arity_of(p)) {
        Ok(()) => {},
        Err(e) => {
            return Err(e);
        },
    }
    if fuel == 0 {
        return Err(out_of_steps());
    }
    let fuel = fuel - 1;
    let value = match p {
        Primitive::Lambda => lambda_fn(args, env),
        Primitive::Define => {
            return define_fn(args, env, store, fuel);
        },
        Primitive::SetBang => {
            return set_fn(args, env, store, fuel);
        },
        Primitive::StringSet => {
            return string_set_fn(args, env, store, fuel);
        },
        Primitive::Let => {
            return let_fn(args, env, store, fuel);
        },
        Primitive::Letrec => {
            return letrec_fn(args, env, store, fuel);
        },
        Primitive::Quote => {
            let mut args = args;
            Ok(args.remove(0))
        },
        Primitive::Quasiquote => {
            let mut args = args;
            let first = args.remove(0);
            proof {
                lemma_view_variant(first);
            }
            match first {
                Expr::List(l) => {
                    proof {
                        List::lemma_view(l);
                    }
                    let d = l.is_dotted();
                    quasiquote_list(l.into_exprs(), d, env, store, fuel)
                },
                e => Ok(e),
            }
        },
        Primitive::If => {
            return if_fn(args, env, store, fuel);
        },
        Primitive::Cond => {
            return cond_fn(args, env, store, fuel);
        },
        Primitive::Begin => {
            return eval_exprs_with_tailcall(args, env, store, fuel);
        },
        Primitive::DefineMacro => {
            return define_macro_fn(args, env, store);
        },
        Primitive::Eval => {
            let mut args = args;
            return Ok(ProcedureReturn::TailCall(args.remove(0), env));
        },
        Primitive::Apply => {
            return apply_fn(args, env, store, fuel);
        },
        Primitive::Display | Primitive::Write | Primitive::Newline | Primitive::WriteChar
        | Primitive::WriteString => {
            let mut text = String::new();
            let written = output_fn(p, &args, &mut text);
            if written.is_ok() {
                store.emit(text.as_str());
            }
            written
        },
        _ => compute_builtin(p, args),
    };
    match value {
        Ok(v) => Ok(ProcedureReturn::Value(v)),
        Err(e) => Err(e),
    }
}

/// Whether `r` is what `s` describes, as the value of a procedure.
pub open spec fn proc_outcome(r: ProcedureResult, s: Result<ExprV, Seq<char>>) -> bool {
    match s {
        Ok(v) => r matches Ok(ProcedureReturn::Value(e)) && e@ == v,
        Err(m) => r is Err && r->Err_0.message() == m,
    }
}

/// What `if` with the arguments `args` gives in `env`, its test evaluated with `fuel` steps,
/// where `tree_value` decides the test: the consequent, or the alternative when the test is
/// `#f`, handed back as a tail call; `#<void>` when the test is `#f` and there is no
/// alternative; or the test's error.
pub open spec fn if_outcome(
    args: Seq<Expr>,
    env: EnvRef,
    fuel: nat,
    r: ProcedureResult,
    before: Seq<FrameV>,
    after: Seq<FrameV>,
) -> bool {
    tree_value(args[0]@, before, env.index as int, fuel) is Some ==> {
        let (res, f) = tree_value(args[0]@, before, env.index as int, fuel)->0;
        after == f && match res {
            Ok(v) => if crate::expr::truthy(v) {
                r matches Ok(ProcedureReturn::TailCall(e, en)) && e == args[1] && en == env
            } else if args.len() == 3 {
                r matches Ok(ProcedureReturn::TailCall(e, en)) && e == args[2] && en == env
            } else {
                r matches Ok(ProcedureReturn::Value(e)) && e == Expr::Void
            },
            Err(m) => r is Err && r->Err_0.message() == m,
        }
    }
}

/// What `define` of the symbol `name` to the value of `e` gives in `env`, `e` evaluated with
/// `fuel` steps, where `tree_value` decides it: the binding made in `env`; or the error of `e`,
/// or for an environment that does not exist.
pub open spec fn define_symbol_outcome(
    name: Seq<char>,
    e: ExprV,
    env: EnvRef,
    fuel: nat,
    r: ProcedureResult,
    before: Seq<FrameV>,
    after: Seq<FrameV>,
) -> bool {
    tree_value(e, before, env.index as int, fuel) is Some ==> {
        let (res, f) = tree_value(e, before, env.index as int, fuel)->0;
        match res {
            Ok(v) => if env.index < f.len() {
                (r matches Ok(ProcedureReturn::Value(x)) && x == Expr::Void) && after == f.update(
                    env.index as int,
                    crate::env::frame_bind(f[env.index as int], name, v),
                )
            } else {
                r is Err && r->Err_0.message() == "environment does not exist"@ && after == f
            },
            Err(m) => r is Err && r->Err_0.message() == m && after == f,
        }
    }
}

/// What `set!` of the symbol `name` to the value of `e` gives in `env`, `e` evaluated with
/// `fuel` steps, where `tree_value` decides it: the nearest binding of `name` given the value;
/// or the error of `e`, or for a symbol that is not bound.
pub open spec fn set_outcome(
    name: Seq<char>,
    e: ExprV,
    env: EnvRef,
    fuel: nat,
    r: ProcedureResult,
    before: Seq<FrameV>,
    after: Seq<FrameV>,
) -> bool {
    tree_value(e, before, env.index as int, fuel) is Some ==> {
        let (res, f) = tree_value(e, before, env.index as int, fuel)->0;
        match res {
            Ok(v) => match crate::env::defining_frame(f, env.index as int, name) {
                Some(d) => (r matches Ok(ProcedureReturn::Value(x)) && x == Expr::Void) && after == f.update(
                    d,
                    crate::env::frame_bind(f[d], name, v),
                ),
                None => r is Err && r->Err_0.message() == crate::env::undefined_symbol_message(name)
                    && after == f,
            },
            Err(m) => r is Err && r->Err_0.message() == m && after == f,
        }
    }
}

/// What applying the built-in `p` to `args` in `env` gives, with `fuel` steps: the error for
/// a wrong number of arguments; the value of a built-in that computes; the argument of
/// `quote`; what `quasiquote` builds; the tail call of `eval`; the procedure of `lambda`;
/// the body of `begin`; the
/// choice of `cond`; the bindings and the body of `let`, named `let` and `letrec`; the
/// procedure or macro that `define` and `define-macro` bind; and for `define` of a symbol,
/// `set!` and `if`, where `tree_value` decides the expression they evaluate, the binding made
/// or the branch handed back.
pub open spec fn builtin_call(
    p: Primitive,
    args: Seq<Expr>,
    env: EnvRef,
    fuel: u64,
    r: ProcedureResult,
    before: Seq<crate::env::FrameV>,
    after: Seq<crate::env::FrameV>,
) -> bool
    decreases fuel, 1nat,
{
    &&& !crate::procedure::arity_accepts(builtin_arity(p), args.len()) ==> r is Err
        && r->Err_0.message() == crate::procedure::arity_message(builtin_arity(p), builtin_name_v(p))
        && after == before
    &&& crate::procedure::arity_accepts(builtin_arity(p), args.len()) && fuel > 0 && is_computed(p)
        ==> proc_outcome(r, builtin_value(p, exprs_view(args))) && after == computed_frames(
        p,
        exprs_view(args),
        before,
    )
    &&& crate::procedure::arity_accepts(builtin_arity(p), args.len()) && fuel > 0 && p
        == Primitive::Quote ==> (r matches Ok(ProcedureReturn::Value(e)) && e == args[0]) && after
        == before
    &&& crate::procedure::arity_accepts(builtin_arity(p), args.len()) && fuel > 0 && p
        == Primitive::Eval ==> (r matches Ok(ProcedureReturn::TailCall(e, en)) && e == args[0]
        && en == env) && after == before
    &&& crate::procedure::arity_accepts(builtin_arity(p), args.len()) && fuel > 0 && p
        == Primitive::Lambda ==> match crate::procedure::params_of(args[0]@) {
        Ok(pv) => (r matches Ok(ProcedureReturn::Value(Expr::Procedure(pr))) && pr@ == ProcV::Compound(
            None,
            pv,
            exprs_view(args.drop_first()),
            env,
        )) && after == before,
        Err(m) => r is Err && r->Err_0.message() == m && after == before,
    }
    &&& crate::procedure::arity_accepts(builtin_arity(p), args.len()) && fuel > 1 && p
        == Primitive::Define && args[0] is Symbol ==> define_symbol_outcome(
        args[0]->Symbol_0@,
        args[1]@,
        env,
        (fuel - 2) as nat,
        r,
        before,
        after,
    )
    &&& crate::procedure::arity_accepts(builtin_arity(p), args.len()) && fuel > 1 && p
        == Primitive::Define && args[0]@ is List ==> define_procedure_outcome(
        exprs_view(args),
        env,
        r,
        before,
        after,
    )
    &&& crate::procedure::arity_accepts(builtin_arity(p), args.len()) && fuel > 1 && p
        == Primitive::Define && !(args[0]@ is Symbol) && !(args[0]@ is List) ==> r is Err
        && r->Err_0.message() == "expected symbol or list as the first argument for define, got "@
        + display(args[0]@) && after == before
    &&& crate::procedure::arity_accepts(builtin_arity(p), args.len()) && fuel > 0 && p
        == Primitive::DefineMacro ==> define_macro_outcome(exprs_view(args), env, r, before, after)
    &&& crate::procedure::arity_accepts(builtin_arity(p), args.len()) && fuel > 1 && p
        == Primitive::SetBang && args[0] is Symbol ==> set_outcome(
        args[0]->Symbol_0@,
        args[1]@,
        env,
        (fuel - 2) as nat,
        r,
        before,
        after,
    )
    &&& crate::procedure::arity_accepts(builtin_arity(p), args.len()) && fuel > 2 && p
        == Primitive::StringSet ==> string_set_outcome(exprs_view(args), env, (fuel - 3) as nat, r, before, after)
    &&& crate::procedure::arity_accepts(builtin_arity(p), args.len()) && fuel > 1 && p
        == Primitive::SetBang && !(args[0] is Symbol) ==> r is Err && r->Err_0.message()
        == "expected symbol as first argument of define, got "@ + kind_name(args[0]@) && after == before
    &&& crate::procedure::arity_accepts(builtin_arity(p), args.len()) && fuel > 1 && p
        == Primitive::Let && !(args[0]@ is Symbol) ==> let_outcome(
        args[0]@,
        exprs_view(args.drop_first()),
        false,
        env,
        (fuel - 1) as u64,
        r,
        before,
        after,
    )
    &&& crate::procedure::arity_accepts(builtin_arity(p), args.len()) && fuel > 3 && p
        == Primitive::Let && args[0]@ is Symbol ==> named_let_outcome(
        args[0]@->Symbol_0,
        exprs_view(args.drop_first()),
        env,
        (fuel - 2) as u64,
        r,
        before,
        after,
    )
    &&& crate::procedure::arity_accepts(builtin_arity(p), args.len()) && fuel > 1 && p
        == Primitive::Letrec ==> let_outcome(
        args[0]@,
        exprs_view(args.drop_first()),
        true,
        env,
        (fuel - 1) as u64,
        r,
        before,
        after,
    )
    &&& crate::procedure::arity_accepts(builtin_arity(p), args.len()) && fuel > 1 && p
        == Primitive::Apply ==> apply_outcome(args, env, (fuel - 1) as u64, r, before, after)
    &&& crate::procedure::arity_accepts(builtin_arity(p), args.len()) && fuel > 0 && p
        == Primitive::Quasiquote ==> match args[0]@ {
        ExprV::List(items, d) => quasi_items(items, before, env.index as int, (fuel - 1) as nat) is Some
            ==> {
            let (res, f) = quasi_items(items, before, env.index as int, (fuel - 1) as nat)->0;
            after == f && match res {
                Ok(ys) => r matches Ok(ProcedureReturn::Value(e)) && e@ == list_value(ys, d),
                Err(m) => r is Err && r->Err_0.message() == m,
            }
        },
        other => (r matches Ok(ProcedureReturn::Value(e)) && e@ == other) && after == before,
    }
    &&& crate::procedure::arity_accepts(builtin_arity(p), args.len()) && fuel > 0 && p
        == Primitive::Begin ==> body_outcome(exprs_view(args), env, (fuel - 1) as u64, r, before, after)
    &&& crate::procedure::arity_accepts(builtin_arity(p), args.len()) && fuel > 1 && p
        == Primitive::Cond && cond_choice(exprs_view(args), before, env.index as int, (fuel - 2) as nat)
        is Some ==> {
        let (c, f) = cond_choice(exprs_view(args), before, env.index as int, (fuel - 2) as nat)->0;
        cond_outcome(c, env, (fuel - 2) as u64, r, f, after)
    }
    &&& crate::procedure::arity_accepts(builtin_arity(p), args.len()) && fuel > 1 && p
        == Primitive::If ==> if_outcome(args, env, (fuel - 2) as nat, r, before, after)
}

/// An integer result as a value.
pub open spec fn int_outcome(r: Result<int, Seq<char>>) -> Result<ExprV, Seq<char>> {
    match r {
        Ok(v) => Ok(ExprV::Integer(v as i64)),
        Err(m) => Err(m),
    }
}

/// The optional second argument.
pub open spec fn second(args: Seq<ExprV>) -> Option<ExprV> {
    if args.len() > 1 {
        Some(args[1])
    } else {
        None
    }
}

/// The environments after a built-in that computes is applied to the values `vals`: an
/// output procedure that succeeds writes its text to the current output port; the others
/// change nothing.
pub open spec fn computed_frames(p: Primitive, vals: Seq<ExprV>, frames: Seq<FrameV>) -> Seq<FrameV> {
    if is_output(p) && output_value(p, vals) is Ok {
        crate::env::emitted(frames, output_text(p, vals))
    } else {
        frames
    }
}

/// Whether a built-in computes on its evaluated arguments alone.
pub open spec fn is_computed(p: Primitive) -> bool {
    !builtin_is_form(p) && p != Primitive::Eval && p != Primitive::Apply
}

/// What a built-in that computes gives for the arguments `args`.
pub open spec fn builtin_value(p: Primitive, args: Seq<ExprV>) -> Result<ExprV, Seq<char>> {
    match p {
        Primitive::Add => int_outcome(arith(IntOp::Add, args)),
        Primitive::Sub => int_outcome(arith(IntOp::Sub, args)),
        Primitive::Mult => int_outcome(arith(IntOp::Mul, args)),
        Primitive::Divide => int_outcome(arith(IntOp::Div, args)),
        Primitive::StringFromChars => string_of_spec(args),
        Primitive::Eqv | Primitive::Eq => Ok(ExprV::Boolean(eqv_spec(args[0], args[1]))),
        Primitive::Equal => Ok(ExprV::Boolean(equal_spec(args[0], args[1]))),
        Primitive::Less => compare(Comparison::Less, args[0], args[1]),
        Primitive::NumEqual => compare(Comparison::Equal, args[0], args[1]),
        Primitive::More => compare(Comparison::More, args[0], args[1]),
        Primitive::Abs => abs_spec(args[0]),
        Primitive::Square => square_spec(args[0]),
        Primitive::IsInteger => is_integer_spec(args[0]),
        Primitive::Quotient => division_spec(Division::Quotient, args[0], args[1]),
        Primitive::Remainder => division_spec(Division::Remainder, args[0], args[1]),
        Primitive::Modulo => division_spec(Division::Modulo, args[0], args[1]),
        Primitive::Cons => Ok(cons_spec(args[0], args[1])),
        Primitive::Car => car_spec(args[0]),
        Primitive::Cdr => cdr_spec(args[0]),
        Primitive::MakeList => make_list_spec(args[0], match second(args) {
            Some(f) => f,
            None => ExprV::Integer(0),
        }),
        Primitive::ListCopy => Ok(list_copy_spec(args[0])),
        Primitive::NumberToString => number_to_string_spec(args[0], second(args)),
        Primitive::StringToNumber => string_to_number_spec(args[0], second(args)),
        Primitive::CharToInteger => char_to_integer_spec(args[0]),
        Primitive::IsPair => Ok(ExprV::Boolean(type_test_spec(TypeTest::Pair, args[0]))),
        Primitive::IsNumber => Ok(ExprV::Boolean(type_test_spec(TypeTest::Number, args[0]))),
        Primitive::IsSymbol => Ok(ExprV::Boolean(type_test_spec(TypeTest::Symbol, args[0]))),
        Primitive::IsString => Ok(ExprV::Boolean(type_test_spec(TypeTest::Str, args[0]))),
        Primitive::IsProcedure => Ok(ExprV::Boolean(type_test_spec(TypeTest::Procedure, args[0]))),
        Primitive::IsChar => Ok(ExprV::Boolean(type_test_spec(TypeTest::Char, args[0]))),
        Primitive::IsPort => Ok(ExprV::Boolean(type_test_spec(TypeTest::Port, args[0]))),
        Primitive::StringEq => string_compare_spec(StringComparison::Eq, args[0], args[1]),
        Primitive::StringLt => string_compare_spec(StringComparison::Lt, args[0], args[1]),
        Primitive::StringGt => string_compare_spec(StringComparison::Gt, args[0], args[1]),
        Primitive::StringLe => string_compare_spec(StringComparison::Le, args[0], args[1]),
        Primitive::StringGe => string_compare_spec(StringComparison::Ge, args[0], args[1]),
        Primitive::MakeString => make_string_spec(args[0], second(args)),
        Primitive::StringLength => string_length_spec(args[0]),
        Primitive::CharUpcase => char_op_spec(CharOp::Upcase, args[0]),
        Primitive::CharDowncase => char_op_spec(CharOp::Downcase, args[0]),
        Primitive::CharFoldcase => char_op_spec(CharOp::Foldcase, args[0]),
        Primitive::IsCharWhitespace => char_op_spec(CharOp::IsWhitespace, args[0]),
        Primitive::IsCharUpperCase => char_op_spec(CharOp::IsUpperCase, args[0]),
        Primitive::IsCharLowerCase => char_op_spec(CharOp::IsLowerCase, args[0]),
        Primitive::IsCharAlphabetic => char_op_spec(CharOp::IsAlphabetic, args[0]),
        Primitive::IsCharNumeric => char_op_spec(CharOp::IsNumeric, args[0]),
        Primitive::DigitValue => char_op_spec(CharOp::DigitValue, args[0]),
        Primitive::Display | Primitive::Write | Primitive::Newline | Primitive::WriteChar
        | Primitive::WriteString => output_value(p, args),
        Primitive::ListOf => Ok(ExprV::List(args, false)),
        Primitive::IsNull => Ok(ExprV::Boolean(args[0] matches ExprV::List(items, _) && items.len() == 0)),
        _ => Err("special form applied as a procedure"@),
    }
}

/// The built-ins that compute on their arguments alone.
fn compute_builtin(p: Primitive, args: Exprs) -> (r: EvalResult)
    requires
        crate::procedure::arity_accepts(builtin_arity(p), args@.len()),
        !is_output(p),
    ensures
        outcome(r, builtin_value(p, exprs_view(args@))),
{
    proof {
        reveal_strlit("special form applied as a procedure");
        crate::expr::lemma_exprs_view_len(args@);
        if args@.len() > 0 {
            crate::expr::lemma_exprs_view_index(args@, 0);
        }
        if args@.len() > 1 {
            crate::expr::lemma_exprs_view_index(args@, 1);
        }
    }
    let ghost a0 = args@;
    let mut args = args;
    let n = args.len();
    match p {
        Primitive::Add => arith_fn(IntOp::Add, &args),
        Primitive::Sub => arith_fn(IntOp::Sub, &args),
        Primitive::Mult => arith_fn(IntOp::Mul, &args),
        Primitive::Divide => arith_fn(IntOp::Div, &args),
        Primitive::StringFromChars => string_of_fn(&args),
        Primitive::Eqv | Primitive::Eq => Ok(Expr::Boolean(eqv_fn(&args[0], &args[1]))),
        Primitive::Equal => Ok(Expr::Boolean(equal_fn(&args[0], &args[1]))),
        Primitive::Less => compare_fn(Comparison::Less, &args[0], &args[1]),
        Primitive::NumEqual => compare_fn(Comparison::Equal, &args[0], &args[1]),
        Primitive::More => compare_fn(Comparison::More, &args[0], &args[1]),
        Primitive::Abs => abs_fn(&args[0]),
        Primitive::Square => square_fn(&args[0]),
        Primitive::IsInteger => is_integer_fn(&args[0]),
        Primitive::Quotient => division_fn(Division::Quotient, &args[0], &args[1]),
        Primitive::Remainder => division_fn(Division::Remainder, &args[0], &args[1]),
        Primitive::Modulo => division_fn(Division::Modulo, &args[0], &args[1]),
        Primitive::Cons => {
            let car = args.remove(0);
            let cdr = args.remove(0);
            Ok(cons_fn(car, cdr))
        },
        Primitive::Car => car_fn(&args[0]),
        Primitive::Cdr => cdr_fn(args.remove(0)),
        Primitive::MakeList => make_list_fn(&args[0], if n > 1 { Some(&args[1]) } else { None }),
        Primitive::ListCopy => Ok(list_copy_fn(args.remove(0))),
        Primitive::NumberToString => number_to_string_fn(&args[0], if n > 1 { Some(&args[1]) } else { None }),
        Primitive::StringToNumber => string_to_number_fn(&args[0], if n > 1 { Some(&args[1]) } else { None }),
        Primitive::CharToInteger => char_to_integer_fn(&args[0]),
        Primitive::IsPair => Ok(Expr::Boolean(type_test_fn(TypeTest::Pair, &args[0]))),
        Primitive::IsNumber => Ok(Expr::Boolean(type_test_fn(TypeTest::Number, &args[0]))),
        Primitive::IsSymbol => Ok(Expr::Boolean(type_test_fn(TypeTest::Symbol, &args[0]))),
        Primitive::IsString => Ok(Expr::Boolean(type_test_fn(TypeTest::Str, &args[0]))),
        Primitive::IsProcedure => Ok(Expr::Boolean(type_test_fn(TypeTest::Procedure, &args[0]))),
        Primitive::IsChar => Ok(Expr::Boolean(type_test_fn(TypeTest::Char, &args[0]))),
        Primitive::IsPort => Ok(Expr::Boolean(type_test_fn(TypeTest::Port, &args[0]))),
        Primitive::StringEq => string_compare_fn(StringComparison::Eq, &args[0], &args[1]),
        Primitive::StringLt => string_compare_fn(StringComparison::Lt, &args[0], &args[1]),
        Primitive::StringGt => string_compare_fn(StringComparison::Gt, &args[0], &args[1]),
        Primitive::StringLe => string_compare_fn(StringComparison::Le, &args[0], &args[1]),
        Primitive::StringGe => string_compare_fn(StringComparison::Ge, &args[0], &args[1]),
        Primitive::MakeString => make_string_fn(&args[0], if n > 1 { Some(&args[1]) } else { None }),
        Primitive::StringLength => string_length_fn(&args[0]),
        Primitive::CharUpcase => char_op_fn(CharOp::Upcase, &args[0]),
        Primitive::CharDowncase => char_op_fn(CharOp::Downcase, &args[0]),
        Primitive::CharFoldcase => char_op_fn(CharOp::Foldcase, &args[0]),
        Primitive::IsCharWhitespace => char_op_fn(CharOp::IsWhitespace, &args[0]),
        Primitive::IsCharUpperCase => char_op_fn(CharOp::IsUpperCase, &args[0]),
        Primitive::IsCharLowerCase => char_op_fn(CharOp::IsLowerCase, &args[0]),
        Primitive::IsCharAlphabetic => char_op_fn(CharOp::IsAlphabetic, &args[0]),
        Primitive::IsCharNumeric => char_op_fn(CharOp::IsNumeric, &args[0]),
        Primitive::DigitValue => char_op_fn(CharOp::DigitValue, &args[0]),
        Primitive::IsNull => Ok(Expr::Boolean(args[0].is_empty_list())),
        Primitive::ListOf => Ok(Expr::new_proper_list(args)),
        _ => Err(error_of("special form applied as a procedure")),
    }
}

} // verus!

verus! {

fn lambda_fn(args: Exprs, env: EnvRef) -> (r: EvalResult)
    requires
        args@.len() >= 2,
    ensures
        match crate::procedure::params_of(args@[0]@) {
            Ok(pv) => r matches Ok(Expr::Procedure(pr)) && pr@ == ProcV::Compound(
                None,
                pv,
                exprs_view(args@.drop_first()),
                env,
            ),
            Err(m) => r is Err && r->Err_0.message() == m,
        },
{
    let mut args = args;
    let params = args.remove(0);
    match create_procedure(None, params, Body::new(args), env) {
        Ok(p) => Ok(Expr::Procedure(p)),
        Err(e) => Err(e),
    }
}

/// The error for the element at `i` of a formals list, which is no symbol.
pub open spec fn formals_error(items: Seq<ExprV>, i: int) -> Seq<char> {
    "expected symbols in define procedure formals list, got "@ + kind_name(items[i]) + " at position "@
        + crate::text::decimal((i + 1) as nat)
}

/// The name and the parameter list of the formals `(name . params)` whose elements are
/// `items`, a dotted list where `dotted`; `empty_message` when there is no name.
pub open spec fn formals_parts(items: Seq<ExprV>, dotted: bool, empty_message: Seq<char>) -> Result<
    (Seq<char>, ExprV),
    Seq<char>,
> {
    if items.len() == 0 || !(items[0] is Symbol) {
        Err(empty_message)
    } else {
        let rest = items.drop_first();
        let rest_dotted = dotted && items.len() > 1;
        Ok(
            (
                items[0]->Symbol_0,
                if rest_dotted && rest.len() == 1 {
                    rest[0]
                } else {
                    ExprV::List(rest, rest_dotted)
                },
            ),
        )
    }
}

/// The name and the parameters of a procedure whose formals `(name . params)` have the
/// elements `items` (a dotted list where `dotted`): or the error for an element that is no
/// symbol, for formals without a name (`empty_message`), or for parameters that describe
/// none.
pub open spec fn formals_of(items: Seq<ExprV>, dotted: bool, empty_message: Seq<char>) -> Result<
    (Seq<char>, ParamsV),
    Seq<char>,
> {
    match crate::procedure::first_non_symbol(items) {
        Some(i) => Err(formals_error(items, i)),
        None => match formals_parts(items, dotted, empty_message) {
            Err(m) => Err(m),
            Ok((name, params)) => match crate::procedure::params_of(params) {
                Err(m) => Err(m),
                Ok(pv) => Ok((name, pv)),
            },
        },
    }
}

/// What `define` with formals (a list) `args[0]` and body `args[1..]` gives in `env`: the
/// procedure they describe, closing over `env`, bound to its name there; or the error for
/// the formals.
pub open spec fn define_procedure_outcome(
    args: Seq<ExprV>,
    env: EnvRef,
    r: ProcedureResult,
    before: Seq<crate::env::FrameV>,
    after: Seq<crate::env::FrameV>,
) -> bool {
    match formals_of(
        args[0]->List_0,
        args[0]->List_1,
        "expected at least 1 argument for define procedure formals list, got 0"@,
    ) {
        Err(m) => r is Err && r->Err_0.message() == m && after == before,
        Ok((name, pv)) => if env.index < before.len() {
            (r matches Ok(ProcedureReturn::Value(e)) && e == Expr::Void) && after == before.update(
                env.index as int,
                crate::env::frame_bind(
                    before[env.index as int],
                    name,
                    ExprV::Procedure(ProcV::Compound(Some(name), pv, args.drop_first(), env)),
                ),
            )
        } else {
            r is Err && r->Err_0.message() == "environment does not exist"@ && after == before
        },
    }
}

/// What `define-macro` with formals `args[0]` and body `args[1..]` gives in `env`: the macro
/// they describe, closing over `env`, bound to its name there; or the error for formals that
/// are no list or describe no procedure, or for an environment that does not exist.
pub open spec fn define_macro_outcome(
    args: Seq<ExprV>,
    env: EnvRef,
    r: ProcedureResult,
    before: Seq<crate::env::FrameV>,
    after: Seq<crate::env::FrameV>,
) -> bool {
    match args[0] {
        ExprV::List(items, dotted) => match formals_of(
            items,
            dotted,
            "expected at least 1 argument for define-macro formals list, got 0"@,
        ) {
            Err(m) => r is Err && r->Err_0.message() == m && after == before,
            Ok((name, pv)) => if env.index < before.len() {
                (r matches Ok(ProcedureReturn::Value(e)) && e == Expr::Void) && after == before.update(
                    env.index as int,
                    crate::env::frame_bind_macro(
                        before[env.index as int],
                        name,
                        ProcV::Compound(Some(name), pv, args.drop_first(), env),
                    ),
                )
            } else {
                r is Err && r->Err_0.message() == "environment does not exist"@ && after == before
            },
        },
        other => r is Err && r->Err_0.message() == "expected list as the first argument for define-macro, got "@
            + display(other) && after == before,
    }
}

/// Checks that every element of a formals list is a symbol.
fn check_formals(list: &List) -> (r: Result<(), EvalError>)
    ensures
        match crate::procedure::first_non_symbol(exprs_view(list.items())) {
            Some(i) => r is Err && r->Err_0.message() == formals_error(exprs_view(list.items()), i),
            None => r is Ok,
        },
{
    let items = list.iter();
    let ghost iv = exprs_view(list.items());
    proof {
        crate::expr::lemma_exprs_view_len(list.items());
        reveal_strlit("expected symbols in define procedure formals list, got ");
        reveal_strlit(" at position ");
    }
    let mut i: usize = 0;
    while i < items.len()
        invariant
            0 <= i <= items@.len(),
            items@ == list.items(),
            iv == exprs_view(list.items()),
            iv.len() == items@.len(),
            forall|j: int| 0 <= j < i ==> (#[trigger] iv[j]) is Symbol,
        decreases items@.len() - i,
    {
        proof {
            crate::expr::lemma_exprs_view_index(list.items(), i as int);
        }
        match &items[i] {
            Expr::Symbol(_) => {},
            other => {
                proof {
                    lemma_view_variant(*other);
                    crate::procedure::lemma_first_non_symbol(iv, i as int);
                }
                let mut s = String::from_str("expected symbols in define procedure formals list, got ");
                push_str_lit(&mut s, other.kind());
                push_str_lit(&mut s, " at position ");
                push_decimal(&mut s, (i as u64) + 1);
                return Err(runtime_error(s));
            },
        }
        i = i + 1;
    }
    proof {
        crate::procedure::lemma_first_non_symbol(iv, i as int);
    }
    Ok(())
}

/// The name and the parameter list of a `(name . formals)` list whose elements are symbols.
fn split_formals(list: List, empty_message: &str) -> (r: Result<(String, Expr), EvalError>)
    ensures
        match formals_parts(exprs_view(list.items()), list.dotted(), empty_message@) {
            Ok((name, params)) => r is Ok && r->Ok_0.0@ == name && r->Ok_0.1@ == params,
            Err(m) => r is Err && r->Err_0.message() == m,
        },
{
    proof {
        crate::expr::lemma_exprs_view_len(list.items());
        if list.items().len() > 0 {
            lemma_exprs_view_split(list.items());
        }
    }
    let (name_expr, mut params) = match list.split_first() {
        Ok(parts) => parts,
        Err(_) => {
            return Err(error_of(empty_message));
        },
    };
    proof {
        lemma_view_variant(name_expr);
        List::lemma_view(params);
        crate::expr::lemma_exprs_view_len(params.items());
        if params.items().len() > 0 {
            crate::expr::lemma_exprs_view_index(params.items(), 0);
        }
    }
    let name = match name_expr {
        Expr::Symbol(n) => n,
        _ => {
            return Err(error_of(empty_message));
        },
    };
    let params_expr = if params.is_dotted() && params.len() == 1 {
        match params.pop_front() {
            Some(e) => e,
            None => Expr::new_empty_list(),
        }
    } else {
        Expr::List(params)
    };
    Ok((name, params_expr))
}

/// `define`: binds a symbol to the value of an expression, or defines a procedure.
fn define_fn(args: Exprs, env: EnvRef, store: &mut Store, fuel: u64) -> (r: ProcedureResult)
    requires
        args@.len() >= 2,
    ensures
        grows(old(store)@, final(store)@),
        appends(old(store).written(), final(store).written()),
        fuel > 0 && args@[0] is Symbol ==> define_symbol_outcome(
            args@[0]->Symbol_0@,
            args@[1]@,
            env,
            (fuel - 1) as nat,
            r,
            old(store)@,
            final(store)@,
        ),
        fuel > 0 && args@[0]@ is List ==> define_procedure_outcome(
            exprs_view(args@),
            env,
            r,
            old(store)@,
            final(store)@,
        ),
        fuel > 0 && !(args@[0]@ is Symbol) && !(args@[0]@ is List) ==> r is Err && r->Err_0.message()
            == "expected symbol or list as the first argument for define, got "@ + display(args@[0]@)
            && final(store)@ == old(store)@,
    decreases fuel,
{
    if fuel == 0 {
        return Err(out_of_steps());
    }
    proof {
        lemma_exprs_view_split(args@);
    }
    let ghost args0 = args@;
    let mut args = args;
    let first = args.remove(0);
    proof {
        lemma_view_variant(first);
        assert(args@ == args0.drop_first());
    }
    match first {
        Expr::Symbol(symbol) => {
            let value_expr = args.remove(0);
            let value = match eval_expr(value_expr, env, store, fuel - 1) {
                Ok(v) => v,
                Err(e) => {
                    return Err(e);
                },
            };
            match bind(env, store, symbol, value) {
                Ok(()) => Ok(ProcedureReturn::Value(Expr::Void)),
                Err(e) => Err(e),
            }
        },
        Expr::List(list) => {
            proof {
                List::lemma_view(list);
            }
            match check_formals(&list) {
                Ok(()) => {},
                Err(e) => {
                    return Err(e);
                },
            }
            let (name, params) = match split_formals(
                list,
                "expected at least 1 argument for define procedure formals list, got 0",
            ) {
                Ok(parts) => parts,
                Err(e) => {
                    return Err(e);
                },
            };
            let procedure = match create_procedure(Some(name.clone()), params, Body::new(args), env) {
                Ok(p) => p,
                Err(e) => {
                    return Err(e);
                },
            };
            match bind(env, store, name, Expr::Procedure(procedure)) {
                Ok(()) => Ok(ProcedureReturn::Value(Expr::Void)),
                Err(e) => Err(e),
            }
        },
        other => Err(display_error("expected symbol or list as the first argument for define, got ", &other)),
    }
}

/// `set!`: gives a new value to the nearest binding of a symbol.
/// The environments after `string-set!` has made the string `nv` for the target `target`:
/// the nearest binding of a symbol target is given `nv`; for another target the new string
/// is no longer reachable, and nothing changes.
pub open spec fn string_set_frames(target: ExprV, nv: ExprV, f: Seq<FrameV>, env: int) -> Seq<FrameV> {
    match target {
        ExprV::Symbol(name) => match crate::env::defining_frame(f, env, name) {
            Some(d) => f.update(d, crate::env::frame_bind(f[d], name, nv)),
            None => f,
        },
        _ => f,
    }
}

/// What `string-set!` with the operands `ops` gives in `env`, where `values_of` decides their
/// values with `fuel` steps: `#<void>`, and the variable named by the first operand bound
/// to the string with its character replaced; or the first error.
pub open spec fn string_set_outcome(
    ops: Seq<ExprV>,
    env: EnvRef,
    fuel: nat,
    r: ProcedureResult,
    before: Seq<FrameV>,
    after: Seq<FrameV>,
) -> bool {
    values_of(ops, before, env.index as int, fuel) is Some ==> {
        let (res, f) = values_of(ops, before, env.index as int, fuel)->0;
        match res {
            Err(m) => r is Err && r->Err_0.message() == m && after == f,
            Ok(vals) => match string_set_spec(vals) {
                Err(m) => r is Err && r->Err_0.message() == m && after == f,
                Ok(nv) => (r matches Ok(ProcedureReturn::Value(x)) && x == Expr::Void) && after
                    == string_set_frames(ops[0], nv, f, env.index as int),
            },
        }
    }
}

proof fn lemma_values_of_len(xs: Seq<ExprV>, frames: Seq<FrameV>, env: int, fuel: nat)
    ensures
        values_of(xs, frames, env, fuel) matches Some((Ok(vs), _)) ==> vs.len() == xs.len(),
    decreases xs.len(),
{
    if xs.len() > 0 {
        lemma_values_of_len(xs.drop_last(), frames, env, fuel);
    }
}

/// `string-set!`: evaluates its three operands, makes the string with the character at the
/// index replaced, and binds it to the variable that the first operand names.
fn string_set_fn(args: Exprs, env: EnvRef, store: &mut Store, fuel: u64) -> (r: ProcedureResult)
    requires
        args@.len() == 3,
    ensures
        grows(old(store)@, final(store)@),
        appends(old(store).written(), final(store).written()),
        fuel > 1 ==> string_set_outcome(exprs_view(args@), env, (fuel - 2) as nat, r, old(store)@, final(store)@),
    decreases fuel,
{
    if fuel <= 1 {
        return Err(out_of_steps());
    }
    let ghost ops = exprs_view(args@);
    proof {
        crate::expr::lemma_exprs_view_index(args@, 0);
        lemma_view_variant(args@[0]);
    }
    let target = match &args[0] {
        Expr::Symbol(name) => Some(name.clone()),
        _ => None,
    };
    let vals = match eval_each(args, env, store, fuel - 1) {
        Ok(v) => v,
        Err(e) => {
            return Err(e);
        },
    };
    proof {
        lemma_values_of_len(ops, old(store)@, env.index as int, (fuel - 2) as nat);
        crate::expr::lemma_exprs_view_len(vals@);
    }
    let nv = match string_set_value(&vals) {
        Ok(v) => v,
        Err(e) => {
            return Err(e);
        },
    };
    let ghost f = store@;
    match target {
        Some(name) => {
            proof {
                assert(ops[0] == ExprV::Symbol(name@));
                crate::env::lemma_defined_iff_bound(store@, env.index as int, name@);
            }
            let _ = env.set(store, name, nv);
        },
        None => {
            proof {
                assert(!(ops[0] is Symbol));
            }
        },
    }
    proof {
        assert(store@ == string_set_frames(ops[0], nv@, f, env.index as int));
    }
    Ok(ProcedureReturn::Value(Expr::Void))
}

fn set_fn(args: Exprs, env: EnvRef, store: &mut Store, fuel: u64) -> (r: ProcedureResult)
    requires
        args@.len() == 2,
    ensures
        grows(old(store)@, final(store)@),
        appends(old(store).written(), final(store).written()),
        fuel > 0 && args@[0] is Symbol ==> set_outcome(
            args@[0]->Symbol_0@,
            args@[1]@,
            env,
            (fuel - 1) as nat,
            r,
            old(store)@,
            final(store)@,
        ),
        fuel > 0 && !(args@[0] is Symbol) ==> r is Err && r->Err_0.message()
            == "expected symbol as first argument of define, got "@ + kind_name(args@[0]@) && final(store)@
            == old(store)@,
    decreases fuel,
{
    if fuel == 0 {
        return Err(out_of_steps());
    }
    let mut args = args;
    let symbol = match args.remove(0) {
        Expr::Symbol(s) => s,
        other => {
            return Err(kind_error("expected symbol as first argument of define, got ", &other));
        },
    };
    let value_expr = args.remove(0);
    let value = match eval_expr(value_expr, env, store, fuel - 1) {
        Ok(v) => v,
        Err(e) => {
            return Err(e);
        },
    };
    proof {
        crate::env::lemma_defined_iff_bound(store@, env.index as int, symbol@);
    }
    match env.set(store, symbol, value) {
        Ok(()) => Ok(ProcedureReturn::Value(Expr::Void)),
        Err(m) => Err(runtime_error(m)),
    }
}

/// The symbol and the expression of the `(symbol expression)` binding `b` of `form`, or the
/// error for a binding that is no list, has not two elements, or does not start with a
/// symbol.
pub open spec fn binding_parts(b: ExprV, form: Seq<char>) -> Result<(Seq<char>, ExprV), Seq<char>> {
    match b {
        ExprV::List(items, _) => if items.len() != 2 {
            Err("expected 2 elements in binding in "@ + form + ", got "@ + crate::text::decimal(items.len()))
        } else if items[0] is Symbol {
            Ok((items[0]->Symbol_0, items[1]))
        } else {
            Err("expected symbol as first element of binding in "@ + form + ", got "@ + kind_name(items[0]))
        },
        other => Err("expected list as binding in "@ + form + ", got "@ + display(other)),
    }
}

/// The environments after binding in order, in environment `k` of `frames`, the bindings
/// `bs` of `form`, each expression evaluated in environment `at` with `fuel` steps in the
/// environments as they stand, where `tree_value` decides it; with the error that stopped
/// it, if any.
pub open spec fn bind_each(
    bs: Seq<ExprV>,
    form: Seq<char>,
    frames: Seq<crate::env::FrameV>,
    k: int,
    at: int,
    fuel: nat,
) -> Option<(Seq<crate::env::FrameV>, Option<Seq<char>>)>
    decreases fuel, bs.len() + 1,
{
    if bs.len() == 0 {
        Some((frames, None))
    } else {
        match binding_parts(bs[0], form) {
            Err(m) => Some((frames, Some(m))),
            Ok((name, e)) => match tree_value(e, frames, at, fuel) {
                None => None,
                Some((Err(m), f1)) => Some((f1, Some(m))),
                Some((Ok(v), f1)) => bind_each(
                    bs.drop_first(),
                    form,
                    f1.update(k, crate::env::frame_bind(f1[k], name, v)),
                    k,
                    at,
                    fuel,
                ),
            },
        }
    }
}

/// The symbol and the expression of a `(symbol expression)` binding of `form`.
fn parse_binding(binding: Expr, form: &str) -> (r: Result<(String, Expr), EvalError>)
    ensures
        match binding_parts(binding@, form@) {
            Ok((name, e)) => r is Ok && r->Ok_0.0@ == name && r->Ok_0.1@ == e,
            Err(m) => r is Err && r->Err_0.message() == m,
        },
{
    proof {
        lemma_view_variant(binding);
        reveal_strlit("expected list as binding in ");
        reveal_strlit(", got ");
        reveal_strlit("expected 2 elements in binding in ");
        reveal_strlit("expected symbol as first element of binding in ");
    }
    let mut binding = match binding {
        Expr::List(l) => {
            proof {
                List::lemma_view(l);
                crate::expr::lemma_exprs_view_len(l.items());
                if l.items().len() == 2 {
                    crate::expr::lemma_exprs_view_index(l.items(), 0);
                    crate::expr::lemma_exprs_view_index(l.items(), 1);
                }
            }
            l
        },
        other => {
            let mut s = String::from_str("expected list as binding in ");
            push_str_lit(&mut s, form);
            push_str_lit(&mut s, ", got ");
            write_expr(&other, &mut s);
            return Err(runtime_error(s));
        },
    };
    if binding.len() != 2 {
        let mut s = String::from_str("expected 2 elements in binding in ");
        push_str_lit(&mut s, form);
        push_str_lit(&mut s, ", got ");
        push_decimal(&mut s, binding.len() as u64);
        return Err(runtime_error(s));
    }
    let symbol = match binding.pop_front() {
        Some(Expr::Symbol(s)) => s,
        Some(other) => {
            proof {
                lemma_view_variant(other);
            }
            let mut s = String::from_str("expected symbol as first element of binding in ");
            push_str_lit(&mut s, form);
            push_str_lit(&mut s, ", got ");
            push_str_lit(&mut s, other.kind());
            return Err(runtime_error(s));
        },
        None => {
            return Err(error_of("expected 2 elements in binding"));
        },
    };
    match binding.pop_front() {
        Some(value) => Ok((symbol, value)),
        None => Err(error_of("expected 2 elements in binding")),
    }
}

/// What `let` (with `rec`, `letrec`) with the bindings list `first` and the body `body` gives
/// in `env` with `fuel` steps: a new environment whose parent is `env`; the bindings made
/// there in order, each expression evaluated in `env` (for `letrec`, in the new environment);
/// then the body, evaluated there. Or the first error: for a bindings list that is no list,
/// a store that is full, or a binding.
pub open spec fn let_outcome(
    first: ExprV,
    body: Seq<ExprV>,
    rec: bool,
    env: EnvRef,
    fuel: u64,
    r: ProcedureResult,
    before: Seq<crate::env::FrameV>,
    after: Seq<crate::env::FrameV>,
) -> bool {
    let form = if rec {
        "letrec"@
    } else {
        "let"@
    };
    match first {
        ExprV::List(bs, _) => if before.len() >= usize::MAX {
            r is Err && r->Err_0.message() == "too many environments"@ && after == before
        } else {
            let k = before.len() as int;
            let frames = before.push(
                crate::env::FrameV { bindings: Seq::empty(), macros: Seq::empty(), parent: Some(env), output: Seq::empty() },
            );
            match bind_each(bs, form, frames, k, if rec { k } else { env.index as int }, (fuel - 1) as nat) {
                None => true,
                Some((fr, Some(m))) => r is Err && r->Err_0.message() == m && after == fr,
                Some((fr, None)) => body_outcome(body, EnvRef { index: k as usize }, (fuel - 1) as u64, r, fr, after),
            }
        },
        other => r is Err && r->Err_0.message() == "expected bindings list as first argument of "@ + form
            + ", got "@ + display(other) && after == before,
    }
}

/// The bindings list of `form`.
fn bindings_list(e: Expr, form: &str) -> (r: Result<List, EvalError>)
    ensures
        e matches Expr::List(l) ==> r == Ok::<List, EvalError>(l),
        !(e is List) ==> r is Err && r->Err_0.message() == "expected bindings list as first argument of "@
            + form@ + ", got "@ + display(e@),
{
    proof {
        reveal_strlit("expected bindings list as first argument of ");
        reveal_strlit(", got ");
    }
    match e {
        Expr::List(l) => Ok(l),
        other => {
            let mut s = String::from_str("expected bindings list as first argument of ");
            push_str_lit(&mut s, form);
            push_str_lit(&mut s, ", got ");
            write_expr(&other, &mut s);
            Err(runtime_error(s))
        },
    }
}

/// `let`: binds the values of expressions, evaluated in the current environment, in a new
/// environment, and evaluates the body there; with a name first, a named `let`.
fn let_fn(args: Exprs, env: EnvRef, store: &mut Store, fuel: u64) -> (r: ProcedureResult)
    requires
        args@.len() >= 1,
    ensures
        grows(old(store)@, final(store)@),
        appends(old(store).written(), final(store).written()),
        fuel > 0 && !(args@[0]@ is Symbol) ==> let_outcome(
            args@[0]@,
            exprs_view(args@.drop_first()),
            false,
            env,
            fuel,
            r,
            old(store)@,
            final(store)@,
        ),
        fuel >= 3 && args@[0]@ is Symbol ==> named_let_outcome(
            args@[0]@->Symbol_0,
            exprs_view(args@.drop_first()),
            env,
            (fuel - 1) as u64,
            r,
            old(store)@,
            final(store)@,
        ),
    decreases fuel,
{
    if fuel == 0 {
        return Err(out_of_steps());
    }
    proof {
        lemma_exprs_view_split(args@);
    }
    let mut rest = args;
    let first = rest.remove(0);
    proof {
        lemma_view_variant(first);
        assert(rest@ == args@.drop_first());
    }
    if let Expr::Symbol(name) = first {
        return named_let_form(name, rest, env, store, fuel - 1);
    }
    let mut bindings = match bindings_list(first, "let") {
        Ok(l) => l,
        Err(e) => {
            return Err(e);
        },
    };
    proof {
        List::lemma_view(bindings);
    }
    let ghost bs = exprs_view(bindings.items());
    let ghost k = old(store)@.len() as int;
    let ghost g = (fuel - 1) as nat;
    let ghost outcome = bind_each(
        bs,
        "let"@,
        old(store)@.push(crate::env::FrameV { bindings: Seq::empty(), macros: Seq::empty(), parent: Some(env), output: Seq::empty() }),
        k,
        env.index as int,
        g,
    );
    let eval_env = match extend_env(env, store) {
        Ok(e) => e,
        Err(e) => {
            return Err(e);
        },
    };
    while !bindings.is_empty()
        invariant
            grows(old(store)@, store@),
            appends(old(store).written(), store.written()),
            eval_env.index < store@.len(),
            fuel > 0,
            g == fuel - 1,
            k == old(store)@.len(),
            eval_env.index == k,
            k < usize::MAX,
            args@.len() >= 1,
            rest@ == args@.drop_first(),
            args@[0]@ matches ExprV::List(b, _) && b == bs,
            outcome == bind_each(
                bs,
                "let"@,
                old(store)@.push(
                    crate::env::FrameV { bindings: Seq::empty(), macros: Seq::empty(), parent: Some(env), output: Seq::empty() },
                ),
                k,
                env.index as int,
                g,
            ),
            outcome is Some ==> bind_each(exprs_view(bindings.items()), "let"@, store@, k, env.index as int, g)
                == outcome,
        ensures
            bindings.items().len() == 0,
        decreases bindings.items().len(),
    {
        let ghost cur = exprs_view(bindings.items());
        proof {
            crate::expr::lemma_exprs_view_len(bindings.items());
            lemma_exprs_view_split(bindings.items());
        }
        let binding = match bindings.pop_front() {
            Some(b) => b,
            None => {
                break;
            },
        };
        proof {
            assert(cur[0] == binding@);
            assert(exprs_view(bindings.items()) == cur.drop_first());
        }
        let (symbol, value_expr) = match parse_binding(binding, "let") {
            Ok(parts) => parts,
            Err(e) => {
                return Err(e);
            },
        };
        let value = match eval_expr(value_expr, env, store, fuel - 1) {
            Ok(v) => v,
            Err(e) => {
                return Err(e);
            },
        };
        match bind(eval_env, store, symbol, value) {
            Ok(()) => {},
            Err(e) => {
                return Err(e);
            },
        }
    }
    proof {
        assert(exprs_view(bindings.items()) =~= Seq::<ExprV>::empty());
    }
    eval_exprs_with_tailcall(rest, eval_env, store, fuel - 1)
}

/// The parameters (as symbols) and the values of the bindings `bs` of a named `let`, each
/// expression evaluated in `env` with `fuel` steps, where `tree_value` decides it, or the
/// first error; and the environments after them.
pub open spec fn named_bindings(bs: Seq<ExprV>, frames: Seq<FrameV>, env: int, fuel: nat) -> Option<
    (Result<(Seq<ExprV>, Seq<ExprV>), Seq<char>>, Seq<FrameV>),
>
    decreases fuel, bs.len() + 1,
{
    if bs.len() == 0 {
        Some((Ok((Seq::empty(), Seq::empty())), frames))
    } else {
        match named_bindings(bs.drop_last(), frames, env, fuel) {
            None => None,
            Some((Err(m), f1)) => Some((Err(m), f1)),
            Some((Ok((ps, vs)), f1)) => match binding_parts(bs.last(), "let"@) {
                Err(m) => Some((Err(m), f1)),
                Ok((n, e)) => match tree_value(e, f1, env, fuel) {
                    None => None,
                    Some((Err(m), f2)) => Some((Err(m), f2)),
                    Some((Ok(v), f2)) => Some((Ok((ps.push(ExprV::Symbol(n)), vs.push(v))), f2)),
                },
            },
        }
    }
}

proof fn lemma_named_bindings_prefix(bs: Seq<ExprV>, frames: Seq<crate::env::FrameV>, env: int, fuel: nat, k: int)
    requires
        0 <= k <= bs.len(),
        named_bindings(bs, frames, env, fuel) is Some,
    ensures
        named_bindings(bs.take(k), frames, env, fuel) is Some,
    decreases bs.len(),
{
    if k == bs.len() {
        assert(bs.take(k) =~= bs);
    } else {
        assert(bs.drop_last().take(k) =~= bs.take(k));
        lemma_named_bindings_prefix(bs.drop_last(), frames, env, fuel, k);
    }
}

proof fn lemma_named_bindings_error(bs: Seq<ExprV>, frames: Seq<crate::env::FrameV>, env: int, fuel: nat, k: int)
    requires
        0 <= k <= bs.len(),
        named_bindings(bs.take(k), frames, env, fuel) matches Some((Err(_), _)),
    ensures
        named_bindings(bs, frames, env, fuel) == named_bindings(bs.take(k), frames, env, fuel),
    decreases bs.len() - k,
{
    if k < bs.len() {
        assert(bs.take(k + 1).drop_last() =~= bs.take(k));
        lemma_named_bindings_error(bs, frames, env, fuel, k + 1);
    } else {
        assert(bs.take(k) =~= bs);
    }
}

/// What a named `let`, with the name `name` and the arguments `args` after it, gives in `env`
/// with `fuel` steps: the bindings' values, evaluated in `env`; a new environment whose
/// parent is `env`, where `name` is bound to a procedure with the bindings' names as
/// parameters and the body as body, closing over it; and that procedure applied to the
/// values. Or the first error.
pub open spec fn named_let_outcome(
    name: Seq<char>,
    args: Seq<ExprV>,
    env: EnvRef,
    fuel: u64,
    r: ProcedureResult,
    before: Seq<crate::env::FrameV>,
    after: Seq<crate::env::FrameV>,
) -> bool {
    if args.len() == 0 {
        r is Err && r->Err_0.message() == crate::procedure::arity_message(Arity::AtLeast(2), "let"@)
            && after == before
    } else {
        match args[0] {
            ExprV::List(bs, _) => match named_bindings(bs, before, env.index as int, (fuel - 1) as nat) {
                None => true,
                Some((Err(m), f1)) => r is Err && r->Err_0.message() == m && after == f1,
                Some((Ok((ps, vs)), f1)) => if f1.len() >= usize::MAX {
                    r is Err && r->Err_0.message() == "too many environments"@ && after == f1
                } else {
                    let cenv = EnvRef { index: f1.len() as usize };
                    let frame = crate::env::FrameV {
                        bindings: Seq::empty(),
                        macros: Seq::empty(),
                        parent: Some(env),
                        output: Seq::empty(),
                    };
                    match crate::procedure::params_of(ExprV::List(ps, false)) {
                        Err(m) => r is Err && r->Err_0.message() == m && after == f1.push(frame),
                        Ok(pv) => {
                            let pr = ProcV::Compound(Some(name), pv, args.drop_first(), cenv);
                            compound_call(
                                Some(name),
                                pv,
                                args.drop_first(),
                                cenv,
                                vs,
                                (fuel - 2) as u64,
                                r,
                                f1.push(crate::env::frame_bind(frame, name, ExprV::Procedure(pr))),
                                after,
                            )
                        },
                    }
                },
            },
            other => r is Err && r->Err_0.message() == "expected bindings list as first argument of "@
                + "let"@ + ", got "@ + display(other) && after == before,
        }
    }
}

/// A named `let`: a procedure with the binding names as parameters and the body as body,
/// bound to its name in a new environment, applied to the values of the bindings.
fn named_let_form(name: String, args: Exprs, env: EnvRef, store: &mut Store, fuel: u64) -> (r: ProcedureResult)
    ensures
        grows(old(store)@, final(store)@),
        appends(old(store).written(), final(store).written()),
        fuel >= 2 ==> named_let_outcome(name@, exprs_view(args@), env, fuel, r, old(store)@, final(store)@),
    decreases fuel,
{
    if fuel == 0 {
        return Err(out_of_steps());
    }
    proof {
        reveal_strlit("let");
        crate::expr::lemma_exprs_view_len(args@);
    }
    let mut rest = args;
    if rest.len() == 0 {
        return Err(arity_error(Arity::AtLeast(2), "let"));
    }
    proof {
        lemma_exprs_view_split(args@);
    }
    let first = rest.remove(0);
    proof {
        lemma_view_variant(first);
        assert(rest@ == args@.drop_first());
    }
    let mut bindings = match bindings_list(first, "let") {
        Ok(l) => l,
        Err(e) => {
            return Err(e);
        },
    };
    proof {
        List::lemma_view(bindings);
        crate::expr::lemma_exprs_view_len(bindings.items());
    }
    let total = bindings.len();
    let ghost bl = bindings.items();
    let ghost bs = exprs_view(bl);
    let ghost g = (fuel - 1) as nat;
    let ghost decided = named_bindings(bs, old(store)@, env.index as int, g) is Some;
    let mut params: Exprs = Vec::new();
    let mut values: Exprs = Vec::new();
    let mut i: usize = 0;
    proof {
        assert(bl.skip(0) =~= bl);
        assert(bs.take(0) =~= Seq::<ExprV>::empty());
        assert(exprs_view(params@) =~= Seq::<ExprV>::empty());
        assert(exprs_view(values@) =~= Seq::<ExprV>::empty());
    }
    while !bindings.is_empty()
        invariant
            grows(old(store)@, store@),
            appends(old(store).written(), store.written()),
            fuel > 0,
            g == fuel - 1,
            bs == exprs_view(bl),
            bs.len() == bl.len(),
            bl.len() == total,
            0 <= i <= bl.len(),
            bindings.items() == bl.skip(i as int),
            args@.len() >= 1,
            rest@ == args@.drop_first(),
            args@[0]@ matches ExprV::List(b, _) && b == bs,
            exprs_view(args@).len() == args@.len(),
            exprs_view(args@)[0] == args@[0]@,
            exprs_view(args@).drop_first() == exprs_view(args@.drop_first()),
            decided == (named_bindings(bs, old(store)@, env.index as int, g) is Some),
            decided ==> named_bindings(bs.take(i as int), old(store)@, env.index as int, g) == Some(
                (Ok::<(Seq<ExprV>, Seq<ExprV>), Seq<char>>((exprs_view(params@), exprs_view(values@))), store@),
            ),
        ensures
            bindings.items().len() == 0,
            i == bl.len(),
        decreases bindings.items().len(),
    {
        proof {
            assert(bl.skip(i as int).len() > 0);
            assert(i < bl.len());
            crate::expr::lemma_exprs_view_index(bl, i as int);
            assert(bs.take(i + 1).drop_last() =~= bs.take(i as int));
            assert(bs.take(i + 1).last() == bs[i as int]);
            if decided {
                lemma_named_bindings_prefix(bs, old(store)@, env.index as int, g, i + 1);
            }
        }
        let binding = match bindings.pop_front() {
            Some(b) => b,
            None => {
                break;
            },
        };
        proof {
            assert(binding == bl[i as int]);
            assert(bl.skip(i + 1) =~= bl.skip(i as int).drop_first());
        }
        let (symbol, value_expr) = match parse_binding(binding, "let") {
            Ok(parts) => parts,
            Err(e) => {
                proof {
                    if decided {
                        lemma_named_bindings_error(bs, old(store)@, env.index as int, g, i + 1);
                    }
                }
                return Err(e);
            },
        };
        let ghost pb = params@;
        params.push(Expr::Symbol(symbol));
        let value = match eval_expr(value_expr, env, store, fuel - 1) {
            Ok(v) => v,
            Err(e) => {
                proof {
                    if decided {
                        lemma_named_bindings_error(bs, old(store)@, env.index as int, g, i + 1);
                    }
                }
                return Err(e);
            },
        };
        let ghost vb = values@;
        values.push(value);
        proof {
            crate::expr::lemma_exprs_view_push(pb, params@.last());
            crate::expr::lemma_exprs_view_push(vb, value);
        }
        i = i + 1;
    }
    proof {
        assert(bs.take(i as int) =~= bs);
    }
    let ghost bound = store@;
    let eval_env = match extend_env(env, store) {
        Ok(e) => e,
        Err(e) => {
            return Err(e);
        },
    };
    let proc = match create_procedure(Some(name.clone()), Expr::new_proper_list(params), Body::new(rest), eval_env) {
        Ok(p) => p,
        Err(e) => {
            return Err(e);
        },
    };
    let ghost name_v = name@;
    let ghost pv = proc@;
    match bind(eval_env, store, name, Expr::Procedure(proc.copy())) {
        Ok(()) => {},
        Err(e) => {
            return Err(e);
        },
    }
    proof {
        if decided {
            let frame = crate::env::FrameV { bindings: Seq::empty(), macros: Seq::empty(), parent: Some(env), output: Seq::empty() };
            assert(store@ =~= bound.push(crate::env::frame_bind(frame, name_v, ExprV::Procedure(pv))));
        }
    }
    proc.apply(values, eval_env, store, fuel - 1)
}

/// `letrec`: like `let`, but each value is evaluated in the new environment, so that the
/// bindings can refer to each other.
fn letrec_fn(args: Exprs, env: EnvRef, store: &mut Store, fuel: u64) -> (r: ProcedureResult)
    requires
        args@.len() >= 1,
    ensures
        grows(old(store)@, final(store)@),
        appends(old(store).written(), final(store).written()),
        fuel > 0 ==> let_outcome(
            args@[0]@,
            exprs_view(args@.drop_first()),
            true,
            env,
            fuel,
            r,
            old(store)@,
            final(store)@,
        ),
    decreases fuel,
{
    if fuel == 0 {
        return Err(out_of_steps());
    }
    proof {
        lemma_exprs_view_split(args@);
    }
    let mut rest = args;
    let first = rest.remove(0);
    proof {
        lemma_view_variant(first);
        assert(rest@ == args@.drop_first());
    }
    let mut bindings = match bindings_list(first, "letrec") {
        Ok(l) => l,
        Err(e) => {
            return Err(e);
        },
    };
    proof {
        List::lemma_view(bindings);
    }
    let ghost bs = exprs_view(bindings.items());
    let ghost k = old(store)@.len() as int;
    let ghost g = (fuel - 1) as nat;
    let ghost outcome = bind_each(
        bs,
        "letrec"@,
        old(store)@.push(crate::env::FrameV { bindings: Seq::empty(), macros: Seq::empty(), parent: Some(env), output: Seq::empty() }),
        k,
        k,
        g,
    );
    let eval_env = match extend_env(env, store) {
        Ok(e) => e,
        Err(e) => {
            return Err(e);
        },
    };
    while !bindings.is_empty()
        invariant
            grows(old(store)@, store@),
            appends(old(store).written(), store.written()),
            eval_env.index < store@.len(),
            fuel > 0,
            g == fuel - 1,
            k == old(store)@.len(),
            eval_env.index == k,
            k < usize::MAX,
            args@.len() >= 1,
            rest@ == args@.drop_first(),
            args@[0]@ matches ExprV::List(b, _) && b == bs,
            outcome == bind_each(
                bs,
                "letrec"@,
                old(store)@.push(
                    crate::env::FrameV { bindings: Seq::empty(), macros: Seq::empty(), parent: Some(env), output: Seq::empty() },
                ),
                k,
                k,
                g,
            ),
            outcome is Some ==> bind_each(exprs_view(bindings.items()), "letrec"@, store@, k, k, g) == outcome,
        ensures
            bindings.items().len() == 0,
        decreases bindings.items().len(),
    {
        let ghost cur = exprs_view(bindings.items());
        proof {
            crate::expr::lemma_exprs_view_len(bindings.items());
            lemma_exprs_view_split(bindings.items());
        }
        let binding = match bindings.pop_front() {
            Some(b) => b,
            None => {
                break;
            },
        };
        proof {
            assert(cur[0] == binding@);
            assert(exprs_view(bindings.items()) == cur.drop_first());
        }
        let (symbol, value_expr) = match parse_binding(binding, "letrec") {
            Ok(parts) => parts,
            Err(e) => {
                return Err(e);
            },
        };
        let value = match eval_expr(value_expr, eval_env, store, fuel - 1) {
            Ok(v) => v,
            Err(e) => {
                return Err(e);
            },
        };
        match bind(eval_env, store, symbol, value) {
            Ok(()) => {},
            Err(e) => {
                return Err(e);
            },
        }
    }
    proof {
        assert(exprs_view(bindings.items()) =~= Seq::<ExprV>::empty());
    }
    eval_exprs_with_tailcall(rest, eval_env, store, fuel - 1)
}

/// `if`: the consequent, or the alternative when the test is `#f`, as a tail call;
/// `#<void>` when the test is `#f` and there is no alternative.
fn if_fn(args: Exprs, env: EnvRef, store: &mut Store, fuel: u64) -> (r: ProcedureResult)
    requires
        2 <= args@.len() <= 3,
    ensures
        grows(old(store)@, final(store)@),
        appends(old(store).written(), final(store).written()),
        fuel > 0 ==> if_outcome(args@, env, (fuel - 1) as nat, r, old(store)@, final(store)@),
    decreases fuel,
{
    if fuel == 0 {
        return Err(out_of_steps());
    }
    let mut args = args;
    let test = args.remove(0);
    let then = args.remove(0);
    let test = match eval_expr(test, env, store, fuel - 1) {
        Ok(v) => v,
        Err(e) => {
            return Err(e);
        },
    };
    if test.is_truthy() {
        Ok(ProcedureReturn::TailCall(then, env))
    } else if args.len() > 0 {
        Ok(ProcedureReturn::TailCall(args.remove(0), env))
    } else {
        Ok(ProcedureReturn::Value(Expr::Void))
    }
}

/// What `cond` chooses: an error, a value, a body to evaluate, or a test's value to hand to
/// the procedure that an expression evaluates to.
pub enum CondChoice {
    Fail(Seq<char>),
    Value(ExprV),
    Body(Seq<ExprV>),
    Arrow(ExprV, ExprV),
}

/// What `cond` with the clauses `cs` chooses in `env`, its tests evaluated with `fuel` steps,
/// and the environments after the tests, where `tree_value` decides each test it evaluates:
/// the first clause whose test is true
/// gives its body, or the test's value when it has none; `else`, which must be the last
/// clause, gives its body, which must not be empty; with `=>`, the test's value and the
/// expression after it; `#<void>` when no clause is chosen. A clause that is no list, or an
/// empty one, is an error. A dotted clause is read by its elements, its tail last; a tail
/// `=>` is an expression of the body.
pub open spec fn cond_choice(cs: Seq<ExprV>, frames: Seq<FrameV>, env: int, fuel: nat) -> Option<
    (CondChoice, Seq<FrameV>),
>
    decreases fuel, cs.len() + 1,
{
    if cs.len() == 0 {
        Some((CondChoice::Value(ExprV::Void), frames))
    } else {
        match cs[0] {
            ExprV::List(items, dotted) => if items.len() == 0 {
                Some((CondChoice::Fail("expected at least 1 element in clause"@), frames))
            } else if items[0] == ExprV::Symbol("else"@) {
                if cs.len() != 1 {
                    Some((CondChoice::Fail("else clause must be last in cond"@), frames))
                } else if items.len() == 1 {
                    Some((CondChoice::Fail("else clause should contain at least 1 expression"@), frames))
                } else {
                    Some((CondChoice::Body(items.drop_first()), frames))
                }
            } else {
                match tree_value(items[0], frames, env, fuel) {
                    None => None,
                    Some((Err(m), f1)) => Some((CondChoice::Fail(m), f1)),
                    Some((Ok(v), f1)) => if crate::expr::truthy(v) {
                        if items.len() == 1 {
                            Some((CondChoice::Value(v), f1))
                        } else if items[1] == ExprV::Symbol("=>"@) && !(dotted && items.len() == 2) {
                            if items.len() == 2 {
                                Some((CondChoice::Fail("expected expression after `=>` in cond clause"@), f1))
                            } else {
                                Some((CondChoice::Arrow(v, items[2]), f1))
                            }
                        } else {
                            Some((CondChoice::Body(items.drop_first()), f1))
                        }
                    } else {
                        cond_choice(cs.drop_first(), f1, env, fuel)
                    },
                }
            },
            other => Some((CondChoice::Fail("expected list as clause in cond, got "@ + display(other)), frames)),
        }
    }
}

/// Whether `r` and the environments `after` are what the choice `c` of `cond` gives, its
/// body (or the expression after `=>`, and the call of its procedure) evaluated with `fuel`
/// steps.
pub open spec fn cond_outcome(
    c: CondChoice,
    env: EnvRef,
    fuel: u64,
    r: ProcedureResult,
    before: Seq<crate::env::FrameV>,
    after: Seq<crate::env::FrameV>,
) -> bool {
    match c {
        CondChoice::Fail(m) => r is Err && r->Err_0.message() == m && after == before,
        CondChoice::Value(v) => (r matches Ok(ProcedureReturn::Value(e)) && e@ == v) && after == before,
        CondChoice::Body(b) => body_outcome(b, env, fuel, r, before, after),
        CondChoice::Arrow(v, pe) => tree_value(pe, before, env.index as int, fuel as nat) is Some ==> {
            let (res, f) = tree_value(pe, before, env.index as int, fuel as nat)->0;
            match res {
                Err(m) => r is Err && r->Err_0.message() == m && after == f,
                Ok(ExprV::Procedure(pv)) => if crate::procedure::proc_arity(pv) != Arity::Exact(1) {
                    r is Err && r->Err_0.message() == "expected procedure with 1 argument after `=>` in cond clause"@
                        && after == f
                } else {
                    proc_step(pv, seq![v], f, env.index as int, fuel as nat) is Some ==> step_outcome(
                        r,
                        after,
                        proc_step(pv, seq![v], f, env.index as int, fuel as nat)->0,
                    )
                },
                Ok(other) => r is Err && r->Err_0.message() == "expected procedure after `=>` in cond clause, got "@
                    + kind_name(other) && after == f,
            }
        },
    }
}

/// `cond`: the first clause whose test is true, with `else` as the last clause and `=>`
/// handing the test's value to a procedure of one argument.
fn cond_fn(args: Exprs, env: EnvRef, store: &mut Store, fuel: u64) -> (r: ProcedureResult)
    ensures
        grows(old(store)@, final(store)@),
        appends(old(store).written(), final(store).written()),
        fuel > 0 && cond_choice(exprs_view(args@), old(store)@, env.index as int, (fuel - 1) as nat)
            is Some ==> {
            let (c, f) = cond_choice(exprs_view(args@), old(store)@, env.index as int, (fuel - 1) as nat)->0;
            cond_outcome(c, env, (fuel - 1) as u64, r, f, final(store)@)
        },
    decreases fuel,
{
    if fuel == 0 {
        return Err(out_of_steps());
    }
    let count = args.len();
    let ghost frames = old(store)@;
    let ghost g = (fuel - 1) as nat;
    let ghost decided = cond_choice(exprs_view(args@), frames, env.index as int, g) is Some;
    let ghost choice = cond_choice(exprs_view(args@), frames, env.index as int, g);
    proof {
        reveal_strlit("expected at least 1 element in clause");
        reveal_strlit("else clause must be last in cond");
        reveal_strlit("else clause should contain at least 1 expression");
        reveal_strlit("expected list as clause in cond, got ");
        reveal_strlit("else");
        reveal_strlit("=>");
    }
    let mut rest = args;
    let mut idx: usize = 0;
    while rest.len() > 0
        invariant
            grows(old(store)@, store@),
            appends(old(store).written(), store.written()),
            idx + rest@.len() == count,
            fuel > 0,
            g == fuel - 1,
            frames == old(store)@,
            decided == (choice is Some),
            choice == cond_choice(exprs_view(args@), frames, env.index as int, g),
            decided ==> cond_choice(exprs_view(rest@), store@, env.index as int, g) == choice,
        decreases rest@.len(),
    {
        idx = idx + 1;
        let ghost cs = exprs_view(rest@);
        proof {
            lemma_exprs_view_split(rest@);
            crate::expr::lemma_exprs_view_len(rest@);
        }
        let mut clause = match rest.remove(0) {
            Expr::List(l) => l,
            other => {
                proof {
                    lemma_view_variant(other);
                }
                return Err(display_error("expected list as clause in cond, got ", &other));
            },
        };
        let ghost items = exprs_view(clause.items());
        proof {
            List::lemma_view(clause);
            crate::expr::lemma_exprs_view_len(clause.items());
            assert(cs[0] == ExprV::List(items, clause.dotted()));
            assert(exprs_view(rest@) == cs.drop_first());
            if clause.items().len() > 0 {
                lemma_exprs_view_split(clause.items());
            }
        }
        let test = match clause.pop_front() {
            Some(t) => t,
            None => {
                return Err(error_of("expected at least 1 element in clause"));
            },
        };
        proof {
            assert(test@ == items[0]);
            assert(exprs_view(clause.items()) == items.drop_first());
        }
        if test.is_specific_symbol("else") {
            if idx != count {
                return Err(error_of("else clause must be last in cond"));
            }
            let exprs = clause.into_exprs();
            if exprs.len() == 0 {
                return Err(error_of("else clause should contain at least 1 expression"));
            }
            return eval_exprs_with_tailcall(exprs, env, store, fuel - 1);
        }
        let result = match eval_expr(test, env, store, fuel - 1) {
            Ok(v) => v,
            Err(e) => {
                return Err(e);
            },
        };
        if result.is_truthy() {
            let arrow = match clause.car() {
                Some(e) => e.is_specific_symbol("=>"),
                None => false,
            };
            proof {
                reveal_strlit("expected expression after `=>` in cond clause");
                reveal_strlit("expected procedure after `=>` in cond clause, got ");
                reveal_strlit("expected procedure with 1 argument after `=>` in cond clause");
                if clause.items().len() > 0 {
                    crate::expr::lemma_exprs_view_index(clause.items(), 0);
                }
                if clause.items().len() > 1 {
                    crate::expr::lemma_exprs_view_index(clause.items(), 1);
                }
            }
            if arrow {
                clause.pop_front();
                let proc_expr = match clause.pop_front() {
                    Some(e) => e,
                    None => {
                        return Err(error_of("expected expression after `=>` in cond clause"));
                    },
                };
                let proc = match eval_expr(proc_expr, env, store, fuel - 1) {
                    Ok(Expr::Procedure(p)) => p,
                    Ok(other) => {
                        proof {
                            lemma_view_variant(other);
                        }
                        return Err(kind_error("expected procedure after `=>` in cond clause, got ", &other));
                    },
                    Err(e) => {
                        return Err(e);
                    },
                };
                match proc.arity() {
                    Arity::Exact(1) => {},
                    _ => {
                        return Err(error_of("expected procedure with 1 argument after `=>` in cond clause"));
                    },
                }
                let mut call_args: Exprs = Vec::new();
                call_args.push(result);
                let ghost before = store@;
                let ghost ca = call_args@;
                let r = proc.apply(call_args, env, store, fuel - 1);
                proof {
                    lemma_proc_step_outcome(proc, ca, env, (fuel - 1) as u64, r, before, store@);
                    assert(exprs_view(ca) =~= seq![ca[0]@]) by {
                        crate::expr::lemma_exprs_view_len(ca);
                        crate::expr::lemma_exprs_view_index(ca, 0);
                    }
                }
                return r;
            }
            let exprs = clause.into_exprs();
            if exprs.len() == 0 {
                return Ok(ProcedureReturn::Value(result));
            }
            return eval_exprs_with_tailcall(exprs, env, store, fuel - 1);
        }
    }
    Ok(ProcedureReturn::Value(Expr::Void))
}

/// The elements that the quasiquoted elements `xs` give in `env`, with `fuel` steps, where
/// `tree_value` decides each unquoted expression: an element `(unquote e)` gives the value of
/// `e`, `(unquote-splicing e)` the elements of the list that `e` evaluates to, another list
/// the list of what its own elements give, and any other value itself; or the first error.
pub open spec fn quasi_items(xs: Seq<ExprV>, frames: Seq<FrameV>, env: int, fuel: nat) -> Option<
    (Result<Seq<ExprV>, Seq<char>>, Seq<FrameV>),
>
    decreases fuel, xs.len() + 1,
{
    if fuel == 0 {
        Some((Err(out_of_steps_message()), frames))
    } else if xs.len() == 0 {
        Some((Ok(Seq::empty()), frames))
    } else {
        match quasi_items(xs.drop_last(), frames, env, fuel) {
            None => None,
            Some((Err(m), f1)) => Some((Err(m), f1)),
            Some((Ok(acc), f1)) => match quasi_elem(xs.last(), f1, env, fuel) {
                None => None,
                Some((Err(m), f2)) => Some((Err(m), f2)),
                Some((Ok(part), f2)) => Some((Ok(acc + part), f2)),
            },
        }
    }
}

/// What the quasiquoted element `x` gives, as elements to splice in (see `quasi_items`), and
/// the environments after it.
pub open spec fn quasi_elem(x: ExprV, frames: Seq<FrameV>, env: int, fuel: nat) -> Option<
    (Result<Seq<ExprV>, Seq<char>>, Seq<FrameV>),
>
    decreases fuel, 0nat,
{
    match x {
        ExprV::List(items, dotted) => {
            let head = items.len() > 0 && !(dotted && items.len() == 1);
            if fuel == 0 {
                None
            } else if head && (items[0] == ExprV::Symbol("unquote"@) || items[0] == ExprV::Symbol(
                "unquote-splicing"@,
            )) {
                if items.len() < 2 {
                    Some((Err("expected expression after unquote"@), frames))
                } else {
                    match tree_value(items[1], frames, env, (fuel - 1) as nat) {
                        None => None,
                        Some((Err(m), f1)) => Some((Err(m), f1)),
                        Some((Ok(v), f1)) => if items[0] == ExprV::Symbol("unquote"@) {
                            Some((Ok(seq![v]), f1))
                        } else {
                            match v {
                                ExprV::List(vs, _) => Some((Ok(vs), f1)),
                                _ => Some((Err("expected list after unquote-splicing, got "@ + kind_name(v)), f1)),
                            }
                        },
                    }
                }
            } else {
                match quasi_items(items, frames, env, (fuel - 1) as nat) {
                    None => None,
                    Some((Err(m), f1)) => Some((Err(m), f1)),
                    Some((Ok(ys), f1)) => Some((Ok(seq![list_value(ys, dotted)]), f1)),
                }
            }
        },
        _ => Some((Ok(seq![x]), frames)),
    }
}

proof fn lemma_quasi_items_prefix(xs: Seq<ExprV>, frames: Seq<crate::env::FrameV>, env: int, fuel: nat, k: int)
    requires
        0 <= k <= xs.len(),
        quasi_items(xs, frames, env, fuel) is Some,
    ensures
        quasi_items(xs.take(k), frames, env, fuel) is Some,
    decreases xs.len(),
{
    if k == xs.len() {
        assert(xs.take(k) =~= xs);
    } else {
        assert(xs.drop_last().take(k) =~= xs.take(k));
        lemma_quasi_items_prefix(xs.drop_last(), frames, env, fuel, k);
    }
}

proof fn lemma_quasi_items_error(xs: Seq<ExprV>, frames: Seq<crate::env::FrameV>, env: int, fuel: nat, k: int)
    requires
        0 <= k <= xs.len(),
        quasi_items(xs.take(k), frames, env, fuel) matches Some((Err(_), _)),
    ensures
        quasi_items(xs, frames, env, fuel) == quasi_items(xs.take(k), frames, env, fuel),
    decreases xs.len() - k,
{
    if k < xs.len() {
        assert(xs.take(k + 1).drop_last() =~= xs.take(k));
        lemma_quasi_items_error(xs, frames, env, fuel, k + 1);
    } else {
        assert(xs.take(k) =~= xs);
    }
}

/// The elements of a quasiquoted list: `unquote` evaluates, `unquote-splicing` evaluates
/// to a list whose elements are spliced in, and nested lists are quasiquoted in turn.
fn quasiquote_list(list: Exprs, dotted: bool, env: EnvRef, store: &mut Store, fuel: u64) -> (r: EvalResult)
    ensures
        grows(old(store)@, final(store)@),
        appends(old(store).written(), final(store).written()),
        quasi_items(exprs_view(list@), old(store)@, env.index as int, fuel as nat) is Some ==> {
            let (res, f) = quasi_items(exprs_view(list@), old(store)@, env.index as int, fuel as nat)->0;
            final(store)@ == f && match res {
                Ok(ys) => r is Ok && r->Ok_0@ == list_value(ys, dotted),
                Err(m) => r is Err && r->Err_0.message() == m,
            }
        },
    decreases fuel,
{
    if fuel == 0 {
        return Err(out_of_steps());
    }
    proof {
        reveal_strlit("unquote");
        reveal_strlit("unquote-splicing");
        reveal_strlit("expected expression after unquote");
        reveal_strlit("expected list after unquote-splicing, got ");
        crate::expr::lemma_exprs_view_len(list@);
    }
    let ghost xl = list@;
    let ghost xs = exprs_view(xl);
    let ghost frames = old(store)@;
    let ghost f = fuel as nat;
    let ghost decided = quasi_items(xs, frames, env.index as int, f) is Some;
    let n = list.len();
    let mut rest = list;
    let mut new_list: Exprs = Vec::new();
    let mut i: usize = 0;
    proof {
        assert(xl.skip(0) =~= xl);
        assert(xs.take(0) =~= Seq::<ExprV>::empty());
        assert(exprs_view(new_list@) =~= Seq::<ExprV>::empty());
    }
    while rest.len() > 0
        invariant
            grows(old(store)@, store@),
            appends(old(store).written(), store.written()),
            fuel > 0,
            f == fuel,
            frames == old(store)@,
            xs == exprs_view(xl),
            xs.len() == xl.len(),
            n == xl.len(),
            0 <= i <= n,
            rest@ == xl.skip(i as int),
            xl == list@,
            decided == (quasi_items(xs, frames, env.index as int, f) is Some),
            decided ==> quasi_items(xs.take(i as int), frames, env.index as int, f) == Some(
                (Ok::<Seq<ExprV>, Seq<char>>(exprs_view(new_list@)), store@),
            ),
        decreases rest@.len(),
    {
        assert(rest@.len() == n - i);
        let expr = rest.remove(0);
        proof {
            crate::expr::lemma_exprs_view_index(xl, i as int);
            assert(expr == xl[i as int]);
            assert(xl.skip(i + 1) =~= xl.skip(i as int).drop_first());
            assert(xs.take(i + 1).drop_last() =~= xs.take(i as int));
            assert(xs.take(i + 1).last() == xs[i as int]);
            if decided {
                lemma_quasi_items_prefix(xs, frames, env.index as int, f, i + 1);
            }
            lemma_view_variant(expr);
        }
        let ghost nb = new_list@;
        match expr {
            Expr::List(mut expr_list) => {
                let ghost items = exprs_view(expr_list.items());
                let ghost d = expr_list.dotted();
                proof {
                    List::lemma_view(expr_list);
                    crate::expr::lemma_exprs_view_len(expr_list.items());
                    if expr_list.items().len() > 0 {
                        crate::expr::lemma_exprs_view_index(expr_list.items(), 0);
                    }
                    if expr_list.items().len() > 1 {
                        crate::expr::lemma_exprs_view_index(expr_list.items(), 1);
                    }
                }
                let unquote = match expr_list.car() {
                    Some(e) => if e.is_specific_symbol("unquote") {
                        1u8
                    } else if e.is_specific_symbol("unquote-splicing") {
                        2u8
                    } else {
                        0u8
                    },
                    None => 0u8,
                };
                if unquote == 1 {
                    let ghost el = expr_list.items();
                    expr_list.pop_front();
                    let e = match expr_list.pop_front() {
                        Some(e) => e,
                        None => {
                            proof {
                                assert(items[0] == ExprV::Symbol("unquote"@));
                                assert(items.len() < 2);
                                assert(xs[i as int] == ExprV::List(items, d));
                                assert(quasi_elem(xs[i as int], store@, env.index as int, f) == Some((Err::<Seq<ExprV>, Seq<char>>("expected expression after unquote"@), store@)));
                            }
                            proof {
                                if decided {
                                    lemma_quasi_items_error(xs, frames, env.index as int, f, i + 1);
                                }
                            }
                            return Err(error_of("expected expression after unquote"));
                        },
                    };
                    proof {
                        assert(e == el[1]);
                        assert(items[0] == ExprV::Symbol("unquote"@));
                        assert(xs[i as int] == ExprV::List(items, d));
                        assert(items[1] == e@);
                    }
                    match eval_expr(e, env, store, fuel - 1) {
                        Ok(v) => {
                            new_list.push(v);
                            proof {
                                crate::expr::lemma_exprs_view_push(nb, v);
                                assert(seq![v@] =~= Seq::<ExprV>::empty().push(v@));
                                assert(exprs_view(nb) + seq![v@] =~= exprs_view(nb).push(v@));
                            }
                        },
                        Err(err) => {
                            proof {
                                if decided {
                                    lemma_quasi_items_error(xs, frames, env.index as int, f, i + 1);
                                }
                            }
                            return Err(err);
                        },
                    }
                } else if unquote == 2 {
                    let ghost el = expr_list.items();
                    expr_list.pop_front();
                    let e = match expr_list.pop_front() {
                        Some(e) => e,
                        None => {
                            proof {
                                assert(items[0] == ExprV::Symbol("unquote-splicing"@));
                                assert(items.len() < 2);
                                assert(xs[i as int] == ExprV::List(items, d));
                                assert(quasi_elem(xs[i as int], store@, env.index as int, f) == Some((Err::<Seq<ExprV>, Seq<char>>("expected expression after unquote"@), store@)));
                            }
                            proof {
                                if decided {
                                    lemma_quasi_items_error(xs, frames, env.index as int, f, i + 1);
                                }
                            }
                            return Err(error_of("expected expression after unquote"));
                        },
                    };
                    proof {
                        assert(e == el[1]);
                        assert(items[0] == ExprV::Symbol("unquote-splicing"@));
                        assert(xs[i as int] == ExprV::List(items, d));
                        assert(items[1] == e@);
                    }
                    match eval_expr(e, env, store, fuel - 1) {
                        Ok(Expr::List(l)) => {
                            proof {
                                List::lemma_view(l);
                            }
                            let mut items = l.into_exprs();
                            let ghost iv = items@;
                            new_list.append(&mut items);
                            proof {
                                crate::expr::lemma_exprs_view_add(nb, iv);
                            }
                        },
                        Ok(other) => {
                            proof {
                                lemma_view_variant(other);
                                if decided {
                                    lemma_quasi_items_error(xs, frames, env.index as int, f, i + 1);
                                }
                            }
                            return Err(kind_error("expected list after unquote-splicing, got ", &other));
                        },
                        Err(err) => {
                            proof {
                                if decided {
                                    lemma_quasi_items_error(xs, frames, env.index as int, f, i + 1);
                                }
                            }
                            return Err(err);
                        },
                    }
                } else {
                    let dl = expr_list.is_dotted();
                    match quasiquote_list(expr_list.into_exprs(), dl, env, store, fuel - 1) {
                        Ok(v) => {
                            new_list.push(v);
                            proof {
                                crate::expr::lemma_exprs_view_push(nb, v);
                                assert(exprs_view(nb) + seq![v@] =~= exprs_view(nb).push(v@));
                            }
                        },
                        Err(err) => {
                            proof {
                                if decided {
                                    lemma_quasi_items_error(xs, frames, env.index as int, f, i + 1);
                                }
                            }
                            return Err(err);
                        },
                    }
                }
            },
            other => {
                new_list.push(other);
                proof {
                    crate::expr::lemma_exprs_view_push(nb, other);
                    assert(exprs_view(nb) + seq![other@] =~= exprs_view(nb).push(other@));
                }
            },
        }
        i = i + 1;
    }
    proof {
        assert(xs.take(i as int) =~= xs);
    }
    Ok(list_of(new_list, dotted))
}

/// `define-macro`: binds a macro, a procedure that receives the arguments of its calls
/// unevaluated and whose result replaces the call.
fn define_macro_fn(args: Exprs, env: EnvRef, store: &mut Store) -> (r: ProcedureResult)
    requires
        args@.len() >= 2,
    ensures
        grows(old(store)@, final(store)@),
        appends(old(store).written(), final(store).written()),
        define_macro_outcome(exprs_view(args@), env, r, old(store)@, final(store)@),
{
    proof {
        lemma_exprs_view_split(args@);
    }
    let ghost args0 = args@;
    let mut args = args;
    let first = args.remove(0);
    proof {
        lemma_view_variant(first);
        assert(args@ == args0.drop_first());
    }
    let list = match first {
        Expr::List(l) => {
            proof {
                List::lemma_view(l);
            }
            l
        },
        other => {
            return Err(display_error("expected list as the first argument for define-macro, got ", &other));
        },
    };
    match check_formals(&list) {
        Ok(()) => {},
        Err(e) => {
            return Err(e);
        },
    }
    let (name, params) = match split_formals(
        list,
        "expected at least 1 argument for define-macro formals list, got 0",
    ) {
        Ok(parts) => parts,
        Err(e) => {
            return Err(e);
        },
    };
    let procedure = match create_procedure(Some(name.clone()), params, Body::new(args), env) {
        Ok(p) => p,
        Err(e) => {
            return Err(e);
        },
    };
    if env.index >= store.len() {
        return Err(no_environment());
    }
    env.add_macro(store, name, procedure);
    Ok(ProcedureReturn::Value(Expr::Void))
}

/// `apply`: applies a procedure to the arguments before the last and the elements of the
/// last, which must be a list.
/// What `apply` with the arguments `args` gives in `env` with `fuel` steps: its first
/// argument, a procedure, applied to the other arguments but the last followed by the
/// elements of the last, a list; or the error for a first argument that is no procedure or a
/// last that is no list.
pub open spec fn apply_outcome(
    args: Seq<Expr>,
    env: EnvRef,
    fuel: u64,
    r: ProcedureResult,
    before: Seq<crate::env::FrameV>,
    after: Seq<crate::env::FrameV>,
) -> bool
    decreases fuel, 2nat,
{
    fuel > 0 ==> match args[0] {
        Expr::Procedure(p) => match args.last() {
            Expr::List(l) => applied(
                p,
                args.subrange(1, args.len() - 1) + l.items(),
                env,
                (fuel - 1) as u64,
                r,
                before,
                after,
            ),
            other => r is Err && r->Err_0.message() == "expected list as second argument for apply, got "@
                + kind_name(other@) && after == before,
        },
        other => r is Err && r->Err_0.message() == "expected procedure as first argument of apply, got "@
            + kind_name(other@) && after == before,
    }
}

fn apply_fn(args: Exprs, env: EnvRef, store: &mut Store, fuel: u64) -> (r: ProcedureResult)
    requires
        args@.len() >= 2,
    ensures
        grows(old(store)@, final(store)@),
        appends(old(store).written(), final(store).written()),
        apply_outcome(args@, env, fuel, r, old(store)@, final(store)@),
    decreases fuel,
{
    if fuel == 0 {
        return Err(out_of_steps());
    }
    let ghost a0 = args@;
    let mut rest = args;
    let first = rest.remove(0);
    let proc = match first {
        Expr::Procedure(p) => p,
        other => {
            return Err(kind_error("expected procedure as first argument of apply, got ", &other));
        },
    };
    proof {
        assert(rest@ == a0.drop_first());
    }
    let last = match rest.pop() {
        Some(Expr::List(l)) => l,
        Some(other) => {
            return Err(kind_error("expected list as second argument for apply, got ", &other));
        },
        None => {
            return Err(error_of("expected list as second argument for apply"));
        },
    };
    proof {
        assert(rest@ =~= a0.subrange(1, a0.len() - 1));
    }
    let mut items = last.into_exprs();
    rest.append(&mut items);
    proc.apply(rest, env, store, fuel - 1)
}

} // verus!
