//! Procedures: their construction, names, arities, and the parameters of `lambda`.
use crate::error::{runtime_error, EvalError};
use crate::expr::{
    exprs_view, kind_name, lemma_exprs_view_index, lemma_exprs_view_len, push_str_lit, Arity,
    AtomicProcedure, Body, CompoundProcedure, EnvRef, Expr, ExprV, Exprs, List, ParamsV, Primitive,
    ProcV, Procedure, ProcedureKind, ProcedureParams, opt_string_view, strings_view,
};
use crate::text::{decimal, push_decimal};
use vstd::prelude::*;

verus! {

/// What a procedure hands back: a value, or an expression that remains to be evaluated in
/// an environment, so that the evaluator can go on without growing its stack.
pub enum ProcedureReturn {
    Value(Expr),
    TailCall(Expr, EnvRef),
}

/// The result of applying a procedure.
pub type ProcedureResult = Result<ProcedureReturn, EvalError>;

/// How an arity is displayed in messages.
pub open spec fn arity_text(a: Arity) -> Seq<char> {
    match a {
        Arity::Exact(n) => decimal(n as nat),
        Arity::AtLeast(n) => "at least "@ + decimal(n as nat),
        Arity::Range(a, b) => decimal(a as nat) + " to "@ + decimal(b as nat),
        Arity::Any => "any"@,
    }
}

/// Whether `n` arguments meet the arity `a`.
pub open spec fn arity_accepts(a: Arity, n: nat) -> bool {
    match a {
        Arity::Exact(k) => n == k,
        Arity::AtLeast(k) => n >= k,
        Arity::Range(a, b) => a <= n <= b,
        Arity::Any => true,
    }
}

/// The message of a call with the wrong number of arguments.
pub open spec fn arity_message(a: Arity, name: Seq<char>) -> Seq<char> {
    "expected "@ + arity_text(a) + " arguments for "@ + name
}

/// The message of a call of `name`, whose arity is `a`, with the wrong number of arguments.
pub fn arity_error(a: Arity, name: &str) -> (e: EvalError)
    ensures
        e.message() == arity_message(a, name@),
{
    proof {
        reveal_strlit("expected ");
        reveal_strlit(" arguments for ");
        reveal_strlit("at least ");
        reveal_strlit("any");
        reveal_strlit(" to ");
    }
    let mut s = String::from_str("expected ");
    match a {
        Arity::Exact(n) => push_decimal(&mut s, n as u64),
        Arity::AtLeast(n) => {
            push_str_lit(&mut s, "at least ");
            push_decimal(&mut s, n as u64);
        },
        Arity::Range(a, b) => {
            push_decimal(&mut s, a as u64);
            push_str_lit(&mut s, " to ");
            push_decimal(&mut s, b as u64);
        },
        Arity::Any => push_str_lit(&mut s, "any"),
    }
    push_str_lit(&mut s, " arguments for ");
    push_str_lit(&mut s, name);
    assert(s@ =~= arity_message(a, name@));
    runtime_error(s)
}

/// Checks of the number of arguments of a call.
pub trait CheckArity<T>: Sized {
    /// Removes the first argument, or fails when there is none.
    fn pop_front_or_expected_arity(&mut self, name: &str, arity: Arity) -> Result<T, EvalError>;

    /// Fails when an argument is left.
    fn empty_or_expected_arity(&self, name: &str, arity: Arity) -> Result<(), EvalError>;

    /// The number of arguments, or a failure when there are fewer than `min`.
    fn at_least_or_expected_arity(&self, min: usize, name: &str, arity: Arity) -> Result<
        usize,
        EvalError,
    >;

    /// Fails unless there are exactly `count` arguments.
    fn exact_or_expected_arity(&self, count: usize, name: &str, arity: Arity) -> Result<
        (),
        EvalError,
    >;

    /// Fails unless the number of arguments meets `arity`.
    fn validate_arity(&self, name: &str, arity: Arity) -> Result<(), EvalError>;
}

fn check_at_least(v: &Exprs, min: usize, name: &str, arity: Arity) -> (r: Result<usize, EvalError>)
    ensures
        v@.len() >= min ==> (r is Ok && r->Ok_0 == v@.len()),
        v@.len() < min ==> (r is Err && r->Err_0.message() == arity_message(arity, name@)),
{
    if v.len() < min {
        Err(arity_error(arity, name))
    } else {
        Ok(v.len())
    }
}

fn check_exact(v: &Exprs, count: usize, name: &str, arity: Arity) -> (r: Result<(), EvalError>)
    ensures
        v@.len() == count ==> r is Ok,
        v@.len() != count ==> (r is Err && r->Err_0.message() == arity_message(arity, name@)),
{
    match check_at_least(v, count, name, arity) {
        Ok(len) => if len == count {
            Ok(())
        } else {
            Err(arity_error(arity, name))
        },
        Err(e) => Err(e),
    }
}

/// Checks that `v` has as many arguments as `arity` accepts.
pub fn check_arity(v: &Exprs, name: &str, arity: Arity) -> (r: Result<(), EvalError>)
    ensures
        arity_accepts(arity, v@.len()) ==> r is Ok,
        !arity_accepts(arity, v@.len()) ==> (r is Err && r->Err_0.message() == arity_message(
            arity,
            name@,
        )),
{
    match arity {
        Arity::Any => Ok(()),
        Arity::Exact(count) => check_exact(v, count, name, arity),
        Arity::AtLeast(min) => match check_at_least(v, min, name, arity) {
            Ok(_) => Ok(()),
            Err(e) => Err(e),
        },
        Arity::Range(min, max) => if min <= v.len() && v.len() <= max {
            Ok(())
        } else {
            Err(arity_error(arity, name))
        },
    }
}

impl CheckArity<Expr> for Exprs {
    fn pop_front_or_expected_arity(&mut self, name: &str, arity: Arity) -> (r: Result<
        Expr,
        EvalError,
    >)
        ensures
            old(self)@.len() > 0 ==> r == Ok::<Expr, EvalError>(old(self)@[0]) && final(self)@
                == old(self)@.drop_first(),
            old(self)@.len() == 0 ==> (r is Err && r->Err_0.message() == arity_message(
                arity,
                name@,
            )) && final(self)@ == old(self)@,
    {
        if self.len() == 0 {
            Err(arity_error(arity, name))
        } else {
            Ok(self.remove(0))
        }
    }

    fn empty_or_expected_arity(&self, name: &str, arity: Arity) -> (r: Result<(), EvalError>)
        ensures
            self@.len() == 0 ==> r is Ok,
            self@.len() > 0 ==> (r is Err && r->Err_0.message() == arity_message(arity, name@)),
    {
        if self.len() == 0 {
            Ok(())
        } else {
            Err(arity_error(arity, name))
        }
    }

    fn at_least_or_expected_arity(&self, min: usize, name: &str, arity: Arity) -> (r: Result<
        usize,
        EvalError,
    >)
        ensures
            self@.len() >= min ==> (r is Ok && r->Ok_0 == self@.len()),
            self@.len() < min ==> (r is Err && r->Err_0.message() == arity_message(arity, name@)),
    {
        check_at_least(self, min, name, arity)
    }

    fn exact_or_expected_arity(&self, count: usize, name: &str, arity: Arity) -> (r: Result<
        (),
        EvalError,
    >)
        ensures
            self@.len() == count ==> r is Ok,
            self@.len() != count ==> (r is Err && r->Err_0.message() == arity_message(
                arity,
                name@,
            )),
    {
        check_exact(self, count, name, arity)
    }

    fn validate_arity(&self, name: &str, arity: Arity) -> (r: Result<(), EvalError>)
        ensures
            arity_accepts(arity, self@.len()) ==> r is Ok,
            !arity_accepts(arity, self@.len()) ==> (r matches Err(e) && e.message()
                == arity_message(arity, name@)),
    {
        check_arity(self, name, arity)
    }
}

/// Access to the name a procedure was made with.
pub trait NamedProcedure {
    /// The stored name, if there is one.
    fn name_stored(&self) -> Option<&str>;

    /// The stored name, or `anon`.
    fn name(&self) -> &str;
}

fn opt_name(n: &Option<String>) -> (r: Option<&str>)
    ensures
        match r {
            Some(s) => n.is_some() && s@ == n->0@,
            None => n.is_none(),
        },
{
    match n {
        Some(s) => Some(s.as_str()),
        None => None,
    }
}

fn name_or_anon(n: &Option<String>) -> (r: &str)
    ensures
        r@ == crate::expr::shown_name(opt_string_view(*n)),
{
    proof {
        reveal_strlit("anon");
    }
    match n {
        Some(s) => s.as_str(),
        None => "anon",
    }
}

impl NamedProcedure for AtomicProcedure {
    fn name_stored(&self) -> (r: Option<&str>)
        ensures
            match r {
                Some(s) => self.name.is_some() && s@ == self.name->0@,
                None => self.name.is_none(),
            },
    {
        opt_name(&self.name)
    }

    fn name(&self) -> (r: &str)
        ensures
            r@ == crate::expr::shown_name(opt_string_view(self.name)),
    {
        name_or_anon(&self.name)
    }
}

impl NamedProcedure for CompoundProcedure {
    fn name_stored(&self) -> (r: Option<&str>)
        ensures
            match r {
                Some(s) => self.name.is_some() && s@ == self.name->0@,
                None => self.name.is_none(),
            },
    {
        opt_name(&self.name)
    }

    fn name(&self) -> (r: &str)
        ensures
            r@ == crate::expr::shown_name(opt_string_view(self.name)),
    {
        name_or_anon(&self.name)
    }
}

/// The name a procedure was made with, if any.
pub open spec fn proc_name(p: ProcV) -> Option<Seq<char>> {
    match p {
        ProcV::Atomic(n, _, _, _) => n,
        ProcV::Compound(n, _, _, _) => n,
    }
}

impl NamedProcedure for Procedure {
    fn name_stored(&self) -> (r: Option<&str>)
        ensures
            match r {
                Some(s) => proc_name(self@) == Some(s@),
                None => proc_name(self@) is None,
            },
    {
        match self {
            Procedure::Atomic(a) => opt_name(&a.name),
            Procedure::Compound(c) => opt_name(&c.name),
        }
    }

    fn name(&self) -> (r: &str)
        ensures
            r@ == crate::expr::shown_name(proc_name(self@)),
    {
        match self {
            Procedure::Atomic(a) => name_or_anon(&a.name),
            Procedure::Compound(c) => name_or_anon(&c.name),
        }
    }
}

/// Whether a procedure receives its arguments unevaluated.
pub open spec fn is_special_form_v(p: ProcV) -> bool {
    p matches ProcV::Atomic(_, kind, _, _) && kind == ProcedureKind::SpecialForm
}

/// The number of arguments that the procedure `pv` accepts: a compound procedure's follows
/// from its parameters.
pub open spec fn proc_arity(pv: ProcV) -> Arity {
    match pv {
        ProcV::Atomic(_, _, a, _) => a,
        ProcV::Compound(_, ParamsV::Fixed(ps), _, _) => Arity::Exact(ps.len() as usize),
        ProcV::Compound(_, ParamsV::Variadic(_), _, _) => Arity::Any,
        ProcV::Compound(_, ParamsV::Mixed(ps, _), _, _) => Arity::AtLeast(ps.len() as usize),
    }
}

impl Procedure {
    /// A built-in procedure or special form.
    pub fn new_atomic(name: String, kind: ProcedureKind, proc: Primitive, arity: Arity) -> (p: Self)
        ensures
            p@ == ProcV::Atomic(Some(name@), kind, arity, proc),
    {
        Procedure::Atomic(AtomicProcedure::new(name, kind, proc, arity))
    }

    /// A procedure with parameters `params` and body `body` that closes over `env`.
    pub fn new_compound(name: Option<String>, params: ProcedureParams, body: Body, env: EnvRef) -> (p: Self)
        ensures
            p@ == ProcV::Compound(opt_string_view(name), params.view(), exprs_view(body.body@), env),
    {
        Procedure::Compound(CompoundProcedure::new(name, params, body, env))
    }

    /// Whether the procedure receives its arguments unevaluated.
    pub fn is_special_form(&self) -> (b: bool)
        ensures
            b == is_special_form_v(self@),
    {
        match self {
            Procedure::Atomic(proc) => proc.is_special_form(),
            Procedure::Compound(_) => false,
        }
    }

    /// The number of arguments the procedure accepts: a compound procedure's follows from
    /// its parameters.
    pub fn arity(&self) -> (a: Arity)
        ensures
            a == proc_arity(self@),
    {
        match self {
            Procedure::Atomic(a) => a.arity,
            Procedure::Compound(c) => match &c.params {
                ProcedureParams::Fixed(ps) => Arity::Exact(ps.len()),
                ProcedureParams::Variadic(_) => Arity::Any,
                ProcedureParams::Mixed(ps, _) => Arity::AtLeast(ps.len()),
            },
        }
    }
}

impl AtomicProcedure {
    pub fn new(name: String, kind: ProcedureKind, proc: Primitive, arity: Arity) -> (p: Self)
        ensures
            p.name == Some(name),
            p.kind == kind,
            p.proc == proc,
            p.arity == arity,
    {
        AtomicProcedure { name: Some(name), kind, arity, proc }
    }

    pub fn is_special_form(&self) -> (b: bool)
        ensures
            b == (self.kind == ProcedureKind::SpecialForm),
    {
        matches!(self.kind, ProcedureKind::SpecialForm)
    }

    pub fn proc(&self) -> (p: Primitive)
        ensures
            p == self.proc,
    {
        self.proc
    }

    pub fn arity(&self) -> (a: Arity)
        ensures
            a == self.arity,
    {
        self.arity
    }
}

impl Body {
    pub fn new(body: Exprs) -> (b: Self)
        ensures
            b.body == body,
    {
        Body { body }
    }

    /// The body of one expression.
    pub fn new_single(expr: Expr) -> (b: Self)
        ensures
            b.body@ == seq![expr],
    {
        let mut body = Vec::new();
        body.push(expr);
        assert(body@ =~= seq![expr]);
        Body { body }
    }

    pub fn as_exprs(&self) -> (r: &Exprs)
        ensures
            *r == self.body,
    {
        &self.body
    }
}

impl CompoundProcedure {
    pub fn new(name: Option<String>, params: ProcedureParams, body: Body, env: EnvRef) -> (p: Self)
        ensures
            p.name == name,
            p.params == params,
            *p.body == body,
            p.env == env,
    {
        CompoundProcedure { name, params, body: Box::new(body), env }
    }
}

/// The position of the first element of `items` that is not a symbol, if any.
pub open spec fn first_non_symbol(items: Seq<ExprV>) -> Option<int>
    decreases items.len(),
{
    if items.len() == 0 {
        None
    } else if !(items[0] is Symbol) {
        Some(0)
    } else {
        match first_non_symbol(items.drop_first()) {
            Some(i) => Some(i + 1),
            None => None,
        }
    }
}

/// The names of a sequence of symbols.
pub open spec fn symbol_names(items: Seq<ExprV>) -> Seq<Seq<char>> {
    items.map_values(|e: ExprV| e->Symbol_0)
}

/// The parameters that a `lambda` parameter list describes, or the message of the error.
pub open spec fn params_of(e: ExprV) -> Result<ParamsV, Seq<char>> {
    match e {
        ExprV::List(items, dotted) => match first_non_symbol(items) {
            Some(i) => Err("expected symbols in lambda params, got "@ + kind_name(items[i])),
            None => if dotted {
                Ok(ParamsV::Mixed(symbol_names(items.drop_last()), items.last()->Symbol_0))
            } else {
                Ok(ParamsV::Fixed(symbol_names(items)))
            },
        },
        ExprV::Symbol(s) => Ok(ParamsV::Variadic(s)),
        _ => Err("expected list, symbol or dotted list as first argument for lambda"@),
    }
}

pub(crate) proof fn lemma_first_non_symbol(items: Seq<ExprV>, k: int)
    requires
        0 <= k <= items.len(),
        forall|j: int| 0 <= j < k ==> (#[trigger] items[j]) is Symbol,
    ensures
        k < items.len() && !(items[k] is Symbol) ==> first_non_symbol(items) == Some(k),
        k == items.len() ==> first_non_symbol(items) is None,
    decreases k,
{
    if k > 0 {
        let rest = items.drop_first();
        assert forall|j: int| 0 <= j < k - 1 implies (#[trigger] rest[j]) is Symbol by {
            assert(rest[j] == items[j + 1]);
        }
        lemma_first_non_symbol(rest, k - 1);
    } else if items.len() > 0 {
    } 
}

/// The names of `exprs`, or the error for the first that is not a symbol.
fn param_names(exprs: &Vec<Expr>) -> (r: Result<Vec<String>, EvalError>)
    ensures
        match first_non_symbol(exprs_view(exprs@)) {
            Some(i) => r is Err && r->Err_0.message() == "expected symbols in lambda params, got "@
                + kind_name(exprs_view(exprs@)[i]),
            None => r is Ok && strings_view(r->Ok_0@) == symbol_names(exprs_view(exprs@)),
        },
{
    proof {
        reveal_strlit("expected symbols in lambda params, got ");
        lemma_exprs_view_len(exprs@);
    }
    let ghost vs = exprs_view(exprs@);
    let mut names: Vec<String> = Vec::new();
    let mut i: usize = 0;
    while i < exprs.len()
        invariant
            vs == exprs_view(exprs@),
            vs.len() == exprs@.len(),
            0 <= i <= exprs@.len(),
            names@.len() == i,
            forall|j: int| 0 <= j < i ==> (#[trigger] vs[j]) is Symbol,
            forall|j: int| 0 <= j < i ==> (#[trigger] names@[j])@ == vs[j]->Symbol_0,
        decreases exprs@.len() - i,
    {
        proof {
            lemma_exprs_view_index(exprs@, i as int);
            crate::expr::lemma_view_variant(exprs@[i as int]);
        }
        match &exprs[i] {
            Expr::Symbol(s) => {
                names.push(s.clone());
            },
            other => {
                proof {
                    lemma_first_non_symbol(vs, i as int);
                }
                let mut m = String::from_str("expected symbols in lambda params, got ");
                push_str_lit(&mut m, other.kind());
                return Err(runtime_error(m));
            },
        }
        i = i + 1;
    }
    proof {
        lemma_first_non_symbol(vs, vs.len() as int);
        assert(strings_view(names@) =~= symbol_names(vs));
    }
    Ok(names)
}

/// A procedure with the parameters that `params` describes, the body `body`, closing over
/// `env`; fails when `params` describes no parameters.
pub fn create_procedure(name: Option<String>, params: Expr, body: Body, env: EnvRef) -> (r: Result<
    Procedure,
    EvalError,
>)
    ensures
        match params_of(params@) {
            Ok(pv) => r matches Ok(p) && p@ == ProcV::Compound(
                opt_string_view(name),
                pv,
                exprs_view(body.body@),
                env,
            ),
            Err(m) => r is Err && r->Err_0.message() == m,
        },
{
    proof {
        reveal_strlit("expected list, symbol or dotted list as first argument for lambda");
    }
    let params = match params {
        Expr::List(list) => {
            list.lemma_flat();
            proof {
                List::lemma_view(list);
                lemma_exprs_view_len(list.items());
            }
            let dotted = list.is_dotted();
            let exprs = list.into_exprs();
            let mut names = match param_names(&exprs) {
                Ok(names) => names,
                Err(e) => {
                    return Err(e);
                },
            };
            let ghost vs = exprs_view(exprs@);
            let ghost all = names@;
            proof {
                assert(strings_view(all).len() == all.len());
                assert(symbol_names(vs).len() == vs.len());
            }
            if dotted {
                let last = names.pop().unwrap();
                proof {
                    let k = all.len() - 1;
                    assert(strings_view(all)[k] == all[k]@);
                    assert(symbol_names(vs)[k] == vs[k]->Symbol_0);
                    assert(vs.last() == vs[k]);
                    assert forall|j: int| 0 <= j < k implies #[trigger] strings_view(names@)[j]
                        == symbol_names(vs.drop_last())[j] by {
                        assert(strings_view(all)[j] == all[j]@);
                        assert(symbol_names(vs)[j] == vs[j]->Symbol_0);
                    }
                    assert(strings_view(names@) =~= symbol_names(vs.drop_last()));
                }
                ProcedureParams::Mixed(names, last)
            } else {
                ProcedureParams::Fixed(names)
            }
        },
        Expr::Symbol(param) => ProcedureParams::Variadic(param),
        _ => {
            return Err(
                runtime_error(
                    String::from_str(
                        "expected list, symbol or dotted list as first argument for lambda",
                    ),
                ),
            );
        },
    };
    Ok(Procedure::new_compound(name, params, body, env))
}

} // verus!
