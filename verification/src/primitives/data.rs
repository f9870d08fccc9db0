//! Pairs and lists, type predicates and the equivalence predicates.
use crate::error::{outcome, runtime_error, EvalError};
use crate::expr::{
    copy_exprs, exprs_view, kind_name, lemma_exprs_view_add, lemma_exprs_view_index,
    lemma_exprs_view_len, lemma_exprs_view_push, lemma_view_variant, push_str_lit, Expr, ExprV,
    Exprs, List, ProcV, Procedure, ProcedureParams,
};
use vstd::prelude::*;

verus! {

/// What `cons` gives: a list in front of which `car` is put, proper or dotted as it was; another
/// value becomes the tail of a pair.
pub open spec fn cons_spec(car: ExprV, cdr: ExprV) -> ExprV {
    match cdr {
        ExprV::List(items, dotted) => ExprV::List(seq![car] + items, dotted),
        _ => ExprV::List(seq![car, cdr], true),
    }
}

pub fn cons_fn(car: Expr, cdr: Expr) -> (r: Expr)
    ensures
        r@ == cons_spec(car@, cdr@),
{
    let ghost c = cdr;
    proof {
        lemma_view_variant(cdr);
    }
    let mut first: Exprs = Vec::new();
    first.push(car);
    let l = List::new(first, Some(cdr));
    proof {
        List::lemma_view(l);
        assert(first@ =~= seq![car]);
        lemma_exprs_view_push(Seq::<Expr>::empty(), car);
        assert(Seq::<Expr>::empty().push(car) =~= seq![car]);
        assert(exprs_view(Seq::<Expr>::empty()) =~= Seq::<ExprV>::empty());
        assert(exprs_view(seq![car]) =~= seq![car@]);
        match c {
            Expr::List(t) => {
                List::lemma_view(t);
                lemma_exprs_view_add(seq![car], t.items());
            },
            _ => {
                lemma_exprs_view_push(seq![car], c);
                assert(seq![car].push(c) =~= seq![car, c]);
                assert(seq![car@].push(c@) =~= seq![car@, c@]);
            },
        }
    }
    Expr::List(l)
}

/// What `car` gives.
pub open spec fn car_spec(e: ExprV) -> Result<ExprV, Seq<char>> {
    match e {
        ExprV::List(items, dotted) => if items.len() == 0 || (dotted && items.len() == 1) {
            Err("expected non-empty list for car"@)
        } else {
            Ok(items[0])
        },
        _ => Err("expected list for car, got "@ + kind_name(e)),
    }
}

/// An error whose message is `prefix` followed by the type of `e`.
pub fn kind_error(prefix: &str, e: &Expr) -> (r: EvalError)
    ensures
        r.message() == prefix@ + kind_name(e@),
{
    let mut s = String::from_str(prefix);
    push_str_lit(&mut s, e.kind());
    runtime_error(s)
}

pub fn car_fn(e: &Expr) -> (r: Result<Expr, EvalError>)
    ensures
        outcome(r, car_spec(e@)),
{
    proof {
        lemma_view_variant(*e);
        reveal_strlit("expected non-empty list for car");
        reveal_strlit("expected list for car, got ");
    }
    match e {
        Expr::List(l) => {
            proof {
                List::lemma_view(*l);
                lemma_exprs_view_len(l.items());
            }
            match l.car() {
                Some(x) => {
                    proof {
                        lemma_exprs_view_index(l.items(), 0);
                    }
                    Ok(x.copy())
                },
                None => Err(runtime_error(String::from_str("expected non-empty list for car"))),
            }
        },
        _ => Err(kind_error("expected list for car, got ", e)),
    }
}

/// What `cdr` gives: the rest of the list; the tail itself when only the tail is left.
pub open spec fn cdr_spec(e: ExprV) -> Result<ExprV, Seq<char>> {
    match e {
        ExprV::List(items, dotted) => if items.len() == 0 {
            Err("expected non-empty list for cdr"@)
        } else if items.len() == 2 && dotted {
            Ok(items[1])
        } else {
            Ok(ExprV::List(items.drop_first(), dotted && items.len() > 1))
        },
        _ => Err("expected list for cdr, got "@ + kind_name(e)),
    }
}

pub fn cdr_fn(e: Expr) -> (r: Result<Expr, EvalError>)
    ensures
        outcome(r, cdr_spec(e@)),
{
    proof {
        lemma_view_variant(e);
        reveal_strlit("expected non-empty list for cdr");
        reveal_strlit("expected list for cdr, got ");
    }
    match e {
        Expr::List(l) => {
            proof {
                List::lemma_view(l);
                lemma_exprs_view_len(l.items());
            }
            let ghost items = l.items();
            match l.split_first() {
                Ok((_, rest)) => {
                    proof {
                        List::lemma_view(rest);
                        assert(exprs_view(rest.items()) =~= exprs_view(items).drop_first()) by {
                            lemma_exprs_view_len(rest.items());
                            assert forall|i: int| 0 <= i < rest.items().len() implies exprs_view(
                                rest.items(),
                            )[i] == exprs_view(items).drop_first()[i] by {
                                lemma_exprs_view_index(rest.items(), i);
                                lemma_exprs_view_index(items, i + 1);
                            }
                        }
                    }
                    if rest.len() == 1 && rest.is_dotted() {
                        let v = rest.into_exprs();
                        proof {
                            lemma_exprs_view_index(items, 1);
                        }
                        let mut v = v;
                        let x = v.remove(0);
                        Ok(x)
                    } else {
                        Ok(Expr::List(rest))
                    }
                },
                Err(_) => Err(runtime_error(String::from_str("expected non-empty list for cdr"))),
            }
        },
        _ => Err(kind_error("expected list for cdr, got ", &e)),
    }
}

/// What `make-list` gives: `k` copies of `fill`.
pub open spec fn make_list_spec(k: ExprV, fill: ExprV) -> Result<ExprV, Seq<char>> {
    match k {
        ExprV::Integer(n) => if n < 0 {
            Err("make-list expected a non-negative length"@)
        } else {
            Ok(ExprV::List(Seq::new(n as nat, |i: int| fill), false))
        },
        _ => Err("make-list expected an integer as its first argument"@),
    }
}

/// `make-list` of `k` and, if given, `fill`; `0` fills the list otherwise.
pub fn make_list_fn(k: &Expr, fill: Option<&Expr>) -> (r: Result<Expr, EvalError>)
    ensures
        outcome(r, make_list_spec(k@, match fill {
            Some(f) => f@,
            None => ExprV::Integer(0),
        })),
{
    proof {
        lemma_view_variant(*k);
        reveal_strlit("make-list expected a non-negative length");
        reveal_strlit("make-list expected an integer as its first argument");
    }
    let ghost fv = match fill {
        Some(f) => f@,
        None => ExprV::Integer(0),
    };
    let n = match k {
        Expr::Integer(n) => *n,
        _ => {
            return Err(runtime_error(String::from_str("make-list expected an integer as its first argument")));
        },
    };
    if n < 0 {
        return Err(runtime_error(String::from_str("make-list expected a non-negative length")));
    }
    let mut v: Exprs = Vec::new();
    let mut i: i64 = 0;
    while i < n
        invariant
            0 <= i <= n,
            v@.len() == i,
            fv == match fill {
                Some(f) => f@,
                None => ExprV::Integer(0),
            },
            forall|j: int| 0 <= j < i ==> expr_view_eq(#[trigger] v@[j], fv),
        decreases n - i,
    {
        let x = match fill {
            Some(f) => f.copy(),
            None => Expr::Integer(0),
        };
        v.push(x);
        i = i + 1;
    }
    proof {
        lemma_exprs_view_len(v@);
        assert forall|j: int| 0 <= j < v@.len() implies exprs_view(v@)[j] == fv by {
            lemma_exprs_view_index(v@, j);
        }
        assert(exprs_view(v@) =~= Seq::new(n as nat, |i: int| fv));
    }
    Ok(Expr::new_proper_list(v))
}

pub open spec fn expr_view_eq(e: Expr, v: ExprV) -> bool {
    e@ == v
}

/// What `list-copy` gives: a proper list of the elements of a list; any other value itself.
pub open spec fn list_copy_spec(e: ExprV) -> ExprV {
    match e {
        ExprV::List(items, _) => ExprV::List(items, false),
        _ => e,
    }
}

pub fn list_copy_fn(e: Expr) -> (r: Expr)
    ensures
        r@ == list_copy_spec(e@),
{
    proof {
        lemma_view_variant(e);
    }
    match e {
        Expr::List(l) => {
            proof {
                List::lemma_view(l);
            }
            Expr::new_proper_list(l.into_exprs())
        },
        _ => e,
    }
}

/// The type predicates.
#[derive(PartialEq, Eq, Debug, Clone, Copy, Structural)]
pub enum TypeTest {
    Pair,
    Number,
    Symbol,
    Str,
    Procedure,
    Char,
    Port,
}

/// What a type predicate gives. No value is a port.
pub open spec fn type_test_spec(t: TypeTest, e: ExprV) -> bool {
    match t {
        TypeTest::Pair => e matches ExprV::List(items, _) && items.len() > 0,
        TypeTest::Number => e is Integer || e is Float,
        TypeTest::Symbol => e is Symbol,
        TypeTest::Str => e is Str,
        TypeTest::Procedure => e is Procedure,
        TypeTest::Char => e is Char,
        TypeTest::Port => false,
    }
}

pub fn type_test_fn(t: TypeTest, e: &Expr) -> (b: bool)
    ensures
        b == type_test_spec(t, e@),
{
    match t {
        TypeTest::Pair => match e {
            Expr::List(l) => {
                proof {
                    List::lemma_view(*l);
                    lemma_exprs_view_len(l.items());
                }
                !l.is_empty()
            },
            _ => {
                proof {
                    lemma_view_variant(*e);
                }
                false
            },
        },
        TypeTest::Number => e.is_integer() || e.is_float(),
        TypeTest::Symbol => e.is_symbol(),
        TypeTest::Str => e.is_string(),
        TypeTest::Procedure => e.is_procedure(),
        TypeTest::Char => e.is_char(),
        TypeTest::Port => false,
    }
}

} // verus!

verus! {

/// `eqv?` and `eq?`: equal atoms, the same symbol, equal procedures, and the same string or
/// list. Values are copied when they are passed, so a string or a list is the same as
/// another exactly when the two are equal values.
pub open spec fn eqv_spec(a: ExprV, b: ExprV) -> bool {
    match (a, b) {
        (ExprV::List(_, _), ExprV::List(_, _)) => a == b,
        (ExprV::Str(x), ExprV::Str(y)) => x == y,
        (ExprV::Boolean(x), ExprV::Boolean(y)) => x == y,
        (ExprV::Integer(x), ExprV::Integer(y)) => x == y,
        (ExprV::Float(x), ExprV::Float(y)) => x == y,
        (ExprV::Char(x), ExprV::Char(y)) => x == y,
        (ExprV::Symbol(x), ExprV::Symbol(y)) => x == y,
        (ExprV::Procedure(x), ExprV::Procedure(y)) => x == y,
        _ => false,
    }
}

/// `equal?`: like `eqv?`, but strings with the same characters are equal, and lists of the
/// same kind (proper or dotted) and length whose elements are pairwise `equal?` are equal.
pub open spec fn equal_spec(a: ExprV, b: ExprV) -> bool
    decreases a,
{
    match (a, b) {
        (ExprV::Str(x), ExprV::Str(y)) => x == y,
        (ExprV::List(xs, dx), ExprV::List(ys, dy)) => dx == dy && xs.len() == ys.len() && equal_items(xs, ys),
        _ => eqv_spec(a, b),
    }
}

/// Whether the elements of `xs` and `ys` are pairwise `equal?` (over `xs`'s length).
pub open spec fn equal_items(xs: Seq<ExprV>, ys: Seq<ExprV>) -> bool
    decreases xs,
{
    if xs.len() == 0 {
        true
    } else {
        equal_items(xs.drop_last(), ys) && equal_spec(xs.last(), ys[xs.len() - 1])
    }
}


fn opt_string_eq(a: &Option<String>, b: &Option<String>) -> (r: bool)
    ensures
        r == (crate::expr::opt_string_view(*a) == crate::expr::opt_string_view(*b)),
{
    match (a, b) {
        (Some(x), Some(y)) => *x == *y,
        (None, None) => true,
        _ => false,
    }
}

fn strings_eq(a: &Vec<String>, b: &Vec<String>) -> (r: bool)
    ensures
        r == (crate::expr::strings_view(a@) == crate::expr::strings_view(b@)),
{
    if a.len() != b.len() {
        proof {
            assert(crate::expr::strings_view(a@).len() != crate::expr::strings_view(b@).len());
        }
        return false;
    }
    let mut i: usize = 0;
    while i < a.len()
        invariant
            a@.len() == b@.len(),
            0 <= i <= a@.len(),
            forall|j: int| 0 <= j < i ==> (#[trigger] a@[j])@ == b@[j]@,
        decreases a@.len() - i,
    {
        if a[i] != b[i] {
            proof {
                assert(crate::expr::strings_view(a@)[i as int] != crate::expr::strings_view(b@)[i as int]);
            }
            return false;
        }
        i = i + 1;
    }
    proof {
        assert(crate::expr::strings_view(a@) =~= crate::expr::strings_view(b@));
    }
    true
}

fn params_eq(a: &ProcedureParams, b: &ProcedureParams) -> (r: bool)
    ensures
        r == (a.view() == b.view()),
{
    match (a, b) {
        (ProcedureParams::Fixed(x), ProcedureParams::Fixed(y)) => strings_eq(x, y),
        (ProcedureParams::Variadic(x), ProcedureParams::Variadic(y)) => *x == *y,
        (ProcedureParams::Mixed(x, v), ProcedureParams::Mixed(y, w)) => {
            let e = strings_eq(x, y);
            e && *v == *w
        },
        _ => false,
    }
}

/// Whether the expressions of `a` and `b` have equal views.
fn exprs_view_eq(a: &Vec<Expr>, b: &Vec<Expr>) -> (r: bool)
    ensures
        r == (exprs_view(a@) == exprs_view(b@)),
    decreases a,
{
    proof {
        lemma_exprs_view_len(a@);
        lemma_exprs_view_len(b@);
    }
    if a.len() != b.len() {
        return false;
    }
    let mut i: usize = 0;
    while i < a.len()
        invariant
            a@.len() == b@.len(),
            0 <= i <= a@.len(),
            forall|j: int| 0 <= j < i ==> (#[trigger] a@[j])@ == b@[j]@,
        decreases a@.len() - i,
    {
        proof {
            assert(decreases_to!(a => a@[i as int]));
        }
        if !view_eq(&a[i], &b[i]) {
            proof {
                lemma_exprs_view_index(a@, i as int);
                lemma_exprs_view_index(b@, i as int);
            }
            return false;
        }
        i = i + 1;
    }
    proof {
        crate::expr::lemma_exprs_view_ext(a@, b@);
    }
    true
}

/// Whether two procedures have equal views.
pub fn proc_view_eq(a: &Procedure, b: &Procedure) -> (r: bool)
    ensures
        r == (a@ == b@),
    decreases a,
{
    match (a, b) {
        (Procedure::Atomic(x), Procedure::Atomic(y)) => {
            let n = opt_string_eq(&x.name, &y.name);
            n && x.kind == y.kind && x.arity == y.arity && x.proc == y.proc
        },
        (Procedure::Compound(x), Procedure::Compound(y)) => {
            let n = opt_string_eq(&x.name, &y.name);
            if !n {
                return false;
            }
            let p = params_eq(&x.params, &y.params);
            if !p {
                return false;
            }
            proof {
                assert(decreases_to!(a => x.body.body));
            }
            let bd = exprs_view_eq(&x.body.body, &y.body.body);
            bd && x.env == y.env
        },
        _ => false,
    }
}

/// Whether two expressions have equal views.
pub fn view_eq(a: &Expr, b: &Expr) -> (r: bool)
    ensures
        r == (a@ == b@),
    decreases a,
{
    proof {
        lemma_view_variant(*a);
        lemma_view_variant(*b);
    }
    match (a, b) {
        (Expr::Integer(x), Expr::Integer(y)) => *x == *y,
        (Expr::Float(x), Expr::Float(y)) => *x == *y,
        (Expr::Symbol(x), Expr::Symbol(y)) => *x == *y,
        (Expr::String(x), Expr::String(y)) => *x == *y,
        (Expr::Char(x), Expr::Char(y)) => *x == *y,
        (Expr::Boolean(x), Expr::Boolean(y)) => *x == *y,
        (Expr::Void, Expr::Void) => true,
        (Expr::List(x), Expr::List(y)) => {
            proof {
                List::lemma_view(*x);
                List::lemma_view(*y);
            }
            if x.is_dotted() != y.is_dotted() {
                return false;
            }
            proof {
                assert(decreases_to!(a => x));
            }
            list_items_eq(x, y)
        },
        (Expr::Procedure(x), Expr::Procedure(y)) => proc_view_eq(x, y),
        _ => false,
    }
}

fn list_items_eq(x: &List, y: &List) -> (r: bool)
    ensures
        r == (exprs_view(x.items()) == exprs_view(y.items())),
    decreases x,
{
    let xs = x.iter();
    let ys = y.iter();
    proof {
        lemma_exprs_view_len(x.items());
        lemma_exprs_view_len(y.items());
    }
    if xs.len() != ys.len() {
        return false;
    }
    let mut i: usize = 0;
    while i < xs.len()
        invariant
            xs@ == x.items(),
            ys@ == y.items(),
            xs@.len() == ys@.len(),
            0 <= i <= xs@.len(),
            forall|j: int| 0 <= j < i ==> (#[trigger] xs@[j])@ == ys@[j]@,
        decreases xs@.len() - i,
    {
        proof {
            x.lemma_items_decrease(i as int);
        }
        if !view_eq(&xs[i], &ys[i]) {
            proof {
                lemma_exprs_view_index(x.items(), i as int);
                lemma_exprs_view_index(y.items(), i as int);
            }
            return false;
        }
        i = i + 1;
    }
    proof {
        crate::expr::lemma_exprs_view_ext(x.items(), y.items());
    }
    true
}


/// `eqv?` (and `eq?`) of two values.
pub fn eqv_fn(a: &Expr, b: &Expr) -> (r: bool)
    ensures
        r == eqv_spec(a@, b@),
{
    proof {
        lemma_view_variant(*a);
        lemma_view_variant(*b);
    }
    match (a, b) {
        (Expr::Integer(x), Expr::Integer(y)) => *x == *y,
        (Expr::Float(x), Expr::Float(y)) => *x == *y,
        (Expr::Symbol(x), Expr::Symbol(y)) => *x == *y,
        (Expr::Char(x), Expr::Char(y)) => *x == *y,
        (Expr::Boolean(x), Expr::Boolean(y)) => *x == *y,
        (Expr::Procedure(x), Expr::Procedure(y)) => proc_view_eq(x, y),
        (Expr::List(_), Expr::List(_)) => view_eq(a, b),
        (Expr::String(x), Expr::String(y)) => *x == *y,
        _ => false,
    }
}

proof fn lemma_equal_items_step(xs: Seq<ExprV>, ys: Seq<ExprV>, i: int)
    requires
        0 <= i < xs.len(),
    ensures
        equal_items(xs.take(i + 1), ys) == (equal_items(xs.take(i), ys) && equal_spec(xs[i], ys[i])),
{
    assert(xs.take(i + 1).drop_last() =~= xs.take(i));
}

/// `equal?` of two values.
pub fn equal_fn(a: &Expr, b: &Expr) -> (r: bool)
    ensures
        r == equal_spec(a@, b@),
    decreases a,
{
    proof {
        lemma_view_variant(*a);
        lemma_view_variant(*b);
    }
    match (a, b) {
        (Expr::String(x), Expr::String(y)) => *x == *y,
        (Expr::List(x), Expr::List(y)) => {
            proof {
                List::lemma_view(*x);
                List::lemma_view(*y);
                assert(decreases_to!(a => x));
            }
            if x.is_dotted() != y.is_dotted() {
                return false;
            }
            equal_list_items(x, y)
        },
        _ => eqv_fn(a, b),
    }
}

fn equal_list_items(x: &List, y: &List) -> (r: bool)
    ensures
        r == (exprs_view(x.items()).len() == exprs_view(y.items()).len() && equal_items(
            exprs_view(x.items()),
            exprs_view(y.items()),
        )),
    decreases x,
{
    let xs = x.iter();
    let ys = y.iter();
    proof {
        lemma_exprs_view_len(x.items());
        lemma_exprs_view_len(y.items());
    }
    let ghost xv = exprs_view(x.items());
    let ghost yv = exprs_view(y.items());
    if xs.len() != ys.len() {
        return false;
    }
    let mut i: usize = 0;
    while i < xs.len()
        invariant
            xs@ == x.items(),
            ys@ == y.items(),
            xv == exprs_view(x.items()),
            yv == exprs_view(y.items()),
            xv.len() == xs@.len(),
            yv.len() == ys@.len(),
            xs@.len() == ys@.len(),
            0 <= i <= xs@.len(),
            equal_items(xv.take(i as int), yv),
        decreases xs@.len() - i,
    {
        proof {
            x.lemma_items_decrease(i as int);
            lemma_exprs_view_index(x.items(), i as int);
            lemma_exprs_view_index(y.items(), i as int);
            lemma_equal_items_step(xv, yv, i as int);
        }
        if !equal_fn(&xs[i], &ys[i]) {
            proof {
                assert(!equal_items(xv.take(i + 1), yv));
                assert(equal_items(xv, yv) ==> equal_items(xv.take(i + 1), yv)) by {
                    lemma_equal_items_prefix(xv, yv, i + 1);
                }
            }
            return false;
        }
        i = i + 1;
    }
    proof {
        assert(xv.take(xv.len() as int) =~= xv);
    }
    true
}

proof fn lemma_equal_items_prefix(xs: Seq<ExprV>, ys: Seq<ExprV>, k: int)
    requires
        0 <= k <= xs.len(),
    ensures
        equal_items(xs, ys) ==> equal_items(xs.take(k), ys),
    decreases xs.len(),
{
    if k < xs.len() {
        lemma_equal_items_prefix(xs.drop_last(), ys, k);
        assert(xs.drop_last().take(k) =~= xs.take(k));
    } else {
        assert(xs.take(k) =~= xs);
    }
}

} // verus!

verus! {

/// `car` of a pair made by `cons` is its first part. (A dotted list has at least its tail.)
pub proof fn lemma_car_cons(a: ExprV, b: ExprV)
    requires
        b matches ExprV::List(items, dotted) ==> (dotted ==> items.len() >= 1),
    ensures
        car_spec(cons_spec(a, b)) == Ok::<ExprV, Seq<char>>(a),
{
    match b {
        ExprV::List(items, _) => {
            assert((seq![a] + items)[0] == a);
        },
        _ => {},
    }
}

/// `cdr` of a pair made by `cons` is its second part. (A dotted list has a tail after at
/// least one element, as every list the interpreter makes does.)
pub proof fn lemma_cdr_cons(a: ExprV, b: ExprV)
    requires
        b matches ExprV::List(items, dotted) ==> (dotted ==> items.len() >= 2),
    ensures
        cdr_spec(cons_spec(a, b)) == Ok::<ExprV, Seq<char>>(b),
{
    match b {
        ExprV::List(items, _) => {
            assert((seq![a] + items).drop_first() =~= items);
        },
        _ => {},
    }
}

/// `eqv?` is reflexive: every value but `#<void>` is `eqv?` to itself (a character, an
/// integer, a symbol, a boolean, a string, a list, a procedure); and `eqv?` is symmetric.
pub proof fn lemma_eqv_reflexive(v: ExprV, w: ExprV)
    ensures
        !(v is Void) ==> eqv_spec(v, v),
        eqv_spec(v, w) == eqv_spec(w, v),
        eqv_spec(v, w) ==> v == w,
{
}

/// Two values that are `eqv?` are `equal?`, where `#<void>` occurs in neither.
pub proof fn lemma_eqv_implies_equal(a: ExprV, b: ExprV)
    requires
        eqv_spec(a, b),
        void_free(a),
    ensures
        equal_spec(a, b),
{
    if a is List {
        lemma_equal_reflexive(a);
    }
}

/// Whether `#<void>` occurs nowhere in `e`.
pub open spec fn void_free(e: ExprV) -> bool
    decreases e,
{
    match e {
        ExprV::Void => false,
        ExprV::List(xs, _) => void_free_items(xs),
        _ => true,
    }
}

pub open spec fn void_free_items(xs: Seq<ExprV>) -> bool
    decreases xs,
{
    if xs.len() == 0 {
        true
    } else {
        void_free_items(xs.drop_last()) && void_free(xs.last())
    }
}

/// Every value in which `#<void>` does not occur is `equal?` to itself.
pub proof fn lemma_equal_reflexive(a: ExprV)
    requires
        void_free(a),
    ensures
        equal_spec(a, a),
    decreases a,
{
    match a {
        ExprV::List(xs, _) => {
            lemma_equal_items_reflexive(xs);
        },
        _ => {},
    }
}

/// The elements of a list without `#<void>` are pairwise `equal?` to themselves.
pub proof fn lemma_equal_items_reflexive(xs: Seq<ExprV>)
    requires
        void_free_items(xs),
    ensures
        equal_items(xs, xs),
    decreases xs,
{
    if xs.len() > 0 {
        lemma_equal_items_reflexive_prefix(xs.drop_last(), xs);
        lemma_equal_reflexive(xs.last());
    }
}

proof fn lemma_equal_items_reflexive_prefix(xs: Seq<ExprV>, ys: Seq<ExprV>)
    requires
        xs.len() <= ys.len(),
        void_free_items(xs),
        forall|i: int| 0 <= i < xs.len() ==> xs[i] == ys[i],
    ensures
        equal_items(xs, ys),
    decreases xs,
{
    if xs.len() > 0 {
        lemma_equal_items_reflexive_prefix(xs.drop_last(), ys);
        assert(xs.last() == xs[xs.len() - 1]);
        lemma_equal_reflexive(xs.last());
    }
}

/// The elements of `xs` are pairwise `equal?` to those of `ys` exactly when each is `equal?`
/// to the element of `ys` at the same position.
pub proof fn lemma_equal_items_pairwise(xs: Seq<ExprV>, ys: Seq<ExprV>)
    ensures
        equal_items(xs, ys) == (forall|i: int| 0 <= i < xs.len() ==> #[trigger] equal_spec(xs[i], ys[i])),
    decreases xs.len(),
{
    if xs.len() > 0 {
        lemma_equal_items_pairwise(xs.drop_last(), ys);
        assert forall|i: int| 0 <= i < xs.len() - 1 implies #[trigger] xs.drop_last()[i] == xs[i] by {}
        if forall|i: int| 0 <= i < xs.len() ==> #[trigger] equal_spec(xs[i], ys[i]) {
            assert(equal_spec(xs[xs.len() - 1], ys[xs.len() - 1]));
            assert forall|i: int| 0 <= i < xs.drop_last().len() implies #[trigger] equal_spec(
                xs.drop_last()[i],
                ys[i],
            ) by {
                assert(equal_spec(xs[i], ys[i]));
            }
        }
        if equal_items(xs, ys) {
            assert forall|i: int| 0 <= i < xs.len() implies #[trigger] equal_spec(xs[i], ys[i]) by {
                if i < xs.len() - 1 {
                    assert(equal_spec(xs.drop_last()[i], ys[i]));
                }
            }
        }
    }
}

/// `equal?` is symmetric: `a` is `equal?` to `b` exactly when `b` is `equal?` to `a`.
pub proof fn lemma_equal_symmetric(a: ExprV, b: ExprV)
    ensures
        equal_spec(a, b) == equal_spec(b, a),
    decreases a,
{
    match (a, b) {
        (ExprV::List(xs, dx), ExprV::List(ys, dy)) => {
            lemma_equal_items_pairwise(xs, ys);
            lemma_equal_items_pairwise(ys, xs);
            if xs.len() == ys.len() {
                assert forall|i: int| 0 <= i < xs.len() implies equal_spec(#[trigger] xs[i], ys[i]) == equal_spec(
                    ys[i],
                    xs[i],
                ) by {
                    lemma_equal_symmetric(xs[i], ys[i]);
                }
                assert((forall|i: int| 0 <= i < xs.len() ==> #[trigger] equal_spec(xs[i], ys[i])) == (forall|
                    i: int,
                | 0 <= i < ys.len() ==> #[trigger] equal_spec(ys[i], xs[i])));
            }
        },
        _ => {},
    }
}

} // verus!
