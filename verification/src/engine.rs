//! The root environment with the built-ins, and the engine that reads and evaluates source
//! text in it.
use crate::env::{entry_put, lookup, FrameV, Store};
use crate::error::{parse_error_text, EvalError, LispDMError};
use crate::eval::{
    appends, builtin_arity, builtin_arity_of, builtin_is_form, builtin_kind_of, builtin_name,
    builtin_name_v, eval_exprs, grows, program_value,
};
use crate::expr::{Arity, EnvRef, Expr, ExprV, FromExpr, Primitive, ProcV, Procedure, ProcedureKind};
use crate::lexer::spec_lex;
use crate::parser::{parse_str, spec_parse_all};
use vstd::prelude::*;

verus! {

/// The built-ins, in the order in which the root environment binds them.
pub open spec fn all_builtins() -> Seq<Primitive> {
    seq![
        Primitive::Lambda,
        Primitive::Define,
        Primitive::SetBang,
        Primitive::Let,
        Primitive::Letrec,
        Primitive::Quote,
        Primitive::Quasiquote,
        Primitive::If,
        Primitive::Cond,
        Primitive::Begin,
        Primitive::DefineMacro,
        Primitive::Eval,
        Primitive::Apply,
        Primitive::Eqv,
        Primitive::Eq,
        Primitive::Equal,
        Primitive::Add,
        Primitive::Sub,
        Primitive::Mult,
        Primitive::Divide,
        Primitive::Less,
        Primitive::NumEqual,
        Primitive::More,
        Primitive::Abs,
        Primitive::Square,
        Primitive::IsInteger,
        Primitive::Quotient,
        Primitive::Remainder,
        Primitive::Modulo,
        Primitive::Cons,
        Primitive::Car,
        Primitive::Cdr,
        Primitive::MakeList,
        Primitive::ListCopy,
        Primitive::NumberToString,
        Primitive::StringToNumber,
        Primitive::CharToInteger,
        Primitive::IsPair,
        Primitive::IsNumber,
        Primitive::IsSymbol,
        Primitive::IsString,
        Primitive::IsProcedure,
        Primitive::IsChar,
        Primitive::IsPort,
        Primitive::StringEq,
        Primitive::StringLt,
        Primitive::StringGt,
        Primitive::StringLe,
        Primitive::StringGe,
        Primitive::MakeString,
        Primitive::StringFromChars,
        Primitive::StringLength,
        Primitive::CharUpcase,
        Primitive::CharDowncase,
        Primitive::CharFoldcase,
        Primitive::IsCharWhitespace,
        Primitive::IsCharUpperCase,
        Primitive::IsCharLowerCase,
        Primitive::IsCharAlphabetic,
        Primitive::IsCharNumeric,
        Primitive::DigitValue,
        Primitive::Display,
        Primitive::Write,
        Primitive::Newline,
        Primitive::WriteChar,
        Primitive::WriteString,
        Primitive::ListOf,
        Primitive::IsNull,
        Primitive::StringSet
    ]
}

/// The procedure a built-in is bound to.
pub open spec fn builtin_proc(p: Primitive) -> ProcV {
    ProcV::Atomic(
        Some(builtin_name_v(p)),
        if builtin_is_form(p) {
            ProcedureKind::SpecialForm
        } else {
            ProcedureKind::Procedure
        },
        builtin_arity(p),
        p,
    )
}

/// The bindings of the root environment after the built-ins `ps` are bound in order.
pub open spec fn root_bindings(ps: Seq<Primitive>) -> Seq<(Seq<char>, ExprV)>
    decreases ps.len(),
{
    if ps.len() == 0 {
        Seq::empty()
    } else {
        entry_put(
            root_bindings(ps.drop_last()),
            builtin_name_v(ps.last()),
            ExprV::Procedure(builtin_proc(ps.last())),
        )
    }
}

/// A store whose only environment, the root, binds every built-in and has no macros.
pub fn new_root_env() -> (r: (Store, EnvRef))
    ensures
        r.1.index == 0,
        r.0@.len() == 1,
        r.0@[0] == (FrameV { bindings: root_bindings(all_builtins()), macros: Seq::empty(), parent: None, output: Seq::empty() }),
        r.0.written() == Seq::<char>::empty(),
{
    let mut store = Store::new();
    let root = store.root();
    let all: Vec<Primitive> = vec![
        Primitive::Lambda,
        Primitive::Define,
        Primitive::SetBang,
        Primitive::Let,
        Primitive::Letrec,
        Primitive::Quote,
        Primitive::Quasiquote,
        Primitive::If,
        Primitive::Cond,
        Primitive::Begin,
        Primitive::DefineMacro,
        Primitive::Eval,
        Primitive::Apply,
        Primitive::Eqv,
        Primitive::Eq,
        Primitive::Equal,
        Primitive::Add,
        Primitive::Sub,
        Primitive::Mult,
        Primitive::Divide,
        Primitive::Less,
        Primitive::NumEqual,
        Primitive::More,
        Primitive::Abs,
        Primitive::Square,
        Primitive::IsInteger,
        Primitive::Quotient,
        Primitive::Remainder,
        Primitive::Modulo,
        Primitive::Cons,
        Primitive::Car,
        Primitive::Cdr,
        Primitive::MakeList,
        Primitive::ListCopy,
        Primitive::NumberToString,
        Primitive::StringToNumber,
        Primitive::CharToInteger,
        Primitive::IsPair,
        Primitive::IsNumber,
        Primitive::IsSymbol,
        Primitive::IsString,
        Primitive::IsProcedure,
        Primitive::IsChar,
        Primitive::IsPort,
        Primitive::StringEq,
        Primitive::StringLt,
        Primitive::StringGt,
        Primitive::StringLe,
        Primitive::StringGe,
        Primitive::MakeString,
        Primitive::StringFromChars,
        Primitive::StringLength,
        Primitive::CharUpcase,
        Primitive::CharDowncase,
        Primitive::CharFoldcase,
        Primitive::IsCharWhitespace,
        Primitive::IsCharUpperCase,
        Primitive::IsCharLowerCase,
        Primitive::IsCharAlphabetic,
        Primitive::IsCharNumeric,
        Primitive::DigitValue,
        Primitive::Display,
        Primitive::Write,
        Primitive::Newline,
        Primitive::WriteChar,
        Primitive::WriteString,
        Primitive::ListOf,
        Primitive::IsNull,
        Primitive::StringSet,
    ];
    assert(all@ =~= all_builtins());
    let mut i: usize = 0;
    while i < all.len()
        invariant
            0 <= i <= all@.len(),
            all@ == all_builtins(),
            root.index == 0,
            store@.len() == 1,
            store.written() == Seq::<char>::empty(),
            store@[0] == (FrameV { bindings: root_bindings(all@.take(i as int)), macros: Seq::empty(), parent: None, output: Seq::empty() }),
        decreases all@.len() - i,
    {
        let p = all[i];
        let name = builtin_name(p);
        let proc = Procedure::new_atomic(String::from_str(name), builtin_kind_of(p), p, builtin_arity_of(p));
        root.add(&mut store, String::from_str(name), Expr::Procedure(proc));
        proof {
            assert(all@.take(i + 1).drop_last() =~= all@.take(i as int));
        }
        i = i + 1;
    }
    proof {
        assert(all@.take(all@.len() as int) =~= all@);
    }
    (store, root)
}

/// Reads and evaluates source text in a root environment that it keeps between
/// evaluations.
pub struct Engine {
    store: Store,
    root_env: EnvRef,
    fuel: u64,
}

impl Engine {
    /// The environments of the engine.
    pub closed spec fn frames(&self) -> Seq<FrameV> {
        self.store@
    }

    /// The root environment.
    pub closed spec fn root(&self) -> EnvRef {
        self.root_env
    }

    /// The text the evaluations wrote to the current output port and that was not taken yet.
    pub closed spec fn written(&self) -> Seq<char> {
        crate::env::written_of(self.store@)
    }

    /// The number of steps an evaluation may take.
    pub closed spec fn steps(&self) -> u64 {
        self.fuel
    }

    /// An engine whose root environment holds the built-ins.
    pub fn new_without_prelude() -> (e: Self)
        ensures
            e.root().index == 0,
            e.frames().len() == 1,
            e.frames()[0] == (FrameV { bindings: root_bindings(all_builtins()), macros: Seq::empty(), parent: None, output: Seq::empty() }),
            e.steps() == u64::MAX,
            e.written() == Seq::<char>::empty(),
    {
        let (store, root_env) = new_root_env();
        Engine { store, root_env, fuel: u64::MAX }
    }

    /// Reads `src` and evaluates its expressions in order in the root environment: the value
    /// of the last, or the first error.
    pub fn eval_value(&mut self, src: &str) -> (r: Result<Expr, LispDMError>)
        ensures
            grows(old(self).frames(), final(self).frames()),
            appends(old(self).written(), final(self).written()),
            final(self).written() == crate::env::written_of(final(self).frames()),
            final(self).root() == old(self).root(),
            final(self).steps() == old(self).steps(),
            match spec_parse_all(spec_lex(src@), Seq::empty()) {
                Err(pe) => r == Err::<Expr, LispDMError>(LispDMError::ParseError(r->Err_0->ParseError_0))
                    && r->Err_0->ParseError_0@ == parse_error_text(pe) && final(self).frames()
                    == old(self).frames() && final(self).written() == old(self).written(),
                Ok(es) => (r is Ok || r->Err_0 is EvalError) && (program_value(
                    es,
                    old(self).frames(),
                    old(self).root().index as int,
                    old(self).steps() as nat,
                ) is Some ==> {
                    let (res, f) = program_value(
                        es,
                        old(self).frames(),
                        old(self).root().index as int,
                        old(self).steps() as nat,
                    )->0;
                    final(self).frames() == f && match res {
                    Ok(v) => r is Ok && r->Ok_0@ == v,
                    Err(m) => r is Err && r->Err_0 == LispDMError::EvalError(r->Err_0->EvalError_0)
                        && r->Err_0->EvalError_0@ == "runtime error: "@ + m,
                    }
                }),
            },
    {
        let exprs = match parse_str(src) {
            Ok(exprs) => exprs,
            Err(e) => {
                return Err(LispDMError::from_parse_error(e));
            },
        };
        match eval_exprs(exprs, self.root_env, &mut self.store, self.fuel) {
            Ok(v) => Ok(v),
            Err(e) => Err(LispDMError::from_eval_error(e)),
        }
    }

    /// Reads `src` and evaluates its expressions in order in the root environment: the value
    /// of the last, converted into `R` (or, where it does not convert, what `R` gives back), or
    /// the first error.
    pub fn eval<R: FromExpr>(&mut self, src: &str) -> (r: Result<Result<R, Expr>, LispDMError>)
        ensures
            grows(old(self).frames(), final(self).frames()),
            appends(old(self).written(), final(self).written()),
            final(self).written() == crate::env::written_of(final(self).frames()),
            final(self).root() == old(self).root(),
            final(self).steps() == old(self).steps(),
            match spec_parse_all(spec_lex(src@), Seq::empty()) {
                Err(pe) => r == Err::<Result<R, Expr>, LispDMError>(
                    LispDMError::ParseError(r->Err_0->ParseError_0),
                ) && r->Err_0->ParseError_0@ == parse_error_text(pe) && final(self).frames()
                    == old(self).frames() && final(self).written() == old(self).written(),
                Ok(es) => (r is Ok || r->Err_0 is EvalError) && (program_value(
                    es,
                    old(self).frames(),
                    old(self).root().index as int,
                    old(self).steps() as nat,
                ) is Some ==> {
                    let (res, f) = program_value(
                        es,
                        old(self).frames(),
                        old(self).root().index as int,
                        old(self).steps() as nat,
                    )->0;
                    final(self).frames() == f && match res {
                    Ok(v) => r is Ok && match r->Ok_0 {
                        Ok(x) => R::converts(v) && R::converted(v, x),
                        Err(e) => !R::converts(v) && e@ == R::rejected(v),
                    },
                    Err(m) => r is Err && r->Err_0 == LispDMError::EvalError(r->Err_0->EvalError_0)
                        && r->Err_0->EvalError_0@ == "runtime error: "@ + m,
                    }
                }),
            },
    {
        match self.eval_value(src) {
            Ok(v) => Ok(R::from_expr(v)),
            Err(e) => Err(e),
        }
    }

    /// The text the evaluations wrote to the current output port since it was last taken;
    /// the engine then holds none.
    pub fn take_output(&mut self) -> (s: String)
        ensures
            s@ == old(self).written(),
            final(self).written() == Seq::<char>::empty(),
            final(self).frames() == crate::env::emitted_cleared(old(self).frames()),
            final(self).root() == old(self).root(),
            final(self).steps() == old(self).steps(),
    {
        self.store.take_output()
    }

    /// The root environment.
    pub fn env(&self) -> (e: EnvRef)
        ensures
            e == self.root(),
    {
        self.root_env
    }

    /// The environments of the engine, for looking up bindings.
    pub fn store(&self) -> (s: &Store)
        ensures
            s@ == self.frames(),
    {
        &self.store
    }

    /// Binds `name` in the root environment to the built-in `proc`, received as a procedure or
    /// as a special form as `kind` says, with arity `arity`.
    pub fn register_fn(&mut self, name: &str, kind: ProcedureKind, arity: Arity, proc: Primitive)
        ensures
            final(self).written() == old(self).written(),
            final(self).root() == old(self).root(),
            final(self).steps() == old(self).steps(),
            old(self).root().index < old(self).frames().len() ==> final(self).frames() == old(
                self,
            ).frames().update(
                old(self).root().index as int,
                crate::env::frame_bind(
                    old(self).frames()[old(self).root().index as int],
                    name@,
                    ExprV::Procedure(ProcV::Atomic(Some(name@), kind, arity, proc)),
                ),
            ),
            !(old(self).root().index < old(self).frames().len()) ==> final(self).frames() == old(
                self,
            ).frames(),
    {
        if self.root_env.index < self.store.len() {
            let p = Procedure::new_atomic(String::from_str(name), kind, proc, arity);
            self.root_env.add(&mut self.store, String::from_str(name), Expr::Procedure(p));
        }
    }
}

/// The environments of an engine whose root environment holds the built-ins alone.
pub open spec fn bare_frames() -> Seq<FrameV> {
    seq![FrameV { bindings: root_bindings(all_builtins()), macros: Seq::empty(), parent: None, output: Seq::empty() }]
}

/// The prelude, in Scheme: the derived forms (`when`, `unless`, `and`, `or`, `let*`,
/// `letrec*`, `case`, `do`), pattern matching with `match` and lazy evaluation with `delay`,
/// as macros; and the list, number and lazy-list procedures that they and programs use.
pub const PRELUDE: &'static str = "
(define (not x) (if x #f #t))
(define (length l) (if (null? l) 0 (+ 1 (length (cdr l)))))
(define (map f l) (if (null? l) '() (cons (f (car l)) (map f (cdr l)))))
(define (append a b) (if (null? a) b (cons (car a) (append (cdr a) b))))
(define (memv x l) (if (null? l) #f (if (eqv? x (car l)) l (memv x (cdr l)))))
(define (memq x l) (memv x l))
(define (member x l) (if (null? l) #f (if (equal? x (car l)) l (member x (cdr l)))))
(define (assv x l) (if (null? l) #f (if (eqv? x (car (car l))) (car l) (assv x (cdr l)))))
(define (assq x l) (assv x l))
(define (assoc x l) (if (null? l) #f (if (equal? x (car (car l))) (car l) (assoc x (cdr l)))))
(define (caar x) (car (car x)))
(define (cadr x) (car (cdr x)))
(define (cdar x) (cdr (car x)))
(define (cddr x) (cdr (cdr x)))
(define (reverse l) (if (null? l) '() (append (reverse (cdr l)) (list (car l)))))
(define (list-tail l k) (if (= k 0) l (list-tail (cdr l) (- k 1))))
(define (list-ref l k) (car (list-tail l k)))
(define (zero? n) (= n 0))
(define (positive? n) (> n 0))
(define (negative? n) (< n 0))
(define (odd? n) (= (modulo n 2) 1))
(define (even? n) (= (modulo n 2) 0))
(define (<= a b) (not (> a b)))
(define (>= a b) (not (< a b)))
(define (boolean? x) (if (eqv? x #t) #t (eqv? x #f)))
(define-macro (when test . body) `(if ,test (begin ,@body)))
(define-macro (unless test . body) `(if ,test (begin) (begin ,@body)))
(define-macro (and . xs)
  (if (null? xs) #t
      (if (null? (cdr xs)) (car xs)
          `(if ,(car xs) (and ,@(cdr xs)) #f))))
(define-macro (or . xs)
  (if (null? xs) #f
      (if (null? (cdr xs)) (car xs)
          `((lambda (v rest) (if v v (rest))) ,(car xs) (lambda () (or ,@(cdr xs)))))))
(define (list? x) (or (null? x) (and (pair? x) (list? (cdr x)))))
(define (make-promise thunk)
  (let ((done #f) (value #f))
    (lambda ()
      (if done value
          (let ((v (thunk)))
            (if done value (begin (set! done #t) (set! value v) v)))))))
(define-macro (delay e) `(make-promise (lambda () ,e)))
(define (force p) (p))
(define-macro (lazy-cons a b) `(cons ,a (delay ,b)))
(define (lazy-car s) (car s))
(define (lazy-cdr s) (force (cdr s)))
(define (lazy-map f s)
  (if (null? s) '() (lazy-cons (f (lazy-car s)) (lazy-map f (lazy-cdr s)))))
(define (lazy-filter p s)
  (if (null? s) '()
      (if (p (lazy-car s))
          (lazy-cons (lazy-car s) (lazy-filter p (lazy-cdr s)))
          (lazy-filter p (lazy-cdr s)))))
(define (lazy-ref s n) (if (= n 0) (lazy-car s) (lazy-ref (lazy-cdr s) (- n 1))))
(define (head s n) (if (= n 0) '() (cons (lazy-car s) (head (lazy-cdr s) (- n 1)))))
(define-macro (let* bindings . body)
  (if (null? bindings) `(let () ,@body)
      `(let (,(car bindings)) (let* ,(cdr bindings) ,@body))))
(define-macro (letrec* bindings . body) `(letrec ,bindings ,@body))
(define (case-select key clauses)
  (if (null? clauses) (begin)
      (let ((c (car clauses)))
        (if (or (eqv? (car c) 'else) (memv key (car c)))
            (if (car (cdr c)) (((car (cdr (cdr c)))) key) ((car (cdr (cdr c)))))
            (case-select key (cdr clauses))))))
(define-macro (case key . clauses)
  `(case-select ,key
     (list ,@(map (lambda (c)
                    (if (and (not (null? (cdr c))) (eqv? (car (cdr c)) '=>))
                        `(list ',(car c) #t (lambda () ,(car (cdr (cdr c)))))
                        `(list ',(car c) #f (lambda () ,@(cdr c)))))
                  clauses))))
(define-macro (do specs test-clause . body)
  `(let do-loop ,(map (lambda (s) (list (car s) (car (cdr s)))) specs)
     (if ,(car test-clause)
         (begin (begin) ,@(cdr test-clause))
         (begin ,@body
                (do-loop ,@(map (lambda (s) (if (null? (cdr (cdr s))) (car s) (car (cdr (cdr s)))))
                                specs))))))
(define (match-type-test type val)
  (case type
    ((symbol) (symbol? val))
    ((string) (string? val))
    ((number) (number? val))
    ((char) (char? val))
    ((pair) (pair? val))
    ((procedure) (procedure? val))
    (else (car '()))))
(define (match-var-values v val) (if (eqv? v '_) '() (list val)))
(define (match-pattern pat val)
  (if (and (pair? pat) (eqv? (car pat) 'unquote))
      (let ((p (car (cdr pat))))
        (if (pair? p)
            (if (match-type-test (car p) val) (match-var-values (car (cdr p)) val) #f)
            (match-var-values p val)))
      (if (and (pair? pat) (pair? val))
          (let ((h (match-pattern (car pat) (car val))))
            (if h
                (let ((t (match-pattern (cdr pat) (cdr val)))) (if t (append h t) #f))
                #f))
          (if (equal? pat val) '() #f))))
(define (pattern-vars pat)
  (if (and (pair? pat) (eqv? (car pat) 'unquote))
      (let ((p (car (cdr pat))))
        (let ((v (if (pair? p) (car (cdr p)) p)))
          (if (eqv? v '_) '() (list v))))
      (if (pair? pat) (append (pattern-vars (car pat)) (pattern-vars (cdr pat))) '())))
(define (match-select val clauses)
  (if (null? clauses) (car '())
      (let ((bound (match-pattern (car (car clauses)) val)))
        (if bound
            (apply (car (cdr (car clauses))) bound)
            (match-select val (cdr clauses))))))
(define-macro (match key . clauses)
  `(match-select ,key
     (list ,@(map (lambda (c) `(list ',(car c) (lambda ,(pattern-vars (car c)) ,@(cdr c))))
                  clauses))))
";

impl Default for Engine {
    /// An engine with the built-ins in its root environment, where the prelude has then been
    /// evaluated.
    fn default() -> (e: Self)
        ensures
            e.root().index == 0,
            e.steps() == u64::MAX,
            grows(bare_frames(), e.frames()),
            match spec_parse_all(spec_lex(PRELUDE@), Seq::empty()) {
                Err(_) => e.frames() == bare_frames(),
                Ok(es) => program_value(es, bare_frames(), 0, u64::MAX as nat) is Some ==> {
                    let (res, f) = program_value(es, bare_frames(), 0, u64::MAX as nat)->0;
                    e.frames() == f
                },
            },
    {
        let mut e = Engine::new_without_prelude();
        proof {
            assert(e.frames() =~= bare_frames());
        }
        let _ = e.eval_value(PRELUDE);
        e
    }
}

} // verus!
