//! Values of the interpreter: expressions, lists and procedures.
use crate::text::push_char;
use vstd::prelude::*;

verus! {

/// A sequence of expressions.
pub type Exprs = Vec<Expr>;

/// Whether a list ends in the empty list (proper) or in another value (dotted).
#[derive(PartialEq, Eq, Debug, Clone, Copy, Structural)]
pub enum ListKind {
    Proper,
    Dotted,
}

/// Whether a procedure receives its arguments evaluated (a procedure) or as they were
/// written (a special form).
#[derive(PartialEq, Eq, Debug, Clone, Copy, Structural)]
pub enum ProcedureKind {
    SpecialForm,
    Procedure,
}

/// How many arguments a procedure accepts.
#[derive(PartialEq, Eq, Debug, Clone, Copy, Structural)]
pub enum Arity {
    Exact(usize),
    AtLeast(usize),
    /// From the first number to the second, both included.
    Range(usize, usize),
    Any,
}

/// The built-in procedures and special forms of the root environment.
#[derive(PartialEq, Eq, Debug, Clone, Copy, Structural)]
pub enum Primitive {
    Lambda,
    Define,
    SetBang,
    Let,
    Letrec,
    Quote,
    Quasiquote,
    If,
    Cond,
    Begin,
    DefineMacro,
    Eval,
    Apply,
    Eqv,
    Eq,
    Equal,
    Add,
    Sub,
    Mult,
    Divide,
    Less,
    NumEqual,
    More,
    Abs,
    Square,
    IsInteger,
    Quotient,
    Remainder,
    Modulo,
    Cons,
    Car,
    Cdr,
    MakeList,
    ListCopy,
    NumberToString,
    StringToNumber,
    CharToInteger,
    IsPair,
    IsNumber,
    IsSymbol,
    IsString,
    IsProcedure,
    IsChar,
    IsPort,
    StringEq,
    StringLt,
    StringGt,
    StringLe,
    StringGe,
    MakeString,
    StringFromChars,
    StringLength,
    CharUpcase,
    CharDowncase,
    CharFoldcase,
    IsCharWhitespace,
    IsCharUpperCase,
    IsCharLowerCase,
    IsCharAlphabetic,
    IsCharNumeric,
    DigitValue,
    Display,
    Write,
    Newline,
    WriteChar,
    WriteString,
    ListOf,
    IsNull,
    StringSet,
}

/// A reference to an environment frame of the interpreter's store.
#[derive(PartialEq, Eq, Debug, Clone, Copy, Structural)]
pub struct EnvRef {
    pub index: usize,
}

/// The mathematical value of an [`Expr`].
pub enum ExprV {
    Integer(i64),
    Float(Seq<char>),
    Symbol(Seq<char>),
    Str(Seq<char>),
    Char(char),
    Boolean(bool),
    /// The elements of a list, and whether it is dotted (its last element is its tail).
    List(Seq<ExprV>, bool),
    Void,
    Procedure(ProcV),
}

/// The mathematical value of a [`Procedure`].
pub enum ProcV {
    Atomic(Option<Seq<char>>, ProcedureKind, Arity, Primitive),
    Compound(Option<Seq<char>>, ParamsV, Seq<ExprV>, EnvRef),
}

/// The mathematical value of [`ProcedureParams`].
pub enum ParamsV {
    Fixed(Seq<Seq<char>>),
    Variadic(Seq<char>),
    Mixed(Seq<Seq<char>>, Seq<char>),
}

/// A value of the interpreter.
///
/// An inexact number is carried as the text of its literal.
#[derive(PartialEq, Debug)]
pub enum Expr {
    Integer(i64),
    Float(String),
    Symbol(String),
    String(String),
    Char(char),
    Boolean(bool),
    /// A list; `'()` is the empty list. Lists are kept flat: `(1 . (2 3))` and `(1 2 3)` are
    /// the same list.
    List(List),
    /// The unspecified value.
    Void,
    Procedure(Procedure),
}

/// A list of expressions, and whether it is dotted: then its last element is its tail,
/// which is never itself a list.
#[derive(PartialEq, Debug)]
pub struct List {
    items: Exprs,
    dotted: bool,
}

/// The parameters of a compound procedure.
#[derive(PartialEq, Debug)]
pub enum ProcedureParams {
    Fixed(Vec<String>),
    Variadic(String),
    Mixed(Vec<String>, String),
}

/// The body of a compound procedure.
#[derive(PartialEq, Debug)]
pub struct Body {
    pub body: Exprs,
}

/// A built-in procedure or special form.
#[derive(PartialEq, Debug)]
pub struct AtomicProcedure {
    pub name: Option<String>,
    pub kind: ProcedureKind,
    pub arity: Arity,
    pub proc: Primitive,
}

/// A procedure made by `lambda`, `define` or `define-macro`.
#[derive(PartialEq, Debug)]
pub struct CompoundProcedure {
    pub name: Option<String>,
    pub params: ProcedureParams,
    pub body: Box<Body>,
    pub env: EnvRef,
}

/// A procedure value.
#[derive(PartialEq, Debug)]
pub enum Procedure {
    Atomic(AtomicProcedure),
    Compound(CompoundProcedure),
}

pub open spec fn strings_view(s: Seq<String>) -> Seq<Seq<char>> {
    s.map_values(|x: String| x@)
}

pub open spec fn opt_string_view(s: Option<String>) -> Option<Seq<char>> {
    match s {
        Some(x) => Some(x@),
        None => None,
    }
}

impl ProcedureParams {
    pub open spec fn view(&self) -> ParamsV {
        match self {
            ProcedureParams::Fixed(v) => ParamsV::Fixed(strings_view(v@)),
            ProcedureParams::Variadic(s) => ParamsV::Variadic(s@),
            ProcedureParams::Mixed(v, s) => ParamsV::Mixed(strings_view(v@), s@),
        }
    }
}

/// The views of a sequence of expressions.
pub open spec fn exprs_view(s: Seq<Expr>) -> Seq<ExprV>
    decreases s,
{
    if s.len() == 0 {
        Seq::empty()
    } else {
        exprs_view(s.drop_last()).push(expr_view(s.last()))
    }
}

/// The view of an expression.
pub open spec fn expr_view(e: Expr) -> ExprV
    decreases e,
{
    match e {
        Expr::Integer(i) => ExprV::Integer(i),
        Expr::Float(s) => ExprV::Float(s@),
        Expr::Symbol(s) => ExprV::Symbol(s@),
        Expr::String(s) => ExprV::Str(s@),
        Expr::Char(c) => ExprV::Char(c),
        Expr::Boolean(b) => ExprV::Boolean(b),
        Expr::List(l) => list_view(l),
        Expr::Void => ExprV::Void,
        Expr::Procedure(p) => ExprV::Procedure(proc_view(p)),
    }
}

/// The view of a procedure.
pub open spec fn proc_view(p: Procedure) -> ProcV
    decreases p,
{
    match p {
        Procedure::Atomic(a) => ProcV::Atomic(opt_string_view(a.name), a.kind, a.arity, a.proc),
        Procedure::Compound(c) => ProcV::Compound(
            opt_string_view(c.name),
            c.params.view(),
            exprs_view(c.body.body@),
            c.env,
        ),
    }
}

/// The view of a list: its elements and whether it is dotted.
pub closed spec fn list_view(l: List) -> ExprV
    decreases l,
{
    ExprV::List(exprs_view(l.items@), l.dotted)
}

impl View for Expr {
    type V = ExprV;

    open spec fn view(&self) -> ExprV {
        expr_view(*self)
    }
}

impl View for Procedure {
    type V = ProcV;

    open spec fn view(&self) -> ProcV {
        proc_view(*self)
    }
}

pub broadcast proof fn lemma_exprs_view_len(s: Seq<Expr>)
    ensures
        #[trigger] exprs_view(s).len() == s.len(),
    decreases s.len(),
{
    if s.len() > 0 {
        lemma_exprs_view_len(s.drop_last());
    }
}

pub broadcast proof fn lemma_exprs_view_index(s: Seq<Expr>, i: int)
    requires
        0 <= i < s.len(),
    ensures
        #[trigger] exprs_view(s)[i] == expr_view(s[i]),
    decreases s.len(),
{
    lemma_exprs_view_len(s.drop_last());
    if i < s.len() - 1 {
        lemma_exprs_view_index(s.drop_last(), i);
    }
}

/// The views of two sequences of expressions are equal when their elements' views are.
pub proof fn lemma_exprs_view_ext(a: Seq<Expr>, b: Seq<Expr>)
    requires
        a.len() == b.len(),
        forall|i: int| 0 <= i < a.len() ==> expr_view(#[trigger] a[i]) == expr_view(b[i]),
    ensures
        exprs_view(a) == exprs_view(b),
{
    broadcast use {lemma_exprs_view_len, lemma_exprs_view_index};

    assert(exprs_view(a) =~= exprs_view(b));
}

pub broadcast proof fn lemma_exprs_view_add(a: Seq<Expr>, b: Seq<Expr>)
    ensures
        #[trigger] exprs_view(a + b) == exprs_view(a) + exprs_view(b),
{
    broadcast use {lemma_exprs_view_len, lemma_exprs_view_index};

    assert(exprs_view(a + b) =~= exprs_view(a) + exprs_view(b)) by {
        assert forall|i: int| 0 <= i < a.len() + b.len() implies #[trigger] exprs_view(a + b)[i]
            == (exprs_view(a) + exprs_view(b))[i] by {
            if i < a.len() {
                assert((a + b)[i] == a[i]);
            } else {
                assert((a + b)[i] == b[i - a.len()]);
            }
        }
    }
}

pub broadcast proof fn lemma_exprs_view_push(a: Seq<Expr>, e: Expr)
    ensures
        #[trigger] exprs_view(a.push(e)) == exprs_view(a).push(expr_view(e)),
{
    assert(a.push(e).drop_last() =~= a);
}

pub broadcast group group_exprs_view {
    lemma_exprs_view_len,
    lemma_exprs_view_index,
    lemma_exprs_view_add,
    lemma_exprs_view_push,
}

} // verus!

verus! {

impl List {
    #[verifier::type_invariant]
    spec fn inv(&self) -> bool {
        self.dotted ==> self.items@.len() >= 1 && !(self.items@.last() is List)
    }

    /// The elements of the list; for a dotted list the last one is its tail.
    pub closed spec fn items(&self) -> Seq<Expr> {
        self.items@
    }

    /// Whether the list is dotted.
    pub closed spec fn dotted(&self) -> bool {
        self.dotted
    }

    /// What the flatness of lists gives: a dotted list has a tail, which is not a list.
    pub open spec fn flat(&self) -> bool {
        self.dotted() ==> self.items().len() >= 1 && !(self.items().last() is List)
    }

    /// Each element of a list is smaller than the list.
    pub proof fn lemma_items_decrease(&self, i: int)
        requires
            0 <= i < self.items().len(),
        ensures
            decreases_to!(*self => self.items()[i]),
    {
        assert(decreases_to!(self.items => self.items@[i]));
    }

    pub proof fn lemma_view(l: List)
        ensures
            expr_view(Expr::List(l)) == ExprV::List(exprs_view(l.items()), l.dotted()),
    {
    }

    /// Holds for every list.
    pub fn lemma_flat(&self)
        ensures
            self.flat(),
    {
        proof {
            use_type_invariant(self);
        }
    }

    /// The list with elements `but_last` followed by the elements of `last`: when `last` is
    /// a list, its elements are spliced in (so the result is flat); when it is another
    /// value, it becomes the tail of a dotted list.
    pub fn new(but_last: Exprs, last: Option<Expr>) -> (l: Self)
        ensures
            l.items() == match last {
                None => but_last@,
                Some(Expr::List(t)) => but_last@ + t.items(),
                Some(e) => but_last@.push(e),
            },
            l.dotted() == match last {
                None => false,
                Some(Expr::List(t)) => t.dotted(),
                Some(_) => true,
            },
    {
        let mut but_last = but_last;
        match last {
            None => List { items: but_last, dotted: false },
            Some(Expr::List(t)) => {
                proof {
                    use_type_invariant(&t);
                }
                let List { items: mut t_items, dotted } = t;
                let ghost old_b = but_last@;
                let ghost ti = t_items@;
                but_last.append(&mut t_items);
                proof {
                    if dotted {
                        assert(but_last@.last() == ti.last());
                    }
                }
                List { items: but_last, dotted }
            },
            Some(e) => {
                but_last.push(e);
                List { items: but_last, dotted: true }
            },
        }
    }

    /// The empty list `'()`.
    pub fn new_empty() -> (l: Self)
        ensures
            l.items() == Seq::<Expr>::empty(),
            !l.dotted(),
    {
        List::new(Vec::new(), None)
    }

    /// The proper list of `list`.
    pub fn new_proper(list: Exprs) -> (l: Self)
        ensures
            l.items() == list@,
            !l.dotted(),
    {
        List::new(list, None)
    }

    /// The list `(but_last ... . last)`, flattened when `last` is a list.
    pub fn new_dotted(but_last: Exprs, last: Expr) -> (l: Self)
        ensures
            l.items() == match last {
                Expr::List(t) => but_last@ + t.items(),
                e => but_last@.push(e),
            },
            l.dotted() == match last {
                Expr::List(t) => t.dotted(),
                _ => true,
            },
    {
        List::new(but_last, Some(last))
    }

    /// The list itself: lists are always flat.
    pub fn flatten(self) -> (l: Self)
        ensures
            l == self,
    {
        self
    }

    /// The number of elements, the tail of a dotted list included.
    pub fn len(&self) -> (n: usize)
        ensures
            n == self.items().len(),
    {
        self.items.len()
    }

    pub fn is_empty(&self) -> (b: bool)
        ensures
            b == (self.items().len() == 0),
    {
        self.items.len() == 0
    }

    pub fn kind(&self) -> (k: ListKind)
        ensures
            k == (if self.dotted() {
                ListKind::Dotted
            } else {
                ListKind::Proper
            }),
    {
        if self.dotted {
            ListKind::Dotted
        } else {
            ListKind::Proper
        }
    }

    pub fn is_proper(&self) -> (b: bool)
        ensures
            b == !self.dotted(),
    {
        !self.dotted
    }

    pub fn is_dotted(&self) -> (b: bool)
        ensures
            b == self.dotted(),
    {
        self.dotted
    }

    /// The first element that is not the tail, if there is one.
    pub fn car(&self) -> (r: Option<&Expr>)
        ensures
            r == (if self.items().len() == 0 || (self.dotted() && self.items().len() == 1) {
                None
            } else {
                Some(&self.items()[0])
            }),
    {
        if self.items.len() == 0 || (self.dotted && self.items.len() == 1) {
            None
        } else {
            Some(&self.items[0])
        }
    }

    /// Removes and returns the first element; the rest stays a list of the same kind,
    /// but that a list that becomes empty is proper.
    pub fn pop_front(&mut self) -> (r: Option<Expr>)
        ensures
            old(self).items().len() == 0 ==> r is None,
            old(self).items().len() == 0 ==> final(self).items() == old(self).items(),
            old(self).items().len() == 0 ==> final(self).dotted() == old(self).dotted(),
            old(self).items().len() > 0 ==> r == Some(old(self).items()[0]),
            old(self).items().len() > 0 ==> final(self).items() == old(self).items().drop_first(),
            old(self).items().len() > 0 ==> final(self).dotted() == (old(self).dotted() && old(self).items().len() > 1),
    {
        proof {
            use_type_invariant(&*self);
        }
        if self.items.len() == 0 {
            return None;
        }
        let was_dotted = self.dotted;
        self.dotted = false;
        let mut items = Vec::new();
        std::mem::swap(&mut items, &mut self.items);
        let ghost old_items = items@;
        let first = items.remove(0);
        let dotted = was_dotted && items.len() > 0;
        proof {
            if dotted {
                assert(items@.last() == old_items.last());
            }
        }
        self.items = items;
        self.dotted = dotted;
        Some(first)
    }

    /// The first element and the rest of the list, or the list itself when it is empty.
    pub fn split_first(self) -> (r: Result<(Expr, List), List>)
        ensures
            self.items().len() == 0 ==> r == Err::<(Expr, List), List>(self),
            self.items().len() > 0 ==> (r matches Ok((first, rest)) && first == self.items()[0]
                && rest.items() == self.items().drop_first() && rest.dotted() == (self.dotted()
                && self.items().len() > 1)),
    {
        if self.items.len() == 0 {
            return Err(self);
        }
        let mut rest = self;
        let first = rest.pop_front();
        match first {
            Some(f) => Ok((f, rest)),
            None => Err(rest),
        }
    }

    /// The tail of a dotted list.
    pub fn last(&self) -> (r: Option<&Expr>)
        ensures
            r == (if self.dotted() {
                Some(&self.items().last())
            } else {
                None
            }),
    {
        proof {
            use_type_invariant(self);
        }
        if self.dotted {
            Some(&self.items[self.items.len() - 1])
        } else {
            None
        }
    }

    /// The elements but the tail of a dotted list.
    pub fn but_last(&self) -> (r: &[Expr])
        ensures
            r@ == (if self.dotted() {
                self.items().drop_last()
            } else {
                self.items()
            }),
    {
        proof {
            use_type_invariant(self);
        }
        if self.dotted {
            vstd::slice::slice_subrange(self.items.as_slice(), 0, self.items.len() - 1)
        } else {
            self.items.as_slice()
        }
    }

    /// All the elements, in order.
    pub fn iter(&self) -> (r: &[Expr])
        ensures
            r@ == self.items(),
    {
        self.items.as_slice()
    }

    /// The elements, the tail of a dotted list included.
    pub fn into_exprs(self) -> (r: Exprs)
        ensures
            r@ == self.items(),
    {
        let List { items, dotted: _ } = self;
        items
    }
}

} // verus!

verus! {

/// The name of the type of a value, as `Expr::kind` reports it.
pub open spec fn kind_name(e: ExprV) -> Seq<char> {
    match e {
        ExprV::Boolean(_) => "boolean"@,
        ExprV::Char(_) => "char"@,
        ExprV::Integer(_) => "integer"@,
        ExprV::Float(_) => "float"@,
        ExprV::Symbol(_) => "symbol"@,
        ExprV::Str(_) => "string"@,
        ExprV::List(_, dotted) => if dotted {
            "dotted list"@
        } else {
            "list"@
        },
        ExprV::Void => "void"@,
        ExprV::Procedure(_) => "procedure"@,
    }
}

/// The elements of the dotted list made of `list`: its last element is the tail, and a
/// tail that is a list has its elements spliced in.
pub open spec fn dotted_items(list: Seq<Expr>) -> Seq<Expr> {
    if list.len() == 0 {
        Seq::empty()
    } else {
        match list.last() {
            Expr::List(t) => list.drop_last() + t.items(),
            _ => list,
        }
    }
}

/// Whether the list made of `list` as a dotted list is dotted.
pub open spec fn dotted_kind(list: Seq<Expr>) -> bool {
    if list.len() == 0 {
        false
    } else {
        match list.last() {
            Expr::List(t) => t.dotted(),
            _ => true,
        }
    }
}

/// The list whose elements are `ys`, proper or, where `dotted`, with the last element as its
/// tail; a tail that is a list has its elements spliced in.
pub open spec fn list_value(ys: Seq<ExprV>, dotted: bool) -> ExprV {
    if !dotted || ys.len() == 0 {
        ExprV::List(ys, false)
    } else {
        match ys.last() {
            ExprV::List(t, d) => ExprV::List(ys.drop_last() + t, d),
            _ => ExprV::List(ys, true),
        }
    }
}

/// The list of `items`, proper or dotted as `dotted` says.
pub fn list_of(items: Exprs, dotted: bool) -> (e: Expr)
    ensures
        e@ == list_value(exprs_view(items@), dotted),
{
    if !dotted {
        return Expr::new_proper_list(items);
    }
    let ghost v = items@;
    proof {
        lemma_exprs_view_len(v);
        if v.len() > 0 {
            lemma_exprs_view_index(v, v.len() - 1);
            lemma_view_variant(v.last());
            assert(exprs_view(v).drop_last() =~= exprs_view(v.drop_last()));
        }
    }
    let e = Expr::new_dotted_list(items);
    proof {
        let l = e->List_0;
        List::lemma_view(l);
        if v.len() > 0 {
            match v.last() {
                Expr::List(t) => {
                    List::lemma_view(t);
                    lemma_exprs_view_add(v.drop_last(), t.items());
                },
                _ => {},
            }
        } else {
            assert(exprs_view(v) =~= Seq::<ExprV>::empty());
        }
    }
    e
}

/// Whether a value counts as true: every value but `#f` does.
pub open spec fn truthy(e: ExprV) -> bool {
    match e {
        ExprV::Boolean(b) => b,
        _ => true,
    }
}

impl Expr {
    /// The empty list `'()`.
    pub fn new_empty_list() -> (e: Self)
        ensures
            e@ == ExprV::List(Seq::empty(), false),
            e matches Expr::List(l) && l.items() == Seq::<Expr>::empty() && !l.dotted(),
    {
        let l = List::new_empty();
        proof {
            List::lemma_view(l);
        }
        Expr::List(l)
    }

    /// The proper list of `list`.
    pub fn new_proper_list(list: Exprs) -> (e: Self)
        ensures
            e@ == ExprV::List(exprs_view(list@), false),
            e matches Expr::List(l) && l.items() == list@ && !l.dotted(),
    {
        let l = List::new_proper(list);
        proof {
            List::lemma_view(l);
        }
        Expr::List(l)
    }

    /// The dotted list whose last element of `list` is the tail; the empty list when `list`
    /// is empty. A tail that is a list is spliced in.
    pub fn new_dotted_list(list: Exprs) -> (e: Self)
        ensures
            e matches Expr::List(l) && l.items() == dotted_items(list@) && l.dotted()
                == dotted_kind(list@),
    {
        let mut list = list;
        let ghost old_list = list@;
        match list.pop() {
            None => Expr::new_empty_list(),
            Some(tail) => {
                proof {
                    if !(tail is List) {
                        assert(list@.push(tail) =~= old_list);
                    }
                }
                Expr::List(List::new_dotted(list, tail))
            },
        }
    }

    /// The list of `list`, of kind `kind`.
    pub fn new_list(list: Exprs, kind: ListKind) -> (e: Self)
        ensures
            kind == ListKind::Proper ==> (e matches Expr::List(l) && l.items() == list@
                && !l.dotted()),
            kind == ListKind::Dotted ==> (e matches Expr::List(l) && l.items() == dotted_items(
                list@,
            ) && l.dotted() == dotted_kind(list@)),
    {
        match kind {
            ListKind::Proper => Expr::new_proper_list(list),
            ListKind::Dotted => Expr::new_dotted_list(list),
        }
    }

    /// A string value.
    pub fn new_string(s: &str) -> (e: Self)
        ensures
            e@ == ExprV::Str(s@),
    {
        Expr::String(String::from_str(s))
    }

    /// A symbol.
    pub fn new_symbol(s: &str) -> (e: Self)
        ensures
            e@ == ExprV::Symbol(s@),
    {
        Expr::Symbol(String::from_str(s))
    }

    /// The name of the type of `self`.
    pub fn kind(&self) -> (s: &'static str)
        ensures
            s@ == kind_name(self@),
    {
        match self {
            Expr::Boolean(_) => "boolean",
            Expr::Char(_) => "char",
            Expr::Integer(_) => "integer",
            Expr::Float(_) => "float",
            Expr::Symbol(_) => "symbol",
            Expr::String(_) => "string",
            Expr::List(list) => {
                proof {
                    List::lemma_view(*list);
                }
                match list.kind() {
                    ListKind::Proper => "list",
                    ListKind::Dotted => "dotted list",
                }
            },
            Expr::Void => "void",
            Expr::Procedure(_) => "procedure",
        }
    }

    /// Whether `self` counts as true: every value but `#f` does.
    pub fn is_truthy(&self) -> (b: bool)
        ensures
            b == truthy(self@),
    {
        match self {
            Expr::Boolean(boolean) => *boolean,
            _ => true,
        }
    }

    pub fn is_symbol(&self) -> (b: bool)
        ensures
            b == (self@ is Symbol),
    {
        matches!(self, Expr::Symbol(_))
    }

    /// Whether `self` is the symbol `name`.
    pub fn is_specific_symbol(&self, name: &str) -> (b: bool)
        ensures
            b == (self@ == ExprV::Symbol(name@)),
    {
        match self {
            Expr::Symbol(sym) => {
                let n = String::from_str(name);
                *sym == n
            },
            _ => false,
        }
    }

    pub fn is_list(&self) -> (b: bool)
        ensures
            b == (self@ is List),
    {
        match self {
            Expr::List(l) => {
                proof {
                    List::lemma_view(*l);
                }
                true
            },
            _ => false,
        }
    }

    /// Whether `self` is the empty list `'()`.
    pub fn is_empty_list(&self) -> (b: bool)
        ensures
            b == (self@ matches ExprV::List(items, _) && items.len() == 0),
    {
        match self {
            Expr::List(l) => {
                proof {
                    List::lemma_view(*l);
                }
                l.is_empty()
            },
            _ => false,
        }
    }

    pub fn is_proper_list(&self) -> (b: bool)
        ensures
            b == (self@ matches ExprV::List(_, dotted) && !dotted),
    {
        match self {
            Expr::List(l) => {
                proof {
                    List::lemma_view(*l);
                }
                l.is_proper()
            },
            _ => false,
        }
    }

    pub fn is_dotted_list(&self) -> (b: bool)
        ensures
            b == (self@ matches ExprV::List(_, dotted) && dotted),
    {
        match self {
            Expr::List(l) => {
                proof {
                    List::lemma_view(*l);
                }
                l.is_dotted()
            },
            _ => false,
        }
    }

    pub fn is_string(&self) -> (b: bool)
        ensures
            b == (self@ is Str),
    {
        matches!(self, Expr::String(_))
    }

    pub fn is_char(&self) -> (b: bool)
        ensures
            b == (self@ is Char),
    {
        matches!(self, Expr::Char(_))
    }

    pub fn is_integer(&self) -> (b: bool)
        ensures
            b == (self@ is Integer),
    {
        matches!(self, Expr::Integer(_))
    }

    pub fn is_float(&self) -> (b: bool)
        ensures
            b == (self@ is Float),
    {
        matches!(self, Expr::Float(_))
    }

    pub fn is_boolean(&self) -> (b: bool)
        ensures
            b == (self@ is Boolean),
    {
        matches!(self, Expr::Boolean(_))
    }

    pub fn is_void(&self) -> (b: bool)
        ensures
            b == (self@ is Void),
    {
        matches!(self, Expr::Void)
    }

    pub fn is_procedure(&self) -> (b: bool)
        ensures
            b == (self@ is Procedure),
    {
        matches!(self, Expr::Procedure(_))
    }

    pub fn into_boolean(self) -> (r: Result<bool, Expr>)
        ensures
            match self {
                Expr::Boolean(b) => r == Ok::<bool, Expr>(b),
                _ => r == Err::<bool, Expr>(self),
            },
    {
        match self {
            Expr::Boolean(boolean) => Ok(boolean),
            _ => Err(self),
        }
    }

    pub fn into_char(self) -> (r: Result<char, Expr>)
        ensures
            match self {
                Expr::Char(c) => r == Ok::<char, Expr>(c),
                _ => r == Err::<char, Expr>(self),
            },
    {
        match self {
            Expr::Char(c) => Ok(c),
            _ => Err(self),
        }
    }

    pub fn into_integer(self) -> (r: Result<i64, Expr>)
        ensures
            match self {
                Expr::Integer(i) => r == Ok::<i64, Expr>(i),
                _ => r == Err::<i64, Expr>(self),
            },
    {
        match self {
            Expr::Integer(i) => Ok(i),
            _ => Err(self),
        }
    }

    pub fn into_symbol(self) -> (r: Result<String, Expr>)
        ensures
            match self {
                Expr::Symbol(s) => r == Ok::<String, Expr>(s),
                _ => r == Err::<String, Expr>(self),
            },
    {
        match self {
            Expr::Symbol(s) => Ok(s),
            _ => Err(self),
        }
    }

    pub fn into_string(self) -> (r: Result<String, Expr>)
        ensures
            match self {
                Expr::String(s) => r == Ok::<String, Expr>(s),
                _ => r == Err::<String, Expr>(self),
            },
    {
        match self {
            Expr::String(s) => Ok(s),
            _ => Err(self),
        }
    }

    pub fn into_list(self) -> (r: Result<List, Expr>)
        ensures
            match self {
                Expr::List(l) => r == Ok::<List, Expr>(l),
                _ => r == Err::<List, Expr>(self),
            },
    {
        match self {
            Expr::List(l) => Ok(l),
            _ => Err(self),
        }
    }

    pub fn into_procedure(self) -> (r: Result<Procedure, Expr>)
        ensures
            match self {
                Expr::Procedure(p) => r == Ok::<Procedure, Expr>(p),
                _ => r == Err::<Procedure, Expr>(self),
            },
    {
        match self {
            Expr::Procedure(p) => Ok(p),
            _ => Err(self),
        }
    }

    pub fn as_list(&self) -> (r: Option<&List>)
        ensures
            match self {
                Expr::List(l) => r == Some(l),
                _ => r is None,
            },
    {
        match self {
            Expr::List(l) => Some(l),
            _ => None,
        }
    }

    /// A copy of `self`.
    pub fn copy(&self) -> (r: Expr)
        ensures
            r@ == self@,
        decreases self,
    {
        match self {
            Expr::Integer(i) => Expr::Integer(*i),
            Expr::Float(s) => Expr::Float(s.clone()),
            Expr::Symbol(s) => Expr::Symbol(s.clone()),
            Expr::String(s) => Expr::String(s.clone()),
            Expr::Char(c) => Expr::Char(*c),
            Expr::Boolean(b) => Expr::Boolean(*b),
            Expr::List(l) => {
                proof {
                    use_type_invariant(l);
                }
                let items = copy_exprs(&l.items);
                proof {
                    lemma_exprs_view_len(l.items@);
                    lemma_exprs_view_len(items@);
                    if l.dotted {
                        let k = items@.len() - 1;
                        lemma_exprs_view_index(items@, k);
                        lemma_exprs_view_index(l.items@, k);
                        lemma_view_keeps_list(items@[k], l.items@[k]);
                    }
                }
                Expr::List(List { items, dotted: l.dotted })
            },
            Expr::Void => Expr::Void,
            Expr::Procedure(p) => Expr::Procedure(p.copy()),
        }
    }
}

proof fn lemma_view_keeps_list(a: Expr, b: Expr)
    requires
        expr_view(a) == expr_view(b),
    ensures
        (a is List) == (b is List),
{
}

/// Copies of the expressions of `v`.
pub fn copy_exprs(v: &Vec<Expr>) -> (r: Vec<Expr>)
    ensures
        exprs_view(r@) == exprs_view(v@),
        r@.len() == v@.len(),
    decreases v,
{
    let mut r: Vec<Expr> = Vec::new();
    let mut i: usize = 0;
    while i < v.len()
        invariant
            0 <= i <= v@.len(),
            r@.len() == i,
            forall|j: int| 0 <= j < i ==> expr_view(#[trigger] r@[j]) == expr_view(v@[j]),
        decreases v@.len() - i,
    {
        proof {
            assert(decreases_to!(v => v@[i as int]));
        }
        let e = v[i].copy();
        r.push(e);
        i = i + 1;
    }
    proof {
        lemma_exprs_view_ext(r@, v@);
    }
    r
}

fn copy_strings(v: &Vec<String>) -> (r: Vec<String>)
    ensures
        r@ == v@,
{
    let mut r: Vec<String> = Vec::new();
    let mut i: usize = 0;
    while i < v.len()
        invariant
            0 <= i <= v@.len(),
            r@ == v@.take(i as int),
        decreases v@.len() - i,
    {
        r.push(v[i].clone());
        assert(v@.take(i + 1) =~= v@.take(i as int).push(v@[i as int]));
        i = i + 1;
    }
    assert(v@.take(v@.len() as int) =~= v@);
    r
}

fn copy_opt_string(s: &Option<String>) -> (r: Option<String>)
    ensures
        r == *s,
{
    match s {
        Some(x) => Some(x.clone()),
        None => None,
    }
}

impl ProcedureParams {
    pub fn copy(&self) -> (r: ProcedureParams)
        ensures
            r.view() == self.view(),
    {
        match self {
            ProcedureParams::Fixed(v) => {
                ProcedureParams::Fixed(copy_strings(v))
            },
            ProcedureParams::Variadic(s) => ProcedureParams::Variadic(s.clone()),
            ProcedureParams::Mixed(v, s) => ProcedureParams::Mixed(copy_strings(v), s.clone()),
        }
    }
}

impl Procedure {
    /// A copy of `self`.
    pub fn copy(&self) -> (r: Procedure)
        ensures
            r@ == self@,
        decreases self,
    {
        match self {
            Procedure::Atomic(a) => Procedure::Atomic(
                AtomicProcedure {
                    name: copy_opt_string(&a.name),
                    kind: a.kind,
                    arity: a.arity,
                    proc: a.proc,
                },
            ),
            Procedure::Compound(c) => {
                let params = c.params.copy();
                let body = copy_exprs(&c.body.body);
                Procedure::Compound(
                    CompoundProcedure {
                        name: copy_opt_string(&c.name),
                        params: params,
                        body: Box::new(Body { body }),
                        env: c.env,
                    },
                )
            },
        }
    }
}

} // verus!

verus! {

/// An expression and its view are of the same variant.
pub proof fn lemma_view_variant(e: Expr)
    ensures
        (e@ is Void) == (e is Void),
        (e@ is List) == (e is List),
        (e@ is Symbol) == (e is Symbol),
        (e@ is Procedure) == (e is Procedure),
        (e@ is Integer) == (e is Integer),
        (e@ is Str) == (e is String),
        (e@ is Char) == (e is Char),
        (e@ is Boolean) == (e is Boolean),
        (e@ is Float) == (e is Float),
{
}

} // verus!

verus! {

/// The name a procedure is shown by: its own, or `anon`.
pub open spec fn shown_name(name: Option<Seq<char>>) -> Seq<char> {
    match name {
        Some(n) => n,
        None => "anon"@,
    }
}

/// How a procedure is displayed.
pub open spec fn display_proc(p: ProcV) -> Seq<char> {
    match p {
        ProcV::Atomic(name, kind, _, _) => if kind == ProcedureKind::SpecialForm {
            "#<special form '"@ + shown_name(name) + "'>"@
        } else {
            "#<atomic procedure '"@ + shown_name(name) + "'>"@
        },
        ProcV::Compound(name, _, _, _) => "#<compound procedure '"@ + shown_name(name) + "'>"@,
    }
}

/// How a value is displayed.
pub open spec fn display(e: ExprV) -> Seq<char>
    decreases e,
{
    match e {
        ExprV::Void => "#<void>"@,
        ExprV::Integer(i) => crate::text::int_decimal(i as int),
        ExprV::Float(s) => s,
        ExprV::Symbol(s) => s,
        ExprV::Str(s) => seq!['"'] + s + seq!['"'],
        ExprV::Char(c) => seq!['\'', c, '\''],
        ExprV::Procedure(p) => display_proc(p),
        ExprV::Boolean(b) => if b {
            "#t"@
        } else {
            "#f"@
        },
        ExprV::List(items, dotted) => if dotted && items.len() > 0 {
            seq!['('] + display_seq(items.drop_last()) + " . "@ + display(items.last()) + seq![')']
        } else {
            seq!['('] + display_seq(items) + seq![')']
        },
    }
}

/// The displays of `items`, separated by single spaces.
pub open spec fn display_seq(items: Seq<ExprV>) -> Seq<char>
    decreases items,
{
    if items.len() == 0 {
        Seq::empty()
    } else if items.len() == 1 {
        display(items[0])
    } else {
        display_seq(items.drop_last()) + seq![' '] + display(items.last())
    }
}

proof fn lemma_display_seq_step(s: Seq<ExprV>, i: int)
    requires
        0 <= i < s.len(),
    ensures
        display_seq(s.take(i + 1)) == display_seq(s.take(i)) + (if i == 0 {
            Seq::<char>::empty()
        } else {
            seq![' ']
        }) + display(s[i]),
{
    assert(s.take(i + 1).drop_last() =~= s.take(i));
    if i == 0 {
        assert(display_seq(s.take(0)) =~= Seq::<char>::empty());
        assert(display_seq(s.take(1)) == display(s[0]));
        assert(Seq::<char>::empty() + Seq::<char>::empty() + display(s[0]) =~= display(s[0]));
    }
}

pub(crate) fn push_str_lit(out: &mut String, s: &str)
    ensures
        final(out)@ == old(out)@ + s@,
{
    out.append(s);
}

/// Appends the display of `e` to `out`.
pub fn write_expr(e: &Expr, out: &mut String)
    ensures
        final(out)@ == old(out)@ + display(e@),
    decreases e,
{
    match e {
        Expr::Void => {
            proof { reveal_strlit("#<void>"); }
            push_str_lit(out, "#<void>");
        },
        Expr::Integer(i) => {
            crate::text::push_int(out, *i);
        },
        Expr::Float(s) => {
            push_str_lit(out, s.as_str());
        },
        Expr::Symbol(s) => {
            push_str_lit(out, s.as_str());
        },
        Expr::String(s) => {
            push_char(out, '"');
            push_str_lit(out, s.as_str());
            push_char(out, '"');
            assert(final(out)@ =~= old(out)@ + display(e@));
        },
        Expr::Char(c) => {
            push_char(out, '\'');
            push_char(out, *c);
            push_char(out, '\'');
            assert(final(out)@ =~= old(out)@ + display(e@));
        },
        Expr::Boolean(b) => {
            proof {
                reveal_strlit("#t");
                reveal_strlit("#f");
            }
            if *b {
                push_str_lit(out, "#t");
            } else {
                push_str_lit(out, "#f");
            }
        },
        Expr::Procedure(p) => {
            write_proc(p, out);
        },
        Expr::List(l) => {
            write_list(l, out);
            proof {
                List::lemma_view(*l);
            }
        },
    }
}

/// Appends the display of the list `l` to `out`.
fn write_list(l: &List, out: &mut String)
    ensures
        final(out)@ == old(out)@ + display(list_view(*l)),
    decreases l,
{
    proof {
        use_type_invariant(l);
        lemma_exprs_view_len(l.items@);
    }
    let ghost vs = exprs_view(l.items@);
    let n = l.items.len();
    let k = if l.dotted {
        n - 1
    } else {
        n
    };
    push_char(out, '(');
    let ghost start = out@;
    let mut i: usize = 0;
    while i < k
        invariant
            k <= n == l.items@.len(),
            vs == exprs_view(l.items@),
            vs.len() == n,
            0 <= i <= k,
            out@ == start + display_seq(vs.take(i as int)),
        decreases k - i,
    {
        proof {
            assert(decreases_to!(l.items => l.items@[i as int]));
            lemma_display_seq_step(vs, i as int);
            lemma_exprs_view_index(l.items@, i as int);
        }
        let ghost before = out@;
        if i > 0 {
            push_char(out, ' ');
        }
        write_expr(&l.items[i], out);
        proof {
            if i > 0 {
                assert(out@ =~= start + display_seq(vs.take(i + 1)));
            } else {
                assert(out@ =~= start + display_seq(vs.take(i + 1)));
            }
        }
        i = i + 1;
    }
    if l.dotted {
        proof {
            assert(decreases_to!(l.items => l.items@[k as int]));
            lemma_exprs_view_index(l.items@, k as int);
            reveal_strlit(" . ");
        }
        push_str_lit(out, " . ");
        write_expr(&l.items[k], out);
    }
    push_char(out, ')');
    proof {
        List::lemma_view(*l);
        if l.dotted {
            assert(vs.take(k as int) =~= vs.drop_last());
        } else {
            assert(vs.take(k as int) =~= vs);
        }
        assert(final(out)@ =~= old(out)@ + display(list_view(*l)));
    }
}

/// Appends the display of `p` to `out`.
pub fn write_proc(p: &Procedure, out: &mut String)
    ensures
        final(out)@ == old(out)@ + display_proc(p@),
{
    let name = match p {
        Procedure::Atomic(a) => &a.name,
        Procedure::Compound(c) => &c.name,
    };
    proof {
        reveal_strlit("#<special form '");
        reveal_strlit("#<atomic procedure '");
        reveal_strlit("#<compound procedure '");
        reveal_strlit("'>");
        reveal_strlit("anon");
    }
    match p {
        Procedure::Atomic(a) => {
            match a.kind {
                ProcedureKind::SpecialForm => push_str_lit(out, "#<special form '"),
                ProcedureKind::Procedure => push_str_lit(out, "#<atomic procedure '"),
            }
        },
        Procedure::Compound(_) => push_str_lit(out, "#<compound procedure '"),
    }
    match name {
        Some(n) => push_str_lit(out, n.as_str()),
        None => push_str_lit(out, "anon"),
    }
    push_str_lit(out, "'>");
    assert(final(out)@ =~= old(out)@ + display_proc(p@));
}

impl Expr {
    /// The display of `self`.
    pub fn to_string(&self) -> (s: String)
        ensures
            s@ == display(self@),
    {
        let mut s = String::new();
        write_expr(self, &mut s);
        assert(s@ =~= display(self@));
        s
    }
}

impl Procedure {
    /// The display of `self`.
    pub fn to_string(&self) -> (s: String)
        ensures
            s@ == display_proc(self@),
    {
        let mut s = String::new();
        write_proc(self, &mut s);
        assert(s@ =~= display_proc(self@));
        s
    }
}

} // verus!

verus! {

/// The conversion of an evaluated value into a Rust value: the value itself back when it
/// is not of the type asked for.
pub trait FromExpr: Sized {
    /// Whether a value with the view `v` converts into `Self`.
    spec fn converts(v: ExprV) -> bool;

    /// Whether `x` is what a value with the view `v` converts into.
    spec fn converted(v: ExprV, x: Self) -> bool;

    /// The view of what is given back when a value with the view `v` does not convert.
    spec fn rejected(v: ExprV) -> ExprV;

    /// Converts `expr` into `Self`, or gives back what does not convert.
    fn from_expr(expr: Expr) -> (r: Result<Self, Expr>)
        ensures
            match r {
                Ok(x) => Self::converts(expr@) && Self::converted(expr@, x),
                Err(e) => !Self::converts(expr@) && e@ == Self::rejected(expr@),
            },
    ;
}

impl FromExpr for () {
    open spec fn converts(v: ExprV) -> bool {
        v is Void
    }

    open spec fn converted(v: ExprV, x: ()) -> bool {
        true
    }

    open spec fn rejected(v: ExprV) -> ExprV {
        v
    }

    fn from_expr(expr: Expr) -> (r: Result<(), Expr>)
        ensures
            expr is Void ==> r == Ok::<(), Expr>(()),
            !(expr is Void) ==> r == Err::<(), Expr>(expr),
    {
        proof {
            lemma_view_variant(expr);
        }
        match expr {
            Expr::Void => Ok(()),
            _ => Err(expr),
        }
    }
}

impl FromExpr for Expr {
    open spec fn converts(v: ExprV) -> bool {
        true
    }

    open spec fn converted(v: ExprV, x: Expr) -> bool {
        x@ == v
    }

    open spec fn rejected(v: ExprV) -> ExprV {
        v
    }

    fn from_expr(expr: Expr) -> (r: Result<Expr, Expr>)
        ensures
            r == Ok::<Expr, Expr>(expr),
    {
        Ok(expr)
    }
}

impl FromExpr for bool {
    open spec fn converts(v: ExprV) -> bool {
        v is Boolean
    }

    open spec fn converted(v: ExprV, x: bool) -> bool {
        v == ExprV::Boolean(x)
    }

    open spec fn rejected(v: ExprV) -> ExprV {
        v
    }

    fn from_expr(expr: Expr) -> (r: Result<bool, Expr>)
        ensures
            match expr {
                Expr::Boolean(b) => r == Ok::<bool, Expr>(b),
                _ => r == Err::<bool, Expr>(expr),
            },
    {
        proof {
            lemma_view_variant(expr);
        }
        expr.into_boolean()
    }
}

impl FromExpr for char {
    open spec fn converts(v: ExprV) -> bool {
        v is Char
    }

    open spec fn converted(v: ExprV, x: char) -> bool {
        v == ExprV::Char(x)
    }

    open spec fn rejected(v: ExprV) -> ExprV {
        v
    }

    fn from_expr(expr: Expr) -> (r: Result<char, Expr>)
        ensures
            match expr {
                Expr::Char(c) => r == Ok::<char, Expr>(c),
                _ => r == Err::<char, Expr>(expr),
            },
    {
        proof {
            lemma_view_variant(expr);
        }
        expr.into_char()
    }
}

impl FromExpr for i64 {
    open spec fn converts(v: ExprV) -> bool {
        v is Integer
    }

    open spec fn converted(v: ExprV, x: i64) -> bool {
        v == ExprV::Integer(x)
    }

    open spec fn rejected(v: ExprV) -> ExprV {
        v
    }

    fn from_expr(expr: Expr) -> (r: Result<i64, Expr>)
        ensures
            match expr {
                Expr::Integer(i) => r == Ok::<i64, Expr>(i),
                _ => r == Err::<i64, Expr>(expr),
            },
    {
        proof {
            lemma_view_variant(expr);
        }
        expr.into_integer()
    }
}

/// A symbol converts to its name.
impl FromExpr for String {
    open spec fn converts(v: ExprV) -> bool {
        v is Symbol
    }

    open spec fn converted(v: ExprV, x: String) -> bool {
        v == ExprV::Symbol(x@)
    }

    open spec fn rejected(v: ExprV) -> ExprV {
        v
    }

    fn from_expr(expr: Expr) -> (r: Result<String, Expr>)
        ensures
            match expr {
                Expr::Symbol(s) => r == Ok::<String, Expr>(s),
                _ => r == Err::<String, Expr>(expr),
            },
    {
        proof {
            lemma_view_variant(expr);
        }
        expr.into_symbol()
    }
}

/// Whether each of `items` converts into `T`.
pub open spec fn all_convert<T: FromExpr>(items: Seq<ExprV>) -> bool {
    forall|i: int| 0 <= i < items.len() ==> #[trigger] T::converts(items[i])
}

/// The position of the first of `items` that does not convert into `T`.
pub open spec fn first_unconverted<T: FromExpr>(items: Seq<ExprV>) -> int {
    choose|k: int|
        0 <= k < items.len() && !T::converts(#[trigger] items[k]) && forall|j: int|
            0 <= j < k ==> T::converts(#[trigger] items[j])
}

/// A proper list converts element by element; where an element does not convert, what it
/// gives back is given back.
impl<T: FromExpr> FromExpr for Vec<T> {
    open spec fn converts(v: ExprV) -> bool {
        v matches ExprV::List(items, dotted) && !dotted && all_convert::<T>(items)
    }

    open spec fn converted(v: ExprV, x: Vec<T>) -> bool {
        v matches ExprV::List(items, dotted) && !dotted && x@.len() == items.len() && forall|i: int|
            0 <= i < items.len() ==> T::converted(items[i], #[trigger] x@[i])
    }

    open spec fn rejected(v: ExprV) -> ExprV {
        match v {
            ExprV::List(items, dotted) => if dotted {
                v
            } else {
                T::rejected(items[first_unconverted::<T>(items)])
            },
            _ => v,
        }
    }

    fn from_expr(expr: Expr) -> (r: Result<Vec<T>, Expr>)
        ensures
            !(expr matches Expr::List(l) && !l.dotted()) ==> r == Err::<Vec<T>, Expr>(expr),
    {
        proof {
            lemma_view_variant(expr);
        }
        match expr {
            Expr::List(l) => {
                proof {
                    List::lemma_view(l);
                }
                if l.is_dotted() {
                    return Err(Expr::List(l));
                }
                let ghost all = l.items();
                let ghost iv = exprs_view(all);
                proof {
                    lemma_exprs_view_len(all);
                    assert(all.skip(0) =~= all);
                }
                let mut items = l.into_exprs();
                let mut out: Vec<T> = Vec::new();
                let mut i: usize = 0;
                let n = items.len();
                while items.len() > 0
                    invariant
                        expr matches Expr::List(ll) && !ll.dotted(),
                        expr@ == ExprV::List(iv, false),
                        iv == exprs_view(all),
                        iv.len() == all.len(),
                        n == all.len(),
                        0 <= i <= n,
                        items@ == all.skip(i as int),
                        out@.len() == i,
                        forall|j: int| 0 <= j < i ==> #[trigger] T::converts(iv[j]),
                        forall|j: int| 0 <= j < i ==> T::converted(iv[j], #[trigger] out@[j]),
                    decreases items@.len(),
                {
                    assert(items@.len() == n - i);
                    let e = items.remove(0);
                    proof {
                        lemma_exprs_view_index(all, i as int);
                        assert(e == all[i as int]);
                        assert(all.skip(i + 1) =~= all.skip(i as int).drop_first());
                    }
                    match T::from_expr(e) {
                        Ok(v) => {
                            out.push(v);
                            proof {
                                assert(out@[i as int] == v);
                            }
                        },
                        Err(e) => {
                            proof {
                                assert(!T::converts(iv[i as int]));
                                assert(!all_convert::<T>(iv));
                                let k = first_unconverted::<T>(iv);
                                assert(0 <= i < iv.len() && !T::converts(iv[i as int]) && forall|j: int|
                                    0 <= j < i ==> T::converts(#[trigger] iv[j]));
                                assert(0 <= k < iv.len() && !T::converts(iv[k]) && forall|j: int|
                                    0 <= j < k ==> T::converts(#[trigger] iv[j]));
                                if k < i {
                                    assert(T::converts(iv[k]));
                                } else if k > i {
                                    assert(T::converts(iv[i as int]));
                                }
                                assert(k == i);
                            }
                            return Err(e);
                        },
                    }
                    i = i + 1;
                }
                proof {
                    assert(all_convert::<T>(iv));
                }
                Ok(out)
            },
            _ => Err(expr),
        }
    }
}

/// A proper list converts as `Vec<T>` does, into a double-ended queue.
impl<T: FromExpr> FromExpr for std::collections::VecDeque<T> {
    open spec fn converts(v: ExprV) -> bool {
        <Vec<T> as FromExpr>::converts(v)
    }

    open spec fn converted(v: ExprV, x: std::collections::VecDeque<T>) -> bool {
        v matches ExprV::List(items, dotted) && !dotted && x@.len() == items.len() && forall|i: int|
            0 <= i < items.len() ==> T::converted(items[i], #[trigger] x@[i])
    }

    open spec fn rejected(v: ExprV) -> ExprV {
        <Vec<T> as FromExpr>::rejected(v)
    }

    fn from_expr(expr: Expr) -> (r: Result<std::collections::VecDeque<T>, Expr>) {
        let mut out = match <Vec<T> as FromExpr>::from_expr(expr) {
            Ok(out) => out,
            Err(e) => {
                return Err(e);
            },
        };
        let ghost all = out@;
        let mut q: std::collections::VecDeque<T> = std::collections::VecDeque::new();
        proof {
            assert(all.skip(0) =~= all);
        }
        while out.len() > 0
            invariant
                q@ + out@ == all,
            decreases out@.len(),
        {
            let ghost q0 = q@;
            let ghost o0 = out@;
            let x = out.remove(0);
            q.push_back(x);
            proof {
                assert(q@ + out@ =~= q0 + o0);
            }
        }
        proof {
            assert(q@ =~= all);
        }
        Ok(q)
    }
}

/// A dotted list of two elements, a pair, converts into a pair; where an element does not
/// convert, what it gives back is given back.
impl<A: FromExpr, B: FromExpr> FromExpr for (A, B) {
    open spec fn converts(v: ExprV) -> bool {
        v matches ExprV::List(items, dotted) && dotted && items.len() == 2 && A::converts(items[0])
            && B::converts(items[1])
    }

    open spec fn converted(v: ExprV, x: (A, B)) -> bool {
        v matches ExprV::List(items, dotted) && dotted && items.len() == 2 && A::converted(
            items[0],
            x.0,
        ) && B::converted(items[1], x.1)
    }

    open spec fn rejected(v: ExprV) -> ExprV {
        match v {
            ExprV::List(items, dotted) => if !dotted || items.len() != 2 {
                v
            } else if !A::converts(items[0]) {
                A::rejected(items[0])
            } else {
                B::rejected(items[1])
            },
            _ => v,
        }
    }

    fn from_expr(expr: Expr) -> (r: Result<(A, B), Expr>) {
        proof {
            lemma_view_variant(expr);
        }
        match expr {
            Expr::List(l) => {
                proof {
                    List::lemma_view(l);
                    lemma_exprs_view_len(l.items());
                }
                if !l.is_dotted() || l.len() != 2 {
                    return Err(Expr::List(l));
                }
                let ghost all = l.items();
                proof {
                    lemma_exprs_view_index(all, 0);
                    lemma_exprs_view_index(all, 1);
                }
                let mut items = l.into_exprs();
                let a = items.remove(0);
                let b = items.remove(0);
                let x = match A::from_expr(a) {
                    Ok(x) => x,
                    Err(e) => {
                        return Err(e);
                    },
                };
                let y = match B::from_expr(b) {
                    Ok(y) => y,
                    Err(e) => {
                        return Err(e);
                    },
                };
                Ok((x, y))
            },
            _ => Err(expr),
        }
    }
}

impl Expr {
    /// Converts `self` into `T`, or gives back what does not convert.
    pub fn into<T: FromExpr>(self) -> (r: Result<T, Expr>)
        ensures
            match r {
                Ok(x) => T::converts(self@) && T::converted(self@, x),
                Err(e) => !T::converts(self@) && e@ == T::rejected(self@),
            },
    {
        T::from_expr(self)
    }
}

} // verus!
