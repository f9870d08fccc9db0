//! Environments: frames of bindings, each with an optional parent, held in a store.
use crate::expr::{expr_view, proc_view, EnvRef, Expr, ExprV, ProcV, Procedure};
use vstd::prelude::*;

verus! {

/// One environment: its bindings of symbols to values, its macros, and its parent.
pub struct Frame {
    bindings: Vec<(String, Expr)>,
    macros: Vec<(String, Procedure)>,
    parent: Option<EnvRef>,
    output: String,
}

/// The mathematical value of a [`Frame`].
pub struct FrameV {
    pub bindings: Seq<(Seq<char>, ExprV)>,
    pub macros: Seq<(Seq<char>, ProcV)>,
    pub parent: Option<EnvRef>,
    /// The text written to the current output port; the root environment's is the one
    /// written to.
    pub output: Seq<char>,
}

impl View for Frame {
    type V = FrameV;

    closed spec fn view(&self) -> FrameV {
        FrameV {
            bindings: self.bindings@.map_values(|b: (String, Expr)| (b.0@, expr_view(b.1))),
            macros: self.macros@.map_values(|b: (String, Procedure)| (b.0@, proc_view(b.1))),
            parent: self.parent,
            output: self.output@,
        }
    }
}

/// The position of the last entry of `entries` for `name`, if any.
pub open spec fn entry_index<V>(entries: Seq<(Seq<char>, V)>, name: Seq<char>) -> Option<int>
    decreases entries.len(),
{
    if entries.len() == 0 {
        None
    } else if entries.last().0 == name {
        Some(entries.len() - 1)
    } else {
        entry_index(entries.drop_last(), name)
    }
}

/// The value that `entries` binds `name` to: that of the last entry for `name`.
pub open spec fn entry_get<V>(entries: Seq<(Seq<char>, V)>, name: Seq<char>) -> Option<V> {
    match entry_index(entries, name) {
        Some(i) => Some(entries[i].1),
        None => None,
    }
}

/// `entries` with `name` bound to `v`: the last entry for `name` replaced, or a new entry
/// at the end.
pub open spec fn entry_put<V>(entries: Seq<(Seq<char>, V)>, name: Seq<char>, v: V) -> Seq<
    (Seq<char>, V),
> {
    match entry_index(entries, name) {
        Some(i) => entries.update(i, (name, v)),
        None => entries.push((name, v)),
    }
}

/// What `entry_index` is: the last position holding `name`.
pub proof fn lemma_entry_index<V>(entries: Seq<(Seq<char>, V)>, name: Seq<char>)
    ensures
        match entry_index(entries, name) {
            Some(i) => 0 <= i < entries.len() && entries[i].0 == name && forall|j: int|
                i < j < entries.len() ==> #[trigger] entries[j].0 != name,
            None => forall|j: int| 0 <= j < entries.len() ==> #[trigger] entries[j].0 != name,
        },
    decreases entries.len(),
{
    if entries.len() > 0 && entries.last().0 != name {
        lemma_entry_index(entries.drop_last(), name);
        assert forall|j: int| 0 <= j < entries.len() - 1 implies #[trigger] entries[j]
            == entries.drop_last()[j] by {}
    }
}

/// The position that holds `name` last, and no later one, is `entry_index`.
pub proof fn lemma_entry_index_unique<V>(entries: Seq<(Seq<char>, V)>, name: Seq<char>, i: int)
    requires
        0 <= i < entries.len(),
        entries[i].0 == name,
        forall|j: int| i < j < entries.len() ==> #[trigger] entries[j].0 != name,
    ensures
        entry_index(entries, name) == Some(i),
{
    lemma_entry_index(entries, name);
}

/// No position holds `name`: `entry_index` is `None`.
pub proof fn lemma_entry_index_none<V>(entries: Seq<(Seq<char>, V)>, name: Seq<char>)
    requires
        forall|j: int| 0 <= j < entries.len() ==> #[trigger] entries[j].0 != name,
    ensures
        entry_index(entries, name) is None,
{
    lemma_entry_index(entries, name);
    if entry_index(entries, name) is Some {
        let i = entry_index(entries, name)->0;
        assert(entries[i].0 != name);
    }
}

/// The value bound to `name` in environment `env` or, failing that, in its ancestors. A
/// parent link is followed only to an older frame, and a reference past the store finds
/// nothing.
pub open spec fn lookup(frames: Seq<FrameV>, env: int, name: Seq<char>) -> Option<ExprV>
    decreases env,
{
    if env < 0 || env >= frames.len() {
        None
    } else {
        match entry_get(frames[env].bindings, name) {
            Some(v) => Some(v),
            None => match frames[env].parent {
                Some(p) => if p.index < env {
                    lookup(frames, p.index as int, name)
                } else {
                    None
                },
                None => None,
            },
        }
    }
}

/// The macro bound to `name` in `env` or its ancestors.
pub open spec fn lookup_macro(frames: Seq<FrameV>, env: int, name: Seq<char>) -> Option<ProcV>
    decreases env,
{
    if env < 0 || env >= frames.len() {
        None
    } else {
        match entry_get(frames[env].macros, name) {
            Some(v) => Some(v),
            None => match frames[env].parent {
                Some(p) => if p.index < env {
                    lookup_macro(frames, p.index as int, name)
                } else {
                    None
                },
                None => None,
            },
        }
    }
}

/// The frame that holds the binding of `name` seen from `env`, if any.
pub open spec fn defining_frame(frames: Seq<FrameV>, env: int, name: Seq<char>) -> Option<int>
    decreases env,
{
    if env < 0 || env >= frames.len() {
        None
    } else if entry_get(frames[env].bindings, name) is Some {
        Some(env)
    } else {
        match frames[env].parent {
            Some(p) => if p.index < env {
                defining_frame(frames, p.index as int, name)
            } else {
                None
            },
            None => None,
        }
    }
}

/// The environments of the interpreter.
pub struct Store {
    frames: Vec<Frame>,
}

impl View for Store {
    type V = Seq<FrameV>;

    closed spec fn view(&self) -> Seq<FrameV> {
        self.frames@.map_values(|f: Frame| f@)
    }
}

/// After `name` is bound to `v`, `name` gives `v` and every other name what it gave before.
pub proof fn lemma_entry_get_put<V>(entries: Seq<(Seq<char>, V)>, name: Seq<char>, v: V, other: Seq<char>)
    ensures
        entry_get(entry_put(entries, name, v), other) == if other == name {
            Some(v)
        } else {
            entry_get(entries, other)
        },
{
    let put = entry_put(entries, name, v);
    lemma_entry_index(entries, name);
    lemma_entry_index(entries, other);
    lemma_entry_index(put, other);
    match entry_index(entries, name) {
        Some(i) => {
            if other == name {
                lemma_entry_index_unique(put, other, i);
            } else {
                match entry_index(entries, other) {
                    Some(k) => {
                        assert(put[k] == entries[k]);
                        lemma_entry_index_unique(put, other, k);
                    },
                    None => {
                        assert forall|j: int| 0 <= j < put.len() implies #[trigger] put[j].0
                            != other by {
                            if j != i {
                                assert(put[j] == entries[j]);
                            }
                        }
                        lemma_entry_index_none(put, other);
                    },
                }
            }
        },
        None => {
            if other == name {
                lemma_entry_index_unique(put, other, entries.len() as int);
            } else {
                match entry_index(entries, other) {
                    Some(k) => {
                        assert(put[k] == entries[k]);
                        lemma_entry_index_unique(put, other, k);
                    },
                    None => {
                        assert forall|j: int| 0 <= j < put.len() implies #[trigger] put[j].0
                            != other by {
                            if j < entries.len() {
                                assert(put[j] == entries[j]);
                            }
                        }
                        lemma_entry_index_none(put, other);
                    },
                }
            }
        },
    }
}

/// The text written to the current output port: that of the root environment.
pub open spec fn written_of(frames: Seq<FrameV>) -> Seq<char> {
    if frames.len() > 0 {
        frames[0].output
    } else {
        Seq::empty()
    }
}

/// The environments after `text` is written to the current output port (where there is a
/// root environment to hold it).
pub open spec fn emitted(frames: Seq<FrameV>, text: Seq<char>) -> Seq<FrameV> {
    if frames.len() > 0 {
        frames.update(0, FrameV { output: frames[0].output + text, ..frames[0] })
    } else {
        frames
    }
}

/// The environments after the written text is taken.
pub open spec fn emitted_cleared(frames: Seq<FrameV>) -> Seq<FrameV> {
    if frames.len() > 0 {
        frames.update(0, FrameV { output: Seq::empty(), ..frames[0] })
    } else {
        frames
    }
}

impl Store {
    /// The frames of the store.
    pub closed spec fn frames(&self) -> Seq<FrameV> {
        self@
    }

    /// The text written to the current output port and not yet taken.
    pub open spec fn written(&self) -> Seq<char> {
        written_of(self@)
    }

    /// A store with one empty frame, the root environment, and nothing written.
    pub fn new() -> (s: Self)
        ensures
            s@ == seq![FrameV { bindings: Seq::empty(), macros: Seq::empty(), parent: None, output: Seq::empty() }],
            s.written() == Seq::<char>::empty(),
    {
        let mut frames = Vec::new();
        frames.push(Frame { bindings: Vec::new(), macros: Vec::new(), parent: None, output: String::new() });
        let s = Store { frames };
        assert(s@[0].bindings =~= Seq::empty());
        assert(s@[0].macros =~= Seq::empty());
        assert(s@ =~= seq![FrameV { bindings: Seq::empty(), macros: Seq::empty(), parent: None, output: Seq::empty() }]);
        s
    }

    /// Writes `text` to the current output port.
    pub fn emit(&mut self, text: &str)
        ensures
            final(self)@ == emitted(old(self)@, text@),
            old(self)@.len() > 0 ==> final(self).written() == old(self).written() + text@,
    {
        if self.frames.len() > 0 {
            self.frames[0].output.append(text);
            proof {
                assert(self@ =~= emitted(old(self)@, text@));
            }
        }
    }

    /// The text written so far, which is then cleared.
    pub fn take_output(&mut self) -> (s: String)
        ensures
            s@ == old(self).written(),
            final(self)@ == emitted_cleared(old(self)@),
            final(self).written() == Seq::<char>::empty(),
    {
        if self.frames.len() == 0 {
            return String::new();
        }
        let mut taken = String::new();
        std::mem::swap(&mut taken, &mut self.frames[0].output);
        proof {
            assert(self@ =~= emitted_cleared(old(self)@));
        }
        taken
    }

    /// The root environment of the store.
    pub fn root(&self) -> (e: EnvRef)
        ensures
            e.index == 0,
    {
        EnvRef { index: 0 }
    }

    /// The number of frames.
    pub fn len(&self) -> (n: usize)
        ensures
            n == self@.len(),
    {
        self.frames.len()
    }

    fn find(entries: &Vec<(String, Expr)>, name: &str) -> (r: Option<usize>)
        ensures
            match r {
                Some(i) => i < entries@.len() && entries@[i as int].0@ == name@ && forall|j: int|
                    i < j < entries@.len() ==> #[trigger] entries@[j].0@ != name@,
                None => forall|j: int| 0 <= j < entries@.len() ==> #[trigger] entries@[j].0@ != name@,
            },
    {
        let key = String::from_str(name);
        let mut i = entries.len();
        while i > 0
            invariant
                i <= entries@.len(),
                key@ == name@,
                forall|j: int| i <= j < entries@.len() ==> #[trigger] entries@[j].0@ != name@,
            decreases i,
        {
            i = i - 1;
            if entries[i].0 == key {
                return Some(i);
            }
        }
        None
    }

    fn find_macro(entries: &Vec<(String, Procedure)>, name: &str) -> (r: Option<usize>)
        ensures
            match r {
                Some(i) => i < entries@.len() && entries@[i as int].0@ == name@ && forall|j: int|
                    i < j < entries@.len() ==> #[trigger] entries@[j].0@ != name@,
                None => forall|j: int| 0 <= j < entries@.len() ==> #[trigger] entries@[j].0@ != name@,
            },
    {
        let key = String::from_str(name);
        let mut i = entries.len();
        while i > 0
            invariant
                i <= entries@.len(),
                key@ == name@,
                forall|j: int| i <= j < entries@.len() ==> #[trigger] entries@[j].0@ != name@,
            decreases i,
        {
            i = i - 1;
            if entries[i].0 == key {
                return Some(i);
            }
        }
        None
    }
}


/// The value an optional expression holds, by its view.
pub open spec fn opt_expr_view(o: Option<Expr>) -> Option<ExprV> {
    match o {
        Some(e) => Some(expr_view(e)),
        None => None,
    }
}

/// The value an optional procedure holds, by its view.
pub open spec fn opt_proc_view(o: Option<Procedure>) -> Option<ProcV> {
    match o {
        Some(p) => Some(proc_view(p)),
        None => None,
    }
}

/// `frame` with `name` bound to `v` among its bindings.
pub open spec fn frame_bind(frame: FrameV, name: Seq<char>, v: ExprV) -> FrameV {
    FrameV { bindings: entry_put(frame.bindings, name, v), ..frame }
}

/// `frame` with `name` bound to the macro `m`.
pub open spec fn frame_bind_macro(frame: FrameV, name: Seq<char>, m: ProcV) -> FrameV {
    FrameV { macros: entry_put(frame.macros, name, m), ..frame }
}

/// The message of the error that `set!` of an unbound symbol gives.
pub open spec fn undefined_symbol_message(name: Seq<char>) -> Seq<char> {
    "symbol '"@ + name + "' is not defined"@
}

proof fn lemma_entry_found<V>(entries: Seq<(Seq<char>, V)>, name: Seq<char>, v: V, i: int)
    requires
        0 <= i < entries.len(),
        entries[i].0 == name,
        forall|j: int| i < j < entries.len() ==> #[trigger] entries[j].0 != name,
    ensures
        entry_get(entries, name) == Some(entries[i].1),
        entry_put(entries, name, v) == entries.update(i, (name, v)),
{
    lemma_entry_index_unique(entries, name, i);
}

proof fn lemma_entry_absent<V>(entries: Seq<(Seq<char>, V)>, name: Seq<char>, v: V)
    requires
        forall|j: int| 0 <= j < entries.len() ==> #[trigger] entries[j].0 != name,
    ensures
        entry_get(entries, name) is None,
        entry_put(entries, name, v) == entries.push((name, v)),
{
    lemma_entry_index_none(entries, name);
}

impl Frame {
    /// The position of the binding of `name` in this frame, if any.
    fn binding_index(&self, name: &str) -> (r: Option<usize>)
        ensures
            match r {
                Some(i) => i < self@.bindings.len() && self@.bindings[i as int].0 == name@ && forall|
                    j: int,
                | i < j < self@.bindings.len() ==> #[trigger] self@.bindings[j].0 != name@,
                None => forall|j: int|
                    0 <= j < self@.bindings.len() ==> #[trigger] self@.bindings[j].0 != name@,
            },
    {
        let r = Store::find(&self.bindings, name);
        proof {
            assert forall|j: int| 0 <= j < self@.bindings.len() implies #[trigger] self@.bindings[j].0
                == self.bindings@[j].0@ by {}
        }
        r
    }

    /// The position of the macro `name` in this frame, if any.
    fn macro_index(&self, name: &str) -> (r: Option<usize>)
        ensures
            match r {
                Some(i) => i < self@.macros.len() && self@.macros[i as int].0 == name@ && forall|
                    j: int,
                | i < j < self@.macros.len() ==> #[trigger] self@.macros[j].0 != name@,
                None => forall|j: int|
                    0 <= j < self@.macros.len() ==> #[trigger] self@.macros[j].0 != name@,
            },
    {
        let r = Store::find_macro(&self.macros, name);
        proof {
            assert forall|j: int| 0 <= j < self@.macros.len() implies #[trigger] self@.macros[j].0
                == self.macros@[j].0@ by {}
        }
        r
    }
}

impl EnvRef {
    /// Whether this environment has no parent (false for an environment that does not exist).
    pub fn is_root(&self, store: &Store) -> (b: bool)
        ensures
            b == (self.index < store@.len() && store@[self.index as int].parent is None),
    {
        if self.index >= store.frames.len() {
            return false;
        }
        store.frames[self.index].parent.is_none()
    }

    /// A new, empty environment whose parent is this one.
    pub fn extend(&self, store: &mut Store) -> (child: EnvRef)
        requires
            old(store)@.len() < usize::MAX,
        ensures
            child.index == old(store)@.len(),
            final(store).written() == old(store).written(),
            final(store)@ == old(store)@.push(
                FrameV { bindings: Seq::empty(), macros: Seq::empty(), parent: Some(*self), output: Seq::empty() },
            ),
    {
        let child = EnvRef { index: store.frames.len() };
        store.frames.push(Frame { bindings: Vec::new(), macros: Vec::new(), parent: Some(*self), output: String::new() });
        proof {
            let f = FrameV { bindings: Seq::empty(), macros: Seq::empty(), parent: Some(*self), output: Seq::empty() };
            assert(store@.last().bindings =~= Seq::empty());
            assert(store@.last().macros =~= Seq::empty());
            assert(store@ =~= old(store)@.push(f));
        }
        child
    }

    /// A new environment with the bindings, macros and parent of this one.
    pub fn copy(&self, store: &mut Store) -> (c: EnvRef)
        requires
            self.index < old(store)@.len(),
            old(store)@.len() < usize::MAX,
        ensures
            c.index == old(store)@.len(),
            final(store)@ == old(store)@.push(old(store)@[self.index as int]),
            final(store).written() == old(store).written(),
    {
        let f = &store.frames[self.index];
        let mut bindings: Vec<(String, Expr)> = Vec::new();
        let mut i: usize = 0;
        while i < f.bindings.len()
            invariant
                0 <= i <= f.bindings@.len(),
                bindings@.len() == i,
                forall|j: int| 0 <= j < i ==> #[trigger] bindings@[j].0 == f.bindings@[j].0
                    && expr_view(bindings@[j].1) == expr_view(f.bindings@[j].1),
            decreases f.bindings@.len() - i,
        {
            bindings.push((f.bindings[i].0.clone(), f.bindings[i].1.copy()));
            i = i + 1;
        }
        let mut macros: Vec<(String, Procedure)> = Vec::new();
        let mut i: usize = 0;
        while i < f.macros.len()
            invariant
                0 <= i <= f.macros@.len(),
                macros@.len() == i,
                forall|j: int| 0 <= j < i ==> #[trigger] macros@[j].0 == f.macros@[j].0
                    && proc_view(macros@[j].1) == proc_view(f.macros@[j].1),
            decreases f.macros@.len() - i,
        {
            macros.push((f.macros[i].0.clone(), f.macros[i].1.copy()));
            i = i + 1;
        }
        let nf = Frame { bindings, macros, parent: f.parent, output: f.output.clone() };
        proof {
            assert(nf@.bindings =~= f@.bindings);
            assert(nf@.macros =~= f@.macros);
        }
        let c = EnvRef { index: store.frames.len() };
        store.frames.push(nf);
        proof {
            assert(store@ =~= old(store)@.push(old(store)@[self.index as int]));
        }
        c
    }

    /// Whether this environment itself (not an ancestor) binds `name`.
    pub fn has(&self, store: &Store, name: &str) -> (b: bool)
        ensures
            b == (self.index < store@.len() && entry_get(store@[self.index as int].bindings, name@) is Some),
    {
        if self.index >= store.frames.len() {
            return false;
        }
        let f = &store.frames[self.index];
        match f.binding_index(name) {
            Some(i) => {
                proof {
                    lemma_entry_found(f@.bindings, name@, ExprV::Void, i as int);
                }
                true
            },
            None => {
                proof {
                    lemma_entry_absent(f@.bindings, name@, ExprV::Void);
                }
                false
            },
        }
    }

    /// Whether this environment itself (not an ancestor) has the macro `name`.
    pub fn has_macro(&self, store: &Store, name: &str) -> (b: bool)
        ensures
            b == (self.index < store@.len() && entry_get(store@[self.index as int].macros, name@) is Some),
    {
        if self.index >= store.frames.len() {
            return false;
        }
        let f = &store.frames[self.index];
        match f.macro_index(name) {
            Some(i) => {
                proof {
                    lemma_entry_found(f@.macros, name@, f@.macros[i as int].1, i as int);
                }
                true
            },
            None => {
                proof {
                    lemma_entry_absent(f@.macros, name@, ProcV::Atomic(None, crate::expr::ProcedureKind::Procedure, crate::expr::Arity::Any, crate::expr::Primitive::Car));
                }
                false
            },
        }
    }

    /// The value bound to `name` here or in an ancestor: a copy of it.
    pub fn get_expr(&self, store: &Store, name: &str) -> (r: Option<Expr>)
        ensures
            opt_expr_view(r) == lookup(store@, self.index as int, name@),
    {
        if self.index >= store.frames.len() {
            return None;
        }
        let mut cur = self.index;
        loop
            invariant
                cur < store@.len(),
                lookup(store@, self.index as int, name@) == lookup(store@, cur as int, name@),
            decreases cur,
        {
            let f = &store.frames[cur];
            match f.binding_index(name) {
                Some(i) => {
                    proof {
                        lemma_entry_found(f@.bindings, name@, ExprV::Void, i as int);
                    }
                    return Some(f.bindings[i].1.copy());
                },
                None => {
                    proof {
                        lemma_entry_absent(f@.bindings, name@, ExprV::Void);
                    }
                    match f.parent {
                        Some(p) => {
                            if p.index < cur {
                                cur = p.index;
                            } else {
                                return None;
                            }
                        },
                        None => {
                            return None;
                        },
                    }
                },
            }
        }
    }

    /// The value bound to `name` here or in an ancestor, converted into `T` (or given back
    /// when it is not a `T`); `None` when `name` is unbound.
    pub fn get<T: crate::expr::FromExpr>(&self, store: &Store, name: &str) -> (r: Option<Result<T, Expr>>)
        ensures
            r is Some == lookup(store@, self.index as int, name@) is Some,
            r is Some ==> match r->0 {
                Ok(x) => T::converts(lookup(store@, self.index as int, name@)->0) && T::converted(
                    lookup(store@, self.index as int, name@)->0,
                    x,
                ),
                Err(e) => !T::converts(lookup(store@, self.index as int, name@)->0) && e@
                    == T::rejected(lookup(store@, self.index as int, name@)->0),
            },
    {
        match self.get_expr(store, name) {
            Some(e) => Some(T::from_expr(e)),
            None => None,
        }
    }

    /// The macro bound to `name` here or in an ancestor: a copy of it.
    pub fn get_macro(&self, store: &Store, name: &str) -> (r: Option<Procedure>)
        ensures
            opt_proc_view(r) == lookup_macro(store@, self.index as int, name@),
    {
        if self.index >= store.frames.len() {
            return None;
        }
        let mut cur = self.index;
        loop
            invariant
                cur < store@.len(),
                lookup_macro(store@, self.index as int, name@) == lookup_macro(store@, cur as int, name@),
            decreases cur,
        {
            let f = &store.frames[cur];
            match f.macro_index(name) {
                Some(i) => {
                    proof {
                        lemma_entry_found(f@.macros, name@, f@.macros[i as int].1, i as int);
                    }
                    return Some(f.macros[i].1.copy());
                },
                None => {
                    proof {
                        lemma_entry_absent(f@.macros, name@, ProcV::Atomic(None, crate::expr::ProcedureKind::Procedure, crate::expr::Arity::Any, crate::expr::Primitive::Car));
                    }
                    match f.parent {
                        Some(p) => {
                            if p.index < cur {
                                cur = p.index;
                            } else {
                                return None;
                            }
                        },
                        None => {
                            return None;
                        },
                    }
                },
            }
        }
    }

    /// Binds `name` to `expr` in this environment, replacing a binding it has.
    pub fn add(&self, store: &mut Store, name: String, expr: Expr)
        ensures
            self.index < old(store)@.len() ==> final(store)@ == old(store)@.update(
                self.index as int,
                frame_bind(old(store)@[self.index as int], name@, expr@),
            ),
            self.index >= old(store)@.len() ==> final(store)@ == old(store)@,
            final(store).written() == old(store).written(),
    {
        if self.index >= store.frames.len() {
            return;
        }
        let ghost name_v = name@;
        let ghost expr_v = expr@;
        let idx = self.index;
        let r = store.frames[idx].binding_index(name.as_str());
        let ghost old_frame = old(store).frames@[idx as int];
        match r {
            Some(i) => {
                proof {
                    lemma_entry_found(old_frame@.bindings, name_v, expr_v, i as int);
                }
                store.frames[idx].bindings[i] = (name, expr);
            },
            None => {
                proof {
                    lemma_entry_absent(old_frame@.bindings, name_v, expr_v);
                }
                store.frames[idx].bindings.push((name, expr));
            },
        }
        proof {
            let nf = store.frames@[idx as int];
            assert(nf@.bindings =~= entry_put(old_frame@.bindings, name_v, expr_v));
            assert(nf@ == frame_bind(old_frame@, name_v, expr_v));
            assert(store@ =~= old(store)@.update(idx as int, frame_bind(old_frame@, name_v, expr_v)));
        }
    }

    /// Binds the macro `name` to `m` in this environment, replacing a macro it has.
    pub fn add_macro(&self, store: &mut Store, name: String, m: Procedure)
        ensures
            self.index < old(store)@.len() ==> final(store)@ == old(store)@.update(
                self.index as int,
                frame_bind_macro(old(store)@[self.index as int], name@, m@),
            ),
            self.index >= old(store)@.len() ==> final(store)@ == old(store)@,
            final(store).written() == old(store).written(),
    {
        if self.index >= store.frames.len() {
            return;
        }
        let ghost name_v = name@;
        let ghost m_v = m@;
        let idx = self.index;
        let r = store.frames[idx].macro_index(name.as_str());
        let ghost old_frame = old(store).frames@[idx as int];
        match r {
            Some(i) => {
                proof {
                    lemma_entry_found(old_frame@.macros, name_v, m_v, i as int);
                }
                store.frames[idx].macros[i] = (name, m);
            },
            None => {
                proof {
                    lemma_entry_absent(old_frame@.macros, name_v, m_v);
                }
                store.frames[idx].macros.push((name, m));
            },
        }
        proof {
            let nf = store.frames@[idx as int];
            assert(nf@.macros =~= entry_put(old_frame@.macros, name_v, m_v));
            assert(nf@ == frame_bind_macro(old_frame@, name_v, m_v));
            assert(store@ =~= old(store)@.update(idx as int, frame_bind_macro(old_frame@, name_v, m_v)));
        }
    }

    /// Gives a new value to the binding of `name` in the nearest environment, this one or
    /// an ancestor, that has one; fails when there is none.
    pub fn set(&self, store: &mut Store, name: String, expr: Expr) -> (r: Result<(), String>)
        ensures
            final(store).written() == old(store).written(),
            match defining_frame(old(store)@, self.index as int, name@) {
                Some(d) => r is Ok && final(store)@ == old(store)@.update(
                    d,
                    frame_bind(old(store)@[d], name@, expr@),
                ),
                None => (r matches Err(msg) && msg@ == undefined_symbol_message(name@))
                    && final(store)@ == old(store)@,
            },
    {
        if self.index >= store.frames.len() {
            return Err(undefined_symbol(name.as_str()));
        }
        let mut cur = self.index;
        loop
            invariant
                cur < store@.len(),
                store@ == old(store)@,
                store.written() == old(store).written(),
                defining_frame(store@, self.index as int, name@) == defining_frame(
                    store@,
                    cur as int,
                    name@,
                ),
            decreases cur,
        {
            let found = store.frames[cur].binding_index(name.as_str());
            match found {
                Some(i) => {
                    proof {
                        lemma_entry_found(store@[cur as int].bindings, name@, ExprV::Void, i as int);
                    }
                    let env = EnvRef { index: cur };
                    env.add(store, name, expr);
                    return Ok(());
                },
                None => {
                    proof {
                        lemma_entry_absent(store@[cur as int].bindings, name@, ExprV::Void);
                    }
                    match store.frames[cur].parent {
                        Some(p) => {
                            if p.index < cur {
                                cur = p.index;
                            } else {
                                return Err(undefined_symbol(name.as_str()));
                            }
                        },
                        None => {
                            return Err(undefined_symbol(name.as_str()));
                        },
                    }
                },
            }
        }
    }
}

/// The message that `set!` of the unbound symbol `name` gives.
fn undefined_symbol(name: &str) -> (s: String)
    ensures
        s@ == undefined_symbol_message(name@),
{
    let mut s = String::from_str("symbol '");
    s.append(name);
    s.append("' is not defined");
    proof {
        reveal_strlit("symbol '");
        reveal_strlit("' is not defined");
    }
    s
}

/// A lookup from `env` sees only `env` and older frames: changing a newer frame, or adding
/// one, leaves it as it was.
pub proof fn lemma_lookup_ignores_newer(frames: Seq<FrameV>, env: int, k: int, f: FrameV, name: Seq<char>)
    requires
        0 <= env < k <= frames.len(),
    ensures
        k < frames.len() ==> lookup(frames.update(k, f), env, name) == lookup(frames, env, name),
        k == frames.len() ==> lookup(frames.push(f), env, name) == lookup(frames, env, name),
    decreases env,
{
    match frames[env].parent {
        Some(p) => if p.index < env {
            lemma_lookup_ignores_newer(frames, p.index as int, k, f, name);
        },
        None => {},
    }
    if k < frames.len() {
        assert(frames.update(k, f)[env] == frames[env]);
    } else {
        assert(frames.push(f)[env] == frames[env]);
    }
}

/// The environments after `extend` makes a new, empty environment whose parent is `env`.
pub open spec fn extended(frames: Seq<FrameV>, env: EnvRef) -> Seq<FrameV> {
    frames.push(FrameV { bindings: Seq::empty(), macros: Seq::empty(), parent: Some(env), output: Seq::empty() })
}

/// An environment made by `extend` binds nothing of its own: a lookup from it, of any name,
/// gives what the lookup from its parent gives, and a macro lookup likewise; and a binding
/// added to it leaves every lookup from its parent as it was.
pub proof fn lemma_lookup_through_extend(frames: Seq<FrameV>, env: EnvRef, name: Seq<char>)
    requires
        env.index < frames.len(),
    ensures
        forall|n: Seq<char>, v: ExprV| #[trigger] lookup(
            extended(frames, env).update(frames.len() as int, frame_bind(extended(frames, env)[frames.len() as int], n, v)),
            env.index as int,
            name,
        ) == lookup(frames, env.index as int, name),
        lookup(
            frames.push(FrameV { bindings: Seq::empty(), macros: Seq::empty(), parent: Some(env), output: Seq::empty() }),
            frames.len() as int,
            name,
        ) == lookup(frames, env.index as int, name),
        lookup_macro(
            frames.push(FrameV { bindings: Seq::empty(), macros: Seq::empty(), parent: Some(env), output: Seq::empty() }),
            frames.len() as int,
            name,
        ) == lookup_macro(frames, env.index as int, name),
{
    let f = FrameV { bindings: Seq::empty(), macros: Seq::empty(), parent: Some(env), output: Seq::empty() };
    let g = frames.push(f);
    assert(g[frames.len() as int] == f);
    lemma_entry_index_none(Seq::<(Seq<char>, ExprV)>::empty(), name);
    lemma_entry_index_none(Seq::<(Seq<char>, ProcV)>::empty(), name);
    lemma_lookup_ignores_newer(frames, env.index as int, frames.len() as int, f, name);
    lemma_lookup_macro_ignores_newer(frames, env.index as int, f, name);
    assert(g == extended(frames, env));
    assert forall|n: Seq<char>, v: ExprV| #[trigger] lookup(
        extended(frames, env).update(frames.len() as int, frame_bind(extended(frames, env)[frames.len() as int], n, v)),
        env.index as int,
        name,
    ) == lookup(frames, env.index as int, name) by {
        lemma_lookup_ignores_newer(g, env.index as int, frames.len() as int, frame_bind(g[frames.len() as int], n, v), name);
    }
}

proof fn lemma_lookup_macro_ignores_newer(frames: Seq<FrameV>, env: int, f: FrameV, name: Seq<char>)
    requires
        0 <= env < frames.len(),
    ensures
        lookup_macro(frames.push(f), env, name) == lookup_macro(frames, env, name),
    decreases env,
{
    match frames[env].parent {
        Some(p) => if p.index < env {
            lemma_lookup_macro_ignores_newer(frames, p.index as int, f, name);
        },
        None => {},
    }
    assert(frames.push(f)[env] == frames[env]);
}

/// After `add` binds `name` to `v` in `env`, a lookup of `name` from `env` gives `v`.
pub proof fn lemma_lookup_after_add(frames: Seq<FrameV>, env: int, name: Seq<char>, v: ExprV)
    requires
        0 <= env < frames.len(),
    ensures
        lookup(frames.update(env, frame_bind(frames[env], name, v)), env, name) == Some(v),
{
    lemma_entry_get_put(frames[env].bindings, name, v, name);
}

/// Binding `name` in one frame changes no lookup of another name, from any environment.
pub proof fn lemma_lookup_add_other(
    frames: Seq<FrameV>,
    d: int,
    env: int,
    name: Seq<char>,
    v: ExprV,
    other: Seq<char>,
)
    requires
        0 <= d < frames.len(),
        other != name,
    ensures
        lookup(frames.update(d, frame_bind(frames[d], name, v)), env, other) == lookup(
            frames,
            env,
            other,
        ),
    decreases env,
{
    let nf = frames.update(d, frame_bind(frames[d], name, v));
    if 0 <= env < frames.len() {
        lemma_entry_get_put(frames[d].bindings, name, v, other);
        match frames[env].parent {
            Some(p) => if p.index < env {
                lemma_lookup_add_other(frames, d, p.index as int, name, v, other);
            },
            None => {},
        }
        assert(nf[env].parent == frames[env].parent);
    }
}

/// A name is bound, seen from `env`, exactly when some frame defines it.
pub proof fn lemma_defined_iff_bound(frames: Seq<FrameV>, env: int, name: Seq<char>)
    ensures
        (defining_frame(frames, env, name) is Some) == (lookup(frames, env, name) is Some),
        match defining_frame(frames, env, name) {
            Some(d) => 0 <= d <= env < frames.len() && lookup(frames, env, name) == entry_get(
                frames[d].bindings,
                name,
            ),
            None => true,
        },
    decreases env,
{
    if 0 <= env < frames.len() {
        match frames[env].parent {
            Some(p) => if p.index < env {
                lemma_defined_iff_bound(frames, p.index as int, name);
            },
            None => {},
        }
    }
}

/// After `set` gives `name` the value `v` in the frame that defines it, a lookup of `name`
/// from `env` gives `v`.
pub proof fn lemma_lookup_after_set(frames: Seq<FrameV>, env: int, name: Seq<char>, v: ExprV)
    requires
        defining_frame(frames, env, name) is Some,
    ensures
        ({
            let d = defining_frame(frames, env, name)->0;
            lookup(frames.update(d, frame_bind(frames[d], name, v)), env, name) == Some(v)
        }),
    decreases env,
{
    let d = defining_frame(frames, env, name)->0;
    lemma_defined_iff_bound(frames, env, name);
    let nf = frames.update(d, frame_bind(frames[d], name, v));
    lemma_entry_get_put(frames[d].bindings, name, v, name);
    if d != env {
        let p = frames[env].parent->0;
        lemma_lookup_after_set(frames, p.index as int, name, v);
        assert(nf[env] == frames[env]);
    }
}

} // verus!
