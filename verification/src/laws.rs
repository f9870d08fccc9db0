//! Properties of evaluation that span several of its steps: lexical scope, the branch that
//! `if` evaluates, what a symbol gives back after `define` and `set!`, and macro expansion
//! where no macro is defined.
use crate::env::{defining_frame, lookup, FrameV};
use crate::env::lookup_macro;
use crate::eval::{
    eval_atom, expand_call_value, expand_each, expand_value, form_step, out_of_steps_message,
    proc_step, quasi_elem, quasi_items, tree_value, Step,
};
use crate::expr::{truthy, EnvRef, ExprV, ParamsV, Primitive, ProcV};
use vstd::prelude::*;

verus! {

/// Applying a compound procedure gives the same outcome in every environment it is called
/// from: its body runs in a new environment whose parent is the one it closes over.
pub proof fn lemma_lexical_scope(
    name: Option<Seq<char>>,
    pv: ParamsV,
    body: Seq<ExprV>,
    cenv: EnvRef,
    vals: Seq<ExprV>,
    frames: Seq<FrameV>,
    env1: int,
    env2: int,
    fuel: nat,
)
    ensures
        proc_step(ProcV::Compound(name, pv, body, cenv), vals, frames, env1, fuel) == proc_step(
            ProcV::Compound(name, pv, body, cenv),
            vals,
            frames,
            env2,
            fuel,
        ),
{
}

/// `if` evaluates only the branch that its test chooses: when the test is true, the
/// alternative makes no difference; when it is false, the consequent makes none.
pub proof fn lemma_if_evaluates_one_branch(
    test: ExprV,
    then1: ExprV,
    then2: ExprV,
    else1: ExprV,
    else2: ExprV,
    frames: Seq<FrameV>,
    env: int,
    fuel: nat,
)
    requires
        fuel >= 3,
        tree_value(test, frames, env, (fuel - 3) as nat) is Some,
    ensures
        ({
            let (res, _) = tree_value(test, frames, env, (fuel - 3) as nat)->0;
            &&& (res matches Ok(v) && truthy(v)) ==> form_step(
                Primitive::If,
                seq![test, then1, else1],
                frames,
                env,
                fuel,
            ) == form_step(Primitive::If, seq![test, then1, else2], frames, env, fuel)
            &&& (res matches Ok(v) && !truthy(v)) ==> form_step(
                Primitive::If,
                seq![test, then1, else1],
                frames,
                env,
                fuel,
            ) == form_step(Primitive::If, seq![test, then2, else1], frames, env, fuel)
        }),
{
}

/// After `define` binds a symbol in an environment, the symbol evaluates there to the value
/// that it was given.
pub proof fn lemma_define_then_read(name: Seq<char>, e: ExprV, frames: Seq<FrameV>, env: int, fuel: nat)
    requires
        fuel >= 3,
        0 <= env,
        tree_value(e, frames, env, (fuel - 3) as nat) matches Some((Ok(_), f2)) && env < f2.len(),
    ensures
        ({
            let (res, f2) = tree_value(e, frames, env, (fuel - 3) as nat)->0;
            let after = form_step(Primitive::Define, seq![ExprV::Symbol(name), e], frames, env, fuel);
            &&& after matches Some((Step::Done(Ok(ExprV::Void)), f3)) && eval_atom(ExprV::Symbol(name), f3, env)
                == res
        }),
{
    let (res, f2) = tree_value(e, frames, env, (fuel - 3) as nat)->0;
    let v = res->Ok_0;
    crate::env::lemma_lookup_after_add(f2, env, name, v);
}

/// After `set!` gives a new value to a symbol that is bound where it is evaluated, the symbol
/// evaluates there to that value.
pub proof fn lemma_set_then_read(name: Seq<char>, e: ExprV, frames: Seq<FrameV>, env: int, fuel: nat)
    requires
        fuel >= 3,
        tree_value(e, frames, env, (fuel - 3) as nat) matches Some((Ok(_), f2)) && lookup(f2, env, name) is Some,
    ensures
        ({
            let (res, f2) = tree_value(e, frames, env, (fuel - 3) as nat)->0;
            let after = form_step(Primitive::SetBang, seq![ExprV::Symbol(name), e], frames, env, fuel);
            &&& after matches Some((Step::Done(Ok(ExprV::Void)), f3)) && eval_atom(ExprV::Symbol(name), f3, env)
                == res
        }),
{
    let (res, f2) = tree_value(e, frames, env, (fuel - 3) as nat)->0;
    let v = res->Ok_0;
    crate::env::lemma_defined_iff_bound(f2, env, name);
    crate::env::lemma_lookup_after_set(f2, env, name, v);
}

/// Whether no macro is visible from `env`.
pub open spec fn no_macros(frames: Seq<FrameV>, env: int) -> bool {
    forall|n: Seq<char>| #[trigger] lookup_macro(frames, env, n) is None
}

/// Whether the expansion `r` gives back `e` unchanged, or runs out of steps, and leaves the
/// environments `frames` as they were.
pub open spec fn expands_to_itself(
    e: ExprV,
    r: Option<(Result<ExprV, Seq<char>>, Seq<FrameV>)>,
    frames: Seq<FrameV>,
) -> bool {
    r == Some((Ok::<ExprV, Seq<char>>(e), frames)) || r == Some(
        (Err::<ExprV, Seq<char>>(out_of_steps_message()), frames),
    )
}

/// How deeply lists nest in `e`: 0 for a value that is no list.
pub open spec fn depth(e: ExprV) -> nat
    decreases e,
{
    match e {
        ExprV::List(items, _) => 1 + depth_items(items),
        _ => 0,
    }
}

/// The greatest depth among `xs`, 0 when there is none.
pub open spec fn depth_items(xs: Seq<ExprV>) -> nat
    decreases xs,
{
    if xs.len() == 0 {
        0
    } else {
        let d = depth(xs.last());
        let r = depth_items(xs.drop_last());
        if d > r {
            d
        } else {
            r
        }
    }
}

proof fn lemma_depth_items_drop_first(xs: Seq<ExprV>)
    requires
        xs.len() > 0,
    ensures
        depth_items(xs.drop_first()) <= depth_items(xs),
    decreases xs.len(),
{
    if xs.len() > 1 {
        lemma_depth_items_drop_first(xs.drop_last());
        assert(xs.drop_first().drop_last() =~= xs.drop_last().drop_first());
        assert(xs.drop_first().last() == xs.last());
    } else {
        assert(xs.drop_first().len() == 0);
    }
}

/// Where no macro is visible, macro expansion gives every expression back unchanged, and
/// changes no environment: with at least twice as many steps as lists nest in it, exactly;
/// with fewer, unless it runs out of steps.
pub proof fn lemma_expand_without_macros(e: ExprV, frames: Seq<FrameV>, env: int, fuel: nat)
    requires
        no_macros(frames, env),
    ensures
        expands_to_itself(e, expand_value(e, frames, env, fuel), frames),
        fuel >= 2 * depth(e) ==> expand_value(e, frames, env, fuel) == Some(
            (Ok::<ExprV, Seq<char>>(e), frames),
        ),
    decreases fuel, 0nat,
{
    match e {
        ExprV::List(cv, dotted) => {
            if !(dotted || cv.len() == 0) && fuel > 0 {
                lemma_expand_call_without_macros(cv, frames, env, (fuel - 1) as nat);
                lemma_depth_items_drop_first(cv);
            }
        },
        _ => {},
    }
}

proof fn lemma_expand_call_without_macros(cv: Seq<ExprV>, frames: Seq<FrameV>, env: int, fuel: nat)
    requires
        no_macros(frames, env),
        cv.len() > 0,
    ensures
        expands_to_itself(ExprV::List(cv, false), expand_call_value(cv, frames, env, fuel), frames),
        fuel >= 2 * depth_items(cv.drop_first()) + 1 ==> expand_call_value(cv, frames, env, fuel) == Some(
            (Ok::<ExprV, Seq<char>>(ExprV::List(cv, false)), frames),
        ),
    decreases fuel, 2nat,
{
    if fuel > 0 {
        lemma_expand_each_without_macros(cv.drop_first(), frames, env, (fuel - 1) as nat);
        match expand_each(cv.drop_first(), frames, env, (fuel - 1) as nat) {
            Some((Ok(xs), f1)) => {
                assert(seq![cv[0]] + cv.drop_first() =~= cv);
                match cv[0] {
                    ExprV::Symbol(n) => {
                        assert(lookup_macro(frames, env, n) is None);
                    },
                    _ => {},
                }
            },
            _ => {},
        }
    }
}

proof fn lemma_expand_each_without_macros(xs: Seq<ExprV>, frames: Seq<FrameV>, env: int, fuel: nat)
    requires
        no_macros(frames, env),
    ensures
        expand_each(xs, frames, env, fuel) == Some((Ok::<Seq<ExprV>, Seq<char>>(xs), frames))
            || expand_each(xs, frames, env, fuel) == Some(
            (Err::<Seq<ExprV>, Seq<char>>(out_of_steps_message()), frames),
        ),
        fuel >= 2 * depth_items(xs) ==> expand_each(xs, frames, env, fuel) == Some(
            (Ok::<Seq<ExprV>, Seq<char>>(xs), frames),
        ),
    decreases fuel, xs.len() + 1,
{
    if xs.len() > 0 {
        lemma_expand_each_without_macros(xs.drop_last(), frames, env, fuel);
        match expand_each(xs.drop_last(), frames, env, fuel) {
            Some((Ok(ys), f1)) => {
                lemma_expand_without_macros(xs.last(), frames, env, fuel);
                assert(xs.drop_last().push(xs.last()) =~= xs);
            },
            _ => {},
        }
    } else {
        assert(xs =~= Seq::<ExprV>::empty());
    }
}

/// `display` applied to a value writes the display of that value to the current output port
/// and gives `#<void>`; what is written so far is kept in front of it.
pub proof fn lemma_display_writes(v: ExprV, frames: Seq<FrameV>, env: int, fuel: nat)
    requires
        fuel >= 2,
        frames.len() > 0,
    ensures
        proc_step(
            ProcV::Atomic(Some("display"@), crate::expr::ProcedureKind::Procedure, crate::expr::Arity::Range(1, 2), Primitive::Display),
            seq![v],
            frames,
            env,
            fuel,
        ) == Some((Step::Done(Ok::<ExprV, Seq<char>>(ExprV::Void)), crate::env::emitted(frames, crate::expr::display(v)))),
        crate::env::written_of(crate::env::emitted(frames, crate::expr::display(v))) == crate::env::written_of(frames)
            + crate::expr::display(v),
{
}

/// Whether `x` is a datum in which no list starts with `unquote` or `unquote-splicing`, and
/// every dotted list ends in a tail that is no list.
pub open spec fn plain(x: ExprV) -> bool
    decreases x,
{
    match x {
        ExprV::List(items, dotted) => (dotted ==> items.len() > 0 && !(items.last() is List)) && !(
        items.len() > 0 && (items[0] == ExprV::Symbol("unquote"@) || items[0] == ExprV::Symbol(
            "unquote-splicing"@,
        ))) && plain_items(items),
        _ => true,
    }
}

/// Whether each of `xs` is `plain`.
pub open spec fn plain_items(xs: Seq<ExprV>) -> bool
    decreases xs,
{
    if xs.len() == 0 {
        true
    } else {
        plain_items(xs.drop_last()) && plain(xs.last())
    }
}

proof fn lemma_quasi_elem_plain(x: ExprV, frames: Seq<FrameV>, env: int, fuel: nat)
    requires
        plain(x),
        fuel >= depth(x) + 1,
    ensures
        quasi_elem(x, frames, env, fuel) == Some((Ok::<Seq<ExprV>, Seq<char>>(seq![x]), frames)),
    decreases fuel, 0nat,
{
    match x {
        ExprV::List(items, d) => {
            lemma_quasi_items_plain(items, frames, env, (fuel - 1) as nat);
        },
        _ => {},
    }
}

proof fn lemma_quasi_items_plain(xs: Seq<ExprV>, frames: Seq<FrameV>, env: int, fuel: nat)
    requires
        plain_items(xs),
        fuel >= depth_items(xs) + 1,
    ensures
        quasi_items(xs, frames, env, fuel) == Some((Ok::<Seq<ExprV>, Seq<char>>(xs), frames)),
    decreases fuel, xs.len() + 1,
{
    if xs.len() > 0 {
        lemma_quasi_items_plain(xs.drop_last(), frames, env, fuel);
        lemma_quasi_elem_plain(xs.last(), frames, env, fuel);
        assert(xs.drop_last() + seq![xs.last()] =~= xs);
    } else {
        assert(xs =~= Seq::<ExprV>::empty());
    }
}

/// Without unquotes, quasiquote is quote: given steps enough for how deeply its lists nest,
/// quasiquoting a datum gives the datum itself, dotted tails included, and changes nothing.
pub proof fn lemma_quasiquote_is_quote(x: ExprV, frames: Seq<FrameV>, env: int, fuel: nat)
    requires
        plain(x),
        fuel >= depth(x) + 2,
    ensures
        form_step(Primitive::Quasiquote, seq![x], frames, env, fuel) == form_step(
            Primitive::Quote,
            seq![x],
            frames,
            env,
            fuel,
        ),
        form_step(Primitive::Quote, seq![x], frames, env, fuel) == Some(
            (Step::Done(Ok::<ExprV, Seq<char>>(x)), frames),
        ),
{
    match x {
        ExprV::List(items, d) => {
            lemma_quasi_items_plain(items, frames, env, (fuel - 2) as nat);
        },
        _ => {},
    }
}

} // verus!
