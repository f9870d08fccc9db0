//! The output procedures `display`, `write`, `newline`, `write-char` and `write-string`.
//! They write to the current output port; no other port can be given, since no value is a
//! port.
use crate::error::{outcome, EvalError};
use crate::expr::{
    display, exprs_view, kind_name, lemma_exprs_view_index, lemma_exprs_view_len,
    lemma_view_variant, push_str_lit, write_expr, Expr, ExprV, Exprs, Primitive,
};
use crate::primitives::data::kind_error;
use crate::text::push_char;
use vstd::prelude::*;

verus! {

/// Whether a built-in writes to the current output port.
pub open spec fn is_output(p: Primitive) -> bool {
    p == Primitive::Display || p == Primitive::Write || p == Primitive::Newline || p
        == Primitive::WriteChar || p == Primitive::WriteString
}

/// What an output procedure gives for the arguments `args`: `#<void>` once it has written,
/// or the error for an argument of the wrong type. An argument in the place of the port is
/// always of the wrong type.
pub open spec fn output_value(p: Primitive, args: Seq<ExprV>) -> Result<ExprV, Seq<char>> {
    match p {
        Primitive::Newline => if args.len() > 0 {
            Err("expected port as newline argument, got "@ + kind_name(args[0]))
        } else {
            Ok(ExprV::Void)
        },
        Primitive::WriteChar => if !(args[0] is Char) {
            Err("expected char as write-char argument, got "@ + kind_name(args[0]))
        } else if args.len() > 1 {
            Err("expected port as second write-char argument, got "@ + kind_name(args[1]))
        } else {
            Ok(ExprV::Void)
        },
        Primitive::WriteString => if !(args[0] is Str) {
            Err("expected string as write-string argument, got "@ + kind_name(args[0]))
        } else if args.len() > 1 {
            Err("expected port as second write-string argument, got "@ + kind_name(args[1]))
        } else {
            Ok(ExprV::Void)
        },
        _ => if args.len() > 1 {
            Err("expected port as second display argument, got "@ + kind_name(args[1]))
        } else {
            Ok(ExprV::Void)
        },
    }
}

/// The text an output procedure writes when it succeeds: the display of a value, a line
/// break, a character, or the characters of a string.
pub open spec fn output_text(p: Primitive, args: Seq<ExprV>) -> Seq<char> {
    match p {
        Primitive::Newline => seq!['\n'],
        Primitive::WriteChar => seq![args[0]->Char_0],
        Primitive::WriteString => args[0]->Str_0,
        _ => display(args[0]),
    }
}

/// Runs the output procedure `p` on `args`, appending what it writes to `out`.
pub fn output_fn(p: Primitive, args: &Exprs, out: &mut String) -> (r: Result<Expr, EvalError>)
    requires
        is_output(p),
        p != Primitive::Newline ==> args@.len() >= 1,
    ensures
        outcome(r, output_value(p, exprs_view(args@))),
        r is Ok ==> final(out)@ == old(out)@ + output_text(p, exprs_view(args@)),
        r is Err ==> final(out)@ == old(out)@,
{
    proof {
        lemma_exprs_view_len(args@);
        if args@.len() > 0 {
            lemma_exprs_view_index(args@, 0);
            lemma_view_variant(args@[0]);
        }
        if args@.len() > 1 {
            lemma_exprs_view_index(args@, 1);
        }
    }
    match p {
        Primitive::Newline => {
            if args.len() > 0 {
                return Err(kind_error("expected port as newline argument, got ", &args[0]));
            }
            push_char(out, '\n');
        },
        Primitive::WriteChar => {
            match &args[0] {
                Expr::Char(c) => {
                    if args.len() > 1 {
                        return Err(kind_error("expected port as second write-char argument, got ", &args[1]));
                    }
                    push_char(out, *c);
                },
                other => {
                    return Err(kind_error("expected char as write-char argument, got ", other));
                },
            }
        },
        Primitive::WriteString => {
            match &args[0] {
                Expr::String(s) => {
                    if args.len() > 1 {
                        return Err(kind_error("expected port as second write-string argument, got ", &args[1]));
                    }
                    push_str_lit(out, s.as_str());
                },
                other => {
                    return Err(kind_error("expected string as write-string argument, got ", other));
                },
            }
        },
        _ => {
            if args.len() > 1 {
                return Err(kind_error("expected port as second display argument, got ", &args[1]));
            }
            write_expr(&args[0], out);
        },
    }
    Ok(Expr::Void)
}

} // verus!
