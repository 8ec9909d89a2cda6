//! Splits a raw command-line buffer of 16-bit code units into arguments,
//! following the quoting dialect of the Windows native tokenizer, and expands
//! each argument against the filesystem as a glob pattern, falling back to
//! the literal text when the pattern is invalid or matches nothing.
//!
//! The buffer itself comes from the platform (or from a test); everything
//! from the buffer onward is handled here: the quoting state machine, the
//! glob-escaping of quoted metacharacters, and the lazy expansion of each
//! argument against the filesystem.

pub mod argsiter;
pub mod globiter;
pub mod parser;
pub mod wide;

pub use argsiter::{resolve_record, ArgError, Args, Expansion};
pub use globiter::{Arg, GlobArgs};

use vstd::prelude::*;

use crate::parser::{
    args_spec, join_units, lemma_join_units_push, lemma_renders_of_push, next_arg_spec,
    patterns_view, render_of, renders_of, texts_view, SEMICOLON,
};
use crate::wide::{decode_wide_lossy, encode_wide, to_text_lossy, utf16_of};

verus! {

/// The glob-expanded argument values of the given raw command line, as a
/// lazy sequence of strings.  An unavailable buffer gives the empty
/// sequence.
pub fn args(line: Option<Vec<u16>>) -> (r: Args)
    ensures
        r.wf(),
        !r.pending(),
        r.remaining() == match line {
            Some(l) => l@,
            None => Seq::<u16>::empty(),
        },
{
    Args::from_line(line)
}

/// The argument records of the given raw command line, with quoted glob
/// metacharacters escaped in each record's pattern.  An unavailable buffer
/// gives no records at all.
pub fn globs(line: Option<Vec<u16>>) -> (r: Option<GlobArgs>)
    ensures
        match line {
            None => r is None,
            Some(l) => r matches Some(g) && g.wf() && g.remaining() == l@,
        },
{
    match line {
        None => None,
        Some(l) => Some(GlobArgs::new(l)),
    }
}

/// Drains the record sequence and joins the chosen rendering of every
/// argument with a semicolon.
fn join_args(args: GlobArgs, want_pattern: bool) -> (r: Vec<u16>)
    requires
        args.wf(),
    ensures
        r@ == join_units(renders_of(args_spec(args.remaining()), want_pattern), SEMICOLON),
{
    let ghost line0 = args.remaining();
    let mut ga = args;
    let mut out: Vec<u16> = Vec::new();
    let mut first: bool = true;
    let ghost mut taken: Seq<Seq<crate::parser::Emit>> = Seq::empty();
    loop
        invariant
            ga.wf(),
            args_spec(line0) == taken + args_spec(ga.remaining()),
            out@ == join_units(renders_of(taken, want_pattern), SEMICOLON),
            first <==> taken.len() == 0,
        ensures
            args_spec(line0) == taken,
            out@ == join_units(renders_of(taken, want_pattern), SEMICOLON),
        decreases ga.remaining().len(),
    {
        let ghost rem0 = ga.remaining();
        match ga.next() {
            None => {
                proof {
                    assert(args_spec(rem0) == Seq::<Seq<crate::parser::Emit>>::empty());
                    assert(args_spec(line0) =~= taken);
                }
                break;
            },
            Some(arg) => {
                proof {
                    crate::parser::lemma_next_arg_consumes(rem0);
                }
                let ghost step = next_arg_spec(rem0).unwrap();
                if !first {
                    out.push(SEMICOLON);
                }
                let mut part = if want_pattern {
                    arg.pattern
                } else {
                    arg.text
                };
                out.append(&mut part);
                proof {
                    let rendered = render_of(step.0, want_pattern);
                    lemma_renders_of_push(taken, want_pattern, step.0);
                    lemma_join_units_push(renders_of(taken, want_pattern), SEMICOLON, rendered);
                    assert(args_spec(rem0) == seq![step.0] + args_spec(step.1));
                    assert(taken + (seq![step.0] + args_spec(step.1)) =~= taken.push(step.0)
                        + args_spec(step.1));
                    if taken.len() == 0 {
                        assert(out@ =~= rendered);
                    } else {
                        assert(out@ =~= join_units(renders_of(taken, want_pattern), SEMICOLON)
                            + seq![SEMICOLON] + rendered);
                    }
                    taken = taken.push(step.0);
                }
                first = false;
            },
        }
    }
    out
}

/// The glob-pattern renderings of all arguments of the line, joined with a
/// semicolon and decoded to text.
pub fn parsed(s: &str) -> (r: String)
    ensures
        r@ == decode_wide_lossy(join_units(patterns_view(utf16_of(s@)), SEMICOLON)),
{
    let units = encode_wide(s);
    let ga = GlobArgs::new(units);
    let joined = join_args(ga, true);
    to_text_lossy(&joined)
}

/// The literal-text renderings of all arguments of the line, joined with a
/// semicolon and decoded to text.
pub fn unquoted(s: &str) -> (r: String)
    ensures
        r@ == decode_wide_lossy(join_units(texts_view(utf16_of(s@)), SEMICOLON)),
{
    let units = encode_wide(s);
    let ga = GlobArgs::new(units);
    let joined = join_args(ga, false);
    to_text_lossy(&joined)
}

} // verus!
