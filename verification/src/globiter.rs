//! The lazy sequence of argument records over a raw command-line buffer.
//!
//! Each record carries the two renderings that the sink built for one
//! argument: the glob pattern, with quoted metacharacters bracket-escaped,
//! and the literal text.

use vstd::prelude::*;

use crate::parser::{next_arg, next_arg_spec, pattern_of, text_of, ArgAccum};

verus! {

/// One argument record: the glob-escaped pattern and the literal text, both
/// as UTF-16 code units.
pub struct Arg {
    pub pattern: Vec<u16>,
    pub text: Vec<u16>,
}

/// Forward-only producer of argument records: each call to `next` runs the
/// tokenizer once against the unconsumed remainder of the buffer.
pub struct GlobArgs {
    line: Vec<u16>,
    pos: usize,
}

impl GlobArgs {
    /// The unconsumed suffix of the buffer.
    pub closed spec fn remaining(&self) -> Seq<u16> {
        self.line@.skip(self.pos as int)
    }

    pub closed spec fn wf(&self) -> bool {
        self.pos <= self.line@.len()
    }

    /// Takes the whole raw command-line buffer, program name included.
    pub fn new(line: Vec<u16>) -> (r: GlobArgs)
        ensures
            r.wf(),
            r.remaining() == line@,
    {
        let r = GlobArgs { line, pos: 0 };
        proof {
            assert(r.remaining() =~= r.line@);
        }
        r
    }

    /// Produces the next argument record, or reports that the buffer is
    /// exhausted.  Total: every buffer yields a deterministic sequence of
    /// records, and the call never fails.
    pub fn next(&mut self) -> (r: Option<Arg>)
        requires
            old(self).wf(),
        ensures
            final(self).wf(),
            match next_arg_spec(old(self).remaining()) {
                None => r is None && final(self).remaining().len() == 0,
                Some(step) => r matches Some(a) && a.pattern@ == pattern_of(step.0) && a.text@
                    == text_of(step.0) && final(self).remaining() == step.1,
            },
    {
        let mut sink = ArgAccum::new();
        let (found, npos) = next_arg(&self.line, self.pos, &mut sink);
        self.pos = npos;
        if found {
            Some(Arg { pattern: sink.pattern, text: sink.text })
        } else {
            None
        }
    }
}

} // verus!
