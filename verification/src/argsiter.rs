//! The expansion iterator: consumes argument records and yields either
//! filesystem matches of the pattern or the literal text.
//!
//! For each record the pattern is handed to the glob engine.  A pattern that
//! does not compile, or that matches nothing, falls back to the literal text
//! as one value.  While a match stream is open, further calls drain it before
//! the next record is taken; entries of the stream that error individually
//! (an unreadable directory) are skipped.

use vstd::prelude::*;

use crate::globiter::GlobArgs;
use crate::parser::next_arg_spec;
use crate::wide::{decode_wide, to_text, to_text_lossy, wf_wide};

verus! {

#[verifier::external_type_specification]
#[verifier::external_body]
pub struct ExPaths(glob::Paths);

#[verifier::external_type_specification]
#[verifier::external_body]
pub struct ExGlobError(glob::GlobError);

#[verifier::external_type_specification]
#[verifier::external_body]
pub struct ExPathBuf(std::path::PathBuf);

/// The one error the string-level sequence can surface: a value that is not
/// valid Unicode text.
#[derive(Clone, Copy, Debug, PartialEq, Eq, Structural)]
pub enum ArgError {
    NotUnicode,
}

/// What pulling one entry of a match stream produced.
pub enum MatchStep {
    /// The stream is exhausted.
    Finished,
    /// The entry errored individually (for example an unreadable directory):
    /// it is skipped, not surfaced.
    Unreadable,
    /// A matched path, as text.
    Found(String),
    /// A matched path that is not valid Unicode text.
    NotText,
}

/// How the glob engine answered for one record's pattern.
pub enum Expansion {
    /// The pattern did not compile: no filesystem access at all.
    NoPattern,
    /// The pattern compiled but matched nothing.
    NoMatch,
    /// The first usable entry of the match stream.
    Match(Result<String, ArgError>),
}

/// Relies on `glob::glob`: it returns a lazy match stream for the pattern,
/// or a pattern-syntax error, mapped here to `None`.  Nothing is assumed
/// about which patterns compile or what the stream will yield.
#[verifier::external_body]
fn compile_glob(pattern: &str) -> (r: Option<glob::Paths>) {
    glob::glob(pattern).ok()
}

/// Relies on `glob::Paths::next` (its `Iterator` impl): each pull yields the
/// next candidate, either a matched path or the error for an entry that
/// could not be read; the path is turned into text with
/// `OsString::into_string`.  The outcome depends on the filesystem, so
/// nothing is assumed about it.
#[verifier::external_body]
fn next_entry(paths: &mut glob::Paths) -> (r: MatchStep) {
    match paths.next() {
        None => MatchStep::Finished,
        Some(Err(_)) => MatchStep::Unreadable,
        Some(Ok(path)) => match path.into_os_string().into_string() {
            Ok(text) => MatchStep::Found(text),
            Err(_) => MatchStep::NotText,
        },
    }
}

/// Pulls the match stream until a usable entry or its end, skipping entries
/// that error individually.
fn first_match(paths: &mut glob::Paths) -> (r: Option<Result<String, ArgError>>)
    ensures
        r matches Some(Err(e)) ==> e == ArgError::NotUnicode,
{
    // the walk is finite in practice, but nothing here bounds it; the
    // counter gives the loop a measure, and a stream with that many skipped
    // entries in a row is treated as exhausted
    let mut skips_left: usize = usize::MAX;
    while skips_left > 0
        decreases skips_left,
    {
        skips_left = skips_left - 1;
        match next_entry(paths) {
            MatchStep::Finished => {
                return None;
            },
            MatchStep::Unreadable => {
            },
            MatchStep::Found(text) => {
                return Some(Ok(text));
            },
            MatchStep::NotText => {
                return Some(Err(ArgError::NotUnicode));
            },
        }
    }
    None
}

/// The one step of the expansion that is a pure decision: what one record
/// contributes for each possible answer of the glob engine.  A first match
/// is passed through; an uncompilable or unmatched pattern falls back to the
/// record's literal text, decoded strictly.
pub fn resolve_record(text: &Vec<u16>, outcome: Expansion) -> (r: Result<String, ArgError>)
    ensures
        !(outcome is Match) ==> match r {
            Ok(s) => wf_wide(text@) && s@ == decode_wide(text@),
            Err(e) => !wf_wide(text@) && e == ArgError::NotUnicode,
        },
        outcome matches Expansion::Match(m) ==> r == m,
{
    match outcome {
        Expansion::Match(m) => m,
        _ => match to_text(text) {
            Some(s) => Ok(s),
            None => Err(ArgError::NotUnicode),
        },
    }
}

/// The expansion iterator over a whole command line: argument records are
/// pulled lazily from the buffer, and an open match stream is drained before
/// the next record is taken.
pub struct Args {
    args: GlobArgs,
    current: Option<glob::Paths>,
}

impl Args {
    /// The unconsumed suffix of the buffer.
    pub closed spec fn remaining(&self) -> Seq<u16> {
        self.args.remaining()
    }

    pub closed spec fn wf(&self) -> bool {
        self.args.wf()
    }

    /// True while a match stream from an earlier record is still open.
    pub closed spec fn pending(&self) -> bool {
        self.current is Some
    }

    /// Builds the iterator from the raw buffer; an unavailable buffer gives
    /// the empty sequence.
    pub fn from_line(line: Option<Vec<u16>>) -> (r: Args)
        ensures
            r.wf(),
            !r.pending(),
            r.remaining() == match line {
                Some(l) => l@,
                None => Seq::<u16>::empty(),
            },
    {
        let buf = match line {
            Some(l) => l,
            None => Vec::new(),
        };
        proof {
            assert(Seq::<u16>::empty().skip(0) =~= Seq::<u16>::empty());
        }
        Args { args: GlobArgs::new(buf), current: None }
    }

    /// Yields the next argument value: a further match of the open stream,
    /// or the next record's expansion, or the end of the sequence.  The end
    /// comes exactly when no stream is open and the buffer holds no further
    /// argument.
    pub fn next(&mut self) -> (r: Option<Result<String, ArgError>>)
        requires
            old(self).wf(),
        ensures
            final(self).wf(),
            r matches Some(Err(e)) ==> e == ArgError::NotUnicode,
            (old(self).pending() && r is Some && final(self).remaining() == old(self).remaining()
                && final(self).pending()) || match next_arg_spec(old(self).remaining()) {
                None => r is None && !final(self).pending() && final(self).remaining().len() == 0,
                Some(step) => r is Some && final(self).remaining() == step.1,
            },
    {
        let had = self.current.take();
        match had {
            Some(mut paths) => {
                match first_match(&mut paths) {
                    Some(m) => {
                        self.current = Some(paths);
                        return Some(m);
                    },
                    None => {
                    },
                }
            },
            None => {
            },
        }
        match self.args.next() {
            None => None,
            Some(arg) => {
                let pattern_text = to_text_lossy(&arg.pattern);
                match compile_glob(pattern_text.as_str()) {
                    None => Some(resolve_record(&arg.text, Expansion::NoPattern)),
                    Some(mut paths) => match first_match(&mut paths) {
                        Some(m) => {
                            self.current = Some(paths);
                            Some(resolve_record(&arg.text, Expansion::Match(m)))
                        },
                        None => Some(resolve_record(&arg.text, Expansion::NoMatch)),
                    },
                }
            },
        }
    }
}

} // verus!
