//! The quoting state machine that splits a raw command-line buffer into
//! arguments.
//!
//! The dialect is the one of the Windows native tokenizer: space and tab
//! separate arguments when not quoted; a quote toggles the quoting state; a
//! run of `n` backslashes immediately before a quote collapses to `n / 2`
//! literal backslashes, and when `n` is odd the quote itself becomes data;
//! inside a quoted region a doubled quote emits one literal quote and closes
//! the region; an unterminated quote simply ends with the buffer.
//!
//! Everything an argument is made of is modelled as a sequence of emissions:
//! the code unit kept, together with the quoting state at the moment it was
//! kept.  The sink that builds the two renderings of an argument (glob
//! pattern and literal text) is driven by those emissions.

use vstd::prelude::*;

verus! {

pub const SPACE: u16 = 32;
pub const TAB: u16 = 9;
pub const QUOTE: u16 = 34;
pub const BACKSLASH: u16 = 92;
pub const STAR: u16 = 42;
pub const QMARK: u16 = 63;
pub const LBRACKET: u16 = 91;
pub const RBRACKET: u16 = 93;
pub const SEMICOLON: u16 = 59;

/// One code unit kept as part of the current argument, with the quoting
/// state at the moment it was kept.
pub struct Emit {
    pub unit: u16,
    pub quoted: bool,
}

pub open spec fn is_separator(u: u16) -> bool {
    u == SPACE || u == TAB
}

/// The four glob metacharacters that quoting protects from expansion.
pub open spec fn is_glob_meta(u: u16) -> bool {
    u == STAR || u == QMARK || u == LBRACKET || u == RBRACKET
}

/// Length of the run of separators at the head of the buffer.
pub open spec fn sep_count(line: Seq<u16>) -> nat
    decreases line.len(),
{
    if line.len() > 0 && is_separator(line[0]) {
        (sep_count(line.skip(1)) + 1) as nat
    } else {
        0
    }
}

/// Length of the run of backslashes at the head of the buffer.
pub open spec fn backslash_count(line: Seq<u16>) -> nat
    decreases line.len(),
{
    if line.len() > 0 && line[0] == BACKSLASH {
        (backslash_count(line.skip(1)) + 1) as nat
    } else {
        0
    }
}

pub proof fn lemma_sep_count_le(line: Seq<u16>)
    ensures
        sep_count(line) <= line.len(),
    decreases line.len(),
{
    if line.len() > 0 && is_separator(line[0]) {
        lemma_sep_count_le(line.skip(1));
    }
}

pub proof fn lemma_backslash_count_le(line: Seq<u16>)
    ensures
        backslash_count(line) <= line.len(),
    decreases line.len(),
{
    if line.len() > 0 && line[0] == BACKSLASH {
        lemma_backslash_count_le(line.skip(1));
    }
}

/// A run of separators observed unit by unit has exactly the length that
/// `sep_count` gives.
pub proof fn lemma_sep_count_is_run(line: Seq<u16>, n: nat)
    requires
        n <= line.len(),
        forall|k: int| 0 <= k < n ==> is_separator(#[trigger] line[k]),
        n < line.len() ==> !is_separator(line[n as int]),
    ensures
        sep_count(line) == n,
    decreases n,
{
    if n == 0 {
    } else {
        assert(is_separator(line[0]));
        assert(forall|k: int|
            0 <= k < n - 1 ==> is_separator(#[trigger] line.skip(1)[k]) == is_separator(
                line[k + 1],
            ));
        lemma_sep_count_is_run(line.skip(1), (n - 1) as nat);
    }
}

/// A run of backslashes observed unit by unit has exactly the length that
/// `backslash_count` gives.
pub proof fn lemma_backslash_count_is_run(line: Seq<u16>, n: nat)
    requires
        n <= line.len(),
        forall|k: int| 0 <= k < n ==> #[trigger] line[k] == BACKSLASH,
        n < line.len() ==> line[n as int] != BACKSLASH,
    ensures
        backslash_count(line) == n,
    decreases n,
{
    if n == 0 {
    } else {
        assert(line[0] == BACKSLASH);
        assert(forall|k: int|
            0 <= k < n - 1 ==> #[trigger] line.skip(1)[k] == line[k + 1]);
        lemma_backslash_count_is_run(line.skip(1), (n - 1) as nat);
    }
}

/// The buffer with its leading separators removed.
pub open spec fn skip_separators(line: Seq<u16>) -> Seq<u16> {
    line.skip(sep_count(line) as int)
}

/// `n` literal backslashes, emitted under the given quoting state.
pub open spec fn backslash_emits(n: nat, quoted: bool) -> Seq<Emit> {
    Seq::new(n, |i: int| Emit { unit: BACKSLASH, quoted })
}

/// Runs the quoting state machine over the buffer until the current argument
/// ends: at an unquoted separator or at the end of the buffer.  Returns the
/// emissions that make up the argument and the unconsumed remainder.
pub open spec fn tokenize_arg(line: Seq<u16>, quoted: bool) -> (Seq<Emit>, Seq<u16>)
    decreases line.len(),
    via tokenize_arg_decreases
{
    if line.len() == 0 {
        (Seq::empty(), line)
    } else if !quoted && is_separator(line[0]) {
        (Seq::empty(), line)
    } else if line[0] == QUOTE {
        if quoted && line.len() >= 2 && line[1] == QUOTE {
            // a doubled quote inside a quoted region: one literal quote,
            // and the region closes
            let tail = tokenize_arg(line.skip(2), false);
            (seq![Emit { unit: QUOTE, quoted: true }] + tail.0, tail.1)
        } else {
            tokenize_arg(line.skip(1), !quoted)
        }
    } else if line[0] == BACKSLASH {
        let n = backslash_count(line) as int;
        if n < line.len() && line[n] == QUOTE {
            if n % 2 == 1 {
                // odd run before a quote: half the backslashes, then the
                // quote itself as data; the quoting state is unchanged
                let tail = tokenize_arg(line.skip(n + 1), quoted);
                (
                    backslash_emits((n / 2) as nat, quoted) + seq![Emit { unit: QUOTE, quoted }]
                        + tail.0,
                    tail.1,
                )
            } else {
                // even run before a quote: half the backslashes, and the
                // quote acts as a closing delimiter
                let tail = tokenize_arg(line.skip(n + 1), false);
                (backslash_emits((n / 2) as nat, quoted) + tail.0, tail.1)
            }
        } else {
            // backslashes not followed by a quote are plain data
            let tail = tokenize_arg(line.skip(n), quoted);
            (backslash_emits(n as nat, quoted) + tail.0, tail.1)
        }
    } else {
        let tail = tokenize_arg(line.skip(1), quoted);
        (seq![Emit { unit: line[0], quoted }] + tail.0, tail.1)
    }
}

#[via_fn]
proof fn tokenize_arg_decreases(line: Seq<u16>, quoted: bool) {
    lemma_backslash_count_le(line);
}

/// One tokenizer call: skip separators, then either report the end of the
/// buffer or produce the next argument and the remainder.
pub open spec fn next_arg_spec(line: Seq<u16>) -> Option<(Seq<Emit>, Seq<u16>)> {
    let t = skip_separators(line);
    if t.len() == 0 {
        None
    } else {
        Some(tokenize_arg(t, false))
    }
}

pub proof fn lemma_tokenize_arg_rest_le(line: Seq<u16>, quoted: bool)
    ensures
        tokenize_arg(line, quoted).1.len() <= line.len(),
    decreases line.len(),
{
    lemma_backslash_count_le(line);
    if line.len() == 0 {
    } else if !quoted && is_separator(line[0]) {
    } else if line[0] == QUOTE {
        if quoted && line.len() >= 2 && line[1] == QUOTE {
            lemma_tokenize_arg_rest_le(line.skip(2), false);
        } else {
            lemma_tokenize_arg_rest_le(line.skip(1), !quoted);
        }
    } else if line[0] == BACKSLASH {
        let n = backslash_count(line) as int;
        if n < line.len() && line[n] == QUOTE {
            if n % 2 == 1 {
                lemma_tokenize_arg_rest_le(line.skip(n + 1), quoted);
            } else {
                lemma_tokenize_arg_rest_le(line.skip(n + 1), false);
            }
        } else {
            lemma_tokenize_arg_rest_le(line.skip(n), quoted);
        }
    } else {
        lemma_tokenize_arg_rest_le(line.skip(1), quoted);
    }
}

/// Producing an argument consumes at least one unit of the buffer.
pub proof fn lemma_next_arg_consumes(line: Seq<u16>)
    requires
        next_arg_spec(line) is Some,
    ensures
        next_arg_spec(line).unwrap().1.len() < line.len(),
{
    lemma_sep_count_le(line);
    let t = skip_separators(line);
    let sc = sep_count(line) as int;
    assert(t.len() == line.len() - sc);
    assert(t.len() > 0);
    if sc < line.len() {
        lemma_sep_count_is_head(line);
    }
    assert(!is_separator(t[0]));
    lemma_tokenize_arg_progress(t, false);
}

/// After skipping the separator run, the head of what is left is not a
/// separator.
proof fn lemma_sep_count_is_head(line: Seq<u16>)
    requires
        sep_count(line) < line.len(),
    ensures
        !is_separator(line[sep_count(line) as int]),
    decreases line.len(),
{
    if line.len() > 0 && is_separator(line[0]) {
        lemma_sep_count_is_head(line.skip(1));
    }
}

proof fn lemma_tokenize_arg_progress(line: Seq<u16>, quoted: bool)
    requires
        line.len() > 0,
        quoted || !is_separator(line[0]),
    ensures
        tokenize_arg(line, quoted).1.len() < line.len(),
{
    lemma_backslash_count_le(line);
    if line[0] == QUOTE {
        if quoted && line.len() >= 2 && line[1] == QUOTE {
            lemma_tokenize_arg_rest_le(line.skip(2), false);
        } else {
            lemma_tokenize_arg_rest_le(line.skip(1), !quoted);
        }
    } else if line[0] == BACKSLASH {
        let n = backslash_count(line) as int;
        assert(n >= 1);
        if n < line.len() && line[n] == QUOTE {
            if n % 2 == 1 {
                lemma_tokenize_arg_rest_le(line.skip(n + 1), quoted);
            } else {
                lemma_tokenize_arg_rest_le(line.skip(n + 1), false);
            }
        } else {
            lemma_tokenize_arg_rest_le(line.skip(n), quoted);
        }
    } else {
        lemma_tokenize_arg_rest_le(line.skip(1), quoted);
    }
}

/// The whole buffer as a sequence of arguments, each given by its emissions.
pub open spec fn args_spec(line: Seq<u16>) -> Seq<Seq<Emit>>
    decreases line.len(),
    via args_spec_decreases
{
    match next_arg_spec(line) {
        None => Seq::empty(),
        Some(step) => seq![step.0] + args_spec(step.1),
    }
}

#[via_fn]
proof fn args_spec_decreases(line: Seq<u16>) {
    if next_arg_spec(line) is Some {
        lemma_next_arg_consumes(line);
    }
}

/// What one emission contributes to the glob pattern: a metacharacter kept
/// while quoted is wrapped in a single-character bracket class; everything
/// else passes through.
pub open spec fn escape_unit(e: Emit) -> Seq<u16> {
    if e.quoted && is_glob_meta(e.unit) {
        seq![LBRACKET, e.unit, RBRACKET]
    } else {
        seq![e.unit]
    }
}

/// The glob-pattern rendering of an argument's emissions.
pub open spec fn pattern_of(emits: Seq<Emit>) -> Seq<u16>
    decreases emits.len(),
{
    if emits.len() == 0 {
        Seq::empty()
    } else {
        escape_unit(emits[0]) + pattern_of(emits.skip(1))
    }
}

/// The literal-text rendering of an argument's emissions.
pub open spec fn text_of(emits: Seq<Emit>) -> Seq<u16> {
    emits.map_values(|e: Emit| e.unit)
}

pub proof fn lemma_pattern_of_push(emits: Seq<Emit>, e: Emit)
    ensures
        pattern_of(emits.push(e)) == pattern_of(emits) + escape_unit(e),
    decreases emits.len(),
{
    if emits.len() == 0 {
        reveal_with_fuel(pattern_of, 2);
        assert(emits.push(e).skip(1) =~= Seq::<Emit>::empty());
        assert(emits.push(e)[0] == e);
        assert(pattern_of(emits.push(e)) =~= pattern_of(emits) + escape_unit(e));
    } else {
        assert(emits.push(e).skip(1) =~= emits.skip(1).push(e));
        lemma_pattern_of_push(emits.skip(1), e);
        assert(emits.push(e)[0] == emits[0]);
        assert(pattern_of(emits.push(e)) == escape_unit(emits[0]) + (pattern_of(emits.skip(1))
            + escape_unit(e)));
        assert(escape_unit(emits[0]) + (pattern_of(emits.skip(1)) + escape_unit(e)) =~= (
        escape_unit(emits[0]) + pattern_of(emits.skip(1))) + escape_unit(e));
    }
}

pub proof fn lemma_text_of_push(emits: Seq<Emit>, e: Emit)
    ensures
        text_of(emits.push(e)) == text_of(emits).push(e.unit),
{
    assert(text_of(emits.push(e)) =~= text_of(emits).push(e.unit));
}

/// One of the two renderings of an argument: its glob pattern or its
/// literal text.
pub open spec fn render_of(emits: Seq<Emit>, want_pattern: bool) -> Seq<u16> {
    if want_pattern {
        pattern_of(emits)
    } else {
        text_of(emits)
    }
}

/// The chosen rendering of every argument in the list.
pub open spec fn renders_of(argl: Seq<Seq<Emit>>, want_pattern: bool) -> Seq<Seq<u16>>
    decreases argl.len(),
{
    if argl.len() == 0 {
        Seq::empty()
    } else {
        seq![render_of(argl[0], want_pattern)] + renders_of(argl.skip(1), want_pattern)
    }
}

pub proof fn lemma_renders_of_push(argl: Seq<Seq<Emit>>, want_pattern: bool, emits: Seq<Emit>)
    ensures
        renders_of(argl.push(emits), want_pattern) == renders_of(argl, want_pattern).push(
            render_of(emits, want_pattern),
        ),
    decreases argl.len(),
{
    if argl.len() == 0 {
        reveal_with_fuel(renders_of, 2);
        assert(argl.push(emits).skip(1) =~= Seq::<Seq<Emit>>::empty());
        assert(argl.push(emits)[0] == emits);
        assert(renders_of(argl.push(emits), want_pattern) =~= renders_of(argl, want_pattern).push(
            render_of(emits, want_pattern),
        ));
    } else {
        assert(argl.push(emits).skip(1) =~= argl.skip(1).push(emits));
        lemma_renders_of_push(argl.skip(1), want_pattern, emits);
        assert(argl.push(emits)[0] == argl[0]);
        assert(renders_of(argl.push(emits), want_pattern) =~= renders_of(argl, want_pattern).push(
            render_of(emits, want_pattern),
        ));
    }
}

/// The glob patterns of all the arguments of the buffer.
pub open spec fn patterns_view(line: Seq<u16>) -> Seq<Seq<u16>> {
    renders_of(args_spec(line), true)
}

/// The literal texts of all the arguments of the buffer.
pub open spec fn texts_view(line: Seq<u16>) -> Seq<Seq<u16>> {
    renders_of(args_spec(line), false)
}

/// The sink driven by the tokenizer: it builds the two renderings of the
/// current argument in lockstep, one sink call per code unit kept.
pub struct ArgAccum {
    pub pattern: Vec<u16>,
    pub text: Vec<u16>,
}

impl ArgAccum {
    pub fn new() -> (r: ArgAccum)
        ensures
            r.pattern@ == Seq::<u16>::empty(),
            r.text@ == Seq::<u16>::empty(),
    {
        ArgAccum { pattern: Vec::new(), text: Vec::new() }
    }

    /// Accept one code unit, with the quoting state at the moment of
    /// emission: the text takes it verbatim, the pattern bracket-escapes a
    /// quoted glob metacharacter.
    pub fn accept(&mut self, unit: u16, quoted: bool)
        ensures
            final(self).text@ == old(self).text@.push(unit),
            final(self).pattern@ == old(self).pattern@ + escape_unit(
                (Emit { unit, quoted }),
            ),
    {
        self.text.push(unit);
        if quoted && (unit == STAR || unit == QMARK || unit == LBRACKET || unit == RBRACKET) {
            self.pattern.push(LBRACKET);
            self.pattern.push(unit);
            self.pattern.push(RBRACKET);
            proof {
                assert(self.pattern@ =~= old(self).pattern@ + escape_unit(
                    (Emit { unit, quoted }),
                ));
            }
        } else {
            self.pattern.push(unit);
            proof {
                assert(self.pattern@ =~= old(self).pattern@ + escape_unit(
                    (Emit { unit, quoted }),
                ));
            }
        }
    }
}

/// One tokenizer call over the buffer, starting at `start`: skips leading
/// separators, and either reports end of input, or feeds the next argument's
/// code units to the sink and returns where the remainder begins.
#[verifier::rlimit(80)]
pub fn next_arg(line: &Vec<u16>, start: usize, sink: &mut ArgAccum) -> (r: (bool, usize))
    requires
        start <= line@.len(),
    ensures
        start <= r.1 <= line@.len(),
        match next_arg_spec(line@.skip(start as int)) {
            None => !r.0 && r.1 == line@.len() && *final(sink) == *old(sink),
            Some(step) => r.0 && line@.skip(r.1 as int) == step.1 && final(sink).pattern@ == old(
                sink,
            ).pattern@ + pattern_of(step.0) && final(sink).text@ == old(sink).text@ + text_of(
                step.0,
            ),
        },
{
    let ghost whole = line@.skip(start as int);
    let len: usize = line.len();
    let mut i: usize = start;
    while i < len && (line[i] == SPACE || line[i] == TAB)
        invariant
            len == line@.len(),
            start <= i <= len,
            forall|k: int| start <= k < i ==> is_separator(#[trigger] line@[k]),
        decreases len - i,
    {
        i = i + 1;
    }
    proof {
        assert(forall|k: int| 0 <= k < i - start ==> is_separator(#[trigger] whole[k]));
        lemma_sep_count_is_run(whole, (i - start) as nat);
        assert(skip_separators(whole) =~= line@.skip(i as int));
    }
    if i == len {
        proof {
            assert(skip_separators(whole).len() == 0);
        }
        return (false, len);
    }
    let ghost t = line@.skip(i as int);
    let ghost full = tokenize_arg(t, false);
    proof {
        assert(next_arg_spec(whole) == Some(full));
    }
    let mut quoted: bool = false;
    let ghost mut done: Seq<Emit> = Seq::empty();
    let ghost pat0 = sink.pattern@;
    let ghost text0 = sink.text@;
    loop
        invariant
            len == line@.len(),
            start <= i <= len,
            ({
                let tail = tokenize_arg(line@.skip(i as int), quoted);
                full.0 == done + tail.0 && full.1 == tail.1
            }),
            sink.pattern@ == pat0 + pattern_of(done),
            sink.text@ == text0 + text_of(done),
        ensures
            start <= i <= len,
            done == full.0,
            line@.skip(i as int) == full.1,
            sink.pattern@ == pat0 + pattern_of(done),
            sink.text@ == text0 + text_of(done),
        decreases len - i,
    {
        let ghost rem = line@.skip(i as int);
        if i == len {
            proof {
                assert(rem.len() == 0);
                assert(full.0 =~= done + tokenize_arg(rem, quoted).0);
            }
            break;
        }
        let c = line[i];
        proof {
            assert(rem[0] == line@[i as int]);
        }
        if !quoted && (c == SPACE || c == TAB) {
            proof {
                assert(tokenize_arg(rem, quoted).0 == Seq::<Emit>::empty());
                assert(full.0 =~= done + tokenize_arg(rem, quoted).0);
            }
            break;
        }
        if c == QUOTE {
            if quoted && i + 1 < len && line[i + 1] == QUOTE {
                proof {
                    assert(rem.len() >= 2 && rem[1] == line@[i + 1]);
                }
                sink.accept(QUOTE, true);
                i = i + 2;
                quoted = false;
                proof {
                    let e = Emit { unit: QUOTE, quoted: true };
                    lemma_pattern_of_push(done, e);
                    lemma_text_of_push(done, e);
                    assert(rem.skip(2) =~= line@.skip(i as int));
                    let tail0 = tokenize_arg(rem.skip(2), false).0;
                    assert(tokenize_arg(rem, true).0 == seq![e] + tail0);
                    assert(done + (seq![e] + tail0) =~= done.push(e) + tail0);
                    assert(pat0 + pattern_of(done) + escape_unit(e) =~= pat0 + (pattern_of(done)
                        + escape_unit(e)));
                    assert(text0 + text_of(done) + seq![e.unit] =~= text0 + text_of(done).push(
                        e.unit,
                    ));
                    assert(text_of(done) + seq![e.unit] =~= text_of(done).push(e.unit));
                    done = done.push(e);
                }
            } else {
                let ghost q0 = quoted;
                i = i + 1;
                quoted = !quoted;
                proof {
                    assert(rem.skip(1) =~= line@.skip(i as int));
                    assert(tokenize_arg(rem, q0) == tokenize_arg(rem.skip(1), !q0));
                }
            }
        } else if c == BACKSLASH {
            let mut j: usize = i;
            while j < len && line[j] == BACKSLASH
                invariant
                    len == line@.len(),
                    i <= j <= len,
                    forall|k: int| i <= k < j ==> line@[k] == BACKSLASH,
                decreases len - j,
            {
                j = j + 1;
            }
            proof {
                assert(forall|k: int| 0 <= k < j - i ==> rem[k] == line@[i + k]);
                lemma_backslash_count_is_run(rem, (j - i) as nat);
            }
            let n = j - i;
            let ghost done_base = done;
            let half = n / 2;
            let follows_quote = j < len && line[j] == QUOTE;
            let emit_count = if follows_quote { half } else { n };
            let ghost bs_goal = backslash_emits(emit_count as nat, quoted);
            let mut k: usize = 0;
            while k < emit_count
                invariant
                    k <= emit_count,
                    done == done_base + backslash_emits(k as nat, quoted),
                    sink.pattern@ == pat0 + pattern_of(done),
                    sink.text@ == text0 + text_of(done),
                decreases emit_count - k,
            {
                sink.accept(BACKSLASH, quoted);
                proof {
                    let e = Emit { unit: BACKSLASH, quoted };
                    lemma_pattern_of_push(done, e);
                    lemma_text_of_push(done, e);
                    assert(done.push(e) =~= done_base + backslash_emits((k + 1) as nat, quoted));
                    assert(pat0 + pattern_of(done) + escape_unit(e) =~= pat0 + (pattern_of(done)
                        + escape_unit(e)));
                    assert(text0 + text_of(done) + seq![e.unit] =~= text0 + text_of(done).push(
                        e.unit,
                    ));
                    assert(text_of(done) + seq![e.unit] =~= text_of(done).push(e.unit));
                    done = done.push(e);
                }
                k = k + 1;
            }
            if follows_quote {
                proof {
                    assert(rem[(n as int)] == line@[j as int]);
                }
                if n % 2 == 1 {
                    sink.accept(QUOTE, quoted);
                    let ghost q0 = quoted;
                    i = j + 1;
                    proof {
                        let e = Emit { unit: QUOTE, quoted: q0 };
                        lemma_pattern_of_push(done, e);
                        lemma_text_of_push(done, e);
                        assert(rem.skip(n + 1) =~= line@.skip(i as int));
                        let tail0 = tokenize_arg(rem.skip(n + 1), q0).0;
                        assert(tokenize_arg(rem, q0).0 == backslash_emits((n / 2) as nat, q0)
                            + seq![e] + tail0);
                        assert(done_base + (backslash_emits((n / 2) as nat, q0) + seq![e] + tail0)
                            =~= (done_base + backslash_emits((n / 2) as nat, q0)).push(e) + tail0);
                        assert(pat0 + pattern_of(done) + escape_unit(e) =~= pat0 + (pattern_of(done)
                            + escape_unit(e)));
                        assert(text0 + text_of(done) + seq![e.unit] =~= text0 + text_of(done).push(
                            e.unit,
                        ));
                        assert(text_of(done) + seq![e.unit] =~= text_of(done).push(e.unit));
                        done = done.push(e);
                    }
                } else {
                    let ghost q0 = quoted;
                    i = j + 1;
                    quoted = false;
                    proof {
                        assert(rem.skip(n + 1) =~= line@.skip(i as int));
                        let tail0 = tokenize_arg(rem.skip(n + 1), false).0;
                        assert(tokenize_arg(rem, q0).0 == backslash_emits((n / 2) as nat, q0)
                            + tail0);
                        assert(done_base + (backslash_emits((n / 2) as nat, q0) + tail0) =~= (
                        done_base + backslash_emits((n / 2) as nat, q0)) + tail0);
                    }
                }
            } else {
                let ghost q0 = quoted;
                i = j;
                proof {
                    assert(rem.skip(n as int) =~= line@.skip(i as int));
                    let tail0 = tokenize_arg(rem.skip(n as int), q0).0;
                    assert(tokenize_arg(rem, q0).0 == backslash_emits(n as nat, q0) + tail0);
                    assert(done_base + (backslash_emits(n as nat, q0) + tail0) =~= (done_base
                        + backslash_emits(n as nat, q0)) + tail0);
                }
            }
        } else {
            sink.accept(c, quoted);
            let ghost q0 = quoted;
            i = i + 1;
            proof {
                let e = Emit { unit: c, quoted: q0 };
                lemma_pattern_of_push(done, e);
                lemma_text_of_push(done, e);
                assert(rem.skip(1) =~= line@.skip(i as int));
                let tail0 = tokenize_arg(rem.skip(1), q0).0;
                assert(tokenize_arg(rem, q0).0 == seq![e] + tail0);
                assert(done + (seq![e] + tail0) =~= done.push(e) + tail0);
                assert(pat0 + pattern_of(done) + escape_unit(e) =~= pat0 + (pattern_of(done)
                    + escape_unit(e)));
                assert(text0 + text_of(done) + seq![e.unit] =~= text0 + text_of(done).push(e.unit));
                assert(text_of(done) + seq![e.unit] =~= text_of(done).push(e.unit));
                done = done.push(e);
            }
        }
    }
    (true, i)
}

/// Concatenation of the parts with the separator between them.
pub open spec fn join_units(parts: Seq<Seq<u16>>, sep: u16) -> Seq<u16>
    decreases parts.len(),
{
    if parts.len() == 0 {
        Seq::empty()
    } else if parts.len() == 1 {
        parts[0]
    } else {
        parts[0] + seq![sep] + join_units(parts.skip(1), sep)
    }
}

pub proof fn lemma_join_units_push(parts: Seq<Seq<u16>>, sep: u16, last: Seq<u16>)
    ensures
        join_units(parts.push(last), sep) == if parts.len() == 0 {
            last
        } else {
            join_units(parts, sep) + seq![sep] + last
        },
    decreases parts.len(),
{
    let whole = parts.push(last);
    if parts.len() == 0 {
        assert(whole.len() == 1);
        assert(whole[0] == last);
    } else if parts.len() == 1 {
        assert(whole.len() == 2);
        assert(whole.skip(1) =~= Seq::<Seq<u16>>::empty().push(last));
        lemma_join_units_push(Seq::empty(), sep, last);
        assert(join_units(whole, sep) == whole[0] + seq![sep] + join_units(whole.skip(1), sep));
        assert(whole[0] == parts[0]);
        assert(join_units(parts, sep) == parts[0]);
    } else {
        assert(whole.skip(1) =~= parts.skip(1).push(last));
        lemma_join_units_push(parts.skip(1), sep, last);
        assert(join_units(whole, sep) == whole[0] + seq![sep] + join_units(whole.skip(1), sep));
        assert(join_units(parts, sep) == parts[0] + seq![sep] + join_units(parts.skip(1), sep));
        assert(whole[0] + seq![sep] + (join_units(parts.skip(1), sep) + seq![sep] + last) =~= (
        parts[0] + seq![sep] + join_units(parts.skip(1), sep)) + seq![sep] + last);
    }
}



/// Tokenization is total and deterministic: a call never fails, it yields
/// an argument exactly while units remain once separators are skipped, and
/// the argument list is a function of the buffer alone.
pub proof fn lemma_tokenizer_total(line: Seq<u16>)
    ensures
        next_arg_spec(line) is Some <==> skip_separators(line).len() > 0,
        next_arg_spec(line) is Some ==> args_spec(line) == seq![
            next_arg_spec(line).unwrap().0,
        ] + args_spec(next_arg_spec(line).unwrap().1),
        next_arg_spec(line) is None ==> args_spec(line) == Seq::<Seq<Emit>>::empty(),
{
}

/// `n` backslash code units.
pub open spec fn backslash_units(n: nat) -> Seq<u16> {
    Seq::new(n, |i: int| BACKSLASH)
}

/// The units of a run emitted one by one under a fixed quoting state.
pub open spec fn plain_emits(units: Seq<u16>, quoted: bool) -> Seq<Emit> {
    Seq::new(units.len(), |i: int| Emit { unit: units[i], quoted })
}

pub proof fn lemma_pattern_of_concat(x: Seq<Emit>, y: Seq<Emit>)
    ensures
        pattern_of(x + y) == pattern_of(x) + pattern_of(y),
    decreases x.len(),
{
    if x.len() == 0 {
        assert(x + y =~= y);
        assert(pattern_of(x) + pattern_of(y) =~= pattern_of(y));
    } else {
        assert((x + y).skip(1) =~= x.skip(1) + y);
        lemma_pattern_of_concat(x.skip(1), y);
        assert((x + y)[0] == x[0]);
        assert(escape_unit(x[0]) + (pattern_of(x.skip(1)) + pattern_of(y)) =~= (escape_unit(x[0])
            + pattern_of(x.skip(1))) + pattern_of(y));
    }
}

/// An argument whose emissions hold no quoted metacharacter renders to the
/// same pattern as text: expansion sees exactly the literal value, so a
/// pattern that fails to compile or matches nothing falls back to an equal
/// string.
pub proof fn lemma_plain_pattern_is_text(emits: Seq<Emit>)
    requires
        forall|k: int|
            0 <= k < emits.len() ==> !((#[trigger] emits[k]).quoted && is_glob_meta(emits[k].unit)),
    ensures
        pattern_of(emits) == text_of(emits),
    decreases emits.len(),
{
    if emits.len() == 0 {
        assert(pattern_of(emits) =~= text_of(emits));
    } else {
        assert(forall|k: int|
            0 <= k < emits.len() - 1 ==> #[trigger] emits.skip(1)[k] == emits[k + 1]);
        lemma_plain_pattern_is_text(emits.skip(1));
        assert(escape_unit(emits[0]) == seq![emits[0].unit]);
        assert(pattern_of(emits) =~= text_of(emits));
    }
}

/// Metacharacter isolation: a glob metacharacter kept from inside a quoted
/// region never stands bare in the pattern; it appears bracket-wrapped, so
/// glob matching treats it as a literal character.
pub proof fn lemma_meta_isolation(emits: Seq<Emit>, i: int)
    requires
        0 <= i < emits.len(),
        emits[i].quoted,
        is_glob_meta(emits[i].unit),
    ensures
        pattern_of(emits) == pattern_of(emits.take(i)) + seq![LBRACKET, emits[i].unit, RBRACKET]
            + pattern_of(emits.skip(i + 1)),
{
    assert(emits =~= emits.take(i) + seq![emits[i]] + emits.skip(i + 1));
    lemma_pattern_of_concat(emits.take(i) + seq![emits[i]], emits.skip(i + 1));
    lemma_pattern_of_concat(emits.take(i), seq![emits[i]]);
    assert(pattern_of(seq![emits[i]]) =~= escape_unit(emits[i])) by {
        reveal_with_fuel(pattern_of, 2);
        assert(seq![emits[i]].skip(1) =~= Seq::<Emit>::empty());
    }
    assert(escape_unit(emits[i]) == seq![LBRACKET, emits[i].unit, RBRACKET]);
    assert((pattern_of(emits.take(i)) + pattern_of(seq![emits[i]])) + pattern_of(emits.skip(i + 1))
        =~= pattern_of(emits.take(i)) + seq![LBRACKET, emits[i].unit, RBRACKET] + pattern_of(
        emits.skip(i + 1),
    ));
}

/// The counterpart: a unit kept outside quotes, a metacharacter included,
/// passes into the pattern unchanged and can drive expansion.
pub proof fn lemma_unquoted_passthrough(emits: Seq<Emit>, i: int)
    requires
        0 <= i < emits.len(),
        !emits[i].quoted,
    ensures
        pattern_of(emits) == pattern_of(emits.take(i)) + seq![emits[i].unit] + pattern_of(
            emits.skip(i + 1),
        ),
{
    assert(emits =~= emits.take(i) + seq![emits[i]] + emits.skip(i + 1));
    lemma_pattern_of_concat(emits.take(i) + seq![emits[i]], emits.skip(i + 1));
    lemma_pattern_of_concat(emits.take(i), seq![emits[i]]);
    assert(pattern_of(seq![emits[i]]) =~= escape_unit(emits[i])) by {
        reveal_with_fuel(pattern_of, 2);
        assert(seq![emits[i]].skip(1) =~= Seq::<Emit>::empty());
    }
    assert(escape_unit(emits[i]) == seq![emits[i].unit]);
    assert((pattern_of(emits.take(i)) + pattern_of(seq![emits[i]])) + pattern_of(emits.skip(i + 1))
        =~= pattern_of(emits.take(i)) + seq![emits[i].unit] + pattern_of(emits.skip(i + 1)));
}

/// A run of ordinary units (no quote, no backslash, and no separator unless
/// quoted) is emitted verbatim, one emission per unit, and tokenization
/// continues behind it unchanged.
pub proof fn lemma_plain_run(a: Seq<u16>, rest: Seq<u16>, quoted: bool)
    requires
        forall|k: int|
            0 <= k < a.len() ==> ((#[trigger] a[k]) != QUOTE && a[k] != BACKSLASH && (quoted
                || !is_separator(a[k]))),
    ensures
        tokenize_arg(a + rest, quoted).0 == plain_emits(a, quoted) + tokenize_arg(rest, quoted).0,
        tokenize_arg(a + rest, quoted).1 == tokenize_arg(rest, quoted).1,
    decreases a.len(),
{
    if a.len() == 0 {
        assert(a + rest =~= rest);
        assert(plain_emits(a, quoted) + tokenize_arg(rest, quoted).0 =~= tokenize_arg(
            rest,
            quoted,
        ).0);
    } else {
        let s = a + rest;
        assert(s[0] == a[0]);
        assert(forall|k: int| 0 <= k < a.len() - 1 ==> #[trigger] a.skip(1)[k] == a[k + 1]);
        assert(s.skip(1) =~= a.skip(1) + rest);
        lemma_plain_run(a.skip(1), rest, quoted);
        let e = Emit { unit: a[0], quoted };
        assert(tokenize_arg(s, quoted).0 == seq![e] + tokenize_arg(a.skip(1) + rest, quoted).0);
        assert(plain_emits(a, quoted) =~= seq![e] + plain_emits(a.skip(1), quoted));
        assert(seq![e] + (plain_emits(a.skip(1), quoted) + tokenize_arg(rest, quoted).0) =~= (
        seq![e] + plain_emits(a.skip(1), quoted)) + tokenize_arg(rest, quoted).0);
    }
}

/// Quote doubling: in a buffer of the shape `"a""b"`, with `a` free of
/// quotes and backslashes and `b` additionally free of separators, the
/// doubled quote contributes exactly one literal quote, and the whole is a
/// single argument whose text is `a`, one quote, `b`.
pub proof fn lemma_quote_doubling(a: Seq<u16>, b: Seq<u16>)
    requires
        forall|k: int| 0 <= k < a.len() ==> ((#[trigger] a[k]) != QUOTE && a[k] != BACKSLASH),
        forall|k: int|
            0 <= k < b.len() ==> ((#[trigger] b[k]) != QUOTE && b[k] != BACKSLASH && !is_separator(
                b[k],
            )),
    ensures
        ({
            let buffer = seq![QUOTE] + a + seq![QUOTE, QUOTE] + b + seq![QUOTE];
            args_spec(buffer).len() == 1 && text_of(args_spec(buffer)[0]) == a + seq![QUOTE] + b
        }),
{
    let buffer = seq![QUOTE] + a + seq![QUOTE, QUOTE] + b + seq![QUOTE];
    assert(buffer[0] == QUOTE);
    lemma_sep_count_is_run(buffer, 0);
    assert(skip_separators(buffer) =~= buffer);
    let rest1 = seq![QUOTE, QUOTE] + b + seq![QUOTE];
    assert(buffer.skip(1) =~= a + rest1);
    lemma_plain_run(a, rest1, true);
    assert(rest1[0] == QUOTE && rest1[1] == QUOTE);
    let qe = Emit { unit: QUOTE, quoted: true };
    assert(rest1.skip(2) =~= b + seq![QUOTE]);
    lemma_plain_run(b, seq![QUOTE], false);
    let qonly = seq![QUOTE];
    assert(qonly.skip(1) =~= Seq::<u16>::empty());
    assert(tokenize_arg(qonly, false) == tokenize_arg(Seq::<u16>::empty(), true));
    assert(tokenize_arg(Seq::<u16>::empty(), true).0 == Seq::<Emit>::empty());
    assert(tokenize_arg(rest1, true).0 == seq![qe] + tokenize_arg(b + qonly, false).0);
    assert(tokenize_arg(rest1, true).1 == tokenize_arg(b + qonly, false).1);
    assert(tokenize_arg(buffer, false) == tokenize_arg(buffer.skip(1), true));
    let em = tokenize_arg(buffer, false).0;
    assert(em == plain_emits(a, true) + (seq![qe] + (plain_emits(b, false) + Seq::<
        Emit,
    >::empty())));
    assert(tokenize_arg(buffer, false).1 == Seq::<u16>::empty());
    assert(next_arg_spec(buffer) == Some(tokenize_arg(buffer, false)));
    lemma_sep_count_le(Seq::<u16>::empty());
    assert(next_arg_spec(Seq::<u16>::empty()) is None) by {
        assert(skip_separators(Seq::<u16>::empty()) =~= Seq::<u16>::empty());
    }
    assert(args_spec(Seq::<u16>::empty()) == Seq::<Seq<Emit>>::empty());
    assert(args_spec(buffer) == seq![em] + Seq::<Seq<Emit>>::empty());
    assert(args_spec(buffer) =~= seq![em]);
    assert(text_of(em) =~= a + seq![QUOTE] + b);
}

/// Backslash parity, even case: `2k` backslashes immediately before a quote
/// collapse to `k` literal backslashes, and the quote acts as a delimiter
/// that closes the quoted region.
pub proof fn lemma_backslash_parity_even(k: nat, rest: Seq<u16>, quoted: bool)
    requires
        k >= 1,
    ensures
        ({
            let buffer = backslash_units(2 * k) + seq![QUOTE] + rest;
            tokenize_arg(buffer, quoted).0 == backslash_emits(k, quoted) + tokenize_arg(
                rest,
                false,
            ).0 && tokenize_arg(buffer, quoted).1 == tokenize_arg(rest, false).1
        }),
{
    let n = 2 * k;
    let buffer = backslash_units(n) + seq![QUOTE] + rest;
    assert(forall|i: int| 0 <= i < n ==> #[trigger] buffer[i] == BACKSLASH);
    assert(buffer[n as int] == QUOTE);
    lemma_backslash_count_is_run(buffer, n);
    assert(buffer.skip(n as int + 1) =~= rest);
    assert(tokenize_arg(buffer, quoted).0 == backslash_emits((n / 2) as nat, quoted)
        + tokenize_arg(rest, false).0);
    assert(backslash_emits((n / 2) as nat, quoted) == backslash_emits(k, quoted));
}

/// Backslash parity, odd case: `2k + 1` backslashes immediately before a
/// quote collapse to `k` literal backslashes followed by a literal quote,
/// and the quoting state is left as it was.
pub proof fn lemma_backslash_parity_odd(k: nat, rest: Seq<u16>, quoted: bool)
    ensures
        ({
            let buffer = backslash_units(2 * k + 1) + seq![QUOTE] + rest;
            tokenize_arg(buffer, quoted).0 == backslash_emits(k, quoted) + seq![
                Emit { unit: QUOTE, quoted },
            ] + tokenize_arg(rest, quoted).0 && tokenize_arg(buffer, quoted).1 == tokenize_arg(
                rest,
                quoted,
            ).1
        }),
{
    let n = 2 * k + 1;
    let buffer = backslash_units(n) + seq![QUOTE] + rest;
    assert(forall|i: int| 0 <= i < n ==> #[trigger] buffer[i] == BACKSLASH);
    assert(buffer[n as int] == QUOTE);
    lemma_backslash_count_is_run(buffer, n);
    assert(buffer.skip(n as int + 1) =~= rest);
    assert(tokenize_arg(buffer, quoted).0 == backslash_emits((n / 2) as nat, quoted) + seq![
        Emit { unit: QUOTE, quoted },
    ] + tokenize_arg(rest, quoted).0);
    assert(backslash_emits((n / 2) as nat, quoted) == backslash_emits(k, quoted));
}


} // verus!
