//! The mathematical semantics of evaluation: a small-step interpreter over
//! model states, which the executable engine is proved to follow.

use vstd::prelude::*;
use crate::numeric::{int_render, parse_i32_spec};
use crate::program::AbsFrame;
use crate::value::AbsData;

verus! {

/// Why evaluation of a line stopped early.
#[derive(Debug, Clone, Copy, PartialEq, Eq, Structural)]
pub enum VmError {
    /// An operation needed more values than the stack held.
    StackUnderflow,
    /// An operation received a value of the wrong tagged kind.
    TypeMismatch,
    /// A token is neither literal, control marker, known procedure, nor built-in.
    UnknownWord,
    /// A definition began as the last token of its frame, so no name followed.
    RanOutOfProgram,
    /// Evaluation of one line took more steps than the engine's fixed budget
    /// allows: a guard against procedures that invoke themselves without end.
    StepLimitExceeded,
}

impl VmError {
    /// The one-line text in which a failure is reported.
    pub fn message(&self) -> (r: &'static str)
        ensures
            r@ == match self {
                VmError::StackUnderflow => "Stack underflow"@,
                VmError::TypeMismatch => "Type mismatch"@,
                VmError::UnknownWord => "Unknown function"@,
                VmError::RanOutOfProgram => "Ran out of program"@,
                VmError::StepLimitExceeded => "Step limit exceeded"@,
            },
    {
        match self {
            VmError::StackUnderflow => "Stack underflow",
            VmError::TypeMismatch => "Type mismatch",
            VmError::UnknownWord => "Unknown function",
            VmError::RanOutOfProgram => "Ran out of program",
            VmError::StepLimitExceeded => "Step limit exceeded",
        }
    }
}

/// Mathematical model of the whole evaluation state: the call frames (last is
/// the innermost), the data stack, the procedure table, and the lines printed
/// so far.
#[verifier::ext_equal]
pub ghost struct AbsState {
    pub frames: Seq<AbsFrame>,
    pub stack: Seq<AbsData>,
    pub procs: Map<Seq<char>, Seq<Seq<char>>>,
    pub out: Seq<Seq<char>>,
}

/// What one step of evaluation does: continue, finish, or fail.
#[verifier::ext_equal]
pub ghost enum StepResult {
    Next(AbsState),
    Done(AbsState),
    Fail(VmError, AbsState),
}

/// How a whole evaluation ends.
#[verifier::ext_equal]
pub ghost enum Outcome {
    Done(AbsState),
    Fail(VmError, AbsState),
}

/// The index of the first occurrence of token `t` at or after `i`, or the
/// length if there is none.
pub open spec fn find_tok(toks: Seq<Seq<char>>, i: int, t: Seq<char>) -> int
    decreases toks.len() - i,
{
    if i < 0 || i >= toks.len() {
        toks.len() as int
    } else if toks[i] == t {
        i
    } else {
        find_tok(toks, i + 1, t)
    }
}

/// The text built from tokens by joining each with a leading space.
pub open spec fn join_sp(toks: Seq<Seq<char>>) -> Seq<char>
    decreases toks.len(),
{
    if toks.len() == 0 {
        Seq::empty()
    } else {
        join_sp(toks.drop_last()) + seq![' '] + toks.last()
    }
}

/// The text in which `print` renders a value.
pub open spec fn render_value(v: AbsData) -> Seq<char> {
    match v {
        AbsData::Int(i) => int_render(i as int),
        AbsData::Str(s) => s,
    }
}

/// `s` with the top frame's cursor moved to `p`.
pub open spec fn with_top_pos(s: AbsState, p: int) -> AbsState {
    AbsState {
        frames: s.frames.update(
            s.frames.len() - 1,
            AbsFrame { tokens: s.frames.last().tokens, pos: p },
        ),
        stack: s.stack,
        procs: s.procs,
        out: s.out,
    }
}

/// `s` with `v` pushed onto the data stack.
pub open spec fn push_val(s: AbsState, v: AbsData) -> AbsState {
    AbsState { frames: s.frames, stack: s.stack.push(v), procs: s.procs, out: s.out }
}

/// `s` with the top of the data stack removed.
pub open spec fn pop_val(s: AbsState) -> AbsState {
    AbsState { frames: s.frames, stack: s.stack.drop_last(), procs: s.procs, out: s.out }
}

/// A definition: the next token of the same frame names the procedure; the
/// body is everything up to (not including) the closing `;`, which is
/// discarded, or up to the end of the frame if no `;` follows.
pub open spec fn def_step(s: AbsState) -> StepResult {
    let fr = s.frames.last();
    if fr.pos >= fr.tokens.len() {
        StepResult::Fail(VmError::RanOutOfProgram, s)
    } else {
        let name = fr.tokens[fr.pos];
        let start = fr.pos + 1;
        let j = find_tok(fr.tokens, start, ";"@);
        let body = fr.tokens.subrange(start, j);
        let newpos = if j < fr.tokens.len() {
            j + 1
        } else {
            j
        };
        let s2 = with_top_pos(s, newpos);
        StepResult::Next(
            AbsState {
                frames: s2.frames,
                stack: s2.stack,
                procs: s2.procs.insert(name, body),
                out: s2.out,
            },
        )
    }
}

/// A string literal: tokens up to (not including) the closing `"`, which is
/// discarded, joined each with a leading space; the frame's end also closes
/// the literal.
pub open spec fn text_step(s: AbsState) -> StepResult {
    let fr = s.frames.last();
    let j = find_tok(fr.tokens, fr.pos, "\""@);
    let text = join_sp(fr.tokens.subrange(fr.pos, j));
    let newpos = if j < fr.tokens.len() {
        j + 1
    } else {
        j
    };
    StepResult::Next(push_val(with_top_pos(s, newpos), AbsData::Str(text)))
}

/// `+`: pops the two topmost values, which must both be integers, and pushes
/// their wrapping sum. A value already popped when the check fails stays
/// popped.
pub open spec fn add_step(s: AbsState) -> StepResult {
    if s.stack.len() == 0 {
        StepResult::Fail(VmError::StackUnderflow, s)
    } else {
        let a = s.stack.last();
        let s1 = pop_val(s);
        match a {
            AbsData::Str(_) => StepResult::Fail(VmError::TypeMismatch, s1),
            AbsData::Int(av) => {
                if s1.stack.len() == 0 {
                    StepResult::Fail(VmError::StackUnderflow, s1)
                } else {
                    let b = s1.stack.last();
                    let s2 = pop_val(s1);
                    match b {
                        AbsData::Str(_) => StepResult::Fail(VmError::TypeMismatch, s2),
                        AbsData::Int(bv) => StepResult::Next(
                            push_val(s2, AbsData::Int(av.wrapping_add(bv))),
                        ),
                    }
                }
            },
        }
    }
}

/// The built-in words, consulted after the procedure table.
pub open spec fn builtin_step(s: AbsState, tok: Seq<char>) -> StepResult {
    if tok == "dup"@ {
        if s.stack.len() == 0 {
            StepResult::Fail(VmError::StackUnderflow, s)
        } else {
            StepResult::Next(push_val(s, s.stack.last()))
        }
    } else if tok == "swap"@ {
        if s.stack.len() == 0 {
            StepResult::Fail(VmError::StackUnderflow, s)
        } else if s.stack.len() == 1 {
            StepResult::Fail(VmError::StackUnderflow, pop_val(s))
        } else {
            let a = s.stack.last();
            let b = s.stack[s.stack.len() - 2];
            StepResult::Next(push_val(push_val(pop_val(pop_val(s)), a), b))
        }
    } else if tok == "drop"@ {
        if s.stack.len() == 0 {
            StepResult::Fail(VmError::StackUnderflow, s)
        } else {
            StepResult::Next(pop_val(s))
        }
    } else if tok == "+"@ {
        add_step(s)
    } else if tok == "print"@ {
        if s.stack.len() == 0 {
            StepResult::Fail(VmError::StackUnderflow, s)
        } else {
            StepResult::Next(
                AbsState {
                    frames: s.frames,
                    stack: s.stack,
                    procs: s.procs,
                    out: s.out.push(render_value(s.stack.last())),
                },
            )
        }
    } else {
        StepResult::Fail(VmError::UnknownWord, s)
    }
}

/// Dispatch of one token, in strict precedence order: integer literal,
/// definition start, string literal start, known procedure, built-in,
/// unknown. `s` already has the cursor moved past the token.
pub open spec fn dispatch(s: AbsState, tok: Seq<char>) -> StepResult {
    match parse_i32_spec(tok) {
        Some(v) => StepResult::Next(push_val(s, AbsData::Int(v))),
        None => {
            if tok == ":"@ {
                def_step(s)
            } else if tok == "\""@ {
                text_step(s)
            } else if s.procs.contains_key(tok) {
                StepResult::Next(
                    AbsState {
                        frames: s.frames.push(AbsFrame { tokens: s.procs[tok], pos: 0 }),
                        stack: s.stack,
                        procs: s.procs,
                        out: s.out,
                    },
                )
            } else {
                builtin_step(s, tok)
            }
        },
    }
}

/// One step of the evaluation loop: done once no frame is left; an exhausted
/// top frame is discarded; otherwise the token at the cursor is consumed and
/// dispatched.
pub open spec fn step(s: AbsState) -> StepResult {
    if s.frames.len() == 0 {
        StepResult::Done(s)
    } else {
        let fr = s.frames.last();
        if fr.pos < 0 || fr.pos >= fr.tokens.len() {
            StepResult::Next(
                AbsState {
                    frames: s.frames.drop_last(),
                    stack: s.stack,
                    procs: s.procs,
                    out: s.out,
                },
            )
        } else {
            dispatch(with_top_pos(s, fr.pos + 1), fr.tokens[fr.pos])
        }
    }
}

/// Iterating `step` until it finishes or fails, with at most `fuel`
/// continuing steps; `None` if the fuel runs out first.
pub open spec fn run(s: AbsState, fuel: nat) -> Option<Outcome>
    decreases fuel,
{
    match step(s) {
        StepResult::Done(s2) => Some(Outcome::Done(s2)),
        StepResult::Fail(e, s2) => Some(Outcome::Fail(e, s2)),
        StepResult::Next(s2) => if fuel == 0 {
            None
        } else {
            run(s2, (fuel - 1) as nat)
        },
    }
}

/// The state after exactly `n` continuing steps, or `None` if evaluation
/// finishes or fails within them.
pub open spec fn steps(s: AbsState, n: nat) -> Option<AbsState>
    decreases n,
{
    if n == 0 {
        Some(s)
    } else {
        match step(s) {
            StepResult::Next(s2) => steps(s2, (n - 1) as nat),
            _ => None,
        }
    }
}

/// Whatever fuel suffices, the outcome is the same: the fuel parameter is
/// bookkeeping, not semantics.
pub proof fn lemma_run_deterministic(s: AbsState, n1: nat, n2: nat)
    requires
        run(s, n1) is Some,
        run(s, n2) is Some,
    ensures
        run(s, n1) == run(s, n2),
    decreases n1,
{
    match step(s) {
        StepResult::Next(s2) => {
            lemma_run_deterministic(s2, (n1 - 1) as nat, (n2 - 1) as nat);
        },
        _ => {},
    }
}

/// Extending a walk of `n` continuing steps by one more.
pub proof fn lemma_steps_snoc(s0: AbsState, n: nat, s2: AbsState)
    requires
        steps(s0, n) is Some,
        step(steps(s0, n)->Some_0) == StepResult::Next(s2),
    ensures
        steps(s0, n + 1) == Some(s2),
    decreases n,
{
    if n == 0 {
        assert(steps(s0, n)->Some_0 == s0);
        assert(steps(s0, 1) == steps(s2, 0));
    } else {
        match step(s0) {
            StepResult::Next(s1) => {
                lemma_steps_snoc(s1, (n - 1) as nat, s2);
                assert(steps(s0, n + 1) == steps(s1, ((n + 1) - 1) as nat));
                assert(((n + 1) - 1) as nat == (n - 1) as nat + 1);
            },
            _ => {
                assert(steps(s0, n) is None);
            },
        }
    }
}

/// More fuel never changes the outcome of a complete run.
pub proof fn lemma_run_monotonic(s: AbsState, n: nat, m: nat)
    requires
        run(s, n) is Some,
        n <= m,
    ensures
        run(s, m) == run(s, n),
    decreases n,
{
    match step(s) {
        StepResult::Next(s2) => {
            lemma_run_monotonic(s2, (n - 1) as nat, (m - 1) as nat);
        },
        _ => {},
    }
}

/// A walk still continuing after more steps than the fuel allows means the
/// run on that fuel gives out.
pub proof fn lemma_steps_none_run(s0: AbsState, f: nat, m: nat)
    requires
        steps(s0, m) is Some,
        m > f,
    ensures
        run(s0, f) is None,
    decreases f,
{
    match step(s0) {
        StepResult::Next(s1) => {
            if f > 0 {
                lemma_steps_none_run(s1, (f - 1) as nat, (m - 1) as nat);
            }
        },
        _ => {
            assert(steps(s0, m) is None);
        },
    }
}

/// A walk that ends in a finishing or failing step is a complete run on the
/// same fuel.
pub proof fn lemma_steps_to_run(s0: AbsState, n: nat)
    requires
        steps(s0, n) is Some,
        !(step(steps(s0, n)->Some_0) is Next),
    ensures
        run(s0, n) == (match step(steps(s0, n)->Some_0) {
            StepResult::Done(s2) => Some(Outcome::Done(s2)),
            StepResult::Fail(e, s2) => Some(Outcome::Fail(e, s2)),
            StepResult::Next(_) => None,
        }),
    decreases n,
{
    if n > 0 {
        match step(s0) {
            StepResult::Next(s1) => {
                lemma_steps_to_run(s1, (n - 1) as nat);
            },
            _ => {},
        }
    }
}

} // verus!
