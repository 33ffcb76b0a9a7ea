//! General properties of the semantics, stated and proved once for all
//! inputs.

use vstd::prelude::*;
use crate::numeric::parse_i32_spec;
use crate::program::AbsFrame;
use crate::semantics::{
    def_step, dispatch, find_tok, lemma_run_monotonic, run, step, with_top_pos, AbsState, Outcome,
    StepResult, VmError,
};
use crate::value::AbsData;
use crate::vm::{interpret_post, vm_st, Vm, STEP_BUDGET};

verus! {

/// The integer value of a literal token (zero where the token is no
/// literal; used only for tokens that are).
pub open spec fn int_of(t: Seq<char>) -> i32 {
    match parse_i32_spec(t) {
        Some(v) => v,
        None => 0,
    }
}

/// The stack left by pushing the values of the tokens from `p` on, in order.
pub open spec fn pushed_ints(stack: Seq<AbsData>, toks: Seq<Seq<char>>, p: int) -> Seq<AbsData> {
    stack + Seq::new((toks.len() - p) as nat, |i: int| AbsData::Int(int_of(toks[p + i])))
}

/// A line of only integer literals always completes, and leaves the stack
/// extended by exactly the literals' values, in their order; the procedure
/// table and the output are untouched.
pub proof fn lemma_integer_literals_push_in_order(s: AbsState)
    requires
        s.frames.len() == 1,
        0 <= s.frames[0].pos <= s.frames[0].tokens.len(),
        forall|i: int|
            s.frames[0].pos <= i < s.frames[0].tokens.len() ==> parse_i32_spec(
                #[trigger] s.frames[0].tokens[i],
            ) is Some,
    ensures
        run(s, (s.frames[0].tokens.len() - s.frames[0].pos + 1) as nat) == Some(
            Outcome::Done(
                AbsState {
                    frames: Seq::empty(),
                    stack: pushed_ints(s.stack, s.frames[0].tokens, s.frames[0].pos),
                    procs: s.procs,
                    out: s.out,
                },
            ),
        ),
    decreases s.frames[0].tokens.len() - s.frames[0].pos,
{
    let fr = s.frames[0];
    let target = AbsState {
        frames: Seq::empty(),
        stack: pushed_ints(s.stack, fr.tokens, fr.pos),
        procs: s.procs,
        out: s.out,
    };
    if fr.pos == fr.tokens.len() {
        let s2 = AbsState {
            frames: s.frames.drop_last(),
            stack: s.stack,
            procs: s.procs,
            out: s.out,
        };
        assert(s.frames.last() == fr);
        assert(step(s) == StepResult::Next(s2));
        assert(s2.frames.len() == 0);
        assert(step(s2) == StepResult::Done(s2));
        assert(run(s2, 0) == Some(Outcome::Done(s2)));
        assert(run(s, 1) == run(s2, (1 - 1) as nat));
        assert(run(s, 1) == Some(Outcome::Done(s2)));
        assert(s2 =~~= target);
        assert(run(s, 1) == Some(Outcome::Done(target)));
    } else {
        let tok = fr.tokens[fr.pos];
        let s1 = with_top_pos(s, fr.pos + 1);
        let v = int_of(tok);
        let s2 = AbsState {
            frames: s1.frames,
            stack: s1.stack.push(AbsData::Int(v)),
            procs: s1.procs,
            out: s1.out,
        };
        assert(s.frames.last() == fr);
        assert(parse_i32_spec(tok) is Some);
        assert(step(s) == dispatch(s1, tok));
        assert(dispatch(s1, tok) == StepResult::Next(s2));
        assert(s2.frames.len() == 1);
        assert(s2.frames[0].tokens == fr.tokens);
        assert(s2.frames[0].pos == fr.pos + 1);
        lemma_integer_literals_push_in_order(s2);
        let target2 = AbsState {
            frames: Seq::empty(),
            stack: pushed_ints(s2.stack, s2.frames[0].tokens, s2.frames[0].pos),
            procs: s2.procs,
            out: s2.out,
        };
        let f2 = (s2.frames[0].tokens.len() - s2.frames[0].pos + 1) as nat;
        assert(run(s2, f2) == Some(Outcome::Done(target2)));
        assert(target2.stack =~= target.stack);
        assert(target2 =~~= target);
        assert(run(s, f2 + 1) == run(s2, f2));
        assert((fr.tokens.len() - fr.pos + 1) as nat == f2 + 1);
        assert(run(s, f2 + 1) == Some(Outcome::Done(target)));
    }
}

/// The same property at the engine's boundary: a program of only integer
/// literals makes `interpret` succeed, and the engine's stack afterwards is
/// the old stack extended by the literals' values in order, with the
/// procedure table and the output untouched.
pub proof fn lemma_interpret_integer_literals(pre: Vm, post: Vm, toks: Seq<Seq<char>>, r: Result<
    String,
    VmError,
>)
    requires
        forall|i: int| 0 <= i < toks.len() ==> parse_i32_spec(#[trigger] toks[i]) is Some,
        toks.len() + 1 <= STEP_BUDGET,
        interpret_post(vm_st(pre, seq![AbsFrame { tokens: toks, pos: 0 }]), post, r),
    ensures
        r is Ok,
        post.data.deep_view() == pushed_ints(pre.data.deep_view(), toks, 0),
        post.proc@ == pre.proc@,
        post.out.deep_view() == pre.out.deep_view(),
{
    let init = vm_st(pre, seq![AbsFrame { tokens: toks, pos: 0 }]);
    assert(init.frames[0].tokens == toks);
    lemma_integer_literals_push_in_order(init);
    let f = (toks.len() + 1) as nat;
    lemma_run_monotonic(init, f, STEP_BUDGET as nat);
}

/// Defining a procedure stores exactly the scanned body under its name,
/// replacing whatever an earlier definition of the same name had stored;
/// nothing else of the state's procedures changes.
pub proof fn lemma_redefinition_replaces_body(s: AbsState)
    requires
        s.frames.len() > 0,
        0 <= s.frames.last().pos,
        s.frames.last().pos + 1 < s.frames.last().tokens.len(),
        s.frames.last().tokens[s.frames.last().pos] == ":"@,
    ensures
        step(s) is Next,
        ({
            let fr = s.frames.last();
            let name = fr.tokens[fr.pos + 1];
            let body = fr.tokens.subrange(
                fr.pos + 2,
                find_tok(fr.tokens, fr.pos + 2, ";"@),
            );
            step(s)->Next_0.procs == s.procs.insert(name, body)
        }),
{
    let fr = s.frames.last();
    let tok = fr.tokens[fr.pos];
    proof_colon_is_no_literal();
    let s1 = with_top_pos(s, fr.pos + 1);
    assert(step(s) == dispatch(s1, tok));
    assert(s1.frames.last().tokens == fr.tokens);
    assert(s1.frames.last().pos == fr.pos + 1);
    assert(dispatch(s1, tok) == def_step(s1));
}

/// The token `:` is not an integer literal.
proof fn proof_colon_is_no_literal()
    ensures
        parse_i32_spec(":"@) is None,
{
    reveal_strlit(":");
    assert(":"@.len() == 1);
    assert(":"@[0] == ':');
    assert(!(':' == '-' || ':' == '+'));
    assert(!crate::numeric::is_digit(':'));
    assert(!crate::numeric::all_digits(":"@));
}

/// Invoking a defined procedure pushes a fresh frame holding the body the
/// table maps its name to at the moment of the call, with the cursor at the
/// start; the table itself does not change.
pub proof fn lemma_call_captures_current_body(s: AbsState)
    requires
        s.frames.len() > 0,
        0 <= s.frames.last().pos < s.frames.last().tokens.len(),
        ({
            let tok = s.frames.last().tokens[s.frames.last().pos];
            parse_i32_spec(tok) is None && tok != ":"@ && tok != "\""@ && s.procs.contains_key(tok)
        }),
    ensures
        ({
            let tok = s.frames.last().tokens[s.frames.last().pos];
            step(s) == StepResult::Next(
                AbsState {
                    frames: with_top_pos(s, s.frames.last().pos + 1).frames.push(
                        AbsFrame { tokens: s.procs[tok], pos: 0 },
                    ),
                    stack: s.stack,
                    procs: s.procs,
                    out: s.out,
                },
            )
        }),
{
    let fr = s.frames.last();
    let tok = fr.tokens[fr.pos];
    let s1 = with_top_pos(s, fr.pos + 1);
    assert(step(s) == dispatch(s1, tok));
    assert(s1.procs == s.procs);
}

/// An unknown token fails the line with `UnknownWord`, and the failure
/// itself changes nothing: the data stack, the procedure table and the
/// output stay exactly as the tokens before it left them.
pub proof fn lemma_unknown_word_fails_preserving_state(s: AbsState)
    requires
        s.frames.len() > 0,
        0 <= s.frames.last().pos < s.frames.last().tokens.len(),
        ({
            let tok = s.frames.last().tokens[s.frames.last().pos];
            parse_i32_spec(tok) is None && tok != ":"@ && tok != "\""@ && !s.procs.contains_key(tok)
                && tok != "dup"@ && tok != "swap"@ && tok != "drop"@ && tok != "+"@ && tok
                != "print"@
        }),
    ensures
        step(s) is Fail,
        step(s)->Fail_0 == VmError::UnknownWord,
        step(s)->Fail_1.stack == s.stack,
        step(s)->Fail_1.procs == s.procs,
        step(s)->Fail_1.out == s.out,
{
    let fr = s.frames.last();
    let tok = fr.tokens[fr.pos];
    let s1 = with_top_pos(s, fr.pos + 1);
    assert(step(s) == dispatch(s1, tok));
}

/// A continuing step never alters a frame below the top of the frame stack:
/// a frame pushed by an earlier call keeps the body it was cloned from, so a
/// later redefinition of the name cannot affect it.
pub proof fn lemma_lower_frames_stable(s: AbsState)
    requires
        step(s) is Next,
    ensures
        forall|i: int|
            0 <= i < s.frames.len() - 1 ==> i < step(s)->Next_0.frames.len() && step(
                s,
            )->Next_0.frames[i] == s.frames[i],
{
}

} // verus!
