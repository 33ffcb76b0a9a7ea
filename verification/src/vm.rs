//! The engine: owns the data stack and the procedure table, and runs the
//! call-stack evaluation loop over programs.

use vstd::prelude::*;
use vstd::string::{StrSliceExecFns, StringExecFns};
use crate::numeric::{int_render, parse_i32};
use crate::program::{AbsFrame, Program};
use crate::proctable::ProcTable;
use crate::semantics::{
    add_step, builtin_step, def_step, dispatch, find_tok, join_sp, pop_val, push_val, render_value,
    run, step, steps, text_step, with_top_pos, AbsState, Outcome, StepResult, VmError,
    lemma_run_monotonic, lemma_steps_none_run, lemma_steps_snoc, lemma_steps_to_run,
};
use crate::text::{str_eq, tokenize, tokenize_spec};
use crate::value::{AbsData, Data};

verus! {

/// The most continuing steps one line may take before evaluation is cut off
/// with `VmError::StepLimitExceeded`: a guard against procedures that invoke
/// themselves without end.
pub const STEP_BUDGET: u64 = 0x10_0000;

/// The rendering of one stack entry in a line's result.
pub open spec fn render_entry(v: AbsData) -> Seq<char> {
    match v {
        AbsData::Int(i) => "Int("@ + int_render(i as int) + ")"@,
        AbsData::Str(s) => "Str(\""@ + s + "\")"@,
    }
}

/// The stack entries' renderings joined with commas, bottom first.
pub open spec fn render_items(st: Seq<AbsData>) -> Seq<char>
    decreases st.len(),
{
    if st.len() == 0 {
        Seq::empty()
    } else if st.len() == 1 {
        render_entry(st[0])
    } else {
        render_items(st.drop_last()) + ", "@ + render_entry(st.last())
    }
}

/// The rendering of the whole data stack, a line's successful result.
pub open spec fn render_stack(st: Seq<AbsData>) -> Seq<char> {
    "["@ + render_items(st) + "]"@
}

/// The engine of one session: the shared data stack, the procedure table,
/// the lines printed so far, and the verbosity choice of the caller.
pub struct Vm {
    pub verbose: bool,
    pub data: Vec<Data>,
    pub proc: ProcTable,
    pub out: Vec<String>,
}

/// The model state of an engine together with the given call frames.
pub open spec fn vm_st(vm: Vm, frames: Seq<AbsFrame>) -> AbsState {
    AbsState {
        frames,
        stack: vm.data.deep_view(),
        procs: vm.proc@,
        out: vm.out.deep_view(),
    }
}

/// The engine holds exactly the stack, procedures and output of model state
/// `s` (its frames are over: evaluation keeps no frame between lines).
pub open spec fn agrees(s: AbsState, vm: Vm) -> bool {
    s.stack == vm.data.deep_view() && s.procs == vm.proc@ && s.out == vm.out.deep_view()
}

/// What `interpret` returns and leaves behind, determined by the run of the
/// small-step semantics from `init` on the step budget: the rendering of the
/// final stack on completion, the semantics' own error on failure, and the
/// cutoff error if the budget runs out first.
pub open spec fn interpret_post(init: AbsState, vm: Vm, r: Result<String, VmError>) -> bool {
    match run(init, STEP_BUDGET as nat) {
        Some(Outcome::Done(f)) => match r {
            Ok(outp) => agrees(f, vm) && outp@ == render_stack(f.stack),
            Err(_) => false,
        },
        Some(Outcome::Fail(e, f)) => r == Err::<String, VmError>(e) && agrees(f, vm),
        None => r == Err::<String, VmError>(VmError::StepLimitExceeded) && steps(
            init,
            STEP_BUDGET as nat + 1,
        ) is Some && agrees(steps(init, STEP_BUDGET as nat + 1)->Some_0, vm),
    }
}

/// Renders one value as `print` shows it.
pub fn render_data(d: &Data) -> (r: String)
    ensures
        r@ == render_value(d@),
{
    match d {
        Data::Int(i) => crate::numeric::render_int(*i),
        Data::Str(s) => s.clone(),
    }
}

fn render_entry_exec(d: &Data) -> (r: String)
    ensures
        r@ == render_entry(d@),
{
    match d {
        Data::Int(i) => {
            let mut s = "Int(".to_owned();
            let digits = crate::numeric::render_int(*i);
            s.append(digits.as_str());
            s.append(")");
            s
        },
        Data::Str(t) => {
            let mut s = "Str(\"".to_owned();
            s.append(t.as_str());
            s.append("\")");
            s
        },
    }
}

/// Renders the whole stack, exactly as `render_stack` describes.
fn render_stack_exec(data: &Vec<Data>) -> (r: String)
    ensures
        r@ == render_stack(data.deep_view()),
{
    let mut s = "[".to_owned();
    let mut i: usize = 0;
    while i < data.len()
        invariant
            0 <= i <= data.len(),
            s@ == "["@ + render_items(data.deep_view().take(i as int)),
        decreases data.len() - i,
    {
        if i > 0 {
            s.append(", ");
        }
        let e = render_entry_exec(&data[i]);
        s.append(e.as_str());
        proof {
            let dv = data.deep_view();
            assert(dv.take(i + 1).drop_last() =~= dv.take(i as int));
            assert(dv.take(i + 1).last() == dv[i as int]);
            assert(dv[i as int] == data@[i as int]@);
            assert(s@ =~= "["@ + render_items(dv.take(i + 1)));
        }
        i = i + 1;
    }
    s.append("]");
    proof {
        assert(data.deep_view().take(data.len() as int) =~= data.deep_view());
        assert(s@ =~= render_stack(data.deep_view()));
    }
    s
}

impl Vm {
    /// A fresh engine: empty stack, no procedures, nothing printed yet.
    pub fn new(verbose: bool) -> (r: Self)
        ensures
            r.verbose == verbose,
            r.data.deep_view() == Seq::<AbsData>::empty(),
            r.proc@ == Map::<Seq<char>, Seq<Seq<char>>>::empty(),
            r.out.deep_view() == Seq::<Seq<char>>::empty(),
    {
        let vm = Vm { verbose, data: Vec::new(), proc: ProcTable::new(), out: Vec::new() };
        proof {
            assert(vm.data.deep_view() =~= Seq::<AbsData>::empty());
            assert(vm.out.deep_view() =~= Seq::<Seq<char>>::empty());
        }
        vm
    }

    /// Executes one program to completion against the shared stack and
    /// procedure table, following the small-step semantics exactly; returns
    /// the rendering of the final stack, or the first failure.
    pub fn interpret(&mut self, pc: Program) -> (r: Result<String, VmError>)
        ensures
            final(self).verbose == old(self).verbose,
            interpret_post(vm_st(*old(self), seq![pc@]), *final(self), r),
    {
        let ghost init = vm_st(*old(self), seq![pc@]);
        let mut callstack: Vec<Program> = Vec::new();
        callstack.push(pc);
        let mut budget: u64 = STEP_BUDGET;
        let ghost mut n: nat = 0;
        proof {
            assert(callstack.deep_view() =~= seq![pc@]);
            assert(vm_st(*self, callstack.deep_view()) =~~= init);
        }
        loop
            invariant
                init == vm_st(*old(self), seq![pc@]),
                n + budget == STEP_BUDGET,
                steps(init, n) == Some(vm_st(*self, callstack.deep_view())),
                self.verbose == old(self).verbose,
            decreases budget,
        {
            let ghost cur = vm_st(*self, callstack.deep_view());
            if callstack.is_empty() {
                proof {
                    assert(cur.frames =~= Seq::<AbsFrame>::empty());
                    assert(step(cur) == StepResult::Done(cur));
                    lemma_steps_to_run(init, n);
                    lemma_run_monotonic(init, n, STEP_BUDGET as nat);
                }
                let rendering = render_stack_exec(&self.data);
                return Ok(rendering);
            }
            let ghost cs_pre = callstack.deep_view();
            let mut fr = callstack.pop().unwrap();
            let ghost cs_after = callstack.deep_view();
            let ghost fr0 = fr@;
            proof {
                fr.lemma_pos_nonneg();
                assert(cs_after =~= cs_pre.drop_last());
                assert(cur.frames.last() == fr0);
                assert(cur.frames.drop_last() =~= cs_after);
            }
            let popped = match fr.pop() {
                None => None,
                Some(w) => Some(w.clone()),
            };
            match popped {
                None => {
                    // The top frame is exhausted: its execution is complete.
                    proof {
                        let s2 = AbsState {
                            frames: cs_after,
                            stack: cur.stack,
                            procs: cur.procs,
                            out: cur.out,
                        };
                        assert(step(cur) == StepResult::Next(s2));
                        assert(s2 =~~= vm_st(*self, callstack.deep_view()));
                        lemma_steps_snoc(init, n, vm_st(*self, callstack.deep_view()));
                        n = n + 1;
                    }
                },
                Some(word) => {
                    let ghost p0 = fr0.pos;
                    let ghost tokv = fr0.tokens;
                    let ghost s1 = with_top_pos(cur, p0 + 1);
                    proof {
                        assert(s1.frames =~= cs_after.push(fr@));
                        assert(step(cur) == dispatch(s1, word@));
                        assert(s1.stack == cur.stack && s1.procs == cur.procs && s1.out == cur.out);
                    }
                    match parse_i32(word.as_str()) {
                        Some(v) => {
                            self.data.push(Data::Int(v));
                            callstack.push(fr);
                            proof {
                                let s2 = push_val(s1, AbsData::Int(v));
                                assert(dispatch(s1, word@) == StepResult::Next(s2));
                                assert(s2 =~~= vm_st(*self, callstack.deep_view()));
                                lemma_steps_snoc(init, n, vm_st(*self, callstack.deep_view()));
                                n = n + 1;
                            }
                        },
                        None => {
                            if str_eq(word.as_str(), ":") {
                                let name = match fr.pop() {
                                    None => {
                                        // A definition cannot begin as the
                                        // last token of its frame.
                                        proof {
                                            assert(def_step(s1) == StepResult::Fail(
                                                VmError::RanOutOfProgram,
                                                s1,
                                            ));
                                            lemma_steps_to_run(init, n);
                                            lemma_run_monotonic(init, n, STEP_BUDGET as nat);
                                        }
                                        return Err(VmError::RanOutOfProgram);
                                    },
                                    Some(nm) => nm.clone(),
                                };
                                let ghost dstart = p0 + 2;
                                let ghost jj = find_tok(tokv, dstart, ";"@);
                                let mut body: Vec<String> = Vec::new();
                                proof {
                                    assert(body.deep_view() =~= tokv.subrange(dstart, dstart));
                                }
                                loop
                                    invariant_except_break
                                        fr@.tokens == tokv,
                                        0 <= dstart <= fr@.pos <= tokv.len(),
                                        jj == find_tok(tokv, dstart, ";"@),
                                        body.deep_view() == tokv.subrange(dstart, fr@.pos),
                                        find_tok(tokv, dstart, ";"@) == find_tok(
                                            tokv,
                                            fr@.pos,
                                            ";"@,
                                        ),
                                    ensures
                                        fr@.tokens == tokv,
                                        body.deep_view() == tokv.subrange(dstart, jj),
                                        fr@.pos == if jj < tokv.len() {
                                            jj + 1
                                        } else {
                                            jj
                                        },
                                    decreases tokv.len() - fr@.pos,
                                {
                                    let ghost sp = fr@.pos;
                                    match fr.pop() {
                                        None => {
                                            proof {
                                                assert(jj == sp);
                                            }
                                            break;
                                        },
                                        Some(sub) => {
                                            if str_eq(sub.as_str(), ";") {
                                                proof {
                                                    assert(jj == sp);
                                                }
                                                break;
                                            }
                                            let owned = sub.clone();
                                            let ghost bodyv = body.deep_view();
                                            body.push(owned);
                                            proof {
                                                assert(tokv.subrange(dstart, sp + 1).drop_last()
                                                    =~= tokv.subrange(dstart, sp));
                                                assert(tokv.subrange(dstart, sp + 1).last()
                                                    == tokv[sp]);
                                                assert(body.deep_view() =~= bodyv.push(
                                                    tokv[sp],
                                                ));
                                            }
                                        },
                                    }
                                }
                                let ghost bodyv = body.deep_view();
                                self.proc.insert(name, body);
                                callstack.push(fr);
                                proof {
                                    let s2 = with_top_pos(s1, fr@.pos);
                                    let s3 = AbsState {
                                        frames: s2.frames,
                                        stack: s2.stack,
                                        procs: s2.procs.insert(tokv[p0 + 1], bodyv),
                                        out: s2.out,
                                    };
                                    assert(def_step(s1) == StepResult::Next(s3));
                                    assert(s3 =~~= vm_st(*self, callstack.deep_view()));
                                    lemma_steps_snoc(init, n, vm_st(*self, callstack.deep_view()));
                                    n = n + 1;
                                }
                            } else if str_eq(word.as_str(), "\"") {
                                let ghost tstart = p0 + 1;
                                let ghost jj = find_tok(tokv, tstart, "\""@);
                                let mut text = String::new();
                                proof {
                                    reveal_strlit(" ");
                                    assert(text@ =~= join_sp(tokv.subrange(tstart, tstart)));
                                }
                                loop
                                    invariant_except_break
                                        fr@.tokens == tokv,
                                        0 <= tstart <= fr@.pos <= tokv.len(),
                                        jj == find_tok(tokv, tstart, "\""@),
                                        text@ == join_sp(tokv.subrange(tstart, fr@.pos)),
                                        find_tok(tokv, tstart, "\""@) == find_tok(
                                            tokv,
                                            fr@.pos,
                                            "\""@,
                                        ),
                                    ensures
                                        fr@.tokens == tokv,
                                        text@ == join_sp(tokv.subrange(tstart, jj)),
                                        fr@.pos == if jj < tokv.len() {
                                            jj + 1
                                        } else {
                                            jj
                                        },
                                    decreases tokv.len() - fr@.pos,
                                {
                                    let ghost sp = fr@.pos;
                                    match fr.pop() {
                                        None => {
                                            proof {
                                                assert(jj == sp);
                                            }
                                            break;
                                        },
                                        Some(sub) => {
                                            if str_eq(sub.as_str(), "\"") {
                                                proof {
                                                    assert(jj == sp);
                                                }
                                                break;
                                            }
                                            let owned = sub.clone();
                                            let ghost textv = text@;
                                            text.append(" ");
                                            text.append(owned.as_str());
                                            proof {
                                                reveal_strlit(" ");
                                                assert(tokv.subrange(tstart, sp + 1).drop_last()
                                                    =~= tokv.subrange(tstart, sp));
                                                assert(tokv.subrange(tstart, sp + 1).last()
                                                    == tokv[sp]);
                                                assert(text@ =~= (textv + seq![' ']) + tokv[sp]);
                                                assert(text@ =~= join_sp(
                                                    tokv.subrange(tstart, sp + 1),
                                                ));
                                            }
                                        },
                                    }
                                }
                                let ghost textv = text@;
                                self.data.push(Data::Str(text));
                                callstack.push(fr);
                                proof {
                                    let s2 = push_val(
                                        with_top_pos(s1, fr@.pos),
                                        AbsData::Str(textv),
                                    );
                                    assert(text_step(s1) == StepResult::Next(s2));
                                    assert(s2 =~~= vm_st(*self, callstack.deep_view()));
                                    lemma_steps_snoc(init, n, vm_st(*self, callstack.deep_view()));
                                    n = n + 1;
                                }
                            } else {
                                let found: Option<Vec<String>> = match self.proc.lookup(
                                    word.as_str(),
                                ) {
                                    Some(b) => Some(b.clone()),
                                    None => None,
                                };
                                match found {
                                    Some(body) => {
                                        // A procedure call: clone the body
                                        // into a fresh frame.
                                        proof {
                                            assert(body.deep_view() =~= self.proc@[word@]);
                                        }
                                        callstack.push(fr);
                                        let sub = Program::from_stream(body);
                                        callstack.push(sub);
                                        proof {
                                            let s2 = AbsState {
                                                frames: s1.frames.push(
                                                    AbsFrame { tokens: s1.procs[word@], pos: 0 },
                                                ),
                                                stack: s1.stack,
                                                procs: s1.procs,
                                                out: s1.out,
                                            };
                                            assert(dispatch(s1, word@) == StepResult::Next(s2));
                                            assert(s2 =~~= vm_st(*self, callstack.deep_view()));
                                            lemma_steps_snoc(
                                                init,
                                                n,
                                                vm_st(*self, callstack.deep_view()),
                                            );
                                            n = n + 1;
                                        }
                                    },
                                    None => {
                                        if str_eq(word.as_str(), "dup") {
                                            let ln = self.data.len();
                                            if ln == 0 {
                                                proof {
                                                    assert(builtin_step(s1, word@)
                                                        == StepResult::Fail(
                                                        VmError::StackUnderflow,
                                                        s1,
                                                    ));
                                                    lemma_steps_to_run(init, n);
                                                    lemma_run_monotonic(
                                                        init,
                                                        n,
                                                        STEP_BUDGET as nat,
                                                    );
                                                }
                                                return Err(VmError::StackUnderflow);
                                            }
                                            let v = self.data[ln - 1].duplicate();
                                            self.data.push(v);
                                            callstack.push(fr);
                                            proof {
                                                let s2 = push_val(s1, s1.stack.last());
                                                assert(builtin_step(s1, word@)
                                                    == StepResult::Next(s2));
                                                assert(s2 =~~= vm_st(
                                                    *self,
                                                    callstack.deep_view(),
                                                ));
                                                lemma_steps_snoc(
                                                    init,
                                                    n,
                                                    vm_st(*self, callstack.deep_view()),
                                                );
                                                n = n + 1;
                                            }
                                        } else if str_eq(word.as_str(), "swap") {
                                            let a = match self.data.pop() {
                                                None => {
                                                    proof {
                                                        assert(builtin_step(s1, word@)
                                                            == StepResult::Fail(
                                                            VmError::StackUnderflow,
                                                            s1,
                                                        ));
                                                        lemma_steps_to_run(init, n);
                                                        lemma_run_monotonic(
                                                            init,
                                                            n,
                                                            STEP_BUDGET as nat,
                                                        );
                                                    }
                                                    return Err(VmError::StackUnderflow);
                                                },
                                                Some(a) => a,
                                            };
                                            let b = match self.data.pop() {
                                                None => {
                                                    proof {
                                                        assert(self.data.deep_view() =~= pop_val(
                                                            s1,
                                                        ).stack);
                                                        assert(builtin_step(s1, word@)
                                                            == StepResult::Fail(
                                                            VmError::StackUnderflow,
                                                            pop_val(s1),
                                                        ));
                                                        lemma_steps_to_run(init, n);
                                                        lemma_run_monotonic(
                                                            init,
                                                            n,
                                                            STEP_BUDGET as nat,
                                                        );
                                                    }
                                                    return Err(VmError::StackUnderflow);
                                                },
                                                Some(b) => b,
                                            };
                                            self.data.push(a);
                                            self.data.push(b);
                                            callstack.push(fr);
                                            proof {
                                                let s2 = push_val(
                                                    push_val(
                                                        pop_val(pop_val(s1)),
                                                        s1.stack.last(),
                                                    ),
                                                    s1.stack[s1.stack.len() - 2],
                                                );
                                                assert(pop_val(pop_val(s1)).stack
                                                    =~= s1.stack.drop_last().drop_last());
                                                assert(builtin_step(s1, word@)
                                                    == StepResult::Next(s2));
                                                assert(s2 =~~= vm_st(
                                                    *self,
                                                    callstack.deep_view(),
                                                ));
                                                lemma_steps_snoc(
                                                    init,
                                                    n,
                                                    vm_st(*self, callstack.deep_view()),
                                                );
                                                n = n + 1;
                                            }
                                        } else if str_eq(word.as_str(), "drop") {
                                            match self.data.pop() {
                                                None => {
                                                    proof {
                                                        assert(builtin_step(s1, word@)
                                                            == StepResult::Fail(
                                                            VmError::StackUnderflow,
                                                            s1,
                                                        ));
                                                        lemma_steps_to_run(init, n);
                                                        lemma_run_monotonic(
                                                            init,
                                                            n,
                                                            STEP_BUDGET as nat,
                                                        );
                                                    }
                                                    return Err(VmError::StackUnderflow);
                                                },
                                                Some(_) => {},
                                            }
                                            callstack.push(fr);
                                            proof {
                                                let s2 = pop_val(s1);
                                                assert(builtin_step(s1, word@)
                                                    == StepResult::Next(s2));
                                                assert(s2 =~~= vm_st(
                                                    *self,
                                                    callstack.deep_view(),
                                                ));
                                                lemma_steps_snoc(
                                                    init,
                                                    n,
                                                    vm_st(*self, callstack.deep_view()),
                                                );
                                                n = n + 1;
                                            }
                                        } else if str_eq(word.as_str(), "+") {
                                            let av = match self.data.pop() {
                                                None => {
                                                    proof {
                                                        assert(add_step(s1) == StepResult::Fail(
                                                            VmError::StackUnderflow,
                                                            s1,
                                                        ));
                                                        lemma_steps_to_run(init, n);
                                                        lemma_run_monotonic(
                                                            init,
                                                            n,
                                                            STEP_BUDGET as nat,
                                                        );
                                                    }
                                                    return Err(VmError::StackUnderflow);
                                                },
                                                Some(a) => match a.as_int() {
                                                    None => {
                                                        proof {
                                                            assert(self.data.deep_view()
                                                                =~= pop_val(s1).stack);
                                                            assert(add_step(s1)
                                                                == StepResult::Fail(
                                                                VmError::TypeMismatch,
                                                                pop_val(s1),
                                                            ));
                                                            lemma_steps_to_run(init, n);
                                                            lemma_run_monotonic(
                                                                init,
                                                                n,
                                                                STEP_BUDGET as nat,
                                                            );
                                                        }
                                                        return Err(VmError::TypeMismatch);
                                                    },
                                                    Some(x) => x,
                                                },
                                            };
                                            let bv = match self.data.pop() {
                                                None => {
                                                    proof {
                                                        assert(self.data.deep_view() =~= pop_val(
                                                            s1,
                                                        ).stack);
                                                        assert(add_step(s1) == StepResult::Fail(
                                                            VmError::StackUnderflow,
                                                            pop_val(s1),
                                                        ));
                                                        lemma_steps_to_run(init, n);
                                                        lemma_run_monotonic(
                                                            init,
                                                            n,
                                                            STEP_BUDGET as nat,
                                                        );
                                                    }
                                                    return Err(VmError::StackUnderflow);
                                                },
                                                Some(b) => match b.as_int() {
                                                    None => {
                                                        proof {
                                                            assert(self.data.deep_view()
                                                                =~= pop_val(pop_val(s1)).stack);
                                                            assert(add_step(s1)
                                                                == StepResult::Fail(
                                                                VmError::TypeMismatch,
                                                                pop_val(pop_val(s1)),
                                                            ));
                                                            lemma_steps_to_run(init, n);
                                                            lemma_run_monotonic(
                                                                init,
                                                                n,
                                                                STEP_BUDGET as nat,
                                                            );
                                                        }
                                                        return Err(VmError::TypeMismatch);
                                                    },
                                                    Some(x) => x,
                                                },
                                            };
                                            self.data.push(Data::Int(av.wrapping_add(bv)));
                                            callstack.push(fr);
                                            proof {
                                                let s2 = push_val(
                                                    pop_val(pop_val(s1)),
                                                    AbsData::Int(av.wrapping_add(bv)),
                                                );
                                                assert(add_step(s1) == StepResult::Next(s2));
                                                assert(s2 =~~= vm_st(
                                                    *self,
                                                    callstack.deep_view(),
                                                ));
                                                lemma_steps_snoc(
                                                    init,
                                                    n,
                                                    vm_st(*self, callstack.deep_view()),
                                                );
                                                n = n + 1;
                                            }
                                        } else if str_eq(word.as_str(), "print") {
                                            let ln = self.data.len();
                                            if ln == 0 {
                                                proof {
                                                    assert(builtin_step(s1, word@)
                                                        == StepResult::Fail(
                                                        VmError::StackUnderflow,
                                                        s1,
                                                    ));
                                                    lemma_steps_to_run(init, n);
                                                    lemma_run_monotonic(
                                                        init,
                                                        n,
                                                        STEP_BUDGET as nat,
                                                    );
                                                }
                                                return Err(VmError::StackUnderflow);
                                            }
                                            let line = render_data(&self.data[ln - 1]);
                                            self.out.push(line);
                                            callstack.push(fr);
                                            proof {
                                                let s2 = AbsState {
                                                    frames: s1.frames,
                                                    stack: s1.stack,
                                                    procs: s1.procs,
                                                    out: s1.out.push(
                                                        render_value(s1.stack.last()),
                                                    ),
                                                };
                                                assert(builtin_step(s1, word@)
                                                    == StepResult::Next(s2));
                                                assert(s2 =~~= vm_st(
                                                    *self,
                                                    callstack.deep_view(),
                                                ));
                                                lemma_steps_snoc(
                                                    init,
                                                    n,
                                                    vm_st(*self, callstack.deep_view()),
                                                );
                                                n = n + 1;
                                            }
                                        } else {
                                            proof {
                                                assert(builtin_step(s1, word@)
                                                    == StepResult::Fail(
                                                    VmError::UnknownWord,
                                                    s1,
                                                ));
                                                lemma_steps_to_run(init, n);
                                                lemma_run_monotonic(init, n, STEP_BUDGET as nat);
                                            }
                                            return Err(VmError::UnknownWord);
                                        }
                                    },
                                }
                            }
                        },
                    }
                },
            }
            if budget == 0 {
                proof {
                    lemma_steps_none_run(init, STEP_BUDGET as nat, n);
                }
                return Err(VmError::StepLimitExceeded);
            }
            budget = budget - 1;
        }
    }

    /// Tokenizes one raw line and executes it.
    pub fn interpret_line(&mut self, line: String) -> (r: Result<String, VmError>)
        ensures
            final(self).verbose == old(self).verbose,
            interpret_post(
                vm_st(
                    *old(self),
                    seq![AbsFrame { tokens: tokenize_spec(line@), pos: 0 }],
                ),
                *final(self),
                r,
            ),
    {
        let words = tokenize(line.as_str());
        let pc = Program::from_stream(words);
        proof {
            assert(seq![pc@] =~~= seq![AbsFrame { tokens: tokenize_spec(line@), pos: 0 }]);
        }
        self.interpret(pc)
    }
}

} // verus!
