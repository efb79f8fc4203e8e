use vstd::prelude::*;
use crate::chunk::{balanced, rel, OpCode};
use crate::syntax::{compile_spec, start_state};
use crate::compiler::{Compiler, Diagnostic};
use crate::compiler::adds_literals;
use crate::value::{Val, Value};
use crate::vm::{
    balanced_code_never_underflows,
    ending_in_return_never_exhausts,
    lemma_run_advances,
    answers_fit,
    outcome_of,
    run_answered,
    run_spec,
    Outcome,
    Exec,
    NumOp,
    RuntimeError,
    VM,
};

verus! {

/// Why interpreting a source text gave no value.
#[derive(Debug)]
pub enum InterpretError {
    /// The source did not compile; the chunk was not run.
    Compile(Vec<Diagnostic>),
    /// The chunk stopped with a runtime error.
    Runtime(RuntimeError),
}

/// Compiles source text and runs it on one machine.
#[derive(Debug)]
pub struct Interpreter {
    vm: VM,
}

impl Interpreter {
    /// The machine's operand stack, bottom first.
    pub closed spec fn operands(&self) -> Seq<Val> {
        self.vm.operands()
    }

    pub fn new() -> (r: Interpreter)
        ensures
            r.operands() == Seq::<crate::value::Val>::empty(),
    {
        Interpreter { vm: VM::new() }
    }

    /// Compiles `source` and, when that reported no error, runs the chunk.
    /// `to_number` gives the binary64 bits of a number literal; `arith`
    /// carries out an operation on two binary64 numbers given by their bits.
    /// It fails to compile exactly when `compile_spec` reports an error.
    /// Otherwise the result is that of running the compiled code, with
    /// constants that `to_number` gave for its literals and each arithmetic
    /// stop answered by `arith`. A compiled chunk never runs out of
    /// instructions, and it runs short of operands only when the source held
    /// no expression (the chunk is Return alone).
    pub fn interpret<F: Fn(&str) -> u64, G: Fn(NumOp, u64, u64) -> u64>(
        &mut self,
        source: &str,
        to_number: F,
        arith: G,
    ) -> (r: Result<Value, InterpretError>)
        requires
            source@.len() + 1 < i32::MAX as int,
            forall|t: &str| to_number.requires((t,)),
            forall|op: NumOp, a: u64, b: u64| arith.requires((op, a, b)),
        ensures
            (r is Err && r->Err_0 is Compile) == compile_spec(source@, start_state()).st.err,
            ({
                let c = compile_spec(source@, start_state());
                !c.st.err ==> exists|consts: Seq<Val>, answers: Seq<u64>|
                    #![trigger run_answered(c.ops, consts, Seq::empty(), 0, answers)]
                    adds_literals(Seq::empty(), consts, c.lits, to_number) && answers_fit(
                        c.ops,
                        consts,
                        Seq::empty(),
                        0,
                        answers,
                        arith,
                    ) && result_is(r, run_answered(c.ops, consts, Seq::empty(), 0, answers))
            }),
            r is Err && r->Err_0 is Runtime ==> r->Err_0->Runtime_0 is TypeMismatch
                || r->Err_0->Runtime_0 is StackUnderflow,
            r is Err && r->Err_0 is Runtime && r->Err_0->Runtime_0 is StackUnderflow ==> compile_spec(
                source@,
                start_state(),
            ).ops == seq![OpCode::Return],
    {
        let mut compiler = Compiler::from_source(source);
        let chunk = compiler.compile(to_number);
        if compiler.has_errors() {
            return Err(InterpretError::Compile(compiler.into_errors()));
        }
        let ghost code = chunk.ops();
        let ghost consts = chunk.consts();
        proof {
            ending_in_return_never_exhausts(code, consts, Seq::empty(), 0);
            if balanced(code) {
                balanced_code_never_underflows(code, consts, Seq::empty(), 0);
            }
            assert forall|rest: Seq<u64>|
                run_answered(code, consts, Seq::empty(), 0, Seq::<u64>::empty() + rest) == run_answered(
                    code,
                    consts,
                    Seq::empty(),
                    0,
                    rest,
                ) by {
                assert(Seq::<u64>::empty() + rest =~= rest);
            }
            assert forall|rest: Seq<u64>|
                answers_fit(code, consts, Seq::empty(), 0, rest, arith) ==> answers_fit(
                    code,
                    consts,
                    Seq::empty(),
                    0,
                    Seq::<u64>::empty() + rest,
                    arith,
                ) by {
                assert(Seq::<u64>::empty() + rest =~= rest);
            }
        }
        let ghost mut st_k: Seq<Val> = Seq::empty();
        let ghost mut ip_k: int = 0;
        let ghost mut done: Seq<u64> = Seq::empty();
        let mut r = self.vm.run_main(&chunk);
        loop
            invariant
                chunk.runnable(),
                code == chunk.ops(),
                consts == chunk.consts(),
                code.len() >= 1,
                code.last() == OpCode::Return,
                0 <= self.vm.pc() <= code.len(),
                forall|op: NumOp, a: u64, b: u64| arith.requires((op, a, b)),
                outcome_of(r) is Failed ==> !(outcome_of(r)->Failed_0 is ExhaustedProgram)
                    && !(outcome_of(r)->Failed_0 is Other),
                outcome_of(r) is Arithmetic ==> self.vm.pc() < code.len(),
                code == seq![OpCode::Return] || balanced(code),
                balanced(code) ==> outcome_of(r) != crate::vm::Outcome::Failed(RuntimeError::StackUnderflow),
                balanced(code) && outcome_of(r) is Arithmetic ==> self.vm.operands().len() + 1 == rel(
                    code,
                    0,
                    self.vm.pc(),
                ),
                code == compile_spec(source@, start_state()).ops,
                !compile_spec(source@, start_state()).st.err,
                adds_literals(Seq::empty(), consts, compile_spec(source@, start_state()).lits, to_number),
                0 <= ip_k <= code.len(),
                run_spec(code, consts, st_k, ip_k).0 == self.vm.operands(),
                run_spec(code, consts, st_k, ip_k).1 == self.vm.pc(),
                run_spec(code, consts, st_k, ip_k).2 == outcome_of(r),
                forall|rest: Seq<u64>|
                    run_answered(code, consts, Seq::empty(), 0, done + rest) == #[trigger] run_answered(
                        code,
                        consts,
                        st_k,
                        ip_k,
                        rest,
                    ),
                forall|rest: Seq<u64>|
                    #[trigger] answers_fit(code, consts, st_k, ip_k, rest, arith) ==> answers_fit(
                        code,
                        consts,
                        Seq::empty(),
                        0,
                        done + rest,
                        arith,
                    ),
            decreases code.len() - self.vm.pc(),
        {
            match r {
                Exec::Arithmetic(op, a, b) => {
                    let v = arith(op, a, b);
                    let ghost st_prev = st_k;
                    let ghost ip_prev = ip_k;
                    proof {
                        lemma_run_advances(code, consts, st_k, ip_k);
                    }
                    self.vm.supply_number(v);
                    let ghost pc0 = self.vm.pc();
                    proof {
                        lemma_run_advances(code, consts, self.vm.operands(), pc0);
                        if pc0 < code.len() {
                            ending_in_return_never_exhausts(code, consts, self.vm.operands(), pc0);
                        }
                        if balanced(code) {
                            balanced_code_never_underflows(code, consts, self.vm.operands(), pc0);
                        }
                        let st_new = self.vm.operands();
                        lemma_answer_step(code, consts, st_prev, ip_prev, done, v, arith);
                        st_k = st_new;
                        ip_k = pc0;
                        done = done.push(v);
                    }
                    r = self.vm.run(&chunk);
                },
                Exec::Halted(v) => {
                    proof {
                        assert(done + Seq::<u64>::empty() =~= done);
                        assert(run_answered(code, consts, st_k, ip_k, Seq::empty()) == outcome_of(r));
                        assert(answers_fit(code, consts, st_k, ip_k, Seq::empty(), arith));
                    }
                    return Ok(v);
                },
                Exec::Failed(e) => {
                    proof {
                        assert(done + Seq::<u64>::empty() =~= done);
                        assert(run_answered(code, consts, st_k, ip_k, Seq::empty()) == outcome_of(r));
                        assert(answers_fit(code, consts, st_k, ip_k, Seq::empty(), arith));
                    }
                    return Err(InterpretError::Runtime(e));
                },
            }
        }
    }
}

/// Answering one arithmetic stop with `v` carries the replay facts from the
/// state before the run that stopped to the state after the answer.
proof fn lemma_answer_step<G: Fn(NumOp, u64, u64) -> u64>(
    code: Seq<OpCode>,
    consts: Seq<Val>,
    st: Seq<Val>,
    ip: int,
    done: Seq<u64>,
    v: u64,
    arith: G,
)
    requires
        0 <= ip <= code.len(),
        run_spec(code, consts, st, ip).2 is Arithmetic,
        ip < run_spec(code, consts, st, ip).1 <= code.len(),
        arith.ensures(
            (
                run_spec(code, consts, st, ip).2->Arithmetic_0,
                run_spec(code, consts, st, ip).2->Arithmetic_1,
                run_spec(code, consts, st, ip).2->Arithmetic_2,
            ),
            v,
        ),
        forall|rest: Seq<u64>|
            run_answered(code, consts, Seq::empty(), 0, done + rest) == #[trigger] run_answered(
                code,
                consts,
                st,
                ip,
                rest,
            ),
        forall|rest: Seq<u64>|
            #[trigger] answers_fit(code, consts, st, ip, rest, arith) ==> answers_fit(
                code,
                consts,
                Seq::empty(),
                0,
                done + rest,
                arith,
            ),
    ensures
        ({
            let st_new = run_spec(code, consts, st, ip).0.push(Val::Number(v));
            let ip_new = run_spec(code, consts, st, ip).1;
            &&& forall|rest: Seq<u64>|
                run_answered(code, consts, Seq::empty(), 0, done.push(v) + rest) == #[trigger] run_answered(
                    code,
                    consts,
                    st_new,
                    ip_new,
                    rest,
                )
            &&& forall|rest: Seq<u64>|
                #[trigger] answers_fit(code, consts, st_new, ip_new, rest, arith) ==> answers_fit(
                    code,
                    consts,
                    Seq::empty(),
                    0,
                    done.push(v) + rest,
                    arith,
                )
        }),
{
    let st_new = run_spec(code, consts, st, ip).0.push(Val::Number(v));
    let ip_new = run_spec(code, consts, st, ip).1;
    assert forall|rest: Seq<u64>|
        run_answered(code, consts, Seq::empty(), 0, done.push(v) + rest) == #[trigger] run_answered(
            code,
            consts,
            st_new,
            ip_new,
            rest,
        ) by {
        let ans = seq![v] + rest;
        assert(done.push(v) + rest =~= done + ans);
        assert(ans.drop_first() =~= rest);
        assert(ans[0] == v);
        assert(run_answered(code, consts, st, ip, ans) == run_answered(code, consts, st_new, ip_new, rest));
    }
    assert forall|rest: Seq<u64>|
        #[trigger] answers_fit(code, consts, st_new, ip_new, rest, arith) implies answers_fit(
            code,
            consts,
            Seq::empty(),
            0,
            done.push(v) + rest,
            arith,
        ) by {
        let ans = seq![v] + rest;
        assert(done.push(v) + rest =~= done + ans);
        assert(ans.drop_first() =~= rest);
        assert(ans[0] == v);
        assert(answers_fit(code, consts, st, ip, ans, arith));
    }
}

/// Whether an interpreter's result is the outcome of a run: the value that
/// Return took, or the runtime error.
pub open spec fn result_is(r: Result<Value, InterpretError>, o: Outcome) -> bool {
    match r {
        Ok(v) => o == Outcome::Halted(v@),
        Err(InterpretError::Runtime(e)) => o == Outcome::Failed(e),
        Err(InterpretError::Compile(_)) => false,
    }
}

} // verus!
