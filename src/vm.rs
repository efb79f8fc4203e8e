use vstd::prelude::*;
use std::rc::Rc;
use crate::chunk::{balanced, need, net, rel, Chunk, OpCode};
use crate::objects::StringObject;
use crate::stack::Stack;
use crate::value::{falsey, negate_bits, Val, Value, SIGN_BIT};

verus! {

/// Why a run stopped with an error.
#[derive(Debug)]
pub enum RuntimeError {
    /// A value was needed and the stack was empty.
    StackUnderflow,
    /// An operand had the wrong kind.
    TypeMismatch,
    /// The instruction pointer passed the end without a Return; it holds the
    /// pointer.
    ExhaustedProgram(usize),
    /// Any other failure, with a message.
    Other(String),
}

impl RuntimeError {
    pub fn new(message: &str) -> (r: RuntimeError)
        ensures
            r is Other,
            r->Other_0@ == message@,
    {
        Self::Other(String::from_str(message))
    }
}

/// An arithmetic operation on two binary64 numbers.
#[derive(PartialEq, Eq, Structural, Debug, Clone, Copy)]
pub enum NumOp {
    Add,
    Subtract,
    Multiply,
    Divide,
}

/// Where a run stopped.
#[derive(Debug)]
pub enum Exec {
    /// A Return took this value off the stack.
    Halted(Value),
    /// A runtime check failed.
    Failed(RuntimeError),
    /// The machine popped two numbers (left, then right operand, as bits) and
    /// waits for the result of the operation to be pushed before it goes on.
    Arithmetic(NumOp, u64, u64),
}

/// The effect of one instruction, or of a run, as mathematics sees it.
pub enum Outcome {
    Continue,
    Halted(Val),
    Failed(RuntimeError),
    Arithmetic(NumOp, u64, u64),
}

pub open spec fn outcome_of(e: Exec) -> Outcome {
    match e {
        Exec::Halted(v) => Outcome::Halted(v@),
        Exec::Failed(err) => Outcome::Failed(err),
        Exec::Arithmetic(op, a, b) => Outcome::Arithmetic(op, a, b),
    }
}

/// Pops the right operand, then the left one; both must be numbers.
pub open spec fn pop_two_numbers(st: Seq<Val>, op: NumOp) -> (Seq<Val>, Outcome) {
    if st.len() == 0 {
        (st, Outcome::Failed(RuntimeError::StackUnderflow))
    } else if !(st.last() is Number) {
        (st.drop_last(), Outcome::Failed(RuntimeError::TypeMismatch))
    } else {
        let s1 = st.drop_last();
        if s1.len() == 0 {
            (s1, Outcome::Failed(RuntimeError::StackUnderflow))
        } else if !(s1.last() is Number) {
            (s1.drop_last(), Outcome::Failed(RuntimeError::TypeMismatch))
        } else {
            (s1.drop_last(), Outcome::Arithmetic(op, s1.last()->Number_0, st.last()->Number_0))
        }
    }
}

/// Add on two texts: the right operand is on top; the result puts the left
/// one first.
pub open spec fn concat_top(st: Seq<Val>) -> (Seq<Val>, Outcome) {
    let s1 = st.drop_last();
    if s1.len() == 0 {
        (s1, Outcome::Failed(RuntimeError::StackUnderflow))
    } else if !(s1.last() is Str) {
        (s1.drop_last(), Outcome::Failed(RuntimeError::TypeMismatch))
    } else {
        (s1.drop_last().push(Val::Str(s1.last()->Str_0 + st.last()->Str_0)), Outcome::Continue)
    }
}

/// One instruction: the stack and pointer after it, and its outcome.
pub open spec fn step_spec(code: Seq<OpCode>, consts: Seq<Val>, st: Seq<Val>, ip: int) -> (
    Seq<Val>,
    int,
    Outcome,
) {
    if ip < 0 || ip >= code.len() {
        (st, ip, Outcome::Failed(RuntimeError::ExhaustedProgram(ip as usize)))
    } else {
        let n = ip + 1;
        match code[ip] {
            OpCode::Return => if st.len() == 0 {
                (st, n, Outcome::Failed(RuntimeError::StackUnderflow))
            } else {
                (st.drop_last(), n, Outcome::Halted(st.last()))
            },
            OpCode::Constant(i) => (st.push(consts[i as int]), n, Outcome::Continue),
            OpCode::Nil => (st.push(Val::Nil), n, Outcome::Continue),
            OpCode::True => (st.push(Val::Boolean(true)), n, Outcome::Continue),
            OpCode::False => (st.push(Val::Boolean(false)), n, Outcome::Continue),
            OpCode::Negate => if st.len() == 0 {
                (st, n, Outcome::Failed(RuntimeError::StackUnderflow))
            } else if st.last() is Number {
                (st.drop_last().push(Val::Number(negate_bits(st.last()->Number_0))), n, Outcome::Continue)
            } else {
                (st.drop_last(), n, Outcome::Failed(RuntimeError::TypeMismatch))
            },
            OpCode::Not => if st.len() == 0 {
                (st, n, Outcome::Failed(RuntimeError::StackUnderflow))
            } else {
                (st.drop_last().push(Val::Boolean(falsey(st.last()))), n, Outcome::Continue)
            },
            OpCode::Add => if st.len() == 0 {
                (st, n, Outcome::Failed(RuntimeError::StackUnderflow))
            } else if st.last() is Number {
                (pop_two_numbers(st, NumOp::Add).0, n, pop_two_numbers(st, NumOp::Add).1)
            } else if st.last() is Str {
                (concat_top(st).0, n, concat_top(st).1)
            } else {
                (st, n, Outcome::Failed(RuntimeError::TypeMismatch))
            },
            OpCode::Subtract => (pop_two_numbers(st, NumOp::Subtract).0, n, pop_two_numbers(st, NumOp::Subtract).1),
            OpCode::Multiply => (pop_two_numbers(st, NumOp::Multiply).0, n, pop_two_numbers(st, NumOp::Multiply).1),
            OpCode::Divide => (pop_two_numbers(st, NumOp::Divide).0, n, pop_two_numbers(st, NumOp::Divide).1),
        }
    }
}

/// Instructions one after another until one does not simply continue.
pub open spec fn run_spec(code: Seq<OpCode>, consts: Seq<Val>, st: Seq<Val>, ip: int) -> (
    Seq<Val>,
    int,
    Outcome,
)
    decreases code.len() - ip,
{
    let r = step_spec(code, consts, st, ip);
    if r.2 is Continue && 0 <= ip < code.len() {
        run_spec(code, consts, r.0, ip + 1)
    } else {
        r
    }
}

/// The stack machine that runs a chunk.
#[derive(Debug)]
pub struct VM {
    pub stack: Stack,
    ip: usize,
}

impl VM {
    /// The instruction pointer.
    /// The operand stack, bottom first.
    pub closed spec fn operands(&self) -> Seq<Val> {
        self.stack@
    }

    pub closed spec fn pc(&self) -> int {
        self.ip as int
    }

    pub fn new() -> (r: VM)
        ensures
            r.operands() == Seq::<Val>::empty(),
            r.pc() == 0,
    {
        VM { stack: Stack::new(), ip: 0 }
    }

    /// Pushes the result of an operation that a run asked for.
    pub fn supply_number(&mut self, bits: u64)
        ensures
            final(self).operands() == old(self).operands().push(Val::Number(bits)),
            final(self).pc() == old(self).pc(),
            final(self).pc() >= 0,
    {
        self.stack.push(Value::Number(bits));
    }

    /// Pops the right and then the left number operand.
    fn binary(&mut self, op: NumOp) -> (r: Exec)
        ensures
            final(self).pc() == old(self).pc(),
            (final(self).operands(), outcome_of(r)) == pop_two_numbers(old(self).operands(), op),
    {
        let b = match self.stack.pop_number() {
            Ok(b) => b,
            Err(e) => return Exec::Failed(e),
        };
        let a = match self.stack.pop_number() {
            Ok(a) => a,
            Err(e) => return Exec::Failed(e),
        };
        Exec::Arithmetic(op, a, b)
    }

    /// Add on two texts: pops the right and then the left one, pushes them
    /// joined in a new text.
    fn concatenate(&mut self) -> (r: Option<Exec>)
        requires
            old(self).operands().len() > 0,
            old(self).operands().last() is Str,
        ensures
            final(self).pc() == old(self).pc(),
            final(self).operands() == concat_top(old(self).operands()).0,
            (r is None) == (concat_top(old(self).operands()).1 is Continue),
            r is Some ==> outcome_of(r->Some_0) == concat_top(old(self).operands()).1,
    {
        let b = match self.stack.pop_string() {
            Ok(b) => b,
            Err(e) => return Some(Exec::Failed(e)),
        };
        let a = match self.stack.pop_string() {
            Ok(a) => a,
            Err(e) => return Some(Exec::Failed(e)),
        };
        let mut joined = a.value.clone();
        joined.append(b.value.as_str());
        self.stack.push(Value::String(Rc::new(StringObject::from_owned(joined))));
        None
    }

    /// Runs the instruction at the pointer; `None` when execution simply goes on.
    fn step(&mut self, chunk: &Chunk) -> (r: Option<Exec>)
        requires
            chunk.runnable(),
            old(self).pc() <= chunk.ops().len(),
        ensures
            final(self).pc() <= chunk.ops().len(),
            ({
                let s = step_spec(chunk.ops(), chunk.consts(), old(self).operands(), old(self).pc());
                &&& final(self).operands() == s.0
                &&& final(self).pc() == s.1
                &&& (r is None) == (s.2 is Continue)
                &&& r is Some ==> outcome_of(r->Some_0) == s.2
            }),
    {
        if self.ip >= chunk.op_count() {
            return Some(Exec::Failed(RuntimeError::ExhaustedProgram(self.ip)));
        }
        let op = match chunk.op_get(self.ip) {
            None => return Some(Exec::Failed(RuntimeError::ExhaustedProgram(self.ip))),
            Some(op) => *op,
        };
        self.ip += 1;
        match op {
            OpCode::Return => match self.stack.pop() {
                Ok(v) => Some(Exec::Halted(v)),
                Err(e) => Some(Exec::Failed(e)),
            },
            OpCode::Constant(i) => {
                let constant = chunk.read_constant(i).share();
                self.stack.push(constant);
                None
            },
            OpCode::Nil => {
                self.stack.push(Value::Nil);
                None
            },
            OpCode::True => {
                self.stack.push(Value::Boolean(true));
                None
            },
            OpCode::False => {
                self.stack.push(Value::Boolean(false));
                None
            },
            OpCode::Negate => match self.stack.pop_number() {
                Ok(n) => {
                    self.stack.push(Value::Number(n ^ SIGN_BIT));
                    None
                },
                Err(e) => Some(Exec::Failed(e)),
            },
            OpCode::Not => match self.stack.pop() {
                Ok(v) => {
                    let b = v.is_falsey();
                    self.stack.push(Value::Boolean(b));
                    None
                },
                Err(e) => Some(Exec::Failed(e)),
            },
            OpCode::Add => {
                // The top operand picks the kind of addition.
                let top: u8 = match self.stack.peek() {
                    Err(e) => return Some(Exec::Failed(e)),
                    Ok(Value::Number(_)) => 0,
                    Ok(Value::String(_)) => 1,
                    Ok(_) => 2,
                };
                if top == 0 {
                    Some(self.binary(NumOp::Add))
                } else if top == 1 {
                    self.concatenate()
                } else {
                    Some(Exec::Failed(RuntimeError::TypeMismatch))
                }
            },
            OpCode::Subtract => Some(self.binary(NumOp::Subtract)),
            OpCode::Multiply => Some(self.binary(NumOp::Multiply)),
            OpCode::Divide => Some(self.binary(NumOp::Divide)),
        }
    }

    /// Runs from the current pointer and stack until a Return, a failed
    /// check, or an arithmetic operation that the caller must carry out
    /// (push its result with `supply_number`, then call `run` again).
    pub fn run(&mut self, function: &Chunk) -> (r: Exec)
        requires
            function.runnable(),
            old(self).pc() <= function.ops().len(),
        ensures
            0 <= final(self).pc() <= function.ops().len(),
            ({
                let s = run_spec(function.ops(), function.consts(), old(self).operands(), old(self).pc());
                &&& final(self).operands() == s.0
                &&& final(self).pc() == s.1
                &&& outcome_of(r) == s.2
            }),
    {
        let ghost goal = run_spec(function.ops(), function.consts(), self.operands(), self.pc());
        loop
            invariant
                function.runnable(),
                self.pc() <= function.ops().len(),
                run_spec(function.ops(), function.consts(), self.operands(), self.pc()) == goal,
                goal == run_spec(function.ops(), function.consts(), old(self).operands(), old(self).pc()),
            decreases function.ops().len() - self.pc(),
        {
            let ghost st0 = self.operands();
            let ghost ip0 = self.pc();
            let ghost s = step_spec(function.ops(), function.consts(), st0, ip0);
            proof {
                assert(run_spec(function.ops(), function.consts(), st0, ip0) == if s.2 is Continue && 0
                    <= ip0 < function.ops().len() {
                    run_spec(function.ops(), function.consts(), s.0, ip0 + 1)
                } else {
                    s
                });
            }
            match self.step(function) {
                None => {},
                Some(e) => return e,
            }
        }
    }

    /// Runs a chunk from its first instruction on an empty stack.
    pub fn run_main(&mut self, function: &Chunk) -> (r: Exec)
        requires
            function.runnable(),
        ensures
            0 <= final(self).pc() <= function.ops().len(),
            ({
                let s = run_spec(function.ops(), function.consts(), Seq::<Val>::empty(), 0);
                &&& final(self).operands() == s.0
                &&& final(self).pc() == s.1
                &&& outcome_of(r) == s.2
            }),
    {
        self.stack = Stack::new();
        self.ip = 0;
        self.run(function)
    }
}

/// An instruction that only pushes a value.
pub open spec fn is_push(op: OpCode) -> bool {
    op is Constant || op is Nil || op is True || op is False
}

/// A run can run out of instructions only at the very end: when it reports
/// ExhaustedProgram, the pointer has just passed the last instruction.
pub proof fn exhaustion_only_past_the_end(code: Seq<OpCode>, consts: Seq<Val>, st: Seq<Val>, ip: int)
    requires
        0 <= ip <= code.len(),
        code.len() <= usize::MAX,
    ensures
        run_spec(code, consts, st, ip).2 is Failed && run_spec(code, consts, st, ip).2->Failed_0 is ExhaustedProgram
            ==> run_spec(code, consts, st, ip).2 == Outcome::Failed(RuntimeError::ExhaustedProgram(code.len() as usize))
            && run_spec(code, consts, st, ip).1 == code.len(),
    decreases code.len() - ip,
{
    let s = step_spec(code, consts, st, ip);
    if s.2 is Continue && ip < code.len() {
        exhaustion_only_past_the_end(code, consts, s.0, ip + 1);
    }
}

/// Code of pushes alone, without a Return, runs to its end and reports
/// ExhaustedProgram with the pointer just past the last instruction; every
/// value it pushed is still on the stack.
pub proof fn pushes_without_return_exhaust(code: Seq<OpCode>, consts: Seq<Val>, st: Seq<Val>, ip: int)
    requires
        0 <= ip <= code.len(),
        code.len() <= usize::MAX,
        forall|k: int| 0 <= k < code.len() ==> is_push(#[trigger] code[k]),
    ensures
        run_spec(code, consts, st, ip).2 == Outcome::Failed(RuntimeError::ExhaustedProgram(code.len() as usize)),
        run_spec(code, consts, st, ip).1 == code.len(),
        run_spec(code, consts, st, ip).0.len() == st.len() + code.len() - ip,
    decreases code.len() - ip,
{
    if ip < code.len() {
        assert(is_push(code[ip]));
        pushes_without_return_exhaust(code, consts, step_spec(code, consts, st, ip).0, ip + 1);
    }
}

/// An Add whose only operand before it is one pushed constant, a number or a
/// text, stops the run with StackUnderflow.
pub proof fn add_after_one_constant_underflows(code: Seq<OpCode>, consts: Seq<Val>, i: usize)
    requires
        code.len() >= 2,
        code[0] == OpCode::Constant(i),
        code[1] == OpCode::Add,
        i < consts.len(),
        consts[i as int] is Number || consts[i as int] is Str,
    ensures
        run_spec(code, consts, Seq::<Val>::empty(), 0).2 == Outcome::Failed(RuntimeError::StackUnderflow),
{
    let s0 = Seq::<Val>::empty();
    let s1 = step_spec(code, consts, s0, 0);
    assert(s1.0 == s0.push(consts[i as int]));
    assert(s1.0.drop_last() =~= s0);
    let s2 = step_spec(code, consts, s1.0, 1);
    assert(run_spec(code, consts, s1.0, 1) == s2);
}

/// Balanced code never runs short of operands: started with as many values
/// as the code before the pointer leaves, a run never reports StackUnderflow.
/// When it stops for an arithmetic operation, pushing the result restores
/// that height, so a resumed run is covered again.
pub proof fn balanced_code_never_underflows(code: Seq<OpCode>, consts: Seq<Val>, st: Seq<Val>, ip: int)
    requires
        balanced(code),
        0 <= ip <= code.len(),
        st.len() == rel(code, 0, ip),
    ensures
        run_spec(code, consts, st, ip).2 != Outcome::Failed(RuntimeError::StackUnderflow),
        run_spec(code, consts, st, ip).2 is Arithmetic ==> run_spec(code, consts, st, ip).0.len() + 1 == rel(
            code,
            0,
            run_spec(code, consts, st, ip).1,
        ),
    decreases code.len() - ip,
{
    if ip < code.len() {
        let op = code[ip];
        assert(rel(code, 0, ip) >= need(op));
        assert(rel(code, 0, ip + 1) == rel(code, 0, ip) + net(op));
        let s = step_spec(code, consts, st, ip);
        if s.2 is Continue {
            balanced_code_never_underflows(code, consts, s.0, ip + 1);
        }
    }
}

/// A run that stops for an arithmetic operation has moved the pointer on,
/// and not past the end.
pub proof fn lemma_run_advances(code: Seq<OpCode>, consts: Seq<Val>, st: Seq<Val>, ip: int)
    requires
        0 <= ip <= code.len(),
    ensures
        ip <= run_spec(code, consts, st, ip).1 <= code.len(),
        ip < code.len() ==> ip < run_spec(code, consts, st, ip).1,
    decreases code.len() - ip,
{
    let s = step_spec(code, consts, st, ip);
    if s.2 is Continue && ip < code.len() {
        lemma_run_advances(code, consts, s.0, ip + 1);
    }
}

/// A chunk whose last instruction is Return never reports ExhaustedProgram.
pub proof fn ending_in_return_never_exhausts(code: Seq<OpCode>, consts: Seq<Val>, st: Seq<Val>, ip: int)
    requires
        code.len() >= 1,
        code.last() == OpCode::Return,
        0 <= ip < code.len(),
    ensures
        !(run_spec(code, consts, st, ip).2 is Failed && run_spec(code, consts, st, ip).2->Failed_0 is ExhaustedProgram),
        run_spec(code, consts, st, ip).2 is Arithmetic ==> run_spec(code, consts, st, ip).1 < code.len(),
        run_spec(code, consts, st, ip).2 is Failed ==> run_spec(code, consts, st, ip).2->Failed_0 is StackUnderflow
            || run_spec(code, consts, st, ip).2->Failed_0 is TypeMismatch,
    decreases code.len() - ip,
{
    let s = step_spec(code, consts, st, ip);
    if s.2 is Continue && ip + 1 < code.len() {
        ending_in_return_never_exhausts(code, consts, s.0, ip + 1);
    }
}

/// A run resumed after each arithmetic stop: the k-th stop is answered with
/// `answers[k]`, pushed as a number. Once the answers run out, a stop is the
/// outcome.
pub open spec fn run_answered(code: Seq<OpCode>, consts: Seq<Val>, st: Seq<Val>, ip: int, answers: Seq<u64>) -> Outcome
    decreases code.len() - ip,
{
    let r = run_spec(code, consts, st, ip);
    if r.2 is Arithmetic && answers.len() > 0 && ip < r.1 <= code.len() {
        run_answered(code, consts, r.0.push(Val::Number(answers[0])), r.1, answers.drop_first())
    } else {
        r.2
    }
}

/// Each answer of `answers` is one that `arith` may give for the stop that
/// it answers in `run_answered`.
pub open spec fn answers_fit<G: Fn(NumOp, u64, u64) -> u64>(
    code: Seq<OpCode>,
    consts: Seq<Val>,
    st: Seq<Val>,
    ip: int,
    answers: Seq<u64>,
    arith: G,
) -> bool
    decreases code.len() - ip,
{
    let r = run_spec(code, consts, st, ip);
    if r.2 is Arithmetic && answers.len() > 0 && ip < r.1 <= code.len() {
        &&& arith.ensures((r.2->Arithmetic_0, r.2->Arithmetic_1, r.2->Arithmetic_2), answers[0])
        &&& answers_fit(code, consts, r.0.push(Val::Number(answers[0])), r.1, answers.drop_first(), arith)
    } else {
        true
    }
}

} // verus!
