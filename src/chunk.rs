use vstd::prelude::*;
use crate::value::{Val, Value};

verus! {

/// One bytecode instruction.
#[derive(PartialEq, Eq, Structural, Debug, Clone, Copy)]
pub enum OpCode {
    Return,
    Constant(usize),
    Negate,
    Not,
    Nil,
    True,
    False,
    Add,
    Subtract,
    Multiply,
    Divide,
}

/// A compiled unit: instructions, the constants they refer to, and the source
/// line of each instruction.
#[derive(Debug)]
pub struct Chunk {
    code: Vec<OpCode>,
    constants: Vec<Value>,
    lines: Vec<u32>,
}

/// Every constant that an instruction names is in the pool.
pub open spec fn constants_in_range(ops: Seq<OpCode>, n: int) -> bool {
    forall|k: int| 0 <= k < ops.len() ==> (#[trigger] ops[k] is Constant ==> ops[k]->Constant_0 < n)
}

impl Chunk {
    pub closed spec fn ops(&self) -> Seq<OpCode> {
        self.code@
    }

    pub closed spec fn consts(&self) -> Seq<Val> {
        self.constants@.map_values(|v: Value| v@)
    }

    pub closed spec fn line_map(&self) -> Seq<u32> {
        self.lines@
    }

    /// The instruction and line arrays have equal length.
    pub closed spec fn wf(&self) -> bool {
        self.code@.len() == self.lines@.len()
    }

    /// Ready to run: every constant that an instruction names exists.
    pub open spec fn runnable(&self) -> bool {
        self.wf() && constants_in_range(self.ops(), self.consts().len() as int)
    }

    pub fn new() -> (r: Chunk)
        ensures
            r.wf(),
            r.ops() == Seq::<OpCode>::empty(),
            r.consts() == Seq::<Val>::empty(),
    {
        let r = Chunk { code: Vec::new(), constants: Vec::new(), lines: Vec::new() };
        proof {
            assert(r.consts() =~= Seq::<Val>::empty());
        }
        r
    }

    /// Appends an instruction from the given source line.
    pub fn write(&mut self, op: OpCode, line: u32)
        requires
            old(self).wf(),
        ensures
            final(self).wf(),
            final(self).ops() == old(self).ops().push(op),
            final(self).line_map() == old(self).line_map().push(line),
            final(self).consts() == old(self).consts(),
    {
        self.code.push(op);
        self.lines.push(line);
    }

    /// Appends a constant to the pool and returns its index, which never
    /// changes afterwards.
    pub fn add_constant(&mut self, value: Value) -> (r: usize)
        requires
            old(self).consts().len() < usize::MAX,
        ensures
            final(self).ops() == old(self).ops(),
            final(self).line_map() == old(self).line_map(),
            final(self).wf() == old(self).wf(),
            final(self).consts() == old(self).consts().push(value@),
            r == old(self).consts().len(),
    {
        self.constants.push(value);
        proof {
            assert(self.constants@.map_values(|v: Value| v@) =~= old(self).constants@.map_values(
                |v: Value| v@,
            ).push(value@));
        }
        self.constants.len() - 1
    }

    pub fn read_constant(&self, offset: usize) -> (r: &Value)
        requires
            offset < self.consts().len(),
        ensures
            r@ == self.consts()[offset as int],
    {
        &self.constants[offset]
    }

    /// Appends an instruction that has no source line (line 0).
    pub fn emit(&mut self, op: OpCode)
        requires
            old(self).wf(),
        ensures
            final(self).wf(),
            final(self).ops() == old(self).ops().push(op),
            final(self).line_map() == old(self).line_map().push(0),
            final(self).consts() == old(self).consts(),
    {
        self.write(op, 0)
    }

    /// Moves all of `ops` to the end of the code, in order, leaving `ops` empty.
    pub fn emit_many(&mut self, ops: &mut Vec<OpCode>)
        requires
            old(self).wf(),
        ensures
            final(self).wf(),
            final(self).ops() == old(self).ops() + old(ops)@,
            final(self).consts() == old(self).consts(),
            final(ops)@ == Seq::<OpCode>::empty(),
    {
        let mut i: usize = 0;
        while i < ops.len()
            invariant
                self.wf(),
                0 <= i <= ops@.len(),
                ops@ == old(ops)@,
                self.ops() == old(self).ops() + ops@.subrange(0, i as int),
                self.consts() == old(self).consts(),
            decreases ops@.len() - i,
        {
            self.emit(ops[i]);
            proof {
                assert(ops@.subrange(0, i + 1) =~= ops@.subrange(0, i as int).push(ops@[i as int]));
            }
            i += 1;
        }
        proof {
            assert(ops@.subrange(0, ops@.len() as int) =~= ops@);
        }
        ops.clear();
    }

    /// Adds `val` to the pool and appends a Constant instruction that names it.
    pub fn emit_constant(&mut self, val: Value)
        requires
            old(self).wf(),
            old(self).consts().len() < usize::MAX,
        ensures
            final(self).wf(),
            final(self).consts() == old(self).consts().push(val@),
            final(self).ops() == old(self).ops().push(OpCode::Constant(old(self).consts().len() as usize)),
    {
        let constant = self.add_constant(val);
        self.emit(OpCode::Constant(constant));
    }

    pub fn code(&self) -> (r: &[OpCode])
        ensures
            r@ == self.ops(),
    {
        self.code.as_slice()
    }

    pub fn op_count(&self) -> (r: usize)
        ensures
            r == self.ops().len(),
    {
        self.code.len()
    }

    pub fn constant_count(&self) -> (r: usize)
        ensures
            r == self.consts().len(),
    {
        self.constants.len()
    }

    pub fn op_get(&self, offset: usize) -> (r: Option<&OpCode>)
        ensures
            offset < self.ops().len() ==> r is Some && *r->Some_0 == self.ops()[offset as int],
            offset >= self.ops().len() ==> r is None,
    {
        if offset < self.code.len() {
            Some(&self.code[offset])
        } else {
            None
        }
    }

    /// Replaces the instruction at `op_offset`.
    pub fn op_patch(&mut self, op_offset: usize, new_op: OpCode)
        requires
            op_offset < old(self).ops().len(),
        ensures
            final(self).ops() == old(self).ops().update(op_offset as int, new_op),
            final(self).consts() == old(self).consts(),
            final(self).line_map() == old(self).line_map(),
            final(self).wf() == old(self).wf(),
    {
        self.code.set(op_offset, new_op);
    }

    /// Whether every constant that an instruction names is in the pool.
    pub fn is_runnable(&self) -> (r: bool)
        requires
            self.wf(),
        ensures
            r == self.runnable(),
    {
        let mut k: usize = 0;
        while k < self.code.len()
            invariant
                k <= self.ops().len(),
                forall|j: int| 0 <= j < k ==> (#[trigger] self.ops()[j] is Constant ==> self.ops()[j]->Constant_0 < self.consts().len()),
            decreases self.ops().len() - k,
        {
            match self.code[k] {
                OpCode::Constant(i) => {
                    if i >= self.constants.len() {
                        return false;
                    }
                },
                _ => {},
            }
            k += 1;
        }
        true
    }
}

/// How many values an instruction needs on the stack.
pub open spec fn need(op: OpCode) -> int {
    match op {
        OpCode::Return | OpCode::Negate | OpCode::Not => 1,
        OpCode::Add | OpCode::Subtract | OpCode::Multiply | OpCode::Divide => 2,
        _ => 0,
    }
}

/// How an instruction changes the stack height.
pub open spec fn net(op: OpCode) -> int {
    match op {
        OpCode::Constant(_) | OpCode::Nil | OpCode::True | OpCode::False => 1,
        OpCode::Negate | OpCode::Not => 0,
        _ => -1,
    }
}

/// The change of stack height over `code[a..b]`.
pub open spec fn rel(code: Seq<OpCode>, a: int, b: int) -> int
    decreases b - a,
{
    if b <= a {
        0
    } else {
        rel(code, a, b - 1) + net(code[b - 1])
    }
}

/// `code[a..b]`, run on any stack, finds every operand it needs and leaves
/// at least one more value than it found.
pub open spec fn frag_ok(code: Seq<OpCode>, a: int, b: int) -> bool {
    &&& 0 <= a <= b <= code.len()
    &&& forall|k: int| a <= k < b ==> rel(code, a, k) >= need(#[trigger] code[k])
    &&& rel(code, a, b) >= 1
}

/// Run from an empty stack, no instruction of `code` lacks an operand.
pub open spec fn balanced(code: Seq<OpCode>) -> bool {
    forall|k: int| 0 <= k < code.len() ==> rel(code, 0, k) >= need(#[trigger] code[k])
}

pub proof fn lemma_rel_split(code: Seq<OpCode>, a: int, b: int, c: int)
    requires
        a <= b <= c,
    ensures
        rel(code, a, c) == rel(code, a, b) + rel(code, b, c),
    decreases c - b,
{
    if b < c {
        lemma_rel_split(code, a, b, c - 1);
    }
}

pub proof fn lemma_rel_prefix(c1: Seq<OpCode>, c2: Seq<OpCode>, a: int, b: int)
    requires
        c1.len() <= c2.len(),
        c2.subrange(0, c1.len() as int) == c1,
        0 <= a,
        b <= c1.len(),
    ensures
        rel(c1, a, b) == rel(c2, a, b),
    decreases b - a,
{
    if a < b {
        assert(c1[b - 1] == c2.subrange(0, c1.len() as int)[b - 1]);
        lemma_rel_prefix(c1, c2, a, b - 1);
    }
}

/// A checked fragment stays checked when code is appended after it.
pub proof fn lemma_frag_prefix(c1: Seq<OpCode>, c2: Seq<OpCode>, a: int, b: int)
    requires
        frag_ok(c1, a, b),
        c1.len() <= c2.len(),
        c2.subrange(0, c1.len() as int) == c1,
    ensures
        frag_ok(c2, a, b),
{
    lemma_rel_prefix(c1, c2, a, b);
    assert forall|k: int| a <= k < b implies rel(c2, a, k) >= need(#[trigger] c2[k]) by {
        lemma_rel_prefix(c1, c2, a, k);
        assert(c1[k] == c2.subrange(0, c1.len() as int)[k]);
    }
}

/// Two checked fragments side by side form one.
pub proof fn lemma_frag_join(code: Seq<OpCode>, s: int, a: int, b: int)
    requires
        frag_ok(code, s, a),
        frag_ok(code, a, b),
    ensures
        frag_ok(code, s, b),
        rel(code, s, b) >= 2,
{
    lemma_rel_split(code, s, a, b);
    assert forall|k: int| s <= k < b implies rel(code, s, k) >= need(#[trigger] code[k]) by {
        if k >= a {
            lemma_rel_split(code, s, a, k);
        }
    }
}

/// A one-operand instruction after a checked fragment.
pub proof fn lemma_frag_unary(code: Seq<OpCode>, a: int, op: OpCode)
    requires
        frag_ok(code, a, code.len() as int),
        need(op) == 1,
        net(op) == 0,
    ensures
        frag_ok(code.push(op), a, code.len() as int + 1),
{
    assert(code.push(op).subrange(0, code.len() as int) =~= code);
    lemma_frag_prefix(code, code.push(op), a, code.len() as int);
    lemma_rel_prefix(code, code.push(op), a, code.len() as int);
}

/// A two-operand instruction after two checked fragments.
pub proof fn lemma_frag_binary(code: Seq<OpCode>, s: int, a: int, op: OpCode)
    requires
        frag_ok(code, s, a),
        frag_ok(code, a, code.len() as int),
        need(op) == 2,
        net(op) == -1,
    ensures
        frag_ok(code.push(op), s, code.len() as int + 1),
{
    let n = code.len() as int;
    let c = code.push(op);
    lemma_frag_join(code, s, a, n);
    assert(c.subrange(0, n) =~= code);
    lemma_frag_prefix(code, c, s, n);
    lemma_rel_prefix(code, c, s, n);
    assert(rel(c, s, n + 1) == rel(c, s, n) + net(op));
    assert forall|k: int| s <= k < n + 1 implies rel(c, s, k) >= need(#[trigger] c[k]) by {
        if k < n {
            assert(rel(c, s, k) >= need(c[k]));
        }
    }
}

/// One pushing instruction is a checked fragment.
pub proof fn lemma_frag_push(code: Seq<OpCode>, op: OpCode)
    requires
        net(op) == 1,
        need(op) == 0,
    ensures
        frag_ok(code.push(op), code.len() as int, code.len() as int + 1),
{
    let c = code.push(op);
    assert(rel(c, code.len() as int, code.len() as int) == 0);
}

/// A checked fragment from the start, then Return, is balanced.
pub proof fn lemma_balanced_return(code: Seq<OpCode>)
    requires
        frag_ok(code, 0, code.len() as int),
    ensures
        balanced(code.push(OpCode::Return)),
{
    let c = code.push(OpCode::Return);
    assert(c.subrange(0, code.len() as int) =~= code);
    lemma_frag_prefix(code, c, 0, code.len() as int);
}

} // verus!
