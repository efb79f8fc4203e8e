use vstd::prelude::*;
use crate::chunk::{
    balanced,
    constants_in_range,
    frag_ok,
    lemma_balanced_return,
    lemma_frag_binary,
    lemma_frag_join,
    lemma_frag_prefix,
    lemma_frag_push,
    lemma_frag_unary,
    Chunk,
    OpCode,
};
use crate::precedence::{level, Precedence};
use crate::scanner::{is_number_text, Scanner};
use crate::syntax::{
    adv, binary_ops, compile_spec, in_text, is_binary_operator, next_token, p_binary, p_consume, p_expr,
    p_grouping, p_infix, p_loop, p_number, p_prec, p_prefix, p_unary, rem_of, rule_precedence, start_state,
    unary_ops, unchanged, with_error, Parsed, PState, Tok,
};
use crate::token::{TokenResult, TokenType};
use crate::value::{Val, Value};

verus! {

/// A compile error: the line it was found on and what was wrong.
#[derive(Debug)]
pub struct Diagnostic {
    pub line: i32,
    pub message: String,
}

/// A token that is no error carries its text; a number carries a literal.
pub open spec fn token_ok(t: TokenResult) -> bool {
    &&& t.token_type != TokenType::Error ==> t.data is Ok
    &&& t.token_type == TokenType::Number ==> t.data is Ok && is_number_text(t.data->Ok_0.lexeme@)
}

/// Every constant is a number that `to_number` gave for a number literal.
pub open spec fn literal_pool<F: Fn(&str) -> u64>(consts: Seq<Val>, to_number: F) -> bool {
    forall|k: int|
        0 <= k < consts.len() ==> #[trigger] consts[k] is Number && exists|s: &str|
            is_number_text(s@) && to_number.ensures((s,), consts[k]->Number_0)
}

/// The parser's view of a token.
pub open spec fn tok_of(t: TokenResult) -> Tok {
    Tok {
        kind: t.token_type,
        lexeme: if t.data is Ok {
            t.data->Ok_0.lexeme@
        } else {
            Seq::empty()
        },
    }
}

/// `new` is `old` with one constant appended for each literal of `lits`:
/// the number that `to_number` gave for that literal's text.
pub open spec fn adds_literals<F: Fn(&str) -> u64>(
    old: Seq<Val>,
    new: Seq<Val>,
    lits: Seq<Seq<char>>,
    to_number: F,
) -> bool {
    &&& new.len() == old.len() + lits.len()
    &&& new.subrange(0, old.len() as int) == old
    &&& forall|j: int|
        old.len() <= j < new.len() ==> #[trigger] new[j] is Number && exists|t: &str|
            t@ == lits[j - old.len()] && to_number.ensures((t,), new[j]->Number_0)
}

pub proof fn lemma_adds_nothing<F: Fn(&str) -> u64>(c: Seq<Val>, to_number: F)
    ensures
        adds_literals(c, c, Seq::empty(), to_number),
{
    assert(c.subrange(0, c.len() as int) =~= c);
}

pub proof fn lemma_adds_chain<F: Fn(&str) -> u64>(
    c0: Seq<Val>,
    c1: Seq<Val>,
    c2: Seq<Val>,
    l1: Seq<Seq<char>>,
    l2: Seq<Seq<char>>,
    to_number: F,
)
    requires
        adds_literals(c0, c1, l1, to_number),
        adds_literals(c1, c2, l2, to_number),
    ensures
        adds_literals(c0, c2, l1 + l2, to_number),
{
    let l = l1 + l2;
    assert forall|i: int| 0 <= i < c0.len() implies c2[i] == c0[i] by {
        assert(c2[i] == c2.subrange(0, c1.len() as int)[i]);
        assert(c1[i] == c1.subrange(0, c0.len() as int)[i]);
    }
    assert(c2.subrange(0, c0.len() as int) =~= c0);
    assert forall|j: int| c0.len() <= j < c2.len() implies #[trigger] c2[j] is Number && exists|t: &str|
        t@ == l[j - c0.len()] && to_number.ensures((t,), c2[j]->Number_0) by {
        if j < c1.len() {
            assert(c2[j] == c2.subrange(0, c1.len() as int)[j]);
            assert(c1[j] is Number);
            assert(l[j - c0.len()] == l1[j - c0.len()]);
        } else {
            assert(c2[j] is Number);
            assert(l[j - c0.len()] == l2[j - c1.len()]);
        }
    }
}

/// Compiler `c` and chunk `f1` stand where parsing step `p` leads, from a
/// chunk that was `f0`.
pub open spec fn follows<F: Fn(&str) -> u64>(c: Compiler, f0: Chunk, f1: Chunk, p: Parsed, to_number: F) -> bool {
    &&& c.state() == p.st
    &&& f1.ops() == f0.ops() + p.ops
    &&& adds_literals(f0.consts(), f1.consts(), p.lits, to_number)
}

/// A chunk that the compiler may keep writing to.
pub open spec fn frame_ok<F: Fn(&str) -> u64>(c: Chunk, to_number: F) -> bool {
    &&& c.wf()
    &&& constants_in_range(c.ops(), c.consts().len() as int)
    &&& literal_pool(c.consts(), to_number)
}

/// `b` is `a` with instructions and constants appended.
pub open spec fn extends(a: Chunk, b: Chunk) -> bool {
    &&& a.ops().len() <= b.ops().len()
    &&& b.ops().subrange(0, a.ops().len() as int) == a.ops()
    &&& a.consts().len() <= b.consts().len()
}

/// The line of a token, as an instruction's line; the placeholder's -1 is 0.
fn line_of(t: &TokenResult) -> (r: u32)
    ensures
        t.line >= 0 ==> r == t.line,
        t.line < 0 ==> r == 0,
{
    if t.line < 0 {
        0
    } else {
        t.line as u32
    }
}

/// Single-pass compiler: parses an expression by precedence climbing and
/// writes its bytecode as it goes.
#[derive(Debug)]
pub struct Compiler {
    scanner: Scanner,
    previous: TokenResult,
    current: TokenResult,
    pub had_error: bool,
    panic_mode: bool,
    errors: Vec<Diagnostic>,
}

impl Compiler {
    pub closed spec fn flags_ok(&self) -> bool {
        &&& self.panic_mode ==> self.had_error
        &&& self.had_error == (self.errors@.len() > 0)
    }

    pub closed spec fn wf(&self) -> bool {
        &&& self.scanner.wf()
        &&& 0 <= self.scanner.pos() <= self.scanner.text().len()
        &&& self.current.token_type == TokenType::Eof ==> self.scanner.pos() == self.scanner.text().len()
        &&& token_ok(self.current)
        &&& token_ok(self.previous)
        &&& self.flags_ok()
    }

    /// What is left to read: the characters after the cursor, and one for a
    /// current token that is not the end of input.
    pub closed spec fn rem(&self) -> int {
        rem_of(self.source(), self.state())
    }

    /// Where parsing stands, as the parser's functions on text see it.
    pub closed spec fn state(&self) -> PState {
        PState {
            pos: self.scanner.pos(),
            line: self.scanner.line_no(),
            cur: tok_of(self.current),
            prev: tok_of(self.previous),
            err: self.had_error,
        }
    }

    /// Whether a compile error has been reported.
    pub closed spec fn failed(&self) -> bool {
        self.had_error
    }

    pub closed spec fn source(&self) -> Seq<char> {
        self.scanner.text()
    }

    /// `b` is `a` after reading on, with errors only ever added.
    pub closed spec fn moves_on(a: Compiler, b: Compiler) -> bool {
        &&& b.wf()
        &&& b.source() == a.source()
        &&& b.rem() <= a.rem()
        &&& a.had_error ==> b.had_error
    }

    pub fn from_source(source: &str) -> (r: Compiler)
        requires
            source@.len() + 1 < i32::MAX as int,
        ensures
            r.wf(),
            !r.failed(),
            r.source() == source@,
            r.state() == start_state(),
    {
        Compiler {
            scanner: Scanner::new(source),
            previous: TokenResult::invalid(),
            current: TokenResult::invalid(),
            had_error: false,
            panic_mode: false,
            errors: Vec::new(),
        }
    }

    /// The compile errors reported so far, in order.
    pub fn errors(&self) -> (r: &Vec<Diagnostic>)
        requires
            self.wf(),
        ensures
            (r@.len() > 0) == self.failed(),
    {
        &self.errors
    }

    /// Whether a compile error has been reported.
    pub fn has_errors(&self) -> (r: bool)
        ensures
            r == self.failed(),
    {
        self.had_error
    }

    /// Hands over the compile errors.
    pub fn into_errors(self) -> (r: Vec<Diagnostic>)
        requires
            self.wf(),
        ensures
            (r@.len() > 0) == self.failed(),
    {
        self.errors
    }

    /// Reports an error, unless one was reported just before (panic mode).
    fn error_at(&mut self, line: i32, message: String)
        requires
            old(self).flags_ok(),
        ensures
            final(self).flags_ok(),
            final(self).had_error,
            final(self).scanner == old(self).scanner,
            final(self).current == old(self).current,
            final(self).previous == old(self).previous,
    {
        if !self.panic_mode {
            self.panic_mode = true;
            self.errors.push(Diagnostic { line, message });
            self.had_error = true;
        }
    }

    fn error_at_current(&mut self, message: &str)
        requires
            old(self).flags_ok(),
        ensures
            final(self).flags_ok(),
            final(self).had_error,
            final(self).scanner == old(self).scanner,
            final(self).current == old(self).current,
            final(self).previous == old(self).previous,
    {
        let line = self.current.line;
        self.error_at(line, String::from_str(message))
    }

    /// Moves on by one token, reporting and skipping lexical errors.
    fn advance(&mut self)
        requires
            old(self).wf(),
        ensures
            Compiler::moves_on(*old(self), *final(self)),
            final(self).previous == old(self).current,
            final(self).current.token_type != TokenType::Error,
            old(self).current.token_type != TokenType::Eof ==> final(self).rem() < old(self).rem(),
            final(self).state() == adv(old(self).source(), old(self).state()),
    {
        std::mem::swap(&mut self.previous, &mut self.current);
        let ghost pos0 = self.scanner.pos();
        let ghost was_eof = old(self).current.token_type == TokenType::Eof;
        let ghost src = self.scanner.text();
        let ghost target = next_token(src, self.scanner.pos(), self.scanner.line_no());
        let ghost mut seen = false;
        loop
            invariant_except_break
                target.0 == next_token(src, self.scanner.pos(), self.scanner.line_no()).0,
                target.1 == (seen || next_token(src, self.scanner.pos(), self.scanner.line_no()).1),
                self.had_error == (old(self).had_error || seen),
            invariant
                target == next_token(src, old(self).scanner.pos(), old(self).scanner.line_no()),
                src == old(self).scanner.text(),
                self.scanner.wf(),
                self.scanner.text() == old(self).scanner.text(),
                pos0 == old(self).scanner.pos(),
                pos0 <= self.scanner.pos() <= self.scanner.text().len(),
                was_eof == (old(self).current.token_type == TokenType::Eof),
                was_eof ==> self.scanner.pos() == self.scanner.text().len(),
                self.previous == old(self).current,
                token_ok(self.previous),
                self.flags_ok(),
                old(self).had_error ==> self.had_error,
            ensures
                self.scanner.pos() == target.0.next,
                self.scanner.line_no() == target.0.line,
                tok_of(self.current) == (Tok { kind: target.0.kind, lexeme: src.subrange(target.0.start, target.0.stop) }),
                self.had_error == (old(self).had_error || target.1),
                self.scanner.wf(),
                self.scanner.text() == old(self).scanner.text(),
                pos0 <= self.scanner.pos() <= self.scanner.text().len(),
                was_eof ==> self.current.token_type == TokenType::Eof,
                self.current.token_type == TokenType::Eof ==> self.scanner.pos() == self.scanner.text().len(),
                self.current.token_type != TokenType::Eof ==> pos0 < self.scanner.pos(),
                self.current.token_type != TokenType::Error,
                token_ok(self.current),
                self.previous == old(self).current,
                token_ok(self.previous),
                self.flags_ok(),
                old(self).had_error ==> self.had_error,
            decreases self.scanner.text().len() - self.scanner.pos(),
        {
            let t = self.scanner.scan_token();
            if t.token_type != TokenType::Error {
                self.current = t;
                break;
            }
            let line = t.line;
            match t.data {
                Err(message) => self.error_at(line, message),
                Ok(_) => self.error_at(line, String::new()),
            }
            proof {
                seen = true;
            }
        }
    }

    /// Steps over the current token when it has the expected kind; reports
    /// `message` otherwise.
    fn consume(&mut self, expected_type: TokenType, message: &str)
        requires
            old(self).wf(),
        ensures
            Compiler::moves_on(*old(self), *final(self)),
            final(self).state() == p_consume(old(self).source(), old(self).state(), expected_type),
    {
        if expected_type == self.current.token_type {
            self.advance()
        } else {
            self.error_at_current(message)
        }
    }

    /// Steps over the current token when it has the expected kind.
    fn matches(&mut self, expected: TokenType) -> (r: bool)
        requires
            old(self).wf(),
        ensures
            Compiler::moves_on(*old(self), *final(self)),
            r == (old(self).current.token_type == expected),
            !r ==> *final(self) == *old(self),
            r ==> final(self).state() == adv(old(self).source(), old(self).state()),
    {
        if self.current.token_type == expected {
            self.advance();
            true
        } else {
            false
        }
    }

    fn get_precedence(operator_type: TokenType) -> (r: Precedence)
        ensures
            r == rule_precedence(operator_type),
    {
        match operator_type {
            TokenType::Minus => Precedence::Term,
            TokenType::Plus => Precedence::Term,
            TokenType::Slash => Precedence::Factor,
            TokenType::Star => Precedence::Factor,
            TokenType::BangEqual => Precedence::Equality,
            TokenType::EqualEqual => Precedence::Equality,
            TokenType::Greater => Precedence::Comparison,
            TokenType::GreaterEqual => Precedence::Comparison,
            TokenType::Less => Precedence::Comparison,
            TokenType::LessEqual => Precedence::Comparison,
            TokenType::And => Precedence::And,
            TokenType::Or => Precedence::Or,
            TokenType::LeftParen => Precedence::Call,
            _ => Precedence::Lowest,
        }
    }
}


impl Compiler {
    /// Appends an instruction from the line of the token just read.
    fn emit_op<F: Fn(&str) -> u64>(&self, frame: &mut Chunk, op: OpCode, to_number: &F)
        requires
            frame_ok(*old(frame), *to_number),
            !(op is Constant),
        ensures
            frame_ok(*final(frame), *to_number),
            final(frame).ops() == old(frame).ops().push(op),
            final(frame).consts() == old(frame).consts(),
    {
        frame.write(op, line_of(&self.previous));
        proof {
            assert forall|k: int| 0 <= k < final(frame).ops().len() implies (#[trigger] final(frame).ops()[k] is Constant
                ==> final(frame).ops()[k]->Constant_0 < final(frame).consts().len()) by {
                if k < old(frame).ops().len() {
                    assert(final(frame).ops()[k] == old(frame).ops()[k]);
                }
            }
        }
    }

    fn emit_return<F: Fn(&str) -> u64>(&self, frame: &mut Chunk, to_number: &F)
        requires
            frame_ok(*old(frame), *to_number),
        ensures
            frame_ok(*final(frame), *to_number),
            final(frame).ops() == old(frame).ops().push(OpCode::Return),
            final(frame).consts() == old(frame).consts(),
    {
        self.emit_op(frame, OpCode::Return, to_number)
    }

    /// A number literal: its value goes to the pool, a Constant names it.
    fn number<F: Fn(&str) -> u64>(&mut self, frame: &mut Chunk, to_number: &F)
        requires
            old(self).wf(),
            old(self).previous.token_type == TokenType::Number,
            frame_ok(*old(frame), *to_number),
            forall|t: &str| to_number.requires((t,)),
        ensures
            Compiler::moves_on(*old(self), *final(self)),
            frame_ok(*final(frame), *to_number),
            extends(*old(frame), *final(frame)),
            !final(self).failed() ==> frag_ok(final(frame).ops(), old(frame).ops().len() as int, final(frame).ops().len() as int),
            follows(*final(self), *old(frame), *final(frame), p_number(old(self).state(), old(frame).consts().len() as int), *to_number),
    {
        if frame.constant_count() == usize::MAX {
            let line = self.previous.line;
            self.error_at(line, String::from_str("Too many constants in one chunk."));
            proof {
                assert(final(frame).ops().subrange(0, old(frame).ops().len() as int) =~= old(frame).ops());
                assert(final(frame).ops() =~= old(frame).ops() + Seq::<OpCode>::empty());
                lemma_adds_nothing(frame.consts(), *to_number);
            }
            return;
        }
        let ghost lexeme = self.state().prev.lexeme;
        let bits = match &self.previous.data {
            Ok(token) => {
                let text = token.lexeme.as_str();
                let b = to_number(text);
                proof {
                    assert(text@ == lexeme);
                    assert(exists|t: &str| t@ == lexeme && to_number.ensures((t,), b));
                }
                b
            },
            Err(_) => {
                proof {
                    assert(false);
                }
                return;
            },
        };
        let ghost before = *frame;
        let index = frame.add_constant(Value::Number(bits));
        frame.write(OpCode::Constant(index), line_of(&self.previous));
        proof {
            let c = final(frame).consts();
            assert forall|k: int| 0 <= k < c.len() implies #[trigger] c[k] is Number && exists|s: &str|
                is_number_text(s@) && to_number.ensures((s,), c[k]->Number_0) by {
                if k < before.consts().len() {
                    assert(c[k] == before.consts()[k]);
                } else {
                    assert(token_ok(self.previous));
                    assert(is_number_text(lexeme));
                }
            }
            assert forall|k: int| 0 <= k < final(frame).ops().len() implies (#[trigger] final(frame).ops()[k] is Constant
                ==> final(frame).ops()[k]->Constant_0 < final(frame).consts().len()) by {
                if k < before.ops().len() {
                    assert(final(frame).ops()[k] == before.ops()[k]);
                }
            }
            assert(final(frame).ops().subrange(0, before.ops().len() as int) =~= before.ops());
            lemma_frag_push(before.ops(), OpCode::Constant(index));
            assert(final(frame).ops() =~= before.ops() + seq![OpCode::Constant(index)]);
            assert(c.subrange(0, before.consts().len() as int) =~= before.consts());
            let lits = seq![lexeme];
            assert forall|j: int| before.consts().len() <= j < c.len() implies #[trigger] c[j] is Number && exists|t: &str|
                t@ == lits[j - before.consts().len()] && to_number.ensures((t,), c[j]->Number_0) by {
                assert(j == before.consts().len());
                assert(lits[0] == lexeme);
            }
        }
    }
}

impl Compiler {
    fn expression<F: Fn(&str) -> u64>(&mut self, frame: &mut Chunk, to_number: &F)
        requires
            old(self).wf(),
            frame_ok(*old(frame), *to_number),
            forall|t: &str| to_number.requires((t,)),
        ensures
            Compiler::moves_on(*old(self), *final(self)),
            frame_ok(*final(frame), *to_number),
            extends(*old(frame), *final(frame)),
            !final(self).failed() ==> frag_ok(final(frame).ops(), old(frame).ops().len() as int, final(frame).ops().len() as int),
            follows(*final(self), *old(frame), *final(frame), p_expr(old(self).source(), old(self).state(), old(frame).consts().len() as int), *to_number),
        decreases old(self).rem() + 1, 0int,
    {
        self.parse_precedence(Precedence::Assignment, frame, to_number)
    }

    /// `( expression )`: the inner code alone; the parentheses emit nothing.
    fn grouping<F: Fn(&str) -> u64>(&mut self, frame: &mut Chunk, to_number: &F)
        requires
            old(self).wf(),
            frame_ok(*old(frame), *to_number),
            forall|t: &str| to_number.requires((t,)),
        ensures
            Compiler::moves_on(*old(self), *final(self)),
            frame_ok(*final(frame), *to_number),
            extends(*old(frame), *final(frame)),
            !final(self).failed() ==> frag_ok(final(frame).ops(), old(frame).ops().len() as int, final(frame).ops().len() as int),
            follows(*final(self), *old(frame), *final(frame), p_grouping(old(self).source(), old(self).state(), old(frame).consts().len() as int), *to_number),
        decreases old(self).rem() + 1, 1int,
    {
        self.expression(frame, to_number);
        self.consume(TokenType::RightParen, "Expect ')' after expression.")
    }

    /// `-` or `!` with its operand, which binds at Unary level.
    fn unary<F: Fn(&str) -> u64>(&mut self, frame: &mut Chunk, to_number: &F)
        requires
            old(self).wf(),
            frame_ok(*old(frame), *to_number),
            forall|t: &str| to_number.requires((t,)),
        ensures
            Compiler::moves_on(*old(self), *final(self)),
            frame_ok(*final(frame), *to_number),
            extends(*old(frame), *final(frame)),
            !final(self).failed() ==> frag_ok(final(frame).ops(), old(frame).ops().len() as int, final(frame).ops().len() as int),
            follows(*final(self), *old(frame), *final(frame), p_unary(old(self).source(), old(self).state(), old(frame).consts().len() as int), *to_number),
        decreases old(self).rem() + 1, 1int,
    {
        let operator_type = self.previous.token_type;
        self.parse_precedence(Precedence::Unary, frame, to_number);
        let ghost mid = *frame;
        match operator_type {
            TokenType::Minus => self.emit_op(frame, OpCode::Negate, to_number),
            TokenType::Bang => self.emit_op(frame, OpCode::Not, to_number),
            _ => {},
        }
        proof {
            assert(final(frame).ops().subrange(0, mid.ops().len() as int) =~= mid.ops());
            assert(final(frame).ops().subrange(0, old(frame).ops().len() as int) =~= mid.ops().subrange(
                0,
                old(frame).ops().len() as int,
            ));
            if !self.had_error {
                if operator_type == TokenType::Minus {
                    lemma_frag_unary(mid.ops(), old(frame).ops().len() as int, OpCode::Negate);
                } else if operator_type == TokenType::Bang {
                    lemma_frag_unary(mid.ops(), old(frame).ops().len() as int, OpCode::Not);
                }
            }
            let e = p_prec(old(self).source(), old(self).state(), Precedence::Unary, old(frame).consts().len() as int);
            assert(final(frame).ops() =~= old(frame).ops() + (e.ops + unary_ops(operator_type)));
        }
    }

    /// The right operand of a binary operator, then the operator's
    /// instruction. The left operand's code starts at `left`.
    fn binary<F: Fn(&str) -> u64>(&mut self, frame: &mut Chunk, to_number: &F, Ghost(left): Ghost<int>)
        requires
            old(self).wf(),
            frame_ok(*old(frame), *to_number),
            forall|t: &str| to_number.requires((t,)),
            is_binary_operator(old(self).previous.token_type),
            !old(self).failed() ==> frag_ok(old(frame).ops(), left, old(frame).ops().len() as int),
        ensures
            Compiler::moves_on(*old(self), *final(self)),
            frame_ok(*final(frame), *to_number),
            extends(*old(frame), *final(frame)),
            !final(self).failed() ==> frag_ok(final(frame).ops(), left, final(frame).ops().len() as int),
            follows(*final(self), *old(frame), *final(frame), p_binary(old(self).source(), old(self).state(), old(frame).consts().len() as int), *to_number),
        decreases old(self).rem() + 1, 1int,
    {
        let operator_type = self.previous.token_type;
        let ghost a = frame.ops().len() as int;
        let next = Compiler::get_precedence(operator_type).next();
        self.parse_precedence(next, frame, to_number);
        let ghost mid = *frame;
        match operator_type {
            TokenType::Plus => self.emit_op(frame, OpCode::Add, to_number),
            TokenType::Minus => self.emit_op(frame, OpCode::Subtract, to_number),
            TokenType::Star => self.emit_op(frame, OpCode::Multiply, to_number),
            TokenType::Slash => self.emit_op(frame, OpCode::Divide, to_number),
            _ => {},
        }
        proof {
            assert(final(frame).ops().subrange(0, mid.ops().len() as int) =~= mid.ops());
            assert(final(frame).ops().subrange(0, old(frame).ops().len() as int) =~= mid.ops().subrange(
                0,
                old(frame).ops().len() as int,
            ));
            if !self.had_error {
                lemma_frag_prefix(old(frame).ops(), mid.ops(), left, a);
                let op = if operator_type == TokenType::Plus {
                    OpCode::Add
                } else if operator_type == TokenType::Minus {
                    OpCode::Subtract
                } else if operator_type == TokenType::Star {
                    OpCode::Multiply
                } else {
                    OpCode::Divide
                };
                if operator_type == TokenType::Plus || operator_type == TokenType::Minus || operator_type
                    == TokenType::Star || operator_type == TokenType::Slash {
                    lemma_frag_binary(mid.ops(), left, a, op);
                } else {
                    lemma_frag_join(mid.ops(), left, a, mid.ops().len() as int);
                }
            }
            let e = p_prec(old(self).source(), old(self).state(), next, old(frame).consts().len() as int);
            assert(final(frame).ops() =~= old(frame).ops() + (e.ops + binary_ops(operator_type)));
        }
    }

    fn prefix_rule<F: Fn(&str) -> u64>(&mut self, operator_type: TokenType, frame: &mut Chunk, to_number: &F)
        requires
            old(self).wf(),
            frame_ok(*old(frame), *to_number),
            forall|t: &str| to_number.requires((t,)),
            operator_type == old(self).previous.token_type,
        ensures
            Compiler::moves_on(*old(self), *final(self)),
            frame_ok(*final(frame), *to_number),
            extends(*old(frame), *final(frame)),
            !final(self).failed() ==> frag_ok(final(frame).ops(), old(frame).ops().len() as int, final(frame).ops().len() as int),
            follows(*final(self), *old(frame), *final(frame), p_prefix(old(self).source(), old(self).state(), operator_type, old(frame).consts().len() as int), *to_number),
        decreases (if operator_type == TokenType::LeftParen || operator_type == TokenType::Minus || operator_type
            == TokenType::Bang {
            old(self).rem() + 1
        } else {
            0
        }), 2int,
    {
        match operator_type {
            TokenType::LeftParen => self.grouping(frame, to_number),
            TokenType::Minus => self.unary(frame, to_number),
            TokenType::Number => self.number(frame, to_number),
            TokenType::Bang => self.unary(frame, to_number),
            _ => {
                let line = self.previous.line;
                self.error_at(line, String::from_str("Expect expression."));
                proof {
                    assert(final(frame).ops().subrange(0, old(frame).ops().len() as int) =~= old(frame).ops());
                    assert(final(frame).ops() =~= old(frame).ops() + Seq::<OpCode>::empty());
                    lemma_adds_nothing(frame.consts(), *to_number);
                }
            },
        }
    }

    fn infix_rule<F: Fn(&str) -> u64>(
        &mut self,
        operator_type: TokenType,
        frame: &mut Chunk,
        to_number: &F,
        Ghost(left): Ghost<int>,
    )
        requires
            old(self).wf(),
            frame_ok(*old(frame), *to_number),
            forall|t: &str| to_number.requires((t,)),
            operator_type == old(self).previous.token_type,
            0 <= left <= old(frame).ops().len(),
            !old(self).failed() ==> frag_ok(old(frame).ops(), left, old(frame).ops().len() as int),
        ensures
            Compiler::moves_on(*old(self), *final(self)),
            frame_ok(*final(frame), *to_number),
            extends(*old(frame), *final(frame)),
            !final(self).failed() ==> frag_ok(final(frame).ops(), left, final(frame).ops().len() as int),
            follows(*final(self), *old(frame), *final(frame), p_infix(old(self).source(), old(self).state(), operator_type, old(frame).consts().len() as int), *to_number),
        decreases old(self).rem() + 1, 2int,
    {
        if is_binary(operator_type) {
            self.binary(frame, to_number, Ghost(left))
        } else {
            proof {
                assert(final(frame).ops().subrange(0, old(frame).ops().len() as int) =~= old(frame).ops());
                assert(final(frame).ops() =~= old(frame).ops() + Seq::<OpCode>::empty());
                lemma_adds_nothing(frame.consts(), *to_number);
            }
        }
    }

    /// Parses an expression whose operators bind at least as tightly as
    /// `precedence`: one prefix form, then infix operators while they bind
    /// tightly enough.
    fn parse_precedence<F: Fn(&str) -> u64>(&mut self, precedence: Precedence, frame: &mut Chunk, to_number: &F)
        requires
            old(self).wf(),
            frame_ok(*old(frame), *to_number),
            forall|t: &str| to_number.requires((t,)),
            level(precedence) >= 1,
        ensures
            Compiler::moves_on(*old(self), *final(self)),
            frame_ok(*final(frame), *to_number),
            extends(*old(frame), *final(frame)),
            !final(self).failed() ==> frag_ok(final(frame).ops(), old(frame).ops().len() as int, final(frame).ops().len() as int),
            follows(*final(self), *old(frame), *final(frame), p_prec(old(self).source(), old(self).state(), precedence, old(frame).consts().len() as int), *to_number),
        decreases old(self).rem(), 5int,
    {
        let ghost s = self.source();
        let ghost nc = frame.consts().len() as int;
        let ghost goal = p_prec(s, self.state(), precedence, nc);
        let ghost a = frame.ops().len() as int;
        let ghost r0 = self.rem();
        self.advance();
        let operator_type = self.previous.token_type;
        self.prefix_rule(operator_type, frame, to_number);
        let ghost first = p_prefix(s, adv(s, old(self).state()), operator_type, nc);
        let ghost mut lits = first.lits;
        proof {
            assert(frame.ops().subrange(a, frame.ops().len() as int) =~= first.ops);
        }
        while precedence.le(&Compiler::get_precedence(self.current.token_type))
            invariant
                self.wf(),
                self.source() == s,
                s == old(self).source(),
                self.rem() <= r0,
                r0 == old(self).rem(),
                old(self).had_error ==> self.had_error,
                level(precedence) >= 1,
                frame_ok(*frame, *to_number),
                forall|t: &str| to_number.requires((t,)),
                extends(*old(frame), *frame),
                a == old(frame).ops().len(),
                nc == old(frame).consts().len(),
                !self.failed() ==> frag_ok(frame.ops(), a, frame.ops().len() as int),
                goal == p_prec(s, old(self).state(), precedence, nc),
                goal == p_loop(s, Parsed { st: self.state(), ops: frame.ops().subrange(a, frame.ops().len() as int), lits }, precedence, nc),
                adds_literals(old(frame).consts(), frame.consts(), lits, *to_number),
            decreases self.rem(),
        {
            let ghost before = *frame;
            let ghost acc = Parsed { st: self.state(), ops: frame.ops().subrange(a, frame.ops().len() as int), lits };
            self.advance();
            let operator_type = self.previous.token_type;
            let ghost st1 = self.state();
            self.infix_rule(operator_type, frame, to_number, Ghost(a));
            proof {
                assert(frame.ops().subrange(0, a) =~= frame.ops().subrange(0, before.ops().len() as int).subrange(0, a));
                let b = p_infix(s, st1, operator_type, nc + lits.len());
                lemma_adds_chain(old(frame).consts(), before.consts(), frame.consts(), lits, b.lits, *to_number);
                assert(frame.ops().subrange(a, frame.ops().len() as int) =~= acc.ops + b.ops);
                lits = lits + b.lits;
            }
        }
        proof {
            assert(frame.ops() =~= old(frame).ops() + frame.ops().subrange(a, frame.ops().len() as int));
        }
    }
}

/// The tokens whose infix handler parses a right operand.
fn is_binary(t: TokenType) -> (r: bool)
    ensures
        r == is_binary_operator(t),
{
    match t {
        TokenType::Minus | TokenType::Plus | TokenType::Slash | TokenType::Star | TokenType::BangEqual
        | TokenType::EqualEqual | TokenType::Greater | TokenType::GreaterEqual | TokenType::Less
        | TokenType::LessEqual => true,
        _ => false,
    }
}

impl Compiler {
    /// Compiles the whole source into a chunk: the code of the expression
    /// (none for empty input), then Return. Number literals become constants
    /// through `to_number`, which gives the bits of the binary64 that a
    /// literal denotes. What is emitted, which literals become constants and
    /// whether an error is reported are those of `compile_spec`. When no error
    /// was reported, the code finds every operand it needs: it is Return alone
    /// or balanced. A chunk from a run that reported an error must not be run.
    pub fn compile<F: Fn(&str) -> u64>(&mut self, to_number: F) -> (r: Chunk)
        requires
            old(self).wf(),
            forall|t: &str| to_number.requires((t,)),
        ensures
            final(self).wf(),
            final(self).source() == old(self).source(),
            old(self).failed() ==> final(self).failed(),
            r.runnable(),
            r.ops().len() >= 1,
            r.ops().last() == OpCode::Return,
            literal_pool(r.consts(), to_number),
            !final(self).failed() ==> r.ops() == seq![OpCode::Return] || balanced(r.ops()),
            ({
                let c = compile_spec(old(self).source(), old(self).state());
                &&& final(self).state() == c.st
                &&& final(self).failed() == c.st.err
                &&& r.ops() == c.ops
                &&& adds_literals(Seq::empty(), r.consts(), c.lits, to_number)
            }),
    {
        let mut frame = Chunk::new();
        proof {
            assert(literal_pool(frame.consts(), to_number));
        }
        self.advance();
        let ghost f0 = frame;
        if !self.matches(TokenType::Eof) {
            self.expression(&mut frame, &to_number);
        } else {
            proof {
                lemma_adds_nothing(frame.consts(), to_number);
            }
        }
        let ghost body = frame.ops();
        self.emit_return(&mut frame, &to_number);
        proof {
            if !self.had_error {
                if body.len() == 0 {
                    assert(frame.ops() =~= seq![OpCode::Return]);
                } else {
                    lemma_balanced_return(body);
                }
            }
            assert(body =~= Seq::<OpCode>::empty() + body);
            assert(f0.consts() =~= Seq::<Val>::empty());
        }
        frame
    }
}

} // verus!
