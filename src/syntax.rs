use vstd::prelude::*;
use crate::chunk::OpCode;
use crate::precedence::{level, prec_next, Precedence};
use crate::scanner::{scan_spec, Scan};
use crate::token::TokenType;

verus! {

// What compiling an expression does, stated over the source text: the
// tokens that the scanner yields, the instructions emitted for them, and the
// number literals that become constants, in order.

/// A token as the parser sees it: its kind and its text.
pub struct Tok {
    pub kind: TokenType,
    pub lexeme: Seq<char>,
}

/// Where parsing stands: the scanner's position and line, the current and
/// previous token, and whether an error has been reported.
pub struct PState {
    pub pos: int,
    pub line: int,
    pub cur: Tok,
    pub prev: Tok,
    pub err: bool,
}

/// What a parsing step leaves: the new state, the instructions emitted, and
/// the texts of the number literals whose constants were added, in order.
pub struct Parsed {
    pub st: PState,
    pub ops: Seq<OpCode>,
    pub lits: Seq<Seq<char>>,
}

/// The binding power of a token in infix position.
pub open spec fn rule_precedence(t: TokenType) -> Precedence {
    match t {
        TokenType::Minus | TokenType::Plus => Precedence::Term,
        TokenType::Slash | TokenType::Star => Precedence::Factor,
        TokenType::BangEqual | TokenType::EqualEqual => Precedence::Equality,
        TokenType::Greater | TokenType::GreaterEqual | TokenType::Less | TokenType::LessEqual => Precedence::Comparison,
        TokenType::And => Precedence::And,
        TokenType::Or => Precedence::Or,
        TokenType::LeftParen => Precedence::Call,
        _ => Precedence::Lowest,
    }
}

/// The tokens whose infix handler parses a right operand.
pub open spec fn is_binary_operator(t: TokenType) -> bool {
    t == TokenType::Minus || t == TokenType::Plus || t == TokenType::Slash || t == TokenType::Star
        || t == TokenType::BangEqual || t == TokenType::EqualEqual || t == TokenType::Greater || t
        == TokenType::GreaterEqual || t == TokenType::Less || t == TokenType::LessEqual
}

/// The instruction that a binary operator emits after its operands; the
/// equality and comparison operators emit none yet.
pub open spec fn binary_ops(t: TokenType) -> Seq<OpCode> {
    if t == TokenType::Plus {
        seq![OpCode::Add]
    } else if t == TokenType::Minus {
        seq![OpCode::Subtract]
    } else if t == TokenType::Star {
        seq![OpCode::Multiply]
    } else if t == TokenType::Slash {
        seq![OpCode::Divide]
    } else {
        Seq::empty()
    }
}

/// The instruction that a prefix operator emits after its operand.
pub open spec fn unary_ops(t: TokenType) -> Seq<OpCode> {
    if t == TokenType::Minus {
        seq![OpCode::Negate]
    } else if t == TokenType::Bang {
        seq![OpCode::Not]
    } else {
        Seq::empty()
    }
}

/// What is left to read: the characters after the cursor, and one for a
/// current token that is not the end of input.
pub open spec fn rem_of(s: Seq<char>, st: PState) -> int {
    (s.len() - st.pos) + if st.cur.kind == TokenType::Eof {
        0int
    } else {
        1int
    }
}

/// The next token that is no lexical error, and whether errors were passed.
pub open spec fn next_token(s: Seq<char>, pos: int, line: int) -> (Scan, bool)
    decreases s.len() - pos,
{
    let sc = scan_spec(s, pos, line);
    if sc.kind == TokenType::Error && pos < sc.next <= s.len() {
        (next_token(s, sc.next, sc.line).0, true)
    } else {
        (sc, false)
    }
}

/// Moves on by one token; lexical errors on the way are reported.
pub open spec fn adv(s: Seq<char>, st: PState) -> PState {
    let t = next_token(s, st.pos, st.line);
    PState {
        pos: t.0.next,
        line: t.0.line,
        cur: Tok { kind: t.0.kind, lexeme: s.subrange(t.0.start, t.0.stop) },
        prev: st.cur,
        err: st.err || t.1,
    }
}

pub open spec fn with_error(st: PState) -> PState {
    PState { err: true, ..st }
}

/// Steps over the current token if it has the given kind; an error otherwise.
pub open spec fn p_consume(s: Seq<char>, st: PState, kind: TokenType) -> PState {
    if st.cur.kind == kind {
        adv(s, st)
    } else {
        with_error(st)
    }
}

/// Nothing read, nothing emitted.
pub open spec fn unchanged(st: PState) -> Parsed {
    Parsed { st, ops: Seq::empty(), lits: Seq::empty() }
}

/// A number literal (the previous token) when `nc` constants exist already.
pub open spec fn p_number(st: PState, nc: int) -> Parsed {
    if nc >= usize::MAX {
        unchanged(with_error(st))
    } else {
        Parsed { st, ops: seq![OpCode::Constant(nc as usize)], lits: seq![st.prev.lexeme] }
    }
}

/// Where a fresh compiler stands: nothing read, no error, both tokens the
/// placeholder error token.
pub open spec fn start_state() -> PState {
    PState {
        pos: 0,
        line: 1,
        cur: Tok { kind: TokenType::Error, lexeme: Seq::empty() },
        prev: Tok { kind: TokenType::Error, lexeme: Seq::empty() },
        err: false,
    }
}

/// Whether `st` lies within the text.
pub open spec fn in_text(s: Seq<char>, st: PState) -> bool {
    0 <= st.pos <= s.len()
}

pub open spec fn p_expr(s: Seq<char>, st: PState, nc: int) -> Parsed
    decreases rem_of(s, st) + 1, 0int,
{
    if in_text(s, st) {
        p_prec(s, st, Precedence::Assignment, nc)
    } else {
        unchanged(st)
    }
}

pub open spec fn p_grouping(s: Seq<char>, st: PState, nc: int) -> Parsed
    decreases rem_of(s, st) + 1, 1int,
{
    let e = p_expr(s, st, nc);
    Parsed { st: p_consume(s, e.st, TokenType::RightParen), ops: e.ops, lits: e.lits }
}

pub open spec fn p_unary(s: Seq<char>, st: PState, nc: int) -> Parsed
    decreases rem_of(s, st) + 1, 1int,
{
    if in_text(s, st) {
        let e = p_prec(s, st, Precedence::Unary, nc);
        Parsed { st: e.st, ops: e.ops + unary_ops(st.prev.kind), lits: e.lits }
    } else {
        unchanged(st)
    }
}

pub open spec fn p_binary(s: Seq<char>, st: PState, nc: int) -> Parsed
    decreases rem_of(s, st) + 1, 1int,
{
    if in_text(s, st) {
        let e = p_prec(s, st, prec_next(rule_precedence(st.prev.kind)), nc);
        Parsed { st: e.st, ops: e.ops + binary_ops(st.prev.kind), lits: e.lits }
    } else {
        unchanged(st)
    }
}

pub open spec fn p_prefix(s: Seq<char>, st: PState, kind: TokenType, nc: int) -> Parsed
    decreases (if kind == TokenType::LeftParen || kind == TokenType::Minus || kind == TokenType::Bang {
        rem_of(s, st) + 1
    } else {
        0
    }), 2int,
{
    if kind == TokenType::LeftParen {
        p_grouping(s, st, nc)
    } else if kind == TokenType::Minus || kind == TokenType::Bang {
        p_unary(s, st, nc)
    } else if kind == TokenType::Number {
        p_number(st, nc)
    } else {
        unchanged(with_error(st))
    }
}

pub open spec fn p_infix(s: Seq<char>, st: PState, kind: TokenType, nc: int) -> Parsed
    decreases rem_of(s, st) + 1, 2int,
{
    if is_binary_operator(kind) {
        p_binary(s, st, nc)
    } else {
        unchanged(st)
    }
}

/// The infix loop: while the current token binds at least as tightly as
/// `min`, read it and its right operand. `acc` holds what was emitted so far.
pub open spec fn p_loop(s: Seq<char>, acc: Parsed, min: Precedence, nc: int) -> Parsed
    decreases rem_of(s, acc.st), 4int,
{
    let st = acc.st;
    if level(min) <= level(rule_precedence(st.cur.kind)) {
        let st1 = adv(s, st);
        if in_text(s, st1) && 0 <= rem_of(s, st1) < rem_of(s, st) {
            let b = p_infix(s, st1, st1.prev.kind, nc + acc.lits.len());
            if 0 <= rem_of(s, b.st) < rem_of(s, st) {
                p_loop(s, Parsed { st: b.st, ops: acc.ops + b.ops, lits: acc.lits + b.lits }, min, nc)
            } else {
                acc
            }
        } else {
            acc
        }
    } else {
        acc
    }
}

/// One prefix form, then the infix loop, for operators binding at least as
/// tightly as `min`.
pub open spec fn p_prec(s: Seq<char>, st: PState, min: Precedence, nc: int) -> Parsed
    decreases rem_of(s, st), 5int,
{
    let st1 = adv(s, st);
    if in_text(s, st1) && 0 <= rem_of(s, st1) <= rem_of(s, st) && (st1.prev.kind != TokenType::Eof
        ==> rem_of(s, st1) < rem_of(s, st)) {
        let a = p_prefix(s, st1, st1.prev.kind, nc);
        if 0 <= rem_of(s, a.st) <= rem_of(s, st) {
            p_loop(s, a, min, nc)
        } else {
            a
        }
    } else {
        unchanged(st1)
    }
}

/// A whole compilation: an expression unless the input is empty, then Return.
pub open spec fn compile_spec(s: Seq<char>, st: PState) -> Parsed {
    let st1 = adv(s, st);
    if st1.cur.kind == TokenType::Eof {
        Parsed { st: adv(s, st1), ops: seq![OpCode::Return], lits: Seq::empty() }
    } else {
        let e = p_expr(s, st1, 0);
        Parsed { st: e.st, ops: e.ops.push(OpCode::Return), lits: e.lits }
    }
}

} // verus!
