use vstd::prelude::*;

verus! {

/// Operator binding powers, weakest first.
#[derive(PartialEq, Eq, Structural, Debug, Copy, Clone)]
pub enum Precedence {
    Lowest,
    Assignment,  // =
    Or,  // or
    And,  // and
    Equality,  // == !=
    Comparison,  // < > <= >=
    Term,  // + -
    Factor,  // * /
    Unary,  // ! -
    Call,  // . ()
    Primary,
}

/// The position of a precedence level in the total order.
pub open spec fn level(p: Precedence) -> int {
    match p {
        Precedence::Lowest => 0,
        Precedence::Assignment => 1,
        Precedence::Or => 2,
        Precedence::And => 3,
        Precedence::Equality => 4,
        Precedence::Comparison => 5,
        Precedence::Term => 6,
        Precedence::Factor => 7,
        Precedence::Unary => 8,
        Precedence::Call => 9,
        Precedence::Primary => 10,
    }
}

/// The next tighter level; the tightest is its own successor.
pub open spec fn prec_next(p: Precedence) -> Precedence {
    match p {
        Precedence::Lowest => Precedence::Assignment,
        Precedence::Assignment => Precedence::Or,
        Precedence::Or => Precedence::And,
        Precedence::And => Precedence::Equality,
        Precedence::Equality => Precedence::Comparison,
        Precedence::Comparison => Precedence::Term,
        Precedence::Term => Precedence::Factor,
        Precedence::Factor => Precedence::Unary,
        Precedence::Unary => Precedence::Call,
        Precedence::Call => Precedence::Primary,
        Precedence::Primary => Precedence::Primary,
    }
}

impl Precedence {
    /// The level as an integer, for comparisons.
    pub fn rank(&self) -> (r: u8)
        ensures
            r as int == level(*self),
    {
        match self {
            Precedence::Lowest => 0,
            Precedence::Assignment => 1,
            Precedence::Or => 2,
            Precedence::And => 3,
            Precedence::Equality => 4,
            Precedence::Comparison => 5,
            Precedence::Term => 6,
            Precedence::Factor => 7,
            Precedence::Unary => 8,
            Precedence::Call => 9,
            Precedence::Primary => 10,
        }
    }

    /// The level with the given position, if there is one.
    pub fn from_level(v: i32) -> (r: Option<Precedence>)
        ensures
            (0 <= v <= 10) <==> r is Some,
            r is Some ==> level(r->Some_0) == v as int,
    {
        match v {
            0 => Some(Precedence::Lowest),
            1 => Some(Precedence::Assignment),
            2 => Some(Precedence::Or),
            3 => Some(Precedence::And),
            4 => Some(Precedence::Equality),
            5 => Some(Precedence::Comparison),
            6 => Some(Precedence::Term),
            7 => Some(Precedence::Factor),
            8 => Some(Precedence::Unary),
            9 => Some(Precedence::Call),
            10 => Some(Precedence::Primary),
            _ => None,
        }
    }

    /// Whether `self` binds no tighter than `other`.
    pub fn le(&self, other: &Precedence) -> (r: bool)
        ensures
            r == (level(*self) <= level(*other)),
    {
        self.rank() <= other.rank()
    }

    /// The next tighter level; the tightest level is its own successor.
    pub fn next(&self) -> (r: Precedence)
        ensures
            level(*self) < 10 ==> level(r) == level(*self) + 1,
            level(*self) == 10 ==> r == Precedence::Primary,
            r == prec_next(*self),
    {
        let v: i32 = self.rank() as i32 + 1;
        let v: i32 = if v > 10 { 10 } else { v };
        match Precedence::from_level(v) {
            Some(p) => p,
            None => Precedence::Primary,
        }
    }
}

} // verus!
