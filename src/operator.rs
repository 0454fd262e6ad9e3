use vstd::prelude::*;

verus! {

/// The binary operators that an expression may hold.
#[derive(Clone, Copy, Debug, PartialEq, Eq, Structural)]
pub enum Op {
    Add,
    Sub,
    Mul,
    Div,
    Pow,
}

/// The operator that a character denotes, if any.
pub open spec fn op_of(c: char) -> Option<Op> {
    if c == '+' {
        Some(Op::Add)
    } else if c == '-' {
        Some(Op::Sub)
    } else if c == '*' {
        Some(Op::Mul)
    } else if c == '/' {
        Some(Op::Div)
    } else if c == '^' {
        Some(Op::Pow)
    } else {
        None
    }
}

/// How tightly an operator binds: a higher weight binds tighter.
pub open spec fn weight_of(op: Op) -> nat {
    match op {
        Op::Add | Op::Sub => 1,
        Op::Mul | Op::Div => 2,
        Op::Pow => 3,
    }
}

/// Whether operands of this operator group from the right (`2^3^2` is `2^(3^2)`).
pub open spec fn groups_right(op: Op) -> bool {
    op == Op::Pow
}

impl Op {
    /// The operator that `c` denotes: one of `+ - * / ^`.
    pub fn from_char(c: char) -> (r: Option<Op>)
        ensures
            r == op_of(c),
    {
        match c {
            '+' => Some(Op::Add),
            '-' => Some(Op::Sub),
            '*' => Some(Op::Mul),
            '/' => Some(Op::Div),
            '^' => Some(Op::Pow),
            _ => None,
        }
    }

    /// The precedence weight: 1 for `+ -`, 2 for `* /`, 3 for `^`.
    pub fn weight(self) -> (r: u8)
        ensures
            r as nat == weight_of(self),
    {
        match self {
            Op::Add | Op::Sub => 1,
            Op::Mul | Op::Div => 2,
            Op::Pow => 3,
        }
    }

    /// Whether operands of this operator group from the right.
    pub fn groups_right(self) -> (r: bool)
        ensures
            r == groups_right(self),
    {
        matches!(self, Op::Pow)
    }

    /// The character that writes this operator.
    pub fn symbol(self) -> (r: char)
        ensures
            op_of(r) == Some(self),
    {
        match self {
            Op::Add => '+',
            Op::Sub => '-',
            Op::Mul => '*',
            Op::Div => '/',
            Op::Pow => '^',
        }
    }
}

/// Whether `c` is one of the recognised binary operators.
pub fn is_valid_operator(c: char) -> (r: bool)
    ensures
        r == op_of(c).is_some(),
{
    Op::from_char(c).is_some()
}

} // verus!
