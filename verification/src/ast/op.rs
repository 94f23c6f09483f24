//! Binary and unary operators with their precedence and associativity.

use crate::lexer::Token;
use crate::lexer::TokenView;
use vstd::prelude::*;

verus! {

/// How tightly an operator binds: a larger number binds tighter.
pub trait Precedence {
    /// The operator's precedence level.
    spec fn level(&self) -> u8;

    fn precedence(&self) -> (r: u8)
        ensures
            r == self.level(),
    ;
}

#[derive(Debug, Clone, Copy, PartialEq, Eq, Structural)]
pub enum BinaryOp {
    // Arithmetic
    Add,
    Sub,
    Mul,
    Div,
    Mod,
    Pow,
    // Comparison
    Eq,
    Neq,
    Lt,
    Le,
    Gt,
    Ge,
    // Logic
    And,
    Or,
    // Bitwise
    BitAnd,
    BitOr,
    Shl,
    Shr,
}

impl BinaryOp {
    /// The binary operator that a token stands for, if any. `^` and `**` both
    /// stand for `Pow`.
    pub open spec fn of_token(token: TokenView) -> Option<BinaryOp> {
        match token {
            TokenView::Plus => Some(BinaryOp::Add),
            TokenView::Minus => Some(BinaryOp::Sub),
            TokenView::Star => Some(BinaryOp::Mul),
            TokenView::Slash => Some(BinaryOp::Div),
            TokenView::Modulo => Some(BinaryOp::Mod),
            TokenView::Caret => Some(BinaryOp::Pow),
            TokenView::DoubleStar => Some(BinaryOp::Pow),
            TokenView::EqualEqual => Some(BinaryOp::Eq),
            TokenView::BangEqual => Some(BinaryOp::Neq),
            TokenView::Less => Some(BinaryOp::Lt),
            TokenView::LessEqual => Some(BinaryOp::Le),
            TokenView::Greater => Some(BinaryOp::Gt),
            TokenView::GreaterEqual => Some(BinaryOp::Ge),
            TokenView::And => Some(BinaryOp::And),
            TokenView::Or => Some(BinaryOp::Or),
            TokenView::BitAnd => Some(BinaryOp::BitAnd),
            TokenView::BitOr => Some(BinaryOp::BitOr),
            TokenView::ShiftLeft => Some(BinaryOp::Shl),
            TokenView::ShiftRight => Some(BinaryOp::Shr),
            _ => None,
        }
    }

    /// The operator that a compound-assignment token applies, if the token is one.
    pub open spec fn of_compound(token: TokenView) -> Option<BinaryOp> {
        match token {
            TokenView::PlusEqual => Some(BinaryOp::Add),
            TokenView::MinusEqual => Some(BinaryOp::Sub),
            TokenView::StarEqual => Some(BinaryOp::Mul),
            TokenView::SlashEqual => Some(BinaryOp::Div),
            TokenView::ModuloEqual => Some(BinaryOp::Mod),
            TokenView::CaretEqual => Some(BinaryOp::Pow),
            TokenView::BitAndEqual => Some(BinaryOp::BitAnd),
            TokenView::BitOrEqual => Some(BinaryOp::BitOr),
            TokenView::ShiftLeftEqual => Some(BinaryOp::Shl),
            TokenView::ShiftRightEqual => Some(BinaryOp::Shr),
            _ => None,
        }
    }

    /// Precedence table: `Or` binds loosest, `Pow` tightest.
    pub open spec fn spec_precedence(self) -> u8 {
        match self {
            BinaryOp::Or => 1,
            BinaryOp::And => 2,
            BinaryOp::BitOr => 3,
            BinaryOp::BitAnd => 4,
            BinaryOp::Eq | BinaryOp::Neq => 5,
            BinaryOp::Lt | BinaryOp::Le | BinaryOp::Gt | BinaryOp::Ge => 6,
            BinaryOp::Shl | BinaryOp::Shr => 7,
            BinaryOp::Add | BinaryOp::Sub => 8,
            BinaryOp::Mul | BinaryOp::Div | BinaryOp::Mod => 9,
            BinaryOp::Pow => 10,
        }
    }

    /// Only `Pow` groups to the right.
    pub open spec fn spec_is_right_associative(self) -> bool {
        self == BinaryOp::Pow
    }

    /// The least precedence that the right operand of `self` may have:
    /// the operator's own for a right-associative operator, one more otherwise.
    pub open spec fn right_operand_floor(self) -> u8 {
        if self.spec_is_right_associative() {
            self.spec_precedence()
        } else {
            (self.spec_precedence() + 1) as u8
        }
    }

    /// True for the one operator that groups to the right: `Pow`.
    pub fn is_right_associative(&self) -> (r: bool)
        ensures
            r == self.spec_is_right_associative(),
    {
        matches!(self, BinaryOp::Pow)
    }

    /// The binary operator that the token stands for, if any.
    pub fn from_token(token: &Token) -> (r: Option<Self>)
        ensures
            r == BinaryOp::of_token(token@),
    {
        match token {
            Token::Plus => Some(BinaryOp::Add),
            Token::Minus => Some(BinaryOp::Sub),
            Token::Star => Some(BinaryOp::Mul),
            Token::Slash => Some(BinaryOp::Div),
            Token::Modulo => Some(BinaryOp::Mod),
            Token::Caret | Token::DoubleStar => Some(BinaryOp::Pow),
            Token::EqualEqual => Some(BinaryOp::Eq),
            Token::BangEqual => Some(BinaryOp::Neq),
            Token::Less => Some(BinaryOp::Lt),
            Token::LessEqual => Some(BinaryOp::Le),
            Token::Greater => Some(BinaryOp::Gt),
            Token::GreaterEqual => Some(BinaryOp::Ge),
            Token::And => Some(BinaryOp::And),
            Token::Or => Some(BinaryOp::Or),
            Token::BitAnd => Some(BinaryOp::BitAnd),
            Token::BitOr => Some(BinaryOp::BitOr),
            Token::ShiftLeft => Some(BinaryOp::Shl),
            Token::ShiftRight => Some(BinaryOp::Shr),
            _ => None,
        }
    }

    /// The operator of a compound-assignment token (`+=`, `<<=`, ...).
    pub fn from_compound_token(token: &Token) -> (r: Option<Self>)
        ensures
            r == BinaryOp::of_compound(token@),
    {
        match token {
            Token::PlusEqual => Some(BinaryOp::Add),
            Token::MinusEqual => Some(BinaryOp::Sub),
            Token::StarEqual => Some(BinaryOp::Mul),
            Token::SlashEqual => Some(BinaryOp::Div),
            Token::ModuloEqual => Some(BinaryOp::Mod),
            Token::CaretEqual => Some(BinaryOp::Pow),
            Token::BitAndEqual => Some(BinaryOp::BitAnd),
            Token::BitOrEqual => Some(BinaryOp::BitOr),
            Token::ShiftLeftEqual => Some(BinaryOp::Shl),
            Token::ShiftRightEqual => Some(BinaryOp::Shr),
            _ => None,
        }
    }
}

impl Precedence for BinaryOp {
    open spec fn level(&self) -> u8 {
        self.spec_precedence()
    }

    fn precedence(&self) -> (r: u8) {
        match self {
            BinaryOp::Or => 1,
            BinaryOp::And => 2,
            BinaryOp::BitOr => 3,
            BinaryOp::BitAnd => 4,
            BinaryOp::Eq | BinaryOp::Neq => 5,
            BinaryOp::Lt | BinaryOp::Le | BinaryOp::Gt | BinaryOp::Ge => 6,
            BinaryOp::Shl | BinaryOp::Shr => 7,
            BinaryOp::Add | BinaryOp::Sub => 8,
            BinaryOp::Mul | BinaryOp::Div | BinaryOp::Mod => 9,
            BinaryOp::Pow => 10,
        }
    }
}

#[derive(Debug, Clone, Copy, PartialEq, Eq, Structural)]
pub enum UnaryOp {
    /// `!`
    Not,
    /// `-`
    Neg,
}

impl UnaryOp {
    /// The prefix operator that a token stands for, if any.
    pub open spec fn of_token(token: TokenView) -> Option<UnaryOp> {
        match token {
            TokenView::Bang => Some(UnaryOp::Not),
            TokenView::Minus => Some(UnaryOp::Neg),
            _ => None,
        }
    }

    /// The prefix operator that the token stands for, if any.
    pub fn from_token(token: &Token) -> (r: Option<Self>)
        ensures
            r == UnaryOp::of_token(token@),
    {
        match token {
            Token::Bang => Some(UnaryOp::Not),
            Token::Minus => Some(UnaryOp::Neg),
            _ => None,
        }
    }
}

impl Precedence for UnaryOp {
    /// A prefix operator binds tighter than every binary operator.
    open spec fn level(&self) -> u8 {
        15
    }

    fn precedence(&self) -> (r: u8) {
        15
    }
}

/// Every unary operator binds tighter than every binary operator, and the
/// binary levels run from 1 to 10.
pub proof fn law_unary_binds_tighter(b: BinaryOp, u: UnaryOp)
    ensures
        1 <= b.level() <= 10,
        b.level() < u.level(),
{
}

} // verus!
