use vstd::prelude::*;
use slotmap::DefaultKey;

verus! {

/// Handle of a node in the arena that produced it.
pub type NodeKey = DefaultKey;

/// The operators a binary expression can carry.
#[derive(Debug, Clone, Copy, PartialEq, Eq, Structural)]
pub enum BinaryOp {
    Plus,
    Minus,
    Multiply,
    Divide,
    Modulus,
}

/// The value of a literal node. A float is kept as its decimal text.
#[derive(Debug, Clone, PartialEq)]
pub enum LiteralType {
    String(String),
    Number(String),
    Integer(i32),
}

/// An operator applied to two nodes of the same arena.
#[derive(Debug, Clone, Copy, PartialEq)]
pub struct BinaryExpr {
    pub op: BinaryOp,
    pub ln: NodeKey,
    pub rn: NodeKey,
}

#[derive(Debug, Clone, PartialEq)]
pub struct LiteralExpr {
    pub typ: LiteralType,
}

/// A syntax node; children are arena keys, never owned nodes.
#[derive(Debug, Clone, PartialEq)]
pub enum Node {
    BinaryExpr(BinaryExpr),
    // Literals
    StringLitExpr(LiteralExpr),
    NumberLitExpr(LiteralExpr),
    IntegerLitExpr(LiteralExpr),
    // Other
    RootNode,
    EndNode,
}

} // verus!
