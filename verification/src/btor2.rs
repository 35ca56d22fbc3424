//! The parsed form of a BTOR2 design: one line per node, each with its node id.

use vstd::prelude::*;

verus! {

/// A BTOR2 node id.
pub type Nid = i64;

/// A sort: a bit-vector of a given width, or an array.
#[derive(Debug, Clone, Copy, PartialEq, Eq, Structural)]
pub enum Sort {
    BitVec { width: u32 },
    Array { index: Nid, element: Nid },
}

/// The value of a constant line (`zero`, `one`, `ones`, `constd`, `const`, `consth`).
#[derive(Debug, Clone, PartialEq, Eq)]
pub enum ConstValue {
    Zero,
    One,
    Ones,
    Dec(i128),
    Bin(String),
    Hex(String),
}

/// A BTOR2 operator.
#[derive(Debug, Clone, Copy, PartialEq, Eq, Structural)]
pub enum Op {
    Not,
    Inc,
    Dec,
    Neg,
    Redand,
    Redor,
    Redxor,
    Sext,
    Uext,
    Slice,
    Iff,
    Implies,
    Eq,
    Neq,
    Sgt,
    Sgte,
    Slt,
    Slte,
    Ugt,
    Ugte,
    Ult,
    Ulte,
    And,
    Nand,
    Nor,
    Or,
    Xnor,
    Xor,
    Concat,
    Add,
    Mul,
    Sdiv,
    Udiv,
    Smod,
    Srem,
    Urem,
    Sub,
    Saddo,
    Uaddo,
    Sdivo,
    Udivo,
    Smulo,
    Umulo,
    Ssubo,
    Usubo,
    Sll,
    Srl,
    Sra,
    Rol,
    Ror,
    Read,
    Ite,
    Write,
}

/// An operator argument as written: a node id, or for `slice`/`sext`/`uext` a literal bound.
#[derive(Debug, Clone, Copy, PartialEq, Eq, Structural)]
pub struct Operand {
    pub nid: Nid,
}

impl Operand {
    pub fn nid(&self) -> (n: Nid)
        ensures
            n == self.nid,
    {
        self.nid
    }
}

/// What one line declares.
#[derive(Debug, Clone, PartialEq, Eq)]
pub enum Node {
    Sort { sort: Sort },
    Input { sort: Nid, symbol: Option<String> },
    State { sort: Nid, symbol: Option<String> },
    Const { sort: Nid, value: ConstValue },
    Op { op: Op, sort: Nid, args: Vec<Operand> },
    Init { sort: Nid, state: Nid, value: Nid },
    Next { sort: Nid, state: Nid, value: Nid },
    Bad { cond: Nid },
    Constraint { cond: Nid },
    Output { value: Nid },
}

/// One line of a design.
#[derive(Debug, Clone, PartialEq, Eq)]
pub struct Line {
    pub nid: Nid,
    pub node: Node,
}

/// A design, its lines in declaration order (an operand's id precedes its use).
#[derive(Debug, Clone, PartialEq, Eq)]
pub struct Btor2File {
    pub lines: Vec<Line>,
}

} // verus!
