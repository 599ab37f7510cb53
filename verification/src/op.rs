//! Resolved, macro-free instructions: what the parser emits and the runtime
//! executes.

use vstd::prelude::*;
use crate::span::Span;
use crate::val::ValType;

verus! {

/// The closed set of instructions. Push instructions carry their literal;
/// `CreateBox` carries the declared type and name; `PushBox` carries the
/// referenced name, resolved at run time.
#[derive(Debug)]
pub enum OpKind {
    PushInt { val: i128 },
    PushStr { val: String },
    PushBool { val: bool },
    CreateBox { val_type: ValType, name: String },
    PushBox { name: String },
    Pack,
    Unpack,
    PushTypeInt,
    PushTypeStr,
    PushTypeBool,
    PushTypeBoxedInt,
    PushTypeBoxedStr,
    PushTypeBoxedBool,
    Add,
    Sub,
    Mul,
    Div,
    Print,
    Or,
    And,
    Not,
    Eq,
    LessThan,
    GreaterThan,
    LessThanEq,
    GreaterThanEq,
    If,
    End,
    Dup,
    Drop,
    Swap,
    Over,
    Rot,
    GetType,
    Assert,
    Until,
}

/// An instruction together with the source span it came from.
#[derive(Debug)]
pub struct Op {
    pub span: Span,
    pub kind: OpKind,
}

/// The mathematical image of an [`OpKind`].
pub ghost enum OpKindV {
    PushInt { val: i128 },
    PushStr { val: Seq<char> },
    PushBool { val: bool },
    CreateBox { val_type: ValType, name: Seq<char> },
    PushBox { name: Seq<char> },
    Pack,
    Unpack,
    PushTypeInt,
    PushTypeStr,
    PushTypeBool,
    PushTypeBoxedInt,
    PushTypeBoxedStr,
    PushTypeBoxedBool,
    Add,
    Sub,
    Mul,
    Div,
    Print,
    Or,
    And,
    Not,
    Eq,
    LessThan,
    GreaterThan,
    LessThanEq,
    GreaterThanEq,
    If,
    End,
    Dup,
    Drop,
    Swap,
    Over,
    Rot,
    GetType,
    Assert,
    Until,
}

/// The mathematical image of an [`Op`].
pub ghost struct OpV {
    pub span: Span,
    pub kind: OpKindV,
}

impl View for OpKind {
    type V = OpKindV;

    open spec fn view(&self) -> OpKindV {
        match self {
            OpKind::PushInt { val } => OpKindV::PushInt { val: *val },
            OpKind::PushStr { val } => OpKindV::PushStr { val: val@ },
            OpKind::PushBool { val } => OpKindV::PushBool { val: *val },
            OpKind::CreateBox { val_type, name } => (OpKindV::CreateBox {
                val_type: *val_type,
                name: name@,
            }),
            OpKind::PushBox { name } => OpKindV::PushBox { name: name@ },
            OpKind::Pack => OpKindV::Pack,
            OpKind::Unpack => OpKindV::Unpack,
            OpKind::PushTypeInt => OpKindV::PushTypeInt,
            OpKind::PushTypeStr => OpKindV::PushTypeStr,
            OpKind::PushTypeBool => OpKindV::PushTypeBool,
            OpKind::PushTypeBoxedInt => OpKindV::PushTypeBoxedInt,
            OpKind::PushTypeBoxedStr => OpKindV::PushTypeBoxedStr,
            OpKind::PushTypeBoxedBool => OpKindV::PushTypeBoxedBool,
            OpKind::Add => OpKindV::Add,
            OpKind::Sub => OpKindV::Sub,
            OpKind::Mul => OpKindV::Mul,
            OpKind::Div => OpKindV::Div,
            OpKind::Print => OpKindV::Print,
            OpKind::Or => OpKindV::Or,
            OpKind::And => OpKindV::And,
            OpKind::Not => OpKindV::Not,
            OpKind::Eq => OpKindV::Eq,
            OpKind::LessThan => OpKindV::LessThan,
            OpKind::GreaterThan => OpKindV::GreaterThan,
            OpKind::LessThanEq => OpKindV::LessThanEq,
            OpKind::GreaterThanEq => OpKindV::GreaterThanEq,
            OpKind::If => OpKindV::If,
            OpKind::End => OpKindV::End,
            OpKind::Dup => OpKindV::Dup,
            OpKind::Drop => OpKindV::Drop,
            OpKind::Swap => OpKindV::Swap,
            OpKind::Over => OpKindV::Over,
            OpKind::Rot => OpKindV::Rot,
            OpKind::GetType => OpKindV::GetType,
            OpKind::Assert => OpKindV::Assert,
            OpKind::Until => OpKindV::Until,
        }
    }
}

impl View for Op {
    type V = OpV;

    open spec fn view(&self) -> OpV {
        OpV { span: self.span, kind: self.kind@ }
    }
}

/// The images of an operation sequence.
pub open spec fn ops_view(s: Seq<Op>) -> Seq<OpV> {
    s.map_values(|o: Op| o@)
}

/// The image of an operation vector indexes pointwise.
pub proof fn lemma_ops_view(s: Seq<Op>)
    ensures
        ops_view(s).len() == s.len(),
        forall|i: int| 0 <= i < s.len() ==> (#[trigger] ops_view(s)[i]) == s[i]@,
{
}

impl Op {
    pub fn new(span: Span, kind: OpKind) -> (r: Self)
        ensures
            r@ == (OpV { span, kind: kind@ }),
    {
        Op { span, kind }
    }
}

} // verus!
