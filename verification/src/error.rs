//! The two error taxonomies of the pipeline.
//!
//! `ParseError` covers lexical and structural faults found before execution;
//! `RuntimeError` covers semantic and dynamic faults found while executing.
//! Every variant carries the span data a caller needs to render a precise
//! diagnostic against the source text; rendering itself is the caller's
//! concern.

use vstd::prelude::*;
use crate::span::Span;
use crate::val::ValType;

verus! {

/// A lexical or structural error: the source never reaches execution.
#[derive(Debug, Clone)]
pub enum ParseError {
    /// A string literal was opened but its closing quote never came.
    UnterminatedStringLiteral,
    /// The token after a `macro` keyword was missing or was no identifier;
    /// the span is the `macro` keyword's.
    UnnamedMacro { span: Span },
    /// End of input came before the `end` matching a macro definition; the
    /// span is the `macro` keyword's and `name` the macro's name.
    UnclosedMacro { span: Span, name: String },
    /// The type in a box declaration was a boxed type, which cannot itself
    /// be boxed; the span is the offending type token's.
    UnboxableType { span: Span },
    /// The token after a `box` keyword was no type token; the span is the
    /// offending token's, or the `box` keyword's when input ended there.
    BoxesNeedTypes { span: Span },
    /// Input ended where a box declaration needed its name; the span runs
    /// from the `box` keyword through the type token.
    BoxesNeedNames { span: Span },
}

/// The mathematical image of a [`ParseError`].
pub ghost enum ParseErrorV {
    UnterminatedStringLiteral,
    UnnamedMacro { span: Span },
    UnclosedMacro { span: Span, name: Seq<char> },
    UnboxableType { span: Span },
    BoxesNeedTypes { span: Span },
    BoxesNeedNames { span: Span },
}

impl View for ParseError {
    type V = ParseErrorV;

    open spec fn view(&self) -> ParseErrorV {
        match self {
            ParseError::UnterminatedStringLiteral => ParseErrorV::UnterminatedStringLiteral,
            ParseError::UnnamedMacro { span } => ParseErrorV::UnnamedMacro { span: *span },
            ParseError::UnclosedMacro { span, name } => (ParseErrorV::UnclosedMacro {
                span: *span,
                name: name@,
            }),
            ParseError::UnboxableType { span } => ParseErrorV::UnboxableType { span: *span },
            ParseError::BoxesNeedTypes { span } => ParseErrorV::BoxesNeedTypes { span: *span },
            ParseError::BoxesNeedNames { span } => ParseErrorV::BoxesNeedNames { span: *span },
        }
    }
}

/// A semantic or dynamic error: execution aborts and the remaining
/// operations are not run. Where two spans are carried, the first is the
/// left (deeper) operand's and the second the right (topmost) operand's.
#[derive(Debug, Clone)]
pub enum RuntimeError {
    /// A value was needed and the stack was empty.
    EmptyStackError,
    /// `+` over an unsupported pair of value kinds.
    InvalidAdd { left: Span, right: Span },
    /// `-` over an unsupported pair of value kinds.
    InvalidSub { left: Span, right: Span },
    /// `*` over an unsupported pair of value kinds.
    InvalidMul { left: Span, right: Span },
    /// `/` over an unsupported pair of value kinds, or an integer division
    /// by zero.
    InvalidDiv { left: Span, right: Span },
    /// `or` over a pair that was not two booleans.
    InvalidOr { left: Span, right: Span },
    /// `and` over a pair that was not two booleans.
    InvalidAnd { left: Span, right: Span },
    /// `not` on a value that was no boolean.
    InvalidNot { span: Span },
    /// `eq` over an unsupported pair of value kinds.
    InvalidEq { left: Span, right: Span },
    /// `<` over an unsupported pair of value kinds.
    InvalidLessThan { left: Span, right: Span },
    /// `>` over an unsupported pair of value kinds.
    InvalidGreaterThan { left: Span, right: Span },
    /// `<=` over an unsupported pair of value kinds.
    InvalidLessThanEq { left: Span, right: Span },
    /// `>=` over an unsupported pair of value kinds.
    InvalidGreaterThanEq { left: Span, right: Span },
    /// An integer operation whose exact result does not fit the value
    /// model's integer width.
    IntegerOverflow { left: Span, right: Span },
    /// An `if` popped a value that was no boolean; the span is the `if`'s.
    IfsExpectBooleans { span: Span },
    /// An `if` had no matching `end`; the span is the `if`'s.
    UnclosedIfStatement { span: Span },
    /// An `end` arrived while no conditional block was open.
    UnexpectedEndToken { span: Span },
    /// An `assert` popped `false`; the span is the `assert`'s.
    AssertionFailed { span: Span },
    /// An `assert` popped a value that was no boolean.
    InvalidAssert { span: Span },
    /// `pack` popped a value that was no box handle.
    CanOnlyPackBoxes { span: Span },
    /// `unpack` popped a value that was no box handle.
    CanOnlyUnpackBoxes { span: Span },
    /// `pack` tried to store a value whose kind differs from the box's
    /// declared type; the span is the stored value's.
    IncompatibleBox { expected: ValType, span: Span },
    /// A box declaration reused an already-declared name.
    BoxWithIdenticalNameAlreadyExists { name: String, span: Span },
    /// A box reference named no declared box.
    UnknownBox { span: Span },
}

/// The mathematical image of a [`RuntimeError`].
pub ghost enum RuntimeErrorV {
    EmptyStackError,
    InvalidAdd { left: Span, right: Span },
    InvalidSub { left: Span, right: Span },
    InvalidMul { left: Span, right: Span },
    InvalidDiv { left: Span, right: Span },
    InvalidOr { left: Span, right: Span },
    InvalidAnd { left: Span, right: Span },
    InvalidNot { span: Span },
    InvalidEq { left: Span, right: Span },
    InvalidLessThan { left: Span, right: Span },
    InvalidGreaterThan { left: Span, right: Span },
    InvalidLessThanEq { left: Span, right: Span },
    InvalidGreaterThanEq { left: Span, right: Span },
    IntegerOverflow { left: Span, right: Span },
    IfsExpectBooleans { span: Span },
    UnclosedIfStatement { span: Span },
    UnexpectedEndToken { span: Span },
    AssertionFailed { span: Span },
    InvalidAssert { span: Span },
    CanOnlyPackBoxes { span: Span },
    CanOnlyUnpackBoxes { span: Span },
    IncompatibleBox { expected: ValType, span: Span },
    BoxWithIdenticalNameAlreadyExists { name: Seq<char>, span: Span },
    UnknownBox { span: Span },
}

impl View for RuntimeError {
    type V = RuntimeErrorV;

    open spec fn view(&self) -> RuntimeErrorV {
        match self {
            RuntimeError::EmptyStackError => RuntimeErrorV::EmptyStackError,
            RuntimeError::InvalidAdd { left, right } => (RuntimeErrorV::InvalidAdd {
                left: *left,
                right: *right,
            }),
            RuntimeError::InvalidSub { left, right } => (RuntimeErrorV::InvalidSub {
                left: *left,
                right: *right,
            }),
            RuntimeError::InvalidMul { left, right } => (RuntimeErrorV::InvalidMul {
                left: *left,
                right: *right,
            }),
            RuntimeError::InvalidDiv { left, right } => (RuntimeErrorV::InvalidDiv {
                left: *left,
                right: *right,
            }),
            RuntimeError::InvalidOr { left, right } => (RuntimeErrorV::InvalidOr {
                left: *left,
                right: *right,
            }),
            RuntimeError::InvalidAnd { left, right } => (RuntimeErrorV::InvalidAnd {
                left: *left,
                right: *right,
            }),
            RuntimeError::InvalidNot { span } => RuntimeErrorV::InvalidNot { span: *span },
            RuntimeError::InvalidEq { left, right } => (RuntimeErrorV::InvalidEq {
                left: *left,
                right: *right,
            }),
            RuntimeError::InvalidLessThan { left, right } => (RuntimeErrorV::InvalidLessThan {
                left: *left,
                right: *right,
            }),
            RuntimeError::InvalidGreaterThan { left, right } => (RuntimeErrorV::InvalidGreaterThan {
                left: *left,
                right: *right,
            }),
            RuntimeError::InvalidLessThanEq { left, right } => (RuntimeErrorV::InvalidLessThanEq {
                left: *left,
                right: *right,
            }),
            RuntimeError::InvalidGreaterThanEq { left, right } => (
            RuntimeErrorV::InvalidGreaterThanEq { left: *left, right: *right }),
            RuntimeError::IntegerOverflow { left, right } => (RuntimeErrorV::IntegerOverflow {
                left: *left,
                right: *right,
            }),
            RuntimeError::IfsExpectBooleans { span } => (RuntimeErrorV::IfsExpectBooleans {
                span: *span,
            }),
            RuntimeError::UnclosedIfStatement { span } => (RuntimeErrorV::UnclosedIfStatement {
                span: *span,
            }),
            RuntimeError::UnexpectedEndToken { span } => (RuntimeErrorV::UnexpectedEndToken {
                span: *span,
            }),
            RuntimeError::AssertionFailed { span } => (RuntimeErrorV::AssertionFailed {
                span: *span,
            }),
            RuntimeError::InvalidAssert { span } => RuntimeErrorV::InvalidAssert { span: *span },
            RuntimeError::CanOnlyPackBoxes { span } => (RuntimeErrorV::CanOnlyPackBoxes {
                span: *span,
            }),
            RuntimeError::CanOnlyUnpackBoxes { span } => (RuntimeErrorV::CanOnlyUnpackBoxes {
                span: *span,
            }),
            RuntimeError::IncompatibleBox { expected, span } => (RuntimeErrorV::IncompatibleBox {
                expected: *expected,
                span: *span,
            }),
            RuntimeError::BoxWithIdenticalNameAlreadyExists { name, span } => (
            RuntimeErrorV::BoxWithIdenticalNameAlreadyExists { name: name@, span: *span }),
            RuntimeError::UnknownBox { span } => RuntimeErrorV::UnknownBox { span: *span },
        }
    }
}

} // verus!
