//! The runtime: executes an operation sequence against the value stack and
//! the box storage, and drives the conditional-skip state machine.
//!
//! The machine's state is its stack, a single evaluation mode (normal, or
//! inside a conditional whose opening `if` is remembered for diagnostics), a
//! directory from box names to their declared type and cell handle, the
//! backing cells themselves (append-only; handles are stable indices), and
//! the text that `print` has emitted.

use vstd::prelude::*;
use vstd::pervasive::VecAdditionalExecFns;
use std::collections::VecDeque;
use crate::error::{RuntimeError, RuntimeErrorV};
use crate::op::{Op, OpKind, OpKindV, OpV, lemma_ops_view, ops_view};
use crate::span::Span;
use crate::stack::{Stack, stack_dup, stack_over, stack_rot, stack_swap};
use crate::val::{
    Val, ValKind, ValKindV, ValType, ValV, lemma_strs_view, lemma_vals_view, spec_add, spec_and,
    spec_assert, spec_div, spec_eq, spec_get_type, spec_gt, spec_gte, spec_lt, spec_lte, spec_mul,
    spec_not, spec_or, spec_sub, strs_view, val_str, vals_view,
};

verus! {

/// The evaluation mode: normal, or inside a conditional block whose opening
/// `if` is at `last_span`.
#[derive(Debug)]
enum EvalMode {
    Normal,
    If { last_span: Span },
}

/// The mathematical image of the evaluation mode.
pub ghost enum ModeV {
    Normal,
    If { last_span: Span },
}

/// The machine state: the stack, the mode, the box directory (name,
/// declared type, cell handle) in declaration order, the backing cells, and
/// everything printed so far.
pub ghost struct StateV {
    pub stack: Seq<ValV>,
    pub mode: ModeV,
    pub dir: Seq<(Seq<char>, ValType, int)>,
    pub boxes: Seq<ValV>,
    pub output: Seq<Seq<char>>,
}

/// The machine's starting state: everything empty, mode normal.
pub open spec fn init_state() -> StateV {
    StateV {
        stack: Seq::empty(),
        mode: ModeV::Normal,
        dir: Seq::empty(),
        boxes: Seq::empty(),
        output: Seq::empty(),
    }
}

/// Look a box name up in the directory; the latest entry wins (names are
/// never declared twice, so at most one entry exists).
pub open spec fn dir_lookup(dir: Seq<(Seq<char>, ValType, int)>, name: Seq<char>) -> Option<
    (ValType, int),
>
    decreases dir.len(),
{
    if dir.len() == 0 {
        None
    } else if dir.last().0 == name {
        Some((dir.last().1, dir.last().2))
    } else {
        dir_lookup(dir.drop_last(), name)
    }
}

/// The zero value a fresh box holds, attributed to the declaration's span.
pub open spec fn default_box_val(t: ValType, sp: Span) -> ValV {
    match t {
        ValType::Int => ValV { span: sp, kind: ValKindV::Int { val: 0 } },
        ValType::Str => ValV { span: sp, kind: ValKindV::Str { val: Seq::empty() } },
        ValType::Bool => ValV { span: sp, kind: ValKindV::Bool { val: false } },
        _ => ValV { span: sp, kind: ValKindV::Int { val: 0 } },
    }
}

/// The handle value a box reference pushes, for a directory entry of type
/// `t` and handle `id`.
pub open spec fn boxed_val(t: ValType, id: int, sp: Span) -> ValV {
    match t {
        ValType::Str => ValV { span: sp, kind: ValKindV::BoxedStr { box_id: id as usize } },
        ValType::Bool => ValV { span: sp, kind: ValKindV::BoxedBool { box_id: id as usize } },
        _ => ValV { span: sp, kind: ValKindV::BoxedInt { box_id: id as usize } },
    }
}

/// A value's handles point into the box storage.
pub open spec fn val_wf(v: ValV, nboxes: int) -> bool {
    match v.kind {
        ValKindV::BoxedInt { box_id } => box_id < nboxes,
        ValKindV::BoxedStr { box_id } => box_id < nboxes,
        ValKindV::BoxedBool { box_id } => box_id < nboxes,
        _ => true,
    }
}

/// A state is well formed when every handle on the stack, in the cells and
/// in the directory points into the box storage, and every directory entry
/// declares a scalar type.
pub open spec fn state_wf(st: StateV) -> bool {
    let nb = st.boxes.len() as int;
    &&& forall|i: int| 0 <= i < st.stack.len() ==> val_wf(#[trigger] st.stack[i], nb)
    &&& forall|i: int| 0 <= i < st.boxes.len() ==> val_wf(#[trigger] st.boxes[i], nb)
    &&& forall|i: int|
        0 <= i < st.dir.len() ==> {
            &&& 0 <= (#[trigger] st.dir[i]).2 < nb
            &&& (st.dir[i].1 is Int || st.dir[i].1 is Str || st.dir[i].1 is Bool)
        }
}

/// The well-formedness of one operation that the runtime relies on: a box is
/// declared with a scalar type, and the reserved `Until` never appears.
pub open spec fn op_wf1(o: OpV) -> bool {
    &&& o.kind matches OpKindV::CreateBox { val_type, .. } ==> (val_type is Int || val_type is Str
        || val_type is Bool)
    &&& !(o.kind is Until)
}

/// Well-formedness of every operation in a sequence.
pub open spec fn ops_wf(ops: Seq<OpV>) -> bool {
    forall|i: int| 0 <= i < ops.len() ==> op_wf1(#[trigger] ops[i])
}

/// One simple operation (no control flow, no box management) applied to a
/// state: push instructions, operator dispatch, stack shuffles, `print`,
/// `type` and `assert`. Operands pop right-to-left: the deeper value is the
/// left operand.
pub open spec fn step_simple(op: OpV, st: StateV) -> Result<StateV, RuntimeErrorV> {
    let sp = op.span;
    let n = st.stack.len() as int;
    match op.kind {
        OpKindV::PushInt { val } => Ok(
            StateV { stack: st.stack.push(ValV { span: sp, kind: ValKindV::Int { val } }), ..st },
        ),
        OpKindV::PushStr { val } => Ok(
            StateV { stack: st.stack.push(ValV { span: sp, kind: ValKindV::Str { val } }), ..st },
        ),
        OpKindV::PushBool { val } => Ok(
            StateV { stack: st.stack.push(ValV { span: sp, kind: ValKindV::Bool { val } }), ..st },
        ),
        OpKindV::PushTypeInt => Ok(
            StateV {
                stack: st.stack.push(
                    ValV { span: sp, kind: ValKindV::Type { val: ValType::Int } },
                ),
                ..st
            },
        ),
        OpKindV::PushTypeStr => Ok(
            StateV {
                stack: st.stack.push(
                    ValV { span: sp, kind: ValKindV::Type { val: ValType::Str } },
                ),
                ..st
            },
        ),
        OpKindV::PushTypeBool => Ok(
            StateV {
                stack: st.stack.push(
                    ValV { span: sp, kind: ValKindV::Type { val: ValType::Bool } },
                ),
                ..st
            },
        ),
        OpKindV::PushTypeBoxedInt => Ok(
            StateV {
                stack: st.stack.push(
                    ValV { span: sp, kind: ValKindV::Type { val: ValType::BoxedInt } },
                ),
                ..st
            },
        ),
        OpKindV::PushTypeBoxedStr => Ok(
            StateV {
                stack: st.stack.push(
                    ValV { span: sp, kind: ValKindV::Type { val: ValType::BoxedStr } },
                ),
                ..st
            },
        ),
        OpKindV::PushTypeBoxedBool => Ok(
            StateV {
                stack: st.stack.push(
                    ValV { span: sp, kind: ValKindV::Type { val: ValType::BoxedBool } },
                ),
                ..st
            },
        ),
        OpKindV::Add => if n < 2 {
            Err(RuntimeErrorV::EmptyStackError)
        } else {
            match spec_add(st.stack[n - 2], st.stack[n - 1], sp) {
                Ok(v) => Ok(StateV { stack: st.stack.subrange(0, n - 2).push(v), ..st }),
                Err(e) => Err(e),
            }
        },
        OpKindV::Sub => if n < 2 {
            Err(RuntimeErrorV::EmptyStackError)
        } else {
            match spec_sub(st.stack[n - 2], st.stack[n - 1], sp) {
                Ok(v) => Ok(StateV { stack: st.stack.subrange(0, n - 2).push(v), ..st }),
                Err(e) => Err(e),
            }
        },
        OpKindV::Mul => if n < 2 {
            Err(RuntimeErrorV::EmptyStackError)
        } else {
            match spec_mul(st.stack[n - 2], st.stack[n - 1], sp) {
                Ok(v) => Ok(StateV { stack: st.stack.subrange(0, n - 2).push(v), ..st }),
                Err(e) => Err(e),
            }
        },
        OpKindV::Div => if n < 2 {
            Err(RuntimeErrorV::EmptyStackError)
        } else {
            match spec_div(st.stack[n - 2], st.stack[n - 1], sp) {
                Ok(v) => Ok(StateV { stack: st.stack.subrange(0, n - 2).push(v), ..st }),
                Err(e) => Err(e),
            }
        },
        OpKindV::Or => if n < 2 {
            Err(RuntimeErrorV::EmptyStackError)
        } else {
            match spec_or(st.stack[n - 2], st.stack[n - 1], sp) {
                Ok(v) => Ok(StateV { stack: st.stack.subrange(0, n - 2).push(v), ..st }),
                Err(e) => Err(e),
            }
        },
        OpKindV::And => if n < 2 {
            Err(RuntimeErrorV::EmptyStackError)
        } else {
            match spec_and(st.stack[n - 2], st.stack[n - 1], sp) {
                Ok(v) => Ok(StateV { stack: st.stack.subrange(0, n - 2).push(v), ..st }),
                Err(e) => Err(e),
            }
        },
        OpKindV::Eq => if n < 2 {
            Err(RuntimeErrorV::EmptyStackError)
        } else {
            match spec_eq(st.stack[n - 2], st.stack[n - 1], sp) {
                Ok(v) => Ok(StateV { stack: st.stack.subrange(0, n - 2).push(v), ..st }),
                Err(e) => Err(e),
            }
        },
        OpKindV::LessThan => if n < 2 {
            Err(RuntimeErrorV::EmptyStackError)
        } else {
            match spec_lt(st.stack[n - 2], st.stack[n - 1], sp) {
                Ok(v) => Ok(StateV { stack: st.stack.subrange(0, n - 2).push(v), ..st }),
                Err(e) => Err(e),
            }
        },
        OpKindV::GreaterThan => if n < 2 {
            Err(RuntimeErrorV::EmptyStackError)
        } else {
            match spec_gt(st.stack[n - 2], st.stack[n - 1], sp) {
                Ok(v) => Ok(StateV { stack: st.stack.subrange(0, n - 2).push(v), ..st }),
                Err(e) => Err(e),
            }
        },
        OpKindV::LessThanEq => if n < 2 {
            Err(RuntimeErrorV::EmptyStackError)
        } else {
            match spec_lte(st.stack[n - 2], st.stack[n - 1], sp) {
                Ok(v) => Ok(StateV { stack: st.stack.subrange(0, n - 2).push(v), ..st }),
                Err(e) => Err(e),
            }
        },
        OpKindV::GreaterThanEq => if n < 2 {
            Err(RuntimeErrorV::EmptyStackError)
        } else {
            match spec_gte(st.stack[n - 2], st.stack[n - 1], sp) {
                Ok(v) => Ok(StateV { stack: st.stack.subrange(0, n - 2).push(v), ..st }),
                Err(e) => Err(e),
            }
        },
        OpKindV::Not => if n < 1 {
            Err(RuntimeErrorV::EmptyStackError)
        } else {
            match spec_not(st.stack[n - 1], sp) {
                Ok(v) => Ok(StateV { stack: st.stack.drop_last().push(v), ..st }),
                Err(e) => Err(e),
            }
        },
        OpKindV::Print => if n < 1 {
            Err(RuntimeErrorV::EmptyStackError)
        } else {
            Ok(
                StateV {
                    stack: st.stack.drop_last(),
                    output: st.output.push(val_str(st.stack[n - 1].kind)),
                    ..st
                },
            )
        },
        OpKindV::GetType => if n < 1 {
            Err(RuntimeErrorV::EmptyStackError)
        } else {
            Ok(
                StateV {
                    stack: st.stack.drop_last().push(spec_get_type(st.stack[n - 1], sp)),
                    ..st
                },
            )
        },
        OpKindV::Assert => if n < 1 {
            Err(RuntimeErrorV::EmptyStackError)
        } else {
            match spec_assert(st.stack[n - 1], sp) {
                Ok(_) => Ok(StateV { stack: st.stack.drop_last(), ..st }),
                Err(e) => Err(e),
            }
        },
        OpKindV::Dup => match stack_dup(st.stack) {
            Ok(s) => Ok(StateV { stack: s, ..st }),
            Err(e) => Err(e),
        },
        OpKindV::Drop => if n < 1 {
            Err(RuntimeErrorV::EmptyStackError)
        } else {
            Ok(StateV { stack: st.stack.drop_last(), ..st })
        },
        OpKindV::Swap => match stack_swap(st.stack) {
            Ok(s) => Ok(StateV { stack: s, ..st }),
            Err(e) => Err(e),
        },
        OpKindV::Over => match stack_over(st.stack) {
            Ok(s) => Ok(StateV { stack: s, ..st }),
            Err(e) => Err(e),
        },
        OpKindV::Rot => match stack_rot(st.stack) {
            Ok(s) => Ok(StateV { stack: s, ..st }),
            Err(e) => Err(e),
        },
        _ => Err(RuntimeErrorV::EmptyStackError),
    }
}

/// Running the remaining operations to completion. An exhausted sequence
/// succeeds with the final state unless a conditional block is still open;
/// `if` pops its condition and either records the open block or skips to the
/// matching `end`; a stray `end` fails; box management reads and writes the
/// directory and the cells; everything else is [`step_simple`].
pub open spec fn run_from(ops: Seq<OpV>, st: StateV) -> Result<StateV, RuntimeErrorV>
    decreases ops.len(), 1int,
{
    if ops.len() == 0 {
        match st.mode {
            ModeV::If { last_span } => Err(RuntimeErrorV::UnclosedIfStatement { span: last_span }),
            ModeV::Normal => Ok(st),
        }
    } else {
        let op = ops[0];
        let rest = ops.subrange(1, ops.len() as int);
        let n = st.stack.len() as int;
        match op.kind {
            OpKindV::If => {
                if n < 1 {
                    Err(RuntimeErrorV::EmptyStackError)
                } else {
                    match st.stack[n - 1].kind {
                        ValKindV::Bool { val } => {
                            if val {
                                run_from(
                                    rest,
                                    StateV {
                                        stack: st.stack.drop_last(),
                                        mode: ModeV::If { last_span: op.span },
                                        ..st
                                    },
                                )
                            } else {
                                skip_from(
                                    rest,
                                    1,
                                    op.span,
                                    StateV { stack: st.stack.drop_last(), ..st },
                                )
                            }
                        },
                        _ => Err(RuntimeErrorV::IfsExpectBooleans { span: op.span }),
                    }
                }
            },
            OpKindV::End => {
                match st.mode {
                    ModeV::Normal => Err(RuntimeErrorV::UnexpectedEndToken { span: op.span }),
                    ModeV::If { .. } => run_from(rest, StateV { mode: ModeV::Normal, ..st }),
                }
            },
            OpKindV::CreateBox { val_type, name } => {
                if dir_lookup(st.dir, name) is Some {
                    Err(RuntimeErrorV::BoxWithIdenticalNameAlreadyExists { name, span: op.span })
                } else {
                    run_from(
                        rest,
                        StateV {
                            dir: st.dir.push((name, val_type, st.boxes.len() as int)),
                            boxes: st.boxes.push(default_box_val(val_type, op.span)),
                            ..st
                        },
                    )
                }
            },
            OpKindV::Pack => {
                if n < 2 {
                    Err(RuntimeErrorV::EmptyStackError)
                } else {
                    let b = st.stack[n - 1];
                    let v = st.stack[n - 2];
                    let popped = st.stack.subrange(0, n - 2);
                    match b.kind {
                        ValKindV::BoxedInt { box_id } => match v.kind {
                            ValKindV::Int { .. } => run_from(
                                rest,
                                StateV {
                                    stack: popped,
                                    boxes: st.boxes.update(box_id as int, v),
                                    ..st
                                },
                            ),
                            _ => Err(
                                RuntimeErrorV::IncompatibleBox {
                                    expected: ValType::Int,
                                    span: v.span,
                                },
                            ),
                        },
                        ValKindV::BoxedStr { box_id } => match v.kind {
                            ValKindV::Str { .. } => run_from(
                                rest,
                                StateV {
                                    stack: popped,
                                    boxes: st.boxes.update(box_id as int, v),
                                    ..st
                                },
                            ),
                            _ => Err(
                                RuntimeErrorV::IncompatibleBox {
                                    expected: ValType::Str,
                                    span: v.span,
                                },
                            ),
                        },
                        ValKindV::BoxedBool { box_id } => match v.kind {
                            ValKindV::Bool { .. } => run_from(
                                rest,
                                StateV {
                                    stack: popped,
                                    boxes: st.boxes.update(box_id as int, v),
                                    ..st
                                },
                            ),
                            _ => Err(
                                RuntimeErrorV::IncompatibleBox {
                                    expected: ValType::Bool,
                                    span: v.span,
                                },
                            ),
                        },
                        _ => Err(RuntimeErrorV::CanOnlyPackBoxes { span: b.span }),
                    }
                }
            },
            OpKindV::Unpack => {
                if n < 1 {
                    Err(RuntimeErrorV::EmptyStackError)
                } else {
                    let b = st.stack[n - 1];
                    match b.kind {
                        ValKindV::BoxedInt { box_id } => run_from(
                            rest,
                            StateV {
                                stack: st.stack.drop_last().push(st.boxes[box_id as int]),
                                ..st
                            },
                        ),
                        ValKindV::BoxedStr { box_id } => run_from(
                            rest,
                            StateV {
                                stack: st.stack.drop_last().push(st.boxes[box_id as int]),
                                ..st
                            },
                        ),
                        ValKindV::BoxedBool { box_id } => run_from(
                            rest,
                            StateV {
                                stack: st.stack.drop_last().push(st.boxes[box_id as int]),
                                ..st
                            },
                        ),
                        _ => Err(RuntimeErrorV::CanOnlyUnpackBoxes { span: b.span }),
                    }
                }
            },
            OpKindV::PushBox { name } => {
                match dir_lookup(st.dir, name) {
                    None => Err(RuntimeErrorV::UnknownBox { span: op.span }),
                    Some((ty, id)) => run_from(
                        rest,
                        StateV { stack: st.stack.push(boxed_val(ty, id, op.span)), ..st },
                    ),
                }
            },
            _ => {
                match step_simple(op, st) {
                    Ok(st2) => run_from(rest, st2),
                    Err(e) => Err(e),
                }
            },
        }
    }
}

/// Skipping a false conditional's body: consume operations, raising the
/// nesting count on `if` and lowering it on `end`, until the matching `end`;
/// execution then resumes in normal mode. Exhausting the input first is the
/// unclosed-`if` failure, reported at the opening `if`.
pub open spec fn skip_from(ops: Seq<OpV>, depth: int, if_span: Span, st: StateV) -> Result<
    StateV,
    RuntimeErrorV,
>
    decreases ops.len(), 0int,
{
    if ops.len() == 0 {
        Err(RuntimeErrorV::UnclosedIfStatement { span: if_span })
    } else {
        let rest = ops.subrange(1, ops.len() as int);
        match ops[0].kind {
            OpKindV::End => {
                if depth == 1 {
                    run_from(rest, StateV { mode: ModeV::Normal, ..st })
                } else {
                    skip_from(rest, depth - 1, if_span, st)
                }
            },
            OpKindV::If => skip_from(rest, depth + 1, if_span, st),
            _ => skip_from(rest, depth, if_span, st),
        }
    }
}

/// The image of the whole runtime: the operations still to run, and the
/// machine state.
pub ghost struct RuntimeV {
    pub ops: Seq<OpV>,
    pub state: StateV,
}

/// The runtime. Built over a fully parsed operation sequence; running it
/// consumes the operations and returns the final stack.
#[derive(Debug)]
pub struct Runtime {
    ops: VecDeque<Op>,
    stack: Stack,
    mode: EvalMode,
    box_dir: Vec<(String, ValType, usize)>,
    boxes: Vec<Val>,
    output: Vec<String>,
}

/// The image of the box directory.
pub open spec fn dir_view(d: Seq<(String, ValType, usize)>) -> Seq<(Seq<char>, ValType, int)> {
    d.map_values(|e: (String, ValType, usize)| (e.0@, e.1, e.2 as int))
}

proof fn lemma_dir_view(d: Seq<(String, ValType, usize)>)
    ensures
        dir_view(d).len() == d.len(),
        forall|i: int|
            0 <= i < d.len() ==> (#[trigger] dir_view(d)[i]) == (d[i].0@, d[i].1, d[i].2 as int),
{
}

impl View for Runtime {
    type V = RuntimeV;

    closed spec fn view(&self) -> RuntimeV {
        RuntimeV {
            ops: ops_view(self.ops@),
            state: StateV {
                stack: self.stack@,
                mode: match self.mode {
                    EvalMode::Normal => ModeV::Normal,
                    EvalMode::If { last_span } => ModeV::If { last_span },
                },
                dir: dir_view(self.box_dir@),
                boxes: vals_view(self.boxes@),
                output: strs_view(self.output@),
            },
        }
    }
}

impl Runtime {
    /// A runtime over the given operations, in the starting state.
    pub fn new(ops: VecDeque<Op>) -> (r: Self)
        ensures
            r@.ops == ops_view(ops@),
            r@.state == init_state(),
    {
        let r = Runtime {
            ops,
            stack: Stack::new(),
            mode: EvalMode::Normal,
            box_dir: Vec::new(),
            boxes: Vec::new(),
            output: Vec::new(),
        };
        proof {
            assert(dir_view(r.box_dir@) =~= Seq::<(Seq<char>, ValType, int)>::empty());
            assert(vals_view(r.boxes@) =~= Seq::<ValV>::empty());
            assert(strs_view(r.output@) =~= Seq::<Seq<char>>::empty());
        }
        r
    }

    /// What `print` has emitted so far, in order.
    pub fn output(&self) -> (r: &Vec<String>)
        ensures
            strs_view(r@) == self@.state.output,
    {
        &self.output
    }
}


/// A directory entry is well formed for a storage of `nb` cells.
pub open spec fn dir_entry_wf(e: (Seq<char>, ValType, int), nb: int) -> bool {
    &&& 0 <= e.2 < nb
    &&& (e.1 is Int || e.1 is Str || e.1 is Bool)
}

proof fn lemma_dir_lookup_wf(dir: Seq<(Seq<char>, ValType, int)>, name: Seq<char>, nb: int)
    requires
        forall|i: int| 0 <= i < dir.len() ==> dir_entry_wf(#[trigger] dir[i], nb),
    ensures
        dir_lookup(dir, name) matches Some(p) ==> 0 <= p.1 < nb && (p.0 is Int || p.0 is Str
            || p.0 is Bool),
    decreases dir.len(),
{
    if dir.len() > 0 {
        if dir.last().0 == name {
            assert(dir_entry_wf(dir[dir.len() - 1], nb));
        } else {
            assert(forall|i: int|
                0 <= i < dir.drop_last().len() ==> dir_entry_wf(#[trigger] dir.drop_last()[i], nb));
            lemma_dir_lookup_wf(dir.drop_last(), name, nb);
        }
    }
}

impl Runtime {
    /// The directory entry for `name`, if any.
    #[verifier::loop_isolation(false)]
    fn find_box(&self, name: &String) -> (r: Option<(ValType, usize)>)
        ensures
            (match r {
                Some(p) => dir_lookup(self@.state.dir, name@) == Some((p.0, p.1 as int)),
                None => dir_lookup(self@.state.dir, name@) is None,
            }),
    {
        let ghost all = self@.state.dir;
        proof {
            lemma_dir_view(self.box_dir@);
            assert(all.subrange(0, all.len() as int) =~= all);
        }
        let mut i = self.box_dir.len();
        while i > 0
            invariant
                i <= self.box_dir.len(),
                dir_lookup(all, name@) == dir_lookup(all.subrange(0, i as int), name@),
            decreases i,
        {
            i = i - 1;
            proof {
                let pre = all.subrange(0, i + 1);
                assert(pre.last() == all[i as int]);
                assert(pre.drop_last() =~= all.subrange(0, i as int));
            }
            if crate::lexer::str_eq_text(self.box_dir[i].0.as_str(), name.as_str()) {
                return Some((self.box_dir[i].1, self.box_dir[i].2));
            }
        }
        proof {
            assert(all.subrange(0, 0) =~= Seq::<(Seq<char>, ValType, int)>::empty());
        }
        None
    }

    /// Conditional entry: pop the condition, which must be a boolean; true
    /// records the open block, false skips to the matching `end`.
    #[verifier::loop_isolation(false)]
    fn eval_if(&mut self, op: Op) -> (r: Result<(), RuntimeError>)
        requires
            op@.kind is If,
            state_wf(old(self)@.state),
        ensures
            (match r {
                Ok(_) => run_from(seq![op@] + old(self)@.ops, old(self)@.state) == run_from(
                    final(self)@.ops,
                    final(self)@.state,
                ) && state_wf(final(self)@.state) && final(self)@.ops.len() <= old(
                    self,
                )@.ops.len() && (ops_wf(old(self)@.ops) ==> ops_wf(final(self)@.ops)),
                Err(e) => run_from(seq![op@] + old(self)@.ops, old(self)@.state) == Err::<
                    StateV,
                    RuntimeErrorV,
                >(e@),
            }),
    {
        let ghost full = seq![op@] + old(self)@.ops;
        proof {
            assert(full[0] == op@);
            assert(full.subrange(1, full.len() as int) =~= old(self)@.ops);
        }
        let val = match self.stack.pop() {
            Ok(v) => v,
            Err(e) => {
                return Err(e);
            },
        };
        match val.kind() {
            ValKind::Bool { val: b } => {
                if *b {
                    self.mode = EvalMode::If { last_span: op.span };
                    proof {
                        assert(state_wf(final(self)@.state));
                    }
                    Ok(())
                } else {
                    let r = self.skip_until_corresponding_end(op);
                    proof {
                        if r is Ok {
                            assert(state_wf(final(self)@.state));
                        }
                    }
                    r
                }
            },
            _ => Err(RuntimeError::IfsExpectBooleans { span: op.span }),
        }
    }

    /// Skip a false conditional's body: consume operations, counting nested
    /// `if`/`end`, through the matching `end`, then resume in normal mode.
    #[verifier::loop_isolation(false)]
    fn skip_until_corresponding_end(&mut self, op: Op) -> (r: Result<(), RuntimeError>)
        requires
            op@.kind is If,
        ensures
            (match r {
                Ok(_) => skip_from(old(self)@.ops, 1, op@.span, old(self)@.state) == run_from(
                    final(self)@.ops,
                    final(self)@.state,
                ) && final(self)@.state == (StateV {
                    mode: ModeV::Normal,
                    ..old(self)@.state
                }) && final(self)@.ops.len() <= old(self)@.ops.len() && (ops_wf(old(self)@.ops)
                    ==> ops_wf(final(self)@.ops)),
                Err(e) => skip_from(old(self)@.ops, 1, op@.span, old(self)@.state) == Err::<
                    StateV,
                    RuntimeErrorV,
                >(e@),
            }),
    {
        let ghost ops0 = self@.ops;
        let ghost st0 = self@.state;
        let q0 = self.ops.len();
        proof {
            lemma_ops_view(self.ops@);
            assert(ops0.subrange(0, ops0.len() as int) =~= ops0);
        }
        let mut depth: u128 = 1;
        let ghost mut kk: int = 0;
        loop
            invariant
                1 <= depth <= 1 + kk,
                0 <= kk <= q0,
                self@.state == st0,
                self@.ops == ops0.subrange(kk, ops0.len() as int),
                skip_from(ops0, 1, op@.span, st0) == skip_from(
                    self@.ops,
                    depth as int,
                    op@.span,
                    st0,
                ),
            decreases q0 - kk,
        {
            let ghost qpre = self.ops@;
            let o = match self.ops.pop_front() {
                None => {
                    proof {
                        lemma_ops_view(qpre);
                    }
                    return Err(RuntimeError::UnclosedIfStatement { span: op.span });
                },
                Some(o) => o,
            };
            proof {
                lemma_ops_view(qpre);
                lemma_ops_view(self.ops@);
                assert(ops_view(qpre) == ops0.subrange(kk, ops0.len() as int));
                assert(self.ops@ == qpre.subrange(1, qpre.len() as int));
                assert(ops_view(qpre)[0] == o@);
                assert forall|x: int|
                    0 <= x < self.ops@.len() implies (#[trigger] ops_view(self.ops@)[x])
                    == ops0.subrange(kk + 1, ops0.len() as int)[x] by {
                    assert(ops_view(self.ops@)[x] == self.ops@[x]@);
                    assert(self.ops@[x] == qpre[x + 1]);
                    assert(ops_view(qpre)[x + 1] == qpre[x + 1]@);
                    assert(ops_view(qpre)[x + 1] == ops0.subrange(kk, ops0.len() as int)[x + 1]);
                }
                assert(ops_view(self.ops@).len() == ops0.subrange(kk + 1, ops0.len() as int).len());
                assert(ops_view(self.ops@) =~= ops0.subrange(kk + 1, ops0.len() as int));
                let av = ops0.subrange(kk, ops0.len() as int);
                assert(av.subrange(1, av.len() as int) =~= ops0.subrange(
                    kk + 1,
                    ops0.len() as int,
                ));
            }
            match o.kind {
                OpKind::End => {
                    if depth == 1 {
                        self.mode = EvalMode::Normal;
                        proof {
                            assert(final(self)@.state == (StateV { mode: ModeV::Normal, ..st0 }));
                            assert(skip_from(ops0, 1, op@.span, st0) == run_from(
                                final(self)@.ops,
                                final(self)@.state,
                            ));
                        }
                        return Ok(());
                    }
                    depth = depth - 1;
                },
                OpKind::If => {
                    depth = depth + 1;
                },
                _ => {},
            }
            proof {
                kk = kk + 1;
            }
        }
    }

    /// Declare a box: the name must be fresh; a zero-valued cell is
    /// allocated and the directory records the declared type and handle.
    fn eval_create_box(&mut self, op: Op) -> (r: Result<(), RuntimeError>)
        requires
            op@.kind is CreateBox,
            op_wf1(op@),
            state_wf(old(self)@.state),
        ensures
            (match r {
                Ok(_) => run_from(seq![op@] + old(self)@.ops, old(self)@.state) == run_from(
                    final(self)@.ops,
                    final(self)@.state,
                ) && state_wf(final(self)@.state) && final(self)@.ops == old(self)@.ops,
                Err(e) => run_from(seq![op@] + old(self)@.ops, old(self)@.state) == Err::<
                    StateV,
                    RuntimeErrorV,
                >(e@),
            }),
    {
        let ghost full = seq![op@] + old(self)@.ops;
        let ghost st0 = old(self)@.state;
        proof {
            assert(full[0] == op@);
            assert(full.subrange(1, full.len() as int) =~= old(self)@.ops);
        }
        match op.kind {
            OpKind::CreateBox { val_type, name } => {
                if self.find_box(&name).is_some() {
                    return Err(
                        RuntimeError::BoxWithIdenticalNameAlreadyExists { name, span: op.span },
                    );
                }
                let box_id = self.boxes.len();
                let val = match val_type {
                    ValType::Int => ValKind::Int { val: 0 },
                    ValType::Str => ValKind::Str { val: String::new() },
                    ValType::Bool => ValKind::Bool { val: false },
                    _ => {
                        // the parser only emits scalar box types
                        proof {
                            assert(false);
                        }
                        ValKind::Int { val: 0 }
                    },
                };
                let ghost dir0 = self.box_dir@;
                let ghost boxes0 = self.boxes@;
                self.box_dir.push((name, val_type, box_id));
                self.boxes.push(Val::new(op.span, val));
                proof {
                    lemma_dir_view(dir0);
                    lemma_dir_view(self.box_dir@);
                    lemma_vals_view(boxes0);
                    lemma_vals_view(self.boxes@);
                    assert(dir_view(self.box_dir@) =~= st0.dir.push(
                        (name@, val_type, st0.boxes.len() as int),
                    ));
                    assert(vals_view(self.boxes@) =~= st0.boxes.push(
                        default_box_val(val_type, op@.span),
                    ));
                    let st2 = final(self)@.state;
                    let nb2 = st2.boxes.len() as int;
                    assert forall|i: int| 0 <= i < st2.stack.len() implies val_wf(
                        #[trigger] st2.stack[i],
                        nb2,
                    ) by {
                        assert(val_wf(st0.stack[i], st0.boxes.len() as int));
                    }
                    assert forall|i: int| 0 <= i < st2.boxes.len() implies val_wf(
                        #[trigger] st2.boxes[i],
                        nb2,
                    ) by {
                        if i < st0.boxes.len() {
                            assert(st2.boxes[i] == st0.boxes[i]);
                            assert(val_wf(st0.boxes[i], st0.boxes.len() as int));
                        }
                    }
                    assert(state_wf(st2));
                }
                Ok(())
            },
            _ => {
                proof {
                    assert(false);
                }
                Err(RuntimeError::EmptyStackError)
            },
        }
    }

    /// Resolve a box reference: push the handle value for the declared box,
    /// or fail on an unknown name.
    fn eval_push_box(&mut self, op: Op) -> (r: Result<(), RuntimeError>)
        requires
            op@.kind is PushBox,
            state_wf(old(self)@.state),
        ensures
            (match r {
                Ok(_) => run_from(seq![op@] + old(self)@.ops, old(self)@.state) == run_from(
                    final(self)@.ops,
                    final(self)@.state,
                ) && state_wf(final(self)@.state) && final(self)@.ops == old(self)@.ops,
                Err(e) => run_from(seq![op@] + old(self)@.ops, old(self)@.state) == Err::<
                    StateV,
                    RuntimeErrorV,
                >(e@),
            }),
    {
        let ghost full = seq![op@] + old(self)@.ops;
        let ghost st0 = old(self)@.state;
        proof {
            assert(full[0] == op@);
            assert(full.subrange(1, full.len() as int) =~= old(self)@.ops);
        }
        match op.kind {
            OpKind::PushBox { name } => {
                match self.find_box(&name) {
                    Some((ty, id)) => {
                        proof {
                            lemma_dir_lookup_wf(st0.dir, name@, st0.boxes.len() as int);
                        }
                        let kind = match ty {
                            ValType::Int => ValKind::BoxedInt { box_id: id },
                            ValType::Str => ValKind::BoxedStr { box_id: id },
                            ValType::Bool => ValKind::BoxedBool { box_id: id },
                            _ => {
                                // the directory only holds scalar types
                                proof {
                                    assert(false);
                                }
                                ValKind::BoxedInt { box_id: id }
                            },
                        };
                        self.stack.push(Val::new(op.span, kind));
                        proof {
                            assert(final(self)@.state.stack =~= st0.stack.push(
                                boxed_val(ty, id as int, op@.span),
                            ));
                            assert(state_wf(final(self)@.state));
                        }
                        Ok(())
                    },
                    None => Err(RuntimeError::UnknownBox { span: op.span }),
                }
            },
            _ => {
                proof {
                    assert(false);
                }
                Err(RuntimeError::EmptyStackError)
            },
        }
    }

    /// Store a value in a box: pop the handle, pop the value, check the
    /// value's kind against the box's declared type, and overwrite the cell.
    fn eval_pack_box(&mut self, Ghost(op): Ghost<OpV>) -> (r: Result<(), RuntimeError>)
        requires
            op.kind is Pack,
            state_wf(old(self)@.state),
        ensures
            (match r {
                Ok(_) => run_from(seq![op] + old(self)@.ops, old(self)@.state) == run_from(
                    final(self)@.ops,
                    final(self)@.state,
                ) && state_wf(final(self)@.state) && final(self)@.ops == old(self)@.ops,
                Err(e) => run_from(seq![op] + old(self)@.ops, old(self)@.state) == Err::<
                    StateV,
                    RuntimeErrorV,
                >(e@),
            }),
    {
        let ghost full = seq![op] + old(self)@.ops;
        let ghost st0 = old(self)@.state;
        proof {
            assert(full[0] == op);
            assert(full.subrange(1, full.len() as int) =~= old(self)@.ops);
        }
        let b = match self.stack.pop() {
            Ok(v) => v,
            Err(e) => {
                return Err(e);
            },
        };
        let val = match self.stack.pop() {
            Ok(v) => v,
            Err(e) => {
                return Err(e);
            },
        };
        let ghost n = st0.stack.len() as int;
        proof {
            assert(st0.stack.drop_last().drop_last() =~= st0.stack.subrange(0, n - 2));
            assert(val_wf(b@, st0.boxes.len() as int));
        }
        match b.kind() {
            ValKind::BoxedInt { box_id } => match val.kind() {
                ValKind::Int { .. } => {
                    let ghost boxes0 = self.boxes@;
                    self.boxes.set(*box_id, val);
                    proof {
                        lemma_vals_view(boxes0);
                        lemma_vals_view(self.boxes@);
                        assert(vals_view(self.boxes@) =~= st0.boxes.update(
                            b@.kind->BoxedInt_box_id as int,
                            st0.stack[n - 2],
                        ));
                        assert(state_wf(final(self)@.state));
                    }
                    Ok(())
                },
                _ => Err(
                    RuntimeError::IncompatibleBox { expected: ValType::Int, span: val.span() },
                ),
            },
            ValKind::BoxedStr { box_id } => match val.kind() {
                ValKind::Str { .. } => {
                    let ghost boxes0 = self.boxes@;
                    self.boxes.set(*box_id, val);
                    proof {
                        lemma_vals_view(boxes0);
                        lemma_vals_view(self.boxes@);
                        assert(vals_view(self.boxes@) =~= st0.boxes.update(
                            b@.kind->BoxedStr_box_id as int,
                            st0.stack[n - 2],
                        ));
                        assert(state_wf(final(self)@.state));
                    }
                    Ok(())
                },
                _ => Err(
                    RuntimeError::IncompatibleBox { expected: ValType::Str, span: val.span() },
                ),
            },
            ValKind::BoxedBool { box_id } => match val.kind() {
                ValKind::Bool { .. } => {
                    let ghost boxes0 = self.boxes@;
                    self.boxes.set(*box_id, val);
                    proof {
                        lemma_vals_view(boxes0);
                        lemma_vals_view(self.boxes@);
                        assert(vals_view(self.boxes@) =~= st0.boxes.update(
                            b@.kind->BoxedBool_box_id as int,
                            st0.stack[n - 2],
                        ));
                        assert(state_wf(final(self)@.state));
                    }
                    Ok(())
                },
                _ => Err(
                    RuntimeError::IncompatibleBox { expected: ValType::Bool, span: val.span() },
                ),
            },
            _ => Err(RuntimeError::CanOnlyPackBoxes { span: b.span() }),
        }
    }

    /// Read a box: pop the handle and push a copy of the cell's current
    /// value.
    fn eval_unpack_box(&mut self, Ghost(op): Ghost<OpV>) -> (r: Result<(), RuntimeError>)
        requires
            op.kind is Unpack,
            state_wf(old(self)@.state),
        ensures
            (match r {
                Ok(_) => run_from(seq![op] + old(self)@.ops, old(self)@.state) == run_from(
                    final(self)@.ops,
                    final(self)@.state,
                ) && state_wf(final(self)@.state) && final(self)@.ops == old(self)@.ops,
                Err(e) => run_from(seq![op] + old(self)@.ops, old(self)@.state) == Err::<
                    StateV,
                    RuntimeErrorV,
                >(e@),
            }),
    {
        let ghost full = seq![op] + old(self)@.ops;
        let ghost st0 = old(self)@.state;
        proof {
            assert(full[0] == op);
            assert(full.subrange(1, full.len() as int) =~= old(self)@.ops);
        }
        let b = match self.stack.pop() {
            Ok(v) => v,
            Err(e) => {
                return Err(e);
            },
        };
        proof {
            assert(val_wf(b@, st0.boxes.len() as int));
            lemma_vals_view(self.boxes@);
        }
        match b.kind() {
            ValKind::BoxedInt { box_id } => {
                let cell = self.boxes[*box_id].clone();
                self.stack.push(cell);
                proof {
                    assert(state_wf(final(self)@.state));
                }
                Ok(())
            },
            ValKind::BoxedStr { box_id } => {
                let cell = self.boxes[*box_id].clone();
                self.stack.push(cell);
                proof {
                    assert(state_wf(final(self)@.state));
                }
                Ok(())
            },
            ValKind::BoxedBool { box_id } => {
                let cell = self.boxes[*box_id].clone();
                self.stack.push(cell);
                proof {
                    assert(state_wf(final(self)@.state));
                }
                Ok(())
            },
            _ => Err(RuntimeError::CanOnlyUnpackBoxes { span: b.span() }),
        }
    }
}

impl Runtime {
    /// Dispatch one simple operation: pushes, operator evaluation, stack
    /// shuffles, `print`, `type` and `assert`.
    #[verifier::loop_isolation(false)]
    #[verifier::rlimit(80)]
    #[verifier::spinoff_prover]
    fn eval_simple(&mut self, op: Op) -> (r: Result<(), RuntimeError>)
        requires
            !(op@.kind is If),
            !(op@.kind is End),
            !(op@.kind is CreateBox),
            !(op@.kind is Pack),
            !(op@.kind is Unpack),
            !(op@.kind is PushBox),
            !(op@.kind is Until),
            state_wf(old(self)@.state),
        ensures
            (match r {
                Ok(_) => run_from(seq![op@] + old(self)@.ops, old(self)@.state) == run_from(
                    final(self)@.ops,
                    final(self)@.state,
                ) && state_wf(final(self)@.state) && final(self)@.ops == old(self)@.ops,
                Err(e) => run_from(seq![op@] + old(self)@.ops, old(self)@.state) == Err::<
                    StateV,
                    RuntimeErrorV,
                >(e@),
            }),
    {
        let ghost full = seq![op@] + old(self)@.ops;
        let ghost st0 = old(self)@.state;
        let ghost n = st0.stack.len() as int;
        let ghost nb = st0.boxes.len() as int;
        proof {
            assert(full[0] == op@);
            assert(full.subrange(1, full.len() as int) =~= old(self)@.ops);
        }
        let sp = op.span;
        match op.kind {
            OpKind::PushInt { val: v } => {
                self.stack.push(Val::new(sp, ValKind::Int { val: v }));
                proof {
                    assert(state_wf(final(self)@.state));
                }
                Ok(())
            },
            OpKind::PushStr { val: v } => {
                self.stack.push(Val::new(sp, ValKind::Str { val: v }));
                proof {
                    assert(state_wf(final(self)@.state));
                }
                Ok(())
            },
            OpKind::PushBool { val: v } => {
                self.stack.push(Val::new(sp, ValKind::Bool { val: v }));
                proof {
                    assert(state_wf(final(self)@.state));
                }
                Ok(())
            },
            OpKind::PushTypeInt => {
                self.stack.push(Val::new(sp, ValKind::Type { val: ValType::Int }));
                proof {
                    assert(state_wf(final(self)@.state));
                }
                Ok(())
            },
            OpKind::PushTypeStr => {
                self.stack.push(Val::new(sp, ValKind::Type { val: ValType::Str }));
                proof {
                    assert(state_wf(final(self)@.state));
                }
                Ok(())
            },
            OpKind::PushTypeBool => {
                self.stack.push(Val::new(sp, ValKind::Type { val: ValType::Bool }));
                proof {
                    assert(state_wf(final(self)@.state));
                }
                Ok(())
            },
            OpKind::PushTypeBoxedInt => {
                self.stack.push(Val::new(sp, ValKind::Type { val: ValType::BoxedInt }));
                proof {
                    assert(state_wf(final(self)@.state));
                }
                Ok(())
            },
            OpKind::PushTypeBoxedStr => {
                self.stack.push(Val::new(sp, ValKind::Type { val: ValType::BoxedStr }));
                proof {
                    assert(state_wf(final(self)@.state));
                }
                Ok(())
            },
            OpKind::PushTypeBoxedBool => {
                self.stack.push(Val::new(sp, ValKind::Type { val: ValType::BoxedBool }));
                proof {
                    assert(state_wf(final(self)@.state));
                }
                Ok(())
            },
            OpKind::Add => {
                let y = match self.stack.pop() {
                    Ok(v) => v,
                    Err(e) => {
                        return Err(e);
                    },
                };
                let x = match self.stack.pop() {
                    Ok(v) => v,
                    Err(e) => {
                        return Err(e);
                    },
                };
                match x.add(y, sp) {
                    Ok(v) => {
                        self.stack.push(v);
                        proof {
                            assert(final(self)@.state.stack =~= st0.stack.subrange(0, n - 2).push(
                                final(self)@.state.stack.last(),
                            ));
                            assert(state_wf(final(self)@.state));
                        }
                        Ok(())
                    },
                    Err(e) => Err(e),
                }
            },
            OpKind::Sub => {
                let y = match self.stack.pop() {
                    Ok(v) => v,
                    Err(e) => {
                        return Err(e);
                    },
                };
                let x = match self.stack.pop() {
                    Ok(v) => v,
                    Err(e) => {
                        return Err(e);
                    },
                };
                match x.sub(y, sp) {
                    Ok(v) => {
                        self.stack.push(v);
                        proof {
                            assert(final(self)@.state.stack =~= st0.stack.subrange(0, n - 2).push(
                                final(self)@.state.stack.last(),
                            ));
                            assert(state_wf(final(self)@.state));
                        }
                        Ok(())
                    },
                    Err(e) => Err(e),
                }
            },
            OpKind::Mul => {
                let y = match self.stack.pop() {
                    Ok(v) => v,
                    Err(e) => {
                        return Err(e);
                    },
                };
                let x = match self.stack.pop() {
                    Ok(v) => v,
                    Err(e) => {
                        return Err(e);
                    },
                };
                match x.mul(y, sp) {
                    Ok(v) => {
                        self.stack.push(v);
                        proof {
                            assert(final(self)@.state.stack =~= st0.stack.subrange(0, n - 2).push(
                                final(self)@.state.stack.last(),
                            ));
                            assert(state_wf(final(self)@.state));
                        }
                        Ok(())
                    },
                    Err(e) => Err(e),
                }
            },
            OpKind::Div => {
                let y = match self.stack.pop() {
                    Ok(v) => v,
                    Err(e) => {
                        return Err(e);
                    },
                };
                let x = match self.stack.pop() {
                    Ok(v) => v,
                    Err(e) => {
                        return Err(e);
                    },
                };
                match x.div(y, sp) {
                    Ok(v) => {
                        self.stack.push(v);
                        proof {
                            assert(final(self)@.state.stack =~= st0.stack.subrange(0, n - 2).push(
                                final(self)@.state.stack.last(),
                            ));
                            assert(state_wf(final(self)@.state));
                        }
                        Ok(())
                    },
                    Err(e) => Err(e),
                }
            },
            OpKind::Or => {
                let y = match self.stack.pop() {
                    Ok(v) => v,
                    Err(e) => {
                        return Err(e);
                    },
                };
                let x = match self.stack.pop() {
                    Ok(v) => v,
                    Err(e) => {
                        return Err(e);
                    },
                };
                match x.or(y, sp) {
                    Ok(v) => {
                        self.stack.push(v);
                        proof {
                            assert(final(self)@.state.stack =~= st0.stack.subrange(0, n - 2).push(
                                final(self)@.state.stack.last(),
                            ));
                            assert(state_wf(final(self)@.state));
                        }
                        Ok(())
                    },
                    Err(e) => Err(e),
                }
            },
            OpKind::And => {
                let y = match self.stack.pop() {
                    Ok(v) => v,
                    Err(e) => {
                        return Err(e);
                    },
                };
                let x = match self.stack.pop() {
                    Ok(v) => v,
                    Err(e) => {
                        return Err(e);
                    },
                };
                match x.and(y, sp) {
                    Ok(v) => {
                        self.stack.push(v);
                        proof {
                            assert(final(self)@.state.stack =~= st0.stack.subrange(0, n - 2).push(
                                final(self)@.state.stack.last(),
                            ));
                            assert(state_wf(final(self)@.state));
                        }
                        Ok(())
                    },
                    Err(e) => Err(e),
                }
            },
            OpKind::Eq => {
                let y = match self.stack.pop() {
                    Ok(v) => v,
                    Err(e) => {
                        return Err(e);
                    },
                };
                let x = match self.stack.pop() {
                    Ok(v) => v,
                    Err(e) => {
                        return Err(e);
                    },
                };
                match x.eq(y, sp) {
                    Ok(v) => {
                        self.stack.push(v);
                        proof {
                            assert(final(self)@.state.stack =~= st0.stack.subrange(0, n - 2).push(
                                final(self)@.state.stack.last(),
                            ));
                            assert(state_wf(final(self)@.state));
                        }
                        Ok(())
                    },
                    Err(e) => Err(e),
                }
            },
            OpKind::LessThan => {
                let y = match self.stack.pop() {
                    Ok(v) => v,
                    Err(e) => {
                        return Err(e);
                    },
                };
                let x = match self.stack.pop() {
                    Ok(v) => v,
                    Err(e) => {
                        return Err(e);
                    },
                };
                match x.lt(y, sp) {
                    Ok(v) => {
                        self.stack.push(v);
                        proof {
                            assert(final(self)@.state.stack =~= st0.stack.subrange(0, n - 2).push(
                                final(self)@.state.stack.last(),
                            ));
                            assert(state_wf(final(self)@.state));
                        }
                        Ok(())
                    },
                    Err(e) => Err(e),
                }
            },
            OpKind::GreaterThan => {
                let y = match self.stack.pop() {
                    Ok(v) => v,
                    Err(e) => {
                        return Err(e);
                    },
                };
                let x = match self.stack.pop() {
                    Ok(v) => v,
                    Err(e) => {
                        return Err(e);
                    },
                };
                match x.gt(y, sp) {
                    Ok(v) => {
                        self.stack.push(v);
                        proof {
                            assert(final(self)@.state.stack =~= st0.stack.subrange(0, n - 2).push(
                                final(self)@.state.stack.last(),
                            ));
                            assert(state_wf(final(self)@.state));
                        }
                        Ok(())
                    },
                    Err(e) => Err(e),
                }
            },
            OpKind::LessThanEq => {
                let y = match self.stack.pop() {
                    Ok(v) => v,
                    Err(e) => {
                        return Err(e);
                    },
                };
                let x = match self.stack.pop() {
                    Ok(v) => v,
                    Err(e) => {
                        return Err(e);
                    },
                };
                match x.lte(y, sp) {
                    Ok(v) => {
                        self.stack.push(v);
                        proof {
                            assert(final(self)@.state.stack =~= st0.stack.subrange(0, n - 2).push(
                                final(self)@.state.stack.last(),
                            ));
                            assert(state_wf(final(self)@.state));
                        }
                        Ok(())
                    },
                    Err(e) => Err(e),
                }
            },
            OpKind::GreaterThanEq => {
                let y = match self.stack.pop() {
                    Ok(v) => v,
                    Err(e) => {
                        return Err(e);
                    },
                };
                let x = match self.stack.pop() {
                    Ok(v) => v,
                    Err(e) => {
                        return Err(e);
                    },
                };
                match x.gte(y, sp) {
                    Ok(v) => {
                        self.stack.push(v);
                        proof {
                            assert(final(self)@.state.stack =~= st0.stack.subrange(0, n - 2).push(
                                final(self)@.state.stack.last(),
                            ));
                            assert(state_wf(final(self)@.state));
                        }
                        Ok(())
                    },
                    Err(e) => Err(e),
                }
            },
            OpKind::Not => {
                let x = match self.stack.pop() {
                    Ok(v) => v,
                    Err(e) => {
                        return Err(e);
                    },
                };
                match x.not(sp) {
                    Ok(v) => {
                        self.stack.push(v);
                        proof {
                            assert(state_wf(final(self)@.state));
                        }
                        Ok(())
                    },
                    Err(e) => Err(e),
                }
            },
            OpKind::Print => {
                let x = match self.stack.pop() {
                    Ok(v) => v,
                    Err(e) => {
                        return Err(e);
                    },
                };
                let ghost out0 = self.output@;
                self.output.push(x.display_string());
                proof {
                    lemma_strs_view(out0);
                    lemma_strs_view(self.output@);
                    assert(strs_view(self.output@) =~= st0.output.push(
                        val_str(st0.stack[n - 1].kind),
                    ));
                    assert(state_wf(final(self)@.state));
                }
                Ok(())
            },
            OpKind::GetType => {
                let x = match self.stack.pop() {
                    Ok(v) => v,
                    Err(e) => {
                        return Err(e);
                    },
                };
                self.stack.push(x.get_type(sp));
                proof {
                    assert(state_wf(final(self)@.state));
                }
                Ok(())
            },
            OpKind::Assert => {
                let x = match self.stack.pop() {
                    Ok(v) => v,
                    Err(e) => {
                        return Err(e);
                    },
                };
                match x.assert_bool(sp) {
                    Ok(_) => {
                        proof {
                            assert(state_wf(final(self)@.state));
                        }
                        Ok(())
                    },
                    Err(e) => Err(e),
                }
            },
            OpKind::Dup => {
                match self.stack.dup() {
                    Ok(_) => {
                        proof {
                            assert(state_wf(final(self)@.state));
                        }
                        Ok(())
                    },
                    Err(e) => Err(e),
                }
            },
            OpKind::Drop => {
                match self.stack.pop() {
                    Ok(_) => {
                        proof {
                            assert(state_wf(final(self)@.state));
                        }
                        Ok(())
                    },
                    Err(e) => Err(e),
                }
            },
            OpKind::Swap => {
                match self.stack.swap() {
                    Ok(_) => {
                        proof {
                            let s2 = final(self)@.state.stack;
                            assert forall|i: int| 0 <= i < s2.len() implies val_wf(
                                #[trigger] s2[i],
                                nb,
                            ) by {
                                if i < s2.len() - 2 {
                                    assert(s2[i] == st0.stack[i]);
                                } else if i == s2.len() - 2 {
                                    assert(s2[i] == st0.stack[n - 1]);
                                } else {
                                    assert(s2[i] == st0.stack[n - 2]);
                                }
                            }
                            assert(state_wf(final(self)@.state));
                        }
                        Ok(())
                    },
                    Err(e) => Err(e),
                }
            },
            OpKind::Over => {
                match self.stack.over() {
                    Ok(_) => {
                        proof {
                            let s2 = final(self)@.state.stack;
                            assert forall|i: int| 0 <= i < s2.len() implies val_wf(
                                #[trigger] s2[i],
                                nb,
                            ) by {
                                if i < s2.len() - 3 {
                                    assert(s2[i] == st0.stack[i]);
                                } else if i == s2.len() - 3 {
                                    assert(s2[i] == st0.stack[n - 2]);
                                } else if i == s2.len() - 2 {
                                    assert(s2[i] == st0.stack[n - 1]);
                                } else {
                                    assert(s2[i] == st0.stack[n - 2]);
                                }
                            }
                            assert(state_wf(final(self)@.state));
                        }
                        Ok(())
                    },
                    Err(e) => Err(e),
                }
            },
            OpKind::Rot => {
                match self.stack.rot() {
                    Ok(_) => {
                        proof {
                            let s2 = final(self)@.state.stack;
                            assert forall|i: int| 0 <= i < s2.len() implies val_wf(
                                #[trigger] s2[i],
                                nb,
                            ) by {
                                if i < s2.len() - 3 {
                                    assert(s2[i] == st0.stack[i]);
                                } else if i == s2.len() - 3 {
                                    assert(s2[i] == st0.stack[n - 2]);
                                } else if i == s2.len() - 2 {
                                    assert(s2[i] == st0.stack[n - 1]);
                                } else {
                                    assert(s2[i] == st0.stack[n - 3]);
                                }
                            }
                            assert(state_wf(final(self)@.state));
                        }
                        Ok(())
                    },
                    Err(e) => Err(e),
                }
            },
            _ => {
                // control-flow and box operations never reach this
                // dispatcher
                proof {
                    assert(false);
                }
                Err(RuntimeError::EmptyStackError)
            },
        }
    }

    /// Execute the whole operation sequence. On success the final stack is
    /// returned (its top, if any, is the program's result) and what `print`
    /// emitted is available from [`Runtime::output`]; on failure the first
    /// error aborts the run.
    #[verifier::loop_isolation(false)]
    #[verifier::rlimit(60)]
    pub fn run(&mut self) -> (r: Result<Stack, RuntimeError>)
        requires
            ops_wf(old(self)@.ops),
            state_wf(old(self)@.state),
        ensures
            (match r {
                Ok(stack) => run_from(old(self)@.ops, old(self)@.state) matches Ok(stf)
                    && stack@ == stf.stack && final(self)@.state == stf,
                Err(e) => run_from(old(self)@.ops, old(self)@.state) == Err::<
                    StateV,
                    RuntimeErrorV,
                >(e@),
            }),
    {
        let ghost ops0 = self@.ops;
        let ghost st0 = self@.state;
        loop
            invariant
                run_from(ops0, st0) == run_from(self@.ops, self@.state),
                state_wf(self@.state),
                ops_wf(self@.ops),
            decreases self@.ops.len(),
        {
            let ghost pre = self@;
            let ghost qpre = self.ops@;
            let op = match self.ops.pop_front() {
                None => {
                    proof {
                        lemma_ops_view(qpre);
                    }
                    match &self.mode {
                        EvalMode::If { last_span } => {
                            let sp = *last_span;
                            return Err(RuntimeError::UnclosedIfStatement { span: sp });
                        },
                        EvalMode::Normal => {
                            return Ok(self.stack.clone());
                        },
                    }
                },
                Some(op) => op,
            };
            let ghost opv = op@;
            proof {
                lemma_ops_view(qpre);
                lemma_ops_view(self.ops@);
                assert(pre.ops[0] == opv);
                assert(op_wf1(opv));
                assert(pre.ops =~= seq![opv] + self@.ops);
                assert forall|i: int| 0 <= i < self@.ops.len() implies op_wf1(
                    #[trigger] self@.ops[i],
                ) by {
                    assert(self@.ops[i] == pre.ops[i + 1]);
                }
            }
            let ghost rest = self@.ops;
            match &op.kind {
                OpKind::If => {
                    match self.eval_if(op) {
                        Ok(_) => {},
                        Err(e) => {
                            return Err(e);
                        },
                    }
                },
                OpKind::End => {
                    match &self.mode {
                        EvalMode::Normal => {
                            return Err(RuntimeError::UnexpectedEndToken { span: op.span });
                        },
                        EvalMode::If { .. } => {
                            self.mode = EvalMode::Normal;
                            proof {
                                assert(self@.state == (StateV {
                                    mode: ModeV::Normal,
                                    ..pre.state
                                }));
                                let full = seq![opv] + rest;
                                assert(full[0] == opv);
                                assert(full.subrange(1, full.len() as int) =~= rest);
                                assert(run_from(full, pre.state) == run_from(rest, self@.state));
                            }
                        },
                    }
                },
                OpKind::CreateBox { .. } => {
                    match self.eval_create_box(op) {
                        Ok(_) => {},
                        Err(e) => {
                            return Err(e);
                        },
                    }
                },
                OpKind::Pack => {
                    match self.eval_pack_box(Ghost(opv)) {
                        Ok(_) => {},
                        Err(e) => {
                            return Err(e);
                        },
                    }
                },
                OpKind::Unpack => {
                    match self.eval_unpack_box(Ghost(opv)) {
                        Ok(_) => {},
                        Err(e) => {
                            return Err(e);
                        },
                    }
                },
                OpKind::PushBox { .. } => {
                    match self.eval_push_box(op) {
                        Ok(_) => {},
                        Err(e) => {
                            return Err(e);
                        },
                    }
                },
                _ => {
                    match self.eval_simple(op) {
                        Ok(_) => {},
                        Err(e) => {
                            return Err(e);
                        },
                    }
                },
            }
        }
    }
}

} // verus!
