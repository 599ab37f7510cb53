//! Runtime values: a kind-tagged union carrying its data and the span it
//! came from, together with the dynamic dispatch of every operator over the
//! closed set of value kinds.

use vstd::prelude::*;
use crate::span::{Span, spec_merge};
use crate::error::{RuntimeError, RuntimeErrorV};

verus! {

/// The type tags the language can speak about: the three scalar kinds and
/// the three boxed (cell handle) kinds.
#[derive(Debug, Clone, Copy, PartialEq, Eq, Structural)]
pub enum ValType {
    Int,
    Str,
    Bool,
    BoxedInt,
    BoxedStr,
    BoxedBool,
}

/// The data a runtime value carries. A `BoxedX` value holds an opaque handle
/// into the runtime's box storage; handles are only ever made by the runtime
/// that owns the storage.
#[derive(Debug)]
pub enum ValKind {
    Int { val: i128 },
    Str { val: String },
    Bool { val: bool },
    Type { val: ValType },
    BoxedInt { box_id: usize },
    BoxedStr { box_id: usize },
    BoxedBool { box_id: usize },
}

/// A runtime value: its data and the source span it is attributed to, kept
/// for diagnostics.
#[derive(Debug)]
pub struct Val {
    pub span: Span,
    pub kind: ValKind,
}

/// The mathematical image of a [`ValKind`]: string data as a character
/// sequence.
pub ghost enum ValKindV {
    Int { val: i128 },
    Str { val: Seq<char> },
    Bool { val: bool },
    Type { val: ValType },
    BoxedInt { box_id: usize },
    BoxedStr { box_id: usize },
    BoxedBool { box_id: usize },
}

/// The mathematical image of a [`Val`].
pub ghost struct ValV {
    pub span: Span,
    pub kind: ValKindV,
}

impl View for ValKind {
    type V = ValKindV;

    open spec fn view(&self) -> ValKindV {
        match self {
            ValKind::Int { val } => ValKindV::Int { val: *val },
            ValKind::Str { val } => ValKindV::Str { val: val@ },
            ValKind::Bool { val } => ValKindV::Bool { val: *val },
            ValKind::Type { val } => ValKindV::Type { val: *val },
            ValKind::BoxedInt { box_id } => ValKindV::BoxedInt { box_id: *box_id },
            ValKind::BoxedStr { box_id } => ValKindV::BoxedStr { box_id: *box_id },
            ValKind::BoxedBool { box_id } => ValKindV::BoxedBool { box_id: *box_id },
        }
    }
}

impl View for Val {
    type V = ValV;

    open spec fn view(&self) -> ValV {
        ValV { span: self.span, kind: self.kind@ }
    }
}

impl Clone for ValKind {
    fn clone(&self) -> (r: Self)
        ensures
            r == *self,
    {
        match self {
            ValKind::Int { val } => ValKind::Int { val: *val },
            ValKind::Str { val } => ValKind::Str { val: val.clone() },
            ValKind::Bool { val } => ValKind::Bool { val: *val },
            ValKind::Type { val } => ValKind::Type { val: *val },
            ValKind::BoxedInt { box_id } => ValKind::BoxedInt { box_id: *box_id },
            ValKind::BoxedStr { box_id } => ValKind::BoxedStr { box_id: *box_id },
            ValKind::BoxedBool { box_id } => ValKind::BoxedBool { box_id: *box_id },
        }
    }
}

impl Clone for Val {
    fn clone(&self) -> (r: Self)
        ensures
            r == *self,
    {
        Val { span: self.span, kind: self.kind.clone() }
    }
}

impl Val {
    pub fn new(span: Span, kind: ValKind) -> (r: Self)
        ensures
            r@ == (ValV { span, kind: kind@ }),
    {
        Val { span, kind }
    }

    pub fn span(&self) -> (r: Span)
        ensures
            r == self@.span,
    {
        self.span
    }

    pub fn kind(&self) -> (r: &ValKind)
        ensures
            r@ == self@.kind,
    {
        &self.kind
    }
}

/// The images of a value sequence.
pub open spec fn vals_view(s: Seq<Val>) -> Seq<ValV> {
    s.map_values(|v: Val| v@)
}

/// The image of a value vector indexes pointwise.
pub proof fn lemma_vals_view(s: Seq<Val>)
    ensures
        vals_view(s).len() == s.len(),
        forall|i: int| 0 <= i < s.len() ==> (#[trigger] vals_view(s)[i]) == s[i]@,
{
}

/// The images of a string sequence.
pub open spec fn strs_view(s: Seq<String>) -> Seq<Seq<char>> {
    s.map_values(|x: String| x@)
}

/// The image of a string vector indexes pointwise.
pub proof fn lemma_strs_view(s: Seq<String>)
    ensures
        strs_view(s).len() == s.len(),
        forall|i: int| 0 <= i < s.len() ==> (#[trigger] strs_view(s)[i]) == s[i]@,
{
}

// ---------------------------------------------------------------------------
// Decimal display of integers
// ---------------------------------------------------------------------------

/// The decimal digit character for `d` in `0..10`.
pub open spec fn dec_digit(d: int) -> char {
    if d == 0 {
        '0'
    } else if d == 1 {
        '1'
    } else if d == 2 {
        '2'
    } else if d == 3 {
        '3'
    } else if d == 4 {
        '4'
    } else if d == 5 {
        '5'
    } else if d == 6 {
        '6'
    } else if d == 7 {
        '7'
    } else if d == 8 {
        '8'
    } else {
        '9'
    }
}

/// The decimal representation of a natural number, most significant digit
/// first, with no leading zeros (a lone `0` for zero).
pub open spec fn dec_str_nat(n: nat) -> Seq<char>
    decreases n,
{
    if n < 10 {
        seq![dec_digit(n as int)]
    } else {
        dec_str_nat(n / 10).push(dec_digit((n % 10) as int))
    }
}

/// The decimal representation of an integer: a leading `-` for negatives.
pub open spec fn dec_str(i: int) -> Seq<char> {
    if i < 0 {
        seq!['-'] + dec_str_nat((-i) as nat)
    } else {
        dec_str_nat(i as nat)
    }
}

/// A one-character string slice for the digit `d`.
fn digit_str(d: u128) -> (r: &'static str)
    requires
        d < 10,
    ensures
        r@ == seq![dec_digit(d as int)],
{
    proof {
        reveal_strlit("0");
        reveal_strlit("1");
        reveal_strlit("2");
        reveal_strlit("3");
        reveal_strlit("4");
        reveal_strlit("5");
        reveal_strlit("6");
        reveal_strlit("7");
        reveal_strlit("8");
        reveal_strlit("9");
    }
    if d == 0 {
        "0"
    } else if d == 1 {
        "1"
    } else if d == 2 {
        "2"
    } else if d == 3 {
        "3"
    } else if d == 4 {
        "4"
    } else if d == 5 {
        "5"
    } else if d == 6 {
        "6"
    } else if d == 7 {
        "7"
    } else if d == 8 {
        "8"
    } else {
        "9"
    }
}

fn nat_to_string(n: u128) -> (r: String)
    ensures
        r@ == dec_str_nat(n as nat),
    decreases n,
{
    if n < 10 {
        String::from_str(digit_str(n))
    } else {
        let mut s = nat_to_string(n / 10);
        s.append(digit_str(n % 10));
        s
    }
}

/// The decimal text of an integer, as the language prints it.
pub fn int_to_string(v: i128) -> (r: String)
    ensures
        r@ == dec_str(v as int),
{
    if v >= 0 {
        nat_to_string(v as u128)
    } else {
        let m: u128 = ((-(v + 1)) as u128) + 1;
        assert(m as int == -(v as int));
        let mut s = String::from_str("-");
        proof {
            reveal_strlit("-");
        }
        assert(s@ =~= seq!['-']);
        s.append(nat_to_string(m).as_str());
        assert(s@ =~= dec_str(v as int));
        s
    }
}

// ---------------------------------------------------------------------------
// Display text of values and type tags
// ---------------------------------------------------------------------------

/// The surface syntax of a type tag, as `type` pushes it and `print` shows
/// it.
pub open spec fn valtype_str(t: ValType) -> Seq<char> {
    match t {
        ValType::Int => "type::int"@,
        ValType::Str => "type::str"@,
        ValType::Bool => "type::bool"@,
        ValType::BoxedInt => "type::box<int>"@,
        ValType::BoxedStr => "type::box<str>"@,
        ValType::BoxedBool => "type::box<bool>"@,
    }
}

/// What `print` emits for a value: integers in decimal, strings verbatim,
/// booleans as `true`/`false`, type tags in their surface syntax, and box
/// handles by their kind alone.
pub open spec fn val_str(k: ValKindV) -> Seq<char> {
    match k {
        ValKindV::Int { val } => dec_str(val as int),
        ValKindV::Str { val } => val,
        ValKindV::Bool { val } => if val {
            "true"@
        } else {
            "false"@
        },
        ValKindV::Type { val } => valtype_str(val),
        ValKindV::BoxedInt { .. } => "BoxedInt"@,
        ValKindV::BoxedStr { .. } => "BoxedStr"@,
        ValKindV::BoxedBool { .. } => "BoxedBool"@,
    }
}

impl ValType {
    /// The surface syntax of this type tag.
    pub fn display_string(&self) -> (r: String)
        ensures
            r@ == valtype_str(*self),
    {
        match self {
            ValType::Int => String::from_str("type::int"),
            ValType::Str => String::from_str("type::str"),
            ValType::Bool => String::from_str("type::bool"),
            ValType::BoxedInt => String::from_str("type::box<int>"),
            ValType::BoxedStr => String::from_str("type::box<str>"),
            ValType::BoxedBool => String::from_str("type::box<bool>"),
        }
    }
}

// ---------------------------------------------------------------------------
// Lexicographic order on strings
// ---------------------------------------------------------------------------

/// Strict lexicographic order on character sequences, by code point; a
/// proper prefix comes before its extensions.
pub open spec fn chars_lt(a: Seq<char>, b: Seq<char>) -> bool
    decreases a.len(),
{
    if b.len() == 0 {
        false
    } else if a.len() == 0 {
        true
    } else if a[0] != b[0] {
        (a[0] as u32) < (b[0] as u32)
    } else {
        chars_lt(a.subrange(1, a.len() as int), b.subrange(1, b.len() as int))
    }
}

/// Non-strict lexicographic order on character sequences.
pub open spec fn chars_le(a: Seq<char>, b: Seq<char>) -> bool {
    chars_lt(a, b) || a == b
}

fn str_lt_exec(a: &str, b: &str) -> (r: bool)
    ensures
        r == chars_lt(a@, b@),
{
    let alen = a.unicode_len();
    let blen = b.unicode_len();
    proof {
        assert(a@.subrange(0, alen as int) =~= a@);
        assert(b@.subrange(0, blen as int) =~= b@);
    }
    let mut i: usize = 0;
    loop
        invariant
            i <= alen,
            i <= blen,
            alen == a@.len(),
            blen == b@.len(),
            chars_lt(a@, b@) == chars_lt(
                a@.subrange(i as int, alen as int),
                b@.subrange(i as int, blen as int),
            ),
        decreases alen - i + (if i < blen { 1int } else { 0int }),
    {
        proof {
            let sa = a@.subrange(i as int, alen as int);
            let sb = b@.subrange(i as int, blen as int);
            if i >= alen {
                assert(sa.len() == 0);
                assert(chars_lt(sa, sb) == (sb.len() > 0));
            } else if i >= blen {
                assert(sb.len() == 0);
                assert(!chars_lt(sa, sb));
            }
        }
        if i >= alen || i >= blen {
            return alen < blen;
        }
        let ca = a.get_char(i);
        let cb = b.get_char(i);
        if ca != cb {
            return (ca as u32) < (cb as u32);
        }
        proof {
            let sa = a@.subrange(i as int, alen as int);
            let sb = b@.subrange(i as int, blen as int);
            assert(sa.subrange(1, sa.len() as int) =~= a@.subrange(i + 1, alen as int));
            assert(sb.subrange(1, sb.len() as int) =~= b@.subrange(i + 1, blen as int));
        }
        i = i + 1;
    }
}

fn str_eq_exec(a: &str, b: &str) -> (r: bool)
    ensures
        r == (a@ == b@),
{
    let alen = a.unicode_len();
    let blen = b.unicode_len();
    if alen != blen {
        return false;
    }
    let mut i: usize = 0;
    while i < alen
        invariant
            i <= alen,
            alen == a@.len(),
            alen == b@.len(),
            forall|j: int| 0 <= j < i ==> a@[j] == b@[j],
        decreases alen - i,
    {
        if a.get_char(i) != b.get_char(i) {
            return false;
        }
        i = i + 1;
    }
    proof {
        assert(a@ =~= b@);
    }
    true
}

// ---------------------------------------------------------------------------
// Operator semantics
// ---------------------------------------------------------------------------

/// The image of an operator's result: values and errors taken to their
/// mathematical form.
pub open spec fn res_val_view(r: Result<Val, RuntimeError>) -> Result<ValV, RuntimeErrorV> {
    match r {
        Ok(v) => Ok(v@),
        Err(e) => Err(e@),
    }
}

/// The image of a result that carries no value.
pub open spec fn res_unit_view(r: Result<(), RuntimeError>) -> Result<(), RuntimeErrorV> {
    match r {
        Ok(u) => Ok(u),
        Err(e) => Err(e@),
    }
}

/// `+`: integer addition; string concatenation, with an integer operand
/// shown in decimal when paired with a string. The result's span merges the
/// left operand's with the operator's.
pub open spec fn spec_add(x: ValV, y: ValV, op_span: Span) -> Result<ValV, RuntimeErrorV> {
    let sp = spec_merge(x.span, op_span);
    match (x.kind, y.kind) {
        (ValKindV::Int { val: a }, ValKindV::Int { val: b }) => if i128::MIN <= a + b
            <= i128::MAX {
            Ok(ValV { span: sp, kind: ValKindV::Int { val: (a + b) as i128 } })
        } else {
            Err(RuntimeErrorV::IntegerOverflow { left: x.span, right: y.span })
        },
        (ValKindV::Str { val: a }, ValKindV::Str { val: b }) => Ok(
            ValV { span: sp, kind: ValKindV::Str { val: a + b } },
        ),
        (ValKindV::Str { val: a }, ValKindV::Int { val: b }) => Ok(
            ValV { span: sp, kind: ValKindV::Str { val: a + dec_str(b as int) } },
        ),
        (ValKindV::Int { val: a }, ValKindV::Str { val: b }) => Ok(
            ValV { span: sp, kind: ValKindV::Str { val: dec_str(a as int) + b } },
        ),
        _ => Err(RuntimeErrorV::InvalidAdd { left: x.span, right: y.span }),
    }
}

/// `-`: integer subtraction only.
pub open spec fn spec_sub(x: ValV, y: ValV, op_span: Span) -> Result<ValV, RuntimeErrorV> {
    let sp = spec_merge(x.span, op_span);
    match (x.kind, y.kind) {
        (ValKindV::Int { val: a }, ValKindV::Int { val: b }) => if i128::MIN <= a - b
            <= i128::MAX {
            Ok(ValV { span: sp, kind: ValKindV::Int { val: (a - b) as i128 } })
        } else {
            Err(RuntimeErrorV::IntegerOverflow { left: x.span, right: y.span })
        },
        _ => Err(RuntimeErrorV::InvalidSub { left: x.span, right: y.span }),
    }
}

/// `*`: integer multiplication only.
pub open spec fn spec_mul(x: ValV, y: ValV, op_span: Span) -> Result<ValV, RuntimeErrorV> {
    let sp = spec_merge(x.span, op_span);
    match (x.kind, y.kind) {
        (ValKindV::Int { val: a }, ValKindV::Int { val: b }) => if i128::MIN <= a * b
            <= i128::MAX {
            Ok(ValV { span: sp, kind: ValKindV::Int { val: (a * b) as i128 } })
        } else {
            Err(RuntimeErrorV::IntegerOverflow { left: x.span, right: y.span })
        },
        _ => Err(RuntimeErrorV::InvalidMul { left: x.span, right: y.span }),
    }
}

/// Integer division truncated toward zero, for a nonzero divisor.
pub open spec fn trunc_div(x: int, d: int) -> int {
    if x == 0 {
        0
    } else if x > 0 && d > 0 {
        x / d
    } else if x < 0 && d < 0 {
        (x * -1) / (d * -1)
    } else if x < 0 {
        ((x * -1) / d) * -1
    } else {
        (x / (d * -1)) * -1
    }
}

/// `/`: integer division only, truncated toward zero; dividing by zero is
/// the defined failure `InvalidDiv`.
pub open spec fn spec_div(x: ValV, y: ValV, op_span: Span) -> Result<ValV, RuntimeErrorV> {
    let sp = spec_merge(x.span, op_span);
    match (x.kind, y.kind) {
        (ValKindV::Int { val: a }, ValKindV::Int { val: b }) => if b == 0 {
            Err(RuntimeErrorV::InvalidDiv { left: x.span, right: y.span })
        } else if i128::MIN <= trunc_div(a as int, b as int) <= i128::MAX {
            Ok(ValV { span: sp, kind: ValKindV::Int { val: trunc_div(a as int, b as int) as i128 } })
        } else {
            Err(RuntimeErrorV::IntegerOverflow { left: x.span, right: y.span })
        },
        _ => Err(RuntimeErrorV::InvalidDiv { left: x.span, right: y.span }),
    }
}

/// `or`: boolean disjunction only.
pub open spec fn spec_or(x: ValV, y: ValV, op_span: Span) -> Result<ValV, RuntimeErrorV> {
    let sp = spec_merge(x.span, op_span);
    match (x.kind, y.kind) {
        (ValKindV::Bool { val: a }, ValKindV::Bool { val: b }) => Ok(
            ValV { span: sp, kind: ValKindV::Bool { val: a || b } },
        ),
        _ => Err(RuntimeErrorV::InvalidOr { left: x.span, right: y.span }),
    }
}

/// `and`: boolean conjunction only.
pub open spec fn spec_and(x: ValV, y: ValV, op_span: Span) -> Result<ValV, RuntimeErrorV> {
    let sp = spec_merge(x.span, op_span);
    match (x.kind, y.kind) {
        (ValKindV::Bool { val: a }, ValKindV::Bool { val: b }) => Ok(
            ValV { span: sp, kind: ValKindV::Bool { val: a && b } },
        ),
        _ => Err(RuntimeErrorV::InvalidAnd { left: x.span, right: y.span }),
    }
}

/// `not`: boolean negation only.
pub open spec fn spec_not(x: ValV, op_span: Span) -> Result<ValV, RuntimeErrorV> {
    let sp = spec_merge(x.span, op_span);
    match x.kind {
        ValKindV::Bool { val } => Ok(ValV { span: sp, kind: ValKindV::Bool { val: !val } }),
        _ => Err(RuntimeErrorV::InvalidNot { span: x.span }),
    }
}

/// `eq`: equality over two operands of the same scalar or type-tag kind.
pub open spec fn spec_eq(x: ValV, y: ValV, op_span: Span) -> Result<ValV, RuntimeErrorV> {
    let sp = spec_merge(x.span, op_span);
    match (x.kind, y.kind) {
        (ValKindV::Int { val: a }, ValKindV::Int { val: b }) => Ok(
            ValV { span: sp, kind: ValKindV::Bool { val: a == b } },
        ),
        (ValKindV::Str { val: a }, ValKindV::Str { val: b }) => Ok(
            ValV { span: sp, kind: ValKindV::Bool { val: a == b } },
        ),
        (ValKindV::Bool { val: a }, ValKindV::Bool { val: b }) => Ok(
            ValV { span: sp, kind: ValKindV::Bool { val: a == b } },
        ),
        (ValKindV::Type { val: a }, ValKindV::Type { val: b }) => Ok(
            ValV { span: sp, kind: ValKindV::Bool { val: a == b } },
        ),
        _ => Err(RuntimeErrorV::InvalidEq { left: x.span, right: y.span }),
    }
}

/// `<`: integers by value, strings lexicographically.
pub open spec fn spec_lt(x: ValV, y: ValV, op_span: Span) -> Result<ValV, RuntimeErrorV> {
    let sp = spec_merge(x.span, op_span);
    match (x.kind, y.kind) {
        (ValKindV::Int { val: a }, ValKindV::Int { val: b }) => Ok(
            ValV { span: sp, kind: ValKindV::Bool { val: a < b } },
        ),
        (ValKindV::Str { val: a }, ValKindV::Str { val: b }) => Ok(
            ValV { span: sp, kind: ValKindV::Bool { val: chars_lt(a, b) } },
        ),
        _ => Err(RuntimeErrorV::InvalidLessThan { left: x.span, right: y.span }),
    }
}

/// `>`: integers by value, strings lexicographically.
pub open spec fn spec_gt(x: ValV, y: ValV, op_span: Span) -> Result<ValV, RuntimeErrorV> {
    let sp = spec_merge(x.span, op_span);
    match (x.kind, y.kind) {
        (ValKindV::Int { val: a }, ValKindV::Int { val: b }) => Ok(
            ValV { span: sp, kind: ValKindV::Bool { val: a > b } },
        ),
        (ValKindV::Str { val: a }, ValKindV::Str { val: b }) => Ok(
            ValV { span: sp, kind: ValKindV::Bool { val: chars_lt(b, a) } },
        ),
        _ => Err(RuntimeErrorV::InvalidGreaterThan { left: x.span, right: y.span }),
    }
}

/// `<=`: integers by value, strings lexicographically.
pub open spec fn spec_lte(x: ValV, y: ValV, op_span: Span) -> Result<ValV, RuntimeErrorV> {
    let sp = spec_merge(x.span, op_span);
    match (x.kind, y.kind) {
        (ValKindV::Int { val: a }, ValKindV::Int { val: b }) => Ok(
            ValV { span: sp, kind: ValKindV::Bool { val: a <= b } },
        ),
        (ValKindV::Str { val: a }, ValKindV::Str { val: b }) => Ok(
            ValV { span: sp, kind: ValKindV::Bool { val: chars_le(a, b) } },
        ),
        _ => Err(RuntimeErrorV::InvalidLessThanEq { left: x.span, right: y.span }),
    }
}

/// `>=`: integers by value, strings lexicographically.
pub open spec fn spec_gte(x: ValV, y: ValV, op_span: Span) -> Result<ValV, RuntimeErrorV> {
    let sp = spec_merge(x.span, op_span);
    match (x.kind, y.kind) {
        (ValKindV::Int { val: a }, ValKindV::Int { val: b }) => Ok(
            ValV { span: sp, kind: ValKindV::Bool { val: a >= b } },
        ),
        (ValKindV::Str { val: a }, ValKindV::Str { val: b }) => Ok(
            ValV { span: sp, kind: ValKindV::Bool { val: chars_le(b, a) } },
        ),
        _ => Err(RuntimeErrorV::InvalidGreaterThanEq { left: x.span, right: y.span }),
    }
}

/// `assert`: demands a boolean, and that it be true.
pub open spec fn spec_assert(x: ValV, op_span: Span) -> Result<(), RuntimeErrorV> {
    match x.kind {
        ValKindV::Bool { val } => if val {
            Ok(())
        } else {
            Err(RuntimeErrorV::AssertionFailed { span: op_span })
        },
        _ => Err(RuntimeErrorV::InvalidAssert { span: op_span }),
    }
}

/// `type`: the type tag of a value; a value that already is a type tag is
/// returned unchanged.
pub open spec fn spec_get_type(x: ValV, op_span: Span) -> ValV {
    let sp = spec_merge(x.span, op_span);
    match x.kind {
        ValKindV::Int { .. } => ValV { span: sp, kind: ValKindV::Type { val: ValType::Int } },
        ValKindV::Str { .. } => ValV { span: sp, kind: ValKindV::Type { val: ValType::Str } },
        ValKindV::Bool { .. } => ValV { span: sp, kind: ValKindV::Type { val: ValType::Bool } },
        ValKindV::Type { .. } => x,
        ValKindV::BoxedInt { .. } => ValV {
            span: sp,
            kind: ValKindV::Type { val: ValType::BoxedInt },
        },
        ValKindV::BoxedStr { .. } => ValV {
            span: sp,
            kind: ValKindV::Type { val: ValType::BoxedStr },
        },
        ValKindV::BoxedBool { .. } => ValV {
            span: sp,
            kind: ValKindV::Type { val: ValType::BoxedBool },
        },
    }
}

impl Val {
    /// What `print` emits for this value.
    pub fn display_string(&self) -> (r: String)
        ensures
            r@ == val_str(self@.kind),
    {
        match &self.kind {
            ValKind::Int { val } => int_to_string(*val),
            ValKind::Str { val } => val.clone(),
            ValKind::Bool { val } => if *val {
                String::from_str("true")
            } else {
                String::from_str("false")
            },
            ValKind::Type { val } => val.display_string(),
            ValKind::BoxedInt { .. } => String::from_str("BoxedInt"),
            ValKind::BoxedStr { .. } => String::from_str("BoxedStr"),
            ValKind::BoxedBool { .. } => String::from_str("BoxedBool"),
        }
    }

    pub fn add(self, other: Self, op_span: Span) -> (r: Result<Self, RuntimeError>)
        ensures
            res_val_view(r) == spec_add(self@, other@, op_span),
    {
        let merged = self.span.merge(op_span);
        let xs = self.span;
        let ys = other.span;
        match (self.kind, other.kind) {
            (ValKind::Int { val: a }, ValKind::Int { val: b }) => match a.checked_add(b) {
                Some(s) => Ok(Val { span: merged, kind: ValKind::Int { val: s } }),
                None => Err(RuntimeError::IntegerOverflow { left: xs, right: ys }),
            },
            (ValKind::Str { val: a }, ValKind::Str { val: b }) => Ok(
                Val { span: merged, kind: ValKind::Str { val: a.concat(b.as_str()) } },
            ),
            (ValKind::Str { val: a }, ValKind::Int { val: b }) => Ok(
                Val {
                    span: merged,
                    kind: ValKind::Str { val: a.concat(int_to_string(b).as_str()) },
                },
            ),
            (ValKind::Int { val: a }, ValKind::Str { val: b }) => Ok(
                Val {
                    span: merged,
                    kind: ValKind::Str { val: int_to_string(a).concat(b.as_str()) },
                },
            ),
            (xk, yk) => Err(RuntimeError::InvalidAdd { left: xs, right: ys }),
        }
    }

    pub fn sub(self, other: Self, op_span: Span) -> (r: Result<Self, RuntimeError>)
        ensures
            res_val_view(r) == spec_sub(self@, other@, op_span),
    {
        let merged = self.span.merge(op_span);
        let xs = self.span;
        let ys = other.span;
        match (self.kind, other.kind) {
            (ValKind::Int { val: a }, ValKind::Int { val: b }) => match a.checked_sub(b) {
                Some(s) => Ok(Val { span: merged, kind: ValKind::Int { val: s } }),
                None => Err(RuntimeError::IntegerOverflow { left: xs, right: ys }),
            },
            _ => Err(RuntimeError::InvalidSub { left: xs, right: ys }),
        }
    }

    pub fn mul(self, other: Self, op_span: Span) -> (r: Result<Self, RuntimeError>)
        ensures
            res_val_view(r) == spec_mul(self@, other@, op_span),
    {
        let merged = self.span.merge(op_span);
        let xs = self.span;
        let ys = other.span;
        match (self.kind, other.kind) {
            (ValKind::Int { val: a }, ValKind::Int { val: b }) => match a.checked_mul(b) {
                Some(s) => Ok(Val { span: merged, kind: ValKind::Int { val: s } }),
                None => Err(RuntimeError::IntegerOverflow { left: xs, right: ys }),
            },
            _ => Err(RuntimeError::InvalidMul { left: xs, right: ys }),
        }
    }

    pub fn div(self, other: Self, op_span: Span) -> (r: Result<Self, RuntimeError>)
        ensures
            res_val_view(r) == spec_div(self@, other@, op_span),
    {
        let merged = self.span.merge(op_span);
        let xs = self.span;
        let ys = other.span;
        match (self.kind, other.kind) {
            (ValKind::Int { val: a }, ValKind::Int { val: b }) => if b == 0 {
                Err(RuntimeError::InvalidDiv { left: xs, right: ys })
            } else {
                match a.checked_div(b) {
                    Some(s) => Ok(Val { span: merged, kind: ValKind::Int { val: s } }),
                    None => Err(RuntimeError::IntegerOverflow { left: xs, right: ys }),
                }
            },
            _ => Err(RuntimeError::InvalidDiv { left: xs, right: ys }),
        }
    }

    pub fn or(self, other: Self, op_span: Span) -> (r: Result<Self, RuntimeError>)
        ensures
            res_val_view(r) == spec_or(self@, other@, op_span),
    {
        let merged = self.span.merge(op_span);
        let xs = self.span;
        let ys = other.span;
        match (self.kind, other.kind) {
            (ValKind::Bool { val: a }, ValKind::Bool { val: b }) => Ok(
                Val { span: merged, kind: ValKind::Bool { val: a || b } },
            ),
            _ => Err(RuntimeError::InvalidOr { left: xs, right: ys }),
        }
    }

    pub fn and(self, other: Self, op_span: Span) -> (r: Result<Self, RuntimeError>)
        ensures
            res_val_view(r) == spec_and(self@, other@, op_span),
    {
        let merged = self.span.merge(op_span);
        let xs = self.span;
        let ys = other.span;
        match (self.kind, other.kind) {
            (ValKind::Bool { val: a }, ValKind::Bool { val: b }) => Ok(
                Val { span: merged, kind: ValKind::Bool { val: a && b } },
            ),
            _ => Err(RuntimeError::InvalidAnd { left: xs, right: ys }),
        }
    }

    pub fn not(self, op_span: Span) -> (r: Result<Self, RuntimeError>)
        ensures
            res_val_view(r) == spec_not(self@, op_span),
    {
        let merged = self.span.merge(op_span);
        let xs = self.span;
        match self.kind {
            ValKind::Bool { val } => Ok(Val { span: merged, kind: ValKind::Bool { val: !val } }),
            _ => Err(RuntimeError::InvalidNot { span: xs }),
        }
    }

    pub fn eq(self, other: Self, op_span: Span) -> (r: Result<Self, RuntimeError>)
        ensures
            res_val_view(r) == spec_eq(self@, other@, op_span),
    {
        let merged = self.span.merge(op_span);
        let xs = self.span;
        let ys = other.span;
        match (self.kind, other.kind) {
            (ValKind::Int { val: a }, ValKind::Int { val: b }) => Ok(
                Val { span: merged, kind: ValKind::Bool { val: a == b } },
            ),
            (ValKind::Str { val: a }, ValKind::Str { val: b }) => Ok(
                Val { span: merged, kind: ValKind::Bool { val: a == b } },
            ),
            (ValKind::Bool { val: a }, ValKind::Bool { val: b }) => Ok(
                Val { span: merged, kind: ValKind::Bool { val: a == b } },
            ),
            (ValKind::Type { val: a }, ValKind::Type { val: b }) => Ok(
                Val { span: merged, kind: ValKind::Bool { val: a == b } },
            ),
            _ => Err(RuntimeError::InvalidEq { left: xs, right: ys }),
        }
    }

    pub fn lt(self, other: Self, op_span: Span) -> (r: Result<Self, RuntimeError>)
        ensures
            res_val_view(r) == spec_lt(self@, other@, op_span),
    {
        let merged = self.span.merge(op_span);
        let xs = self.span;
        let ys = other.span;
        match (self.kind, other.kind) {
            (ValKind::Int { val: a }, ValKind::Int { val: b }) => Ok(
                Val { span: merged, kind: ValKind::Bool { val: a < b } },
            ),
            (ValKind::Str { val: a }, ValKind::Str { val: b }) => Ok(
                Val {
                    span: merged,
                    kind: ValKind::Bool { val: str_lt_exec(a.as_str(), b.as_str()) },
                },
            ),
            _ => Err(RuntimeError::InvalidLessThan { left: xs, right: ys }),
        }
    }

    pub fn gt(self, other: Self, op_span: Span) -> (r: Result<Self, RuntimeError>)
        ensures
            res_val_view(r) == spec_gt(self@, other@, op_span),
    {
        let merged = self.span.merge(op_span);
        let xs = self.span;
        let ys = other.span;
        match (self.kind, other.kind) {
            (ValKind::Int { val: a }, ValKind::Int { val: b }) => Ok(
                Val { span: merged, kind: ValKind::Bool { val: a > b } },
            ),
            (ValKind::Str { val: a }, ValKind::Str { val: b }) => Ok(
                Val {
                    span: merged,
                    kind: ValKind::Bool { val: str_lt_exec(b.as_str(), a.as_str()) },
                },
            ),
            _ => Err(RuntimeError::InvalidGreaterThan { left: xs, right: ys }),
        }
    }

    pub fn lte(self, other: Self, op_span: Span) -> (r: Result<Self, RuntimeError>)
        ensures
            res_val_view(r) == spec_lte(self@, other@, op_span),
    {
        let merged = self.span.merge(op_span);
        let xs = self.span;
        let ys = other.span;
        match (self.kind, other.kind) {
            (ValKind::Int { val: a }, ValKind::Int { val: b }) => Ok(
                Val { span: merged, kind: ValKind::Bool { val: a <= b } },
            ),
            (ValKind::Str { val: a }, ValKind::Str { val: b }) => {
                let le = str_lt_exec(a.as_str(), b.as_str()) || str_eq_exec(
                    a.as_str(),
                    b.as_str(),
                );
                Ok(Val { span: merged, kind: ValKind::Bool { val: le } })
            },
            _ => Err(RuntimeError::InvalidLessThanEq { left: xs, right: ys }),
        }
    }

    pub fn gte(self, other: Self, op_span: Span) -> (r: Result<Self, RuntimeError>)
        ensures
            res_val_view(r) == spec_gte(self@, other@, op_span),
    {
        let merged = self.span.merge(op_span);
        let xs = self.span;
        let ys = other.span;
        match (self.kind, other.kind) {
            (ValKind::Int { val: a }, ValKind::Int { val: b }) => Ok(
                Val { span: merged, kind: ValKind::Bool { val: a >= b } },
            ),
            (ValKind::Str { val: a }, ValKind::Str { val: b }) => {
                let ge = str_lt_exec(b.as_str(), a.as_str()) || str_eq_exec(
                    b.as_str(),
                    a.as_str(),
                );
                Ok(Val { span: merged, kind: ValKind::Bool { val: ge } })
            },
            _ => Err(RuntimeError::InvalidGreaterThanEq { left: xs, right: ys }),
        }
    }

    /// The `assert` operation: succeeds only on a true boolean.
    pub fn assert_bool(self, op_span: Span) -> (r: Result<(), RuntimeError>)
        ensures
            res_unit_view(r) == spec_assert(self@, op_span),
    {
        match self.kind {
            ValKind::Bool { val } => if val {
                Ok(())
            } else {
                Err(RuntimeError::AssertionFailed { span: op_span })
            },
            _ => Err(RuntimeError::InvalidAssert { span: op_span }),
        }
    }

    /// The `type` operation: the value's type tag.
    pub fn get_type(self, op_span: Span) -> (r: Self)
        ensures
            r@ == spec_get_type(self@, op_span),
    {
        let merged = self.span.merge(op_span);
        match self.kind {
            ValKind::Int { .. } => Val { span: merged, kind: ValKind::Type { val: ValType::Int } },
            ValKind::Str { .. } => Val { span: merged, kind: ValKind::Type { val: ValType::Str } },
            ValKind::Bool { .. } => Val {
                span: merged,
                kind: ValKind::Type { val: ValType::Bool },
            },
            ValKind::Type { val } => Val { span: self.span, kind: ValKind::Type { val } },
            ValKind::BoxedInt { .. } => Val {
                span: merged,
                kind: ValKind::Type { val: ValType::BoxedInt },
            },
            ValKind::BoxedStr { .. } => Val {
                span: merged,
                kind: ValKind::Type { val: ValType::BoxedStr },
            },
            ValKind::BoxedBool { .. } => Val {
                span: merged,
                kind: ValKind::Type { val: ValType::BoxedBool },
            },
        }
    }
}

} // verus!
