//! The parser: a token sequence to an operation sequence.
//!
//! Tokens are consumed from the front of a queue. A `macro` keyword starts a
//! two-step sub-parse (name capture, then body capture up to the matching
//! `end`, counting nesting). An identifier found in the macro table has its
//! body spliced back onto the front of the queue, so expansion is lazy and
//! recursive through re-scanning; an unknown identifier becomes a box
//! reference, whose validity the runtime decides. A `box` keyword starts the
//! fixed three-token declaration grammar. Every other token maps one-to-one
//! to an operation.
//!
//! Because a macro may invoke itself, parsing need not terminate; its
//! specification is therefore a step machine: the contract states that some
//! number of steps reaches exactly the returned result, and reached results
//! are stable under more steps, so the result is pinned.

use vstd::prelude::*;
use std::collections::VecDeque;
use crate::error::{ParseError, ParseErrorV};
use crate::lexer::{int_literal_value, lemma_toks_view, token_wf1, tokens_wf, toks_view};
use crate::op::{Op, OpKind, OpKindV, OpV, ops_view};
use crate::span::{Span, spec_merge};
use crate::token::{Token, TokenKind, TokenV};
use crate::runtime::{op_wf1, ops_wf};
use crate::val::ValType;

verus! {

/// A parsing configuration: the tokens still to consume, the macro table in
/// definition order, and the operations emitted so far.
pub ghost struct ParseCfg {
    pub toks: Seq<TokenV>,
    pub macros: Seq<(Seq<char>, Seq<TokenV>)>,
    pub ops: Seq<OpV>,
}

/// One move of the parsing step machine: still running, or finished with a
/// result.
pub ghost enum ParseStep {
    Running { cfg: ParseCfg },
    Done { result: Result<Seq<OpV>, ParseErrorV> },
}

/// Look a name up in the macro table; the latest definition wins.
pub open spec fn macro_lookup(macros: Seq<(Seq<char>, Seq<TokenV>)>, name: Seq<char>) -> Option<
    Seq<TokenV>,
>
    decreases macros.len(),
{
    if macros.len() == 0 {
        None
    } else if macros.last().0 == name {
        Some(macros.last().1)
    } else {
        macro_lookup(macros.drop_last(), name)
    }
}

/// The index of the `end` matching a macro body that starts at `j` with
/// `depth` constructs open: nested `macro` and `if` raise the depth, `end`
/// lowers it. `None` when input ends first.
pub open spec fn macro_body_end(toks: Seq<TokenV>, j: int, depth: int) -> Option<int>
    decreases toks.len() - j,
{
    if j < 0 || j >= toks.len() {
        None
    } else if toks[j].kind is End {
        if depth == 1 {
            Some(j)
        } else {
            macro_body_end(toks, j + 1, depth - 1)
        }
    } else if toks[j].kind is Macro || toks[j].kind is If {
        macro_body_end(toks, j + 1, depth + 1)
    } else {
        macro_body_end(toks, j + 1, depth)
    }
}

/// The box declaration grammar, anchored just after the `box` keyword:
/// an unboxed type token, then a name token. On success: the operation kind
/// and how many tokens were consumed.
pub open spec fn box_decl_step(toks: Seq<TokenV>, box_span: Span) -> Result<
    (OpKindV, int),
    ParseErrorV,
> {
    if toks.len() == 0 {
        Err(ParseErrorV::BoxesNeedTypes { span: box_span })
    } else {
        let tt = toks[0];
        match tt.kind {
            TokenKind::TypeInt | TokenKind::TypeStr | TokenKind::TypeBool => {
                if toks.len() < 2 {
                    Err(ParseErrorV::BoxesNeedNames { span: spec_merge(box_span, tt.span) })
                } else {
                    let vt = if tt.kind is TypeInt {
                        ValType::Int
                    } else if tt.kind is TypeStr {
                        ValType::Str
                    } else {
                        ValType::Bool
                    };
                    Ok((OpKindV::CreateBox { val_type: vt, name: toks[1].text }, 2))
                }
            },
            TokenKind::TypeBoxedInt | TokenKind::TypeBoxedStr | TokenKind::TypeBoxedBool => Err(
                ParseErrorV::UnboxableType { span: tt.span },
            ),
            _ => Err(ParseErrorV::BoxesNeedTypes { span: tt.span }),
        }
    }
}

/// The one-to-one mapping from a token to its operation kind, for every
/// token that is no `macro`, identifier or `box` (those three drive the
/// step machine instead, and get an arbitrary kind here that nothing
/// consults).
pub open spec fn simple_kind(t: TokenV) -> OpKindV {
    match t.kind {
        TokenKind::Number => OpKindV::PushInt { val: int_literal_value(t.text) as i128 },
        TokenKind::String => OpKindV::PushStr { val: t.text },
        TokenKind::Boolean => OpKindV::PushBool { val: t.text == "true"@ },
        TokenKind::Add => OpKindV::Add,
        TokenKind::Sub => OpKindV::Sub,
        TokenKind::Mul => OpKindV::Mul,
        TokenKind::Div => OpKindV::Div,
        TokenKind::Print => OpKindV::Print,
        TokenKind::Or => OpKindV::Or,
        TokenKind::And => OpKindV::And,
        TokenKind::Not => OpKindV::Not,
        TokenKind::Eq => OpKindV::Eq,
        TokenKind::LessThan => OpKindV::LessThan,
        TokenKind::GreaterThan => OpKindV::GreaterThan,
        TokenKind::LessThanEq => OpKindV::LessThanEq,
        TokenKind::GreaterThanEq => OpKindV::GreaterThanEq,
        TokenKind::If => OpKindV::If,
        TokenKind::End => OpKindV::End,
        TokenKind::Dup => OpKindV::Dup,
        TokenKind::Drop => OpKindV::Drop,
        TokenKind::Swap => OpKindV::Swap,
        TokenKind::Over => OpKindV::Over,
        TokenKind::Rot => OpKindV::Rot,
        TokenKind::Type => OpKindV::GetType,
        TokenKind::TypeInt => OpKindV::PushTypeInt,
        TokenKind::TypeStr => OpKindV::PushTypeStr,
        TokenKind::TypeBool => OpKindV::PushTypeBool,
        TokenKind::TypeBoxedInt => OpKindV::PushTypeBoxedInt,
        TokenKind::TypeBoxedStr => OpKindV::PushTypeBoxedStr,
        TokenKind::TypeBoxedBool => OpKindV::PushTypeBoxedBool,
        TokenKind::Assert => OpKindV::Assert,
        TokenKind::Pack => OpKindV::Pack,
        TokenKind::Unpack => OpKindV::Unpack,
        TokenKind::Until => OpKindV::Until,
        TokenKind::Macro | TokenKind::Ident | TokenKind::Box => OpKindV::Until,
    }
}

/// One step of the parser: consume the front token (or finish on an empty
/// queue), handling macro definition, macro expansion or box reference, box
/// declaration, and the one-to-one mappings.
pub open spec fn parse_step(cfg: ParseCfg) -> ParseStep {
    if cfg.toks.len() == 0 {
        ParseStep::Done { result: Ok(cfg.ops) }
    } else {
        let t = cfg.toks[0];
        let len = cfg.toks.len() as int;
        match t.kind {
            TokenKind::Macro => {
                if cfg.toks.len() < 2 || !(cfg.toks[1].kind is Ident) {
                    ParseStep::Done { result: Err(ParseErrorV::UnnamedMacro { span: t.span }) }
                } else {
                    let name = cfg.toks[1].text;
                    match macro_body_end(cfg.toks, 2, 1) {
                        None => ParseStep::Done {
                            result: Err(ParseErrorV::UnclosedMacro { span: t.span, name }),
                        },
                        Some(e) => ParseStep::Running {
                            cfg: ParseCfg {
                                toks: cfg.toks.subrange(e + 1, len),
                                macros: cfg.macros.push((name, cfg.toks.subrange(2, e))),
                                ops: cfg.ops,
                            },
                        },
                    }
                }
            },
            TokenKind::Ident => match macro_lookup(cfg.macros, t.text) {
                Some(body) => ParseStep::Running {
                    cfg: ParseCfg {
                        toks: body + cfg.toks.subrange(1, len),
                        macros: cfg.macros,
                        ops: cfg.ops,
                    },
                },
                None => ParseStep::Running {
                    cfg: ParseCfg {
                        toks: cfg.toks.subrange(1, len),
                        macros: cfg.macros,
                        ops: cfg.ops.push(
                            OpV { span: t.span, kind: OpKindV::PushBox { name: t.text } },
                        ),
                    },
                },
            },
            TokenKind::Box => match box_decl_step(cfg.toks.subrange(1, len), t.span) {
                Err(e) => ParseStep::Done { result: Err(e) },
                Ok((k, c)) => ParseStep::Running {
                    cfg: ParseCfg {
                        toks: cfg.toks.subrange(1 + c, len),
                        macros: cfg.macros,
                        ops: cfg.ops.push(OpV { span: t.span, kind: k }),
                    },
                },
            },
            _ => ParseStep::Running {
                cfg: ParseCfg {
                    toks: cfg.toks.subrange(1, len),
                    macros: cfg.macros,
                    ops: cfg.ops.push(OpV { span: t.span, kind: simple_kind(t) }),
                },
            },
        }
    }
}

/// `fuel` steps of the parser from `cfg`.
pub open spec fn parse_steps(cfg: ParseCfg, fuel: nat) -> ParseStep
    decreases fuel,
{
    if fuel == 0 {
        ParseStep::Running { cfg }
    } else {
        match parse_step(cfg) {
            ParseStep::Done { result } => ParseStep::Done { result },
            ParseStep::Running { cfg: c2 } => parse_steps(c2, (fuel - 1) as nat),
        }
    }
}

/// The starting configuration over a token sequence.
pub open spec fn init_cfg(toks: Seq<TokenV>) -> ParseCfg {
    ParseCfg { toks, macros: Seq::empty(), ops: Seq::empty() }
}

/// Whether the step machine finishes from this configuration. A macro that
/// (directly or through others) invokes itself expands forever, as splicing
/// re-scans the body; on such programs parsing never returns, so its
/// contract asks for a terminating configuration.
pub open spec fn parse_terminates(cfg: ParseCfg) -> bool {
    exists|n: nat| parse_steps(cfg, n) is Done
}

/// A finished result is stable: once the step machine is done, more fuel
/// changes nothing — so the result a fuel witness pins is unique.
pub proof fn lemma_parse_steps_stable(cfg: ParseCfg, n: nat, m: nat)
    requires
        n <= m,
        parse_steps(cfg, n) is Done,
    ensures
        parse_steps(cfg, m) == parse_steps(cfg, n),
    decreases n,
{
    if n == 0 {
        assert(parse_steps(cfg, n) is Running);
    } else {
        match parse_step(cfg) {
            ParseStep::Done { result } => {
            },
            ParseStep::Running { cfg: c2 } => {
                lemma_parse_steps_stable(c2, (n - 1) as nat, (m - 1) as nat);
            },
        }
    }
}

/// Two fuel witnesses always agree on the finished result.
pub proof fn lemma_parse_result_unique(cfg: ParseCfg, n: nat, m: nat)
    requires
        parse_steps(cfg, n) is Done,
        parse_steps(cfg, m) is Done,
    ensures
        parse_steps(cfg, n) == parse_steps(cfg, m),
{
    if n <= m {
        lemma_parse_steps_stable(cfg, n, m);
    } else {
        lemma_parse_steps_stable(cfg, m, n);
    }
}

proof fn lemma_steps_extend(cfg0: ParseCfg, n: nat, cur: ParseCfg)
    requires
        parse_steps(cfg0, n) == (ParseStep::Running { cfg: cur }),
    ensures
        parse_step(cur) matches ParseStep::Done { result } ==> parse_steps(cfg0, n + 1) == (
        ParseStep::Done { result }),
        parse_step(cur) matches ParseStep::Running { cfg } ==> parse_steps(cfg0, n + 1) == (
        ParseStep::Running { cfg }),
    decreases n,
{
    if n == 0 {
        assert(cur == cfg0);
        match parse_step(cfg0) {
            ParseStep::Done { result } => {
                assert(parse_steps(cfg0, n + 1) == (ParseStep::Done { result }));
            },
            ParseStep::Running { cfg: c2 } => {
                assert(parse_steps(c2, 0nat) == (ParseStep::Running { cfg: c2 }));
                assert(parse_steps(cfg0, n + 1) == (ParseStep::Running { cfg: c2 }));
            },
        }
    } else {
        match parse_step(cfg0) {
            ParseStep::Done { result } => {
                assert(parse_steps(cfg0, n) is Done);
            },
            ParseStep::Running { cfg: c2 } => {
                lemma_steps_extend(c2, (n - 1) as nat, cur);
            },
        }
    }
}

/// The image of the macro table.
pub open spec fn macros_view(m: Seq<(String, Vec<Token>)>) -> Seq<(Seq<char>, Seq<TokenV>)> {
    m.map_values(|p: (String, Vec<Token>)| (p.0@, toks_view(p.1@)))
}

/// Every macro body in the table is well formed.
pub open spec fn macros_wf(m: Seq<(Seq<char>, Seq<TokenV>)>) -> bool {
    forall|i: int| 0 <= i < m.len() ==> tokens_wf((#[trigger] m[i]).1)
}

proof fn lemma_macros_view(m: Seq<(String, Vec<Token>)>)
    ensures
        macros_view(m).len() == m.len(),
        forall|i: int|
            0 <= i < m.len() ==> (#[trigger] macros_view(m)[i]) == (m[i].0@, toks_view(m[i].1@)),
{
}

proof fn lemma_tokens_wf_subrange(toks: Seq<TokenV>, a: int, b: int)
    requires
        tokens_wf(toks),
        0 <= a <= b <= toks.len(),
    ensures
        tokens_wf(toks.subrange(a, b)),
{
    assert forall|i: int| 0 <= i < b - a implies token_wf1(#[trigger] toks.subrange(a, b)[i]) by {
        assert(toks.subrange(a, b)[i] == toks[a + i]);
    }
}

proof fn lemma_tokens_wf_concat(a: Seq<TokenV>, b: Seq<TokenV>)
    requires
        tokens_wf(a),
        tokens_wf(b),
    ensures
        tokens_wf(a + b),
{
    assert forall|i: int| 0 <= i < a.len() + b.len() implies token_wf1(#[trigger] (a + b)[i]) by {
        if i < a.len() {
            assert((a + b)[i] == a[i]);
        } else {
            assert((a + b)[i] == b[i - a.len()]);
        }
    }
}

proof fn lemma_macro_body_end_range(toks: Seq<TokenV>, j: int, depth: int)
    ensures
        macro_body_end(toks, j, depth) matches Some(e) ==> j <= e < toks.len(),
    decreases toks.len() - j,
{
    if j < 0 || j >= toks.len() {
    } else if toks[j].kind is End {
        if depth == 1 {
        } else {
            lemma_macro_body_end_range(toks, j + 1, depth - 1);
        }
    } else if toks[j].kind is Macro || toks[j].kind is If {
        lemma_macro_body_end_range(toks, j + 1, depth + 1);
    } else {
        lemma_macro_body_end_range(toks, j + 1, depth);
    }
}

proof fn lemma_macro_lookup_wf(macros: Seq<(Seq<char>, Seq<TokenV>)>, name: Seq<char>)
    requires
        macros_wf(macros),
    ensures
        macro_lookup(macros, name) matches Some(body) ==> tokens_wf(body),
    decreases macros.len(),
{
    if macros.len() > 0 {
        if macros.last().0 == name {
            assert(tokens_wf(macros[macros.len() - 1].1));
        } else {
            assert(forall|i: int|
                0 <= i < macros.drop_last().len() ==> tokens_wf(
                    (#[trigger] macros.drop_last()[i]).1,
                ));
            lemma_macro_lookup_wf(macros.drop_last(), name);
        }
    }
}

proof fn lemma_ops_wf_push(ops: Seq<OpV>, o: OpV)
    requires
        ops_wf(ops),
        op_wf1(o),
    ensures
        ops_wf(ops.push(o)),
{
    assert forall|i: int| 0 <= i < ops.len() + 1 implies op_wf1(#[trigger] ops.push(o)[i]) by {
        if i < ops.len() {
            assert(ops.push(o)[i] == ops[i]);
        }
    }
}

/// What the parser produces is well formed for the runtime: a box is only
/// ever declared with a scalar type, and the reserved `Until` operation
/// never appears, provided the tokens came well formed from the lexer.
pub proof fn lemma_parse_ops_wf(cfg: ParseCfg, fuel: nat)
    requires
        tokens_wf(cfg.toks),
        macros_wf(cfg.macros),
        ops_wf(cfg.ops),
    ensures
        parse_steps(cfg, fuel) matches ParseStep::Done { result } ==> (result matches Ok(ops)
            ==> ops_wf(ops)),
        parse_steps(cfg, fuel) matches ParseStep::Running { cfg: c2 } ==> (tokens_wf(c2.toks)
            && macros_wf(c2.macros) && ops_wf(c2.ops)),
    decreases fuel,
{
    if fuel == 0 {
    } else {
        let len = cfg.toks.len() as int;
        match parse_step(cfg) {
            ParseStep::Done { result } => {
            },
            ParseStep::Running { cfg: c2 } => {
                let t = cfg.toks[0];
                assert(token_wf1(t));
                match t.kind {
                    TokenKind::Macro => {
                        let e = macro_body_end(cfg.toks, 2, 1)->Some_0;
                        lemma_macro_body_end_range(cfg.toks, 2, 1);
                        lemma_tokens_wf_subrange(cfg.toks, e + 1, len);
                        lemma_tokens_wf_subrange(cfg.toks, 2, e);
                        let m2 = cfg.macros.push((cfg.toks[1].text, cfg.toks.subrange(2, e)));
                        assert forall|i: int| 0 <= i < m2.len() implies tokens_wf(
                            (#[trigger] m2[i]).1,
                        ) by {
                            if i < cfg.macros.len() {
                                assert(m2[i] == cfg.macros[i]);
                            }
                        }
                    },
                    TokenKind::Ident => {
                        match macro_lookup(cfg.macros, t.text) {
                            Some(body) => {
                                lemma_macro_lookup_wf(cfg.macros, t.text);
                                lemma_tokens_wf_subrange(cfg.toks, 1, len);
                                lemma_tokens_wf_concat(body, cfg.toks.subrange(1, len));
                            },
                            None => {
                                lemma_tokens_wf_subrange(cfg.toks, 1, len);
                                lemma_ops_wf_push(
                                    cfg.ops,
                                    OpV {
                                        span: t.span,
                                        kind: OpKindV::PushBox { name: t.text },
                                    },
                                );
                            },
                        }
                    },
                    TokenKind::Box => {
                        match box_decl_step(cfg.toks.subrange(1, len), t.span) {
                            Ok((k, c)) => {
                                lemma_tokens_wf_subrange(cfg.toks, 1 + c, len);
                                lemma_ops_wf_push(cfg.ops, OpV { span: t.span, kind: k });
                            },
                            Err(_) => {
                                assert(false);
                            },
                        }
                    },
                    _ => {
                        lemma_tokens_wf_subrange(cfg.toks, 1, len);
                        lemma_ops_wf_push(
                            cfg.ops,
                            OpV { span: t.span, kind: simple_kind(t) },
                        );
                    },
                }
                lemma_parse_ops_wf(c2, (fuel - 1) as nat);
            },
        }
    }
}

/// The image of the parser's result.
pub open spec fn parse_res_view(r: Result<VecDeque<Op>, ParseError>) -> Result<
    Seq<OpV>,
    ParseErrorV,
> {
    match r {
        Ok(v) => Ok(ops_view(v@)),
        Err(e) => Err(e@),
    }
}

/// The parser: the token queue still to consume and the macro table built
/// so far.
#[derive(Debug)]
pub struct Parser {
    tokens: VecDeque<Token>,
    macros: Vec<(String, Vec<Token>)>,
}

impl View for Parser {
    type V = ParseCfg;

    closed spec fn view(&self) -> ParseCfg {
        ParseCfg {
            toks: toks_view(self.tokens@),
            macros: macros_view(self.macros@),
            ops: Seq::empty(),
        }
    }
}

fn clone_tokens(v: &Vec<Token>) -> (r: Vec<Token>)
    ensures
        r@ == v@,
{
    let mut out: Vec<Token> = Vec::new();
    let mut i: usize = 0;
    while i < v.len()
        invariant
            i <= v.len(),
            out@.len() == i,
            forall|j: int| 0 <= j < i ==> out@[j] == v@[j],
        decreases v.len() - i,
    {
        out.push(v[i].clone());
        i = i + 1;
    }
    proof {
        assert(out@ =~= v@);
    }
    out
}

impl Parser {
    /// A parser over the given tokens, with an empty macro table.
    pub fn new(tokens: Vec<Token>) -> (r: Self)
        ensures
            r@ == init_cfg(toks_view(tokens@)),
    {
        let mut queue: VecDeque<Token> = VecDeque::new();
        let mut i: usize = 0;
        while i < tokens.len()
            invariant
                i <= tokens.len(),
                queue@.len() == i,
                forall|j: int| 0 <= j < i ==> queue@[j] == tokens@[j],
            decreases tokens.len() - i,
        {
            queue.push_back(tokens[i].clone());
            i = i + 1;
        }
        proof {
            assert(queue@ =~= tokens@);
        }
        let r = Parser { tokens: queue, macros: Vec::new() };
        proof {
            assert(macros_view(r.macros@) =~= Seq::<(Seq<char>, Seq<TokenV>)>::empty());
            assert(r@.toks =~= toks_view(tokens@));
        }
        r
    }

    /// The index of the latest table entry for `name`, if any.
    #[verifier::loop_isolation(false)]
    fn find_macro(&self, name: &String) -> (r: Option<usize>)
        ensures
            (match r {
                Some(i) => i < self@.macros.len() && macro_lookup(self@.macros, name@) == Some(
                    self@.macros[i as int].1,
                ) && self@.macros[i as int].0 == name@,
                None => macro_lookup(self@.macros, name@) is None,
            }),
    {
        let ghost all = self@.macros;
        proof {
            assert(all.subrange(0, all.len() as int) =~= all);
        }
        let mut i = self.macros.len();
        while i > 0
            invariant
                i <= self.macros.len(),
                all == self@.macros,
                all.len() == self.macros.len(),
                macro_lookup(all, name@) == macro_lookup(all.subrange(0, i as int), name@),
            decreases i,
        {
            i = i - 1;
            proof {
                let pre = all.subrange(0, i + 1);
                assert(pre.last() == all[i as int]);
                assert(pre.drop_last() =~= all.subrange(0, i as int));
            }
            if crate::lexer::str_eq_text(self.macros[i].0.as_str(), name.as_str()) {
                return Some(i);
            }
        }
        proof {
            assert(all.subrange(0, 0) =~= Seq::<(Seq<char>, Seq<TokenV>)>::empty());
        }
        None
    }

    /// Macro body capture, entered once the `macro` keyword and the name have
    /// been consumed: takes tokens off the queue up to and including the
    /// matching `end`, counting nested `macro` and `if` constructs, and
    /// returns the body (without that `end`). `None` when input ends first.
    /// `full` and `base` locate the queue's image inside the token sequence
    /// the caller reasons over.
    #[verifier::loop_isolation(false)]
    fn capture_macro_body(&mut self, Ghost(full): Ghost<Seq<TokenV>>, Ghost(base): Ghost<int>) -> (r:
        Option<Vec<Token>>)
        requires
            0 <= base <= full.len(),
            toks_view(old(self).tokens@) == full.subrange(base, full.len() as int),
        ensures
            final(self).macros@ == old(self).macros@,
            (match r {
                Some(body) => {
                    &&& base + body@.len() < full.len()
                    &&& macro_body_end(full, base, 1) == Some(base + body@.len())
                    &&& toks_view(body@) == full.subrange(base, base + body@.len())
                    &&& toks_view(final(self).tokens@) == full.subrange(
                        base + body@.len() + 1,
                        full.len() as int,
                    )
                },
                None => macro_body_end(full, base, 1) is None,
            }),
    {
        let q0 = self.tokens.len();
        proof {
            lemma_toks_view(old(self).tokens@);
            assert(full.len() == base + q0);
        }
        let mut body: Vec<Token> = Vec::new();
        let mut depth: u128 = 1;
        let ghost mut kk: int = 0;
        proof {
            assert(toks_view(body@) =~= full.subrange(base, base));
        }
        loop
            invariant
                1 <= depth <= 1 + kk,
                0 <= kk <= q0,
                toks_view(self.tokens@) =~= full.subrange(base + kk, full.len() as int),
                toks_view(body@) =~= full.subrange(base, base + kk),
                body@.len() == kk,
                macro_body_end(full, base, 1) == macro_body_end(full, base + kk, depth as int),
                self.macros@ == old(self).macros@,
            decreases q0 - kk,
        {
            let ghost qpre = self.tokens@;
            let bt = match self.tokens.pop_front() {
                None => {
                    proof {
                        lemma_toks_view(qpre);
                        assert(base + kk == full.len());
                    }
                    return None;
                },
                Some(bt) => bt,
            };
            proof {
                lemma_toks_view(qpre);
                lemma_toks_view(self.tokens@);
                assert(self.tokens@ == qpre.subrange(1, qpre.len() as int));
                assert(qpre.len() == full.len() - (base + kk));
                assert(toks_view(qpre)[0] == full.subrange(base + kk, full.len() as int)[0]);
                assert(full[base + kk] == bt@);
                assert(forall|x: int|
                    0 <= x < self.tokens@.len() ==> (#[trigger] self.tokens@[x]) == qpre[x + 1]);
                assert(forall|x: int|
                    0 <= x < self.tokens@.len() ==> (#[trigger] toks_view(self.tokens@)[x])
                        == toks_view(qpre)[x + 1]);
                assert(toks_view(self.tokens@) =~= full.subrange(
                    base + kk + 1,
                    full.len() as int,
                ));
            }
            match bt.kind {
                TokenKind::End => {
                    if depth == 1 {
                        // the matching `end`: consumed, not part of the body
                        proof {
                            assert(macro_body_end(full, base + kk, 1) == Some(base + kk));
                            assert(toks_view(self.tokens@) =~= full.subrange(
                                base + kk + 1,
                                full.len() as int,
                            ));
                        }
                        return Some(body);
                    }
                    depth = depth - 1;
                    body.push(bt);
                },
                TokenKind::Macro | TokenKind::If => {
                    depth = depth + 1;
                    body.push(bt);
                },
                _ => {
                    body.push(bt);
                },
            }
            proof {
                kk = kk + 1;
                lemma_toks_view(body@);
                lemma_toks_view(self.tokens@);
                assert(toks_view(body@) =~= full.subrange(base, base + kk));
                assert(toks_view(self.tokens@) =~= full.subrange(base + kk, full.len() as int));
            }
        }
    }

    /// The box declaration sub-parse, entered after the `box` keyword was
    /// consumed: takes the type token and the name token off the queue.
    fn parse_create_box(&mut self, box_token: &Token) -> (r: Result<OpKind, ParseError>)
        ensures
            (match box_decl_step(toks_view(old(self).tokens@), box_token@.span) {
                Ok((k, c)) => r matches Ok(kk) && kk@ == k && final(self).tokens@ == old(
                    self,
                ).tokens@.subrange(c, old(self).tokens@.len() as int) && final(self).macros@ == old(
                    self,
                ).macros@,
                Err(e) => r matches Err(ee) && ee@ == e && final(self).macros@ == old(self).macros@,
            }),
    {
        let ghost toks0 = toks_view(self.tokens@);
        match self.tokens.pop_front() {
            None => Err(ParseError::BoxesNeedTypes { span: box_token.span }),
            Some(type_token) => {
                proof {
                    assert(toks0[0] == type_token@);
                }
                let vt = match type_token.kind {
                    TokenKind::TypeInt => ValType::Int,
                    TokenKind::TypeStr => ValType::Str,
                    TokenKind::TypeBool => ValType::Bool,
                    TokenKind::TypeBoxedInt | TokenKind::TypeBoxedStr | TokenKind::TypeBoxedBool
                        => {
                        return Err(ParseError::UnboxableType { span: type_token.span });
                    },
                    _ => {
                        return Err(ParseError::BoxesNeedTypes { span: type_token.span });
                    },
                };
                match self.tokens.pop_front() {
                    None => Err(
                        ParseError::BoxesNeedNames {
                            span: box_token.span.merge(type_token.span),
                        },
                    ),
                    Some(ident_token) => {
                        proof {
                            assert(toks0[1] == ident_token@);
                            assert(toks_view(final(self).tokens@) =~= toks0.subrange(
                                2,
                                toks0.len() as int,
                            ));
                            assert(final(self).tokens@ =~= old(self).tokens@.subrange(
                                2,
                                old(self).tokens@.len() as int,
                            ));
                        }
                        Ok(OpKind::CreateBox { val_type: vt, name: ident_token.text })
                    },
                }
            },
        }
    }

    /// Parse the whole queue into operations. The contract: some number of
    /// machine steps from the starting state reaches exactly this result
    /// (and by [`lemma_parse_steps_stable`] no other).
    #[verifier::loop_isolation(false)]
    pub fn parse(&mut self) -> (r: Result<VecDeque<Op>, ParseError>)
        requires
            tokens_wf(old(self)@.toks),
            macros_wf(old(self)@.macros),
            parse_terminates(old(self)@),
        ensures
            exists|fuel: nat|
                parse_steps(old(self)@, fuel) == (ParseStep::Done { result: parse_res_view(r) }),
    {
        let ghost cfg0 = old(self)@;
        let ghost n0: nat = choose|n: nat| parse_steps(cfg0, n) is Done;
        let mut ops: VecDeque<Op> = VecDeque::new();
        let ghost mut fuel: nat = 0nat;
        proof {
            assert(ops_view(ops@) =~= Seq::<OpV>::empty());
            assert(self@.toks == cfg0.toks);
        }
        loop
            invariant
                parse_steps(cfg0, n0) is Done,
                fuel <= n0,
                parse_steps(cfg0, fuel) == (ParseStep::Running {
                    cfg: ParseCfg {
                        toks: toks_view(self.tokens@),
                        macros: macros_view(self.macros@),
                        ops: ops_view(ops@),
                    },
                }),
                tokens_wf(toks_view(self.tokens@)),
                macros_wf(macros_view(self.macros@)),
            decreases n0 - fuel,
        {
            let ghost cur = ParseCfg {
                toks: toks_view(self.tokens@),
                macros: macros_view(self.macros@),
                ops: ops_view(ops@),
            };
            proof {
                lemma_steps_extend(cfg0, fuel, cur);
                // the machine is still running at `fuel` but done at `n0`,
                // so `fuel` is strictly below `n0`
                if n0 <= fuel {
                    lemma_parse_steps_stable(cfg0, n0, fuel);
                    assert(false);
                }
            }
            let t = match self.tokens.pop_front() {
                None => {
                    proof {
                        assert(parse_steps(cfg0, fuel + 1) == (ParseStep::Done {
                            result: Ok::<Seq<OpV>, ParseErrorV>(cur.ops),
                        }));
                    }
                    return Ok(ops);
                },
                Some(t) => t,
            };
            proof {
                assert(cur.toks[0] == t@);
            }
            let sp = t.span;
            match t.kind {
                TokenKind::Macro => {
                    let name_token = match self.tokens.pop_front() {
                        None => {
                            proof {
                                assert(parse_steps(cfg0, fuel + 1) == (ParseStep::Done {
                                    result: Err::<Seq<OpV>, ParseErrorV>(
                                        ParseErrorV::UnnamedMacro { span: sp },
                                    ),
                                }));
                            }
                            return Err(ParseError::UnnamedMacro { span: sp });
                        },
                        Some(nt) => nt,
                    };
                    proof {
                        assert(cur.toks[1] == name_token@);
                    }
                    if !matches!(name_token.kind, TokenKind::Ident) {
                        proof {
                            assert(parse_steps(cfg0, fuel + 1) == (ParseStep::Done {
                                result: Err::<Seq<OpV>, ParseErrorV>(
                                    ParseErrorV::UnnamedMacro { span: sp },
                                ),
                            }));
                        }
                        return Err(ParseError::UnnamedMacro { span: sp });
                    }
                    proof {
                        assert(toks_view(self.tokens@) =~= cur.toks.subrange(
                            2,
                            cur.toks.len() as int,
                        ));
                    }
                    let body = match self.capture_macro_body(Ghost(cur.toks), Ghost(2int)) {
                        None => {
                            proof {
                                assert(parse_steps(cfg0, fuel + 1) == (ParseStep::Done {
                                    result: Err::<Seq<OpV>, ParseErrorV>(
                                        ParseErrorV::UnclosedMacro {
                                            span: sp,
                                            name: name_token@.text,
                                        },
                                    ),
                                }));
                            }
                            return Err(
                                ParseError::UnclosedMacro { span: sp, name: name_token.text },
                            );
                        },
                        Some(body) => body,
                    };
                    let ghost kk = body@.len() as int;
                    let ghost macros0 = self.macros@;
                    self.macros.push((name_token.text, body));
                    proof {
                        assert(self.macros@ == macros0.push((name_token.text, body)));
                        lemma_macros_view(macros0);
                        lemma_macros_view(self.macros@);
                        assert(macros_view(self.macros@) =~= cur.macros.push(
                            (name_token@.text, cur.toks.subrange(2, 2 + kk)),
                        ));
                        lemma_tokens_wf_subrange(cur.toks, 2, 2 + kk);
                        lemma_tokens_wf_subrange(cur.toks, 2 + kk + 1, cur.toks.len() as int);
                        assert(macros_wf(macros_view(self.macros@)));
                        fuel = fuel + 1;
                    }
                },
                TokenKind::Ident => {
                    match self.find_macro(&t.text) {
                        Some(i) => {
                            let body = clone_tokens(&self.macros[i].1);
                            let ghost rest = toks_view(self.tokens@);
                            proof {
                                assert(toks_view(self.tokens@) =~= toks_view(body@).subrange(
                                    body@.len() as int,
                                    body@.len() as int,
                                ) + rest);
                            }
                            let mut j = body.len();
                            while j > 0
                                invariant
                                    j <= body@.len(),
                                    macros_view(self.macros@) == cur.macros,
                                    toks_view(self.tokens@) == toks_view(body@).subrange(
                                        j as int,
                                        body@.len() as int,
                                    ) + rest,
                                decreases j,
                            {
                                let ghost qpre = self.tokens@;
                                let ghost jh = j as int;
                                j = j - 1;
                                let tk = body[j].clone();
                                let ghost tkv = tk@;
                                self.tokens.push_front(tk);
                                proof {
                                    lemma_toks_view(qpre);
                                    lemma_toks_view(self.tokens@);
                                    lemma_toks_view(body@);
                                    let bv = toks_view(body@);
                                    let nv = toks_view(self.tokens@);
                                    let rhs = bv.subrange(j as int, bv.len() as int) + rest;
                                    let hd = bv.subrange(jh, bv.len() as int) + rest;
                                    assert(toks_view(qpre) == hd);
                                    assert(self.tokens@ == seq![body@[j as int]] + qpre);
                                    assert(nv.len() == rhs.len());
                                    assert forall|x: int| 0 <= x < nv.len() implies nv[x] == rhs[x] by {
                                        if x == 0 {
                                            assert(nv[0] == tkv);
                                            assert(rhs[0] == bv[j as int]);
                                            assert(tkv == bv[j as int]);
                                        } else {
                                            assert(self.tokens@[x] == qpre[x - 1]);
                                            assert(nv[x] == toks_view(qpre)[x - 1]);
                                            assert(toks_view(qpre)[x - 1] == hd[x - 1]);
                                            if x - 1 < bv.len() - jh {
                                                assert(hd[x - 1] == bv[jh + x - 1]);
                                                assert(rhs[x] == bv[j + x]);
                                            } else {
                                                assert(hd[x - 1] == rest[x - 1 - (bv.len() - jh)]);
                                                assert(rhs[x] == rest[x - (bv.len() - j)]);
                                            }
                                        }
                                    }
                                    assert(nv =~= rhs);
                                }
                            }
                            proof {
                                assert(toks_view(body@).subrange(0, body@.len() as int) =~= toks_view(
                                    body@,
                                ));
                                assert(toks_view(self.tokens@) =~= toks_view(body@) + rest);
                                assert(toks_view(body@) == cur.macros[i as int].1);
                                assert(rest =~= cur.toks.subrange(1, cur.toks.len() as int));
                                let c2 = (ParseCfg {
                                    toks: cur.macros[i as int].1 + cur.toks.subrange(
                                        1,
                                        cur.toks.len() as int,
                                    ),
                                    macros: cur.macros,
                                    ops: cur.ops,
                                });
                                assert(parse_step(cur) == (ParseStep::Running { cfg: c2 }));
                                assert(tokens_wf(toks_view(body@)));
                                lemma_tokens_wf_subrange(cur.toks, 1, cur.toks.len() as int);
                                lemma_tokens_wf_concat(toks_view(body@), rest);
                                assert(tokens_wf(toks_view(self.tokens@)));
                                fuel = fuel + 1;
                            }
                        },
                        None => {
                            ops.push_back(Op::new(sp, OpKind::PushBox { name: t.text }));
                            proof {
                                assert(ops_view(ops@) =~= cur.ops.push(
                                    OpV { span: sp, kind: OpKindV::PushBox { name: t@.text } },
                                ));
                                assert(toks_view(self.tokens@) =~= cur.toks.subrange(
                                    1,
                                    cur.toks.len() as int,
                                ));
                                fuel = fuel + 1;
                            }
                        },
                    }
                },
                TokenKind::Box => {
                    proof {
                        assert(toks_view(self.tokens@) =~= cur.toks.subrange(
                            1,
                            cur.toks.len() as int,
                        ));
                    }
                    let k = match self.parse_create_box(&t) {
                        Ok(k) => k,
                        Err(e) => {
                            proof {
                                assert(parse_steps(cfg0, fuel + 1) == (ParseStep::Done {
                                    result: Err::<Seq<OpV>, ParseErrorV>(e@),
                                }));
                            }
                            return Err(e);
                        },
                    };
                    ops.push_back(Op::new(sp, k));
                    proof {
                        let bd = box_decl_step(cur.toks.subrange(1, cur.toks.len() as int), sp);
                        assert(bd matches Ok(p) && p.0 == k@ && p.1 == 2);
                        assert(ops_view(ops@) =~= cur.ops.push(OpV { span: sp, kind: k@ }));
                        assert(toks_view(self.tokens@) =~= cur.toks.subrange(
                            3,
                            cur.toks.len() as int,
                        ));
                        fuel = fuel + 1;
                    }
                },
                _ => {
                    let k: OpKind = match t.kind {
                        TokenKind::Number => {
                            match crate::lexer::parse_int(t.text.as_str()) {
                                Some(v) => OpKind::PushInt { val: v },
                                None => {
                                    // the lexer classified this text as a
                                    // number, so it parses
                                    proof {
                                        assert(false);
                                    }
                                    OpKind::Until
                                },
                            }
                        },
                        TokenKind::String => OpKind::PushStr { val: t.text },
                        TokenKind::Boolean => OpKind::PushBool {
                            val: crate::lexer::str_eq_text(t.text.as_str(), "true"),
                        },
                        TokenKind::Add => OpKind::Add,
                        TokenKind::Sub => OpKind::Sub,
                        TokenKind::Mul => OpKind::Mul,
                        TokenKind::Div => OpKind::Div,
                        TokenKind::Print => OpKind::Print,
                        TokenKind::Or => OpKind::Or,
                        TokenKind::And => OpKind::And,
                        TokenKind::Not => OpKind::Not,
                        TokenKind::Eq => OpKind::Eq,
                        TokenKind::LessThan => OpKind::LessThan,
                        TokenKind::GreaterThan => OpKind::GreaterThan,
                        TokenKind::LessThanEq => OpKind::LessThanEq,
                        TokenKind::GreaterThanEq => OpKind::GreaterThanEq,
                        TokenKind::If => OpKind::If,
                        TokenKind::End => OpKind::End,
                        TokenKind::Dup => OpKind::Dup,
                        TokenKind::Drop => OpKind::Drop,
                        TokenKind::Swap => OpKind::Swap,
                        TokenKind::Over => OpKind::Over,
                        TokenKind::Rot => OpKind::Rot,
                        TokenKind::Type => OpKind::GetType,
                        TokenKind::TypeInt => OpKind::PushTypeInt,
                        TokenKind::TypeStr => OpKind::PushTypeStr,
                        TokenKind::TypeBool => OpKind::PushTypeBool,
                        TokenKind::TypeBoxedInt => OpKind::PushTypeBoxedInt,
                        TokenKind::TypeBoxedStr => OpKind::PushTypeBoxedStr,
                        TokenKind::TypeBoxedBool => OpKind::PushTypeBoxedBool,
                        TokenKind::Assert => OpKind::Assert,
                        TokenKind::Pack => OpKind::Pack,
                        TokenKind::Unpack => OpKind::Unpack,
                        TokenKind::Until => OpKind::Until,
                        TokenKind::Macro | TokenKind::Ident | TokenKind::Box => {
                            proof {
                                assert(false);
                            }
                            OpKind::Until
                        },
                    };
                    assert(k@ == simple_kind(t@));
                    ops.push_back(Op::new(sp, k));
                    proof {
                        assert(ops_view(ops@) =~= cur.ops.push(
                            OpV { span: sp, kind: simple_kind(t@) },
                        ));
                        assert(toks_view(self.tokens@) =~= cur.toks.subrange(
                            1,
                            cur.toks.len() as int,
                        ));
                        fuel = fuel + 1;
                    }
                },
            }
        }
    }
}

} // verus!
