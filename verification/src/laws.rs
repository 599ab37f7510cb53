//! Laws the pipeline obeys, stated and proved over the specification
//! functions of the other modules.

use vstd::prelude::*;
use crate::error::{ParseErrorV, RuntimeErrorV};
use crate::lexer::{
    int_literal_value, is_digit, is_int_literal, is_trivia, keyword_kind, lex_from, scan_word,
    spec_classify, spec_lex,
};
use crate::op::{OpKindV, OpV};
use crate::parser::{ParseCfg, ParseStep, init_cfg, macro_lookup, parse_step, parse_steps};
use crate::runtime::{ModeV, StateV, dir_lookup, init_state, run_from, skip_from, state_wf};
use crate::span::{Span, spec_merge};
use crate::stack::{stack_dup, stack_swap};
use crate::token::{TokenKind, TokenV, spec_token_span};
use crate::val::{ValKindV, ValType, ValV, spec_div};

verus! {

/// The lexer classifies every valid integer literal as a number token: no
/// keyword has a literal's shape, and a literal opens no string.
pub proof fn law_int_literal_is_number(text: Seq<char>, start: int)
    requires
        is_int_literal(text),
    ensures
        spec_classify(text, start) == Ok::<TokenV, ParseErrorV>(
            TokenV {
                span: spec_token_span(text, start, TokenKind::Number),
                text,
                kind: TokenKind::Number,
            },
        ),
{
    reveal_strlit("+");
    reveal_strlit("-");
    reveal_strlit("*");
    reveal_strlit("/");
    reveal_strlit("print");
    reveal_strlit("or");
    reveal_strlit("and");
    reveal_strlit("not");
    reveal_strlit("eq");
    reveal_strlit("<");
    reveal_strlit(">");
    reveal_strlit("<=");
    reveal_strlit(">=");
    reveal_strlit("if");
    reveal_strlit("end");
    reveal_strlit("macro");
    reveal_strlit("dup");
    reveal_strlit("drop");
    reveal_strlit("swap");
    reveal_strlit("over");
    reveal_strlit("rot");
    reveal_strlit("type");
    reveal_strlit("type::int");
    reveal_strlit("type::str");
    reveal_strlit("type::bool");
    reveal_strlit("type::box<int>");
    reveal_strlit("type::box<str>");
    reveal_strlit("type::box<bool>");
    reveal_strlit("assert");
    reveal_strlit("box");
    reveal_strlit("pack");
    reveal_strlit("unpack");
    let ds = if text.len() > 0 && (text[0] == '-' || text[0] == '+') {
        text.subrange(1, text.len() as int)
    } else {
        text
    };
    assert(ds.len() > 0);
    assert(crate::lexer::is_digit(ds[0]));
    // a valid literal holds only an optional sign and digits, so it can be
    // no keyword and no string literal
    assert(keyword_kind(text) is None);
    assert(text[0] != '"');
}

/// Scanning a word of non-whitespace characters that opens no string
/// literal and no comment runs to the word's boundary (the next whitespace,
/// or the end of input) and classifies exactly the word.
proof fn lemma_scan_plain_word(s: Seq<char>, pos: int, start: int, end: int, acc: Seq<TokenV>)
    requires
        0 <= start <= pos <= end <= s.len(),
        start < end,
        forall|i: int| start <= i < end ==> !is_trivia(#[trigger] s[i]),
        end < s.len() ==> is_trivia(s[end]),
        s[start] != '"',
        s[start] != '/',
    ensures
        scan_word(s, pos, start, acc) == (match spec_classify(s.subrange(start, end), start) {
            Ok(t) => if end < s.len() {
                lex_from(s, end + 1, acc.push(t))
            } else {
                Ok(acc.push(t))
            },
            Err(e) => Err(e),
        }),
    decreases end - pos,
{
    if pos == end {
        if end < s.len() {
            assert(!crate::lexer::in_mid_of_string(s.subrange(start, pos)));
        }
    } else {
        assert(!is_trivia(s[pos]));
        assert(!crate::lexer::in_mid_of_string(s.subrange(start, pos)));
        lemma_scan_plain_word(s, pos + 1, start, end, acc);
    }
}

/// A digit or sign character is no whitespace, no quote and no slash.
proof fn lemma_literal_chars_plain(c: char)
    requires
        is_digit(c) || c == '+' || c == '-',
    ensures
        !is_trivia(c),
        c != '"',
        c != '/',
{
}

/// Lexing the text of two integer literals and `+`, separated by single
/// spaces, yields exactly the two number tokens and the operator token.
pub proof fn law_lex_two_literals_add(ta: Seq<char>, tb: Seq<char>)
    requires
        is_int_literal(ta),
        is_int_literal(tb),
    ensures
        ({
            let src = ta + seq![' '] + tb + seq![' ', '+'];
            let toks = seq![
                TokenV {
                    span: spec_token_span(ta, 0, TokenKind::Number),
                    text: ta,
                    kind: TokenKind::Number,
                },
                TokenV {
                    span: spec_token_span(tb, ta.len() as int + 1, TokenKind::Number),
                    text: tb,
                    kind: TokenKind::Number,
                },
                TokenV {
                    span: spec_token_span(seq!['+'], ta.len() as int + tb.len() as int + 2, TokenKind::Add),
                    text: seq!['+'],
                    kind: TokenKind::Add,
                },
            ];
            spec_lex(src) == Ok::<Seq<TokenV>, ParseErrorV>(toks)
        }),
{
    reveal_strlit("+");
    let src = ta + seq![' '] + tb + seq![' ', '+'];
    let la = ta.len() as int;
    let lb = tb.len() as int;
    let n = src.len() as int;
    assert(n == la + lb + 3);
    assert forall|i: int| 0 <= i < la implies src[i] == ta[i] by {}
    assert forall|i: int| 0 <= i < lb implies src[la + 1 + i] == tb[i] by {}
    assert(src[la] == ' ');
    assert(src[la + 1 + lb] == ' ');
    assert(src[n - 1] == '+');

    // every character of a literal is a digit or a sign
    assert forall|i: int| 0 <= i < la implies !is_trivia(#[trigger] src[i]) && src[i] != '"'
        && src[i] != '/' by {
        let ds = if ta[0] == '-' || ta[0] == '+' {
            ta.subrange(1, la)
        } else {
            ta
        };
        if ta[0] == '-' || ta[0] == '+' {
            if i > 0 {
                assert(is_digit(ds[i - 1]));
                assert(ta[i] == ds[i - 1]);
            }
        } else {
            assert(is_digit(ds[i]));
        }
        lemma_literal_chars_plain(ta[i]);
    }
    assert forall|i: int| 0 <= i < lb implies !is_trivia(#[trigger] src[la + 1 + i]) && src[la + 1
        + i] != '"' && src[la + 1 + i] != '/' by {
        let ds = if tb[0] == '-' || tb[0] == '+' {
            tb.subrange(1, lb)
        } else {
            tb
        };
        if tb[0] == '-' || tb[0] == '+' {
            if i > 0 {
                assert(is_digit(ds[i - 1]));
                assert(tb[i] == ds[i - 1]);
            }
        } else {
            assert(is_digit(ds[i]));
        }
        lemma_literal_chars_plain(tb[i]);
    }

    let acc0 = Seq::<TokenV>::empty();
    // the first word: the first literal
    assert(spec_lex(src) == scan_word(src, 0, 0, acc0));
    assert(src.subrange(0, la) =~= ta);
    assert forall|i: int| 0 <= i < la implies !is_trivia(#[trigger] src[i]) by {}
    lemma_scan_plain_word(src, 0, 0, la, acc0);
    law_int_literal_is_number(ta, 0);
    let t1 = TokenV {
        span: spec_token_span(ta, 0, TokenKind::Number),
        text: ta,
        kind: TokenKind::Number,
    };
    let acc1 = acc0.push(t1);
    assert(scan_word(src, 0, 0, acc0) == lex_from(src, la + 1, acc1));
    // the second word: the second literal
    assert(!is_trivia(src[la + 1]));
    assert(lex_from(src, la + 1, acc1) == scan_word(src, la + 1, la + 1, acc1));
    assert(src.subrange(la + 1, la + 1 + lb) =~= tb);
    lemma_scan_plain_word(src, la + 1, la + 1, la + 1 + lb, acc1);
    law_int_literal_is_number(tb, la + 1);
    let t2 = TokenV {
        span: spec_token_span(tb, la + 1, TokenKind::Number),
        text: tb,
        kind: TokenKind::Number,
    };
    let acc2 = acc1.push(t2);
    assert(scan_word(src, la + 1, la + 1, acc1) == lex_from(src, la + lb + 2, acc2));
    // the last word: the operator, ending at the end of input
    assert(!is_trivia(src[n - 1]));
    assert(lex_from(src, n - 1, acc2) == scan_word(src, n - 1, n - 1, acc2));
    assert(src.subrange(n - 1, n) =~= seq!['+']);
    assert(seq!['+'] =~= "+"@);
    lemma_scan_plain_word(src, n - 1, n - 1, n, acc2);
    assert(keyword_kind(src.subrange(n - 1, n)) == Some(TokenKind::Add));
    let t3 = TokenV {
        span: spec_token_span(seq!['+'], n - 1, TokenKind::Add),
        text: seq!['+'],
        kind: TokenKind::Add,
    };
    assert(spec_classify(src.subrange(n - 1, n), n - 1) == Ok::<TokenV, ParseErrorV>(t3));
    assert(scan_word(src, n - 1, n - 1, acc2) == Ok::<Seq<TokenV>, ParseErrorV>(acc2.push(t3)));
    assert(acc2.push(t3) =~= seq![t1, t2, t3]);
}

/// Pushing two integers and adding them leaves exactly their sum: the
/// parser turns the three tokens into the three operations, and running
/// those from any starting stack pushes the sum, provided it fits the value
/// model's integer width.
pub proof fn law_two_literals_add(ta: TokenV, tb: TokenV, tp: TokenV)
    requires
        ta.kind is Number,
        is_int_literal(ta.text),
        tb.kind is Number,
        is_int_literal(tb.text),
        tp.kind is Add,
        i128::MIN <= int_literal_value(ta.text) + int_literal_value(tb.text) <= i128::MAX,
    ensures
        ({
            let va = int_literal_value(ta.text) as i128;
            let vb = int_literal_value(tb.text) as i128;
            let ops = seq![
                OpV { span: ta.span, kind: OpKindV::PushInt { val: va } },
                OpV { span: tb.span, kind: OpKindV::PushInt { val: vb } },
                OpV { span: tp.span, kind: OpKindV::Add },
            ];
            &&& parse_steps(init_cfg(seq![ta, tb, tp]), 4) == (ParseStep::Done {
                result: Ok::<Seq<OpV>, ParseErrorV>(ops),
            })
            &&& run_from(ops, init_state()) matches Ok(st) && st.stack.len() == 1
                && st.stack[0].kind == (ValKindV::Int { val: (va + vb) as i128 }) && st.mode
                == ModeV::Normal && st.output == Seq::<Seq<char>>::empty()
        }),
{
    let va = int_literal_value(ta.text) as i128;
    let vb = int_literal_value(tb.text) as i128;
    let toks = seq![ta, tb, tp];
    let ops = seq![
        OpV { span: ta.span, kind: OpKindV::PushInt { val: va } },
        OpV { span: tb.span, kind: OpKindV::PushInt { val: vb } },
        OpV { span: tp.span, kind: OpKindV::Add },
    ];
    let c0 = init_cfg(toks);
    let c1 = parse_step(c0)->Running_cfg;
    assert(toks.subrange(1, 3) =~= seq![tb, tp]);
    assert(c1.toks =~= seq![tb, tp]);
    let c2 = parse_step(c1)->Running_cfg;
    assert(c1.toks.subrange(1, 2) =~= seq![tp]);
    assert(c2.toks =~= seq![tp]);
    let c3 = parse_step(c2)->Running_cfg;
    assert(c2.toks.subrange(1, 1) =~= Seq::<TokenV>::empty());
    assert(c3.toks =~= Seq::<TokenV>::empty());
    assert(c1.ops =~= seq![ops[0]]);
    assert(c2.ops =~= seq![ops[0], ops[1]]);
    assert(c3.ops =~= ops);
    assert(parse_steps(c0, 4nat) == parse_steps(c1, 3nat));
    assert(parse_steps(c1, 3nat) == parse_steps(c2, 2nat));
    assert(parse_steps(c2, 2nat) == parse_steps(c3, 1nat));
    assert(parse_steps(c3, 1nat) == (ParseStep::Done {
        result: Ok::<Seq<OpV>, ParseErrorV>(ops),
    }));

    let st0 = init_state();
    let r1 = ops.subrange(1, 3);
    assert(r1 =~= seq![ops[1], ops[2]]);
    let r2 = r1.subrange(1, 2);
    assert(r2 =~= seq![ops[2]]);
    let r3 = r2.subrange(1, 1);
    assert(r3 =~= Seq::<OpV>::empty());
    let s1 = StateV {
        stack: st0.stack.push(ValV { span: ta.span, kind: ValKindV::Int { val: va } }),
        ..st0
    };
    let s2 = StateV {
        stack: s1.stack.push(ValV { span: tb.span, kind: ValKindV::Int { val: vb } }),
        ..s1
    };
    assert(run_from(ops, st0) == run_from(r1, s1));
    assert(run_from(r1, s1) == run_from(r2, s2));
    let merged = spec_merge(ta.span, tp.span);
    let s3 = StateV {
        stack: s2.stack.subrange(0, 0).push(
            ValV { span: merged, kind: ValKindV::Int { val: (va + vb) as i128 } },
        ),
        ..s2
    };
    assert(s2.stack[0].kind == (ValKindV::Int { val: va }));
    assert(s2.stack[1].kind == (ValKindV::Int { val: vb }));
    assert(run_from(r2, s2) == run_from(r3, s3));
    assert(run_from(r3, s3) == Ok::<StateV, RuntimeErrorV>(s3));
}

/// Evaluating the source text of two integer literals and `+` yields a
/// stack whose sole value is their sum, provided it fits the value model's
/// integer width: lexing gives exactly the three tokens, parsing gives
/// exactly the three operations, and running them pushes exactly the sum.
pub proof fn law_eval_two_literals_add(ta: Seq<char>, tb: Seq<char>)
    requires
        is_int_literal(ta),
        is_int_literal(tb),
        i128::MIN <= int_literal_value(ta) + int_literal_value(tb) <= i128::MAX,
    ensures
        ({
            let src = ta + seq![' '] + tb + seq![' ', '+'];
            let va = int_literal_value(ta) as i128;
            let vb = int_literal_value(tb) as i128;
            let toks = seq![
                TokenV {
                    span: spec_token_span(ta, 0, TokenKind::Number),
                    text: ta,
                    kind: TokenKind::Number,
                },
                TokenV {
                    span: spec_token_span(tb, ta.len() as int + 1, TokenKind::Number),
                    text: tb,
                    kind: TokenKind::Number,
                },
                TokenV {
                    span: spec_token_span(
                        seq!['+'],
                        ta.len() as int + tb.len() as int + 2,
                        TokenKind::Add,
                    ),
                    text: seq!['+'],
                    kind: TokenKind::Add,
                },
            ];
            let ops = seq![
                OpV { span: toks[0].span, kind: OpKindV::PushInt { val: va } },
                OpV { span: toks[1].span, kind: OpKindV::PushInt { val: vb } },
                OpV { span: toks[2].span, kind: OpKindV::Add },
            ];
            &&& spec_lex(src) == Ok::<Seq<TokenV>, ParseErrorV>(toks)
            &&& parse_steps(init_cfg(toks), 4) == (ParseStep::Done {
                result: Ok::<Seq<OpV>, ParseErrorV>(ops),
            })
            &&& run_from(ops, init_state()) matches Ok(st) && st.stack.len() == 1
                && st.stack[0].kind == (ValKindV::Int { val: (va + vb) as i128 })
        }),
{
    law_lex_two_literals_add(ta, tb);
    let t1 = TokenV {
        span: spec_token_span(ta, 0, TokenKind::Number),
        text: ta,
        kind: TokenKind::Number,
    };
    let t2 = TokenV {
        span: spec_token_span(tb, ta.len() as int + 1, TokenKind::Number),
        text: tb,
        kind: TokenKind::Number,
    };
    let t3 = TokenV {
        span: spec_token_span(
            seq!['+'],
            ta.len() as int + tb.len() as int + 2,
            TokenKind::Add,
        ),
        text: seq!['+'],
        kind: TokenKind::Add,
    };
    law_two_literals_add(t1, t2, t3);
}

/// Dividing by an integer zero is the defined failure `InvalidDiv`, carrying
/// both operand spans — never a silent wrap.
pub proof fn law_division_by_zero(x: ValV, y: ValV, sp: Span)
    requires
        x.kind matches ValKindV::Int { .. },
        y.kind == (ValKindV::Int { val: 0i128 }),
    ensures
        spec_div(x, y, sp) == Err::<ValV, RuntimeErrorV>(
            RuntimeErrorV::InvalidDiv { left: x.span, right: y.span },
        ),
{
}

/// `dup` duplicates the top value in place: popping twice afterwards yields
/// the same value both times, over the untouched rest of the stack.
pub proof fn law_dup_pops_equal(s: Seq<ValV>)
    requires
        s.len() >= 1,
    ensures
        stack_dup(s) matches Ok(d) && d.last() == s.last() && d.drop_last().last() == s.last()
            && d.drop_last().drop_last() == s.drop_last(),
{
    let d = stack_dup(s)->Ok_0;
    assert(d.drop_last() =~= s);
}

/// `swap` twice is the identity permutation on any stack with at least two
/// values.
pub proof fn law_swap_twice_identity(s: Seq<ValV>)
    requires
        s.len() >= 2,
    ensures
        stack_swap(s) matches Ok(s1) && stack_swap(s1) matches Ok(s2) && s2 == s,
{
    let s1 = stack_swap(s)->Ok_0;
    let s2 = stack_swap(s1)->Ok_0;
    assert(s1.subrange(0, s1.len() - 2) =~= s.subrange(0, s.len() - 2));
    assert(s2 =~= s);
}

/// Exhausting the operations while a conditional block is still open is the
/// unclosed-`if` failure, reported at the opening `if` — never a success
/// with a partial stack.
pub proof fn law_unclosed_if_fails(st: StateV, sp: Span)
    requires
        st.mode == (ModeV::If { last_span: sp }),
    ensures
        run_from(Seq::empty(), st) == Err::<StateV, RuntimeErrorV>(
            RuntimeErrorV::UnclosedIfStatement { span: sp },
        ),
{
}

/// Skipping a false conditional's body executes nothing: either the input
/// ends first (the unclosed-`if` failure), or execution resumes past the
/// matching `end` with exactly the state the skip began in, back in normal
/// mode.
pub proof fn law_skip_executes_nothing(ops: Seq<OpV>, depth: int, sp: Span, st: StateV)
    ensures
        skip_from(ops, depth, sp, st) == Err::<StateV, RuntimeErrorV>(
            RuntimeErrorV::UnclosedIfStatement { span: sp },
        ) || exists|k: int|
            0 < k <= ops.len() && skip_from(ops, depth, sp, st) == run_from(
                #[trigger] ops.subrange(k, ops.len() as int),
                StateV { mode: ModeV::Normal, ..st },
            ),
    decreases ops.len(),
{
    if ops.len() == 0 {
    } else {
        let n = ops.len() as int;
        let rest = ops.subrange(1, n);
        if ops[0].kind is End && depth == 1 {
            assert(skip_from(ops, depth, sp, st) == run_from(
                ops.subrange(1, n),
                StateV { mode: ModeV::Normal, ..st },
            ));
        } else {
            let d2: int = if ops[0].kind is End {
                depth - 1
            } else if ops[0].kind is If {
                depth + 1
            } else {
                depth
            };
            assert(skip_from(ops, depth, sp, st) == skip_from(rest, d2, sp, st));
            law_skip_executes_nothing(rest, d2, sp, st);
            if skip_from(rest, d2, sp, st) != Err::<StateV, RuntimeErrorV>(
                RuntimeErrorV::UnclosedIfStatement { span: sp },
            ) {
                let k = choose|k: int|
                    0 < k <= rest.len() && skip_from(rest, d2, sp, st) == run_from(
                        #[trigger] rest.subrange(k, rest.len() as int),
                        StateV { mode: ModeV::Normal, ..st },
                    );
                assert(ops.subrange(k + 1, n) =~= rest.subrange(k, rest.len() as int));
                assert(skip_from(ops, depth, sp, st) == run_from(
                    ops.subrange(k + 1, n),
                    StateV { mode: ModeV::Normal, ..st },
                ));
            }
        }
    }
}

/// Macro expansion is splice-equivalent: from a configuration whose front
/// token invokes a defined macro, every number of further steps gives
/// exactly what the same steps give from the configuration with the body
/// spliced in place of the invocation — so the produced operation sequence
/// is the one the inlined body produces, recursive references included.
pub proof fn law_macro_expansion_inline(cfg: ParseCfg, t: TokenV, body: Seq<TokenV>)
    requires
        cfg.toks.len() >= 1,
        cfg.toks[0] == t,
        t.kind is Ident,
        macro_lookup(cfg.macros, t.text) == Some(body),
    ensures
        forall|fuel: nat|
            parse_steps(cfg, fuel + 1) == parse_steps(
                ParseCfg {
                    toks: body + cfg.toks.subrange(1, cfg.toks.len() as int),
                    macros: cfg.macros,
                    ops: cfg.ops,
                },
                fuel,
            ),
{
    let c2 = ParseCfg {
        toks: body + cfg.toks.subrange(1, cfg.toks.len() as int),
        macros: cfg.macros,
        ops: cfg.ops,
    };
    assert(parse_step(cfg) == (ParseStep::Running { cfg: c2 }));
    assert forall|fuel: nat| parse_steps(cfg, fuel + 1) == parse_steps(c2, fuel) by {
        assert(parse_steps(cfg, fuel + 1) == parse_steps(c2, (fuel + 1 - 1) as nat));
    }
}

/// A box reference to an undeclared name fails with `UnknownBox` at once,
/// whatever follows.
pub proof fn law_unknown_box(ops: Seq<OpV>, st: StateV, name: Seq<char>, sp: Span)
    requires
        ops.len() >= 1,
        ops[0] == (OpV { span: sp, kind: OpKindV::PushBox { name } }),
        dir_lookup(st.dir, name) is None,
    ensures
        run_from(ops, st) == Err::<StateV, RuntimeErrorV>(RuntimeErrorV::UnknownBox { span: sp }),
{
}

/// Declaring a box under an already-declared name fails with the
/// identical-name error, carrying the name, whatever follows.
pub proof fn law_duplicate_box(
    ops: Seq<OpV>,
    st: StateV,
    ty: ValType,
    name: Seq<char>,
    sp: Span,
)
    requires
        ops.len() >= 1,
        ops[0] == (OpV { span: sp, kind: OpKindV::CreateBox { val_type: ty, name } }),
        dir_lookup(st.dir, name) is Some,
    ensures
        run_from(ops, st) == Err::<StateV, RuntimeErrorV>(
            RuntimeErrorV::BoxWithIdenticalNameAlreadyExists { name, span: sp },
        ),
{
}

/// Packing a value whose kind differs from the box's type is the
/// incompatible-box failure, naming the expected type and the value's span.
pub proof fn law_pack_wrong_kind(ops: Seq<OpV>, st: StateV, sp: Span)
    requires
        ops.len() >= 1,
        ops[0] == (OpV { span: sp, kind: OpKindV::Pack }),
        st.stack.len() >= 2,
        st.stack[st.stack.len() - 1].kind matches ValKindV::BoxedInt { .. },
        st.stack[st.stack.len() - 2].kind matches ValKindV::Str { .. },
    ensures
        run_from(ops, st) == Err::<StateV, RuntimeErrorV>(
            RuntimeErrorV::IncompatibleBox {
                expected: ValType::Int,
                span: st.stack[st.stack.len() - 2].span,
            },
        ),
{
}

/// The box round trip: declaring a fresh box, packing the value on top of
/// the stack into it and unpacking it again restores exactly that value on
/// exactly the original stack, whatever scalar type and spans are involved.
pub proof fn law_box_round_trip(
    st: StateV,
    name: Seq<char>,
    ty: ValType,
    sp1: Span,
    sp2: Span,
    sp3: Span,
    sp4: Span,
    sp5: Span,
)
    requires
        state_wf(st),
        st.mode is Normal,
        st.stack.len() >= 1,
        st.boxes.len() < usize::MAX,
        dir_lookup(st.dir, name) is None,
        match ty {
            ValType::Int => st.stack.last().kind is Int,
            ValType::Str => st.stack.last().kind is Str,
            ValType::Bool => st.stack.last().kind is Bool,
            _ => false,
        },
    ensures
        ({
            let ops = seq![
                OpV { span: sp1, kind: OpKindV::CreateBox { val_type: ty, name } },
                OpV { span: sp2, kind: OpKindV::PushBox { name } },
                OpV { span: sp3, kind: OpKindV::Pack },
                OpV { span: sp4, kind: OpKindV::PushBox { name } },
                OpV { span: sp5, kind: OpKindV::Unpack },
            ];
            run_from(ops, st) matches Ok(stf) && stf.stack == st.stack && stf.mode == st.mode
                && stf.output == st.output
        }),
{
    let ops = seq![
        OpV { span: sp1, kind: OpKindV::CreateBox { val_type: ty, name } },
        OpV { span: sp2, kind: OpKindV::PushBox { name } },
        OpV { span: sp3, kind: OpKindV::Pack },
        OpV { span: sp4, kind: OpKindV::PushBox { name } },
        OpV { span: sp5, kind: OpKindV::Unpack },
    ];
    let v = st.stack.last();
    let id = st.boxes.len() as int;
    let r1 = ops.subrange(1, 5);
    let r2 = r1.subrange(1, 4);
    let r3 = r2.subrange(1, 3);
    let r4 = r3.subrange(1, 2);
    let r5 = r4.subrange(1, 1);
    assert(r1 =~= seq![ops[1], ops[2], ops[3], ops[4]]);
    assert(r2 =~= seq![ops[2], ops[3], ops[4]]);
    assert(r3 =~= seq![ops[3], ops[4]]);
    assert(r4 =~= seq![ops[4]]);
    assert(r5 =~= Seq::<OpV>::empty());
    let s1 = StateV {
        dir: st.dir.push((name, ty, id)),
        boxes: st.boxes.push(crate::runtime::default_box_val(ty, sp1)),
        ..st
    };
    assert(run_from(ops, st) == run_from(r1, s1));
    assert(dir_lookup(s1.dir, name) == Some((ty, id)));
    let h = crate::runtime::boxed_val(ty, id, sp2);
    let s2 = StateV { stack: s1.stack.push(h), ..s1 };
    assert(run_from(r1, s1) == run_from(r2, s2));
    // pack: the handle on top, the value beneath
    assert(s2.stack[s2.stack.len() - 1] == h);
    assert(s2.stack[s2.stack.len() - 2] == v);
    let popped = s2.stack.subrange(0, s2.stack.len() - 2);
    assert(popped =~= st.stack.drop_last());
    let s3 = StateV { stack: popped, boxes: s2.boxes.update(id, v), ..s2 };
    assert(run_from(r2, s2) == run_from(r3, s3));
    let s4 = StateV { stack: s3.stack.push(crate::runtime::boxed_val(ty, id, sp4)), ..s3 };
    assert(dir_lookup(s3.dir, name) == Some((ty, id)));
    assert(run_from(r3, s3) == run_from(r4, s4));
    assert(s3.boxes[id] == v);
    let s5 = StateV { stack: s4.stack.drop_last().push(v), ..s4 };
    assert(s4.stack.drop_last() =~= st.stack.drop_last());
    assert(run_from(r4, s4) == run_from(r5, s5));
    assert(run_from(r5, s5) == Ok::<StateV, RuntimeErrorV>(s5));
    assert(s5.stack =~= st.stack);
}

} // verus!
