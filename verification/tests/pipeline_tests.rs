use std::collections::VecDeque;
use roth::error::{ParseError, RuntimeError};
use roth::lexer::Lexer;
use roth::op::Op;
use roth::parser::Parser;
use roth::runtime::Runtime;
use roth::stack::Stack;
use roth::val::ValKind;

fn parse_ops(src: &str) -> VecDeque<Op> {
    let tokens = Lexer::new(src).lex().unwrap();
    Parser::new(tokens).parse().unwrap()
}

fn run_ok(src: &str) -> (Stack, Vec<String>) {
    let mut rt = Runtime::new(parse_ops(src));
    let stack = rt.run().unwrap();
    let output = rt.output().clone();
    (stack, output)
}

fn run_err(src: &str) -> RuntimeError {
    let mut rt = Runtime::new(parse_ops(src));
    rt.run().unwrap_err()
}

fn pop_int(stack: &mut Stack) -> i128 {
    match stack.pop().unwrap().kind {
        ValKind::Int { val } => val,
        _ => panic!("expected an integer on the stack"),
    }
}

fn pop_str(stack: &mut Stack) -> String {
    match stack.pop().unwrap().kind {
        ValKind::Str { val } => val,
        _ => panic!("expected a string on the stack"),
    }
}

fn pop_bool(stack: &mut Stack) -> bool {
    match stack.pop().unwrap().kind {
        ValKind::Bool { val } => val,
        _ => panic!("expected a boolean on the stack"),
    }
}

#[test]
fn adds_two_literals() {
    let (mut stack, _) = run_ok("1 2 +");
    assert_eq!(stack.len(), 1);
    assert_eq!(pop_int(&mut stack), 3);
}

#[test]
fn adds_negative_literals() {
    let (mut stack, _) = run_ok("-7 +3 +");
    assert_eq!(pop_int(&mut stack), -4);
}

#[test]
fn arithmetic_chain() {
    // ((10 - 2) * 3) / 4 with truncation
    let (mut stack, _) = run_ok("10 2 - 3 * 4 /");
    assert_eq!(pop_int(&mut stack), 6);
}

#[test]
fn division_truncates_toward_zero() {
    let (mut stack, _) = run_ok("-7 2 /");
    assert_eq!(pop_int(&mut stack), -3);
    let (mut stack2, _) = run_ok("7 -2 /");
    assert_eq!(pop_int(&mut stack2), -3);
}

#[test]
fn division_by_zero_is_invalid_div() {
    let e = run_err("1 0 /");
    assert!(matches!(e, RuntimeError::InvalidDiv { .. }));
}

#[test]
fn addition_overflow_is_defined() {
    let e = run_err("170141183460469231731687303715884105727 1 +");
    assert!(matches!(e, RuntimeError::IntegerOverflow { .. }));
}

#[test]
fn dup_duplicates_top() {
    let (mut stack, _) = run_ok("5 dup");
    assert_eq!(stack.len(), 2);
    assert_eq!(pop_int(&mut stack), 5);
    assert_eq!(pop_int(&mut stack), 5);
    assert_eq!(stack.len(), 0);
}

#[test]
fn swap_twice_restores_order() {
    let (mut stack, _) = run_ok("1 2 swap swap");
    assert_eq!(pop_int(&mut stack), 2);
    assert_eq!(pop_int(&mut stack), 1);
}

#[test]
fn swap_exchanges_top_two() {
    let (mut stack, _) = run_ok("1 2 swap");
    assert_eq!(pop_int(&mut stack), 1);
    assert_eq!(pop_int(&mut stack), 2);
}

#[test]
fn over_copies_second() {
    let (mut stack, _) = run_ok("1 2 over");
    assert_eq!(pop_int(&mut stack), 1);
    assert_eq!(pop_int(&mut stack), 2);
    assert_eq!(pop_int(&mut stack), 1);
}

#[test]
fn rot_rotates_three() {
    // (a b c -- b c a)
    let (mut stack, _) = run_ok("1 2 3 rot");
    assert_eq!(pop_int(&mut stack), 1);
    assert_eq!(pop_int(&mut stack), 3);
    assert_eq!(pop_int(&mut stack), 2);
}

#[test]
fn false_if_skips_block() {
    let (mut stack, _) = run_ok("false if 1 end 2");
    assert_eq!(stack.len(), 1);
    assert_eq!(pop_int(&mut stack), 2);
}

#[test]
fn nested_false_if_skips_whole_block() {
    let (mut stack, _) = run_ok("false if true if 1 end 2 end 3");
    assert_eq!(stack.len(), 1);
    assert_eq!(pop_int(&mut stack), 3);
}

#[test]
fn true_if_executes_block() {
    let (mut stack, _) = run_ok("true if 1 end 2");
    assert_eq!(stack.len(), 2);
    assert_eq!(pop_int(&mut stack), 2);
    assert_eq!(pop_int(&mut stack), 1);
}

#[test]
fn unclosed_if_fails() {
    let e = run_err("true if 1");
    assert!(matches!(e, RuntimeError::UnclosedIfStatement { .. }));
}

#[test]
fn stray_end_fails() {
    let e = run_err("end");
    assert!(matches!(e, RuntimeError::UnexpectedEndToken { .. }));
}

#[test]
fn if_needs_boolean() {
    let e = run_err("5 if 1 end");
    assert!(matches!(e, RuntimeError::IfsExpectBooleans { .. }));
}

#[test]
fn box_round_trip() {
    let (mut stack, _) = run_ok("box type::int x 5 x pack x unpack");
    assert_eq!(stack.len(), 1);
    assert_eq!(pop_int(&mut stack), 5);
}

#[test]
fn box_default_values() {
    let (mut stack, _) = run_ok("box type::str s s unpack box type::bool b b unpack");
    assert_eq!(pop_bool(&mut stack), false);
    assert_eq!(pop_str(&mut stack), "");
}

#[test]
fn pack_wrong_kind_is_incompatible() {
    let e = run_err("box type::int x \"s\" x pack");
    match e {
        RuntimeError::IncompatibleBox { expected, .. } => {
            assert_eq!(expected, roth::val::ValType::Int);
        },
        _ => panic!("expected the incompatible-box error"),
    }
}

#[test]
fn unknown_box_fails() {
    let e = run_err("y");
    assert!(matches!(e, RuntimeError::UnknownBox { .. }));
}

#[test]
fn duplicate_box_fails() {
    let e = run_err("box type::int x box type::int x");
    match e {
        RuntimeError::BoxWithIdenticalNameAlreadyExists { name, .. } => {
            assert_eq!(name, "x");
        },
        _ => panic!("expected the identical-name error"),
    }
}

#[test]
fn pack_non_box_fails() {
    let e = run_err("1 2 pack");
    assert!(matches!(e, RuntimeError::CanOnlyPackBoxes { .. }));
}

#[test]
fn unpack_non_box_fails() {
    let e = run_err("1 unpack");
    assert!(matches!(e, RuntimeError::CanOnlyUnpackBoxes { .. }));
}

#[test]
fn macro_expansion_inlines_body() {
    let (mut stack, _) = run_ok("macro m 1 2 + end m m +");
    assert_eq!(stack.len(), 1);
    assert_eq!(pop_int(&mut stack), 6);
}

#[test]
fn macro_referencing_other_macro() {
    let (mut stack, _) = run_ok("macro a 1 end macro b a a + end b");
    assert_eq!(stack.len(), 1);
    assert_eq!(pop_int(&mut stack), 2);
}

#[test]
fn macro_with_nested_if_in_body() {
    let (mut stack, _) = run_ok("macro m true if 7 end end m");
    assert_eq!(stack.len(), 1);
    assert_eq!(pop_int(&mut stack), 7);
}

#[test]
fn string_concat() {
    let (mut stack, _) = run_ok("\"ab\" \"cd\" +");
    assert_eq!(pop_str(&mut stack), "abcd");
}

#[test]
fn string_int_concat_both_ways() {
    let (mut stack, _) = run_ok("\"a\" 1 + 2 \"b\" +");
    assert_eq!(pop_str(&mut stack), "2b");
    assert_eq!(pop_str(&mut stack), "a1");
}

#[test]
fn string_comparisons() {
    let (mut stack, _) = run_ok("\"abc\" \"abd\" < \"ab\" \"abc\" < \"b\" \"a\" > \"x\" \"x\" <=");
    assert_eq!(pop_bool(&mut stack), true);
    assert_eq!(pop_bool(&mut stack), true);
    assert_eq!(pop_bool(&mut stack), true);
    assert_eq!(pop_bool(&mut stack), true);
}

#[test]
fn equality_per_kind() {
    let (mut stack, _) = run_ok("1 1 eq \"a\" \"a\" eq true false eq type::int type::int eq");
    assert_eq!(pop_bool(&mut stack), true);
    assert_eq!(pop_bool(&mut stack), false);
    assert_eq!(pop_bool(&mut stack), true);
    assert_eq!(pop_bool(&mut stack), true);
}

#[test]
fn logical_operators() {
    let (mut stack, _) = run_ok("true false or true false and false not");
    assert_eq!(pop_bool(&mut stack), true);
    assert_eq!(pop_bool(&mut stack), false);
    assert_eq!(pop_bool(&mut stack), true);
}

#[test]
fn comparisons_on_ints() {
    let (mut stack, _) = run_ok("1 2 < 2 1 > 2 2 <= 1 2 >=");
    assert_eq!(pop_bool(&mut stack), false);
    assert_eq!(pop_bool(&mut stack), true);
    assert_eq!(pop_bool(&mut stack), true);
    assert_eq!(pop_bool(&mut stack), true);
}

#[test]
fn get_type_pushes_type_tag() {
    let (mut stack, _) = run_ok("5 type type::int eq \"s\" type type::str eq");
    assert_eq!(pop_bool(&mut stack), true);
    assert_eq!(pop_bool(&mut stack), true);
}

#[test]
fn get_type_idempotent_on_types() {
    let (mut stack, _) = run_ok("type::bool type type::bool eq");
    assert_eq!(pop_bool(&mut stack), true);
}

#[test]
fn assert_true_passes_and_false_fails() {
    let (stack, _) = run_ok("true assert");
    assert_eq!(stack.len(), 0);
    let e = run_err("false assert");
    assert!(matches!(e, RuntimeError::AssertionFailed { .. }));
    let e2 = run_err("5 assert");
    assert!(matches!(e2, RuntimeError::InvalidAssert { .. }));
}

#[test]
fn print_collects_output() {
    let (stack, output) = run_ok("5 print \"hi\" print true print -42 print");
    assert_eq!(stack.len(), 0);
    assert_eq!(output, vec!["5", "hi", "true", "-42"]);
}

#[test]
fn print_type_tags() {
    let (_, output) = run_ok("type::box<int> print box type::int x x print");
    assert_eq!(output, vec!["type::box<int>", "BoxedInt"]);
}

#[test]
fn empty_stack_errors() {
    assert!(matches!(run_err("+"), RuntimeError::EmptyStackError));
    assert!(matches!(run_err("1 +"), RuntimeError::EmptyStackError));
    assert!(matches!(run_err("dup"), RuntimeError::EmptyStackError));
    assert!(matches!(run_err("drop"), RuntimeError::EmptyStackError));
    assert!(matches!(run_err("print"), RuntimeError::EmptyStackError));
}

#[test]
fn type_mismatch_errors() {
    assert!(matches!(run_err("true 1 +"), RuntimeError::InvalidAdd { .. }));
    assert!(matches!(run_err("1 \"a\" -"), RuntimeError::InvalidSub { .. }));
    assert!(matches!(run_err("true 1 *"), RuntimeError::InvalidMul { .. }));
    assert!(matches!(run_err("true false /"), RuntimeError::InvalidDiv { .. }));
    assert!(matches!(run_err("1 2 or"), RuntimeError::InvalidOr { .. }));
    assert!(matches!(run_err("1 2 and"), RuntimeError::InvalidAnd { .. }));
    assert!(matches!(run_err("5 not"), RuntimeError::InvalidNot { .. }));
    assert!(matches!(run_err("1 true eq"), RuntimeError::InvalidEq { .. }));
    assert!(matches!(run_err("true false <"), RuntimeError::InvalidLessThan { .. }));
    assert!(matches!(run_err("true false >"), RuntimeError::InvalidGreaterThan { .. }));
    assert!(matches!(run_err("true false <="), RuntimeError::InvalidLessThanEq { .. }));
    assert!(matches!(run_err("true false >="), RuntimeError::InvalidGreaterThanEq { .. }));
}

#[test]
fn result_span_merges_operand_and_operator() {
    let (mut stack, _) = run_ok("10 20 +");
    let v = stack.pop().unwrap();
    assert_eq!(v.span.offset, 0);
    assert_eq!(v.span.len, 7);
}

#[test]
fn drop_removes_top() {
    let (mut stack, _) = run_ok("1 2 drop");
    assert_eq!(stack.len(), 1);
    assert_eq!(pop_int(&mut stack), 1);
}

#[test]
fn parse_errors() {
    let parse = |src: &str| {
        let tokens = Lexer::new(src).lex().unwrap();
        Parser::new(tokens).parse()
    };
    assert!(matches!(parse("macro"), Err(ParseError::UnnamedMacro { .. })));
    assert!(matches!(parse("macro 5 x end"), Err(ParseError::UnnamedMacro { .. })));
    match parse("macro m 1 2") {
        Err(ParseError::UnclosedMacro { name, .. }) => assert_eq!(name, "m"),
        _ => panic!("expected the unclosed-macro error"),
    }
    assert!(matches!(parse("box 5 x"), Err(ParseError::BoxesNeedTypes { .. })));
    assert!(matches!(parse("box"), Err(ParseError::BoxesNeedTypes { .. })));
    assert!(matches!(parse("box type::box<int> x"), Err(ParseError::UnboxableType { .. })));
    assert!(matches!(parse("box type::int"), Err(ParseError::BoxesNeedNames { .. })));
}

#[test]
fn deep_nesting_in_macro_capture() {
    // the macro body captures nested if/end pairs whole; the false outer
    // condition then skips across the nested block
    let (mut stack, _) = run_ok("macro m false if true if 1 end 2 end 3 end m");
    assert_eq!(stack.len(), 1);
    assert_eq!(pop_int(&mut stack), 3);
}

#[test]
fn skip_mode_resets_to_normal_after_inner_if() {
    // after the inner skipped block, the outer `end` is stray: the skip
    // machinery returns to normal mode
    let e = run_err("true if false if 1 end end");
    assert!(matches!(e, RuntimeError::UnexpectedEndToken { .. }));
}

#[test]
fn macro_redefinition_latest_wins() {
    let (mut stack, _) = run_ok("macro m 1 end macro m 2 end m");
    assert_eq!(stack.len(), 1);
    assert_eq!(pop_int(&mut stack), 2);
}

#[test]
fn macro_with_empty_body() {
    let (mut stack, _) = run_ok("macro m end 5 m");
    assert_eq!(stack.len(), 1);
    assert_eq!(pop_int(&mut stack), 5);
}

#[test]
fn carriage_return_separates_tokens() {
    let (mut stack, _) = run_ok("1\r2\t+\n");
    assert_eq!(pop_int(&mut stack), 3);
}

#[test]
fn unpack_pushes_current_cell_value() {
    let (mut stack, _) = run_ok("box type::int x 1 x pack 2 x pack x unpack");
    assert_eq!(pop_int(&mut stack), 2);
}

#[test]
fn boxes_are_shared_through_their_name() {
    // two handles to the same box see the same cell
    let (mut stack, _) = run_ok("box type::int x x 7 swap pack x unpack");
    assert_eq!(pop_int(&mut stack), 7);
}
