use roth::error::RuntimeError;
use roth::preprocessor::PreProcessor;
use roth::span::Span;
use roth::stack::Stack;
use roth::token::{Token, TokenKind};
use roth::val::{Val, ValKind, ValType};

fn int_val(v: i128) -> Val {
    Val::new(Span::new(0, 1), ValKind::Int { val: v })
}

#[test]
fn span_merge_runs_to_operator_end() {
    let a = Span::new(3, 2);
    let op = Span::new(10, 4);
    let m = a.merge(op);
    assert_eq!(m.offset, 3);
    assert_eq!(m.len, 11);
}

#[test]
fn span_merge_clamps_backwards_operator() {
    let a = Span::new(9, 2);
    let op = Span::new(1, 2);
    let m = a.merge(op);
    assert_eq!(m.offset, 9);
    assert_eq!(m.len, 0);
}

#[test]
fn token_new_inflates_string_span() {
    let t = Token::new(String::from("ab"), 4, TokenKind::String);
    assert_eq!(t.span.offset, 4);
    assert_eq!(t.span.len, 4);
    let u = Token::new(String::from("ab"), 4, TokenKind::Ident);
    assert_eq!(u.span.len, 2);
}

#[test]
fn val_accessors() {
    let v = Val::new(Span::new(2, 3), ValKind::Bool { val: true });
    assert_eq!(v.span().offset, 2);
    assert!(matches!(v.kind(), ValKind::Bool { val: true }));
}

#[test]
fn display_strings() {
    assert_eq!(int_val(0).display_string(), "0");
    assert_eq!(int_val(907).display_string(), "907");
    assert_eq!(int_val(-1).display_string(), "-1");
    assert_eq!(int_val(i128::MAX).display_string(), "170141183460469231731687303715884105727");
    assert_eq!(int_val(i128::MIN).display_string(), "-170141183460469231731687303715884105728");
    let s = Val::new(Span::new(0, 1), ValKind::Str { val: String::from("hey") });
    assert_eq!(s.display_string(), "hey");
    let t = Val::new(Span::new(0, 1), ValKind::Type { val: ValType::BoxedStr });
    assert_eq!(t.display_string(), "type::box<str>");
    assert_eq!(ValType::Int.display_string(), "type::int");
    assert_eq!(ValType::Bool.display_string(), "type::bool");
}

#[test]
fn val_add_merges_spans_and_sums() {
    let a = Val::new(Span::new(0, 1), ValKind::Int { val: 2 });
    let b = Val::new(Span::new(2, 1), ValKind::Int { val: 40 });
    let r = a.add(b, Span::new(4, 1)).unwrap();
    assert!(matches!(r.kind, ValKind::Int { val: 42 }));
    assert_eq!(r.span.offset, 0);
    assert_eq!(r.span.len, 5);
}

#[test]
fn val_div_rejects_zero() {
    let a = int_val(1);
    let b = int_val(0);
    let e = a.div(b, Span::new(4, 1)).unwrap_err();
    assert!(matches!(e, RuntimeError::InvalidDiv { .. }));
}

#[test]
fn val_mul_overflow_is_defined() {
    let a = int_val(i128::MAX);
    let b = int_val(2);
    let e = a.mul(b, Span::new(4, 1)).unwrap_err();
    assert!(matches!(e, RuntimeError::IntegerOverflow { .. }));
}

#[test]
fn val_div_min_by_minus_one_overflows() {
    let a = int_val(i128::MIN);
    let b = int_val(-1);
    let e = a.div(b, Span::new(4, 1)).unwrap_err();
    assert!(matches!(e, RuntimeError::IntegerOverflow { .. }));
}

#[test]
fn stack_push_pop_peek() {
    let mut s = Stack::new();
    assert!(matches!(s.pop(), Err(RuntimeError::EmptyStackError)));
    assert!(matches!(s.peek(), Err(RuntimeError::EmptyStackError)));
    s.push(int_val(1));
    s.push(int_val(2));
    assert_eq!(s.len(), 2);
    assert!(matches!(s.peek().unwrap().kind, ValKind::Int { val: 2 }));
    assert!(matches!(s.pop().unwrap().kind, ValKind::Int { val: 2 }));
    assert!(matches!(s.pop().unwrap().kind, ValKind::Int { val: 1 }));
}

#[test]
fn stack_swap_on_single_value_consumes_it() {
    let mut s = Stack::new();
    s.push(int_val(1));
    assert!(matches!(s.swap(), Err(RuntimeError::EmptyStackError)));
    assert_eq!(s.len(), 0);
}

#[test]
fn stack_rot_needs_three() {
    let mut s = Stack::new();
    s.push(int_val(1));
    s.push(int_val(2));
    assert!(matches!(s.rot(), Err(RuntimeError::EmptyStackError)));
}

#[test]
fn stack_clone_preserves_values() {
    let mut s = Stack::new();
    s.push(int_val(7));
    let mut c = s.clone();
    assert!(matches!(c.pop().unwrap().kind, ValKind::Int { val: 7 }));
    assert_eq!(s.len(), 1);
}

#[test]
fn find_include_locates_first_directive() {
    let p = PreProcessor::new("1 2 include(\"lib.roth\") +");
    let (pos, len, inner) = p.find_include(0).unwrap();
    assert_eq!(pos, 4);
    assert_eq!(len, 19);
    assert_eq!(inner, "\"lib.roth\"");
}

#[test]
fn find_include_allows_whitespace_before_paren() {
    let p = PreProcessor::new("include  (\"x\")");
    let (pos, len, inner) = p.find_include(0).unwrap();
    assert_eq!(pos, 0);
    assert_eq!(len, 14);
    assert_eq!(inner, "\"x\"");
}

#[test]
fn find_include_rejects_broken_directives() {
    assert!(PreProcessor::new("1 2 +").find_include(0).is_none());
    assert!(PreProcessor::new("include(").find_include(0).is_none());
    assert!(PreProcessor::new("include()").find_include(0).is_none());
    assert!(PreProcessor::new("include(a\nb)").find_include(0).is_none());
    assert!(PreProcessor::new("includ(\"x\")").find_include(0).is_none());
}

#[test]
fn find_include_respects_start_position() {
    let p = PreProcessor::new("include(\"a\") include(\"b\")");
    let (pos, _, inner) = p.find_include(1).unwrap();
    assert_eq!(pos, 13);
    assert_eq!(inner, "\"b\"");
}

#[test]
fn splice_replaces_directive() {
    let p = PreProcessor::new("x include(\"f\") y");
    let (pos, len, _) = p.find_include(0).unwrap();
    let out = p.splice(pos, len, "1 2 +");
    assert_eq!(out, "x 1 2 + y");
}

#[test]
fn preprocessor_keeps_source() {
    let p = PreProcessor::new("abc");
    assert_eq!(p.source(), "abc");
}
