//! The lexer: raw source text to an ordered sequence of tokens.
//!
//! Scanning runs left to right. Whitespace separates tokens except inside an
//! open string literal; a token whose first two characters are `//` opens a
//! line comment, discarded through the next newline. Classification tries
//! the fixed keyword table first, then string, integer and boolean literal
//! shapes, and falls back to `Ident` for any other word.

use vstd::prelude::*;
use crate::error::{ParseError, ParseErrorV};
use crate::token::{Token, TokenKind, TokenV, spec_token_span};

verus! {

/// The characters that separate tokens: space, newline, tab and carriage
/// return.
pub open spec fn is_trivia(c: char) -> bool {
    c == ' ' || c == '\n' || c == '\t' || c == '\r'
}

pub fn is_trivia_exec(c: char) -> (r: bool)
    ensures
        r == is_trivia(c),
{
    c == ' ' || c == '\n' || c == '\t' || c == '\r'
}

/// A decimal digit.
pub open spec fn is_digit(c: char) -> bool {
    '0' as u32 <= c as u32 && c as u32 <= '9' as u32
}

/// The numeric value of a digit character.
pub open spec fn digit_val(c: char) -> int {
    c as u32 - '0' as u32
}

pub open spec fn all_digits(s: Seq<char>) -> bool {
    forall|i: int| 0 <= i < s.len() ==> is_digit(#[trigger] s[i])
}

/// The value of a digit string, most significant digit first.
pub open spec fn digits_val(s: Seq<char>) -> int
    decreases s.len(),
{
    if s.len() == 0 {
        0
    } else {
        digits_val(s.drop_last()) * 10 + digit_val(s.last())
    }
}

/// The signed value an integer literal denotes: an optional `+` or `-`
/// followed by digits. Meaningful only on text of that shape.
pub open spec fn int_literal_value(s: Seq<char>) -> int {
    if s.len() > 0 && s[0] == '-' {
        -digits_val(s.subrange(1, s.len() as int))
    } else if s.len() > 0 && s[0] == '+' {
        digits_val(s.subrange(1, s.len() as int))
    } else {
        digits_val(s)
    }
}

/// Whether the text is a valid integer literal of the value model: an
/// optional sign, at least one digit, nothing else, and a value that fits
/// the 128-bit signed range.
pub open spec fn is_int_literal(s: Seq<char>) -> bool {
    let ds = if s.len() > 0 && (s[0] == '-' || s[0] == '+') {
        s.subrange(1, s.len() as int)
    } else {
        s
    };
    ds.len() > 0 && all_digits(ds) && i128::MIN <= int_literal_value(s) && int_literal_value(s)
        <= i128::MAX
}

/// Whether the text is a boolean literal.
pub open spec fn is_bool_literal(s: Seq<char>) -> bool {
    s == "true"@ || s == "false"@
}

proof fn lemma_digits_val_nonneg(s: Seq<char>)
    requires
        all_digits(s),
    ensures
        digits_val(s) >= 0,
    decreases s.len(),
{
    if s.len() > 0 {
        assert(all_digits(s.drop_last()));
        lemma_digits_val_nonneg(s.drop_last());
    }
}

/// Extending a digit string can only grow its value.
proof fn lemma_digits_val_monotone(s: Seq<char>, i: int, j: int)
    requires
        all_digits(s),
        0 <= i <= j <= s.len(),
    ensures
        digits_val(s.subrange(0, i)) <= digits_val(s.subrange(0, j)),
    decreases j - i,
{
    if i < j {
        lemma_digits_val_monotone(s, i, j - 1);
        let p = s.subrange(0, j);
        assert(p.drop_last() =~= s.subrange(0, j - 1));
        assert(all_digits(s.subrange(0, j - 1)));
        lemma_digits_val_nonneg(s.subrange(0, j - 1));
        assert(digits_val(p) == digits_val(s.subrange(0, j - 1)) * 10 + digit_val(s[j - 1]));
    }
}

fn is_digit_exec(c: char) -> (r: bool)
    ensures
        r == is_digit(c),
{
    let u = c as u32;
    48 <= u && u <= 57
}

/// Parse the text as an integer literal of the value model; `None` exactly
/// when the text is no valid literal (wrong shape, or out of range).
#[verifier::loop_isolation(false)]
pub fn parse_int(t: &str) -> (r: Option<i128>)
    ensures
        is_int_literal(t@) ==> r == Some(int_literal_value(t@) as i128),
        !is_int_literal(t@) ==> r is None,
{
    let n = t.unicode_len();
    if n == 0 {
        return None;
    }
    let c0 = t.get_char(0);
    let neg = c0 == '-';
    let sign: usize = if c0 == '-' || c0 == '+' {
        1
    } else {
        0
    };
    let ghost ds = t@.subrange(sign as int, n as int);
    proof {
        if sign == 0 {
            assert(ds =~= t@);
        }
    }
    if sign >= n {
        proof {
            assert(ds.len() == 0);
        }
        return None;
    }
    let mut i: usize = sign;
    let mut acc: i128 = 0;
    while i < n
        invariant
            sign <= i <= n,
            n == t@.len(),
            sign == 1 ==> (t@[0] == '-' || t@[0] == '+'),
            sign == 0 ==> !(t@[0] == '-' || t@[0] == '+'),
            sign == 0 ==> ds == t@,
            sign < n,
            neg == (t@[0] == '-'),
            ds == t@.subrange(sign as int, n as int),
            all_digits(ds.subrange(0, i - sign)),
            acc == -digits_val(ds.subrange(0, i - sign)),
            i128::MIN <= acc <= 0,
        decreases n - i,
    {
        let c = t.get_char(i);
        if !is_digit_exec(c) {
            proof {
                assert(ds[i - sign] == c);
                assert(!all_digits(ds));
            }
            return None;
        }
        let d: i128 = ((c as u32) - 48) as i128;
        let ghost pref = ds.subrange(0, i - sign);
        let ghost pref1 = ds.subrange(0, i + 1 - sign);
        proof {
            assert(pref1.drop_last() =~= pref);
            assert(pref1.last() == ds[i - sign]);
            assert(ds[i - sign] == c);
            assert(all_digits(pref1));
            assert(digits_val(pref1) == digits_val(pref) * 10 + digit_val(c));
        }
        let step = match acc.checked_mul(10) {
            Some(a) => a.checked_sub(d),
            None => None,
        };
        match step {
            Some(b) => {
                acc = b;
            },
            None => {
                proof {
                    // The prefix already exceeds the representable
                    // magnitude, so the whole literal is out of range
                    // whatever its sign.
                    assert(digits_val(pref1) > (i128::MAX as int) + 1);
                    if all_digits(ds) {
                        lemma_digits_val_monotone(ds, i + 1 - sign, ds.len() as int);
                        assert(ds.subrange(0, ds.len() as int) =~= ds);
                        assert(digits_val(ds) > (i128::MAX as int) + 1);
                    }
                }
                return None;
            },
        }
        i = i + 1;
    }
    proof {
        assert(ds.subrange(0, n - sign) =~= ds);
        assert(all_digits(ds));
        assert(acc == -digits_val(ds));
        if t@[0] == '-' {
            assert(int_literal_value(t@) == -digits_val(ds));
        } else {
            assert(int_literal_value(t@) == digits_val(ds));
        }
    }
    if neg {
        Some(acc)
    } else {
        if acc == i128::MIN {
            None
        } else {
            Some(-acc)
        }
    }
}

/// The fixed keyword and operator table: an exact text match gives the
/// token kind.
pub open spec fn keyword_kind(s: Seq<char>) -> Option<TokenKind> {
    if s == "+"@ {
        Some(TokenKind::Add)
    } else if s == "-"@ {
        Some(TokenKind::Sub)
    } else if s == "*"@ {
        Some(TokenKind::Mul)
    } else if s == "/"@ {
        Some(TokenKind::Div)
    } else if s == "print"@ {
        Some(TokenKind::Print)
    } else if s == "or"@ {
        Some(TokenKind::Or)
    } else if s == "and"@ {
        Some(TokenKind::And)
    } else if s == "not"@ {
        Some(TokenKind::Not)
    } else if s == "eq"@ {
        Some(TokenKind::Eq)
    } else if s == "<"@ {
        Some(TokenKind::LessThan)
    } else if s == ">"@ {
        Some(TokenKind::GreaterThan)
    } else if s == "<="@ {
        Some(TokenKind::LessThanEq)
    } else if s == ">="@ {
        Some(TokenKind::GreaterThanEq)
    } else if s == "if"@ {
        Some(TokenKind::If)
    } else if s == "end"@ {
        Some(TokenKind::End)
    } else if s == "macro"@ {
        Some(TokenKind::Macro)
    } else if s == "dup"@ {
        Some(TokenKind::Dup)
    } else if s == "drop"@ {
        Some(TokenKind::Drop)
    } else if s == "swap"@ {
        Some(TokenKind::Swap)
    } else if s == "over"@ {
        Some(TokenKind::Over)
    } else if s == "rot"@ {
        Some(TokenKind::Rot)
    } else if s == "type"@ {
        Some(TokenKind::Type)
    } else if s == "type::int"@ {
        Some(TokenKind::TypeInt)
    } else if s == "type::str"@ {
        Some(TokenKind::TypeStr)
    } else if s == "type::bool"@ {
        Some(TokenKind::TypeBool)
    } else if s == "type::box<int>"@ {
        Some(TokenKind::TypeBoxedInt)
    } else if s == "type::box<str>"@ {
        Some(TokenKind::TypeBoxedStr)
    } else if s == "type::box<bool>"@ {
        Some(TokenKind::TypeBoxedBool)
    } else if s == "assert"@ {
        Some(TokenKind::Assert)
    } else if s == "box"@ {
        Some(TokenKind::Box)
    } else if s == "pack"@ {
        Some(TokenKind::Pack)
    } else if s == "unpack"@ {
        Some(TokenKind::Unpack)
    } else {
        None
    }
}

/// Character-by-character equality of two string slices.
#[verifier::loop_isolation(false)]
pub fn str_eq_text(a: &str, b: &str) -> (r: bool)
    ensures
        r == (a@ == b@),
{
    let alen = a.unicode_len();
    let blen = b.unicode_len();
    if alen != blen {
        return false;
    }
    let mut i: usize = 0;
    while i < alen
        invariant
            i <= alen,
            alen == a@.len(),
            alen == b@.len(),
            forall|j: int| 0 <= j < i ==> a@[j] == b@[j],
        decreases alen - i,
    {
        if a.get_char(i) != b.get_char(i) {
            return false;
        }
        i = i + 1;
    }
    proof {
        assert(a@ =~= b@);
    }
    true
}

fn keyword_kind_exec(t: &str) -> (r: Option<TokenKind>)
    ensures
        r == keyword_kind(t@),
{
    if str_eq_text(t, "+") {
        Some(TokenKind::Add)
    } else if str_eq_text(t, "-") {
        Some(TokenKind::Sub)
    } else if str_eq_text(t, "*") {
        Some(TokenKind::Mul)
    } else if str_eq_text(t, "/") {
        Some(TokenKind::Div)
    } else if str_eq_text(t, "print") {
        Some(TokenKind::Print)
    } else if str_eq_text(t, "or") {
        Some(TokenKind::Or)
    } else if str_eq_text(t, "and") {
        Some(TokenKind::And)
    } else if str_eq_text(t, "not") {
        Some(TokenKind::Not)
    } else if str_eq_text(t, "eq") {
        Some(TokenKind::Eq)
    } else if str_eq_text(t, "<") {
        Some(TokenKind::LessThan)
    } else if str_eq_text(t, ">") {
        Some(TokenKind::GreaterThan)
    } else if str_eq_text(t, "<=") {
        Some(TokenKind::LessThanEq)
    } else if str_eq_text(t, ">=") {
        Some(TokenKind::GreaterThanEq)
    } else if str_eq_text(t, "if") {
        Some(TokenKind::If)
    } else if str_eq_text(t, "end") {
        Some(TokenKind::End)
    } else if str_eq_text(t, "macro") {
        Some(TokenKind::Macro)
    } else if str_eq_text(t, "dup") {
        Some(TokenKind::Dup)
    } else if str_eq_text(t, "drop") {
        Some(TokenKind::Drop)
    } else if str_eq_text(t, "swap") {
        Some(TokenKind::Swap)
    } else if str_eq_text(t, "over") {
        Some(TokenKind::Over)
    } else if str_eq_text(t, "rot") {
        Some(TokenKind::Rot)
    } else if str_eq_text(t, "type") {
        Some(TokenKind::Type)
    } else if str_eq_text(t, "type::int") {
        Some(TokenKind::TypeInt)
    } else if str_eq_text(t, "type::str") {
        Some(TokenKind::TypeStr)
    } else if str_eq_text(t, "type::bool") {
        Some(TokenKind::TypeBool)
    } else if str_eq_text(t, "type::box<int>") {
        Some(TokenKind::TypeBoxedInt)
    } else if str_eq_text(t, "type::box<str>") {
        Some(TokenKind::TypeBoxedStr)
    } else if str_eq_text(t, "type::box<bool>") {
        Some(TokenKind::TypeBoxedBool)
    } else if str_eq_text(t, "assert") {
        Some(TokenKind::Assert)
    } else if str_eq_text(t, "box") {
        Some(TokenKind::Box)
    } else if str_eq_text(t, "pack") {
        Some(TokenKind::Pack)
    } else if str_eq_text(t, "unpack") {
        Some(TokenKind::Unpack)
    } else {
        None
    }
}

/// Classify a scanned word into a token: keyword table first, then string,
/// integer and boolean literal shapes, then `Ident`. The only failure is an
/// opened but unclosed string literal.
pub open spec fn spec_classify(text: Seq<char>, start: int) -> Result<TokenV, ParseErrorV> {
    match keyword_kind(text) {
        Some(k) => Ok(TokenV { span: spec_token_span(text, start, k), text, kind: k }),
        None => {
            if text.len() > 0 && text[0] == '"' {
                if text.len() >= 2 && text[text.len() - 1] == '"' {
                    let inner = text.subrange(1, text.len() - 1);
                    Ok(
                        TokenV {
                            span: spec_token_span(inner, start, TokenKind::String),
                            text: inner,
                            kind: TokenKind::String,
                        },
                    )
                } else {
                    Err(ParseErrorV::UnterminatedStringLiteral)
                }
            } else if is_int_literal(text) {
                Ok(
                    TokenV {
                        span: spec_token_span(text, start, TokenKind::Number),
                        text,
                        kind: TokenKind::Number,
                    },
                )
            } else if is_bool_literal(text) {
                Ok(
                    TokenV {
                        span: spec_token_span(text, start, TokenKind::Boolean),
                        text,
                        kind: TokenKind::Boolean,
                    },
                )
            } else {
                Ok(
                    TokenV {
                        span: spec_token_span(text, start, TokenKind::Ident),
                        text,
                        kind: TokenKind::Ident,
                    },
                )
            }
        },
    }
}

/// Classify the word `s[start..pos]`.
fn classify_exec(s: &str, start: usize, pos: usize) -> (r: Result<Token, ParseError>)
    requires
        start < pos <= s@.len(),
    ensures
        (match r {
            Ok(t) => spec_classify(s@.subrange(start as int, pos as int), start as int) == Ok::<
                TokenV,
                ParseErrorV,
            >(t@),
            Err(e) => spec_classify(s@.subrange(start as int, pos as int), start as int) == Err::<
                TokenV,
                ParseErrorV,
            >(e@),
        }),
{
    let text = s.substring_char(start, pos);
    match keyword_kind_exec(text) {
        Some(k) => Ok(Token::new(text.to_owned(), start, k)),
        None => {
            if text.get_char(0) == '"' {
                if pos - start >= 2 && text.get_char(pos - start - 1) == '"' {
                    let inner = s.substring_char(start + 1, pos - 1);
                    proof {
                        assert(inner@ =~= s@.subrange(start as int, pos as int).subrange(
                            1,
                            pos - start - 1,
                        ));
                    }
                    Ok(Token::new(inner.to_owned(), start, TokenKind::String))
                } else {
                    Err(ParseError::UnterminatedStringLiteral)
                }
            } else if parse_int(text).is_some() {
                Ok(Token::new(text.to_owned(), start, TokenKind::Number))
            } else if str_eq_text(text, "true") || str_eq_text(text, "false") {
                Ok(Token::new(text.to_owned(), start, TokenKind::Boolean))
            } else {
                Ok(Token::new(text.to_owned(), start, TokenKind::Ident))
            }
        },
    }
}

/// Whether a partially scanned word is an open string literal: it starts
/// with a quote and does not yet end with a second one.
pub open spec fn in_mid_of_string(buf: Seq<char>) -> bool {
    buf.len() > 0 && buf[0] == '"' && !(buf.len() >= 2 && buf[buf.len() - 1] == '"')
}

/// Lexing, between tokens: skip trivia, stop at the end of input, and start
/// scanning a word at anything else.
pub open spec fn lex_from(s: Seq<char>, pos: int, acc: Seq<TokenV>) -> Result<
    Seq<TokenV>,
    ParseErrorV,
>
    decreases s.len() - pos, 1int,
{
    if pos < 0 || pos >= s.len() {
        Ok(acc)
    } else if is_trivia(s[pos]) {
        lex_from(s, pos + 1, acc)
    } else {
        scan_word(s, pos, pos, acc)
    }
}

/// Lexing, inside the word that began at `start` and has been scanned up to
/// `pos` exclusive. A trivia character outside an open string literal ends
/// the word; a word whose first two characters are `//` becomes a comment;
/// the end of input ends the word.
pub open spec fn scan_word(s: Seq<char>, pos: int, start: int, acc: Seq<TokenV>) -> Result<
    Seq<TokenV>,
    ParseErrorV,
>
    decreases s.len() - pos, 0int,
{
    if pos < 0 || pos >= s.len() {
        if pos > start {
            match spec_classify(s.subrange(start, pos), start) {
                Ok(t) => Ok(acc.push(t)),
                Err(e) => Err(e),
            }
        } else {
            Ok(acc)
        }
    } else if is_trivia(s[pos]) && !in_mid_of_string(s.subrange(start, pos)) {
        if pos > start {
            match spec_classify(s.subrange(start, pos), start) {
                Ok(t) => lex_from(s, pos + 1, acc.push(t)),
                Err(e) => Err(e),
            }
        } else {
            lex_from(s, pos + 1, acc)
        }
    } else {
        if pos + 1 - start == 2 && s[start] == '/' && s[pos] == '/' {
            eat_comment(s, pos + 1, acc)
        } else {
            scan_word(s, pos + 1, start, acc)
        }
    }
}

/// Lexing, inside a line comment: discard characters through the next
/// newline, or to the end of input.
pub open spec fn eat_comment(s: Seq<char>, pos: int, acc: Seq<TokenV>) -> Result<
    Seq<TokenV>,
    ParseErrorV,
>
    decreases s.len() - pos, 0int,
{
    if pos < 0 || pos >= s.len() {
        Ok(acc)
    } else if s[pos] == '\n' {
        lex_from(s, pos + 1, acc)
    } else {
        eat_comment(s, pos + 1, acc)
    }
}

/// What lexing the whole source yields.
pub open spec fn spec_lex(s: Seq<char>) -> Result<Seq<TokenV>, ParseErrorV> {
    lex_from(s, 0, Seq::empty())
}

/// The images of a token vector.
pub open spec fn toks_view(s: Seq<Token>) -> Seq<TokenV> {
    s.map_values(|t: Token| t@)
}

/// The well-formedness of one token that the parser relies on: a `Number`
/// token's text is a valid integer literal, a `Boolean` token's text a
/// boolean literal, and no token is the reserved `Until`.
pub open spec fn token_wf1(t: TokenV) -> bool {
    &&& t.kind is Number ==> is_int_literal(t.text)
    &&& t.kind is Boolean ==> is_bool_literal(t.text)
    &&& !(t.kind is Until)
}

/// Well-formedness of every token in a sequence.
pub open spec fn tokens_wf(toks: Seq<TokenV>) -> bool {
    forall|i: int| 0 <= i < toks.len() ==> token_wf1(#[trigger] toks[i])
}

/// The image of a token vector indexes pointwise.
pub proof fn lemma_toks_view(s: Seq<Token>)
    ensures
        toks_view(s).len() == s.len(),
        forall|i: int| 0 <= i < s.len() ==> (#[trigger] toks_view(s)[i]) == s[i]@,
{
}

proof fn lemma_classify_wf(text: Seq<char>, start: int)
    ensures
        spec_classify(text, start) matches Ok(t) ==> token_wf1(t),
{
    reveal_strlit("true");
    reveal_strlit("false");
    match spec_classify(text, start) {
        Ok(t) => {
            if t.kind is Boolean {
                assert(is_bool_literal(t.text));
            }
        },
        Err(_) => {},
    }
}

proof fn lemma_lex_from_wf(s: Seq<char>, pos: int, acc: Seq<TokenV>)
    requires
        tokens_wf(acc),
    ensures
        lex_from(s, pos, acc) matches Ok(toks) ==> tokens_wf(toks),
    decreases s.len() - pos, 1int,
{
    if pos < 0 || pos >= s.len() {
    } else if is_trivia(s[pos]) {
        lemma_lex_from_wf(s, pos + 1, acc);
    } else {
        lemma_scan_word_wf(s, pos, pos, acc);
    }
}

proof fn lemma_scan_word_wf(s: Seq<char>, pos: int, start: int, acc: Seq<TokenV>)
    requires
        tokens_wf(acc),
    ensures
        scan_word(s, pos, start, acc) matches Ok(toks) ==> tokens_wf(toks),
    decreases s.len() - pos, 0int,
{
    if pos < 0 || pos >= s.len() {
        lemma_classify_wf(s.subrange(start, pos), start);
        if pos > start {
            match spec_classify(s.subrange(start, pos), start) {
                Ok(t) => {
                    assert(tokens_wf(acc.push(t)));
                },
                Err(_) => {},
            }
        }
    } else if is_trivia(s[pos]) && !in_mid_of_string(s.subrange(start, pos)) {
        lemma_classify_wf(s.subrange(start, pos), start);
        if pos > start {
            match spec_classify(s.subrange(start, pos), start) {
                Ok(t) => {
                    assert(tokens_wf(acc.push(t)));
                    lemma_lex_from_wf(s, pos + 1, acc.push(t));
                },
                Err(_) => {},
            }
        } else {
            lemma_lex_from_wf(s, pos + 1, acc);
        }
    } else {
        if pos + 1 - start == 2 && s[start] == '/' && s[pos] == '/' {
            lemma_eat_comment_wf(s, pos + 1, acc);
        } else {
            lemma_scan_word_wf(s, pos + 1, start, acc);
        }
    }
}

proof fn lemma_eat_comment_wf(s: Seq<char>, pos: int, acc: Seq<TokenV>)
    requires
        tokens_wf(acc),
    ensures
        eat_comment(s, pos, acc) matches Ok(toks) ==> tokens_wf(toks),
    decreases s.len() - pos, 0int,
{
    if pos < 0 || pos >= s.len() {
    } else if s[pos] == '\n' {
        lemma_lex_from_wf(s, pos + 1, acc);
    } else {
        lemma_eat_comment_wf(s, pos + 1, acc);
    }
}

/// Whatever the lexer accepts is well formed: the parser can trust literal
/// shapes, and the reserved `Until` never appears.
pub proof fn lemma_lex_tokens_wf(s: Seq<char>)
    ensures
        spec_lex(s) matches Ok(toks) ==> tokens_wf(toks),
{
    lemma_lex_from_wf(s, 0, Seq::empty());
}

/// The image of the lexer's result.
pub open spec fn lex_res_view(r: Result<Vec<Token>, ParseError>) -> Result<
    Seq<TokenV>,
    ParseErrorV,
> {
    match r {
        Ok(v) => Ok(toks_view(v@)),
        Err(e) => Err(e@),
    }
}

/// Scan one word beginning at `start` (a non-trivia position): classify it
/// at its boundary, pushing the token, and return the position to resume
/// scanning at. A word opening a line comment produces no token.
#[verifier::loop_isolation(false)]
fn scan_token_exec(s: &str, start: usize, tokens: &mut Vec<Token>) -> (r: Result<usize, ParseError>)
    requires
        start < s@.len(),
        !is_trivia(s@[start as int]),
    ensures
        (match r {
            Ok(p1) => start < p1 <= s@.len() && lex_from(s@, p1 as int, toks_view(final(tokens)@))
                == scan_word(s@, start as int, start as int, toks_view(old(tokens)@)),
            Err(e) => scan_word(s@, start as int, start as int, toks_view(old(tokens)@)) == Err::<
                Seq<TokenV>,
                ParseErrorV,
            >(e@),
        }),
{
    let n = s.unicode_len();
    let mut pos = start;
    loop
        invariant
            start <= pos <= n,
            pos == start ==> pos < n,
            tokens@ == old(tokens)@,
            scan_word(s@, pos as int, start as int, toks_view(tokens@)) == scan_word(
                s@,
                start as int,
                start as int,
                toks_view(tokens@),
            ),
        decreases n - pos,
    {
        if pos >= n {
            let ghost toks0 = tokens@;
            match classify_exec(s, start, pos) {
                Ok(t) => {
                    tokens.push(t);
                    proof {
                        assert(toks_view(tokens@) =~= toks_view(toks0).push(t@));
                    }
                    return Ok(pos);
                },
                Err(e) => {
                    return Err(e);
                },
            }
        }
        let c = s.get_char(pos);
        let in_mid = pos > start && s.get_char(start) == '"' && !(pos - start >= 2 && s.get_char(
            pos - 1,
        ) == '"');
        proof {
            let buf = s@.subrange(start as int, pos as int);
            assert(in_mid == in_mid_of_string(buf));
        }
        if is_trivia_exec(c) && !in_mid {
            let ghost toks0 = tokens@;
            match classify_exec(s, start, pos) {
                Ok(t) => {
                    tokens.push(t);
                    proof {
                        assert(toks_view(tokens@) =~= toks_view(toks0).push(t@));
                    }
                    return Ok(pos + 1);
                },
                Err(e) => {
                    return Err(e);
                },
            }
        } else if pos == start + 1 && s.get_char(start) == '/' && c == '/' {
            pos = pos + 1;
            while pos < n && s.get_char(pos) != '\n'
                invariant
                    start + 2 <= pos <= n,
                    tokens@ == old(tokens)@,
                    eat_comment(s@, pos as int, toks_view(tokens@)) == scan_word(
                        s@,
                        start as int,
                        start as int,
                        toks_view(tokens@),
                    ),
                decreases n - pos,
            {
                pos = pos + 1;
            }
            if pos < n {
                pos = pos + 1;
            }
            return Ok(pos);
        } else {
            pos = pos + 1;
        }
    }
}

/// The lexer: holds the source text to scan. It keeps no state across
/// calls; lexing consumes it.
#[derive(Debug)]
pub struct Lexer {
    source: String,
}

impl View for Lexer {
    type V = Seq<char>;

    closed spec fn view(&self) -> Seq<char> {
        self.source@
    }
}

impl Lexer {
    /// A lexer over the given source text.
    pub fn new(buffer: &str) -> (r: Self)
        ensures
            r@ == buffer@,
    {
        Lexer { source: buffer.to_owned() }
    }

    /// Scan the whole source into tokens, in source order.
    #[verifier::loop_isolation(false)]
    pub fn lex(self) -> (r: Result<Vec<Token>, ParseError>)
        ensures
            lex_res_view(r) == spec_lex(self@),
    {
        let source = self.source;
        let s = source.as_str();
        let n = s.unicode_len();
        let mut tokens: Vec<Token> = Vec::new();
        let mut pos: usize = 0;
        proof {
            assert(toks_view(tokens@) =~= Seq::<TokenV>::empty());
            assert(s@ == self@);
        }
        loop
            invariant
                pos <= n,
                spec_lex(self@) == lex_from(s@, pos as int, toks_view(tokens@)),
            decreases n - pos,
        {
            let ghost pos_head = pos as int;
            while pos < n && is_trivia_exec(s.get_char(pos))
                invariant
                    pos_head <= pos <= n,
                    spec_lex(self@) == lex_from(s@, pos as int, toks_view(tokens@)),
                decreases n - pos,
            {
                pos = pos + 1;
            }
            if pos >= n {
                return Ok(tokens);
            }
            match scan_token_exec(s, pos, &mut tokens) {
                Ok(p1) => {
                    pos = p1;
                },
                Err(e) => {
                    return Err(e);
                },
            }
        }
    }
}

} // verus!
