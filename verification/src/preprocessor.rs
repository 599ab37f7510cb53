//! The include pre-expansion step's text logic: finding `include(...)`
//! directives in source text and splicing replacement text over them.
//!
//! Reading the named files is the caller's concern; the scanner and the
//! splice are pure text functions. A directive is the word `include`,
//! optional whitespace, and a parenthesized operand of at least one
//! character that contains neither `)` nor a newline.

use vstd::prelude::*;
use crate::lexer::{is_trivia, str_eq_text};

verus! {

/// The first position at or after `p` that holds no whitespace, or the end
/// of the text.
pub open spec fn skip_ws_from(s: Seq<char>, p: int) -> int
    decreases s.len() - p,
{
    if p < 0 || p >= s.len() {
        s.len() as int
    } else if is_trivia(s[p]) {
        skip_ws_from(s, p + 1)
    } else {
        p
    }
}

/// The first closing parenthesis at or after `p`, unless a newline or the
/// end of the text comes first.
pub open spec fn find_close(s: Seq<char>, p: int) -> Option<int>
    decreases s.len() - p,
{
    if p < 0 || p >= s.len() {
        None
    } else if s[p] == ')' {
        Some(p)
    } else if s[p] == '\n' {
        None
    } else {
        find_close(s, p + 1)
    }
}

/// Whether an include directive starts at `p`; on a match, its total length
/// and the operand text between the parentheses.
pub open spec fn match_include_at(s: Seq<char>, p: int) -> Option<(int, Seq<char>)> {
    if 0 <= p && p + 7 <= s.len() && s.subrange(p, p + 7) == "include"@ {
        let j = skip_ws_from(s, p + 7);
        if j < s.len() && s[j] == '(' {
            match find_close(s, j + 1) {
                Some(k) => if k > j + 1 {
                    Some((k + 1 - p, s.subrange(j + 1, k)))
                } else {
                    None
                },
                None => None,
            }
        } else {
            None
        }
    } else {
        None
    }
}

/// The first include directive at or after `from`: its position, its length
/// and its operand text.
pub open spec fn find_include_from(s: Seq<char>, from: int) -> Option<(int, int, Seq<char>)>
    decreases s.len() - from,
{
    if from < 0 || from >= s.len() {
        None
    } else {
        match match_include_at(s, from) {
            Some((l, inner)) => Some((from, l, inner)),
            None => find_include_from(s, from + 1),
        }
    }
}

/// The text with the region `pos..pos+len` replaced by `repl`.
pub open spec fn spec_splice(s: Seq<char>, pos: int, len: int, repl: Seq<char>) -> Seq<char> {
    s.subrange(0, pos) + repl + s.subrange(pos + len, s.len() as int)
}

/// The include pre-expansion step over one source text. The caller reads
/// each directive's file and splices its contents in, re-scanning until no
/// directive is left.
#[derive(Debug)]
pub struct PreProcessor {
    source: String,
}

impl View for PreProcessor {
    type V = Seq<char>;

    closed spec fn view(&self) -> Seq<char> {
        self.source@
    }
}

impl PreProcessor {
    /// A pre-processor over the given source text.
    pub fn new(buffer: &str) -> (r: Self)
        ensures
            r@ == buffer@,
    {
        PreProcessor { source: buffer.to_owned() }
    }

    /// The source text held.
    pub fn source(&self) -> (r: &String)
        ensures
            r@ == self@,
    {
        &self.source
    }

    /// The first include directive at or after `from`: its position, its
    /// length, and its operand text.
    #[verifier::loop_isolation(false)]
    pub fn find_include(&self, from: usize) -> (r: Option<(usize, usize, String)>)
        ensures
            (match r {
                Some(t) => find_include_from(self@, from as int) == Some(
                    (t.0 as int, t.1 as int, t.2@),
                ) && t.0 + t.1 <= self@.len(),
                None => find_include_from(self@, from as int) is None,
            }),
    {
        let s = self.source.as_str();
        let n = s.unicode_len();
        let mut p = from;
        if p >= n {
            return None;
        }
        loop
            invariant
                from <= p <= n,
                find_include_from(self@, from as int) == find_include_from(self@, p as int),
            decreases n - p,
        {
            if p >= n {
                return None;
            }
            match self.match_include(p) {
                Some((l, inner)) => {
                    return Some((p, l, inner));
                },
                None => {
                    p = p + 1;
                },
            }
        }
    }

    /// Whether an include directive starts at `p`; on a match, its length
    /// and its operand text.
    #[verifier::loop_isolation(false)]
    fn match_include(&self, p: usize) -> (r: Option<(usize, String)>)
        requires
            p < self@.len(),
        ensures
            (match r {
                Some(t) => match_include_at(self@, p as int) == Some((t.0 as int, t.1@)) && p + t.0
                    <= self@.len(),
                None => match_include_at(self@, p as int) is None,
            }),
    {
        let s = self.source.as_str();
        let n = s.unicode_len();
        if n < 7 || p > n - 7 {
            proof {
                reveal_strlit("include");
                assert((p as int) + 7 > self@.len());
            }
            return None;
        }
        let word = s.substring_char(p, p + 7);
        if !str_eq_text(word, "include") {
            return None;
        }
        let mut j = p + 7;
        while j < n && crate::lexer::is_trivia_exec(s.get_char(j))
            invariant
                p + 7 <= j <= n,
                skip_ws_from(self@, p + 7) == skip_ws_from(self@, j as int),
            decreases n - j,
        {
            j = j + 1;
        }
        proof {
            assert(skip_ws_from(self@, j as int) == j as int);
        }
        if j >= n || s.get_char(j) != '(' {
            return None;
        }
        let mut k = j + 1;
        while k < n && s.get_char(k) != ')' && s.get_char(k) != '\n'
            invariant
                j + 1 <= k <= n,
                find_close(self@, j + 1) == find_close(self@, k as int),
            decreases n - k,
        {
            k = k + 1;
        }
        if k >= n || s.get_char(k) != ')' {
            proof {
                assert(find_close(self@, j + 1) is None);
            }
            return None;
        }
        proof {
            assert(find_close(self@, j + 1) == Some(k as int));
        }
        if k == j + 1 {
            return None;
        }
        let inner = s.substring_char(j + 1, k).to_owned();
        Some((k + 1 - p, inner))
    }

    /// The source text with the region `pos..pos+len` replaced by
    /// `contents`.
    pub fn splice(&self, pos: usize, len: usize, contents: &str) -> (r: String)
        requires
            pos + len <= self@.len(),
        ensures
            r@ == spec_splice(self@, pos as int, len as int, contents@),
    {
        let s = self.source.as_str();
        let n = s.unicode_len();
        let mut out = s.substring_char(0, pos).to_owned();
        out.append(contents);
        out.append(s.substring_char(pos + len, n));
        proof {
            assert(out@ =~= spec_splice(self@, pos as int, len as int, contents@));
        }
        out
    }
}

} // verus!
