//! Splitting text into tokens.
//!
//! Scanning goes left to right. Whitespace and commas are skipped. Then one
//! lexeme is taken: `~@`; one of the characters `[ ] { } ( ) ' ` ~ ^ @`; a
//! string in double quotes, where a backslash escapes the next character; a
//! comment from `;` to the end of the line; or else the longest run of
//! characters that are not delimiters. Each lexeme is then classified by
//! [`tokenize`]. An opening quote that is never closed is skipped.

use vstd::prelude::*;
use crate::types::{Token, TokenView};
use crate::text::{chars_of, push_char, string_of};

verus! {

/// White space in the sense of Unicode, as `char::is_whitespace` has it.
pub open spec fn is_space(c: char) -> bool {
    let u = c as u32;
    (0x09 <= u && u <= 0x0D) || u == 0x20 || u == 0x85 || u == 0xA0 || u == 0x1680
        || (0x2000 <= u && u <= 0x200A) || u == 0x2028 || u == 0x2029 || u == 0x202F
        || u == 0x205F || u == 0x3000
}

/// Characters skipped between lexemes.
pub open spec fn is_separator(c: char) -> bool {
    is_space(c) || c == ','
}

/// Characters that form a lexeme of their own.
pub open spec fn is_special(c: char) -> bool {
    c == '[' || c == ']' || c == '{' || c == '}' || c == '(' || c == ')' || c == '\''
        || c == '`' || c == '~' || c == '^' || c == '@'
}

/// Characters that end a bare atom.
pub open spec fn is_delimiter(c: char) -> bool {
    is_space(c) || c == '[' || c == ']' || c == '{' || c == '}' || c == '(' || c == ')'
        || c == '\'' || c == '"' || c == '`' || c == ',' || c == ';'
}

pub open spec fn is_digit(c: char) -> bool {
    '0' <= c && c <= '9'
}

/// The end of the run of atom characters of `s` that starts at `p`.
pub open spec fn atom_end(s: Seq<char>, p: int) -> int
    decreases s.len() - p,
{
    if 0 <= p < s.len() && !is_delimiter(s[p]) {
        atom_end(s, p + 1)
    } else {
        p
    }
}

/// The position of the line break at or after `p`, or the end of `s`.
pub open spec fn line_end(s: Seq<char>, p: int) -> int
    decreases s.len() - p,
{
    if 0 <= p < s.len() && s[p] != '\n' {
        line_end(s, p + 1)
    } else {
        p
    }
}

/// Scanning a string's contents from `p`: the position just past the
/// closing quote, or `None` where the input ends first.
pub open spec fn string_end(s: Seq<char>, p: int) -> Option<int>
    decreases s.len() - p,
{
    if p < 0 || p >= s.len() {
        None
    } else if s[p] == '"' {
        Some(p + 1)
    } else if s[p] == '\\' {
        if p + 1 < s.len() {
            string_end(s, p + 2)
        } else {
            None
        }
    } else {
        string_end(s, p + 1)
    }
}

/// The end of the lexeme that starts at `p`, where `s[p]` is no separator;
/// `None` for a string that is never closed.
pub open spec fn lexeme_end(s: Seq<char>, p: int) -> Option<int> {
    if s[p] == '~' && p + 1 < s.len() && s[p + 1] == '@' {
        Some(p + 2)
    } else if is_special(s[p]) {
        Some(p + 1)
    } else if s[p] == '"' {
        string_end(s, p + 1)
    } else if s[p] == ';' {
        Some(line_end(s, p))
    } else {
        Some(atom_end(s, p))
    }
}

/// The value of a run of decimal digits.
pub open spec fn digits_value(d: Seq<char>) -> int
    decreases d.len(),
{
    if d.len() == 0 {
        0
    } else {
        digits_value(d.drop_last()) * 10 + (d.last() as u32 - '0' as u32)
    }
}

/// The number that a lexeme spells: all decimal digits, at most `i32::MAX`.
pub open spec fn number_value(d: Seq<char>) -> Option<i32> {
    if (forall|i: int| 0 <= i < d.len() ==> is_digit(#[trigger] d[i])) && digits_value(d)
        <= i32::MAX {
        Some(digits_value(d) as i32)
    } else {
        None
    }
}

/// The character that a backslash followed by `c` stands for.
pub open spec fn escaped(c: char) -> char {
    if c == 'n' {
        '\n'
    } else {
        c
    }
}

/// The contents of `b` from `i` on, with each escape decoded.
pub open spec fn unescape_from(b: Seq<char>, i: int) -> Seq<char>
    decreases b.len() - i,
{
    if i < 0 || i >= b.len() {
        Seq::empty()
    } else if b[i] == '\\' && i + 1 < b.len() {
        seq![escaped(b[i + 1])] + unescape_from(b, i + 2)
    } else {
        seq![b[i]] + unescape_from(b, i + 1)
    }
}

/// The text between the quotes of a string lexeme (the closing one may lack).
pub open spec fn string_body(p: Seq<char>) -> Seq<char> {
    if p.len() >= 2 && p.last() == '"' {
        p.subrange(1, p.len() - 1)
    } else {
        p.subrange(1, p.len() as int)
    }
}

/// The token that a lexeme stands for; `None` for an empty one or a comment.
/// A lexeme that starts with a digit and is no number in range is kept as a
/// symbol, so that lexing never fails; reading refuses it.
pub open spec fn tokenize_spec(p: Seq<char>) -> Option<TokenView> {
    if p.len() == 0 || p[0] == ';' {
        None
    } else if p[0] == '(' {
        Some(TokenView::L)
    } else if p[0] == ')' {
        Some(TokenView::R)
    } else if is_digit(p[0]) {
        match number_value(p) {
            Some(n) => Some(TokenView::Num(n)),
            None => Some(TokenView::Sym(p)),
        }
    } else if p[0] == '"' {
        Some(TokenView::Str(unescape_from(string_body(p), 0)))
    } else {
        Some(TokenView::Sym(p))
    }
}

/// The tokens of `s` from position `p` on.
pub open spec fn lex_from(s: Seq<char>, p: int) -> Seq<TokenView>
    decreases s.len() - p,
    via lex_from_decreases
{
    if p < 0 || p >= s.len() {
        Seq::empty()
    } else if is_separator(s[p]) {
        lex_from(s, p + 1)
    } else {
        match lexeme_end(s, p) {
            None => lex_from(s, p + 1),
            Some(e) => match tokenize_spec(s.subrange(p, e)) {
                Some(t) => seq![t] + lex_from(s, e),
                None => lex_from(s, e),
            },
        }
    }
}

/// The tokens of `s`.
pub open spec fn lex_spec(s: Seq<char>) -> Seq<TokenView> {
    lex_from(s, 0)
}

proof fn lemma_atom_end(s: Seq<char>, p: int)
    requires
        0 <= p <= s.len(),
    ensures
        p <= atom_end(s, p) <= s.len(),
        p < s.len() && !is_delimiter(s[p]) ==> p < atom_end(s, p),
    decreases s.len() - p,
{
    if p < s.len() && !is_delimiter(s[p]) {
        lemma_atom_end(s, p + 1);
    }
}

proof fn lemma_line_end(s: Seq<char>, p: int)
    requires
        0 <= p <= s.len(),
    ensures
        p <= line_end(s, p) <= s.len(),
        p < s.len() && s[p] != '\n' ==> p < line_end(s, p),
    decreases s.len() - p,
{
    if p < s.len() && s[p] != '\n' {
        lemma_line_end(s, p + 1);
    }
}

proof fn lemma_string_end(s: Seq<char>, p: int)
    requires
        0 <= p,
    ensures
        string_end(s, p) matches Some(e) ==> p < e <= s.len(),
    decreases s.len() - p,
{
    if 0 <= p < s.len() && s[p] != '"' {
        if s[p] == '\\' {
            if p + 1 < s.len() {
                lemma_string_end(s, p + 2);
            }
        } else {
            lemma_string_end(s, p + 1);
        }
    }
}

/// A lexeme is never empty and stays within the input.
pub proof fn lemma_lexeme_end(s: Seq<char>, p: int)
    requires
        0 <= p < s.len(),
        !is_separator(s[p]),
    ensures
        lexeme_end(s, p) matches Some(e) ==> p < e <= s.len(),
{
    lemma_atom_end(s, p);
    lemma_line_end(s, p);
    lemma_string_end(s, p + 1);
}

#[via_fn]
proof fn lex_from_decreases(s: Seq<char>, p: int) {
    if 0 <= p < s.len() && !is_separator(s[p]) {
        lemma_lexeme_end(s, p);
    }
}

fn is_space_char(c: char) -> (r: bool)
    ensures
        r == is_space(c),
{
    let u = c as u32;
    (0x09 <= u && u <= 0x0D) || u == 0x20 || u == 0x85 || u == 0xA0 || u == 0x1680
        || (0x2000 <= u && u <= 0x200A) || u == 0x2028 || u == 0x2029 || u == 0x202F
        || u == 0x205F || u == 0x3000
}

fn is_separator_char(c: char) -> (r: bool)
    ensures
        r == is_separator(c),
{
    is_space_char(c) || c == ','
}

fn is_special_char(c: char) -> (r: bool)
    ensures
        r == is_special(c),
{
    c == '[' || c == ']' || c == '{' || c == '}' || c == '(' || c == ')' || c == '\''
        || c == '`' || c == '~' || c == '^' || c == '@'
}

fn is_delimiter_char(c: char) -> (r: bool)
    ensures
        r == is_delimiter(c),
{
    is_space_char(c) || c == '[' || c == ']' || c == '{' || c == '}' || c == '(' || c == ')'
        || c == '\'' || c == '"' || c == '`' || c == ',' || c == ';'
}

pub(crate) fn is_digit_char(c: char) -> (r: bool)
    ensures
        r == is_digit(c),
{
    '0' <= c && c <= '9'
}

/// The models of a sequence of tokens.
pub open spec fn token_views(s: Seq<Token>) -> Seq<TokenView> {
    s.map_values(|t: Token| t@)
}

/// The model of a token that may be absent.
pub open spec fn token_opt_view(o: Option<Token>) -> Option<TokenView> {
    match o {
        Some(t) => Some(t@),
        None => None,
    }
}

proof fn lemma_digits_nonneg(d: Seq<char>)
    requires
        forall|i: int| 0 <= i < d.len() ==> is_digit(#[trigger] d[i]),
    ensures
        digits_value(d) >= 0,
    decreases d.len(),
{
    if d.len() > 0 {
        lemma_digits_nonneg(d.drop_last());
    }
}

/// Adding digits at the end never makes the value smaller.
proof fn lemma_digits_grow(d: Seq<char>, k: int)
    requires
        0 <= k <= d.len(),
        forall|i: int| 0 <= i < d.len() ==> is_digit(#[trigger] d[i]),
    ensures
        digits_value(d.subrange(0, k)) <= digits_value(d),
    decreases d.len(),
{
    if k == d.len() {
        assert(d.subrange(0, k) =~= d);
    } else {
        let e = d.drop_last();
        lemma_digits_grow(e, k);
        lemma_digits_nonneg(e);
        assert(e.subrange(0, k) =~= d.subrange(0, k));
    }
}

fn atom_end_at(v: &Vec<char>, p: usize) -> (e: usize)
    requires
        p <= v@.len(),
    ensures
        e == atom_end(v@, p as int),
{
    let mut i: usize = p;
    while i < v.len() && !is_delimiter_char(v[i])
        invariant
            p <= i <= v@.len(),
            atom_end(v@, i as int) == atom_end(v@, p as int),
        decreases v@.len() - i,
    {
        i = i + 1;
    }
    i
}

fn line_end_at(v: &Vec<char>, p: usize) -> (e: usize)
    requires
        p <= v@.len(),
    ensures
        e == line_end(v@, p as int),
{
    let mut i: usize = p;
    while i < v.len() && v[i] != '\n'
        invariant
            p <= i <= v@.len(),
            line_end(v@, i as int) == line_end(v@, p as int),
        decreases v@.len() - i,
    {
        i = i + 1;
    }
    i
}

fn string_end_at(v: &Vec<char>, p: usize) -> (r: Option<usize>)
    requires
        p <= v@.len(),
    ensures
        match r {
            Some(e) => string_end(v@, p as int) == Some(e as int),
            None => string_end(v@, p as int) is None,
        },
{
    let n = v.len();
    let mut i: usize = p;
    loop
        invariant
            p <= i <= n,
            n == v@.len(),
            string_end(v@, i as int) == string_end(v@, p as int),
        decreases n - i,
    {
        if i >= n {
            return None;
        }
        let c = v[i];
        if c == '"' {
            return Some(i + 1);
        }
        if c == '\\' {
            if i + 1 < n {
                i = i + 2;
            } else {
                return None;
            }
        } else {
            i = i + 1;
        }
    }
}

fn lexeme_end_at(v: &Vec<char>, p: usize) -> (r: Option<usize>)
    requires
        p < v@.len(),
        !is_separator(v@[p as int]),
    ensures
        match r {
            Some(e) => lexeme_end(v@, p as int) == Some(e as int),
            None => lexeme_end(v@, p as int) is None,
        },
{
    let n = v.len();
    let c = v[p];
    if c == '~' && p + 1 < n && v[p + 1] == '@' {
        Some(p + 2)
    } else if is_special_char(c) {
        Some(p + 1)
    } else if c == '"' {
        string_end_at(v, p + 1)
    } else if c == ';' {
        Some(line_end_at(v, p))
    } else {
        Some(atom_end_at(v, p))
    }
}

/// The number that `v[start..end]` spells, if it is one in range.
fn number_in(v: &Vec<char>, start: usize, end: usize) -> (r: Option<i32>)
    requires
        start <= end <= v@.len(),
    ensures
        r == number_value(v@.subrange(start as int, end as int)),
{
    let ghost d = v@.subrange(start as int, end as int);
    let mut i: usize = start;
    while i < end
        invariant
            start <= i <= end <= v@.len(),
            d == v@.subrange(start as int, end as int),
            forall|k: int| start <= k < i ==> is_digit(#[trigger] v@[k]),
        decreases end - i,
    {
        if !is_digit_char(v[i]) {
            assert(!is_digit(d[i - start]));
            return None;
        }
        i = i + 1;
    }
    assert forall|k: int| 0 <= k < d.len() implies is_digit(#[trigger] d[k]) by {
        assert(d[k] == v@[start + k]);
    }
    let mut val: i64 = 0;
    i = start;
    while i < end
        invariant
            start <= i <= end <= v@.len(),
            d == v@.subrange(start as int, end as int),
            forall|k: int| start <= k < end ==> is_digit(#[trigger] v@[k]),
            forall|k: int| 0 <= k < d.len() ==> is_digit(#[trigger] d[k]),
            val == digits_value(v@.subrange(start as int, i as int)),
            0 <= val <= i32::MAX,
        decreases end - i,
    {
        let c = v[i];
        assert(is_digit(v@[i as int]));
        let next: i64 = val * 10 + ((c as u32 - '0' as u32) as i64);
        assert(v@.subrange(start as int, i + 1).drop_last() =~= v@.subrange(start as int, i as int));
        assert(v@.subrange(start as int, i + 1) =~= d.subrange(0, i + 1 - start));
        if next > i32::MAX as i64 {
            proof {
                lemma_digits_grow(d, i + 1 - start);
            }
            return None;
        }
        val = next;
        i = i + 1;
    }
    assert(v@.subrange(start as int, end as int) =~= d);
    Some(val as i32)
}

/// The contents of `v[start..end]` with each escape decoded.
fn unescape_in(v: &Vec<char>, start: usize, end: usize) -> (r: String)
    requires
        start <= end <= v@.len(),
    ensures
        r@ == unescape_from(v@.subrange(start as int, end as int), 0),
{
    let ghost b = v@.subrange(start as int, end as int);
    let mut r = String::new();
    let mut i: usize = start;
    while i < end
        invariant
            start <= i <= end <= v@.len(),
            b == v@.subrange(start as int, end as int),
            r@ + unescape_from(b, i - start) == unescape_from(b, 0),
        decreases end - i,
    {
        let ghost before = r@;
        let c = v[i];
        assert(b[i - start] == c);
        if c == '\\' && i + 1 < end {
            assert(b[i + 1 - start] == v@[i + 1]);
            let e = if v[i + 1] == 'n' { '\n' } else { v[i + 1] };
            push_char(&mut r, e);
            i = i + 2;
            assert(before + unescape_from(b, i - 2 - start) == r@ + unescape_from(b, i - start)) by {
                assert(before + (seq![e] + unescape_from(b, i - start)) =~= before.push(e)
                    + unescape_from(b, i - start));
            }
        } else {
            push_char(&mut r, c);
            i = i + 1;
            assert(before + unescape_from(b, i - 1 - start) == r@ + unescape_from(b, i - start)) by {
                assert(before + (seq![c] + unescape_from(b, i - start)) =~= before.push(c)
                    + unescape_from(b, i - start));
            }
        }
    }
    assert(r@ + unescape_from(b, i - start) =~= r@);
    r
}

/// The token that the lexeme `v[start..end]` stands for.
fn token_in(v: &Vec<char>, start: usize, end: usize) -> (r: Option<Token>)
    requires
        start <= end <= v@.len(),
    ensures
        token_opt_view(r) == tokenize_spec(v@.subrange(start as int, end as int)),
{
    let ghost p = v@.subrange(start as int, end as int);
    if start == end {
        return None;
    }
    assert(p[0] == v@[start as int]);
    let c = v[start];
    if c == ';' {
        None
    } else if c == '(' {
        Some(Token::L)
    } else if c == ')' {
        Some(Token::R)
    } else if is_digit_char(c) {
        match number_in(v, start, end) {
            Some(n) => Some(Token::Num(n)),
            None => Some(Token::Sym(string_of(v, start, end))),
        }
    } else if c == '"' {
        if end - start >= 2 && v[end - 1] == '"' {
            assert(p.last() == v@[end - 1]);
            assert(string_body(p) =~= v@.subrange(start + 1, end - 1));
            Some(Token::Str(unescape_in(v, start + 1, end - 1)))
        } else {
            assert(end - start >= 2 ==> p.last() == v@[end - 1]);
            assert(string_body(p) =~= v@.subrange(start + 1, end as int));
            Some(Token::Str(unescape_in(v, start + 1, end)))
        }
    } else {
        Some(Token::Sym(string_of(v, start, end)))
    }
}

/// Classifies one lexeme: `None` for an empty one or a comment, else its token.
pub fn tokenize(input: &str) -> (r: Option<Token>)
    ensures
        token_opt_view(r) == tokenize_spec(input@),
{
    let v = chars_of(input);
    assert(v@.subrange(0, v@.len() as int) =~= v@);
    token_in(&v, 0, v.len())
}

/// Splits `input` into its tokens, in order.
pub fn lex(input: &str) -> (r: Vec<Token>)
    ensures
        token_views(r@) == lex_spec(input@),
{
    let v = chars_of(input);
    let n = v.len();
    let mut out: Vec<Token> = Vec::new();
    let mut i: usize = 0;
    while i < n
        invariant
            i <= n == v@.len(),
            v@ == input@,
            token_views(out@) + lex_from(v@, i as int) == lex_from(v@, 0),
        decreases n - i,
    {
        let ghost before = out@;
        if is_separator_char(v[i]) {
            i = i + 1;
        } else {
            proof {
                lemma_lexeme_end(v@, i as int);
            }
            match lexeme_end_at(&v, i) {
                None => {
                    i = i + 1;
                },
                Some(e) => {
                    match token_in(&v, i, e) {
                        Some(t) => {
                            out.push(t);
                            assert(token_views(out@) =~= token_views(before).push(t@));
                            assert(token_views(before) + (seq![t@] + lex_from(v@, e as int))
                                =~= token_views(out@) + lex_from(v@, e as int));
                        },
                        None => {},
                    }
                    i = e;
                },
            }
        }
    }
    assert(token_views(out@) + lex_from(v@, n as int) =~= token_views(out@));
    out
}

} // verus!
