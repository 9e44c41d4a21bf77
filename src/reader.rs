//! Parsing tokens into an expression.
//!
//! A [`Scanner`] is a position over a token sequence; stepping it gives a new
//! scanner and leaves the old one as it was. The parser threads scanners
//! through its recursive calls. A symbol that starts with a digit is a numeral
//! that did not parse: [`read`] fails with `InvalidNumber` on a tree that
//! holds one.

use vstd::prelude::*;
use crate::types::{Mal, MalView, Token, TokenView, ParseErr, ParseErrView, mal_view, mal_views, lemma_mal_views};
use crate::lexer::{lex, lex_spec, token_views, token_opt_view, is_digit, is_digit_char};

verus! {

/// The expression that starts at position `p` of `t`, with the position just
/// past it.
pub open spec fn parse_form_spec(t: Seq<TokenView>, p: int) -> Result<(int, MalView), ParseErrView>
    decreases t.len() - p, 1int,
{
    if p < 0 || p >= t.len() {
        Err(ParseErrView::Empty)
    } else {
        match t[p] {
            TokenView::L => parse_items_spec(t, p + 1, Seq::empty()),
            TokenView::R => Err(ParseErrView::Unexpected(TokenView::R)),
            TokenView::Sym(s) => Ok((p + 1, MalView::Sym(s))),
            TokenView::Str(s) => Ok((p + 1, MalView::Str(s))),
            TokenView::Num(n) => Ok((p + 1, MalView::Num(n))),
        }
    }
}

/// The rest of a list whose elements so far are `acc`, from position `p` of
/// `t` on. Each element moves the position forward (see
/// [`lemma_parse_advances`]), so the branch for no progress is never taken.
pub open spec fn parse_items_spec(t: Seq<TokenView>, p: int, acc: Seq<MalView>) -> Result<
    (int, MalView),
    ParseErrView,
>
    decreases t.len() - p, 2int,
{
    if p < 0 || p >= t.len() {
        Err(ParseErrView::Unmatched(TokenView::R))
    } else if t[p] is R {
        Ok((p + 1, MalView::List(acc)))
    } else {
        match parse_form_spec(t, p) {
            Err(e) => Err(e),
            Ok((q, m)) => if p < q <= t.len() {
                parse_items_spec(t, q, acc.push(m))
            } else {
                Err(ParseErrView::Unknown)
            },
        }
    }
}

/// The expression that a token sequence starts with.
pub open spec fn parse_spec(t: Seq<TokenView>) -> Result<MalView, ParseErrView> {
    match parse_form_spec(t, 0) {
        Ok((_, m)) => Ok(m),
        Err(e) => Err(e),
    }
}

/// The first symbol of `m`, in textual order, that starts with a digit.
pub open spec fn bad_numeral(m: MalView) -> Option<Seq<char>>
    decreases m, 0int,
{
    match m {
        MalView::Sym(t) => if t.len() > 0 && is_digit(t[0]) {
            Some(t)
        } else {
            None
        },
        MalView::List(s) => bad_numeral_in(s, 0),
        _ => None,
    }
}

/// The first symbol that starts with a digit among the elements of `s` from
/// `i` on.
pub open spec fn bad_numeral_in(s: Seq<MalView>, i: int) -> Option<Seq<char>>
    decreases s, s.len() + 1 - i,
{
    if i < 0 || i >= s.len() {
        None
    } else {
        match bad_numeral(s[i]) {
            Some(t) => Some(t),
            None => bad_numeral_in(s, i + 1),
        }
    }
}

/// The expression that a text starts with; `InvalidNumber` where it holds a
/// symbol that starts with a digit.
pub open spec fn read_spec(s: Seq<char>) -> Result<MalView, ParseErrView> {
    match parse_spec(lex_spec(s)) {
        Ok(m) => match bad_numeral(m) {
            Some(t) => Err(ParseErrView::InvalidNumber(t)),
            None => Ok(m),
        },
        Err(e) => Err(e),
    }
}

/// The model of a reading result.
pub open spec fn read_result_view(r: Result<Mal, ParseErr>) -> Result<MalView, ParseErrView> {
    match r {
        Ok(m) => Ok(m@),
        Err(e) => Err(e@),
    }
}

/// Parsing never moves backwards and never past the end.
pub proof fn lemma_parse_advances(t: Seq<TokenView>, p: int)
    ensures
        parse_form_spec(t, p) matches Ok((q, _)) ==> p < q <= t.len(),
    decreases t.len() - p, 1int,
{
    if 0 <= p < t.len() && t[p] is L {
        lemma_items_advance(t, p + 1, Seq::empty());
    }
}

/// The end of a list lies past where its elements start.
pub proof fn lemma_items_advance(t: Seq<TokenView>, p: int, acc: Seq<MalView>)
    ensures
        parse_items_spec(t, p, acc) matches Ok((q, _)) ==> p < q <= t.len(),
    decreases t.len() - p, 2int,
{
    if 0 <= p < t.len() && !(t[p] is R) {
        lemma_parse_advances(t, p);
        if let Ok((q, m)) = parse_form_spec(t, p) {
            if p < q <= t.len() {
                lemma_items_advance(t, q, acc.push(m));
            }
        }
    }
}

/// A position in a token sequence.
#[derive(Debug, Clone, Copy)]
pub struct Scanner<'a> {
    pub vec: &'a Vec<Token>,
    pub pos: usize,
}

impl<'a> Scanner<'a> {
    /// The tokens that this scanner runs over.
    pub open spec fn tokens(self) -> Seq<TokenView> {
        token_views(self.vec@)
    }

    /// A scanner at the start of `vec`.
    pub fn new(vec: &'a Vec<Token>) -> (r: Scanner<'a>)
        ensures
            r.vec == vec,
            r.pos == 0,
    {
        Scanner { vec: vec, pos: 0 }
    }

    /// The token at the scanner's position, if any.
    pub fn peek(self) -> (r: Option<Token>)
        ensures
            token_opt_view(r) == (if self.pos < self.vec@.len() {
                Some(self.vec@[self.pos as int]@)
            } else {
                None
            }),
    {
        if self.pos < self.vec.len() {
            Some(self.vec[self.pos].duplicate())
        } else {
            None
        }
    }

    /// The scanner one token further on, and the token stepped over; at the
    /// end, the same scanner and `None`.
    pub fn next(self) -> (r: (Scanner<'a>, Option<Token>))
        ensures
            r.0.vec == self.vec,
            self.pos < self.vec@.len() ==> r.0.pos == self.pos + 1 && token_opt_view(r.1) == Some(
                self.vec@[self.pos as int]@,
            ),
            self.pos >= self.vec@.len() ==> r.0.pos == self.pos && r.1 is None,
    {
        if self.pos < self.vec.len() {
            (Scanner { vec: self.vec, pos: self.pos + 1 }, Some(self.vec[self.pos].duplicate()))
        } else {
            let new_scanner = self;
            (new_scanner, None)
        }
    }
}

/// Parses the expression at the scanner's position; on success, gives the
/// scanner just past it.
pub fn parse_form<'a>(scanner: Scanner<'a>) -> (r: Result<(Scanner<'a>, Mal), ParseErr>)
    ensures
        match r {
            Ok((s, m)) => s.vec == scanner.vec && parse_form_spec(scanner.tokens(), scanner.pos as int)
                == Ok::<(int, MalView), ParseErrView>((s.pos as int, m@)) && scanner.pos < s.pos <= scanner.vec@.len(),
            Err(e) => parse_form_spec(scanner.tokens(), scanner.pos as int) == Err::<(int, MalView), ParseErrView>(e@),
        },
    decreases scanner.vec@.len() - scanner.pos, 1int,
{
    let ghost t = scanner.tokens();
    let val = scanner.peek();
    match val {
        Some(tok) => {
            assert(t[scanner.pos as int] == tok@);
            match tok {
                Token::L => parse_list(scanner),
                Token::Str(s) => Ok((scanner.next().0, Mal::Str(s))),
                Token::Sym(s) => Ok((scanner.next().0, Mal::Sym(s))),
                Token::Num(n) => Ok((scanner.next().0, Mal::Num(n))),
                Token::R => Err(ParseErr::Unexpected(Token::R)),
            }
        },
        None => Err(ParseErr::Empty),
    }
}

/// Parses a list; the scanner stands on its left parenthesis. On success,
/// gives the scanner just past the matching right parenthesis.
pub fn parse_list<'a>(scanner: Scanner<'a>) -> (r: Result<(Scanner<'a>, Mal), ParseErr>)
    requires
        scanner.pos < scanner.vec@.len(),
        scanner.vec@[scanner.pos as int] is L,
    ensures
        match r {
            Ok((s, m)) => s.vec == scanner.vec && parse_items_spec(
                scanner.tokens(),
                scanner.pos + 1,
                Seq::empty(),
            ) == Ok::<(int, MalView), ParseErrView>((s.pos as int, m@)) && scanner.pos < s.pos <= scanner.vec@.len(),
            Err(e) => parse_items_spec(scanner.tokens(), scanner.pos + 1, Seq::empty()) == Err::<(int, MalView), ParseErrView>(e@),
        },
    decreases scanner.vec@.len() - scanner.pos, 0int,
{
    let ghost t = scanner.tokens();
    let ghost start = scanner.pos;
    let mut cur = scanner.next().0;
    let mut vec: Vec<Mal> = Vec::new();
    proof {
        assert(mal_views(vec@) =~= Seq::<MalView>::empty());
    }
    loop
        invariant
            cur.vec == scanner.vec,
            t == scanner.tokens(),
            start == scanner.pos,
            start < cur.pos <= cur.vec@.len(),
            parse_items_spec(t, cur.pos as int, mal_views(vec@)) == parse_items_spec(
                t,
                start + 1,
                Seq::empty(),
            ),
        decreases cur.vec@.len() - cur.pos,
    {
        match cur.peek() {
            None => {
                return Err(ParseErr::Unmatched(Token::R));
            },
            Some(tok) => {
                assert(t[cur.pos as int] == tok@);
                if let Token::R = tok {
                    let ghost items = mal_views(vec@);
                    let done = Mal::List(vec);
                    assert(done@ == MalView::List(items));
                    return Ok((cur.next().0, done));
                }
                match parse_form(cur) {
                    Ok((after, node)) => {
                        let ghost before = vec@;
                        cur.pos = after.pos;
                        vec.push(node);
                        proof {
                            lemma_mal_views(before);
                            lemma_mal_views(vec@);
                            assert(mal_views(vec@) =~= mal_views(before).push(node@));
                        }
                    },
                    Err(e) => {
                        return Err(e);
                    },
                }
            },
        }
    }
}

/// Parses the expression that `tokens` starts with; what follows it is
/// ignored.
pub fn parse(tokens: &Vec<Token>) -> (r: Result<Mal, ParseErr>)
    ensures
        read_result_view(r) == parse_spec(token_views(tokens@)),
{
    let scanner = Scanner::new(tokens);
    match parse_form(scanner) {
        Ok((_, m)) => Ok(m),
        Err(e) => Err(e),
    }
}

/// The first symbol of `m`, in textual order, that starts with a digit.
fn find_bad_numeral(m: &Mal) -> (r: Option<String>)
    ensures
        match r {
            Some(t) => bad_numeral(m@) == Some(t@),
            None => bad_numeral(m@) is None,
        },
    decreases m@, 0int,
{
    match m {
        Mal::Sym(t) => {
            let text = t.as_str();
            if text.unicode_len() > 0 && is_digit_char(text.get_char(0)) {
                Some(t.clone())
            } else {
                None
            }
        },
        Mal::List(v) => {
            assert(m@ == MalView::List(mal_views(v@)));
            assert(decreases_to!(m@ => m@->List_0));
            find_bad_numeral_in(v)
        },
        _ => None,
    }
}

/// The first symbol that starts with a digit among the expressions of `v`.
fn find_bad_numeral_in(v: &Vec<Mal>) -> (r: Option<String>)
    ensures
        match r {
            Some(t) => bad_numeral_in(mal_views(v@), 0) == Some(t@),
            None => bad_numeral_in(mal_views(v@), 0) is None,
        },
    decreases mal_views(v@), v@.len() + 1,
{
    let ghost s = mal_views(v@);
    proof {
        lemma_mal_views(v@);
    }
    let mut i: usize = 0;
    while i < v.len()
        invariant
            i <= v@.len() == s.len(),
            s == mal_views(v@),
            forall|k: int| 0 <= k < v@.len() ==> #[trigger] s[k] == mal_view(v@[k]),
            bad_numeral_in(s, i as int) == bad_numeral_in(s, 0),
        decreases v@.len() - i,
    {
        assert(s[i as int] == mal_view(v@[i as int]));
        assert(decreases_to!(s => s[i as int]));
        match find_bad_numeral(&v[i]) {
            Some(t) => {
                return Some(t);
            },
            None => {},
        }
        i = i + 1;
    }
    None
}

/// Reads the first expression of a text. A symbol in it that starts with a
/// digit is a numeral that did not parse, and makes reading fail.
pub fn read(input: &str) -> (r: Result<Mal, ParseErr>)
    ensures
        read_result_view(r) == read_spec(input@),
{
    let tokens = lex(input);
    match parse(&tokens) {
        Ok(m) => match find_bad_numeral(&m) {
            Some(t) => Err(ParseErr::InvalidNumber(t)),
            None => Ok(m),
        },
        Err(e) => Err(e),
    }
}

} // verus!
