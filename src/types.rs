//! The data that flows between the stages, and its mathematical model.

use vstd::prelude::*;

verus! {

/// An expression: a list of expressions or an atom.
#[derive(Debug, PartialEq)]
pub enum Mal {
    List(Vec<Mal>),
    Sym(String),
    Str(String),
    Num(i32),
}

/// A lexical unit of the input text.
#[derive(Debug, PartialEq, Clone)]
pub enum Token {
    /// A left parenthesis.
    L,
    /// A right parenthesis.
    R,
    Sym(String),
    Str(String),
    Num(i32),
}

/// Why reading failed.
#[derive(Debug, PartialEq)]
pub enum ParseErr {
    /// The input held no token at all.
    Empty,
    /// A list was opened and the input ended before the token that closes it.
    Unmatched(Token),
    /// A token that cannot start an expression stood where one was expected.
    Unexpected(Token),
    /// An atom starts with a digit but is no decimal numeral within the range
    /// of `i32`.
    InvalidNumber(String),
    /// Reserved.
    Unknown,
}

/// Why evaluation failed.
#[derive(Debug, PartialEq)]
pub enum EvalErr {
    /// An empty list, or a list whose head is not a symbol.
    InvalidList,
    /// The operation takes exactly this many arguments.
    ArityMismatch(usize),
    /// An argument of the wrong kind.
    TypeMismatch,
    /// No operation has this name.
    UndefinedSymbol(String),
    /// The result does not fit the number type.
    Unknown,
}

/// How many arguments an operation accepts.
#[derive(Debug, PartialEq, Eq, Clone, Copy, Structural)]
pub enum Arity {
    Variadic,
    Nary(usize),
}

/// Model of a [`Token`].
pub enum TokenView {
    L,
    R,
    Sym(Seq<char>),
    Str(Seq<char>),
    Num(i32),
}

/// Model of a [`Mal`] expression.
pub enum MalView {
    List(Seq<MalView>),
    Sym(Seq<char>),
    Str(Seq<char>),
    Num(i32),
}

/// Model of a [`ParseErr`].
pub enum ParseErrView {
    Empty,
    Unmatched(TokenView),
    Unexpected(TokenView),
    InvalidNumber(Seq<char>),
    Unknown,
}

/// Model of an [`EvalErr`].
pub enum EvalErrView {
    InvalidList,
    ArityMismatch(nat),
    TypeMismatch,
    UndefinedSymbol(Seq<char>),
    Unknown,
}

impl View for Token {
    type V = TokenView;

    open spec fn view(&self) -> TokenView {
        match self {
            Token::L => TokenView::L,
            Token::R => TokenView::R,
            Token::Sym(s) => TokenView::Sym(s@),
            Token::Str(s) => TokenView::Str(s@),
            Token::Num(n) => TokenView::Num(*n),
        }
    }
}

/// The model of an expression.
pub open spec fn mal_view(m: Mal) -> MalView
    decreases m,
{
    match m {
        Mal::List(v) => MalView::List(mal_views(v@)),
        Mal::Sym(s) => MalView::Sym(s@),
        Mal::Str(s) => MalView::Str(s@),
        Mal::Num(n) => MalView::Num(n),
    }
}

/// The models of a sequence of expressions, element by element.
pub open spec fn mal_views(s: Seq<Mal>) -> Seq<MalView>
    decreases s,
{
    if s.len() == 0 {
        Seq::empty()
    } else {
        seq![mal_view(s[0])] + mal_views(s.subrange(1, s.len() as int))
    }
}

impl View for Mal {
    type V = MalView;

    open spec fn view(&self) -> MalView {
        mal_view(*self)
    }
}

impl View for ParseErr {
    type V = ParseErrView;

    open spec fn view(&self) -> ParseErrView {
        match self {
            ParseErr::Empty => ParseErrView::Empty,
            ParseErr::Unmatched(t) => ParseErrView::Unmatched(t@),
            ParseErr::Unexpected(t) => ParseErrView::Unexpected(t@),
            ParseErr::InvalidNumber(s) => ParseErrView::InvalidNumber(s@),
            ParseErr::Unknown => ParseErrView::Unknown,
        }
    }
}

impl View for EvalErr {
    type V = EvalErrView;

    open spec fn view(&self) -> EvalErrView {
        match self {
            EvalErr::InvalidList => EvalErrView::InvalidList,
            EvalErr::ArityMismatch(n) => EvalErrView::ArityMismatch(*n as nat),
            EvalErr::TypeMismatch => EvalErrView::TypeMismatch,
            EvalErr::UndefinedSymbol(s) => EvalErrView::UndefinedSymbol(s@),
            EvalErr::Unknown => EvalErrView::Unknown,
        }
    }
}

/// `mal_views` keeps the length and maps each element.
pub proof fn lemma_mal_views(s: Seq<Mal>)
    ensures
        mal_views(s).len() == s.len(),
        forall|i: int| 0 <= i < s.len() ==> #[trigger] mal_views(s)[i] == mal_view(s[i]),
    decreases s.len(),
{
    if s.len() > 0 {
        lemma_mal_views(s.subrange(1, s.len() as int));
        assert forall|i: int| 0 <= i < s.len() implies #[trigger] mal_views(s)[i] == mal_view(s[i]) by {
            if i > 0 {
                assert(s.subrange(1, s.len() as int)[i - 1] == s[i]);
            }
        }
    }
}

impl Clone for Mal {
    /// A deep copy.
    fn clone(&self) -> (r: Mal)
        ensures
            r@ == self@,
        decreases self@,
    {
        match self {
            Mal::List(v) => {
                proof {
                    lemma_mal_views(v@);
                }
                assert(self@ == MalView::List(mal_views(v@)));
                let mut out: Vec<Mal> = Vec::new();
                let mut i: usize = 0;
                while i < v.len()
                    invariant
                        i <= v@.len(),
                        self@ == MalView::List(mal_views(v@)),
                        mal_views(v@).len() == v@.len(),
                        forall|k: int| 0 <= k < v@.len() ==> #[trigger] mal_views(v@)[k] == mal_view(v@[k]),
                        out@.len() == i,
                        forall|k: int| 0 <= k < i ==> #[trigger] mal_view(out@[k]) == mal_view(v@[k]),
                    decreases v@.len() - i,
                {
                    assert(decreases_to!(self@ => self@->List_0));
                    assert(decreases_to!(mal_views(v@) => mal_views(v@)[i as int]));
                    assert(v@[i as int]@ == mal_views(v@)[i as int]);
                    assert(decreases_to!(self@ => v@[i as int]@));
                    let c = v[i].clone();
                    out.push(c);
                    i = i + 1;
                }
                proof {
                    lemma_mal_views(out@);
                    assert(mal_views(out@) =~= mal_views(v@));
                }
                Mal::List(out)
            },
            Mal::Sym(s) => Mal::Sym(s.clone()),
            Mal::Str(s) => Mal::Str(s.clone()),
            Mal::Num(n) => Mal::Num(*n),
        }
    }
}

impl Token {
    /// A copy of this token.
    pub fn duplicate(&self) -> (r: Token)
        ensures
            r@ == self@,
    {
        match self {
            Token::L => Token::L,
            Token::R => Token::R,
            Token::Sym(s) => Token::Sym(s.clone()),
            Token::Str(s) => Token::Str(s.clone()),
            Token::Num(n) => Token::Num(*n),
        }
    }
}

} // verus!
