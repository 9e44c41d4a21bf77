//! Properties that relate the stages to each other.

use vstd::prelude::*;
use crate::types::{MalView, ParseErrView, TokenView};
use crate::lexer::{
    atom_end, digits_value, is_delimiter, is_digit, is_separator, is_special, lex_from, lex_spec,
    lexeme_end, line_end, number_value, tokenize_spec,
};
use crate::reader::{bad_numeral, bad_numeral_in, parse_form_spec, parse_items_spec, read_spec};
use crate::printer::{digit_char, digits_of, print_prefix, print_spec};

verus! {

proof fn lemma_line_end_no_break(s: Seq<char>, p: int)
    requires
        0 <= p <= s.len(),
        forall|i: int| p <= i < s.len() ==> s[i] != '\n',
    ensures
        line_end(s, p) == s.len(),
    decreases s.len() - p,
{
    if p < s.len() {
        lemma_line_end_no_break(s, p + 1);
    }
}

/// Text that is empty, or that is one comment with no line break in it,
/// holds no token.
pub proof fn lemma_lex_comment_only(s: Seq<char>)
    requires
        s.len() == 0 || (s[0] == ';' && forall|i: int| 0 <= i < s.len() ==> s[i] != '\n'),
    ensures
        lex_spec(s) == Seq::<crate::types::TokenView>::empty(),
{
    if s.len() > 0 {
        lemma_line_end_no_break(s, 0);
        assert(!is_separator(s[0]));
        assert(lexeme_end(s, 0) == Some(s.len() as int));
        assert(s.subrange(0, s.len() as int)[0] == ';');
        assert(tokenize_spec(s.subrange(0, s.len() as int)) is None);
        assert(lex_from(s, s.len() as int) =~= Seq::empty());
    }
}

/// Reading text that is empty, or one comment with no line break, fails with
/// `Empty`.
pub proof fn lemma_read_comment_only(s: Seq<char>)
    requires
        s.len() == 0 || (s[0] == ';' && forall|i: int| 0 <= i < s.len() ==> s[i] != '\n'),
    ensures
        read_spec(s) == Err::<crate::types::MalView, ParseErrView>(ParseErrView::Empty),
{
    lemma_lex_comment_only(s);
    assert(parse_form_spec(lex_spec(s), 0) == Err::<(int, crate::types::MalView), ParseErrView>(ParseErrView::Empty));
}

/// `w` stands in `x` from position `p` on.
pub open spec fn matches_at<A>(x: Seq<A>, p: int, w: Seq<A>) -> bool {
    0 <= p && p + w.len() <= x.len() && forall|i: int| 0 <= i < w.len() ==> x[p + i] == #[trigger] w[i]
}

/// Position `q` of `x` ends a bare atom.
pub open spec fn at_boundary(x: Seq<char>, q: int) -> bool {
    q == x.len() || (0 <= q < x.len() && is_delimiter(x[q]))
}

/// A symbol that its printed text reads back as: `~@`; one punctuation
/// character other than a parenthesis; or a non-empty run of characters that
/// are no delimiters, starting with neither a digit nor punctuation. These are
/// the texts that lex as that one symbol and that reading accepts.
pub open spec fn plain_symbol(t: Seq<char>) -> bool {
    t == seq!['~', '@'] || (t.len() == 1 && is_special(t[0]) && t[0] != '(' && t[0] != ')') || (
    t.len() > 0 && !is_digit(t[0]) && !is_special(t[0]) && forall|i: int|
        0 <= i < t.len() ==> !is_delimiter(#[trigger] t[i]))
}

/// An expression that printing and reading bring back unchanged: its symbols
/// are plain (see [`plain_symbol`]), its numbers are not negative, and it holds no string (a string
/// is printed without its quotes).
pub open spec fn reprintable(m: MalView) -> bool
    decreases m,
{
    match m {
        MalView::List(s) => forall|i: int| 0 <= i < s.len() ==> reprintable(#[trigger] s[i]),
        MalView::Sym(t) => plain_symbol(t),
        MalView::Str(_) => false,
        MalView::Num(n) => n >= 0,
    }
}

/// The tokens that an expression is written with.
pub open spec fn form_tokens(m: MalView) -> Seq<TokenView>
    decreases m, 0int,
{
    match m {
        MalView::List(s) => seq![TokenView::L] + items_tokens(s, s.len() as int) + seq![TokenView::R],
        MalView::Sym(t) => seq![TokenView::Sym(t)],
        MalView::Str(t) => seq![TokenView::Str(t)],
        MalView::Num(n) => seq![TokenView::Num(n)],
    }
}

/// The tokens of the first `k` elements of `s`.
pub open spec fn items_tokens(s: Seq<MalView>, k: int) -> Seq<TokenView>
    decreases s, k,
{
    if k <= 0 || k > s.len() {
        Seq::empty()
    } else {
        items_tokens(s, k - 1) + form_tokens(s[k - 1])
    }
}

proof fn lemma_digit_char(d: nat)
    requires
        d < 10,
    ensures
        is_digit(digit_char(d)),
        !is_delimiter(digit_char(d)),
        digit_char(d) as u32 - '0' as u32 == d,
{
    let t = seq!['0', '1', '2', '3', '4', '5', '6', '7', '8', '9'];
    assert(digit_char(d) == t[d as int]);
    if d == 0 {
    } else if d == 1 {
    } else if d == 2 {
    } else if d == 3 {
    } else if d == 4 {
    } else if d == 5 {
    } else if d == 6 {
    } else if d == 7 {
    } else if d == 8 {
    } else {
        assert(d == 9);
    }
}

proof fn lemma_digits_of(k: nat)
    ensures
        digits_of(k).len() >= 1,
        forall|i: int| 0 <= i < digits_of(k).len() ==> is_digit(#[trigger] digits_of(k)[i]) && !is_delimiter(digits_of(k)[i]),
        digits_value(digits_of(k)) == k,
    decreases k,
{
    let d = digits_of(k);
    lemma_digit_char(k % 10);
    if k < 10 {
        assert(d.drop_last() =~= Seq::<char>::empty());
        assert(digits_value(d.drop_last()) == 0);
    } else {
        lemma_digits_of(k / 10);
        assert(d.drop_last() =~= digits_of(k / 10));
        assert(k == (k / 10) * 10 + k % 10);
        assert forall|i: int| 0 <= i < d.len() implies is_digit(#[trigger] d[i]) && !is_delimiter(d[i]) by {
            if i < d.len() - 1 {
                assert(d[i] == digits_of(k / 10)[i]);
            }
        }
    }
}

proof fn lemma_atom_run(x: Seq<char>, p: int, q: int)
    requires
        0 <= p <= q <= x.len(),
        forall|i: int| p <= i < q ==> !is_delimiter(#[trigger] x[i]),
        at_boundary(x, q),
    ensures
        atom_end(x, p) == q,
    decreases q - p,
{
    if p < q {
        lemma_atom_run(x, p + 1, q);
    }
}

/// A plain word (a symbol or a numeral) printed at `p` lexes as one token.
proof fn lemma_lex_word(x: Seq<char>, p: int, w: Seq<char>)
    requires
        matches_at(x, p, w),
        w.len() > 0,
        forall|i: int| 0 <= i < w.len() ==> !is_delimiter(#[trigger] w[i]),
        !is_special(w[0]),
        at_boundary(x, p + w.len()),
    ensures
        lex_from(x, p) == (match tokenize_spec(w) {
            Some(t) => seq![t] + lex_from(x, p + w.len()),
            None => lex_from(x, p + w.len()),
        }),
{
    assert(x[p] == w[0]);
    assert forall|i: int| p <= i < p + w.len() implies !is_delimiter(#[trigger] x[i]) by {
        assert(x[p + (i - p)] == w[i - p]);
    }
    lemma_atom_run(x, p, p + w.len());
    assert(x.subrange(p, p + w.len()) =~= w);
}

/// Text that holds the print of `m` at `p`, followed by a delimiter or the
/// end, lexes there as the tokens of `m`.
proof fn lemma_lex_form(m: MalView, x: Seq<char>, p: int)
    requires
        reprintable(m),
        matches_at(x, p, print_spec(m)),
        at_boundary(x, p + print_spec(m).len()),
    ensures
        lex_from(x, p) == form_tokens(m) + lex_from(x, p + print_spec(m).len()),
    decreases m, 0int,
{
    let w = print_spec(m);
    match m {
        MalView::Sym(t) => {
            if t == seq!['~', '@'] || (t.len() == 1 && is_special(t[0])) {
                assert(x[p] == t[0]);
                if t.len() == 2 {
                    assert(x[p + 1] == t[1]);
                } else {
                    assert(at_boundary(x, p + 1));
                }
                assert(x.subrange(p, p + t.len()) =~= t);
            } else {
                lemma_lex_word(x, p, t);
            }
        },
        MalView::Num(n) => {
            lemma_digits_of(n as nat);
            assert(w == digits_of(n as nat));
            assert(is_digit(w[0]));
            lemma_lex_word(x, p, w);
            assert(number_value(w) == Some(n));
        },
        MalView::Str(_) => {},
        MalView::List(s) => {
            let inner = print_prefix(s, s.len() as int);
            let r = p + 1 + inner.len();
            assert(x[p] == w[0]);
            assert(x.subrange(p, p + 1) =~= seq!['(']);
            assert(matches_at(x, p + 1, inner)) by {
                assert forall|i: int| 0 <= i < inner.len() implies x[p + 1 + i] == #[trigger] inner[i] by {
                    assert(w[1 + i] == inner[i]);
                }
            }
            assert(x[r] == w[1 + inner.len() as int]);
            assert(x[r] == ')');
            assert(decreases_to!(m => m->List_0));
            lemma_lex_items(s, s.len() as int, x, p + 1);
            assert(x.subrange(r, r + 1) =~= seq![')']);
            assert(lex_from(x, r) == seq![TokenView::R] + lex_from(x, r + 1));
            assert(lex_from(x, p + 1) == items_tokens(s, s.len() as int) + lex_from(x, r));
            assert(lex_from(x, p) == seq![TokenView::L] + lex_from(x, p + 1));
            assert(seq![TokenView::L] + (items_tokens(s, s.len() as int) + (seq![TokenView::R]
                + lex_from(x, r + 1))) =~= form_tokens(m) + lex_from(x, r + 1));
        },
    }
}

/// The printed elements of a list, followed by a delimiter, lex as their
/// tokens.
proof fn lemma_lex_items(s: Seq<MalView>, k: int, x: Seq<char>, q: int)
    requires
        0 <= k <= s.len(),
        forall|i: int| 0 <= i < s.len() ==> reprintable(#[trigger] s[i]),
        matches_at(x, q, print_prefix(s, k)),
        at_boundary(x, q + print_prefix(s, k).len()),
    ensures
        lex_from(x, q) == items_tokens(s, k) + lex_from(x, q + print_prefix(s, k).len()),
    decreases s, k,
{
    if k == 0 {
        assert(items_tokens(s, k) + lex_from(x, q) =~= lex_from(x, q));
    } else if k == 1 {
        assert(reprintable(s[0]));
        lemma_lex_form(s[0], x, q);
        assert(items_tokens(s, 0) =~= Seq::<TokenView>::empty());
        assert(items_tokens(s, 1) =~= form_tokens(s[0]));
    } else {
        let pre = print_prefix(s, k - 1);
        let last = print_spec(s[k - 1]);
        let w = print_prefix(s, k);
        assert(w == pre + seq![' '] + last);
        let a = q + pre.len();
        assert(matches_at(x, q, pre)) by {
            assert forall|i: int| 0 <= i < pre.len() implies x[q + i] == #[trigger] pre[i] by {
                assert(w[i] == pre[i]);
            }
        }
        assert(x[a] == w[pre.len() as int]);
        assert(x[a] == ' ');
        lemma_lex_items(s, k - 1, x, q);
        assert(is_separator(x[a]));
        assert(lex_from(x, a) == lex_from(x, a + 1));
        assert(matches_at(x, a + 1, last)) by {
            assert forall|i: int| 0 <= i < last.len() implies x[a + 1 + i] == #[trigger] last[i] by {
                assert(w[pre.len() + 1 + i] == last[i]);
            }
        }
        assert(reprintable(s[k - 1]));
        lemma_lex_form(s[k - 1], x, a + 1);
        assert(items_tokens(s, k - 1) + (form_tokens(s[k - 1]) + lex_from(x, q + w.len()))
            =~= items_tokens(s, k) + lex_from(x, q + w.len()));
    }
}

proof fn lemma_items_prefix(s: Seq<MalView>, j: int, k: int)
    requires
        0 <= j <= k <= s.len(),
    ensures
        items_tokens(s, j).len() <= items_tokens(s, k).len(),
        items_tokens(s, k).subrange(0, items_tokens(s, j).len() as int) == items_tokens(s, j),
    decreases k - j,
{
    if j == k {
        assert(items_tokens(s, k).subrange(0, items_tokens(s, j).len() as int) =~= items_tokens(s, j));
    } else {
        lemma_items_prefix(s, j, k - 1);
        assert(items_tokens(s, k) == items_tokens(s, k - 1) + form_tokens(s[k - 1]));
        assert(items_tokens(s, k).subrange(0, items_tokens(s, j).len() as int) =~= items_tokens(
            s,
            k - 1,
        ).subrange(0, items_tokens(s, j).len() as int));
    }
}

proof fn lemma_form_tokens_start(m: MalView)
    ensures
        form_tokens(m).len() >= 1,
        !(form_tokens(m)[0] is R),
{
}

/// Tokens written for `m` at `p` parse there as `m`.
proof fn lemma_parse_form(m: MalView, t: Seq<TokenView>, p: int)
    requires
        matches_at(t, p, form_tokens(m)),
    ensures
        parse_form_spec(t, p) == Ok::<(int, MalView), ParseErrView>((p + form_tokens(m).len(), m)),
    decreases m, 0int,
{
    let w = form_tokens(m);
    lemma_form_tokens_start(m);
    assert(t[p] == w[0]);
    if let MalView::List(s) = m {
        let its = items_tokens(s, s.len() as int);
        assert(matches_at(t, p + 1, its)) by {
            assert forall|i: int| 0 <= i < its.len() implies t[p + 1 + i] == #[trigger] its[i] by {
                assert(w[1 + i] == its[i]);
            }
        }
        assert(t[p + 1 + its.len()] == w[1 + its.len() as int]);
        assert(decreases_to!(m => m->List_0));
        lemma_parse_items(s, t, p + 1, 0);
        assert(items_tokens(s, 0).len() == 0);
        assert(s.subrange(0, 0) =~= Seq::<MalView>::empty());
    }
}

/// Tokens written for the elements of `s` at `q0`, followed by the closing
/// token, parse as the list `s` from the element at `j` on.
proof fn lemma_parse_items(s: Seq<MalView>, t: Seq<TokenView>, q0: int, j: int)
    requires
        0 <= j <= s.len(),
        matches_at(t, q0, items_tokens(s, s.len() as int)),
        q0 + items_tokens(s, s.len() as int).len() < t.len(),
        t[q0 + items_tokens(s, s.len() as int).len()] is R,
    ensures
        parse_items_spec(t, q0 + items_tokens(s, j).len(), s.subrange(0, j)) == Ok::<
            (int, MalView),
            ParseErrView,
        >((q0 + items_tokens(s, s.len() as int).len() + 1, MalView::List(s))),
    decreases s, s.len() - j,
{
    let all = items_tokens(s, s.len() as int);
    let qj = q0 + items_tokens(s, j).len();
    if j == s.len() {
        assert(s.subrange(0, j) =~= s);
    } else {
        lemma_items_prefix(s, j + 1, s.len() as int);
        let next = items_tokens(s, j + 1);
        let f = form_tokens(s[j]);
        assert(next == items_tokens(s, j) + f);
        assert(matches_at(t, qj, f)) by {
            assert forall|i: int| 0 <= i < f.len() implies t[qj + i] == #[trigger] f[i] by {
                assert(next[items_tokens(s, j).len() + i] == f[i]);
                assert(all.subrange(0, next.len() as int)[items_tokens(s, j).len() + i] == next[items_tokens(s, j).len() + i]);
                assert(all[items_tokens(s, j).len() + i] == t[q0 + items_tokens(s, j).len() + i]);
            }
        }
        lemma_form_tokens_start(s[j]);
        assert(t[qj] == f[0]);
        lemma_parse_form(s[j], t, qj);
        lemma_parse_items(s, t, q0, j + 1);
        assert(s.subrange(0, j).push(s[j]) =~= s.subrange(0, j + 1));
    }
}

/// A reprintable expression holds no symbol that starts with a digit.
proof fn lemma_reprintable_no_bad_numeral(m: MalView)
    requires
        reprintable(m),
    ensures
        bad_numeral(m) is None,
    decreases m, 0int,
{
    if let MalView::List(s) = m {
        assert(decreases_to!(m => m->List_0));
        lemma_items_no_bad_numeral(s, 0);
    }
}

proof fn lemma_items_no_bad_numeral(s: Seq<MalView>, i: int)
    requires
        0 <= i <= s.len(),
        forall|k: int| 0 <= k < s.len() ==> reprintable(#[trigger] s[k]),
    ensures
        bad_numeral_in(s, i) is None,
    decreases s, s.len() + 1 - i,
{
    if i < s.len() {
        assert(reprintable(s[i]));
        lemma_reprintable_no_bad_numeral(s[i]);
        lemma_items_no_bad_numeral(s, i + 1);
    }
}

/// An atom that starts with a digit and is no numeral within the range of
/// `i32` cannot be read: reading it fails with `InvalidNumber` and its text.
pub proof fn lemma_read_invalid_number(w: Seq<char>)
    requires
        w.len() > 0,
        is_digit(w[0]),
        forall|i: int| 0 <= i < w.len() ==> !is_delimiter(#[trigger] w[i]),
        number_value(w) is None,
    ensures
        read_spec(w) == Err::<MalView, ParseErrView>(ParseErrView::InvalidNumber(w)),
{
    assert(matches_at(w, 0, w));
    lemma_lex_word(w, 0, w);
    assert(lex_from(w, w.len() as int) =~= Seq::<TokenView>::empty());
    assert(lex_spec(w) =~= seq![TokenView::Sym(w)]);
}

/// Printing an expression and reading the text back gives the same
/// expression, for expressions whose symbols are plain, whose numbers are not
/// negative, and which hold no string.
pub proof fn lemma_print_read_round_trip(m: MalView)
    requires
        reprintable(m),
    ensures
        read_spec(print_spec(m)) == Ok::<MalView, ParseErrView>(m),
{
    let x = print_spec(m);
    assert(matches_at(x, 0, x));
    lemma_lex_form(m, x, 0);
    assert(lex_from(x, x.len() as int) =~= Seq::<TokenView>::empty());
    assert(lex_spec(x) =~= form_tokens(m));
    lemma_parse_form(m, form_tokens(m), 0);
    lemma_reprintable_no_bad_numeral(m);
}

} // verus!
