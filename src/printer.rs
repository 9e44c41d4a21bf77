//! Writing an expression back as text.
//!
//! A list is written as `(`, its elements separated by single spaces, and
//! `)`; a symbol or a string as its text, with no quotes or escapes; a number
//! in decimal.

use vstd::prelude::*;
use vstd::string::StringExecFns;
use crate::types::{Mal, MalView, mal_view, mal_views, lemma_mal_views};
use crate::text::push_char;

verus! {

/// The character of a decimal digit.
pub open spec fn digit_char(d: nat) -> char {
    seq!['0', '1', '2', '3', '4', '5', '6', '7', '8', '9'][d as int]
}

/// The decimal digits of `k`, most significant first.
pub open spec fn digits_of(k: nat) -> Seq<char>
    decreases k,
{
    if k < 10 {
        seq![digit_char(k)]
    } else {
        digits_of(k / 10).push(digit_char(k % 10))
    }
}

/// A number in decimal, with a leading `-` when it is negative.
pub open spec fn num_text(n: i32) -> Seq<char> {
    if n < 0 {
        seq!['-'] + digits_of((-n) as nat)
    } else {
        digits_of(n as nat)
    }
}

/// The text of an expression.
pub open spec fn print_spec(m: MalView) -> Seq<char>
    decreases m, 0int,
{
    match m {
        MalView::List(s) => seq!['('] + print_prefix(s, s.len() as int) + seq![')'],
        MalView::Sym(t) => t,
        MalView::Str(t) => t,
        MalView::Num(n) => num_text(n),
    }
}

/// The texts of the first `k` elements of `s`, separated by single spaces.
pub open spec fn print_prefix(s: Seq<MalView>, k: int) -> Seq<char>
    decreases s, k,
{
    if k <= 0 || k > s.len() {
        Seq::empty()
    } else if k == 1 {
        print_spec(s[0])
    } else {
        print_prefix(s, k - 1) + seq![' '] + print_spec(s[k - 1])
    }
}

fn digit(d: u32) -> (c: char)
    requires
        d < 10,
    ensures
        c == digit_char(d as nat),
{
    match d {
        0 => '0',
        1 => '1',
        2 => '2',
        3 => '3',
        4 => '4',
        5 => '5',
        6 => '6',
        7 => '7',
        8 => '8',
        _ => '9',
    }
}

/// Appends the decimal digits of `k` to `r`.
fn push_digits(r: &mut String, k: u32)
    ensures
        final(r)@ == old(r)@ + digits_of(k as nat),
    decreases k,
{
    if k >= 10 {
        push_digits(r, k / 10);
    }
    push_char(r, digit(k % 10));
    assert(r@ =~= old(r)@ + digits_of(k as nat));
}

/// Writes an expression as text.
pub fn print(ast: &Mal) -> (r: String)
    ensures
        r@ == print_spec(ast@),
    decreases ast@, 0int,
{
    match ast {
        Mal::List(list) => {
            assert(ast@ == MalView::List(mal_views(list@)));
            assert(decreases_to!(ast@ => ast@->List_0));
            print_list(list)
        },
        Mal::Sym(s) => s.clone(),
        Mal::Str(s) => s.clone(),
        Mal::Num(n) => {
            let mut r = String::new();
            if *n < 0 {
                push_char(&mut r, '-');
                let m: u32 = if *n == i32::MIN {
                    2147483648u32
                } else {
                    (-*n) as u32
                };
                push_digits(&mut r, m);
            } else {
                push_digits(&mut r, *n as u32);
            }
            r
        },
    }
}

/// Writes a list of expressions as text.
pub fn print_list(list: &Vec<Mal>) -> (r: String)
    ensures
        r@ == print_spec(MalView::List(mal_views(list@))),
    decreases mal_views(list@), list@.len() + 1,
{
    let ghost s = mal_views(list@);
    proof {
        lemma_mal_views(list@);
    }
    let mut sum = String::new();
    push_char(&mut sum, '(');
    let mut i: usize = 0;
    while i < list.len()
        invariant
            i <= list@.len() == s.len(),
            s == mal_views(list@),
            forall|k: int| 0 <= k < list@.len() ==> #[trigger] s[k] == mal_view(list@[k]),
            sum@ == seq!['('] + print_prefix(s, i as int),
        decreases list@.len() - i,
    {
        assert(s[i as int] == mal_view(list@[i as int]));
        assert(decreases_to!(s => s[i as int]));
        if i > 0 {
            push_char(&mut sum, ' ');
        }
        let part = print(&list[i]);
        sum.append(part.as_str());
        i = i + 1;
        assert(sum@ =~= seq!['('] + print_prefix(s, i as int));
    }
    push_char(&mut sum, ')');
    sum
}

} // verus!
