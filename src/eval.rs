//! Evaluating an expression against a table of built-in operations.
//!
//! Atoms evaluate to themselves. A list evaluates by looking up the symbol at
//! its head, checking the number of arguments against the operation's arity
//! before any argument is evaluated, evaluating the arguments left to right
//! (the first failure ends the evaluation), and applying the operation.

use vstd::prelude::*;
use crate::types::{Mal, MalView, Arity, EvalErr, EvalErrView, mal_view, mal_views, lemma_mal_views};

verus! {

/// The built-in operations.
#[derive(Debug, PartialEq, Eq, Clone, Copy, Structural)]
pub enum Builtin {
    /// Adds one to its one numeric argument.
    Increment,
    /// Adds up any number of numeric arguments.
    Sum,
}

/// Every argument is a number.
pub open spec fn all_numbers(args: Seq<MalView>) -> bool {
    forall|i: int| 0 <= i < args.len() ==> #[trigger] args[i] is Num
}

/// The exact total of the first `k` arguments, all numbers.
pub open spec fn total(args: Seq<MalView>, k: int) -> int
    decreases k,
{
    if k <= 0 || k > args.len() {
        0
    } else {
        total(args, k - 1) + args[k - 1]->Num_0
    }
}

/// The sum of the arguments: `TypeMismatch` if any of them is no number,
/// else the exact total, or `Unknown` where that total is out of the range of
/// `i32`.
pub open spec fn sum_spec(args: Seq<MalView>) -> Result<MalView, EvalErrView> {
    if !all_numbers(args) {
        Err(EvalErrView::TypeMismatch)
    } else if i32::MIN <= total(args, args.len() as int) <= i32::MAX {
        Ok(MalView::Num(total(args, args.len() as int) as i32))
    } else {
        Err(EvalErrView::Unknown)
    }
}

/// What a built-in operation gives for arguments already evaluated.
pub open spec fn call_spec(b: Builtin, args: Seq<MalView>) -> Result<MalView, EvalErrView> {
    match b {
        Builtin::Increment => if args.len() != 1 {
            Err(EvalErrView::ArityMismatch(1))
        } else {
            match args[0] {
                MalView::Num(n) => if n < i32::MAX {
                    Ok(MalView::Num((n + 1) as i32))
                } else {
                    Err(EvalErrView::Unknown)
                },
                _ => Err(EvalErrView::TypeMismatch),
            }
        },
        Builtin::Sum => sum_spec(args),
    }
}

/// Whether `count` arguments suit `arity`.
pub open spec fn arity_accepts(arity: Arity, count: int) -> bool {
    match arity {
        Arity::Variadic => true,
        Arity::Nary(n) => count == n,
    }
}

/// The operations that evaluation knows, by name.
pub open spec fn builtins() -> Map<Seq<char>, (Arity, Builtin)> {
    map![seq!['+', '1'] => (Arity::Nary(1), Builtin::Increment), seq!['+'] => (Arity::Variadic, Builtin::Sum)]
}

/// The value of an expression.
pub open spec fn eval_spec(m: MalView) -> Result<MalView, EvalErrView>
    decreases m, 0int,
{
    match m {
        MalView::List(s) => if s.len() == 0 {
            Err(EvalErrView::InvalidList)
        } else {
            match s[0] {
                MalView::Sym(name) => if builtins().contains_key(name) {
                    apply_spec(builtins()[name].0, builtins()[name].1, s)
                } else {
                    Err(EvalErrView::UndefinedSymbol(name))
                },
                _ => Err(EvalErrView::InvalidList),
            }
        },
        _ => Ok(m),
    }
}

/// Applying an operation to the list `s`, whose head names it: the arity is
/// checked against the number of arguments first, then the arguments are
/// evaluated, then the operation is called.
pub open spec fn apply_spec(arity: Arity, b: Builtin, s: Seq<MalView>) -> Result<MalView, EvalErrView>
    decreases s, s.len() + 2,
{
    if !arity_accepts(arity, s.len() - 1) {
        Err(EvalErrView::ArityMismatch(arity->Nary_0 as nat))
    } else {
        match eval_args_spec(s, 1, Seq::empty()) {
            Ok(vals) => call_spec(b, vals),
            Err(e) => Err(e),
        }
    }
}

/// The values of `s[i..]`, after those in `acc`; the first failure is the
/// result.
pub open spec fn eval_args_spec(s: Seq<MalView>, i: int, acc: Seq<MalView>) -> Result<
    Seq<MalView>,
    EvalErrView,
>
    decreases s, s.len() + 1 - i,
{
    if i < 0 || i >= s.len() {
        Ok(acc)
    } else {
        match eval_spec(s[i]) {
            Ok(v) => eval_args_spec(s, i + 1, acc.push(v)),
            Err(e) => Err(e),
        }
    }
}

/// The model of an evaluation result.
pub open spec fn eval_result_view(r: Result<Mal, EvalErr>) -> Result<MalView, EvalErrView> {
    match r {
        Ok(m) => Ok(m@),
        Err(e) => Err(e@),
    }
}

impl Builtin {
    /// Runs the operation on arguments already evaluated.
    pub fn call(&self, args: &Vec<Mal>) -> (r: Result<Mal, EvalErr>)
        ensures
            eval_result_view(r) == call_spec(*self, mal_views(args@)),
    {
        proof {
            lemma_mal_views(args@);
        }
        match self {
            Builtin::Increment => {
                if args.len() != 1 {
                    return Err(EvalErr::ArityMismatch(1));
                }
                match &args[0] {
                    Mal::Num(i) => if *i < i32::MAX {
                        Ok(Mal::Num(*i + 1))
                    } else {
                        Err(EvalErr::Unknown)
                    },
                    _ => Err(EvalErr::TypeMismatch),
                }
            },
            Builtin::Sum => {
                let ghost a = mal_views(args@);
                let mut sum: i128 = 0;
                let mut i: usize = 0;
                let n = args.len();
                assert(total(a, 0) == 0);
                while i < n
                    invariant
                        i <= n == args@.len() == a.len(),
                        a == mal_views(args@),
                        *self == Builtin::Sum,
                        forall|k: int| 0 <= k < args@.len() ==> #[trigger] a[k] == mal_view(args@[k]),
                        forall|k: int| 0 <= k < i ==> #[trigger] a[k] is Num,
                        sum == total(a, i as int),
                        -(i as int) * 2147483648 <= sum <= (i as int) * 2147483647,
                    decreases args@.len() - i,
                {
                    assert(a[i as int] == mal_view(args@[i as int]));
                    match &args[i] {
                        Mal::Num(n) => {
                            sum = sum + (*n as i128);
                        },
                        _ => {
                            return Err(EvalErr::TypeMismatch);
                        },
                    }
                    i = i + 1;
                }
                if i32::MIN as i128 <= sum && sum <= i32::MAX as i128 {
                    Ok(Mal::Num(sum as i32))
                } else {
                    Err(EvalErr::Unknown)
                }
            },
        }
    }
}

/// A named operation with its arity.
pub struct Func {
    pub name: String,
    pub arity: Arity,
    pub builtin: Builtin,
}

impl Func {
    pub fn new(name: &str, arity: Arity, builtin: Builtin) -> (r: Func)
        ensures
            r.name@ == name@,
            r.arity == arity,
            r.builtin == builtin,
    {
        Func { name: name.to_owned(), arity: arity, builtin: builtin }
    }

    /// Applies the operation to the list `args`, whose first element is the
    /// symbol that named it.
    pub fn apply(&self, args: &Vec<Mal>) -> (r: Result<Mal, EvalErr>)
        requires
            args@.len() >= 1,
        ensures
            eval_result_view(r) == apply_spec(self.arity, self.builtin, mal_views(args@)),
        decreases mal_views(args@), args@.len() + 1,
    {
        let ghost s = mal_views(args@);
        proof {
            lemma_mal_views(args@);
        }
        if let Arity::Nary(n) = self.arity {
            if args.len() - 1 != n {
                return Err(EvalErr::ArityMismatch(n));
            }
        }
        let mut evaled_args: Vec<Mal> = Vec::new();
        let mut i: usize = 1;
        proof {
            lemma_mal_views(evaled_args@);
            assert(mal_views(evaled_args@) =~= Seq::<MalView>::empty());
        }
        while i < args.len()
            invariant
                1 <= i <= args@.len() == s.len(),
                s == mal_views(args@),
                arity_accepts(self.arity, s.len() - 1),
                forall|k: int| 0 <= k < args@.len() ==> #[trigger] s[k] == mal_view(args@[k]),
                eval_args_spec(s, i as int, mal_views(evaled_args@)) == eval_args_spec(
                    s,
                    1,
                    Seq::empty(),
                ),
            decreases args@.len() - i,
        {
            assert(s[i as int] == mal_view(args@[i as int]));
            assert(decreases_to!(s => s[i as int]));
            match eval(&args[i]) {
                Ok(x) => {
                    let ghost before = evaled_args@;
                    evaled_args.push(x);
                    proof {
                        lemma_mal_views(before);
                        lemma_mal_views(evaled_args@);
                        assert(mal_views(evaled_args@) =~= mal_views(before).push(x@));
                    }
                },
                Err(e) => {
                    return Err(e);
                },
            }
            i = i + 1;
        }
        self.builtin.call(&evaled_args)
    }
}

/// The operations of a table, by name; a later entry under a name replaces
/// an earlier one.
pub open spec fn table_map(s: Seq<Func>) -> Map<Seq<char>, (Arity, Builtin)>
    decreases s.len(),
{
    if s.len() == 0 {
        Map::empty()
    } else {
        table_map(s.drop_last()).insert(s.last().name@, (s.last().arity, s.last().builtin))
    }
}

/// Entries after position `i` that carry other names do not change what the
/// table holds under `k`.
proof fn lemma_table_prefix(s: Seq<Func>, i: int, k: Seq<char>)
    requires
        0 <= i <= s.len(),
        forall|j: int| i <= j < s.len() ==> (#[trigger] s[j]).name@ != k,
    ensures
        table_map(s).contains_key(k) == table_map(s.subrange(0, i)).contains_key(k),
        table_map(s).contains_key(k) ==> table_map(s)[k] == table_map(s.subrange(0, i))[k],
    decreases s.len(),
{
    if i == s.len() {
        assert(s.subrange(0, i) =~= s);
    } else {
        let d = s.drop_last();
        assert(s[s.len() - 1].name@ != k);
        lemma_table_prefix(d, i, k);
        assert(d.subrange(0, i) =~= s.subrange(0, i));
    }
}

/// A table of named operations.
pub struct Scope {
    table: Vec<Func>,
}

impl View for Scope {
    type V = Map<Seq<char>, (Arity, Builtin)>;

    closed spec fn view(&self) -> Map<Seq<char>, (Arity, Builtin)> {
        table_map(self.table@)
    }
}

impl Scope {
    /// An empty table.
    pub fn new() -> (r: Scope)
        ensures
            r@ == Map::<Seq<char>, (Arity, Builtin)>::empty(),
    {
        let r = Scope { table: Vec::new() };
        assert(r.table@.len() == 0);
        r
    }

    /// Registers `func` under its name, in place of any operation of that
    /// name.
    pub fn add_func(&mut self, func: Func)
        ensures
            final(self)@ == old(self)@.insert(func.name@, (func.arity, func.builtin)),
    {
        let ghost before = self.table@;
        self.table.push(func);
        assert(self.table@.drop_last() =~= before);
    }

    /// The operation registered under `sym`.
    pub fn get_func(&self, sym: &str) -> (r: Option<&Func>)
        ensures
            match r {
                Some(f) => self@.contains_key(sym@) && self@[sym@] == (f.arity, f.builtin)
                    && f.name@ == sym@,
                None => !self@.contains_key(sym@),
            },
    {
        let key = sym.to_owned();
        let ghost s = self.table@;
        let mut i: usize = self.table.len();
        while i > 0
            invariant
                i <= s.len(),
                s == self.table@,
                key@ == sym@,
                forall|j: int| i <= j < s.len() ==> (#[trigger] s[j]).name@ != sym@,
            decreases i,
        {
            if self.table[i - 1].name == key {
                proof {
                    lemma_table_prefix(s, i as int, sym@);
                    assert(s.subrange(0, i as int).drop_last() =~= s.subrange(0, i - 1));
                    assert(s.subrange(0, i as int).last() == s[i - 1]);
                }
                return Some(&self.table[i - 1]);
            }
            i = i - 1;
        }
        proof {
            lemma_table_prefix(s, 0, sym@);
            assert(s.subrange(0, 0).len() == 0);
        }
        None
    }
}

/// Evaluates an expression with the built-in operations: `+1` takes one
/// number and adds one to it, `+` adds up any number of numbers.
pub fn eval(input: &Mal) -> (r: Result<Mal, EvalErr>)
    ensures
        eval_result_view(r) == eval_spec(input@),
    decreases input@, 0int,
{
    let mut global = Scope::new();
    proof {
        reveal_strlit("+1");
        reveal_strlit("+");
        assert("+1"@ =~= seq!['+', '1']);
        assert("+"@ =~= seq!['+']);
    }
    global.add_func(Func::new("+1", Arity::Nary(1), Builtin::Increment));
    global.add_func(Func::new("+", Arity::Variadic, Builtin::Sum));
    assert(global@ =~= builtins());
    match input {
        Mal::List(list) => {
            proof {
                lemma_mal_views(list@);
            }
            if list.len() > 0 {
                match &list[0] {
                    Mal::Sym(sym) => {
                        match global.get_func(sym.as_str()) {
                            Some(func) => func.apply(list),
                            None => Err(EvalErr::UndefinedSymbol(sym.clone())),
                        }
                    },
                    _ => Err(EvalErr::InvalidList),
                }
            } else {
                Err(EvalErr::InvalidList)
            }
        },
        Mal::Sym(s) => Ok(Mal::Sym(s.clone())),
        Mal::Str(s) => Ok(Mal::Str(s.clone())),
        Mal::Num(n) => Ok(Mal::Num(*n)),
    }
}

} // verus!
