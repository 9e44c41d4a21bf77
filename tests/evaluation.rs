use mal::{eval, print, read, Arity, Builtin, EvalErr, Func, Mal, Scope};

fn run(text: &str) -> Result<Mal, EvalErr> {
    eval(&read(text).unwrap())
}

#[test]
fn sum_adds_its_arguments() {
    assert_eq!(run("(+ 1 2 3)"), Ok(Mal::Num(6)));
    assert_eq!(run("(+)"), Ok(Mal::Num(0)));
    assert_eq!(run("(+ (+ 1 2) (+1 3))"), Ok(Mal::Num(7)));
}

#[test]
fn increment_takes_exactly_one_argument() {
    assert_eq!(run("(+1 5)"), Ok(Mal::Num(6)));
    assert_eq!(run("(+1 5 6)"), Err(EvalErr::ArityMismatch(1)));
    assert_eq!(run("(+1)"), Err(EvalErr::ArityMismatch(1)));
}

#[test]
fn arity_is_checked_before_arguments_are_evaluated() {
    assert_eq!(run("(+1 (foo) 2)"), Err(EvalErr::ArityMismatch(1)));
}

#[test]
fn unknown_head_is_undefined() {
    assert_eq!(run("(foo 1)"), Err(EvalErr::UndefinedSymbol("foo".to_string())));
}

#[test]
fn non_numbers_are_a_type_mismatch() {
    assert_eq!(run("(+ 1 \"x\")"), Err(EvalErr::TypeMismatch));
    assert_eq!(run("(+1 a)"), Err(EvalErr::TypeMismatch));
}

#[test]
fn bad_lists_are_invalid() {
    assert_eq!(run("()"), Err(EvalErr::InvalidList));
    assert_eq!(run("(1 2)"), Err(EvalErr::InvalidList));
}

#[test]
fn first_failing_argument_decides() {
    assert_eq!(run("(+ (foo) (+ 1 \"x\"))"), Err(EvalErr::UndefinedSymbol("foo".to_string())));
}

#[test]
fn atoms_evaluate_to_themselves() {
    assert_eq!(run("abc"), Ok(Mal::Sym("abc".to_string())));
    assert_eq!(run("\"s\""), Ok(Mal::Str("s".to_string())));
    assert_eq!(run("42"), Ok(Mal::Num(42)));
}

#[test]
fn results_out_of_range_are_unknown() {
    assert_eq!(run("(+ 2147483647 1)"), Err(EvalErr::Unknown));
    assert_eq!(run("(+1 2147483647)"), Err(EvalErr::Unknown));
    assert_eq!(run("(+ 2147483647 0)"), Ok(Mal::Num(2147483647)));
}

#[test]
fn print_writes_numbers_in_decimal() {
    assert_eq!(print(&Mal::Num(-15)), "-15");
    assert_eq!(print(&Mal::Num(i32::MIN)), "-2147483648");
    assert_eq!(print(&Mal::Num(0)), "0");
    assert_eq!(print(&Mal::Str("a b".to_string())), "a b");
    assert_eq!(print(&Mal::List(vec![])), "()");
}

#[test]
fn scope_lookup_finds_the_latest_registration() {
    let mut scope = Scope::new();
    assert!(scope.get_func("+").is_none());
    scope.add_func(Func::new("+", Arity::Variadic, Builtin::Sum));
    scope.add_func(Func::new("inc", Arity::Nary(1), Builtin::Increment));
    scope.add_func(Func::new("+", Arity::Nary(2), Builtin::Sum));
    let f = scope.get_func("+").unwrap();
    assert_eq!(f.arity, Arity::Nary(2));
    assert_eq!(scope.get_func("inc").unwrap().builtin, Builtin::Increment);
    assert!(scope.get_func("-").is_none());
}

#[test]
fn apply_checks_arity_then_calls() {
    let f = Func::new("inc", Arity::Nary(1), Builtin::Increment);
    let args = vec![Mal::Sym("inc".to_string()), Mal::Num(4)];
    assert_eq!(f.apply(&args), Ok(Mal::Num(5)));
    let too_many = vec![Mal::Sym("inc".to_string()), Mal::Num(4), Mal::Num(5)];
    assert_eq!(f.apply(&too_many), Err(EvalErr::ArityMismatch(1)));
}

#[test]
fn clone_copies_the_whole_tree() {
    let m = read("(a (b 1) \"s\" ())").unwrap();
    let c = m.clone();
    assert_eq!(c, m);
    assert_eq!(print(&c), "(a (b 1) s ())");
}

fn sym(s: &str) -> Mal {
    Mal::Sym(s.to_string())
}

#[test]
fn sum_uses_the_exact_total() {
    let fits = Mal::List(vec![sym("+"), Mal::Num(2147483647), Mal::Num(1), Mal::Num(-1)]);
    assert_eq!(eval(&fits), Ok(Mal::Num(2147483647)));
    let below = Mal::List(vec![sym("+"), Mal::Num(i32::MIN), Mal::Num(-1)]);
    assert_eq!(eval(&below), Err(EvalErr::Unknown));
    assert_eq!(run("(+ 1 (+1 2))"), Ok(Mal::Num(4)));
}

#[test]
fn sum_reports_a_non_number_even_after_a_large_partial_total() {
    let mixed = Mal::List(vec![
        sym("+"),
        Mal::Num(2147483647),
        Mal::Num(1),
        Mal::Str("x".to_string()),
    ]);
    assert_eq!(eval(&mixed), Err(EvalErr::TypeMismatch));
}
