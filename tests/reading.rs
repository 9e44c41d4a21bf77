use mal::{lex, parse, parse_form, parse_list, print, read, tokenize, Mal, ParseErr, Scanner, Token};

#[test]
fn test_tokenize() {

    // test invalid
    assert_eq!(tokenize(""), None);
    assert_eq!(tokenize(";comment"), None);

    // test valid
    assert_eq!(tokenize("(").unwrap(), Token::L);
    assert_eq!(tokenize(")").unwrap(), Token::R);
    assert_eq!(tokenize("123").unwrap(), Token::Num(123));
    assert_eq!(tokenize("first").unwrap(), Token::Sym("first".to_string()));
    assert_eq!(tokenize("\"hello\"").unwrap(), Token::Str("hello".to_string()));
}

#[test]
fn test_lex() {

    assert_eq!(lex(""), []);
    assert_eq!(lex(";comment"), []);
    assert_eq!(lex("()"), [Token::L, Token::R]);
    assert_eq!(lex("( ) ;comment"), [Token::L, Token::R]);

    assert_eq!(
        lex("(+ 1 2 3 \"hello\" )"),
        [Token::L, Token::Sym("+".to_string()), Token::Num(1), Token::Num(2), Token::Num(3), Token::Str("hello".to_string()), Token::R]
    );
}

#[allow(dead_code)]
enum ReadPrintTestCase<'a, 'b> {
    Success(&'a str, &'b str),
    Error(&'a str, ParseErr),
}

#[test]
fn test_read_print() {

    let cases = [
        ReadPrintTestCase::Error("", ParseErr::Empty),
        ReadPrintTestCase::Error(";hohoho", ParseErr::Empty),
        ReadPrintTestCase::Error(" )", ParseErr::Unexpected(Token::R)),
        ReadPrintTestCase::Error("(", ParseErr::Unmatched(Token::R)),
        ReadPrintTestCase::Error("(;adsf", ParseErr::Unmatched(Token::R)),
        ReadPrintTestCase::Success("()", "()"),
        ReadPrintTestCase::Success(" (     ) ; hello", "()"),
        ReadPrintTestCase::Success("(+ 1 2 3)", "(+ 1 2 3)"),
        ReadPrintTestCase::Success("( + ( - 3 2 ) 1 )", "(+ (- 3 2) 1)"),
    ];

    for tup in &cases {
        match *tup {
            ReadPrintTestCase::Error(ref val, ref error) => assert_eq!(read(val).err().unwrap(), *error),
            ReadPrintTestCase::Success(ref val, ref expected) => assert_eq!(print(&read(val).unwrap()), *expected),
        }
    }
}

#[test]
fn tokenize_decodes_escapes_in_strings() {
    assert_eq!(tokenize("\"a\\\"b\"").unwrap(), Token::Str("a\"b".to_string()));
    assert_eq!(tokenize("\"a\\\\b\"").unwrap(), Token::Str("a\\b".to_string()));
    assert_eq!(tokenize("\"a\\nb\"").unwrap(), Token::Str("a\nb".to_string()));
}

#[test]
fn tokenize_reads_numerals_in_range() {
    assert_eq!(tokenize("2147483647").unwrap(), Token::Num(2147483647));
    assert_eq!(tokenize("007").unwrap(), Token::Num(7));
}

#[test]
fn read_refuses_a_numeral_that_does_not_parse() {
    assert_eq!(read("2147483648").err().unwrap(), ParseErr::InvalidNumber("2147483648".to_string()));
    assert_eq!(read("12ab").err().unwrap(), ParseErr::InvalidNumber("12ab".to_string()));
    assert_eq!(read("1a").err().unwrap(), ParseErr::InvalidNumber("1a".to_string()));
    assert_eq!(read("99999999999").err().unwrap(), ParseErr::InvalidNumber("99999999999".to_string()));
    assert_eq!(read("(+ 1 (+ 2 3x))").err().unwrap(), ParseErr::InvalidNumber("3x".to_string()));
}

#[test]
fn lex_stays_total_on_a_numeral_that_does_not_parse() {
    assert_eq!(lex("(12ab)"), [Token::L, Token::Sym("12ab".to_string()), Token::R]);
}

#[test]
fn lex_splits_punctuation_and_skips_commas() {
    assert_eq!(
        lex("~@a,[b]'c\t12"),
        [
            Token::Sym("~@".to_string()),
            Token::Sym("a".to_string()),
            Token::Sym("[".to_string()),
            Token::Sym("b".to_string()),
            Token::Sym("]".to_string()),
            Token::Sym("'".to_string()),
            Token::Sym("c".to_string()),
            Token::Num(12)
        ]
    );
}

#[test]
fn lex_comment_ends_at_line_break() {
    assert_eq!(lex("; note\n(x)"), [Token::L, Token::Sym("x".to_string()), Token::R]);
}

#[test]
fn lex_skips_an_unclosed_quote() {
    assert_eq!(lex("\"abc"), [Token::Sym("abc".to_string())]);
    assert_eq!(lex("(\"a b\")"), [Token::L, Token::Str("a b".to_string()), Token::R]);
}

#[test]
fn read_reports_empty_for_blank_and_comment_text() {
    assert_eq!(read("").err().unwrap(), ParseErr::Empty);
    assert_eq!(read(";comment").err().unwrap(), ParseErr::Empty);
    assert_eq!(read("  ,  ").err().unwrap(), ParseErr::Empty);
}

#[test]
fn read_reports_unexpected_and_unmatched() {
    assert_eq!(read(" )").err().unwrap(), ParseErr::Unexpected(Token::R));
    assert_eq!(read("(").err().unwrap(), ParseErr::Unmatched(Token::R));
    assert_eq!(read("(;x").err().unwrap(), ParseErr::Unmatched(Token::R));
    assert_eq!(read("((1)").err().unwrap(), ParseErr::Unmatched(Token::R));
}

#[test]
fn read_ignores_what_follows_the_first_form() {
    assert_eq!(print(&read("(a b) c )").unwrap()), "(a b)");
    assert_eq!(print(&read("x y").unwrap()), "x");
}

#[test]
fn print_then_read_gives_the_same_tree() {
    for text in ["(+ (- 3 2) 1)", "()", "(a (b (c)) 42 ())", "sym", "17", "([ ~@ ^ ~ x) y", "["] {
        let first = read(text).unwrap();
        let again = read(&print(&first)).unwrap();
        assert_eq!(again, first);
    }
}

#[test]
fn scanner_steps_without_changing_the_old_position() {
    let tokens = lex("(a 1)");
    let start = Scanner::new(&tokens);
    let (second, first_token) = start.next();
    assert_eq!(first_token, Some(Token::L));
    assert_eq!(start.peek(), Some(Token::L));
    assert_eq!(second.peek(), Some(Token::Sym("a".to_string())));
    let (after, form) = parse_form(start).unwrap();
    assert_eq!(after.pos, 4);
    assert_eq!(print(&form), "(a 1)");
    let (end, nothing) = after.next();
    assert_eq!(nothing, None);
    assert_eq!(end.pos, 4);
    assert_eq!(parse(&tokens).map(|m| print(&m)), Ok("(a 1)".to_string()));
}

#[test]
fn parser_wraps_every_symbol_token() {
    let one = vec![Token::Sym("1a".to_string())];
    let (after, form) = parse_form(Scanner::new(&one)).unwrap();
    assert_eq!(form, Mal::Sym("1a".to_string()));
    assert_eq!(after.pos, 1);

    let open = vec![Token::L, Token::Sym("1a".to_string())];
    assert_eq!(parse_list(Scanner::new(&open)).err().unwrap(), ParseErr::Unmatched(Token::R));

    let closed = vec![Token::L, Token::Sym("1a".to_string()), Token::R];
    let (end, list) = parse_list(Scanner::new(&closed)).unwrap();
    assert_eq!(end.pos, 3);
    assert_eq!(list, Mal::List(vec![Mal::Sym("1a".to_string())]));
}

#[test]
fn read_names_the_first_numeral_that_does_not_parse() {
    assert_eq!(read("(a 1b (2c))").err().unwrap(), ParseErr::InvalidNumber("1b".to_string()));
    assert_eq!(read("(1a").err().unwrap(), ParseErr::Unmatched(Token::R));
}
