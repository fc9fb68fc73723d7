use lisp_core::expr::{Expr, E};
use lisp_core::reader::{only, parse, parse_tokens, parse_words, read, ReadError};
use lisp_core::roundtrip::{is_plain, is_plain_word, is_readable};
use lisp_core::render::{render, render_into};
use lisp_core::token::{
    classify, is_whitespace, patterns_accepted, split_words, tokenize, word_is_token, Token,
    TokenError,
};

fn a(name: &str) -> E {
    Expr::Atom(name.to_string())
}

fn l(items: Vec<E>) -> E {
    Expr::List(items)
}

#[test]
fn render_atom() {
    assert_eq!(render(&a("abc")), "abc");
}

#[test]
fn render_empty_list() {
    assert_eq!(render(&l(vec![])), "()");
}

#[test]
fn render_flat_list() {
    assert_eq!(render(&l(vec![a("a"), a("b"), a("c")])), "(a b c)");
    assert_eq!(render(&l(vec![a("a")])), "(a)");
}

#[test]
fn render_nested_list() {
    let e = l(vec![a("cons"), l(vec![a("quote"), a("a")]), l(vec![l(vec![]), l(vec![a("b")])])]);
    assert_eq!(render(&e), "(cons (quote a) (() (b)))");
}

#[test]
fn render_into_appends() {
    let mut out = String::from("=> ");
    render_into(&l(vec![a("x"), a("y")]), &mut out);
    assert_eq!(out, "=> (x y)");
}

#[test]
fn whitespace_is_what_the_standard_library_calls_whitespace() {
    let mut n: u32 = 0;
    while n <= 0x10FFFF {
        if let Some(c) = char::from_u32(n) {
            assert_eq!(is_whitespace(c), c.is_whitespace(), "U+{:04X}", n);
        }
        n += 1;
    }
}

#[test]
fn split_words_at_white_space_and_brackets() {
    assert_eq!(split_words("(car (quote (a b)))"), vec!["(", "car", "(", "quote", "(", "a", "b", ")", ")", ")"]);
    assert_eq!(split_words("  a\tb\n\nc  "), vec!["a", "b", "c"]);
    assert_eq!(split_words("a(b)c"), vec!["a", "(", "b", ")", "c"]);
    assert_eq!(split_words("x\u{3000}y\u{a0}z"), vec!["x", "y", "z"]);
}

#[test]
fn split_words_of_an_empty_text() {
    assert_eq!(split_words(""), Vec::<String>::new());
    assert_eq!(split_words(" \n "), Vec::<String>::new());
}

fn pairs(tokens: &Vec<Token>) -> Vec<(&str, &str)> {
    tokens.iter().map(|t| (t.name, t.value.as_str())).collect()
}

#[test]
fn tokenize_names_the_kinds() {
    let tokens = tokenize("(mul x1 42 * foo)").unwrap();
    assert_eq!(
        pairs(&tokens),
        vec![
            ("paren", "("),
            ("name", "mul"),
            ("number", "x1"),
            ("number", "42"),
            ("punctuation", "*"),
            ("name", "foo"),
            ("paren", ")"),
        ]
    );
}

#[test]
fn tokenize_a_digit_decides_before_a_letter_and_a_letter_before_an_asterisk() {
    let tokens = tokenize("a* *1 a1* **").unwrap();
    assert_eq!(
        pairs(&tokens),
        vec![("name", "a*"), ("number", "*1"), ("number", "a1*"), ("punctuation", "**")]
    );
}

#[test]
fn tokenize_an_empty_text() {
    assert_eq!(pairs(&tokenize("").unwrap()), vec![]);
    assert_eq!(pairs(&tokenize("()").unwrap()), vec![("paren", "("), ("paren", ")")]);
}

#[test]
fn tokenize_rejects_a_word_of_no_kind() {
    assert_eq!(tokenize("(a + b)").err(), Some(TokenError::InvalidWord));
    assert_eq!(tokenize("-").err(), Some(TokenError::InvalidWord));
}

#[test]
fn tokenize_only_ascii_letters_and_digits_count() {
    assert_eq!(tokenize("\u{e9}").err(), Some(TokenError::InvalidWord));
    assert_eq!(tokenize("\u{663}").err(), Some(TokenError::InvalidWord));
}

#[test]
fn classify_takes_the_first_pattern_that_matches() {
    let t = classify("w".to_string(), false, true, true, true).unwrap().unwrap();
    assert_eq!((t.name, t.value.as_str()), ("number", "w"));
    let t = classify("w".to_string(), false, false, true, true).unwrap().unwrap();
    assert_eq!((t.name, t.value.as_str()), ("name", "w"));
    let t = classify("w".to_string(), false, false, false, true).unwrap().unwrap();
    assert_eq!((t.name, t.value.as_str()), ("punctuation", "w"));
    assert!(classify("w".to_string(), true, true, true, true).unwrap().is_none());
    assert_eq!(
        classify("w".to_string(), false, false, false, false).err(),
        Some(TokenError::InvalidWord)
    );
}

#[test]
fn read_an_atom() {
    assert_eq!(read("abc"), Ok(a("abc")));
    assert_eq!(read("  x1\n"), Ok(a("x1")));
}

#[test]
fn read_lists() {
    assert_eq!(read("()"), Ok(l(vec![])));
    assert_eq!(read("(a b c)"), Ok(l(vec![a("a"), a("b"), a("c")])));
    assert_eq!(
        read("(cons (quote a)(()  (b)))"),
        Ok(l(vec![a("cons"), l(vec![a("quote"), a("a")]), l(vec![l(vec![]), l(vec![a("b")])])]))
    );
}

#[test]
fn read_reports_brackets_that_do_not_match() {
    assert_eq!(read("(a (b)"), Err(ReadError::UnclosedList));
    assert_eq!(read("("), Err(ReadError::UnclosedList));
    assert_eq!(read("a)"), Err(ReadError::UnexpectedClose));
    assert_eq!(read(")("), Err(ReadError::UnexpectedClose));
    assert_eq!(read("(a))"), Err(ReadError::UnexpectedClose));
}

#[test]
fn read_wants_one_expression() {
    assert_eq!(read(""), Err(ReadError::NoExpression));
    assert_eq!(read("a b"), Err(ReadError::TrailingExpression));
    assert_eq!(read("(a) (b)"), Err(ReadError::TrailingExpression));
}

#[test]
fn read_reports_a_word_of_no_kind() {
    assert_eq!(read("(a + b)"), Err(ReadError::Token(TokenError::InvalidWord)));
}

#[test]
fn parse_tokens_gives_every_expression() {
    let tokens = tokenize("a (b c) ()").unwrap();
    assert_eq!(parse_tokens(&tokens), Ok(vec![a("a"), l(vec![a("b"), a("c")]), l(vec![])]));
}

#[test]
fn reading_the_written_form_gives_the_expression_back() {
    let samples = vec![
        a("x"),
        l(vec![]),
        l(vec![a("a")]),
        l(vec![l(vec![l(vec![])])]),
        l(vec![a("defun"), a("f"), l(vec![a("x"), a("y2")]), l(vec![a("cons"), a("x"), l(vec![a("cdr"), a("y2")])])]),
        l(vec![a("*"), l(vec![]), a("42"), l(vec![a("a*b")])]),
    ];
    for e in samples {
        assert_eq!(read(&render(&e)), Ok(e));
    }
}

#[test]
fn an_atom_that_is_no_word_does_not_come_back() {
    assert_eq!(read(&render(&a("a b"))), Err(ReadError::TrailingExpression));
    assert_eq!(read(&render(&a(""))), Err(ReadError::NoExpression));
    assert_eq!(read(&render(&a("(x"))), Err(ReadError::UnclosedList));
    assert_eq!(read(&render(&a("+"))), Err(ReadError::Token(TokenError::InvalidWord)));
}

#[test]
fn parse_takes_every_word_as_an_atom() {
    assert_eq!(parse("abc"), Ok(a("abc")));
    assert_eq!(parse("(a + b)"), Ok(l(vec![a("a"), a("+"), a("b")])));
    assert_eq!(parse(" ( - (\u{e9}) ) "), Ok(l(vec![a("-"), l(vec![a("\u{e9}")])])));
    assert_eq!(parse("()"), Ok(l(vec![])));
}

#[test]
fn parse_reports_what_is_no_expression() {
    assert_eq!(parse(""), Err(ReadError::NoExpression));
    assert_eq!(parse("a b"), Err(ReadError::TrailingExpression));
    assert_eq!(parse("(a"), Err(ReadError::UnclosedList));
    assert_eq!(parse("a)"), Err(ReadError::UnexpectedClose));
}

#[test]
fn parse_words_gives_every_expression() {
    let words: Vec<String> = vec!["a", "(", "b", "+", ")", "(", ")"].into_iter().map(String::from).collect();
    assert_eq!(parse_words(&words), Ok(vec![a("a"), l(vec![a("b"), a("+")]), l(vec![])]));
    assert_eq!(parse_words(&vec![]), Ok(vec![]));
}

#[test]
fn only_wants_one_expression() {
    assert_eq!(only(vec![a("x")]), Ok(a("x")));
    assert_eq!(only(vec![]), Err(ReadError::NoExpression));
    assert_eq!(only(vec![a("x"), a("y")]), Err(ReadError::TrailingExpression));
}

#[test]
fn parsing_the_written_form_gives_the_expression_back() {
    let samples = vec![
        a("x"),
        a("+"),
        a("\u{e9}t\u{e9}"),
        l(vec![]),
        l(vec![l(vec![l(vec![])])]),
        l(vec![a("-"), l(vec![a("a.b"), a("'")]), a("42"), l(vec![])]),
        l(vec![a("defun"), a("f"), l(vec![a("x")]), l(vec![a("car"), a("x")])]),
    ];
    for e in samples {
        assert!(is_plain(&e));
        assert_eq!(parse(&render(&e)), Ok(e));
    }
}

#[test]
fn plain_words() {
    assert!(is_plain_word("abc"));
    assert!(is_plain_word("+"));
    assert!(!is_plain_word(""));
    assert!(!is_plain_word("a b"));
    assert!(!is_plain_word("a\tb"));
    assert!(!is_plain_word("a\u{3000}"));
    assert!(!is_plain_word("(a"));
    assert!(!is_plain_word("a)"));
    assert!(!is_plain_word(")"));
}

#[test]
fn an_expression_with_an_atom_that_is_no_word_is_not_plain() {
    assert!(!is_plain(&a("a b")));
    assert!(!is_plain(&a("")));
    assert!(!is_plain(&l(vec![a("ok"), l(vec![a("(")])])));
    assert!(is_plain(&l(vec![a("ok"), l(vec![a("+")])])));
    assert_ne!(parse(&render(&a("a b"))), Ok(a("a b")));
    assert_ne!(parse(&render(&l(vec![a("")]))), Ok(l(vec![a("")])));
}

#[test]
fn readable_expressions_come_back_by_way_of_the_tokens() {
    let good = l(vec![a("cons"), a("x1"), l(vec![a("*"), l(vec![])])]);
    assert!(is_readable(&good));
    assert_eq!(read(&render(&good)), Ok(good));
    assert!(is_readable(&l(vec![])));
    assert!(!is_readable(&a("+")));
    assert!(!is_readable(&l(vec![a("a"), l(vec![a("-")])])));
    assert!(!is_readable(&a("a b")));
    assert!(!is_readable(&a("")));
    assert!(!is_readable(&a("(")));
}

#[test]
fn words_that_become_tokens() {
    assert!(patterns_accepted());
    assert!(word_is_token("abc"));
    assert!(word_is_token("42"));
    assert!(word_is_token("*"));
    assert!(word_is_token("("));
    assert!(word_is_token(")"));
    assert!(!word_is_token("+"));
    assert!(!word_is_token(""));
    assert!(!word_is_token("a b"));
}
