use less_parser::lexer::{at_keyword, ident, junk, scan, scan_len, symbol, token, CharClass};
use less_parser::outcome::{cut, ParseError, Rule};

#[test]
fn junk_skips_whitespace_and_comments() {
    assert_eq!(junk("a"), "a");
    assert_eq!(junk(""), "");
    assert_eq!(junk(" \t\r\n\x0c a "), "a ");
    assert_eq!(junk("/* c */a"), "a");
    assert_eq!(junk("  /* c */ // line\n /**/ a"), "a");
    assert_eq!(junk("// to the end"), "");
    assert_eq!(junk("/* a * / ** */x"), "x");
    assert_eq!(junk("/*/ x */y"), "y");
}

#[test]
fn junk_stops_at_a_comment_that_is_never_closed() {
    assert_eq!(junk("  /* open"), "/* open");
    assert_eq!(junk("/*"), "/*");
    assert_eq!(junk("/ /"), "/ /");
}

#[test]
fn symbol_matches_after_junk() {
    assert_eq!(symbol(":", "  : x"), Ok((" x", ())));
    assert_eq!(symbol("()", "/* c */()()"), Ok(("()", ())));
    assert_eq!(symbol("!important", "!important;"), Ok((";", ())));
}

#[test]
fn symbol_fails_where_the_token_was_expected() {
    assert_eq!(
        symbol(":", "  x:"),
        Err(ParseError { rule: Rule::Symbol, rest: "x:", committed: false })
    );
    assert_eq!(
        symbol("()", " ( )"),
        Err(ParseError { rule: Rule::Symbol, rest: "( )", committed: false })
    );
    assert_eq!(symbol(";", ""), Err(ParseError { rule: Rule::Symbol, rest: "", committed: false }));
}

#[test]
fn ident_takes_the_longest_run() {
    assert_eq!(ident("foo-bar1 rest"), Ok((" rest", "foo-bar1".into())));
    assert_eq!(ident("a"), Ok(("", "a".into())));
    assert_eq!(ident("-webkit-x:"), Ok((":", "-webkit-x".into())));
    assert_eq!(ident("Az09_"), Ok(("_", "Az09".into())));
}

#[test]
fn ident_rejects_a_leading_digit_and_other_characters() {
    for input in ["", "1abc", " abc", "_a", "é", "@a", ".a"] {
        assert_eq!(
            ident(input),
            Err(ParseError { rule: Rule::Ident, rest: input, committed: false })
        );
    }
}

#[test]
fn at_keyword_returns_the_name() {
    assert_eq!(at_keyword(" @x:"), Ok((":", "x".into())));
    assert_eq!(at_keyword("/* c */@long-name ()"), Ok((" ()", "long-name".into())));
}

#[test]
fn at_keyword_fails_after_junk() {
    assert_eq!(
        at_keyword("  @1"),
        Err(ParseError { rule: Rule::AtKeyword, rest: "@1", committed: false })
    );
    assert_eq!(
        at_keyword(" x"),
        Err(ParseError { rule: Rule::AtKeyword, rest: "x", committed: false })
    );
    assert_eq!(
        at_keyword("@ x"),
        Err(ParseError { rule: Rule::AtKeyword, rest: "@ x", committed: false })
    );
}

#[test]
fn token_strips_junk_before_the_rule() {
    assert_eq!(token(ident, "  /* c */ abc def"), Ok((" def", "abc".into())));
    assert_eq!(
        token(ident, "  9"),
        Err(ParseError { rule: Rule::Ident, rest: "9", committed: false })
    );
}

#[test]
fn scan_splits_after_the_run() {
    assert_eq!(scan(CharClass::Digit, "123abc"), ("abc", "123"));
    assert_eq!(scan(CharClass::Digit, "abc"), ("abc", ""));
    assert_eq!(scan(CharClass::HexDigit, "09afAFg"), ("g", "09afAF"));
    assert_eq!(scan(CharClass::Letter, "pxé1"), ("é1", "px"));
    assert_eq!(scan(CharClass::Ident, "a-1"), ("", "a-1"));
    assert_eq!(scan_len(CharClass::Letter, "abc1"), 3);
    assert_eq!(scan_len(CharClass::Letter, ""), 0);
}

#[test]
fn char_classes() {
    assert!(CharClass::Ident.contains('-'));
    assert!(CharClass::Ident.contains('z'));
    assert!(CharClass::Ident.contains('0'));
    assert!(!CharClass::Ident.contains('_'));
    assert!(!CharClass::Digit.contains('a'));
    assert!(CharClass::HexDigit.contains('F'));
    assert!(!CharClass::HexDigit.contains('g'));
    assert!(!CharClass::Letter.contains('1'));
    assert!(!CharClass::Letter.contains('['));
    assert!(!CharClass::Letter.contains('`'));
}

#[test]
fn cut_commits_a_failure_and_keeps_a_success() {
    assert_eq!(
        cut(ident("1")),
        Err(ParseError { rule: Rule::Ident, rest: "1", committed: true })
    );
    assert_eq!(cut(ident("a1")), Ok(("", "a1".into())));
    let e = ParseError::no_match(Rule::Value, "x");
    assert_eq!(e, ParseError { rule: Rule::Value, rest: "x", committed: false });
    assert_eq!(e.commit(), ParseError::hard(Rule::Value, "x"));
}
