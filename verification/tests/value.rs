use less_parser::ast::{InterpolatedValue, Selector, MixinSelector, Value};
use less_parser::outcome::{ParseError, Rule};
use less_parser::parser::mixin::{mixin_selector, mixin_simple_selector};
use less_parser::parser::selector::{class_selector, id_selector, selector, selector_group};
use less_parser::parser::value::{
    color, declaration_value, number, value_sequence, value_term, variable,
    variable_declaration_value,
};

#[test]
fn number_splits_digits_and_unit() {
    assert_eq!(number("10px;"), Ok((";", Value::Number { value: "10".into(), unit: "px".into() })));
    assert_eq!(number("1.5em"), Ok(("", Value::Number { value: "1.5".into(), unit: "em".into() })));
    assert_eq!(number("50% x"), Ok((" x", Value::Number { value: "50".into(), unit: "%".into() })));
    assert_eq!(number("0"), Ok(("", Value::Number { value: "0".into(), unit: "".into() })));
    assert_eq!(number("1.x"), Ok((".x", Value::Number { value: "1".into(), unit: "".into() })));
    assert_eq!(number("12.50%"), Ok(("", Value::Number { value: "12.50".into(), unit: "%".into() })));
    assert_eq!(number("3px2"), Ok(("2", Value::Number { value: "3".into(), unit: "px".into() })));
}

#[test]
fn number_needs_a_leading_digit() {
    for input in ["", "px", ".5", "-1", " 1"] {
        assert_eq!(
            number(input),
            Err(ParseError { rule: Rule::Value, rest: input, committed: false })
        );
    }
}

#[test]
fn color_needs_hexadecimal_digits() {
    assert_eq!(color("#fff;"), Ok((";", Value::Color("fff".into()))));
    assert_eq!(color("#00AAffzz"), Ok(("zz", Value::Color("00AAff".into()))));
    for input in ["", "#", "#xyz", "fff"] {
        assert_eq!(
            color(input),
            Err(ParseError { rule: Rule::Value, rest: input, committed: false })
        );
    }
}

#[test]
fn variable_reference() {
    assert_eq!(variable("@base;"), Ok((";", Value::Variable("base".into()))));
    for input in ["", "@", "@1", "base"] {
        assert_eq!(
            variable(input),
            Err(ParseError { rule: Rule::Value, rest: input, committed: false })
        );
    }
}

#[test]
fn value_term_tries_each_kind() {
    assert_eq!(value_term("'a' b"), Ok((" b", Value::QuotedString("a".into()))));
    assert_eq!(value_term("\"a\""), Ok(("", Value::QuotedString("a".into()))));
    assert_eq!(
        value_term("\"@{a}\""),
        Ok(("", Value::InterpolatedString(vec!["".into(), "".into()], vec![InterpolatedValue::Variable("a".into())])))
    );
    assert_eq!(value_term("10px"), Ok(("", Value::Number { value: "10".into(), unit: "px".into() })));
    assert_eq!(value_term("#abc"), Ok(("", Value::Color("abc".into()))));
    assert_eq!(value_term("@v"), Ok(("", Value::Variable("v".into()))));
    assert_eq!(value_term("red;"), Ok((";", Value::Ident("red".into()))));
    assert_eq!(value_term("-1px"), Ok(("", Value::Ident("-1px".into()))));
}

#[test]
fn value_term_failures() {
    assert_eq!(
        value_term(";"),
        Err(ParseError { rule: Rule::Value, rest: ";", committed: false })
    );
    assert_eq!(
        value_term(" red"),
        Err(ParseError { rule: Rule::Value, rest: " red", committed: false })
    );
    assert_eq!(
        value_term("\"open"),
        Err(ParseError { rule: Rule::StringEnd, rest: "", committed: true })
    );
}

#[test]
fn value_sequence_collects_terms() {
    assert_eq!(value_sequence(" red ;"), Ok((" ;", Value::Ident("red".into()))));
    assert_eq!(
        value_sequence("1px solid #000;"),
        Ok((
            ";",
            Value::List(vec![
                Value::Number { value: "1".into(), unit: "px".into() },
                Value::Ident("solid".into()),
                Value::Color("000".into()),
            ])
        ))
    );
    assert_eq!(
        value_sequence("a/* c */b"),
        Ok(("", Value::List(vec![Value::Ident("a".into()), Value::Ident("b".into())])))
    );
}

#[test]
fn value_sequence_failures() {
    assert_eq!(
        value_sequence("  ;"),
        Err(ParseError { rule: Rule::Value, rest: ";", committed: false })
    );
    assert_eq!(
        value_sequence("a 'b"),
        Err(ParseError { rule: Rule::StringEnd, rest: "", committed: true })
    );
}

#[test]
fn declaration_value_stops_before_the_terminator() {
    assert_eq!(declaration_value(" red !important;"), Ok((" !important;", Value::Ident("red".into()))));
    assert_eq!(declaration_value("'test';"), Ok((";", Value::QuotedString("test".into()))));
    assert_eq!(
        declaration_value("a, b c , 'd';"),
        Ok((
            ";",
            Value::CommaList(vec![
                Value::Ident("a".into()),
                Value::List(vec![Value::Ident("b".into()), Value::Ident("c".into())]),
                Value::QuotedString("d".into()),
            ])
        ))
    );
}

#[test]
fn declaration_value_failures() {
    assert_eq!(
        declaration_value(" ;"),
        Err(ParseError { rule: Rule::Value, rest: ";", committed: false })
    );
    assert_eq!(
        declaration_value("a, ;"),
        Err(ParseError { rule: Rule::Value, rest: ";", committed: true })
    );
    assert_eq!(
        declaration_value(""),
        Err(ParseError { rule: Rule::Value, rest: "", committed: false })
    );
}

#[test]
fn variable_declaration_value_has_the_same_grammar() {
    assert_eq!(
        variable_declaration_value(" 10px;"),
        Ok((";", Value::Number { value: "10".into(), unit: "px".into() }))
    );
    assert_eq!(
        variable_declaration_value("}"),
        Err(ParseError { rule: Rule::Value, rest: "}", committed: false })
    );
}

#[test]
fn id_and_class_selectors() {
    assert_eq!(id_selector("#main {"), Ok((" {", Selector::Id("main".into()))));
    assert_eq!(class_selector(".btn,"), Ok((",", Selector::Class("btn".into()))));
    assert_eq!(
        id_selector(".btn"),
        Err(ParseError { rule: Rule::Selector, rest: ".btn", committed: false })
    );
    assert_eq!(
        class_selector("#main"),
        Err(ParseError { rule: Rule::Selector, rest: "#main", committed: false })
    );
    assert_eq!(
        class_selector(".1"),
        Err(ParseError { rule: Rule::Selector, rest: ".1", committed: false })
    );
    assert_eq!(selector("  #a"), Ok(("", Selector::Id("a".into()))));
    assert_eq!(selector("/* c */.a b"), Ok((" b", Selector::Class("a".into()))));
    assert_eq!(
        selector("  a"),
        Err(ParseError { rule: Rule::Selector, rest: "a", committed: false })
    );
}

#[test]
fn selector_group_is_never_empty() {
    assert_eq!(selector_group(".a {"), Ok((" {", vec![Selector::Class("a".into())])));
    assert_eq!(
        selector_group(" .a , #b,.c{"),
        Ok(("{", vec![Selector::Class("a".into()), Selector::Id("b".into()), Selector::Class("c".into())]))
    );
}

#[test]
fn selector_group_rejects_a_stray_comma() {
    assert_eq!(
        selector_group(", .a {"),
        Err(ParseError { rule: Rule::Selector, rest: ", .a {", committed: false })
    );
    assert_eq!(
        selector_group(".a, {"),
        Err(ParseError { rule: Rule::Selector, rest: "{", committed: true })
    );
    assert_eq!(
        selector_group(".a,, .b {"),
        Err(ParseError { rule: Rule::Selector, rest: ", .b {", committed: true })
    );
    assert_eq!(
        selector_group(" {"),
        Err(ParseError { rule: Rule::Selector, rest: "{", committed: false })
    );
}

#[test]
fn mixin_selectors() {
    assert_eq!(mixin_simple_selector(".foo()"), Ok(("()", MixinSelector::Class("foo".into()))));
    assert_eq!(mixin_simple_selector("#ns;"), Ok((";", MixinSelector::Id("ns".into()))));
    assert_eq!(
        mixin_simple_selector(" .foo"),
        Err(ParseError { rule: Rule::Selector, rest: " .foo", committed: false })
    );
    assert_eq!(mixin_selector(" /* c */ .foo ()"), Ok((" ()", MixinSelector::Class("foo".into()))));
    assert_eq!(
        mixin_selector("  foo"),
        Err(ParseError { rule: Rule::Selector, rest: "foo", committed: false })
    );
}
