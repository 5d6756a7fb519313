use less_parser::ast::{Item, MixinSelector, Selector, Stylesheet, Value};
use less_parser::outcome::{ParseError, Rule};
use less_parser::parser::{
    block_of_items, declaration, important, item, list_of_items, mixin_call, mixin_declaration,
    parse_stylesheet, qualified_rule, stylesheet, variable_call, variable_declaration,
    MAX_NESTING_DEPTH,
};

fn nested(levels: usize) -> String {
    let mut text = String::new();
    for _ in 0..levels {
        text.push_str(".a{");
    }
    for _ in 0..levels {
        text.push('}');
    }
    text
}

#[test]
fn mixin_declaration_with_one_declaration() {
    assert_eq!(
        parse_stylesheet(".btn() { color: blue; }"),
        Ok((
            "",
            Stylesheet {
                items: vec![Item::MixinDeclaration {
                    selector: MixinSelector::Class("btn".into()),
                    block: vec![Item::Declaration {
                        name: "color".into(),
                        value: Value::Ident("blue".into()),
                        important: false,
                    }],
                }],
            }
        ))
    );
}

#[test]
fn variable_declaration_of_a_length() {
    assert_eq!(
        item("@x: 10px;", MAX_NESTING_DEPTH),
        Ok((
            "",
            Item::VariableDeclaration {
                name: "x".into(),
                value: Value::Number { value: "10".into(), unit: "px".into() },
            }
        ))
    );
    assert_eq!(
        variable_declaration("@x: 10px;"),
        Ok((
            "",
            Item::VariableDeclaration {
                name: "x".into(),
                value: Value::Number { value: "10".into(), unit: "px".into() },
            }
        ))
    );
}

#[test]
fn important_declaration() {
    assert_eq!(
        item("color: red !important;", MAX_NESTING_DEPTH),
        Ok(("", Item::Declaration { name: "color".into(), value: Value::Ident("red".into()), important: true }))
    );
    assert_eq!(
        declaration("color: red;x"),
        Ok(("x", Item::Declaration { name: "color".into(), value: Value::Ident("red".into()), important: false }))
    );
}

#[test]
fn important_is_optional() {
    assert_eq!(important(" !important;"), Ok((";", true)));
    assert_eq!(important(" ;"), Ok((" ;", false)));
    assert_eq!(important("! important"), Ok(("! important", false)));
}

#[test]
fn mixin_call_is_not_a_qualified_rule() {
    assert_eq!(
        item(".foo();", MAX_NESTING_DEPTH),
        Ok(("", Item::MixinCall { selector: MixinSelector::Class("foo".into()) }))
    );
    assert_eq!(
        mixin_call(" #ns ( ) ;"),
        Err(ParseError { rule: Rule::Symbol, rest: "( ) ;", committed: false })
    );
    assert_eq!(
        mixin_call(" #ns () ;"),
        Ok(("", Item::MixinCall { selector: MixinSelector::Id("ns".into()) }))
    );
}

#[test]
fn mixin_declaration_is_chosen_when_a_block_follows() {
    assert_eq!(
        item(".foo() { color: red; }", MAX_NESTING_DEPTH),
        Ok((
            "",
            Item::MixinDeclaration {
                selector: MixinSelector::Class("foo".into()),
                block: vec![Item::Declaration {
                    name: "color".into(),
                    value: Value::Ident("red".into()),
                    important: false,
                }],
            }
        ))
    );
    assert_eq!(
        mixin_declaration(".foo();", MAX_NESTING_DEPTH),
        Err(ParseError { rule: Rule::Symbol, rest: ";", committed: false })
    );
}

#[test]
fn whitespace_and_comments_do_not_change_the_tree() {
    let plain = item("a:red;", MAX_NESTING_DEPTH);
    let spaced = item("a  :  red ;", MAX_NESTING_DEPTH);
    let commented = item("/* 1 */ a /* 2 */ : // 3\n red /* 4 */ ;", MAX_NESTING_DEPTH);
    let expected =
        Ok(("", Item::Declaration { name: "a".into(), value: Value::Ident("red".into()), important: false }));
    assert_eq!(plain, expected);
    assert_eq!(spaced, expected);
    assert_eq!(commented, expected);
}

#[test]
fn qualified_rule_with_nested_rule() {
    assert_eq!(
        parse_stylesheet(".a, #b { .c { x: y; } .m(); }\n"),
        Ok((
            "",
            Stylesheet {
                items: vec![Item::QualifiedRule {
                    selector_group: vec![Selector::Class("a".into()), Selector::Id("b".into())],
                    block: vec![
                        Item::QualifiedRule {
                            selector_group: vec![Selector::Class("c".into())],
                            block: vec![Item::Declaration {
                                name: "x".into(),
                                value: Value::Ident("y".into()),
                                important: false,
                            }],
                        },
                        Item::MixinCall { selector: MixinSelector::Class("m".into()) },
                    ],
                }],
            }
        ))
    );
    assert_eq!(
        qualified_rule(".a;", MAX_NESTING_DEPTH),
        Err(ParseError { rule: Rule::Symbol, rest: ";", committed: false })
    );
}

#[test]
fn variable_call_item() {
    assert_eq!(
        item(" @detached();", MAX_NESTING_DEPTH),
        Ok(("", Item::VariableCall { name: "detached".into() }))
    );
    assert_eq!(
        variable_call("@detached() x"),
        Err(ParseError { rule: Rule::Symbol, rest: "x", committed: true })
    );
    assert_eq!(
        variable_call("@detached: 1;"),
        Err(ParseError { rule: Rule::Symbol, rest: ": 1;", committed: false })
    );
}

#[test]
fn empty_and_blank_stylesheets() {
    assert_eq!(parse_stylesheet(""), Ok(("", Stylesheet { items: vec![] })));
    assert_eq!(parse_stylesheet("  /* nothing */ \n"), Ok(("", Stylesheet { items: vec![] })));
    assert_eq!(stylesheet("  x: y; z"), Ok((" z", Stylesheet {
        items: vec![Item::Declaration { name: "x".into(), value: Value::Ident("y".into()), important: false }],
    })));
    assert_eq!(list_of_items("}", 3), Ok(("}", vec![])));
}

#[test]
fn block_that_is_never_closed_is_a_committed_failure() {
    assert_eq!(
        block_of_items(" { color: red; ", 4),
        Err(ParseError { rule: Rule::Symbol, rest: "", committed: true })
    );
    assert_eq!(
        parse_stylesheet(".a { color: red;"),
        Err(ParseError { rule: Rule::Symbol, rest: "", committed: true })
    );
    assert_eq!(
        parse_stylesheet(".a() { .b {"),
        Err(ParseError { rule: Rule::Symbol, rest: "", committed: true })
    );
    assert_eq!(block_of_items("{}", 1), Ok(("", vec![])));
    assert_eq!(
        block_of_items(" x", 1),
        Err(ParseError { rule: Rule::Symbol, rest: "x", committed: false })
    );
}

#[test]
fn failure_after_the_colon_is_committed() {
    assert_eq!(
        item("color: ;", MAX_NESTING_DEPTH),
        Err(ParseError { rule: Rule::Value, rest: ";", committed: true })
    );
    assert_eq!(
        item("color: red", MAX_NESTING_DEPTH),
        Err(ParseError { rule: Rule::Symbol, rest: "", committed: true })
    );
    assert_eq!(
        item("@x: ;", MAX_NESTING_DEPTH),
        Err(ParseError { rule: Rule::Value, rest: ";", committed: true })
    );
    assert_eq!(
        item("@x: 1 }", MAX_NESTING_DEPTH),
        Err(ParseError { rule: Rule::Symbol, rest: "}", committed: true })
    );
    assert_eq!(
        item(".foo() x", MAX_NESTING_DEPTH),
        Err(ParseError { rule: Rule::Symbol, rest: "x", committed: true })
    );
    assert_eq!(
        declaration("color red;"),
        Err(ParseError { rule: Rule::Symbol, rest: "red;", committed: false })
    );
}

#[test]
fn item_that_matches_no_kind() {
    assert_eq!(
        item("  }", MAX_NESTING_DEPTH),
        Err(ParseError { rule: Rule::Item, rest: "}", committed: false })
    );
    assert_eq!(
        item("color red;", MAX_NESTING_DEPTH),
        Err(ParseError { rule: Rule::Item, rest: "color red;", committed: false })
    );
    assert_eq!(item("", 0), Err(ParseError { rule: Rule::Item, rest: "", committed: false }));
}

#[test]
fn trailing_input_is_a_failure() {
    assert_eq!(
        parse_stylesheet("a: b; }"),
        Err(ParseError { rule: Rule::EndOfInput, rest: "}", committed: true })
    );
    assert_eq!(
        parse_stylesheet("a: b; /* open"),
        Err(ParseError { rule: Rule::EndOfInput, rest: "/* open", committed: true })
    );
    assert_eq!(
        parse_stylesheet(", .a { }"),
        Err(ParseError { rule: Rule::EndOfInput, rest: ", .a { }", committed: true })
    );
}

#[test]
fn nesting_is_limited() {
    let deepest = nested(MAX_NESTING_DEPTH);
    match parse_stylesheet(&deepest) {
        Ok((rest, sheet)) => {
            assert_eq!(rest, "");
            assert_eq!(sheet.items.len(), 1);
        }
        Err(e) => panic!("unexpected failure {:?}", e),
    }
    let too_deep = nested(MAX_NESTING_DEPTH + 1);
    match parse_stylesheet(&too_deep) {
        Ok(_) => panic!("nesting beyond the limit was accepted"),
        Err(e) => {
            assert_eq!(e.rule, Rule::NestingDepth);
            assert!(e.committed);
            assert_eq!(e.rest, format!("{{{}", "}".repeat(MAX_NESTING_DEPTH + 1)));
        }
    }
    assert_eq!(
        block_of_items("{}", 0),
        Err(ParseError { rule: Rule::NestingDepth, rest: "{}", committed: true })
    );
    assert_eq!(
        item(".a { }", 0),
        Err(ParseError { rule: Rule::NestingDepth, rest: "{ }", committed: true })
    );
}

#[test]
fn failure_offset_counts_characters() {
    let source = "a: b; }";
    match parse_stylesheet(source) {
        Err(e) => assert_eq!(e.offset(source), 6),
        Ok(_) => panic!("trailing input was accepted"),
    }
    let source = "é: 'ü";
    match parse_stylesheet(source) {
        Err(e) => {
            assert_eq!(e.rule, Rule::EndOfInput);
            assert_eq!(e.offset(source), 0);
        }
        Ok(_) => panic!("a name outside the identifier alphabet was accepted"),
    }
    let source = "x: 'éü";
    match parse_stylesheet(source) {
        Err(e) => {
            assert_eq!(e.rule, Rule::StringEnd);
            assert_eq!(e.offset(source), 6);
        }
        Ok(_) => panic!("an open string was accepted"),
    }
    assert_eq!(ParseError::hard(Rule::Item, "longer").offset("long"), 0);
    assert_eq!(ParseError::hard(Rule::Item, "").offset(""), 0);
}

#[test]
fn comments_between_the_tokens_of_every_kind_of_item() {
    assert_eq!(
        item("/* a */ .a /* b */ , // c\n #b /* d */ { }", MAX_NESTING_DEPTH),
        Ok((
            "",
            Item::QualifiedRule {
                selector_group: vec![Selector::Class("a".into()), Selector::Id("b".into())],
                block: vec![],
            }
        ))
    );
    assert_eq!(
        item(" @x /**/ : /**/ 10px /**/ ; y", MAX_NESTING_DEPTH),
        Ok((
            " y",
            Item::VariableDeclaration {
                name: "x".into(),
                value: Value::Number { value: "10".into(), unit: "px".into() },
            }
        ))
    );
    assert_eq!(
        item(" @d /**/ () /**/ ;", MAX_NESTING_DEPTH),
        Ok(("", Item::VariableCall { name: "d".into() }))
    );
    assert_eq!(
        item(" .m /**/ () /**/ ;", MAX_NESTING_DEPTH),
        Ok(("", Item::MixinCall { selector: MixinSelector::Class("m".into()) }))
    );
    assert_eq!(
        item(" #m /**/ () /**/ { /**/ }", MAX_NESTING_DEPTH),
        Ok(("", Item::MixinDeclaration { selector: MixinSelector::Id("m".into()), block: vec![] }))
    );
    assert_eq!(
        item("a: 'x' /**/ !important /**/ ;", MAX_NESTING_DEPTH),
        Ok(("", Item::Declaration { name: "a".into(), value: Value::QuotedString("x".into()), important: true }))
    );
}

#[test]
fn committed_failure_inside_a_block_ends_the_parse() {
    assert_eq!(
        parse_stylesheet(".a { b: ; } c: d;"),
        Err(ParseError { rule: Rule::Value, rest: "; } c: d;", committed: true })
    );
    assert_eq!(
        list_of_items("a: b; c: 'd", 2),
        Err(ParseError { rule: Rule::StringEnd, rest: "", committed: true })
    );
    assert_eq!(
        item(".a, { }", MAX_NESTING_DEPTH),
        Err(ParseError { rule: Rule::Selector, rest: "{ }", committed: true })
    );
}
