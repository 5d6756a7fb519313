use less_parser::ast::{InterpolatedValue, Value};
use less_parser::outcome::{ParseError, Rule};
use less_parser::parser::string::{
    interpolated_part, interpolated_string_tail, string, string_part,
};

#[test]
fn test_string() {
    let cases = vec![
        // Quoted strings
        ("'test'", Ok(("", Value::QuotedString("test".into())))),
        // Interpolated strings
        (
            "'a @{b}'",
            Ok((
                "",
                Value::InterpolatedString(
                    vec!["a ".into(), "".into()],
                    vec![InterpolatedValue::Variable("b".into())],
                ),
            )),
        ),
        (
            "'${a} b'",
            Ok((
                "",
                Value::InterpolatedString(
                    vec!["".into(), " b".into()],
                    vec![InterpolatedValue::Property("a".into())],
                ),
            )),
        ),
    ];

    for (input, expected) in cases {
        assert_eq!(string('\'', input), expected);
    }
}

#[test]
fn string_leaves_what_follows_the_closing_quote() {
    assert_eq!(string('"', "\"a b\" c"), Ok((" c", Value::QuotedString("a b".into()))));
    assert_eq!(string('\'', "'' x"), Ok((" x", Value::QuotedString("".into()))));
}

#[test]
fn string_keeps_the_other_quote_and_lone_markers() {
    assert_eq!(string('"', "\"it's @ $ { }\""), Ok(("", Value::QuotedString("it's @ $ { }".into()))));
    assert_eq!(string('\'', "'é\n'"), Ok(("", Value::QuotedString("é\n".into()))));
}

#[test]
fn string_with_several_references() {
    assert_eq!(
        string('"', "\"@{a}-${b}@{c}!\";"),
        Ok((
            ";",
            Value::InterpolatedString(
                vec!["".into(), "-".into(), "".into(), "!".into()],
                vec![
                    InterpolatedValue::Variable("a".into()),
                    InterpolatedValue::Property("b".into()),
                    InterpolatedValue::Variable("c".into()),
                ],
            ),
        ))
    );
}

#[test]
fn string_segments_outnumber_references_by_one() {
    match string('\'', "'x@{a}y${b}z'") {
        Ok((_, Value::InterpolatedString(segments, interpolations))) => {
            assert_eq!(segments.len(), interpolations.len() + 1);
            let mut text = String::new();
            for i in 0..interpolations.len() {
                text.push_str(&segments[i]);
                match &interpolations[i] {
                    InterpolatedValue::Variable(name) => text.push_str(&format!("@{{{}}}", name)),
                    InterpolatedValue::Property(name) => text.push_str(&format!("${{{}}}", name)),
                }
            }
            text.push_str(&segments[interpolations.len()]);
            assert_eq!(text, "x@{a}y${b}z");
        }
        other => panic!("unexpected result {:?}", other),
    }
}

#[test]
fn string_without_opening_quote_does_not_match() {
    assert_eq!(
        string('\'', "test'"),
        Err(ParseError { rule: Rule::StringStart, rest: "test'", committed: false })
    );
    assert_eq!(
        string('\'', "\"test\""),
        Err(ParseError { rule: Rule::StringStart, rest: "\"test\"", committed: false })
    );
    assert_eq!(
        string('\'', ""),
        Err(ParseError { rule: Rule::StringStart, rest: "", committed: false })
    );
}

#[test]
fn string_that_is_never_closed_is_a_committed_failure() {
    assert_eq!(
        string('\'', "'test"),
        Err(ParseError { rule: Rule::StringEnd, rest: "", committed: true })
    );
    assert_eq!(
        string('\'', "'a @{b} c"),
        Err(ParseError { rule: Rule::StringEnd, rest: "", committed: true })
    );
}

#[test]
fn string_with_malformed_reference_is_a_committed_failure() {
    assert_eq!(
        string('\'', "'a @{ b}'"),
        Err(ParseError { rule: Rule::Interpolation, rest: "@{ b}'", committed: true })
    );
    assert_eq!(
        string('\'', "'${1}'"),
        Err(ParseError { rule: Rule::Interpolation, rest: "${1}'", committed: true })
    );
    assert_eq!(
        string('\'', "'@{a'"),
        Err(ParseError { rule: Rule::Interpolation, rest: "@{a'", committed: true })
    );
}

#[test]
fn string_part_stops_before_quote_or_reference() {
    assert_eq!(string_part('\'', "abc'def"), Ok(("'def", "abc".into())));
    assert_eq!(string_part('\'', "abc@{d}"), Ok(("@{d}", "abc".into())));
    assert_eq!(string_part('\'', "abc${d}"), Ok(("${d}", "abc".into())));
    assert_eq!(string_part('\'', "'"), Ok(("'", "".into())));
    assert_eq!(string_part('"', "a'b\"c"), Ok(("\"c", "a'b".into())));
    assert_eq!(string_part('\'', "a@b$c{d'"), Ok(("'", "a@b$c{d".into())));
}

#[test]
fn string_part_fails_at_the_end_of_input() {
    assert_eq!(
        string_part('\'', "abc"),
        Err(ParseError { rule: Rule::StringEnd, rest: "", committed: false })
    );
    assert_eq!(
        string_part('\'', ""),
        Err(ParseError { rule: Rule::StringEnd, rest: "", committed: false })
    );
}

#[test]
fn interpolated_part_reads_one_reference() {
    assert_eq!(interpolated_part("@{abc}x"), Ok(("x", InterpolatedValue::Variable("abc".into()))));
    assert_eq!(interpolated_part("${a-b}"), Ok(("", InterpolatedValue::Property("a-b".into()))));
}

#[test]
fn interpolated_part_rejects_anything_else() {
    for input in ["", "abc", "@abc", "@{}", "@{a", "${a b}", "#{a}", " @{a}"] {
        assert_eq!(
            interpolated_part(input),
            Err(ParseError { rule: Rule::Interpolation, rest: input, committed: false })
        );
    }
}

#[test]
fn interpolated_string_tail_needs_a_reference() {
    assert_eq!(
        interpolated_string_tail('\'', "a".into(), "'"),
        Err(ParseError { rule: Rule::Interpolation, rest: "'", committed: false })
    );
    assert_eq!(
        interpolated_string_tail('\'', "a".into(), "@{b}c' d"),
        Ok((
            " d",
            Value::InterpolatedString(vec!["a".into(), "c".into()], vec![InterpolatedValue::Variable("b".into())])
        ))
    );
}
