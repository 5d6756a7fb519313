//! The right-hand side of declarations: strings, numbers, colours,
//! variable references and identifiers, alone or in lists.

use std::borrow::Cow;
use vstd::prelude::*;
use vstd::string::StrSliceExecFns;
use crate::ast::{lemma_deep_view_empty, lemma_deep_view_push, lemma_list_view, Value, ValueView};
use crate::lexer::{
    ident, junk, lemma_run_len_bound, lemma_strip_junk_shorter, run_len, scan, scan_len,
    spec_ident, spec_symbol, strip_junk, symbol, CharClass,
};
use crate::outcome::{commit_failure, no_match, or_else, outcome, Outcome, ParseError, Parsed, Rule};
use crate::parser::string::{lemma_string_consumes, spec_string, string};
use crate::text::{char_count_fits, one_char, starts_with_char, take};

verus! {

/// The number of characters of the digits of a number at the start of `s`:
/// a run of digits, and a fraction if a dot and at least one digit follow.
pub open spec fn number_len(s: Seq<char>) -> nat {
    let whole = run_len(s, CharClass::Digit);
    let after = s.skip(whole as int);
    if starts_with_char(after, '.') && run_len(after.skip(1), CharClass::Digit) > 0 {
        whole + 1 + run_len(after.skip(1), CharClass::Digit)
    } else {
        whole
    }
}

/// The number of characters of the unit at the start of `s`: a percent sign,
/// or a run of letters, which may be empty.
pub open spec fn unit_len(s: Seq<char>) -> nat {
    if starts_with_char(s, '%') {
        1
    } else {
        run_len(s, CharClass::Letter)
    }
}

/// A number with its unit at the very start of `s`. It must begin with a
/// digit.
pub open spec fn spec_number(s: Seq<char>) -> Outcome<ValueView> {
    if run_len(s, CharClass::Digit) == 0 {
        Err(no_match(Rule::Value, s))
    } else {
        let n = number_len(s) as int;
        let u = unit_len(s.skip(n)) as int;
        Ok((s.skip(n).skip(u), ValueView::Number { value: s.take(n), unit: s.skip(n).take(u) }))
    }
}

/// The digits and the unit lie within the input.
pub proof fn lemma_number_bounds(s: Seq<char>)
    ensures
        run_len(s, CharClass::Digit) <= number_len(s) <= s.len(),
        unit_len(s.skip(number_len(s) as int)) <= s.len() - number_len(s),
{
    lemma_run_len_bound(s, CharClass::Digit);
    let whole = run_len(s, CharClass::Digit) as int;
    lemma_run_len_bound(s.skip(whole).skip(1), CharClass::Digit);
    lemma_run_len_bound(s.skip(number_len(s) as int), CharClass::Letter);
}

/// Recognizes a number with its unit, such as `10px`, `1.5` or `50%`.
pub fn number<'a>(input: &'a str) -> (r: Parsed<'a, Value<'a>>)
    ensures
        outcome(r) == spec_number(input@),
{
    char_count_fits(input);
    proof {
        lemma_number_bounds(input@);
    }
    let whole_len = scan_len(CharClass::Digit, input);
    if whole_len == 0 {
        return Err(ParseError::no_match(Rule::Value, input));
    }
    let (after_whole, _) = take(whole_len, input).unwrap();
    let fraction_len = match one_char('.', after_whole) {
        Some(after_dot) => scan_len(CharClass::Digit, after_dot),
        None => 0,
    };
    let digits_len = if fraction_len > 0 {
        whole_len + 1 + fraction_len
    } else {
        whole_len
    };
    let (after_digits, value) = take(digits_len, input).unwrap();
    let (rest, unit) = match one_char('%', after_digits) {
        Some(_) => take(1, after_digits).unwrap(),
        None => scan(CharClass::Letter, after_digits),
    };
    Ok((rest, Value::Number { value: Cow::Borrowed(value), unit: Cow::Borrowed(unit) }))
}

/// A colour at the very start of `s`: `#` and at least one hexadecimal
/// digit.
pub open spec fn spec_color(s: Seq<char>) -> Outcome<ValueView> {
    let n = run_len(s.skip(1), CharClass::HexDigit) as int;
    if starts_with_char(s, '#') && n > 0 {
        Ok((s.skip(1).skip(n), ValueView::Color(s.skip(1).take(n))))
    } else {
        Err(no_match(Rule::Value, s))
    }
}

/// Recognizes a hexadecimal colour such as `#fff`.
pub fn color<'a>(input: &'a str) -> (r: Parsed<'a, Value<'a>>)
    ensures
        outcome(r) == spec_color(input@),
{
    match one_char('#', input) {
        None => Err(ParseError::no_match(Rule::Value, input)),
        Some(after) => {
            let (rest, digits) = scan(CharClass::HexDigit, after);
            if digits.unicode_len() == 0 {
                Err(ParseError::no_match(Rule::Value, input))
            } else {
                Ok((rest, Value::Color(Cow::Borrowed(digits))))
            }
        },
    }
}

/// A reference to a variable at the very start of `s`: `@` and an
/// identifier.
pub open spec fn spec_variable(s: Seq<char>) -> Outcome<ValueView> {
    if starts_with_char(s, '@') {
        match spec_ident(s.skip(1)) {
            Ok((rest, name)) => Ok((rest, ValueView::Variable(name))),
            Err(_) => Err(no_match(Rule::Value, s)),
        }
    } else {
        Err(no_match(Rule::Value, s))
    }
}

/// Recognizes a reference to a variable such as `@base`.
pub fn variable<'a>(input: &'a str) -> (r: Parsed<'a, Value<'a>>)
    ensures
        outcome(r) == spec_variable(input@),
{
    match one_char('@', input) {
        None => Err(ParseError::no_match(Rule::Value, input)),
        Some(after) => match ident(after) {
            Ok((rest, name)) => Ok((rest, Value::Variable(name))),
            Err(_) => Err(ParseError::no_match(Rule::Value, input)),
        },
    }
}

/// A bare identifier as a value.
pub open spec fn spec_keyword(s: Seq<char>) -> Outcome<ValueView> {
    match spec_ident(s) {
        Ok((rest, name)) => Ok((rest, ValueView::Ident(name))),
        Err(_) => Err(no_match(Rule::Value, s)),
    }
}

/// One value that is not a list, at the very start of `s`. The kinds are
/// tried in this order: a string in single quotes, a string in double
/// quotes, a number, a colour, a variable reference, an identifier.
pub open spec fn spec_value_term(s: Seq<char>) -> Outcome<ValueView> {
    or_else(
        spec_string(s, '\''),
        or_else(
            spec_string(s, '"'),
            or_else(
                spec_number(s),
                or_else(spec_color(s), or_else(spec_variable(s), spec_keyword(s))),
            ),
        ),
    )
}

/// Recognizes one value that is not a list.
pub fn value_term<'a>(input: &'a str) -> (r: Parsed<'a, Value<'a>>)
    ensures
        outcome(r) == spec_value_term(input@),
{
    match string('\'', input) {
        Ok(m) => {
            return Ok(m);
        },
        Err(e) => {
            if e.committed {
                return Err(e);
            }
        },
    }
    match string('"', input) {
        Ok(m) => {
            return Ok(m);
        },
        Err(e) => {
            if e.committed {
                return Err(e);
            }
        },
    }
    if let Ok(m) = number(input) {
        return Ok(m);
    }
    if let Ok(m) = color(input) {
        return Ok(m);
    }
    if let Ok(m) = variable(input) {
        return Ok(m);
    }
    match ident(input) {
        Ok((rest, name)) => Ok((rest, Value::Ident(name))),
        Err(_) => Err(ParseError::no_match(Rule::Value, input)),
    }
}

/// A value that is not a list consumes at least one character.
pub proof fn lemma_value_term_consumes(s: Seq<char>)
    ensures
        spec_value_term(s) matches Ok((rest, _)) ==> rest.len() < s.len(),
{
    lemma_string_consumes(s, '\'');
    lemma_string_consumes(s, '"');
    lemma_number_bounds(s);
    lemma_run_len_bound(s.skip(1), CharClass::HexDigit);
    lemma_run_len_bound(s.skip(1), CharClass::Ident);
    lemma_run_len_bound(s, CharClass::Ident);
}

/// One or more values separated by optional junk, added to `terms`. The
/// sequence ends, without consuming the junk, where no further value
/// follows.
pub open spec fn spec_value_terms(s: Seq<char>, terms: Seq<ValueView>) -> Outcome<Seq<ValueView>>
    decreases s.len(),
{
    let start = strip_junk(s);
    match spec_value_term(start) {
        Ok((rest, term)) => {
            proof {
                lemma_strip_junk_shorter(s);
                lemma_value_term_consumes(start);
            }
            spec_value_terms(rest, terms.push(term))
        },
        Err(f) => if f.committed {
            Err(f)
        } else if terms.len() == 0 {
            Err(no_match(Rule::Value, start))
        } else {
            Ok((s, terms))
        },
    }
}

/// The value that a whitespace-separated sequence stands for: its only
/// element, or a list.
pub open spec fn sequence_value(terms: Seq<ValueView>) -> ValueView {
    if terms.len() == 1 {
        terms[0]
    } else {
        ValueView::List(terms)
    }
}

/// The value that a comma-separated sequence stands for: its only element,
/// or a list.
pub open spec fn comma_value(members: Seq<ValueView>) -> ValueView {
    if members.len() == 1 {
        members[0]
    } else {
        ValueView::CommaList(members)
    }
}

/// One or more values separated by whitespace.
pub open spec fn spec_value_sequence(s: Seq<char>) -> Outcome<ValueView> {
    match spec_value_terms(s, Seq::empty()) {
        Ok((rest, terms)) => Ok((rest, sequence_value(terms))),
        Err(f) => Err(f),
    }
}

/// Recognizes one or more values separated by whitespace.
pub fn value_sequence<'a>(input: &'a str) -> (r: Parsed<'a, Value<'a>>)
    ensures
        outcome(r) == spec_value_sequence(input@),
{
    let mut terms: Vec<Value<'a>> = Vec::new();
    let mut cur = input;
    proof {
        lemma_deep_view_empty(terms);
    }
    loop
        invariant
            spec_value_terms(cur@, terms.deep_view()) == spec_value_terms(input@, Seq::empty()),
            terms.deep_view().len() == terms@.len(),
        decreases cur@.len(),
    {
        let start = junk(cur);
        match value_term(start) {
            Ok((rest, term)) => {
                let ghost old_terms = terms;
                let ghost pushed = term;
                terms.push(term);
                proof {
                    lemma_strip_junk_shorter(cur@);
                    lemma_value_term_consumes(start@);
                    lemma_deep_view_push(old_terms, terms, pushed);
                }
                cur = rest;
            },
            Err(e) => {
                if e.committed {
                    return Err(e);
                }
                if terms.len() == 0 {
                    return Err(ParseError::no_match(Rule::Value, start));
                }
                if terms.len() == 1 {
                    let ghost all = terms;
                    let only = terms.remove(0);
                    assert(all.deep_view()[0] == only.deep_view());
                    return Ok((cur, only));
                }
                proof {
                    lemma_list_view(terms);
                }
                return Ok((cur, Value::List(terms)));
            },
        }
    }
}

/// A value sequence consumes at least one character.
pub proof fn lemma_value_terms_consume(s: Seq<char>, terms: Seq<ValueView>)
    ensures
        spec_value_terms(s, terms) matches Ok((rest, all)) ==> rest.len() <= s.len() && (
        terms.len() == 0 ==> rest.len() < s.len()),
    decreases s.len(),
{
    let start = strip_junk(s);
    lemma_strip_junk_shorter(s);
    lemma_value_term_consumes(start);
    if let Ok((rest, term)) = spec_value_term(start) {
        lemma_value_terms_consume(rest, terms.push(term));
    }
}

/// One or more value sequences separated by commas, added to `members`.
/// Once a comma has been read, a sequence must follow.
pub open spec fn spec_value_members(s: Seq<char>, members: Seq<ValueView>) -> Outcome<
    Seq<ValueView>,
>
    decreases s.len(),
{
    match spec_value_sequence(s) {
        Err(f) => Err(
            if members.len() > 0 {
                commit_failure(f)
            } else {
                f
            },
        ),
        Ok((rest, member)) => match spec_symbol(rest, ","@) {
            Ok((after_comma, _)) => {
                proof {
                    lemma_value_terms_consume(s, Seq::empty());
                    lemma_strip_junk_shorter(rest);
                }
                spec_value_members(after_comma, members.push(member))
            },
            Err(_) => Ok((rest, members.push(member))),
        },
    }
}

/// Comma-separated value sequences consume at least one character.
pub proof fn lemma_value_members_consume(s: Seq<char>, members: Seq<ValueView>)
    ensures
        spec_value_members(s, members) matches Ok((rest, _)) ==> rest.len() < s.len(),
    decreases s.len(),
{
    lemma_value_terms_consume(s, Seq::empty());
    if let Ok((rest, member)) = spec_value_sequence(s) {
        lemma_strip_junk_shorter(rest);
        if let Ok((after_comma, _)) = spec_symbol(rest, ","@) {
            lemma_value_members_consume(after_comma, members.push(member));
        }
    }
}

/// The right-hand side of a property declaration: one or more value
/// sequences separated by commas. It ends before the `;` or `!important`
/// that follows.
pub open spec fn spec_declaration_value(s: Seq<char>) -> Outcome<ValueView> {
    match spec_value_members(s, Seq::empty()) {
        Ok((rest, members)) => Ok((rest, comma_value(members))),
        Err(f) => Err(f),
    }
}

/// Parses the right-hand side of a property declaration.
pub fn declaration_value<'a>(input: &'a str) -> (r: Parsed<'a, Value<'a>>)
    ensures
        outcome(r) == spec_declaration_value(input@),
{
    let mut members: Vec<Value<'a>> = Vec::new();
    let mut cur = input;
    proof {
        lemma_deep_view_empty(members);
    }
    loop
        invariant
            spec_value_members(cur@, members.deep_view()) == spec_value_members(
                input@,
                Seq::empty(),
            ),
            members.deep_view().len() == members@.len(),
        decreases cur@.len(),
    {
        match value_sequence(cur) {
            Err(e) => {
                if members.len() > 0 {
                    return Err(e.commit());
                }
                return Err(e);
            },
            Ok((rest, member)) => {
                let ghost old_members = members;
                let ghost pushed = member;
                members.push(member);
                proof {
                    lemma_deep_view_push(old_members, members, pushed);
                    lemma_value_terms_consume(cur@, Seq::empty());
                    lemma_strip_junk_shorter(rest@);
                }
                match symbol(",", rest) {
                    Ok((after_comma, _)) => {
                        cur = after_comma;
                    },
                    Err(_) => {
                        if members.len() == 1 {
                            let ghost all = members;
                            let only = members.remove(0);
                            assert(all.deep_view()[0] == only.deep_view());
                            return Ok((rest, only));
                        }
                        proof {
                            lemma_list_view(members);
                        }
                        return Ok((rest, Value::CommaList(members)));
                    },
                }
            },
        }
    }
}

/// The right-hand side of a variable declaration. It has the grammar of the
/// right-hand side of a property declaration.
pub open spec fn spec_variable_declaration_value(s: Seq<char>) -> Outcome<ValueView> {
    spec_declaration_value(s)
}

/// Parses the right-hand side of a variable declaration.
pub fn variable_declaration_value<'a>(input: &'a str) -> (r: Parsed<'a, Value<'a>>)
    ensures
        outcome(r) == spec_variable_declaration_value(input@),
{
    declaration_value(input)
}

} // verus!
