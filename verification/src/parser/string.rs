//! Quoted string literals, plain or with interpolated references.

use std::borrow::Cow;
use vstd::prelude::*;
use crate::ast::{lemma_deep_view_push, InterpolatedValue, InterpolatedValueView, Value, ValueView};
use crate::laws::strings::lemma_string_round_trip;
use crate::lexer::{ident, lemma_run_len_bound, spec_ident, CharClass};
use crate::outcome::{
    commit, commit_failure, cut, no_match, outcome, Outcome, ParseError, Parsed, Rule,
};
use crate::text::{any_char, char_count_fits, one_char, starts_with, starts_with_char, tag, take};

verus! {

/// The opener of a variable reference, `@{`.
pub open spec fn variable_open() -> Seq<char> {
    seq!['@', '{']
}

/// The opener of a property reference, `${`.
pub open spec fn property_open() -> Seq<char> {
    seq!['$', '{']
}

/// Whether a literal segment ends where `s` starts: at the closing quote or
/// at the opener of a reference.
pub open spec fn at_stop(s: Seq<char>, quote: char) -> bool {
    starts_with_char(s, quote) || starts_with(s, variable_open()) || starts_with(
        s,
        property_open(),
    )
}

/// The number of characters of `s` before the first place where a literal
/// segment ends; `None` if there is no such place.
pub open spec fn segment_len(s: Seq<char>, quote: char) -> Option<nat>
    decreases s.len(),
{
    if at_stop(s, quote) {
        Some(0)
    } else if s.len() == 0 {
        None
    } else {
        match segment_len(s.skip(1), quote) {
            Some(n) => Some(n + 1),
            None => None,
        }
    }
}

/// A segment ends at the first place where one can end: at none before it,
/// and at none at all if there is no segment.
pub proof fn lemma_segment_is_shortest(s: Seq<char>, quote: char)
    ensures
        match segment_len(s, quote) {
            Some(n) => forall|i: int| 0 <= i < n ==> !at_stop(#[trigger] s.skip(i), quote),
            None => forall|i: int| 0 <= i <= s.len() ==> !at_stop(#[trigger] s.skip(i), quote),
        },
    decreases s.len(),
{
    assert(s.skip(0) =~= s);
    if !at_stop(s, quote) && s.len() > 0 {
        lemma_segment_is_shortest(s.skip(1), quote);
        lemma_segment_len_bound(s, quote);
        let bound = match segment_len(s, quote) {
            Some(n) => n as int,
            None => s.len() as int + 1,
        };
        assert forall|i: int| 0 <= i < bound implies !at_stop(#[trigger] s.skip(i), quote) by {
            if i > 0 {
                assert(s.skip(i) =~= s.skip(1).skip(i - 1));
                assert(!at_stop(s.skip(1).skip(i - 1), quote));
            }
        }
    }
}

/// A segment is a prefix, and ends where a segment can end.
pub proof fn lemma_segment_len_bound(s: Seq<char>, quote: char)
    ensures
        segment_len(s, quote) matches Some(n) ==> n <= s.len() && at_stop(s.skip(n as int), quote),
    decreases s.len(),
{
    if !at_stop(s, quote) && s.len() > 0 {
        lemma_segment_len_bound(s.skip(1), quote);
        if let Some(n) = segment_len(s.skip(1), quote) {
            assert(s.skip(1).skip(n as int) == s.skip(n as int + 1));
        }
    } else if at_stop(s, quote) {
        assert(s.skip(0) == s);
    }
}

/// One literal segment: the characters up to, and not including, the closing
/// quote or the opener of a reference. Fails at the end of the input if the
/// input ends first.
pub open spec fn spec_string_part(s: Seq<char>, quote: char) -> Outcome<Seq<char>> {
    match segment_len(s, quote) {
        Some(n) => Ok((s.skip(n as int), s.take(n as int))),
        None => Err(no_match(Rule::StringEnd, Seq::empty())),
    }
}

/// Parses the literal part of a string: everything before the next closing
/// quote or reference.
pub fn string_part<'a>(quote: char, input: &'a str) -> (r: Parsed<'a, Cow<'a, str>>)
    ensures
        outcome(r) == spec_string_part(input@, quote),
{
    char_count_fits(input);
    let mut cur = input;
    let mut n: usize = 0;
    loop
        invariant
            n <= input@.len() <= usize::MAX,
            cur@ == input@.skip(n as int),
            segment_len(input@, quote) == match segment_len(cur@, quote) {
                Some(k) => Some((k + n) as nat),
                None => None,
            },
        ensures
            n <= input@.len(),
            segment_len(input@, quote) == Some(n as nat),
        decreases cur@.len(),
    {
        proof {
            reveal_strlit("@{");
            reveal_strlit("${");
            assert("@{"@ =~= variable_open());
            assert("${"@ =~= property_open());
        }
        if one_char(quote, cur).is_some() {
            break ;
        }
        if tag("@{", cur).is_some() {
            break ;
        }
        if tag("${", cur).is_some() {
            break ;
        }
        match any_char(cur) {
            None => {
                assert(cur@ =~= Seq::<char>::empty());
                return Err(ParseError::no_match(Rule::StringEnd, cur));
            },
            Some((after, _)) => {
                assert(input@.skip(n as int).skip(1) == input@.skip(n + 1));
                cur = after;
                n = n + 1;
            },
        }
    }
    let (rest, segment) = take(n, input).unwrap();
    Ok((rest, Cow::Borrowed(segment)))
}

/// One reference, `@{name}` or `${name}`, at the very start of `s`.
pub open spec fn spec_interpolated_part(s: Seq<char>) -> Outcome<InterpolatedValueView> {
    if starts_with(s, variable_open()) {
        match spec_ident(s.skip(2)) {
            Ok((rest, name)) => if starts_with_char(rest, '}') {
                Ok((rest.skip(1), InterpolatedValueView::Variable(name)))
            } else {
                Err(no_match(Rule::Interpolation, s))
            },
            Err(_) => Err(no_match(Rule::Interpolation, s)),
        }
    } else if starts_with(s, property_open()) {
        match spec_ident(s.skip(2)) {
            Ok((rest, name)) => if starts_with_char(rest, '}') {
                Ok((rest.skip(1), InterpolatedValueView::Property(name)))
            } else {
                Err(no_match(Rule::Interpolation, s))
            },
            Err(_) => Err(no_match(Rule::Interpolation, s)),
        }
    } else {
        Err(no_match(Rule::Interpolation, s))
    }
}

/// Parses an interpolated variable or property in a string.
pub fn interpolated_part<'a>(input: &'a str) -> (r: Parsed<'a, InterpolatedValue<'a>>)
    ensures
        outcome(r) == spec_interpolated_part(input@),
{
    proof {
        reveal_strlit("@{");
        reveal_strlit("${");
        assert("@{"@ =~= variable_open());
        assert("${"@ =~= property_open());
    }
    if let Some(after) = tag("@{", input) {
        match ident(after) {
            Ok((rest, name)) => match one_char('}', rest) {
                Some(rest) => Ok((rest, InterpolatedValue::Variable(name))),
                None => Err(ParseError::no_match(Rule::Interpolation, input)),
            },
            Err(_) => Err(ParseError::no_match(Rule::Interpolation, input)),
        }
    } else if let Some(after) = tag("${", input) {
        match ident(after) {
            Ok((rest, name)) => match one_char('}', rest) {
                Some(rest) => Ok((rest, InterpolatedValue::Property(name))),
                None => Err(ParseError::no_match(Rule::Interpolation, input)),
            },
            Err(_) => Err(ParseError::no_match(Rule::Interpolation, input)),
        }
    } else {
        Err(ParseError::no_match(Rule::Interpolation, input))
    }
}

/// A reference consumes at least its opener.
pub proof fn lemma_interpolated_part_consumes(s: Seq<char>)
    ensures
        spec_interpolated_part(s) matches Ok((rest, _)) ==> rest.len() < s.len(),
{
    lemma_run_len_bound(s.skip(2), CharClass::Ident);
}

/// A segment consumes no more than there is.
pub proof fn lemma_string_part_consumes(s: Seq<char>, quote: char)
    ensures
        spec_string_part(s, quote) matches Ok((rest, _)) ==> rest.len() <= s.len(),
{
    lemma_segment_len_bound(s, quote);
}

/// The rest of an interpolated string, given the segments and references
/// read so far: pairs of one reference and one segment, until the closing
/// quote. The closing quote is accepted only once there is a reference.
pub open spec fn spec_string_pairs(
    s: Seq<char>,
    quote: char,
    segments: Seq<Seq<char>>,
    interpolations: Seq<InterpolatedValueView>,
) -> Outcome<ValueView>
    decreases s.len(),
{
    if interpolations.len() > 0 && starts_with_char(s, quote) {
        Ok((s.skip(1), ValueView::InterpolatedString(segments, interpolations)))
    } else {
        match spec_interpolated_part(s) {
            Err(f) => Err(f),
            Ok((after_reference, reference)) => match spec_string_part(after_reference, quote) {
                Err(f) => Err(f),
                Ok((rest, segment)) => {
                    proof {
                        lemma_interpolated_part_consumes(s);
                        lemma_string_part_consumes(after_reference, quote);
                    }
                    spec_string_pairs(
                        rest,
                        quote,
                        segments.push(segment),
                        interpolations.push(reference),
                    )
                },
            },
        }
    }
}

/// The remainder of a string whose first segment has been read and was not
/// followed by the closing quote.
pub open spec fn spec_interpolated_string_tail(
    s: Seq<char>,
    quote: char,
    first_part: Seq<char>,
) -> Outcome<ValueView> {
    spec_string_pairs(s, quote, seq![first_part], Seq::empty())
}

/// Parses the remainder of a string as an interpolated string.
pub fn interpolated_string_tail<'a>(
    quote: char,
    first_part: Cow<'a, str>,
    input: &'a str,
) -> (r: Parsed<'a, Value<'a>>)
    ensures
        outcome(r) == spec_interpolated_string_tail(input@, quote, first_part@),
{
    let mut segments: Vec<Cow<'a, str>> = Vec::new();
    let mut interpolations: Vec<InterpolatedValue<'a>> = Vec::new();
    let ghost first_text = first_part@;
    segments.push(first_part);
    let mut cur = input;
    assert(segments.deep_view() =~= seq![first_text]);
    assert(interpolations.deep_view() =~= Seq::<InterpolatedValueView>::empty());
    loop
        invariant
            spec_string_pairs(cur@, quote, segments.deep_view(), interpolations.deep_view())
                == spec_interpolated_string_tail(input@, quote, first_text),
            first_text == first_part@,
            interpolations.deep_view().len() == interpolations@.len(),
        decreases cur@.len(),
    {
        if interpolations.len() > 0 {
            if let Some(rest) = one_char(quote, cur) {
                return Ok((rest, Value::InterpolatedString(segments, interpolations)));
            }
        }
        match interpolated_part(cur) {
            Err(e) => {
                return Err(e);
            },
            Ok((after_reference, reference)) => match string_part(quote, after_reference) {
                Err(e) => {
                    return Err(e);
                },
                Ok((rest, segment)) => {
                    let ghost old_segments = segments;
                    let ghost old_interpolations = interpolations;
                    let ghost pushed_segment = segment;
                    let ghost pushed_reference = reference;
                    segments.push(segment);
                    interpolations.push(reference);
                    proof {
                        lemma_interpolated_part_consumes(cur@);
                        lemma_string_part_consumes(after_reference@, quote);
                        lemma_deep_view_push(old_segments, segments, pushed_segment);
                        lemma_deep_view_push(old_interpolations, interpolations, pushed_reference);
                    }
                    cur = rest;
                },
            },
        }
    }
}

/// The source text of a reference: its opener, its name and `}`.
pub open spec fn reference_text(reference: InterpolatedValueView) -> Seq<char> {
    match reference {
        InterpolatedValueView::Variable(name) => variable_open() + name + seq!['}'],
        InterpolatedValueView::Property(name) => property_open() + name + seq!['}'],
    }
}

/// The text between the quotes of an interpolated string: the segments with
/// the source text of one reference between each two of them.
pub open spec fn interpolated_text(
    segments: Seq<Seq<char>>,
    interpolations: Seq<InterpolatedValueView>,
) -> Seq<char>
    recommends
        segments.len() == interpolations.len() + 1,
    decreases interpolations.len(),
{
    if interpolations.len() == 0 {
        segments[0]
    } else {
        interpolated_text(segments.drop_last(), interpolations.drop_last()) + reference_text(
            interpolations.last(),
        ) + segments.last()
    }
}

/// The text between the quotes of a string value.
pub open spec fn string_text(value: ValueView) -> Seq<char> {
    match value {
        ValueView::QuotedString(text) => text,
        ValueView::InterpolatedString(segments, interpolations) => interpolated_text(
            segments,
            interpolations,
        ),
        _ => Seq::empty(),
    }
}

/// Whether `value` is a plain string, or an interpolated string with at
/// least one reference and one more segment than references.
pub open spec fn is_string_value(value: ValueView) -> bool {
    match value {
        ValueView::QuotedString(_) => true,
        ValueView::InterpolatedString(segments, interpolations) => interpolations.len() >= 1
            && segments.len() == interpolations.len() + 1,
        _ => false,
    }
}

/// A string literal delimited by `quote` at the very start of `s`. Without
/// the opening quote the rule does not match. After it, every failure is
/// committed: a string that is not closed, or a malformed reference, ends
/// the parse.
pub open spec fn spec_string(s: Seq<char>, quote: char) -> Outcome<ValueView> {
    if !starts_with_char(s, quote) {
        Err(no_match(Rule::StringStart, s))
    } else {
        match spec_string_part(s.skip(1), quote) {
            Err(f) => Err(commit_failure(f)),
            Ok((rest, first_part)) => if starts_with_char(rest, quote) {
                Ok((rest.skip(1), ValueView::QuotedString(first_part)))
            } else {
                commit(spec_interpolated_string_tail(rest, quote, first_part))
            },
        }
    }
}

/// Parses a quoted or interpolated string, starting and ending with the
/// given `quote`.
pub fn string<'a>(quote: char, input: &'a str) -> (r: Parsed<'a, Value<'a>>)
    ensures
        outcome(r) == spec_string(input@, quote),
        r matches Ok((rest, value)) ==> {
            &&& is_string_value(value.deep_view())
            &&& input@ == seq![quote] + string_text(value.deep_view()) + seq![quote] + rest@
        },
{
    proof {
        lemma_string_round_trip(input@, quote);
    }
    match one_char(quote, input) {
        None => Err(ParseError::no_match(Rule::StringStart, input)),
        Some(after) => match string_part(quote, after) {
            Err(e) => Err(e.commit()),
            Ok((rest, first_part)) => match one_char(quote, rest) {
                Some(rest) => Ok((rest, Value::QuotedString(first_part))),
                None => cut(interpolated_string_tail(quote, first_part, rest)),
            },
        },
    }
}

/// The pairs that follow the first segment consume at least what the
/// closing quote takes.
pub proof fn lemma_string_pairs_consume(
    s: Seq<char>,
    quote: char,
    segments: Seq<Seq<char>>,
    interpolations: Seq<InterpolatedValueView>,
)
    ensures
        spec_string_pairs(s, quote, segments, interpolations) matches Ok((rest, _)) ==> rest.len()
            < s.len(),
    decreases s.len(),
{
    if !(interpolations.len() > 0 && starts_with_char(s, quote)) {
        lemma_interpolated_part_consumes(s);
        if let Ok((after_reference, reference)) = spec_interpolated_part(s) {
            lemma_string_part_consumes(after_reference, quote);
            if let Ok((rest, segment)) = spec_string_part(after_reference, quote) {
                lemma_string_pairs_consume(
                    rest,
                    quote,
                    segments.push(segment),
                    interpolations.push(reference),
                );
            }
        }
    }
}

/// A string literal consumes at least its two quotes.
pub proof fn lemma_string_consumes(s: Seq<char>, quote: char)
    ensures
        spec_string(s, quote) matches Ok((rest, _)) ==> rest.len() + 2 <= s.len(),
{
    if starts_with_char(s, quote) {
        lemma_string_part_consumes(s.skip(1), quote);
        if let Ok((rest, first_part)) = spec_string_part(s.skip(1), quote) {
            lemma_string_pairs_consume(rest, quote, seq![first_part], Seq::empty());
        }
    }
}

} // verus!
