//! Laws of values: the texts that are read as one value, whatever follows.

use vstd::prelude::*;
use crate::ast::{InterpolatedValueView, ValueView};
use crate::laws::strings::{
    is_interpolation, is_plain, is_quote, lemma_interpolated_string_parses,
    lemma_plain_string_parses,
};
use crate::lexer::is_hex_digit;
use crate::parser::string::interpolated_text;
use crate::laws::whitespace::{
    is_junk, lemma_junk_first, lemma_junk_is_stripped, lemma_no_junk, lemma_starts_with_first,
};
use crate::lexer::{
    is_digit, is_ident, is_ident_char, is_letter, is_space, lemma_ident_parses, lemma_run_of_class,
    run_len, CharClass,
};
use crate::outcome::{recoverable, Failure};
use crate::parser::value::{
    spec_declaration_value, spec_number, spec_value_members, spec_value_sequence, spec_value_term,
    spec_value_terms,
};
use crate::text::starts_with;

verus! {

/// Whether a value can end before `tail`: the input ends there, or
/// whitespace, a comment or one of `;`, `!`, `,` and `}` follows.
pub open spec fn ends_value(tail: Seq<char>) -> bool {
    tail.len() == 0 || is_space(tail[0]) || tail[0] == '/' || tail[0] == ';' || tail[0] == '!'
        || tail[0] == ',' || tail[0] == '}'
}

/// Whether `text` is read as the value `value`, and nothing more, wherever a
/// value can end behind it.
pub open spec fn is_term_text(text: Seq<char>, value: ValueView) -> bool {
    &&& text.len() > 0
    &&& !(is_space(text[0]) || text[0] == '/')
    &&& forall|tail: Seq<char>|
        ends_value(tail) ==> #[trigger] spec_value_term(text + tail) == Ok::<_, Failure>(
            (tail, value),
        )
}

/// An identifier is read as the value of that name.
pub proof fn lemma_keyword_is_term_text(word: Seq<char>)
    requires
        is_ident(word),
    ensures
        is_term_text(word, ValueView::Ident(word)),
{
    assert(is_ident_char(word[0]));
    assert forall|tail: Seq<char>| ends_value(tail) implies #[trigger] spec_value_term(
        word + tail,
    ) == Ok::<_, Failure>((tail, ValueView::Ident(word))) by {
        let s = word + tail;
        assert(s[0] == word[0]);
        assert(run_len(s, CharClass::Digit) == 0);
        lemma_ident_parses(word, tail);
    }
}

/// Digits followed by letters are read as a number with those digits and
/// that unit.
pub proof fn lemma_number_is_term_text(digits: Seq<char>, unit: Seq<char>)
    requires
        digits.len() > 0,
        forall|i: int| 0 <= i < digits.len() ==> is_digit(#[trigger] digits[i]),
        forall|i: int| 0 <= i < unit.len() ==> is_letter(#[trigger] unit[i]),
    ensures
        is_term_text(digits + unit, ValueView::Number { value: digits, unit }),
{
    assert((digits + unit)[0] == digits[0]);
    assert(is_digit(digits[0]));
    assert forall|tail: Seq<char>| ends_value(tail) implies #[trigger] spec_value_term(
        digits + unit + tail,
    ) == Ok::<_, Failure>((tail, ValueView::Number { value: digits, unit })) by {
        let s = digits + unit + tail;
        let after_digits = unit + tail;
        assert(s =~= digits + after_digits);
        assert(s[0] == digits[0]);
        if unit.len() > 0 {
            assert(after_digits[0] == unit[0]);
            assert(is_letter(unit[0]));
        } else {
            assert(after_digits =~= tail);
        }
        lemma_run_of_class(digits, CharClass::Digit, after_digits);
        lemma_run_of_class(unit, CharClass::Letter, tail);
        assert(s.skip(digits.len() as int) =~= after_digits);
        assert(s.take(digits.len() as int) =~= digits);
        assert(after_digits.skip(unit.len() as int) =~= tail);
        assert(after_digits.take(unit.len() as int) =~= unit);
        assert(spec_number(s) == Ok::<_, Failure>(
            (tail, ValueView::Number { value: digits, unit }),
        ));
    }
}

/// A plain text between two quotes is read as a string with that text.
pub proof fn lemma_plain_string_is_term_text(quote: char, text: Seq<char>)
    requires
        is_quote(quote),
        is_plain(text, quote),
    ensures
        is_term_text(seq![quote] + text + seq![quote], ValueView::QuotedString(text)),
{
    let literal = seq![quote] + text + seq![quote];
    assert(literal[0] == quote);
    assert forall|tail: Seq<char>| ends_value(tail) implies #[trigger] spec_value_term(
        literal + tail,
    ) == Ok::<_, Failure>((tail, ValueView::QuotedString(text))) by {
        lemma_plain_string_parses(quote, text, tail);
        assert((literal + tail)[0] == quote);
    }
}

/// An interpolated string that can be written is read as a string with its
/// segments and references.
pub proof fn lemma_interpolated_string_is_term_text(
    quote: char,
    segments: Seq<Seq<char>>,
    interpolations: Seq<InterpolatedValueView>,
)
    requires
        is_quote(quote),
        is_interpolation(segments, interpolations, quote),
    ensures
        is_term_text(
            seq![quote] + interpolated_text(segments, interpolations) + seq![quote],
            ValueView::InterpolatedString(segments, interpolations),
        ),
{
    let literal = seq![quote] + interpolated_text(segments, interpolations) + seq![quote];
    assert(literal[0] == quote);
    assert forall|tail: Seq<char>| ends_value(tail) implies #[trigger] spec_value_term(
        literal + tail,
    ) == Ok::<_, Failure>((tail, ValueView::InterpolatedString(segments, interpolations))) by {
        lemma_interpolated_string_parses(quote, segments, interpolations, tail);
        assert((literal + tail)[0] == quote);
    }
}

/// `#` followed by hexadecimal digits is read as a colour with those
/// digits.
pub proof fn lemma_color_is_term_text(digits: Seq<char>)
    requires
        digits.len() > 0,
        forall|i: int| 0 <= i < digits.len() ==> is_hex_digit(#[trigger] digits[i]),
    ensures
        is_term_text(seq!['#'] + digits, ValueView::Color(digits)),
{
    let text = seq!['#'] + digits;
    assert(text[0] == '#');
    assert forall|tail: Seq<char>| ends_value(tail) implies #[trigger] spec_value_term(
        text + tail,
    ) == Ok::<_, Failure>((tail, ValueView::Color(digits))) by {
        let s = text + tail;
        assert(s[0] == '#');
        assert(run_len(s, CharClass::Digit) == 0);
        assert(s.skip(1) =~= digits + tail);
        lemma_run_of_class(digits, CharClass::HexDigit, tail);
        assert((digits + tail).skip(digits.len() as int) =~= tail);
        assert((digits + tail).take(digits.len() as int) =~= digits);
    }
}

/// `@` followed by an identifier is read as a reference to the variable of
/// that name.
pub proof fn lemma_variable_is_term_text(name: Seq<char>)
    requires
        is_ident(name),
    ensures
        is_term_text(seq!['@'] + name, ValueView::Variable(name)),
{
    let text = seq!['@'] + name;
    assert(text[0] == '@');
    assert forall|tail: Seq<char>| ends_value(tail) implies #[trigger] spec_value_term(
        text + tail,
    ) == Ok::<_, Failure>((tail, ValueView::Variable(name))) by {
        let s = text + tail;
        assert(s[0] == '@');
        assert(run_len(s, CharClass::Digit) == 0);
        assert(s.skip(1) =~= name + tail);
        lemma_ident_parses(name, tail);
    }
}

/// No value begins where the input ends, nor with `;`, `!`, `,` or `}`.
pub proof fn lemma_no_value_at_terminator(s: Seq<char>)
    requires
        s.len() == 0 || s[0] == ';' || s[0] == '!' || s[0] == ',' || s[0] == '}',
    ensures
        recoverable(spec_value_term(s)),
{
    assert(run_len(s, CharClass::Digit) == 0);
    assert(run_len(s, CharClass::Ident) == 0);
}

/// One value, junk, and then the end of the input or one of `;`, `!` and
/// `}` are read as that value alone; the junk and what follows it remain.
pub proof fn lemma_single_value_parses(
    text: Seq<char>,
    value: ValueView,
    gap: Seq<char>,
    tail: Seq<char>,
)
    requires
        is_term_text(text, value),
        is_junk(gap),
        tail.len() == 0 || tail[0] == ';' || tail[0] == '!' || tail[0] == '}',
    ensures
        spec_declaration_value(text + gap + tail) == Ok::<_, Failure>((gap + tail, value)),
{
    reveal_strlit(",");
    let after_value = gap + tail;
    let s = text + gap + tail;
    assert(s =~= text + after_value);
    if gap.len() > 0 {
        lemma_junk_first(gap);
        assert(after_value[0] == gap[0]);
    } else {
        assert(after_value =~= tail);
    }
    assert(ends_value(after_value));
    assert(spec_value_term(text + after_value) == Ok::<_, Failure>((after_value, value)));
    lemma_junk_is_stripped(gap, tail);
    lemma_no_junk(tail);
    lemma_no_value_at_terminator(tail);
    let terms = Seq::<ValueView>::empty().push(value);
    assert(spec_value_terms(after_value, terms) == Ok::<_, Failure>((after_value, terms)));
    assert(s[0] == text[0]);
    lemma_no_junk(s);
    assert(spec_value_terms(s, Seq::empty()) == Ok::<_, Failure>((after_value, terms)));
    assert(spec_value_sequence(s) == Ok::<_, Failure>((after_value, value)));
    if starts_with(tail, ","@) {
        lemma_starts_with_first(tail, ","@);
    }
    let members = Seq::<ValueView>::empty().push(value);
    assert(spec_value_members(s, Seq::empty()) == Ok::<_, Failure>((after_value, members)));
}

} // verus!
