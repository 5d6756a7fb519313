//! Laws of string literals: what is parsed reproduces the source, and every
//! well-formed literal is parsed as written.

use vstd::prelude::*;
use crate::ast::{InterpolatedValueView, ValueView};
use crate::lexer::{lemma_ident_parses, is_ident, lemma_run_len_bound, CharClass};
use crate::parser::string::{
    interpolated_text, is_string_value, reference_text, string_text,
    at_stop, lemma_segment_len_bound, property_open, segment_len, spec_interpolated_part,
    spec_string, spec_string_pairs, spec_string_part, variable_open,
};
use crate::text::{starts_with, starts_with_char};

verus! {

/// A quote character of the language.
pub open spec fn is_quote(c: char) -> bool {
    c == '\'' || c == '"'
}

/// Whether `text` holds neither the quote nor the opener of a reference.
pub open spec fn is_plain(text: Seq<char>, quote: char) -> bool {
    forall|i: int|
        0 <= i < text.len() ==> #[trigger] text[i] != quote && ((text[i] == '@' || text[i] == '$')
            && i + 1 < text.len() ==> text[i + 1] != '{')
}

/// A segment and what remains make up the input.
pub proof fn lemma_string_part_splits(s: Seq<char>, quote: char)
    ensures
        spec_string_part(s, quote) matches Ok((rest, segment)) ==> s == segment + rest,
{
    lemma_segment_len_bound(s, quote);
    if let Ok((rest, segment)) = spec_string_part(s, quote) {
        assert(s =~= segment + rest);
    }
}

/// The source text of a reference and what remains make up the input.
pub proof fn lemma_interpolated_part_splits(s: Seq<char>)
    ensures
        spec_interpolated_part(s) matches Ok((rest, reference)) ==> s == reference_text(reference)
            + rest,
{
    if let Ok((rest, reference)) = spec_interpolated_part(s) {
        lemma_run_len_bound(s.skip(2), CharClass::Ident);
        let name = reference.name();
        let opener = s.take(2);
        assert(opener == variable_open() || opener == property_open());
        assert(s =~= opener + name + seq!['}'] + rest);
    }
}

/// What the pairs of an interpolated string produce, together with the
/// closing quote and what remains, is what had been read before with the
/// input appended.
pub proof fn lemma_string_pairs_round_trip(
    s: Seq<char>,
    quote: char,
    segments: Seq<Seq<char>>,
    interpolations: Seq<InterpolatedValueView>,
)
    requires
        segments.len() == interpolations.len() + 1,
    ensures
        spec_string_pairs(s, quote, segments, interpolations) matches Ok((rest, value)) ==> {
            &&& value is InterpolatedString
            &&& is_string_value(value)
            &&& string_text(value) + seq![quote] + rest == interpolated_text(
                segments,
                interpolations,
            ) + s
        },
    decreases s.len(),
{
    if interpolations.len() > 0 && starts_with_char(s, quote) {
        assert(seq![quote] + s.skip(1) =~= s);
        assert(interpolated_text(segments, interpolations) + seq![quote] + s.skip(1)
            =~= interpolated_text(segments, interpolations) + s);
    } else if let Ok((after_reference, reference)) = spec_interpolated_part(s) {
        if let Ok((rest, segment)) = spec_string_part(after_reference, quote) {
            lemma_interpolated_part_splits(s);
            lemma_string_part_splits(after_reference, quote);
            crate::parser::string::lemma_interpolated_part_consumes(s);
            crate::parser::string::lemma_string_part_consumes(after_reference, quote);
            let more_segments = segments.push(segment);
            let more_interpolations = interpolations.push(reference);
            lemma_string_pairs_round_trip(rest, quote, more_segments, more_interpolations);
            assert(more_segments.drop_last() =~= segments);
            assert(more_interpolations.drop_last() =~= interpolations);
            assert(interpolated_text(more_segments, more_interpolations) + rest
                =~= interpolated_text(segments, interpolations) + s);
        }
    }
}

/// Round trip: a parsed string literal is a plain string or a well-shaped
/// interpolated string, and the opening quote, the text of the value, the
/// closing quote and the remaining input make up the input exactly.
pub proof fn lemma_string_round_trip(s: Seq<char>, quote: char)
    ensures
        spec_string(s, quote) matches Ok((rest, value)) ==> {
            &&& is_string_value(value)
            &&& s == seq![quote] + string_text(value) + seq![quote] + rest
        },
{
    if let Ok((rest, value)) = spec_string(s, quote) {
        lemma_string_part_splits(s.skip(1), quote);
        let (after_first, first_part) = spec_string_part(s.skip(1), quote)->Ok_0;
        assert(s =~= seq![quote] + s.skip(1));
        if starts_with_char(after_first, quote) {
            assert(after_first =~= seq![quote] + rest);
            assert(s =~= seq![quote] + first_part + seq![quote] + rest);
        } else {
            lemma_string_pairs_round_trip(after_first, quote, seq![first_part], Seq::empty());
            assert(interpolated_text(seq![first_part], Seq::empty()) == first_part);
            assert(s =~= seq![quote] + (string_text(value) + seq![quote] + rest));
            assert(s =~= seq![quote] + string_text(value) + seq![quote] + rest);
        }
    }
}

/// A plain text followed by a place where a segment ends is read as one
/// segment.
pub proof fn lemma_segment_found(text: Seq<char>, quote: char, tail: Seq<char>)
    requires
        is_plain(text, quote),
        at_stop(tail, quote),
        tail[0] != '{',
    ensures
        segment_len(text + tail, quote) == Some(text.len()),
        spec_string_part(text + tail, quote) == Ok::<_, crate::outcome::Failure>((tail, text)),
    decreases text.len(),
{
    let s = text + tail;
    if text.len() == 0 {
        assert(s =~= tail);
    } else {
        assert(s[0] == text[0]);
        assert(s.take(2) == variable_open() ==> s.take(2)[0] == '@' && s.take(2)[1] == '{');
        assert(s.take(2) == property_open() ==> s.take(2)[0] == '$' && s.take(2)[1] == '{');
        if text.len() >= 2 {
            assert(s[1] == text[1]);
        } else {
            assert(s[1] == tail[0]);
        }
        assert(!at_stop(s, quote));
        assert(s.skip(1) =~= text.skip(1) + tail);
        assert forall|i: int| 0 <= i < text.skip(1).len() implies #[trigger] text.skip(1)[i]
            != quote && ((text.skip(1)[i] == '@' || text.skip(1)[i] == '$') && i + 1 < text.skip(
            1,
        ).len() ==> text.skip(1)[i + 1] != '{') by {
            assert(text.skip(1)[i] == text[i + 1]);
        }
        lemma_segment_found(text.skip(1), quote, tail);
    }
    assert(s.skip(text.len() as int) =~= tail);
    assert(s.take(text.len() as int) =~= text);
}

/// Every plain text between two quotes is parsed as that text, and what
/// follows the closing quote remains.
pub proof fn lemma_plain_string_parses(quote: char, text: Seq<char>, rest: Seq<char>)
    requires
        is_quote(quote),
        is_plain(text, quote),
    ensures
        spec_string(seq![quote] + text + seq![quote] + rest, quote) == Ok::<
            _,
            crate::outcome::Failure,
        >((rest, ValueView::QuotedString(text))),
{
    let s = seq![quote] + text + seq![quote] + rest;
    let tail = seq![quote] + rest;
    assert(s.skip(1) =~= text + tail);
    lemma_segment_found(text, quote, tail);
    assert(tail.skip(1) =~= rest);
}

/// The source text of the references from the one at `from` on, each
/// followed by its segment.
pub open spec fn pairs_text(
    segments: Seq<Seq<char>>,
    interpolations: Seq<InterpolatedValueView>,
    from: int,
) -> Seq<char>
    decreases interpolations.len() - from,
{
    if 0 <= from < interpolations.len() {
        reference_text(interpolations[from]) + segments[from + 1] + pairs_text(
            segments,
            interpolations,
            from + 1,
        )
    } else {
        Seq::empty()
    }
}

/// The text of an interpolated string is the text of its first `from`
/// references with their segments, followed by the text of the others.
pub proof fn lemma_interpolated_text_splits(
    segments: Seq<Seq<char>>,
    interpolations: Seq<InterpolatedValueView>,
    from: int,
)
    requires
        segments.len() == interpolations.len() + 1,
        0 <= from <= interpolations.len(),
    ensures
        interpolated_text(segments, interpolations) == interpolated_text(
            segments.take(from + 1),
            interpolations.take(from),
        ) + pairs_text(segments, interpolations, from),
    decreases interpolations.len() - from,
{
    if from == interpolations.len() {
        assert(segments.take(from + 1) =~= segments);
        assert(interpolations.take(from) =~= interpolations);
        assert(interpolated_text(segments, interpolations) + Seq::empty() =~= interpolated_text(
            segments,
            interpolations,
        ));
    } else {
        lemma_interpolated_text_splits(segments, interpolations, from + 1);
        let longer_segments = segments.take(from + 2);
        let longer_interpolations = interpolations.take(from + 1);
        assert(longer_segments.drop_last() =~= segments.take(from + 1));
        assert(longer_interpolations.drop_last() =~= interpolations.take(from));
        assert(longer_segments.last() == segments[from + 1]);
        assert(longer_interpolations.last() == interpolations[from]);
        let head = interpolated_text(segments.take(from + 1), interpolations.take(from));
        assert(interpolated_text(longer_segments, longer_interpolations) == head + reference_text(
            interpolations[from],
        ) + segments[from + 1]);
        assert(head + reference_text(interpolations[from]) + segments[from + 1] + pairs_text(
            segments,
            interpolations,
            from + 1,
        ) =~= head + pairs_text(segments, interpolations, from));
    }
}

/// The source text of a reference to an identifier is read as that
/// reference.
pub proof fn lemma_reference_parses(reference: InterpolatedValueView, tail: Seq<char>)
    requires
        is_ident(reference.name()),
    ensures
        spec_interpolated_part(reference_text(reference) + tail) == Ok::<
            _,
            crate::outcome::Failure,
        >((tail, reference)),
{
    let name = reference.name();
    let s = reference_text(reference) + tail;
    let after_name = seq!['}'] + tail;
    assert(s.skip(2) =~= name + after_name);
    assert(s.take(2) =~= reference_text(reference).take(2));
    assert(s.take(2)[0] == s[0]);
    assert(variable_open()[0] == '@' && property_open()[0] == '$');
    match reference {
        InterpolatedValueView::Variable(_) => {
            assert(s.take(2) =~= variable_open());
        },
        InterpolatedValueView::Property(_) => {
            assert(s.take(2) =~= property_open());
            assert(s[0] == '$');
            assert(!starts_with(s, variable_open()));
        },
    }
    lemma_ident_parses(name, after_name);
    assert(after_name.skip(1) =~= tail);
}

/// Whether the segments and references are ones that a string literal
/// delimited by `quote` can be written with: there is a reference, there is
/// one more segment than there are references, no segment holds the quote
/// or the opener of a reference, and every reference names an identifier.
pub open spec fn is_interpolation(
    segments: Seq<Seq<char>>,
    interpolations: Seq<InterpolatedValueView>,
    quote: char,
) -> bool {
    &&& interpolations.len() >= 1
    &&& segments.len() == interpolations.len() + 1
    &&& forall|i: int| 0 <= i < segments.len() ==> is_plain(#[trigger] segments[i], quote)
    &&& forall|i: int|
        0 <= i < interpolations.len() ==> is_ident((#[trigger] interpolations[i]).name())
}

/// The pairs from `from` on, the closing quote and `rest` are read as the
/// remainder of the interpolated string.
pub proof fn lemma_pairs_parse(
    quote: char,
    segments: Seq<Seq<char>>,
    interpolations: Seq<InterpolatedValueView>,
    from: int,
    rest: Seq<char>,
)
    requires
        is_quote(quote),
        is_interpolation(segments, interpolations, quote),
        0 <= from <= interpolations.len(),
    ensures
        spec_string_pairs(
            pairs_text(segments, interpolations, from) + seq![quote] + rest,
            quote,
            segments.take(from + 1),
            interpolations.take(from),
        ) == Ok::<_, crate::outcome::Failure>(
            (rest, ValueView::InterpolatedString(segments, interpolations)),
        ),
    decreases interpolations.len() - from,
{
    let s = pairs_text(segments, interpolations, from) + seq![quote] + rest;
    if from == interpolations.len() {
        assert(s =~= seq![quote] + rest);
        assert(s.skip(1) =~= rest);
        assert(segments.take(from + 1) =~= segments);
        assert(interpolations.take(from) =~= interpolations);
    } else {
        let reference = interpolations[from];
        let segment = segments[from + 1];
        let after_segment = pairs_text(segments, interpolations, from + 1) + seq![quote] + rest;
        let after_reference = segment + after_segment;
        assert(s =~= reference_text(reference) + after_reference);
        assert(reference_text(reference)[0] == '@' || reference_text(reference)[0] == '$');
        assert(s[0] == reference_text(reference)[0]);
        lemma_reference_parses(reference, after_reference);
        lemma_after_segment_stops(quote, segments, interpolations, from + 1, rest);
        lemma_segment_found(segment, quote, after_segment);
        assert(segments.take(from + 1).push(segment) =~= segments.take(from + 2));
        assert(interpolations.take(from).push(reference) =~= interpolations.take(from + 1));
        lemma_pairs_parse(quote, segments, interpolations, from + 1, rest);
    }
}

/// What follows a segment is the closing quote or the opener of a
/// reference.
pub proof fn lemma_after_segment_stops(
    quote: char,
    segments: Seq<Seq<char>>,
    interpolations: Seq<InterpolatedValueView>,
    from: int,
    rest: Seq<char>,
)
    requires
        is_quote(quote),
        0 <= from <= interpolations.len(),
    ensures
        at_stop(pairs_text(segments, interpolations, from) + seq![quote] + rest, quote),
        (pairs_text(segments, interpolations, from) + seq![quote] + rest)[0] != '{',
        from < interpolations.len() ==> (pairs_text(segments, interpolations, from) + seq![quote]
            + rest)[0] != quote,
{
    let s = pairs_text(segments, interpolations, from) + seq![quote] + rest;
    if from == interpolations.len() {
        assert(s =~= seq![quote] + rest);
    } else {
        let opener = reference_text(interpolations[from]).take(2);
        assert(s.take(2) =~= opener);
        assert(opener =~= variable_open() || opener =~= property_open());
        assert(s[0] == opener[0]);
    }
}

/// Every interpolated string that can be written is parsed as written: the
/// opening quote, the text of the segments and references, and the closing
/// quote give those segments and references, and what follows the closing
/// quote remains.
pub proof fn lemma_interpolated_string_parses(
    quote: char,
    segments: Seq<Seq<char>>,
    interpolations: Seq<InterpolatedValueView>,
    rest: Seq<char>,
)
    requires
        is_quote(quote),
        is_interpolation(segments, interpolations, quote),
    ensures
        spec_string(
            seq![quote] + interpolated_text(segments, interpolations) + seq![quote] + rest,
            quote,
        ) == Ok::<_, crate::outcome::Failure>(
            (rest, ValueView::InterpolatedString(segments, interpolations)),
        ),
{
    let s = seq![quote] + interpolated_text(segments, interpolations) + seq![quote] + rest;
    let tail = pairs_text(segments, interpolations, 0) + seq![quote] + rest;
    lemma_interpolated_text_splits(segments, interpolations, 0);
    assert(segments.take(1) =~= seq![segments[0]]);
    assert(interpolations.take(0) =~= Seq::<InterpolatedValueView>::empty());
    assert(interpolated_text(segments.take(1), interpolations.take(0)) == segments[0]);
    assert(s.skip(1) =~= segments[0] + tail);
    lemma_after_segment_stops(quote, segments, interpolations, 0, rest);
    lemma_segment_found(segments[0], quote, tail);
    lemma_pairs_parse(quote, segments, interpolations, 0, rest);
}

} // verus!
