//! Laws of position: what a rule leaves, and where it fails, is a suffix of
//! its input. A rule never invents, reorders or skips back over input.

use vstd::prelude::*;
use crate::ast::{ItemView, ValueView, SelectorView};
use crate::lexer::{
    after_block_comment, after_line_comment, block_comment_start, is_space,
    lemma_after_block_comment_shorter, lemma_after_line_comment_shorter, lemma_run_len_bound,
    line_comment_start, run_len, spec_at_keyword, spec_ident, spec_symbol, strip_junk, CharClass,
};
use crate::outcome::{within, Outcome};
use crate::parser::mixin::{spec_mixin_selector, spec_mixin_simple_selector};
use crate::parser::selector::{
    lemma_selector_consumes, lemma_symbol_consumes, spec_selector, spec_selector_group,
    spec_selectors,
};
use crate::parser::string::{
    lemma_interpolated_part_consumes, lemma_segment_len_bound, lemma_string_part_consumes,
    spec_interpolated_part, spec_string, spec_string_pairs, spec_string_part,
};
use crate::parser::value::{
    lemma_number_bounds, lemma_value_term_consumes, lemma_value_terms_consume, number_len,
    spec_color, spec_declaration_value, spec_keyword, spec_number, spec_value_members,
    spec_value_sequence, spec_value_term, spec_value_terms, spec_variable, unit_len,
};
use crate::parser::{
    spec_block_of_items, spec_declaration, spec_important, spec_item, spec_items, spec_mixin_call,
    spec_mixin_declaration, spec_parse_stylesheet, spec_qualified_rule, spec_stylesheet,
    spec_variable_call, spec_variable_declaration,
};
use crate::text::{is_suffix, starts_with, starts_with_char};

verus! {

/// What remains after skipping is a suffix; so are the whole and nothing.
pub proof fn lemma_skip_is_suffix(s: Seq<char>, n: int)
    requires
        0 <= n <= s.len(),
    ensures
        is_suffix(s.skip(n), s),
        is_suffix(s, s),
        is_suffix(Seq::empty(), s),
{
    reveal(is_suffix);
    assert(s.skip(0) =~= s);
    assert(s.skip(s.len() as int) =~= Seq::<char>::empty());
}

/// A suffix of a suffix is a suffix.
pub proof fn lemma_suffix_transitive(a: Seq<char>, b: Seq<char>, c: Seq<char>)
    requires
        is_suffix(a, b),
        is_suffix(b, c),
    ensures
        is_suffix(a, c),
{
    reveal(is_suffix);
    assert(c.skip(c.len() - b.len()).skip(b.len() - a.len()) =~= c.skip(c.len() - a.len()));
}

/// Every character of a suffix is a character of the whole.
pub proof fn lemma_suffix_index(rest: Seq<char>, s: Seq<char>, i: int)
    requires
        is_suffix(rest, s),
        0 <= i < rest.len(),
    ensures
        rest[i] == s[s.len() - rest.len() + i],
{
    reveal(is_suffix);
}

/// An outcome within a suffix of `s` is within `s`.
pub proof fn lemma_within_suffix<V>(o: Outcome<V>, t: Seq<char>, s: Seq<char>)
    requires
        within(o, t),
        is_suffix(t, s),
    ensures
        within(o, s),
{
    match o {
        Ok((rest, _)) => lemma_suffix_transitive(rest, t, s),
        Err(f) => lemma_suffix_transitive(f.rest, t, s),
    }
}

/// What follows a block comment is a suffix.
pub proof fn lemma_block_comment_span(s: Seq<char>)
    ensures
        after_block_comment(s) matches Some(t) ==> is_suffix(t, s),
    decreases s.len(),
{
    if s.len() >= 2 {
        if s[0] == '*' && s[1] == '/' {
            lemma_skip_is_suffix(s, 2);
        } else {
            lemma_block_comment_span(s.skip(1));
            lemma_skip_is_suffix(s, 1);
            if let Some(t) = after_block_comment(s.skip(1)) {
                lemma_suffix_transitive(t, s.skip(1), s);
            }
        }
    }
}

/// What follows a line comment is a suffix.
pub proof fn lemma_line_comment_span(s: Seq<char>)
    ensures
        is_suffix(after_line_comment(s), s),
    decreases s.len(),
{
    lemma_skip_is_suffix(s, 0);
    if s.len() > 0 {
        lemma_skip_is_suffix(s, 1);
        if s[0] != '\n' {
            lemma_line_comment_span(s.skip(1));
            lemma_suffix_transitive(after_line_comment(s.skip(1)), s.skip(1), s);
        }
    }
}

/// What follows the leading junk is a suffix.
pub proof fn lemma_junk_span(s: Seq<char>)
    ensures
        is_suffix(strip_junk(s), s),
    decreases s.len(),
{
    lemma_skip_is_suffix(s, 0);
    if s.len() > 0 && is_space(s[0]) {
        lemma_junk_span(s.skip(1));
        lemma_skip_is_suffix(s, 1);
        lemma_suffix_transitive(strip_junk(s.skip(1)), s.skip(1), s);
    } else if starts_with(s, block_comment_start()) {
        lemma_block_comment_span(s.skip(2));
        lemma_after_block_comment_shorter(s.skip(2));
        lemma_skip_is_suffix(s, 2);
        if let Some(t) = after_block_comment(s.skip(2)) {
            lemma_junk_span(t);
            lemma_suffix_transitive(t, s.skip(2), s);
            lemma_suffix_transitive(strip_junk(t), t, s);
        }
    } else if starts_with(s, line_comment_start()) {
        let t = after_line_comment(s.skip(2));
        lemma_line_comment_span(s.skip(2));
        lemma_after_line_comment_shorter(s.skip(2));
        lemma_skip_is_suffix(s, 2);
        lemma_junk_span(t);
        lemma_suffix_transitive(t, s.skip(2), s);
        lemma_suffix_transitive(strip_junk(t), t, s);
    }
}

/// A literal token stays within its input.
pub proof fn lemma_symbol_span(s: Seq<char>, lit: Seq<char>)
    ensures
        within(spec_symbol(s, lit), s),
{
    let start = strip_junk(s);
    lemma_junk_span(s);
    if starts_with(start, lit) {
        lemma_skip_is_suffix(start, lit.len() as int);
        lemma_suffix_transitive(start.skip(lit.len() as int), start, s);
    }
}

/// An identifier stays within its input.
pub proof fn lemma_ident_span(s: Seq<char>)
    ensures
        within(spec_ident(s), s),
{
    lemma_run_len_bound(s, CharClass::Ident);
    lemma_skip_is_suffix(s, run_len(s, CharClass::Ident) as int);
}

/// What follows one character and an identifier is a suffix.
pub proof fn lemma_prefixed_ident_span(s: Seq<char>)
    requires
        s.len() > 0,
    ensures
        spec_ident(s.skip(1)) matches Ok((rest, _)) ==> is_suffix(rest, s),
{
    lemma_ident_span(s.skip(1));
    lemma_skip_is_suffix(s, 1);
    if let Ok((rest, _)) = spec_ident(s.skip(1)) {
        lemma_suffix_transitive(rest, s.skip(1), s);
    }
}

/// An at-keyword stays within its input.
pub proof fn lemma_at_keyword_span(s: Seq<char>)
    ensures
        within(spec_at_keyword(s), s),
{
    let start = strip_junk(s);
    lemma_junk_span(s);
    if starts_with_char(start, '@') {
        lemma_prefixed_ident_span(start);
        if let Ok((rest, _)) = spec_ident(start.skip(1)) {
            lemma_suffix_transitive(rest, start, s);
        }
    }
}

/// A segment stays within its input.
pub proof fn lemma_string_part_span(s: Seq<char>, quote: char)
    ensures
        within(spec_string_part(s, quote), s),
{
    lemma_segment_len_bound(s, quote);
    lemma_skip_is_suffix(s, 0);
    if let Some(n) = crate::parser::string::segment_len(s, quote) {
        lemma_skip_is_suffix(s, n as int);
    }
}

/// A reference stays within its input.
pub proof fn lemma_interpolated_part_span(s: Seq<char>)
    ensures
        within(spec_interpolated_part(s), s),
{
    lemma_skip_is_suffix(s, 0);
    if s.len() >= 2 {
        lemma_ident_span(s.skip(2));
        lemma_skip_is_suffix(s, 2);
        if let Ok((rest, _)) = spec_ident(s.skip(2)) {
            lemma_suffix_transitive(rest, s.skip(2), s);
            if rest.len() > 0 {
                lemma_skip_is_suffix(rest, 1);
                lemma_suffix_transitive(rest.skip(1), rest, s);
            }
        }
    }
}

/// The pairs of an interpolated string stay within their input.
pub proof fn lemma_string_pairs_span(
    s: Seq<char>,
    quote: char,
    segments: Seq<Seq<char>>,
    interpolations: Seq<crate::ast::InterpolatedValueView>,
)
    ensures
        within(spec_string_pairs(s, quote, segments, interpolations), s),
    decreases s.len(),
{
    if interpolations.len() > 0 && starts_with_char(s, quote) {
        lemma_skip_is_suffix(s, 1);
    } else {
        lemma_interpolated_part_span(s);
        if let Ok((after_reference, reference)) = spec_interpolated_part(s) {
            lemma_string_part_span(after_reference, quote);
            lemma_within_suffix(spec_string_part(after_reference, quote), after_reference, s);
            lemma_interpolated_part_consumes(s);
            lemma_string_part_consumes(after_reference, quote);
            if let Ok((rest, segment)) = spec_string_part(after_reference, quote) {
                let more_segments = segments.push(segment);
                let more_interpolations = interpolations.push(reference);
                lemma_string_pairs_span(rest, quote, more_segments, more_interpolations);
                lemma_within_suffix(
                    spec_string_pairs(rest, quote, more_segments, more_interpolations),
                    rest,
                    s,
                );
            }
        }
    }
}

/// A string literal stays within its input.
pub proof fn lemma_string_span(s: Seq<char>, quote: char)
    ensures
        within(spec_string(s, quote), s),
{
    lemma_skip_is_suffix(s, 0);
    if starts_with_char(s, quote) {
        let after_quote = s.skip(1);
        lemma_skip_is_suffix(s, 1);
        lemma_string_part_span(after_quote, quote);
        lemma_within_suffix(spec_string_part(after_quote, quote), after_quote, s);
        if let Ok((rest, first_part)) = spec_string_part(after_quote, quote) {
            if starts_with_char(rest, quote) {
                lemma_skip_is_suffix(rest, 1);
                lemma_suffix_transitive(rest.skip(1), rest, s);
            } else {
                let tail = spec_string_pairs(rest, quote, seq![first_part], Seq::empty());
                lemma_string_pairs_span(rest, quote, seq![first_part], Seq::empty());
                lemma_within_suffix(tail, rest, s);
            }
        }
    }
}

/// A number stays within its input.
pub proof fn lemma_number_span(s: Seq<char>)
    ensures
        within(spec_number(s), s),
{
    lemma_number_bounds(s);
    lemma_skip_is_suffix(s, 0);
    let after_digits = s.skip(number_len(s) as int);
    lemma_skip_is_suffix(s, number_len(s) as int);
    lemma_skip_is_suffix(after_digits, unit_len(after_digits) as int);
    lemma_suffix_transitive(after_digits.skip(unit_len(after_digits) as int), after_digits, s);
}

/// A colour, a variable reference and a bare identifier stay within their
/// input.
pub proof fn lemma_simple_value_spans(s: Seq<char>)
    ensures
        within(spec_color(s), s),
        within(spec_variable(s), s),
        within(spec_keyword(s), s),
{
    lemma_skip_is_suffix(s, 0);
    lemma_ident_span(s);
    if s.len() > 0 {
        lemma_prefixed_ident_span(s);
        let digits = run_len(s.skip(1), CharClass::HexDigit) as int;
        lemma_run_len_bound(s.skip(1), CharClass::HexDigit);
        lemma_skip_is_suffix(s, 1);
        lemma_skip_is_suffix(s.skip(1), digits);
        lemma_suffix_transitive(s.skip(1).skip(digits), s.skip(1), s);
    }
}

/// A value that is not a list stays within its input.
pub proof fn lemma_value_term_span(s: Seq<char>)
    ensures
        within(spec_value_term(s), s),
{
    lemma_string_span(s, '\'');
    lemma_string_span(s, '"');
    lemma_number_span(s);
    lemma_simple_value_spans(s);
}

/// A sequence of values stays within its input.
pub proof fn lemma_value_terms_span(s: Seq<char>, terms: Seq<ValueView>)
    ensures
        within(spec_value_terms(s, terms), s),
    decreases s.len(),
{
    let start = strip_junk(s);
    lemma_skip_is_suffix(s, 0);
    lemma_junk_span(s);
    lemma_value_term_span(start);
    lemma_within_suffix(spec_value_term(start), start, s);
    lemma_value_term_consumes(start);
    crate::lexer::lemma_strip_junk_shorter(s);
    if let Ok((rest, term)) = spec_value_term(start) {
        lemma_value_terms_span(rest, terms.push(term));
        lemma_within_suffix(spec_value_terms(rest, terms.push(term)), rest, s);
    }
}

/// Comma-separated value sequences stay within their input.
pub proof fn lemma_value_members_span(s: Seq<char>, members: Seq<ValueView>)
    ensures
        within(spec_value_members(s, members), s),
    decreases s.len(),
{
    lemma_value_terms_span(s, Seq::empty());
    lemma_value_terms_consume(s, Seq::empty());
    if let Ok((rest, member)) = spec_value_sequence(s) {
        lemma_symbol_span(rest, ","@);
        lemma_within_suffix(spec_symbol(rest, ","@), rest, s);
        crate::lexer::lemma_strip_junk_shorter(rest);
        if let Ok((after_comma, _)) = spec_symbol(rest, ","@) {
            lemma_value_members_span(after_comma, members.push(member));
            lemma_within_suffix(
                spec_value_members(after_comma, members.push(member)),
                after_comma,
                s,
            );
        }
    }
}

/// The right-hand side of a declaration stays within its input.
pub proof fn lemma_declaration_value_span(s: Seq<char>)
    ensures
        within(spec_declaration_value(s), s),
{
    lemma_value_members_span(s, Seq::empty());
}

/// A selector stays within its input.
pub proof fn lemma_selector_span(s: Seq<char>)
    ensures
        within(spec_selector(s), s),
        within(spec_mixin_selector(s), s),
{
    let start = strip_junk(s);
    lemma_junk_span(s);
    if start.len() > 0 {
        lemma_prefixed_ident_span(start);
        if let Ok((rest, _)) = spec_ident(start.skip(1)) {
            lemma_suffix_transitive(rest, start, s);
        }
    }
}

/// The selectors after the first stay within their input.
pub proof fn lemma_selectors_span(s: Seq<char>, selectors: Seq<SelectorView>)
    ensures
        within(spec_selectors(s, selectors), s),
    decreases s.len(),
{
    lemma_skip_is_suffix(s, 0);
    lemma_symbol_span(s, ","@);
    if let Ok((after_comma, _)) = spec_symbol(s, ","@) {
        lemma_symbol_consumes(s, ","@);
        lemma_selector_consumes(after_comma);
        lemma_selector_span(after_comma);
        lemma_within_suffix(spec_selector(after_comma), after_comma, s);
        if let Ok((rest, selector)) = spec_selector(after_comma) {
            lemma_selectors_span(rest, selectors.push(selector));
            lemma_within_suffix(spec_selectors(rest, selectors.push(selector)), rest, s);
        }
    }
}

/// A selector group stays within its input.
pub proof fn lemma_selector_group_span(s: Seq<char>)
    ensures
        within(spec_selector_group(s), s),
{
    lemma_selector_span(s);
    if let Ok((rest, first)) = spec_selector(s) {
        lemma_selectors_span(rest, seq![first]);
        lemma_within_suffix(spec_selectors(rest, seq![first]), rest, s);
    }
}

/// A token that follows something within `s` stays within `s`.
pub proof fn lemma_next_symbol_span(t: Seq<char>, lit: Seq<char>, s: Seq<char>)
    requires
        is_suffix(t, s),
    ensures
        within(spec_symbol(t, lit), s),
{
    lemma_symbol_span(t, lit);
    lemma_within_suffix(spec_symbol(t, lit), t, s);
}

/// What follows a value and its terminators stays within the input that
/// the value was read from.
pub proof fn lemma_value_and_end_span(t: Seq<char>, s: Seq<char>)
    requires
        is_suffix(t, s),
    ensures
        within(spec_declaration_value(t), s),
        spec_declaration_value(t) matches Ok((after_value, _)) ==> {
            &&& within(spec_symbol(after_value, ";"@), s)
            &&& within(spec_important(after_value), s)
            &&& spec_important(after_value) matches Ok((after_flag, _)) && within(
                spec_symbol(after_flag, ";"@),
                s,
            )
        },
{
    lemma_declaration_value_span(t);
    lemma_within_suffix(spec_declaration_value(t), t, s);
    if let Ok((after_value, _)) = spec_declaration_value(t) {
        lemma_next_symbol_span(after_value, ";"@, s);
        lemma_next_symbol_span(after_value, "!important"@, s);
        let after_flag = spec_important(after_value)->Ok_0.0;
        lemma_next_symbol_span(after_flag, ";"@, s);
    }
}

/// A property declaration stays within its input.
pub proof fn lemma_declaration_span(s: Seq<char>)
    ensures
        within(spec_declaration(s), s),
{
    let start = strip_junk(s);
    lemma_junk_span(s);
    lemma_ident_span(start);
    lemma_within_suffix(spec_ident(start), start, s);
    if let Ok((after_name, _)) = spec_ident(start) {
        lemma_next_symbol_span(after_name, ":"@, s);
        if let Ok((after_colon, _)) = spec_symbol(after_name, ":"@) {
            lemma_value_and_end_span(after_colon, s);
        }
    }
}

/// A mixin call stays within its input.
pub proof fn lemma_mixin_call_span(s: Seq<char>)
    ensures
        within(spec_mixin_call(s), s),
{
    lemma_selector_span(s);
    if let Ok((after_selector, _)) = spec_mixin_selector(s) {
        lemma_next_symbol_span(after_selector, "()"@, s);
        if let Ok((after_parens, _)) = spec_symbol(after_selector, "()"@) {
            lemma_next_symbol_span(after_parens, ";"@, s);
        }
    }
}

/// A variable declaration and a variable call stay within their input.
pub proof fn lemma_variable_item_spans(s: Seq<char>)
    ensures
        within(spec_variable_declaration(s), s),
        within(spec_variable_call(s), s),
{
    lemma_at_keyword_span(s);
    if let Ok((after_name, _)) = spec_at_keyword(s) {
        lemma_next_symbol_span(after_name, ":"@, s);
        lemma_next_symbol_span(after_name, "()"@, s);
        if let Ok((after_colon, _)) = spec_symbol(after_name, ":"@) {
            lemma_value_and_end_span(after_colon, s);
        }
        if let Ok((after_parens, _)) = spec_symbol(after_name, "()"@) {
            lemma_next_symbol_span(after_parens, ";"@, s);
        }
    }
}

/// A list of items stays within its input.
pub proof fn lemma_items_span(s: Seq<char>, depth: nat, items: Seq<ItemView>)
    ensures
        within(spec_items(s, depth, items), s),
    decreases depth, s.len(), 4nat,
{
    lemma_skip_is_suffix(s, 0);
    lemma_item_span(s, depth);
    if let Ok((rest, item)) = spec_item(s, depth) {
        if rest.len() < s.len() {
            lemma_items_span(rest, depth, items.push(item));
            lemma_within_suffix(spec_items(rest, depth, items.push(item)), rest, s);
        }
    }
}

/// An item stays within its input.
pub proof fn lemma_item_span(s: Seq<char>, depth: nat)
    ensures
        within(spec_item(s, depth), s),
    decreases depth, s.len(), 3nat,
{
    lemma_junk_span(s);
    lemma_mixin_declaration_span(s, depth);
    lemma_declaration_span(s);
    lemma_mixin_call_span(s);
    lemma_qualified_rule_span(s, depth);
    lemma_variable_item_spans(s);
}

/// A mixin declaration stays within its input.
pub proof fn lemma_mixin_declaration_span(s: Seq<char>, depth: nat)
    ensures
        within(spec_mixin_declaration(s, depth), s),
    decreases depth, s.len(), 2nat,
{
    lemma_selector_span(s);
    if let Ok((after_selector, _)) = spec_mixin_simple_selector(strip_junk(s)) {
        lemma_next_symbol_span(after_selector, "()"@, s);
        if let Ok((after_parens, _)) = spec_symbol(after_selector, "()"@) {
            lemma_block_span(after_parens, depth);
            lemma_within_suffix(spec_block_of_items(after_parens, depth), after_parens, s);
        }
    }
}

/// A qualified rule stays within its input.
pub proof fn lemma_qualified_rule_span(s: Seq<char>, depth: nat)
    ensures
        within(spec_qualified_rule(s, depth), s),
    decreases depth, s.len(), 2nat,
{
    lemma_selector_group_span(s);
    if let Ok((after_group, _)) = spec_selector_group(s) {
        lemma_block_span(after_group, depth);
        lemma_within_suffix(spec_block_of_items(after_group, depth), after_group, s);
    }
}

/// A block stays within its input.
pub proof fn lemma_block_span(s: Seq<char>, depth: nat)
    ensures
        within(spec_block_of_items(s, depth), s),
    decreases depth, 0nat, 0nat,
{
    lemma_junk_span(s);
    lemma_symbol_span(s, "{"@);
    if let Ok((after_open, _)) = spec_symbol(s, "{"@) {
        if depth > 0 {
            let list = spec_items(after_open, (depth - 1) as nat, Seq::empty());
            lemma_items_span(after_open, (depth - 1) as nat, Seq::empty());
            lemma_within_suffix(list, after_open, s);
            if let Ok((after_items, _)) = list {
                lemma_next_symbol_span(after_items, "}"@, s);
            }
        }
    }
}

/// The parse of a whole source text stays within it: on success nothing
/// remains, and a failure lies at a place of the source.
pub proof fn lemma_parse_stylesheet_span(s: Seq<char>)
    ensures
        within(spec_parse_stylesheet(s), s),
        spec_parse_stylesheet(s) matches Ok((rest, _)) ==> rest.len() == 0,
{
    lemma_items_span(s, crate::parser::MAX_NESTING_DEPTH as nat, Seq::empty());
    if let Ok((after_items, _)) = spec_stylesheet(s) {
        lemma_junk_span(after_items);
        lemma_suffix_transitive(strip_junk(after_items), after_items, s);
    }
}

} // verus!
