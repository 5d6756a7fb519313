//! Laws of shape: every tree that the grammar produces is well formed.

use vstd::prelude::*;
use crate::ast::{
    well_formed_item, well_formed_items, well_formed_value, InterpolatedValueView, ItemView,
    SelectorView, ValueView,
};
use crate::lexer::{
    is_ident, lemma_ident_is_longest, lemma_run_is_maximal, lemma_strip_junk_shorter,
    spec_at_keyword, spec_ident, spec_symbol, strip_junk, CharClass,
};
use crate::parser::mixin::{spec_mixin_selector, spec_mixin_simple_selector};
use crate::parser::selector::{
    lemma_selector_consumes, lemma_symbol_consumes, spec_selector, spec_selector_group,
    spec_selectors,
};
use crate::parser::string::{
    lemma_interpolated_part_consumes, lemma_string_part_consumes, spec_interpolated_part,
    spec_string, spec_string_pairs, spec_string_part,
};
use crate::parser::value::{
    lemma_number_bounds, lemma_value_term_consumes, lemma_value_terms_consume, spec_color,
    spec_declaration_value, spec_number, spec_value_members, spec_value_sequence, spec_value_term,
    spec_value_terms,
};
use crate::parser::{
    spec_block_of_items, spec_declaration, spec_item, spec_items, spec_mixin_call,
    spec_parse_stylesheet, spec_variable_call, spec_variable_declaration, MAX_NESTING_DEPTH,
};
use crate::text::starts_with_char;

verus! {

/// A reference that is parsed names an identifier.
pub proof fn lemma_reference_shape(s: Seq<char>)
    ensures
        spec_interpolated_part(s) matches Ok((_, reference)) ==> is_ident(reference.name()),
{
    lemma_ident_is_longest(s.skip(2));
}

/// The references of an interpolated string name identifiers, and there is
/// one more segment than there are references.
pub proof fn lemma_string_pairs_shape(
    s: Seq<char>,
    quote: char,
    segments: Seq<Seq<char>>,
    interpolations: Seq<InterpolatedValueView>,
)
    requires
        segments.len() == interpolations.len() + 1,
        forall|i: int|
            0 <= i < interpolations.len() ==> is_ident((#[trigger] interpolations[i]).name()),
    ensures
        spec_string_pairs(s, quote, segments, interpolations) matches Ok((_, value))
            ==> well_formed_value(value),
    decreases s.len(),
{
    if !(interpolations.len() > 0 && starts_with_char(s, quote)) {
        lemma_reference_shape(s);
        lemma_interpolated_part_consumes(s);
        if let Ok((after_reference, reference)) = spec_interpolated_part(s) {
            lemma_string_part_consumes(after_reference, quote);
            if let Ok((rest, segment)) = spec_string_part(after_reference, quote) {
                lemma_string_pairs_shape(
                    rest,
                    quote,
                    segments.push(segment),
                    interpolations.push(reference),
                );
            }
        }
    }
}

/// A string literal that is parsed is well formed.
pub proof fn lemma_string_shape(s: Seq<char>, quote: char)
    ensures
        spec_string(s, quote) matches Ok((_, value)) ==> well_formed_value(value)
            && value.is_term(),
{
    if let Ok((_, value)) = spec_string(s, quote) {
        let (rest, first_part) = spec_string_part(s.skip(1), quote)->Ok_0;
        if !starts_with_char(rest, quote) {
            lemma_string_pairs_shape(rest, quote, seq![first_part], Seq::empty());
            crate::laws::strings::lemma_string_round_trip(s, quote);
        }
    }
}

/// A value that is not a list is well formed when it is parsed.
pub proof fn lemma_value_term_shape(s: Seq<char>)
    ensures
        spec_value_term(s) matches Ok((_, value)) ==> well_formed_value(value) && value.is_term(),
{
    lemma_string_shape(s, '\'');
    lemma_string_shape(s, '"');
    lemma_number_bounds(s);
    lemma_run_is_maximal(s.skip(1), CharClass::HexDigit);
    lemma_ident_is_longest(s.skip(1));
    lemma_ident_is_longest(s);
    if let Ok((_, value)) = spec_number(s) {
        assert(value->Number_value[0] == s[0]);
    }
    if let Ok((_, value)) = spec_color(s) {
        let digits = value->Color_0;
        assert forall|i: int| 0 <= i < digits.len() implies crate::lexer::is_hex_digit(
            #[trigger] digits[i],
        ) by {
            assert(digits[i] == s.skip(1)[i]);
        }
    }
}

/// The values of a whitespace-separated sequence are well formed and none
/// is a list; there is at least one.
pub proof fn lemma_value_terms_shape(s: Seq<char>, terms: Seq<ValueView>)
    requires
        forall|i: int|
            0 <= i < terms.len() ==> (#[trigger] terms[i]).is_term() && well_formed_value(
                terms[i],
            ),
    ensures
        spec_value_terms(s, terms) matches Ok((_, all)) ==> {
            &&& all.len() >= 1
            &&& forall|i: int|
                0 <= i < all.len() ==> (#[trigger] all[i]).is_term() && well_formed_value(all[i])
        },
    decreases s.len(),
{
    let start = strip_junk(s);
    lemma_strip_junk_shorter(s);
    lemma_value_term_consumes(start);
    lemma_value_term_shape(start);
    if let Ok((rest, term)) = spec_value_term(start) {
        lemma_value_terms_shape(rest, terms.push(term));
    }
}

/// A whitespace-separated sequence that is parsed is well formed and is no
/// comma-separated list.
pub proof fn lemma_value_sequence_shape(s: Seq<char>)
    ensures
        spec_value_sequence(s) matches Ok((_, value)) ==> well_formed_value(value) && !(value
            is CommaList),
{
    lemma_value_terms_shape(s, Seq::empty());
}

/// The members of a comma-separated sequence are well formed and none is a
/// comma-separated list; there is at least one.
pub proof fn lemma_value_members_shape(s: Seq<char>, members: Seq<ValueView>)
    requires
        forall|i: int|
            0 <= i < members.len() ==> !((#[trigger] members[i]) is CommaList)
                && well_formed_value(members[i]),
    ensures
        spec_value_members(s, members) matches Ok((_, all)) ==> {
            &&& all.len() >= 1
            &&& forall|i: int|
                0 <= i < all.len() ==> !((#[trigger] all[i]) is CommaList) && well_formed_value(
                    all[i],
                )
        },
    decreases s.len(),
{
    lemma_value_sequence_shape(s);
    lemma_value_terms_consume(s, Seq::empty());
    if let Ok((rest, member)) = spec_value_sequence(s) {
        lemma_strip_junk_shorter(rest);
        if let Ok((after_comma, _)) = spec_symbol(rest, ","@) {
            lemma_value_members_shape(after_comma, members.push(member));
        }
    }
}

/// The right-hand side of a declaration is well formed when it is parsed.
pub proof fn lemma_declaration_value_shape(s: Seq<char>)
    ensures
        spec_declaration_value(s) matches Ok((_, value)) ==> well_formed_value(value),
{
    lemma_value_members_shape(s, Seq::empty());
}

/// A selector that is parsed names an identifier.
pub proof fn lemma_selector_shape(s: Seq<char>)
    ensures
        spec_selector(s) matches Ok((_, selector)) ==> is_ident(selector.name()),
        spec_mixin_selector(s) matches Ok((_, selector)) ==> is_ident(selector.name()),
        spec_at_keyword(s) matches Ok((_, name)) ==> is_ident(name),
{
    lemma_ident_is_longest(strip_junk(s).skip(1));
}

/// The selectors of a group name identifiers.
pub proof fn lemma_selectors_shape(s: Seq<char>, selectors: Seq<SelectorView>)
    requires
        forall|i: int| 0 <= i < selectors.len() ==> is_ident((#[trigger] selectors[i]).name()),
    ensures
        spec_selectors(s, selectors) matches Ok((_, all)) ==> all.len() >= selectors.len()
            && forall|i: int| 0 <= i < all.len() ==> is_ident((#[trigger] all[i]).name()),
    decreases s.len(),
{
    if let Ok((after_comma, _)) = spec_symbol(s, ","@) {
        lemma_symbol_consumes(s, ","@);
        lemma_selector_consumes(after_comma);
        lemma_selector_shape(after_comma);
        if let Ok((rest, selector)) = spec_selector(after_comma) {
            lemma_selectors_shape(rest, selectors.push(selector));
        }
    }
}

/// A selector group that is parsed is not empty and names identifiers.
pub proof fn lemma_selector_group_shape(s: Seq<char>)
    ensures
        spec_selector_group(s) matches Ok((_, group)) ==> group.len() >= 1 && forall|i: int|
            0 <= i < group.len() ==> is_ident((#[trigger] group[i]).name()),
{
    lemma_selector_shape(s);
    if let Ok((rest, first)) = spec_selector(s) {
        lemma_selectors_shape(rest, seq![first]);
    }
}

/// The four kinds of item without a block are well formed when they are
/// parsed.
pub proof fn lemma_simple_item_shapes(s: Seq<char>)
    ensures
        spec_declaration(s) matches Ok((_, item)) ==> well_formed_item(item),
        spec_mixin_call(s) matches Ok((_, item)) ==> well_formed_item(item),
        spec_variable_declaration(s) matches Ok((_, item)) ==> well_formed_item(item),
        spec_variable_call(s) matches Ok((_, item)) ==> well_formed_item(item),
{
    lemma_ident_is_longest(strip_junk(s));
    lemma_selector_shape(s);
    if let Ok((after_name, _)) = spec_ident(strip_junk(s)) {
        if let Ok((after_colon, _)) = spec_symbol(after_name, ":"@) {
            lemma_declaration_value_shape(after_colon);
        }
    }
    if let Ok((after_name, _)) = spec_at_keyword(s) {
        if let Ok((after_colon, _)) = spec_symbol(after_name, ":"@) {
            lemma_declaration_value_shape(after_colon);
        }
    }
}

/// The items of a list are well formed.
pub proof fn lemma_items_shape(s: Seq<char>, depth: nat, items: Seq<ItemView>)
    requires
        well_formed_items(items),
    ensures
        spec_items(s, depth, items) matches Ok((_, all)) ==> well_formed_items(all),
    decreases depth, s.len(), 3nat,
{
    lemma_item_shape(s, depth);
    if let Ok((rest, item)) = spec_item(s, depth) {
        if rest.len() < s.len() {
            lemma_items_shape(rest, depth, items.push(item));
        }
    }
}

/// An item that is parsed is well formed.
pub proof fn lemma_item_shape(s: Seq<char>, depth: nat)
    ensures
        spec_item(s, depth) matches Ok((_, item)) ==> well_formed_item(item),
    decreases depth, s.len(), 2nat,
{
    lemma_simple_item_shapes(s);
    lemma_selector_shape(s);
    if let Ok((after_selector, _)) = spec_mixin_simple_selector(strip_junk(s)) {
        if let Ok((after_parens, _)) = spec_symbol(after_selector, "()"@) {
            lemma_block_shape(after_parens, depth);
        }
    }
    lemma_selector_group_shape(s);
    if let Ok((after_group, _)) = spec_selector_group(s) {
        lemma_block_shape(after_group, depth);
    }
}

/// The items of a block are well formed.
pub proof fn lemma_block_shape(s: Seq<char>, depth: nat)
    ensures
        spec_block_of_items(s, depth) matches Ok((_, items)) ==> well_formed_items(items),
    decreases depth, 0nat, 0nat,
{
    if let Ok((after_open, _)) = spec_symbol(s, "{"@) {
        if depth > 0 {
            lemma_items_shape(after_open, (depth - 1) as nat, Seq::empty());
        }
    }
}

/// Every stylesheet that is parsed is well formed.
pub proof fn lemma_parse_stylesheet_shape(s: Seq<char>)
    ensures
        spec_parse_stylesheet(s) matches Ok((_, sheet)) ==> sheet.well_formed(),
{
    lemma_items_shape(s, MAX_NESTING_DEPTH as nat, Seq::empty());
}

} // verus!
