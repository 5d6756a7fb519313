//! The grammar of items: declarations, rules with nested blocks, mixins and
//! variables, and the stylesheet made of them.
//!
//! An item is one of six kinds, tried in a fixed order. A kind that fails
//! before its distinguishing prefix lets the next kind be tried; a kind that
//! fails after it ends the parse.

pub mod string;
pub mod value;
pub mod selector;
pub mod mixin;

use vstd::prelude::*;
use vstd::string::StrSliceExecFns;
use crate::ast::{
    lemma_deep_view_empty, lemma_deep_view_push, lemma_mixin_declaration_view,
    lemma_qualified_rule_view, Item, ItemView, Stylesheet, StylesheetView,
};
use crate::laws::shape::lemma_parse_stylesheet_shape;
use crate::laws::spans::lemma_parse_stylesheet_span;
use crate::text::is_suffix;
use crate::lexer::{
    at_keyword, ident, junk, lemma_run_len_bound, lemma_strip_junk_shorter, spec_at_keyword,
    spec_ident, spec_symbol, strip_junk, symbol, token, CharClass,
};
use crate::outcome::{
    commit_failure, hard, no_match, or_else, outcome, Outcome, ParseError, Parsed, Rule,
};
use crate::parser::mixin::{
    lemma_mixin_selector_consumes, mixin_selector, mixin_simple_selector, spec_mixin_selector,
    spec_mixin_simple_selector,
};
use crate::parser::selector::{
    lemma_selector_group_consumes, lemma_symbol_consumes, selector_group, spec_selector_group,
};
use crate::parser::value::{
    declaration_value, spec_declaration_value, spec_variable_declaration_value,
    variable_declaration_value,
};

verus! {

/// How deeply blocks may be nested.
pub const MAX_NESTING_DEPTH: usize = 128;

/// An optional `!important`: whether it is there.
pub open spec fn spec_important(s: Seq<char>) -> Outcome<bool> {
    match spec_symbol(s, "!important"@) {
        Ok((rest, _)) => Ok((rest, true)),
        Err(_) => Ok((s, false)),
    }
}

/// Parses an optional `!important` token.
pub fn important<'a>(input: &'a str) -> (r: Parsed<'a, bool>)
    ensures
        outcome(r) == spec_important(input@),
{
    match symbol("!important", input) {
        Ok((rest, _)) => Ok((rest, true)),
        Err(_) => Ok((input, false)),
    }
}

/// A property declaration: a name, `:`, a value, an optional `!important`
/// and `;`. The rule is committed once the colon has been read.
pub open spec fn spec_declaration(s: Seq<char>) -> Outcome<ItemView> {
    match spec_ident(strip_junk(s)) {
        Err(f) => Err(f),
        Ok((after_name, name)) => match spec_symbol(after_name, ":"@) {
            Err(f) => Err(f),
            Ok((after_colon, _)) => match spec_declaration_value(after_colon) {
                Err(f) => Err(commit_failure(f)),
                Ok((after_value, value)) => match spec_important(after_value) {
                    Err(f) => Err(commit_failure(f)),
                    Ok((after_flag, important)) => match spec_symbol(after_flag, ";"@) {
                        Err(f) => Err(commit_failure(f)),
                        Ok((rest, _)) => Ok(
                            (rest, ItemView::Declaration { name, value, important }),
                        ),
                    },
                },
            },
        },
    }
}

/// Parses a property declaration.
pub fn declaration<'a>(input: &'a str) -> (r: Parsed<'a, Item<'a>>)
    ensures
        outcome(r) == spec_declaration(input@),
{
    let (after_name, name) = match token(ident, input) {
        Ok(m) => m,
        Err(e) => {
            return Err(e);
        },
    };
    let after_colon = match symbol(":", after_name) {
        Ok((rest, _)) => rest,
        Err(e) => {
            return Err(e);
        },
    };
    let (after_value, value) = match declaration_value(after_colon) {
        Ok(m) => m,
        Err(e) => {
            return Err(e.commit());
        },
    };
    let (after_flag, important) = match important(after_value) {
        Ok(m) => m,
        Err(e) => {
            return Err(e.commit());
        },
    };
    match symbol(";", after_flag) {
        Ok((rest, _)) => Ok((rest, Item::Declaration { name, value, important })),
        Err(e) => Err(e.commit()),
    }
}

/// A mixin call: a mixin selector, `()` and `;`. The rule is committed once
/// the parentheses have been read.
pub open spec fn spec_mixin_call(s: Seq<char>) -> Outcome<ItemView> {
    match spec_mixin_selector(s) {
        Err(f) => Err(f),
        Ok((after_selector, selector)) => match spec_symbol(after_selector, "()"@) {
            Err(f) => Err(f),
            Ok((after_parens, _)) => match spec_symbol(after_parens, ";"@) {
                Err(f) => Err(commit_failure(f)),
                Ok((rest, _)) => Ok((rest, ItemView::MixinCall { selector })),
            },
        },
    }
}

/// Parses a mixin call.
pub fn mixin_call<'a>(input: &'a str) -> (r: Parsed<'a, Item<'a>>)
    ensures
        outcome(r) == spec_mixin_call(input@),
{
    let (after_selector, selector) = match mixin_selector(input) {
        Ok(m) => m,
        Err(e) => {
            return Err(e);
        },
    };
    let after_parens = match symbol("()", after_selector) {
        Ok((rest, _)) => rest,
        Err(e) => {
            return Err(e);
        },
    };
    match symbol(";", after_parens) {
        Ok((rest, _)) => Ok((rest, Item::MixinCall { selector })),
        Err(e) => Err(e.commit()),
    }
}

/// A variable declaration: an at-keyword, `:`, a value and `;`. The rule is
/// committed once the colon has been read.
pub open spec fn spec_variable_declaration(s: Seq<char>) -> Outcome<ItemView> {
    match spec_at_keyword(s) {
        Err(f) => Err(f),
        Ok((after_name, name)) => match spec_symbol(after_name, ":"@) {
            Err(f) => Err(f),
            Ok((after_colon, _)) => match spec_variable_declaration_value(after_colon) {
                Err(f) => Err(commit_failure(f)),
                Ok((after_value, value)) => match spec_symbol(after_value, ";"@) {
                    Err(f) => Err(commit_failure(f)),
                    Ok((rest, _)) => Ok((rest, ItemView::VariableDeclaration { name, value })),
                },
            },
        },
    }
}

/// Parses a variable declaration.
pub fn variable_declaration<'a>(input: &'a str) -> (r: Parsed<'a, Item<'a>>)
    ensures
        outcome(r) == spec_variable_declaration(input@),
{
    let (after_name, name) = match at_keyword(input) {
        Ok(m) => m,
        Err(e) => {
            return Err(e);
        },
    };
    let after_colon = match symbol(":", after_name) {
        Ok((rest, _)) => rest,
        Err(e) => {
            return Err(e);
        },
    };
    let (after_value, value) = match variable_declaration_value(after_colon) {
        Ok(m) => m,
        Err(e) => {
            return Err(e.commit());
        },
    };
    match symbol(";", after_value) {
        Ok((rest, _)) => Ok((rest, Item::VariableDeclaration { name, value })),
        Err(e) => Err(e.commit()),
    }
}

/// A variable call: an at-keyword, `()` and `;`. The rule is committed once
/// the parentheses have been read.
pub open spec fn spec_variable_call(s: Seq<char>) -> Outcome<ItemView> {
    match spec_at_keyword(s) {
        Err(f) => Err(f),
        Ok((after_name, name)) => match spec_symbol(after_name, "()"@) {
            Err(f) => Err(f),
            Ok((after_parens, _)) => match spec_symbol(after_parens, ";"@) {
                Err(f) => Err(commit_failure(f)),
                Ok((rest, _)) => Ok((rest, ItemView::VariableCall { name })),
            },
        },
    }
}

/// Parses a variable call.
pub fn variable_call<'a>(input: &'a str) -> (r: Parsed<'a, Item<'a>>)
    ensures
        outcome(r) == spec_variable_call(input@),
{
    let (after_name, name) = match at_keyword(input) {
        Ok(m) => m,
        Err(e) => {
            return Err(e);
        },
    };
    let after_parens = match symbol("()", after_name) {
        Ok((rest, _)) => rest,
        Err(e) => {
            return Err(e);
        },
    };
    match symbol(";", after_parens) {
        Ok((rest, _)) => Ok((rest, Item::VariableCall { name })),
        Err(e) => Err(e.commit()),
    }
}

/// Zero or more items, added to `items`, with `depth` further levels of
/// nesting allowed. The list ends, without failing, where no item matches;
/// it fails only where an item fails after commitment.
pub open spec fn spec_items(s: Seq<char>, depth: nat, items: Seq<ItemView>) -> Outcome<
    Seq<ItemView>,
>
    decreases depth, s.len(), 3nat,
{
    match spec_item(s, depth) {
        Ok((rest, item)) => if rest.len() < s.len() {
            spec_items(rest, depth, items.push(item))
        } else {
            Ok((s, items))
        },
        Err(f) => if f.committed {
            Err(f)
        } else {
            Ok((s, items))
        },
    }
}

/// One item: a mixin declaration, a property declaration, a mixin call, a
/// qualified rule, a variable declaration or a variable call, tried in this
/// order.
pub open spec fn spec_item(s: Seq<char>, depth: nat) -> Outcome<ItemView>
    decreases depth, s.len(), 2nat,
{
    or_else(
        spec_mixin_declaration(s, depth),
        or_else(
            spec_declaration(s),
            or_else(
                spec_mixin_call(s),
                or_else(
                    spec_qualified_rule(s, depth),
                    or_else(
                        spec_variable_declaration(s),
                        or_else(spec_variable_call(s), Err(no_match(Rule::Item, strip_junk(s)))),
                    ),
                ),
            ),
        ),
    )
}

/// A mixin declaration: the selector of a mixin, `()` and a block.
pub open spec fn spec_mixin_declaration(s: Seq<char>, depth: nat) -> Outcome<ItemView>
    decreases depth, s.len(), 1nat,
{
    match spec_mixin_simple_selector(strip_junk(s)) {
        Err(f) => Err(f),
        Ok((after_selector, selector)) => match spec_symbol(after_selector, "()"@) {
            Err(f) => Err(f),
            Ok((after_parens, _)) => match spec_block_of_items(after_parens, depth) {
                Err(f) => Err(f),
                Ok((rest, block)) => Ok((rest, ItemView::MixinDeclaration { selector, block })),
            },
        },
    }
}

/// A qualified rule: a selector group and a block.
pub open spec fn spec_qualified_rule(s: Seq<char>, depth: nat) -> Outcome<ItemView>
    decreases depth, s.len(), 1nat,
{
    match spec_selector_group(s) {
        Err(f) => Err(f),
        Ok((after_group, selector_group)) => match spec_block_of_items(after_group, depth) {
            Err(f) => Err(f),
            Ok((rest, block)) => Ok((rest, ItemView::QualifiedRule { selector_group, block })),
        },
    }
}

/// A block: `{`, a list of items and `}`. The rule is committed once the
/// opening brace has been read: a block nested too deeply, a malformed item
/// or a missing closing brace ends the parse.
pub open spec fn spec_block_of_items(s: Seq<char>, depth: nat) -> Outcome<Seq<ItemView>>
    decreases depth, 0nat, 0nat,
{
    match spec_symbol(s, "{"@) {
        Err(f) => Err(f),
        Ok((after_open, _)) => if depth == 0 {
            Err(hard(Rule::NestingDepth, strip_junk(s)))
        } else {
            match spec_items(after_open, (depth - 1) as nat, Seq::empty()) {
                Err(f) => Err(commit_failure(f)),
                Ok((after_items, items)) => match spec_symbol(after_items, "}"@) {
                    Err(f) => Err(commit_failure(f)),
                    Ok((rest, _)) => Ok((rest, items)),
                },
            }
        },
    }
}

/// Zero or more items.
pub open spec fn spec_list_of_items(s: Seq<char>, depth: nat) -> Outcome<Seq<ItemView>> {
    spec_items(s, depth, Seq::empty())
}

/// A stylesheet: a list of items.
pub open spec fn spec_stylesheet(s: Seq<char>) -> Outcome<StylesheetView> {
    match spec_list_of_items(s, MAX_NESTING_DEPTH as nat) {
        Ok((rest, items)) => Ok((rest, StylesheetView { items })),
        Err(f) => Err(f),
    }
}

/// A whole source text: a stylesheet followed by nothing but junk. Every
/// failure is committed; input that remains after the last item is a
/// failure at the place where it starts.
pub open spec fn spec_parse_stylesheet(s: Seq<char>) -> Outcome<StylesheetView> {
    match spec_stylesheet(s) {
        Err(f) => Err(commit_failure(f)),
        Ok((after_items, sheet)) => {
            let rest = strip_junk(after_items);
            if rest.len() == 0 {
                Ok((rest, sheet))
            } else {
                Err(hard(Rule::EndOfInput, rest))
            }
        },
    }
}

/// The literal tokens of the grammar are not empty.
pub proof fn lemma_token_lengths()
    ensures
        ":"@.len() == 1,
        ";"@.len() == 1,
        ","@.len() == 1,
        "{"@.len() == 1,
        "}"@.len() == 1,
        "()"@.len() == 2,
        "!important"@.len() == 10,
{
    reveal_strlit(":");
    reveal_strlit(";");
    reveal_strlit(",");
    reveal_strlit("{");
    reveal_strlit("}");
    reveal_strlit("()");
    reveal_strlit("!important");
}

/// The four kinds of item without a block consume at least one character.
pub proof fn lemma_simple_items_consume(s: Seq<char>)
    ensures
        spec_declaration(s) matches Ok((rest, _)) ==> rest.len() < s.len(),
        spec_mixin_call(s) matches Ok((rest, _)) ==> rest.len() < s.len(),
        spec_variable_declaration(s) matches Ok((rest, _)) ==> rest.len() < s.len(),
        spec_variable_call(s) matches Ok((rest, _)) ==> rest.len() < s.len(),
{
    lemma_token_lengths();
    lemma_strip_junk_shorter(s);
    lemma_run_len_bound(strip_junk(s), CharClass::Ident);
    lemma_run_len_bound(strip_junk(s).skip(1), CharClass::Ident);
    lemma_mixin_selector_consumes(s);
    if let Ok((after_name, _)) = spec_ident(strip_junk(s)) {
        lemma_symbol_consumes(after_name, ":"@);
        if let Ok((after_colon, _)) = spec_symbol(after_name, ":"@) {
            lemma_declaration_value_consumes(after_colon);
            if let Ok((after_value, _)) = spec_declaration_value(after_colon) {
                lemma_symbol_consumes(after_value, "!important"@);
                if let Ok((after_flag, _)) = spec_important(after_value) {
                    lemma_symbol_consumes(after_flag, ";"@);
                }
            }
        }
    }
    if let Ok((after_selector, _)) = spec_mixin_selector(s) {
        lemma_symbol_consumes(after_selector, "()"@);
        if let Ok((after_parens, _)) = spec_symbol(after_selector, "()"@) {
            lemma_symbol_consumes(after_parens, ";"@);
        }
    }
    if let Ok((after_name, _)) = spec_at_keyword(s) {
        lemma_symbol_consumes(after_name, ":"@);
        lemma_symbol_consumes(after_name, "()"@);
        if let Ok((after_colon, _)) = spec_symbol(after_name, ":"@) {
            lemma_declaration_value_consumes(after_colon);
            if let Ok((after_value, _)) = spec_declaration_value(after_colon) {
                lemma_symbol_consumes(after_value, ";"@);
            }
        }
        if let Ok((after_parens, _)) = spec_symbol(after_name, "()"@) {
            lemma_symbol_consumes(after_parens, ";"@);
        }
    }
}

/// The right-hand side of a declaration consumes at least one character.
pub proof fn lemma_declaration_value_consumes(s: Seq<char>)
    ensures
        spec_declaration_value(s) matches Ok((rest, _)) ==> rest.len() < s.len(),
{
    crate::parser::value::lemma_value_members_consume(s, Seq::empty());
}

/// A list of items consumes nothing or more.
pub proof fn lemma_items_consume(s: Seq<char>, depth: nat, items: Seq<ItemView>)
    ensures
        spec_items(s, depth, items) matches Ok((rest, _)) ==> rest.len() <= s.len(),
    decreases depth, s.len(), 3nat,
{
    if let Ok((rest, item)) = spec_item(s, depth) {
        if rest.len() < s.len() {
            lemma_items_consume(rest, depth, items.push(item));
        }
    }
}

/// A block consumes at least its two braces.
pub proof fn lemma_block_consumes(s: Seq<char>, depth: nat)
    ensures
        spec_block_of_items(s, depth) matches Ok((rest, _)) ==> rest.len() + 2 <= s.len(),
    decreases depth, 0nat, 0nat,
{
    lemma_token_lengths();
    lemma_symbol_consumes(s, "{"@);
    if let Ok((after_open, _)) = spec_symbol(s, "{"@) {
        if depth > 0 {
            lemma_items_consume(after_open, (depth - 1) as nat, Seq::empty());
            if let Ok((after_items, _)) = spec_items(after_open, (depth - 1) as nat, Seq::empty()) {
                lemma_symbol_consumes(after_items, "}"@);
            }
        }
    }
}

/// An item consumes at least one character.
pub proof fn lemma_item_consumes(s: Seq<char>, depth: nat)
    ensures
        spec_item(s, depth) matches Ok((rest, _)) ==> rest.len() < s.len(),
{
    lemma_token_lengths();
    lemma_simple_items_consume(s);
    lemma_strip_junk_shorter(s);
    lemma_run_len_bound(strip_junk(s).skip(1), CharClass::Ident);
    if let Ok((after_selector, _)) = spec_mixin_simple_selector(strip_junk(s)) {
        lemma_symbol_consumes(after_selector, "()"@);
        if let Ok((after_parens, _)) = spec_symbol(after_selector, "()"@) {
            lemma_block_consumes(after_parens, depth);
        }
    }
    lemma_selector_group_consumes(s);
    if let Ok((after_group, _)) = spec_selector_group(s) {
        lemma_block_consumes(after_group, depth);
    }
}

/// Parses a mixin declaration, with `depth` further levels of nesting
/// allowed.
pub fn mixin_declaration<'a>(input: &'a str, depth: usize) -> (r: Parsed<'a, Item<'a>>)
    ensures
        outcome(r) == spec_mixin_declaration(input@, depth as nat),
    decreases depth, input@.len(), 1nat,
{
    let (after_selector, selector) = match token(mixin_simple_selector, input) {
        Ok(m) => m,
        Err(e) => {
            return Err(e);
        },
    };
    let after_parens = match symbol("()", after_selector) {
        Ok((rest, _)) => rest,
        Err(e) => {
            return Err(e);
        },
    };
    match block_of_items(after_parens, depth) {
        Ok((rest, block)) => {
            proof {
                lemma_mixin_declaration_view(selector, block);
            }
            Ok((rest, Item::MixinDeclaration { selector, block }))
        },
        Err(e) => Err(e),
    }
}

/// Parses a qualified rule, with `depth` further levels of nesting allowed.
pub fn qualified_rule<'a>(input: &'a str, depth: usize) -> (r: Parsed<'a, Item<'a>>)
    ensures
        outcome(r) == spec_qualified_rule(input@, depth as nat),
    decreases depth, input@.len(), 1nat,
{
    let (after_group, selector_group) = match selector_group(input) {
        Ok(m) => m,
        Err(e) => {
            return Err(e);
        },
    };
    match block_of_items(after_group, depth) {
        Ok((rest, block)) => {
            proof {
                lemma_qualified_rule_view(selector_group, block);
            }
            Ok((rest, Item::QualifiedRule { selector_group, block }))
        },
        Err(e) => Err(e),
    }
}

/// Parses one item, with `depth` further levels of nesting allowed.
pub fn item<'a>(input: &'a str, depth: usize) -> (r: Parsed<'a, Item<'a>>)
    ensures
        outcome(r) == spec_item(input@, depth as nat),
    decreases depth, input@.len(), 2nat,
{
    match mixin_declaration(input, depth) {
        Ok(m) => {
            return Ok(m);
        },
        Err(e) => {
            if e.committed {
                return Err(e);
            }
        },
    }
    match declaration(input) {
        Ok(m) => {
            return Ok(m);
        },
        Err(e) => {
            if e.committed {
                return Err(e);
            }
        },
    }
    match mixin_call(input) {
        Ok(m) => {
            return Ok(m);
        },
        Err(e) => {
            if e.committed {
                return Err(e);
            }
        },
    }
    match qualified_rule(input, depth) {
        Ok(m) => {
            return Ok(m);
        },
        Err(e) => {
            if e.committed {
                return Err(e);
            }
        },
    }
    match variable_declaration(input) {
        Ok(m) => {
            return Ok(m);
        },
        Err(e) => {
            if e.committed {
                return Err(e);
            }
        },
    }
    match variable_call(input) {
        Ok(m) => Ok(m),
        Err(e) => {
            if e.committed {
                Err(e)
            } else {
                Err(ParseError::no_match(Rule::Item, junk(input)))
            }
        },
    }
}

/// Parses zero or more items, with `depth` further levels of nesting
/// allowed.
pub fn list_of_items<'a>(input: &'a str, depth: usize) -> (r: Parsed<'a, Vec<Item<'a>>>)
    ensures
        outcome(r) == spec_list_of_items(input@, depth as nat),
    decreases depth, input@.len(), 3nat,
{
    let mut items: Vec<Item<'a>> = Vec::new();
    let mut cur = input;
    proof {
        lemma_deep_view_empty(items);
    }
    loop
        invariant
            spec_items(cur@, depth as nat, items.deep_view()) == spec_list_of_items(
                input@,
                depth as nat,
            ),
            cur@.len() <= input@.len(),
        decreases cur@.len(),
    {
        match item(cur, depth) {
            Ok((rest, next)) => {
                let ghost shorter = items;
                let ghost pushed = next;
                items.push(next);
                proof {
                    lemma_item_consumes(cur@, depth as nat);
                    lemma_deep_view_push(shorter, items, pushed);
                }
                cur = rest;
            },
            Err(e) => {
                if e.committed {
                    return Err(e);
                }
                return Ok((cur, items));
            },
        }
    }
}

/// Parses a block of items in braces, with `depth` further levels of
/// nesting allowed.
pub fn block_of_items<'a>(input: &'a str, depth: usize) -> (r: Parsed<'a, Vec<Item<'a>>>)
    ensures
        outcome(r) == spec_block_of_items(input@, depth as nat),
        spec_symbol(input@, "{"@) is Ok ==> (r matches Err(e) ==> e.committed),
    decreases depth, 0nat, 0nat,
{
    let after_open = match symbol("{", input) {
        Ok((rest, _)) => rest,
        Err(e) => {
            return Err(e);
        },
    };
    if depth == 0 {
        return Err(ParseError::hard(Rule::NestingDepth, junk(input)));
    }
    let (after_items, items) = match list_of_items(after_open, depth - 1) {
        Ok(m) => m,
        Err(e) => {
            return Err(e.commit());
        },
    };
    match symbol("}", after_items) {
        Ok((rest, _)) => Ok((rest, items)),
        Err(e) => Err(e.commit()),
    }
}

/// Parses a stylesheet: a list of items.
pub fn stylesheet<'a>(input: &'a str) -> (r: Parsed<'a, Stylesheet<'a>>)
    ensures
        outcome(r) == spec_stylesheet(input@),
{
    match list_of_items(input, MAX_NESTING_DEPTH) {
        Ok((rest, items)) => Ok((rest, Stylesheet { items })),
        Err(e) => Err(e),
    }
}

/// Parses a whole source text. Succeeds only if the entire input is
/// consumed.
pub fn parse_stylesheet<'a>(input: &'a str) -> (r: Parsed<'a, Stylesheet<'a>>)
    ensures
        outcome(r) == spec_parse_stylesheet(input@),
        r matches Ok((rest, sheet)) ==> rest@.len() == 0 && sheet.deep_view().well_formed(),
        r matches Err(e) ==> e.committed && is_suffix(e.rest@, input@),
{
    proof {
        lemma_parse_stylesheet_span(input@);
        lemma_parse_stylesheet_shape(input@);
    }
    match stylesheet(input) {
        Err(e) => Err(e.commit()),
        Ok((after_items, sheet)) => {
            let rest = junk(after_items);
            if rest.unicode_len() == 0 {
                Ok((rest, sheet))
            } else {
                Err(ParseError::hard(Rule::EndOfInput, rest))
            }
        },
    }
}

} // verus!
