//! Laws of whitespace and comments: junk in front of a rule changes
//! nothing.

use vstd::prelude::*;
use crate::lexer::{
    after_block_comment, after_line_comment, block_comment_start, is_space,
    lemma_after_block_comment_shorter, lemma_after_line_comment_shorter, line_comment_start,
    spec_at_keyword, spec_symbol, strip_junk,
};
use crate::parser::mixin::spec_mixin_selector;
use crate::parser::selector::{spec_selector, spec_selector_group};
use crate::parser::value::{
    spec_declaration_value, spec_value_members, spec_value_sequence, spec_value_terms,
};
use crate::parser::{
    spec_block_of_items, spec_declaration, spec_item, spec_mixin_call, spec_mixin_declaration,
    spec_parse_stylesheet, spec_qualified_rule, spec_variable_call, spec_variable_declaration,
    MAX_NESTING_DEPTH,
};

use crate::outcome::Failure;

use crate::text::starts_with;

verus! {

/// Whether `s` holds a line feed.
pub open spec fn has_line_end(s: Seq<char>) -> bool
    decreases s.len(),
{
    s.len() > 0 && (s[0] == '\n' || has_line_end(s.skip(1)))
}

/// Whether `j` is made of nothing but whitespace and complete comments. A
/// block comment is complete when it is closed, a line comment when its line
/// ends within `j`.
pub open spec fn is_junk(j: Seq<char>) -> bool
    decreases j.len(),
{
    if j.len() == 0 {
        true
    } else if is_space(j[0]) {
        is_junk(j.skip(1))
    } else if starts_with(j, block_comment_start()) {
        match after_block_comment(j.skip(2)) {
            Some(t) => {
                proof {
                    lemma_after_block_comment_shorter(j.skip(2));
                }
                is_junk(t)
            },
            None => false,
        }
    } else if starts_with(j, line_comment_start()) {
        proof {
            lemma_after_line_comment_shorter(j.skip(2));
        }
        has_line_end(j.skip(2)) && is_junk(after_line_comment(j.skip(2)))
    } else {
        false
    }
}

/// A closed block comment stays closed, at the same place, whatever is
/// appended.
pub proof fn lemma_block_comment_appended(j: Seq<char>, x: Seq<char>)
    ensures
        after_block_comment(j) matches Some(t) ==> after_block_comment(j + x) == Some(t + x),
    decreases j.len(),
{
    if j.len() >= 2 {
        assert((j + x)[0] == j[0] && (j + x)[1] == j[1]);
        if j[0] == '*' && j[1] == '/' {
            assert((j + x).skip(2) =~= j.skip(2) + x);
        } else {
            lemma_block_comment_appended(j.skip(1), x);
            assert((j + x).skip(1) =~= j.skip(1) + x);
        }
    }
}

/// A line comment whose line ends stays the same, whatever is appended.
pub proof fn lemma_line_comment_appended(j: Seq<char>, x: Seq<char>)
    requires
        has_line_end(j),
    ensures
        after_line_comment(j + x) == after_line_comment(j) + x,
    decreases j.len(),
{
    assert((j + x)[0] == j[0]);
    assert((j + x).skip(1) =~= j.skip(1) + x);
    if j[0] != '\n' {
        lemma_line_comment_appended(j.skip(1), x);
    }
}

/// Junk begins with a whitespace character or a slash.
pub proof fn lemma_junk_first(j: Seq<char>)
    requires
        is_junk(j),
        j.len() > 0,
    ensures
        is_space(j[0]) || j[0] == '/',
{
    if !is_space(j[0]) {
        assert(j.take(2)[0] == j[0]);
    }
}

/// Input that begins with neither whitespace nor a slash has no leading
/// junk.
pub proof fn lemma_no_junk(s: Seq<char>)
    requires
        s.len() == 0 || !(is_space(s[0]) || s[0] == '/'),
    ensures
        strip_junk(s) == s,
{
    if s.len() >= 2 {
        assert(s.take(2)[0] == s[0]);
    }
}

/// Junk in front of any input is stripped with the junk of that input.
pub proof fn lemma_junk_is_stripped(j: Seq<char>, x: Seq<char>)
    requires
        is_junk(j),
    ensures
        strip_junk(j + x) == strip_junk(x),
    decreases j.len(),
{
    let s = j + x;
    if j.len() == 0 {
        assert(s =~= x);
    } else {
        assert(s[0] == j[0]);
        if is_space(j[0]) {
            assert(s.skip(1) =~= j.skip(1) + x);
            lemma_junk_is_stripped(j.skip(1), x);
        } else {
            assert(j.len() >= 2);
            assert(s.take(2) =~= j.take(2));
            assert(s.skip(2) =~= j.skip(2) + x);
            assert(j.take(2)[0] == j[0]);
            if starts_with(j, block_comment_start()) {
                lemma_block_comment_appended(j.skip(2), x);
                lemma_after_block_comment_shorter(j.skip(2));
                let t = after_block_comment(j.skip(2))->Some_0;
                lemma_junk_is_stripped(t, x);
            } else {
                lemma_line_comment_appended(j.skip(2), x);
                lemma_after_line_comment_shorter(j.skip(2));
                lemma_junk_is_stripped(after_line_comment(j.skip(2)), x);
            }
        }
    }
}

/// Whitespace and comments in front of a token, a selector, a value or an
/// item change neither what is parsed nor what remains nor how the rule
/// fails.
pub proof fn lemma_leading_junk_is_ignored(j: Seq<char>, s: Seq<char>, lit: Seq<char>, depth: nat)
    requires
        is_junk(j),
    ensures
        spec_symbol(j + s, lit) == spec_symbol(s, lit),
        spec_at_keyword(j + s) == spec_at_keyword(s),
        spec_selector(j + s) == spec_selector(s),
        spec_selector_group(j + s) == spec_selector_group(s),
        spec_mixin_selector(j + s) == spec_mixin_selector(s),
        spec_value_sequence(j + s) == spec_value_sequence(s),
        spec_declaration_value(j + s) == spec_declaration_value(s),
        spec_declaration(j + s) == spec_declaration(s),
        spec_mixin_call(j + s) == spec_mixin_call(s),
        spec_variable_declaration(j + s) == spec_variable_declaration(s),
        spec_variable_call(j + s) == spec_variable_call(s),
        spec_block_of_items(j + s, depth) == spec_block_of_items(s, depth),
        spec_mixin_declaration(j + s, depth) == spec_mixin_declaration(s, depth),
        spec_qualified_rule(j + s, depth) == spec_qualified_rule(s, depth),
        spec_item(j + s, depth) == spec_item(s, depth),
{
    lemma_junk_is_stripped(j, s);
    assert(spec_value_terms(j + s, Seq::empty()) == spec_value_terms(s, Seq::empty()));
    assert(spec_value_members(j + s, Seq::empty()) == spec_value_members(s, Seq::empty()));
}

/// Whitespace and comments in front of a whole source text change neither
/// the stylesheet that is parsed nor how the parse fails.
pub proof fn lemma_stylesheet_ignores_leading_junk(j: Seq<char>, s: Seq<char>)
    requires
        is_junk(j),
    ensures
        spec_parse_stylesheet(j + s) == spec_parse_stylesheet(s),
{
    let depth = MAX_NESTING_DEPTH as nat;
    lemma_leading_junk_is_ignored(j, s, Seq::empty(), depth);
    lemma_junk_is_stripped(j, s);
    crate::parser::lemma_item_consumes(s, depth);
    crate::parser::lemma_item_consumes(j + s, depth);
}

/// Input that begins with a literal begins with the first character of the
/// literal.
pub proof fn lemma_starts_with_first(s: Seq<char>, lit: Seq<char>)
    requires
        lit.len() > 0,
        starts_with(s, lit),
    ensures
        s.len() > 0,
        s[0] == lit[0],
{
    assert(s.take(lit.len() as int)[0] == s[0]);
}

/// A literal followed by any input is matched, and that input remains.
pub proof fn lemma_symbol_parses(lit: Seq<char>, rest: Seq<char>)
    requires
        lit.len() > 0,
        !(is_space(lit[0]) || lit[0] == '/'),
    ensures
        spec_symbol(lit + rest, lit) == Ok::<_, Failure>((rest, ())),
{
    let s = lit + rest;
    assert(s[0] == lit[0]);
    lemma_no_junk(s);
    assert(s.take(lit.len() as int) =~= lit);
    assert(s.skip(lit.len() as int) =~= rest);
}

} // verus!
