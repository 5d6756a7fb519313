//! Selectors of qualified rules.

use vstd::prelude::*;
use crate::ast::{lemma_deep_view_empty, lemma_deep_view_push, Selector, SelectorView};
use crate::lexer::{
    ident, junk, lemma_run_len_bound, lemma_strip_junk_shorter, spec_ident, spec_symbol,
    strip_junk, symbol, CharClass,
};
use crate::outcome::{commit_failure, no_match, or_else, outcome, Outcome, ParseError, Parsed, Rule};
use crate::text::{one_char, starts_with_char};

verus! {

/// An id selector at the very start of `s`: `#` and an identifier.
pub open spec fn spec_id_selector(s: Seq<char>) -> Outcome<SelectorView> {
    if starts_with_char(s, '#') {
        match spec_ident(s.skip(1)) {
            Ok((rest, name)) => Ok((rest, SelectorView::Id(name))),
            Err(_) => Err(no_match(Rule::Selector, s)),
        }
    } else {
        Err(no_match(Rule::Selector, s))
    }
}

/// Recognizes `#name`.
pub fn id_selector<'a>(input: &'a str) -> (r: Parsed<'a, Selector<'a>>)
    ensures
        outcome(r) == spec_id_selector(input@),
{
    match one_char('#', input) {
        None => Err(ParseError::no_match(Rule::Selector, input)),
        Some(after) => match ident(after) {
            Ok((rest, name)) => Ok((rest, Selector::Id(name))),
            Err(_) => Err(ParseError::no_match(Rule::Selector, input)),
        },
    }
}

/// A class selector at the very start of `s`: `.` and an identifier.
pub open spec fn spec_class_selector(s: Seq<char>) -> Outcome<SelectorView> {
    if starts_with_char(s, '.') {
        match spec_ident(s.skip(1)) {
            Ok((rest, name)) => Ok((rest, SelectorView::Class(name))),
            Err(_) => Err(no_match(Rule::Selector, s)),
        }
    } else {
        Err(no_match(Rule::Selector, s))
    }
}

/// Recognizes `.name`.
pub fn class_selector<'a>(input: &'a str) -> (r: Parsed<'a, Selector<'a>>)
    ensures
        outcome(r) == spec_class_selector(input@),
{
    match one_char('.', input) {
        None => Err(ParseError::no_match(Rule::Selector, input)),
        Some(after) => match ident(after) {
            Ok((rest, name)) => Ok((rest, Selector::Class(name))),
            Err(_) => Err(ParseError::no_match(Rule::Selector, input)),
        },
    }
}

/// One selector, after optional junk: an id selector or a class selector.
pub open spec fn spec_selector(s: Seq<char>) -> Outcome<SelectorView> {
    let start = strip_junk(s);
    or_else(spec_id_selector(start), spec_class_selector(start))
}

/// Recognizes one selector after optional whitespace and comments.
pub fn selector<'a>(input: &'a str) -> (r: Parsed<'a, Selector<'a>>)
    ensures
        outcome(r) == spec_selector(input@),
{
    let start = junk(input);
    match id_selector(start) {
        Ok(m) => Ok(m),
        Err(_) => class_selector(start),
    }
}

/// A selector consumes at least two characters.
pub proof fn lemma_selector_consumes(s: Seq<char>)
    ensures
        spec_selector(s) matches Ok((rest, _)) ==> rest.len() + 2 <= s.len(),
{
    lemma_strip_junk_shorter(s);
    lemma_run_len_bound(strip_junk(s).skip(1), CharClass::Ident);
}

/// A literal token consumes its own length at least.
pub proof fn lemma_symbol_consumes(s: Seq<char>, lit: Seq<char>)
    ensures
        spec_symbol(s, lit) matches Ok((rest, _)) ==> rest.len() + lit.len() <= s.len(),
{
    lemma_strip_junk_shorter(s);
}

/// The selectors that follow the first one of a group, added to
/// `selectors`: each is preceded by a comma. Once a comma has been read, a
/// selector must follow.
pub open spec fn spec_selectors(s: Seq<char>, selectors: Seq<SelectorView>) -> Outcome<
    Seq<SelectorView>,
>
    decreases s.len(),
{
    match spec_symbol(s, ","@) {
        Err(_) => Ok((s, selectors)),
        Ok((after_comma, _)) => match spec_selector(after_comma) {
            Err(f) => Err(commit_failure(f)),
            Ok((rest, selector)) => {
                proof {
                    lemma_symbol_consumes(s, ","@);
                    lemma_selector_consumes(after_comma);
                }
                spec_selectors(rest, selectors.push(selector))
            },
        },
    }
}

/// One or more selectors separated by commas.
pub open spec fn spec_selector_group(s: Seq<char>) -> Outcome<Seq<SelectorView>> {
    match spec_selector(s) {
        Err(f) => Err(f),
        Ok((rest, first)) => spec_selectors(rest, seq![first]),
    }
}

/// Parses one or more selectors separated by commas.
pub fn selector_group<'a>(input: &'a str) -> (r: Parsed<'a, Vec<Selector<'a>>>)
    ensures
        outcome(r) == spec_selector_group(input@),
        r matches Ok((_, group)) ==> group@.len() >= 1,
{
    let (after_first, first) = match selector(input) {
        Ok(m) => m,
        Err(e) => {
            return Err(e);
        },
    };
    let mut selectors: Vec<Selector<'a>> = Vec::new();
    proof {
        lemma_deep_view_empty(selectors);
    }
    let ghost none = selectors;
    let ghost first_model = first;
    selectors.push(first);
    proof {
        lemma_deep_view_push(none, selectors, first_model);
        assert(selectors.deep_view() =~= seq![first_model.deep_view()]);
    }
    let mut cur = after_first;
    loop
        invariant
            spec_selectors(cur@, selectors.deep_view()) == spec_selector_group(input@),
            selectors@.len() >= 1,
        decreases cur@.len(),
    {
        match symbol(",", cur) {
            Err(_) => {
                return Ok((cur, selectors));
            },
            Ok((after_comma, _)) => match selector(after_comma) {
                Err(e) => {
                    return Err(e.commit());
                },
                Ok((rest, next)) => {
                    let ghost shorter = selectors;
                    let ghost pushed = next;
                    selectors.push(next);
                    proof {
                        lemma_symbol_consumes(cur@, ","@);
                        lemma_selector_consumes(after_comma@);
                        lemma_deep_view_push(shorter, selectors, pushed);
                    }
                    cur = rest;
                },
            },
        }
    }
}

/// The selectors after the first consume nothing or more.
pub proof fn lemma_selectors_consume(s: Seq<char>, selectors: Seq<SelectorView>)
    ensures
        spec_selectors(s, selectors) matches Ok((rest, all)) ==> rest.len() <= s.len()
            && all.len() >= selectors.len(),
    decreases s.len(),
{
    if let Ok((after_comma, _)) = spec_symbol(s, ","@) {
        lemma_symbol_consumes(s, ","@);
        lemma_selector_consumes(after_comma);
        if let Ok((rest, selector)) = spec_selector(after_comma) {
            lemma_selectors_consume(rest, selectors.push(selector));
        }
    }
}

/// A selector group consumes at least two characters and is never empty.
pub proof fn lemma_selector_group_consumes(s: Seq<char>)
    ensures
        spec_selector_group(s) matches Ok((rest, group)) ==> rest.len() + 2 <= s.len()
            && group.len() >= 1,
{
    lemma_selector_consumes(s);
    if let Ok((rest, first)) = spec_selector(s) {
        lemma_selectors_consume(rest, seq![first]);
    }
}

} // verus!
