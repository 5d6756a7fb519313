//! Selectors that name a mixin.

use vstd::prelude::*;
use crate::ast::{MixinSelector, MixinSelectorView};
use crate::lexer::{
    ident, junk, lemma_run_len_bound, lemma_strip_junk_shorter, spec_ident, strip_junk, CharClass,
};
use crate::outcome::{no_match, outcome, Outcome, ParseError, Parsed, Rule};
use crate::text::{one_char, starts_with_char};

verus! {

/// The selector of a mixin definition at the very start of `s`: `#` or `.`
/// and an identifier.
pub open spec fn spec_mixin_simple_selector(s: Seq<char>) -> Outcome<MixinSelectorView> {
    if starts_with_char(s, '#') {
        match spec_ident(s.skip(1)) {
            Ok((rest, name)) => Ok((rest, MixinSelectorView::Id(name))),
            Err(_) => Err(no_match(Rule::Selector, s)),
        }
    } else if starts_with_char(s, '.') {
        match spec_ident(s.skip(1)) {
            Ok((rest, name)) => Ok((rest, MixinSelectorView::Class(name))),
            Err(_) => Err(no_match(Rule::Selector, s)),
        }
    } else {
        Err(no_match(Rule::Selector, s))
    }
}

/// Recognizes the selector of a mixin definition: a single id or class.
pub fn mixin_simple_selector<'a>(input: &'a str) -> (r: Parsed<'a, MixinSelector<'a>>)
    ensures
        outcome(r) == spec_mixin_simple_selector(input@),
{
    if let Some(after) = one_char('#', input) {
        match ident(after) {
            Ok((rest, name)) => Ok((rest, MixinSelector::Id(name))),
            Err(_) => Err(ParseError::no_match(Rule::Selector, input)),
        }
    } else if let Some(after) = one_char('.', input) {
        match ident(after) {
            Ok((rest, name)) => Ok((rest, MixinSelector::Class(name))),
            Err(_) => Err(ParseError::no_match(Rule::Selector, input)),
        }
    } else {
        Err(ParseError::no_match(Rule::Selector, input))
    }
}

/// The selector of a mixin call: the selector of a mixin definition after
/// optional junk.
pub open spec fn spec_mixin_selector(s: Seq<char>) -> Outcome<MixinSelectorView> {
    spec_mixin_simple_selector(strip_junk(s))
}

/// Recognizes the selector of a mixin call.
pub fn mixin_selector<'a>(input: &'a str) -> (r: Parsed<'a, MixinSelector<'a>>)
    ensures
        outcome(r) == spec_mixin_selector(input@),
{
    mixin_simple_selector(junk(input))
}

/// A mixin selector consumes at least two characters.
pub proof fn lemma_mixin_selector_consumes(s: Seq<char>)
    ensures
        spec_mixin_selector(s) matches Ok((rest, _)) ==> rest.len() + 2 <= s.len(),
{
    lemma_strip_junk_shorter(s);
    lemma_run_len_bound(strip_junk(s).skip(1), CharClass::Ident);
}

} // verus!
