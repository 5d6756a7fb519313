//! What a grammar rule returns: a value with the remaining input, or a
//! failure that is either recoverable or committed.

use vstd::prelude::*;
use vstd::string::StrSliceExecFns;
use crate::text::is_suffix;

verus! {

/// The category of construct that a failing rule was looking for.
#[derive(Debug, Clone, Copy, PartialEq, Eq, Structural)]
pub enum Rule {
    /// A literal token such as `:` or `;`.
    Symbol,
    /// An identifier.
    Ident,
    /// An identifier prefixed by `@`.
    AtKeyword,
    /// The opening quote of a string literal.
    StringStart,
    /// The closing quote of a string literal.
    StringEnd,
    /// An `@{name}` or `${name}` reference inside a string literal.
    Interpolation,
    /// A value on the right-hand side of a declaration.
    Value,
    /// An id or class selector.
    Selector,
    /// A block nested more deeply than the parser accepts.
    NestingDepth,
    /// Any item of a stylesheet.
    Item,
    /// The end of the input.
    EndOfInput,
}

/// A failed attempt to apply a rule.
#[derive(Debug, Clone, Copy, PartialEq, Eq)]
pub struct ParseError<'a> {
    /// What was expected.
    pub rule: Rule,
    /// The input that remained where it was expected.
    pub rest: &'a str,
    /// Whether the rule had passed its distinguishing prefix. A committed
    /// failure ends the whole parse; an uncommitted one lets the caller try
    /// another alternative.
    pub committed: bool,
}

/// Model of [`ParseError`].
pub struct Failure {
    pub rule: Rule,
    pub rest: Seq<char>,
    pub committed: bool,
}

/// The result of applying a rule to a string slice.
pub type Parsed<'a, T> = Result<(&'a str, T), ParseError<'a>>;

/// Model of [`Parsed`]: the remaining characters and the model of the value,
/// or the failure.
pub type Outcome<V> = Result<(Seq<char>, V), Failure>;

impl<'a> View for ParseError<'a> {
    type V = Failure;

    open spec fn view(&self) -> Failure {
        Failure { rule: self.rule, rest: self.rest@, committed: self.committed }
    }
}

impl<'a> ParseError<'a> {
    /// A recoverable failure of `rule` at `rest`.
    pub fn no_match(rule: Rule, rest: &'a str) -> (e: Self)
        ensures
            e@ == no_match(rule, rest@),
    {
        ParseError { rule, rest, committed: false }
    }

    /// A committed failure of `rule` at `rest`.
    pub fn hard(rule: Rule, rest: &'a str) -> (e: Self)
        ensures
            e@ == hard(rule, rest@),
    {
        ParseError { rule, rest, committed: true }
    }

    /// The number of characters of `source` that precede the place of the
    /// failure, where `source` is the text that was parsed; 0 if `source`
    /// is shorter than what remained.
    pub fn offset(&self, source: &str) -> (n: usize)
        ensures
            n == if self.rest@.len() <= source@.len() {
                source@.len() - self.rest@.len()
            } else {
                0
            },
    {
        let total = source.unicode_len();
        let left = self.rest.unicode_len();
        if left <= total {
            total - left
        } else {
            0
        }
    }

    /// The same failure, committed.
    pub fn commit(self) -> (e: Self)
        ensures
            e@ == commit_failure(self@),
    {
        ParseError { rule: self.rule, rest: self.rest, committed: true }
    }
}

/// A recoverable failure.
pub open spec fn no_match(rule: Rule, rest: Seq<char>) -> Failure {
    Failure { rule, rest, committed: false }
}

/// A committed failure.
pub open spec fn hard(rule: Rule, rest: Seq<char>) -> Failure {
    Failure { rule, rest, committed: true }
}

/// The failure `f` made committed.
pub open spec fn commit_failure(f: Failure) -> Failure {
    Failure { rule: f.rule, rest: f.rest, committed: true }
}

/// The outcome `o` with its failure, if any, made committed.
pub open spec fn commit<V>(o: Outcome<V>) -> Outcome<V> {
    match o {
        Ok(m) => Ok(m),
        Err(f) => Err(commit_failure(f)),
    }
}

/// Whether `o` is a failure after which another alternative may be tried.
pub open spec fn recoverable<V>(o: Outcome<V>) -> bool {
    o matches Err(f) && !f.committed
}

/// Ordered choice: `first` unless it failed without commitment, and then
/// `second`.
pub open spec fn or_else<V>(first: Outcome<V>, second: Outcome<V>) -> Outcome<V> {
    if recoverable(first) {
        second
    } else {
        first
    }
}

/// The model of an executable result.
pub open spec fn outcome<'a, T: DeepView>(r: Parsed<'a, T>) -> Outcome<T::V> {
    match r {
        Ok((rest, value)) => Ok((rest@, value.deep_view())),
        Err(e) => Err(e@),
    }
}

/// Whether what `o` leaves, or the place where it fails, is a suffix of `s`.
pub open spec fn within<V>(o: Outcome<V>, s: Seq<char>) -> bool {
    match o {
        Ok((rest, _)) => is_suffix(rest, s),
        Err(f) => is_suffix(f.rest, s),
    }
}

/// Makes the failure of `r`, if any, committed.
pub fn cut<'a, T: DeepView>(r: Parsed<'a, T>) -> (c: Parsed<'a, T>)
    ensures
        outcome(c) == commit(outcome(r)),
        r is Ok ==> c == r,
{
    match r {
        Ok(m) => Ok(m),
        Err(e) => Err(e.commit()),
    }
}

} // verus!
