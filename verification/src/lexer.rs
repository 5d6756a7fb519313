//! Lexical rules: character classes, whitespace and comments, literal
//! tokens, identifiers and at-keywords.

use std::borrow::Cow;
use vstd::prelude::*;
use crate::outcome::{no_match, outcome, Outcome, ParseError, Parsed, Rule};
use crate::text::{any_char, char_count_fits, one_char, starts_with, starts_with_char, tag, take};

verus! {

/// A set of characters that a run may be made of.
#[derive(Debug, Clone, Copy, PartialEq, Eq, Structural)]
pub enum CharClass {
    /// ASCII letters, ASCII digits and the hyphen.
    Ident,
    /// ASCII digits.
    Digit,
    /// ASCII digits and the letters `a` to `f` in either case.
    HexDigit,
    /// ASCII letters.
    Letter,
}

pub open spec fn is_letter(c: char) -> bool {
    ('a' <= c && c <= 'z') || ('A' <= c && c <= 'Z')
}

pub open spec fn is_digit(c: char) -> bool {
    '0' <= c && c <= '9'
}

pub open spec fn is_hex_digit(c: char) -> bool {
    is_digit(c) || ('a' <= c && c <= 'f') || ('A' <= c && c <= 'F')
}

pub open spec fn is_ident_char(c: char) -> bool {
    is_letter(c) || is_digit(c) || c == '-'
}

/// Space, tab, line feed, carriage return and form feed.
pub open spec fn is_space(c: char) -> bool {
    c == ' ' || c == '\t' || c == '\n' || c == '\r' || c == '\x0c'
}

impl CharClass {
    /// Whether `c` belongs to the class.
    pub open spec fn has(self, c: char) -> bool {
        match self {
            CharClass::Ident => is_ident_char(c),
            CharClass::Digit => is_digit(c),
            CharClass::HexDigit => is_hex_digit(c),
            CharClass::Letter => is_letter(c),
        }
    }

    /// Whether `c` belongs to the class.
    pub fn contains(self, c: char) -> (b: bool)
        ensures
            b == self.has(c),
    {
        let letter = ('a' <= c && c <= 'z') || ('A' <= c && c <= 'Z');
        let digit = '0' <= c && c <= '9';
        match self {
            CharClass::Ident => letter || digit || c == '-',
            CharClass::Digit => digit,
            CharClass::HexDigit => digit || ('a' <= c && c <= 'f') || ('A' <= c && c <= 'F'),
            CharClass::Letter => letter,
        }
    }
}

/// The number of leading characters of `s` that belong to `class`.
pub open spec fn run_len(s: Seq<char>, class: CharClass) -> nat
    decreases s.len(),
{
    if s.len() > 0 && class.has(s[0]) {
        1 + run_len(s.skip(1), class)
    } else {
        0
    }
}

/// A run is a prefix.
pub proof fn lemma_run_len_bound(s: Seq<char>, class: CharClass)
    ensures
        run_len(s, class) <= s.len(),
    decreases s.len(),
{
    if s.len() > 0 && class.has(s[0]) {
        lemma_run_len_bound(s.skip(1), class);
    }
}

/// A run is made of characters of the class, and ends at the end of the
/// input or before a character that does not belong to the class.
pub proof fn lemma_run_is_maximal(s: Seq<char>, class: CharClass)
    ensures
        run_len(s, class) <= s.len(),
        forall|i: int| 0 <= i < run_len(s, class) ==> class.has(#[trigger] s[i]),
        run_len(s, class) < s.len() ==> !class.has(s[run_len(s, class) as int]),
    decreases s.len(),
{
    if s.len() > 0 && class.has(s[0]) {
        lemma_run_is_maximal(s.skip(1), class);
        assert forall|i: int| 0 <= i < run_len(s, class) implies class.has(#[trigger] s[i]) by {
            if i > 0 {
                assert(s[i] == s.skip(1)[i - 1]);
            }
        }
    }
}

/// Counts the leading characters of `input` that belong to `class`.
pub fn scan_len(class: CharClass, input: &str) -> (n: usize)
    ensures
        n == run_len(input@, class),
        n <= input@.len(),
{
    char_count_fits(input);
    let mut cur = input;
    let mut n: usize = 0;
    loop
        invariant
            n <= input@.len() <= usize::MAX,
            cur@ == input@.skip(n as int),
            run_len(input@, class) == n + run_len(cur@, class),
        ensures
            n <= input@.len(),
            n == run_len(input@, class),
        decreases cur@.len(),
    {
        match any_char(cur) {
            None => {
                break ;
            },
            Some((after, c)) => {
                if !class.contains(c) {
                    break ;
                }
                assert(input@.skip(n as int).skip(1) == input@.skip(n + 1));
                cur = after;
                n = n + 1;
            },
        }
    }
    n
}

/// Splits `input` after its longest prefix made of characters of `class`.
/// Returns the remaining input and the prefix.
pub fn scan<'a>(class: CharClass, input: &'a str) -> (r: (&'a str, &'a str))
    ensures
        r.0@ == input@.skip(run_len(input@, class) as int),
        r.1@ == input@.take(run_len(input@, class) as int),
        run_len(input@, class) <= input@.len(),
{
    let n = scan_len(class, input);
    take(n, input).unwrap()
}

/// What follows the `*/` that closes a block comment whose text starts at
/// `s`; `None` if the comment is never closed.
pub open spec fn after_block_comment(s: Seq<char>) -> Option<Seq<char>>
    decreases s.len(),
{
    if s.len() < 2 {
        None
    } else if s[0] == '*' && s[1] == '/' {
        Some(s.skip(2))
    } else {
        after_block_comment(s.skip(1))
    }
}

/// What follows a line comment whose text starts at `s`: the input after the
/// first line feed, or nothing if there is none.
pub open spec fn after_line_comment(s: Seq<char>) -> Seq<char>
    decreases s.len(),
{
    if s.len() == 0 {
        s
    } else if s[0] == '\n' {
        s.skip(1)
    } else {
        after_line_comment(s.skip(1))
    }
}

pub proof fn lemma_after_block_comment_shorter(s: Seq<char>)
    ensures
        after_block_comment(s) matches Some(t) ==> t.len() + 2 <= s.len(),
    decreases s.len(),
{
    if s.len() >= 2 && !(s[0] == '*' && s[1] == '/') {
        lemma_after_block_comment_shorter(s.skip(1));
    }
}

pub proof fn lemma_after_line_comment_shorter(s: Seq<char>)
    ensures
        after_line_comment(s).len() <= s.len(),
    decreases s.len(),
{
    if s.len() > 0 && s[0] != '\n' {
        lemma_after_line_comment_shorter(s.skip(1));
    }
}

/// The opener of a block comment.
pub open spec fn block_comment_start() -> Seq<char> {
    seq!['/', '*']
}

/// The opener of a line comment.
pub open spec fn line_comment_start() -> Seq<char> {
    seq!['/', '/']
}

/// The input without its leading whitespace and comments. A block comment
/// that is never closed is not a comment: the result then starts at its
/// opener.
pub open spec fn strip_junk(s: Seq<char>) -> Seq<char>
    decreases s.len(),
{
    if s.len() > 0 && is_space(s[0]) {
        strip_junk(s.skip(1))
    } else if starts_with(s, block_comment_start()) {
        match after_block_comment(s.skip(2)) {
            Some(t) => {
                proof {
                    lemma_after_block_comment_shorter(s.skip(2));
                }
                strip_junk(t)
            },
            None => s,
        }
    } else if starts_with(s, line_comment_start()) {
        proof {
            lemma_after_line_comment_shorter(s.skip(2));
        }
        strip_junk(after_line_comment(s.skip(2)))
    } else {
        s
    }
}

/// Stripping never lengthens the input.
pub proof fn lemma_strip_junk_shorter(s: Seq<char>)
    ensures
        strip_junk(s).len() <= s.len(),
    decreases s.len(),
{
    if s.len() > 0 && is_space(s[0]) {
        lemma_strip_junk_shorter(s.skip(1));
    } else if starts_with(s, block_comment_start()) {
        lemma_after_block_comment_shorter(s.skip(2));
        match after_block_comment(s.skip(2)) {
            Some(t) => {
                lemma_strip_junk_shorter(t);
            },
            None => {},
        }
    } else if starts_with(s, line_comment_start()) {
        lemma_after_line_comment_shorter(s.skip(2));
        lemma_strip_junk_shorter(after_line_comment(s.skip(2)));
    }
}

/// Skips a block comment whose opener has been consumed.
fn skip_block_comment<'a>(input: &'a str) -> (r: Option<&'a str>)
    ensures
        match r {
            Some(rest) => after_block_comment(input@) == Some(rest@),
            None => after_block_comment(input@) is None,
        },
{
    let mut cur = input;
    loop
        invariant
            after_block_comment(cur@) == after_block_comment(input@),
        decreases cur@.len(),
    {
        proof {
            reveal_strlit("*/");
        }
        match tag("*/", cur) {
            Some(rest) => {
                assert("*/"@ =~= seq!['*', '/']);
                assert(cur@.take(2)[0] == '*' && cur@.take(2)[1] == '/');
                return Some(rest);
            },
            None => {
                assert("*/"@ =~= seq!['*', '/']);
                assert(cur@.len() >= 2 && cur@[0] == '*' && cur@[1] == '/' ==> cur@.take(2)
                    =~= seq!['*', '/']);
                match any_char(cur) {
                    None => {
                        return None;
                    },
                    Some((after, _)) => {
                        cur = after;
                    },
                }
            },
        }
    }
}

/// Skips a line comment whose opener has been consumed.
fn skip_line_comment<'a>(input: &'a str) -> (rest: &'a str)
    ensures
        rest@ == after_line_comment(input@),
{
    let mut cur = input;
    loop
        invariant
            after_line_comment(cur@) == after_line_comment(input@),
        decreases cur@.len(),
    {
        match any_char(cur) {
            None => {
                return cur;
            },
            Some((after, c)) => {
                if c == '\n' {
                    return after;
                }
                cur = after;
            },
        }
    }
}

/// Consumes and discards any run of whitespace and comments.
pub fn junk<'a>(input: &'a str) -> (rest: &'a str)
    ensures
        rest@ == strip_junk(input@),
{
    let mut cur = input;
    loop
        invariant
            strip_junk(cur@) == strip_junk(input@),
        ensures
            cur@ == strip_junk(input@),
        decreases cur@.len(),
    {
        proof {
            reveal_strlit("/*");
            reveal_strlit("//");
            assert("/*"@ =~= block_comment_start());
            assert("//"@ =~= line_comment_start());
        }
        if let Some(after) = tag("/*", cur) {
            match skip_block_comment(after) {
                Some(rest) => {
                    proof {
                        lemma_after_block_comment_shorter(after@);
                    }
                    cur = rest;
                },
                None => {
                    break ;
                },
            }
        } else if let Some(after) = tag("//", cur) {
            proof {
                lemma_after_line_comment_shorter(after@);
            }
            cur = skip_line_comment(after);
        } else {
            match any_char(cur) {
                None => {
                    break ;
                },
                Some((after, c)) => {
                    if c == ' ' || c == '\t' || c == '\n' || c == '\r' || c == '\x0c' {
                        cur = after;
                    } else {
                        break ;
                    }
                },
            }
        }
    }
    cur
}

/// Applies `rule` to the input without its leading whitespace and
/// comments.
pub fn token<'a, T, F>(rule: F, input: &'a str) -> (r: Parsed<'a, T>) where
    F: Fn(&'a str) -> Parsed<'a, T>,

    requires
        forall|s: &'a str| call_requires(rule, (s,)),
    ensures
        exists|s: &'a str| s@ == strip_junk(input@) && call_ensures(rule, (s,), r),
{
    rule(junk(input))
}

/// The literal token `lit`, after optional junk. Fails without commitment,
/// at the place where the token was expected, if it is not there.
pub open spec fn spec_symbol(s: Seq<char>, lit: Seq<char>) -> Outcome<()> {
    let t = strip_junk(s);
    if starts_with(t, lit) {
        Ok((t.skip(lit.len() as int), ()))
    } else {
        Err(no_match(Rule::Symbol, t))
    }
}

/// Matches the literal token `lit` after optional whitespace and comments.
pub fn symbol<'a>(lit: &str, input: &'a str) -> (r: Parsed<'a, ()>)
    ensures
        outcome(r) == spec_symbol(input@, lit@),
{
    let start = junk(input);
    match tag(lit, start) {
        Some(rest) => Ok((rest, ())),
        None => Err(ParseError::no_match(Rule::Symbol, start)),
    }
}

/// Whether `name` is an identifier: letters, digits and hyphens, at least
/// one, the first not a digit.
pub open spec fn is_ident(name: Seq<char>) -> bool {
    &&& name.len() > 0
    &&& !is_digit(name[0])
    &&& forall|i: int| 0 <= i < name.len() ==> is_ident_char(#[trigger] name[i])
}

/// An identifier at the very start of `s`: the longest run of letters,
/// digits and hyphens, which must be non-empty and must not begin with a
/// digit.
pub open spec fn spec_ident(s: Seq<char>) -> Outcome<Seq<char>> {
    let n = run_len(s, CharClass::Ident) as int;
    if n > 0 && !is_digit(s[0]) {
        Ok((s.skip(n), s.take(n)))
    } else {
        Err(no_match(Rule::Ident, s))
    }
}

/// Recognizes an identifier at the very start of the input.
pub fn ident<'a>(input: &'a str) -> (r: Parsed<'a, Cow<'a, str>>)
    ensures
        outcome(r) == spec_ident(input@),
{
    match any_char(input) {
        None => Err(ParseError::no_match(Rule::Ident, input)),
        Some((_, first)) => {
            if !CharClass::Ident.contains(first) || CharClass::Digit.contains(first) {
                Err(ParseError::no_match(Rule::Ident, input))
            } else {
                let (rest, name) = scan(CharClass::Ident, input);
                Ok((rest, Cow::Borrowed(name)))
            }
        },
    }
}

/// What the rule of identifiers returns is an identifier, and it is the
/// longest one that the input begins with.
pub proof fn lemma_ident_is_longest(s: Seq<char>)
    ensures
        spec_ident(s) matches Ok((rest, name)) ==> is_ident(name) && s == name + rest && (
        rest.len() == 0 || !is_ident_char(rest[0])),
{
    lemma_run_is_maximal(s, CharClass::Ident);
    if let Ok((rest, name)) = spec_ident(s) {
        assert(s =~= name + rest);
    }
}

/// Characters of a class followed by a character that is none form a run
/// of their own length.
pub proof fn lemma_run_of_class(text: Seq<char>, class: CharClass, tail: Seq<char>)
    requires
        forall|i: int| 0 <= i < text.len() ==> class.has(#[trigger] text[i]),
        tail.len() == 0 || !class.has(tail[0]),
    ensures
        run_len(text + tail, class) == text.len(),
    decreases text.len(),
{
    let s = text + tail;
    if text.len() == 0 {
        assert(s =~= tail);
    } else {
        assert(s[0] == text[0]);
        assert(s.skip(1) =~= text.skip(1) + tail);
        assert forall|i: int| 0 <= i < text.skip(1).len() implies class.has(
            #[trigger] text.skip(1)[i],
        ) by {
            assert(text.skip(1)[i] == text[i + 1]);
        }
        lemma_run_of_class(text.skip(1), class, tail);
    }
}

/// An identifier followed by a character that cannot continue it is read as
/// that identifier.
pub proof fn lemma_ident_parses(name: Seq<char>, tail: Seq<char>)
    requires
        is_ident(name),
        tail.len() == 0 || !is_ident_char(tail[0]),
    ensures
        spec_ident(name + tail) == Ok::<_, crate::outcome::Failure>((tail, name)),
{
    lemma_run_of_class(name, CharClass::Ident, tail);
    assert((name + tail)[0] == name[0]);
    assert((name + tail).skip(name.len() as int) =~= tail);
    assert((name + tail).take(name.len() as int) =~= name);
}

/// An identifier prefixed by `@`, after optional junk. The value is the
/// identifier without the prefix.
pub open spec fn spec_at_keyword(s: Seq<char>) -> Outcome<Seq<char>> {
    let t = strip_junk(s);
    if starts_with_char(t, '@') {
        match spec_ident(t.skip(1)) {
            Ok(m) => Ok(m),
            Err(_) => Err(no_match(Rule::AtKeyword, t)),
        }
    } else {
        Err(no_match(Rule::AtKeyword, t))
    }
}

/// Recognizes an identifier prefixed by `@`, after optional whitespace and
/// comments.
pub fn at_keyword<'a>(input: &'a str) -> (r: Parsed<'a, Cow<'a, str>>)
    ensures
        outcome(r) == spec_at_keyword(input@),
{
    let start = junk(input);
    match one_char('@', start) {
        None => Err(ParseError::no_match(Rule::AtKeyword, start)),
        Some(after) => match ident(after) {
            Ok(m) => Ok(m),
            Err(_) => Err(ParseError::no_match(Rule::AtKeyword, start)),
        },
    }
}

} // verus!
