//! Character-level primitives on string slices.

use vstd::prelude::*;
use vstd::string::StringSliceAdditionalSpecFns;
use vstd::utf8::encode_utf8;

verus! {

/// Whether `s` begins with `prefix`.
pub open spec fn starts_with(s: Seq<char>, prefix: Seq<char>) -> bool {
    prefix.len() <= s.len() && s.take(prefix.len() as int) == prefix
}

/// Whether the first character of `s` is `c`.
pub open spec fn starts_with_char(s: Seq<char>, c: char) -> bool {
    s.len() > 0 && s[0] == c
}

/// Whether `rest` is what remains of `s` after some of its first characters.
#[verifier::opaque]
pub open spec fn is_suffix(rest: Seq<char>, s: Seq<char>) -> bool {
    rest.len() <= s.len() && rest == s.skip(s.len() - rest.len())
}

/// The failure of a parser of the `nom` crate: whether more input is needed,
/// or the parser failed, recoverably or not, and with what error.
#[verifier::external_type_specification]
#[verifier::external_body]
#[verifier::reject_recursive_types(E)]
pub struct ExNomErr<E>(nom::Err<E>);

/// The default error of the `nom` crate: the input at the place of the
/// error, and a code.
#[verifier::external_type_specification]
#[verifier::external_body]
#[verifier::reject_recursive_types(I)]
pub struct ExNomError<I>(nom::error::Error<I>);

/// `nom::character::complete::anychar` on a string slice. That function
/// fails exactly on the empty input; otherwise it returns the slice that
/// follows the first character, and that character.
#[verifier::external_body]
fn nom_anychar<'a>(input: &'a str) -> (r: Result<
    (&'a str, char),
    nom::Err<nom::error::Error<&'a str>>,
>)
    ensures
        match r {
            Ok((rest, c)) => input@.len() > 0 && c == input@[0] && rest@ == input@.skip(1),
            Err(_) => input@.len() == 0,
        },
{
    nom::character::complete::anychar(input)
}

/// `nom::character::complete::char` on a string slice. That function
/// succeeds exactly when the input is not empty and its first character is
/// `c`, and then returns the slice that follows that character, and `c`.
#[verifier::external_body]
fn nom_char<'a>(c: char, input: &'a str) -> (r: Result<
    (&'a str, char),
    nom::Err<nom::error::Error<&'a str>>,
>)
    ensures
        match r {
            Ok((rest, found)) => starts_with_char(input@, c) && found == c && rest@
                == input@.skip(1),
            Err(_) => !starts_with_char(input@, c),
        },
{
    nom::character::complete::char(c)(input)
}

/// `nom::bytes::complete::tag` on string slices. That function succeeds
/// exactly when the input begins with the literal, and then returns the
/// slice that follows the literal, and the slice that matched it.
#[verifier::external_body]
fn nom_tag<'a>(lit: &str, input: &'a str) -> (r: Result<
    (&'a str, &'a str),
    nom::Err<nom::error::Error<&'a str>>,
>)
    ensures
        match r {
            Ok((rest, matched)) => starts_with(input@, lit@) && matched@ == lit@ && rest@
                == input@.skip(lit@.len() as int),
            Err(_) => !starts_with(input@, lit@),
        },
{
    nom::bytes::complete::tag(lit)(input)
}

/// `nom::bytes::complete::take` on a string slice. There that function
/// counts characters: it fails exactly when the input holds fewer than
/// `count` of them, and otherwise returns the slice that follows the first
/// `count` characters, and the slice made of those characters.
#[verifier::external_body]
fn nom_take<'a>(count: usize, input: &'a str) -> (r: Result<
    (&'a str, &'a str),
    nom::Err<nom::error::Error<&'a str>>,
>)
    ensures
        match r {
            Ok((rest, taken)) => count <= input@.len() && taken@ == input@.take(count as int)
                && rest@ == input@.skip(count as int),
            Err(_) => count > input@.len(),
        },
{
    nom::bytes::complete::take(count)(input)
}

/// Splits off the first character of `input`; `None` if there is none.
pub fn any_char<'a>(input: &'a str) -> (r: Option<(&'a str, char)>)
    ensures
        match r {
            Some((rest, c)) => input@.len() > 0 && c == input@[0] && rest@ == input@.skip(1),
            None => input@.len() == 0,
        },
{
    match nom_anychar(input) {
        Ok(split) => Some(split),
        Err(_) => None,
    }
}

/// Matches the character `c` at the start of `input` and returns what
/// follows it; `None` if the input begins otherwise.
pub fn one_char<'a>(c: char, input: &'a str) -> (r: Option<&'a str>)
    ensures
        match r {
            Some(rest) => starts_with_char(input@, c) && rest@ == input@.skip(1),
            None => !starts_with_char(input@, c),
        },
{
    match nom_char(c, input) {
        Ok((rest, _)) => Some(rest),
        Err(_) => None,
    }
}

/// Matches the literal `lit` at the start of `input` and returns what
/// follows it; `None` if the input begins otherwise.
pub fn tag<'a>(lit: &str, input: &'a str) -> (r: Option<&'a str>)
    ensures
        match r {
            Some(rest) => starts_with(input@, lit@) && rest@ == input@.skip(lit@.len() as int),
            None => !starts_with(input@, lit@),
        },
{
    match nom_tag(lit, input) {
        Ok((rest, _)) => Some(rest),
        Err(_) => None,
    }
}

/// Splits `input` after its first `count` characters; `None` if it holds
/// fewer. Returns what follows them, and the slice made of them.
pub fn take<'a>(count: usize, input: &'a str) -> (r: Option<(&'a str, &'a str)>)
    ensures
        match r {
            Some((rest, taken)) => count <= input@.len() && taken@ == input@.take(count as int)
                && rest@ == input@.skip(count as int),
            None => count > input@.len(),
        },
{
    match nom_take(count, input) {
        Ok(split) => Some(split),
        Err(_) => None,
    }
}

/// An encoding holds at least one byte for each character.
pub proof fn lemma_encoding_not_shorter(chars: Seq<char>)
    ensures
        chars.len() <= encode_utf8(chars).len(),
    decreases chars.len(),
{
    if chars.len() > 0 {
        lemma_encoding_not_shorter(chars.drop_first());
    }
}

/// Establishes that the characters of a string slice can be counted in a
/// `usize`.
pub fn char_count_fits(input: &str)
    ensures
        input@.len() <= usize::MAX,
{
    let bytes = input.as_bytes();
    let _n: usize = bytes.len();
    proof {
        lemma_encoding_not_shorter(input@);
    }
}

} // verus!
