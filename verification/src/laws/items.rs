//! Laws of items: which kind is chosen, when a rule is committed, and what
//! a selector group and a block must hold.

use vstd::prelude::*;
use crate::ast::{ItemView, MixinSelectorView, SelectorView, ValueView};
use crate::laws::values::{is_term_text, lemma_single_value_parses};
use crate::lexer::{lemma_ident_parses, spec_at_keyword};
use crate::parser::value::spec_declaration_value;
use crate::parser::{
    spec_important, spec_qualified_rule, spec_variable_call, spec_variable_declaration,
};
use crate::laws::whitespace::{
    is_junk, lemma_junk_first, lemma_junk_is_stripped, lemma_no_junk, lemma_symbol_parses,
};
use crate::lexer::{is_ident, is_ident_char, spec_ident};
use crate::outcome::Failure;
use crate::parser::mixin::spec_mixin_simple_selector;
use crate::laws::spans::{
    lemma_items_span, lemma_junk_span, lemma_suffix_index, lemma_suffix_transitive,
    lemma_symbol_span, lemma_within_suffix,
};
use crate::laws::whitespace::lemma_starts_with_first;
use crate::lexer::{run_len, spec_symbol, strip_junk, CharClass};
use crate::outcome::recoverable;
use crate::parser::mixin::spec_mixin_selector;
use crate::parser::selector::{
    lemma_selector_group_consumes, spec_selector, spec_selector_group, spec_selectors,
};
use crate::parser::{
    lemma_block_consumes, spec_block_of_items, spec_declaration, spec_item, spec_items,
    spec_mixin_call, spec_mixin_declaration, spec_parse_stylesheet,
};
use crate::text::{starts_with, starts_with_char};

verus! {

/// A selector group that is parsed holds at least one selector.
pub proof fn lemma_selector_group_is_not_empty(s: Seq<char>)
    ensures
        spec_selector_group(s) matches Ok((_, group)) ==> group.len() >= 1,
{
    lemma_selector_group_consumes(s);
}

/// A group that begins with a comma is no selector group.
pub proof fn lemma_stray_comma_is_rejected(s: Seq<char>)
    requires
        starts_with_char(strip_junk(s), ','),
    ensures
        spec_selector_group(s) is Err,
{
}

/// A comma that no selector follows is a committed failure.
pub proof fn lemma_dangling_comma_is_committed(s: Seq<char>, selectors: Seq<SelectorView>)
    ensures
        spec_symbol(s, ","@) matches Ok((after_comma, _)) ==> (spec_selector(after_comma) is Err
            ==> (spec_selectors(s, selectors) matches Err(f) && f.committed)),
{
}

/// A block that has been opened is parsed or fails after commitment: no
/// other rule is tried in its place.
pub proof fn lemma_opened_block_is_committed(s: Seq<char>, depth: nat)
    requires
        starts_with_char(strip_junk(s), '{'),
    ensures
        !recoverable(spec_block_of_items(s, depth)),
{
    reveal_strlit("{");
    assert(strip_junk(s).take(1) =~= "{"@);
}

/// The last character that a parsed block consumes is its closing brace.
pub proof fn lemma_block_ends_with_brace(s: Seq<char>, depth: nat)
    ensures
        spec_block_of_items(s, depth) matches Ok((rest, _)) ==> rest.len() < s.len() && s[s.len()
            - rest.len() - 1] == '}',
{
    reveal_strlit("}");
    if let Ok((rest, _)) = spec_block_of_items(s, depth) {
        lemma_block_consumes(s, depth);
        let after_open = spec_symbol(s, "{"@)->Ok_0.0;
        let list = spec_items(after_open, (depth - 1) as nat, Seq::empty());
        let after_items = list->Ok_0.0;
        let closing = strip_junk(after_items);
        lemma_symbol_span(s, "{"@);
        lemma_items_span(after_open, (depth - 1) as nat, Seq::empty());
        lemma_within_suffix(list, after_open, s);
        lemma_junk_span(after_items);
        lemma_suffix_transitive(closing, after_items, s);
        lemma_starts_with_first(closing, "}"@);
        lemma_suffix_index(closing, s, 0);
        assert(rest.len() == closing.len() - 1);
    }
}

/// A block that is opened and never closed fails after commitment: where
/// the input holds no closing brace, no list of items is returned.
pub proof fn lemma_unclosed_block_fails(s: Seq<char>, depth: nat)
    requires
        starts_with_char(strip_junk(s), '{'),
        forall|i: int| 0 <= i < s.len() ==> s[i] != '}',
    ensures
        spec_block_of_items(s, depth) matches Err(f) && f.committed,
{
    lemma_opened_block_is_committed(s, depth);
    lemma_block_ends_with_brace(s, depth);
}

/// A mixin call is classified as a mixin call: where the rule of mixin
/// calls matches, the dispatcher returns what that rule returns, and so
/// never a qualified rule.
pub proof fn lemma_mixin_call_is_chosen(s: Seq<char>, depth: nat)
    ensures
        spec_mixin_call(s) is Ok ==> spec_item(s, depth) == spec_mixin_call(s),
        spec_mixin_call(s) matches Ok((_, item)) ==> item is MixinCall,
{
    reveal_strlit(";");
    reveal_strlit("{");
    if let Ok((after_selector, _)) = spec_mixin_selector(s) {
        if let Ok((after_parens, _)) = spec_symbol(after_selector, "()"@) {
            if spec_symbol(after_parens, ";"@) is Ok {
                let next = strip_junk(after_parens);
                lemma_starts_with_first(next, ";"@);
                if starts_with(next, "{"@) {
                    lemma_starts_with_first(next, "{"@);
                }
                assert(recoverable(spec_mixin_declaration(s, depth)));
                assert(run_len(strip_junk(s), CharClass::Ident) == 0);
                assert(recoverable(spec_declaration(s)));
            }
        }
    }
}

/// A mixin declaration is classified as a mixin declaration: where the rule
/// of mixin declarations matches, or fails after commitment, the dispatcher
/// returns what that rule returns.
pub proof fn lemma_mixin_declaration_is_chosen(s: Seq<char>, depth: nat)
    ensures
        !recoverable(spec_mixin_declaration(s, depth)) ==> spec_item(s, depth)
            == spec_mixin_declaration(s, depth),
        spec_mixin_declaration(s, depth) matches Ok((_, item)) ==> item is MixinDeclaration,
{
}

/// Commitment of a declaration: once a name and the colon have been read,
/// the declaration is parsed or fails after commitment, and the dispatcher
/// returns what the rule of declarations returns. No later kind of item is
/// tried in its place.
pub proof fn lemma_declaration_is_committed_after_colon(s: Seq<char>, depth: nat)
    ensures
        spec_ident(strip_junk(s)) matches Ok((after_name, _)) ==> (spec_symbol(after_name, ":"@)
            is Ok ==> !recoverable(spec_declaration(s)) && spec_item(s, depth) == spec_declaration(
            s,
        )),
{
    if let Ok((after_name, _)) = spec_ident(strip_junk(s)) {
        let start = strip_junk(s);
        assert(is_ident_char(start[0]));
        assert(recoverable(spec_mixin_declaration(s, depth)));
    }
}

/// A committed failure is not swallowed: where an item fails after
/// commitment, the list that holds it fails in the same way, whatever came
/// before.
pub proof fn lemma_committed_failure_ends_list(s: Seq<char>, depth: nat, items: Seq<ItemView>)
    ensures
        spec_item(s, depth) matches Err(f) ==> (f.committed ==> spec_items(s, depth, items) == Err::<
            (Seq<char>, Seq<ItemView>),
            Failure,
        >(f)),
{
}

/// A committed failure inside a block is the failure of the block.
pub proof fn lemma_committed_failure_ends_block(s: Seq<char>, depth: nat)
    ensures
        spec_symbol(s, "{"@) matches Ok((after_open, _)) ==> (depth > 0 ==> (spec_items(
            after_open,
            (depth - 1) as nat,
            Seq::empty(),
        ) matches Err(f) ==> spec_block_of_items(s, depth) == Err::<
            (Seq<char>, Seq<ItemView>),
            Failure,
        >(f))),
{
    if let Ok((after_open, _)) = spec_symbol(s, "{"@) {
        if depth > 0 {
            lemma_list_failure_is_committed(after_open, (depth - 1) as nat, Seq::empty());
        }
    }
}

/// A list of items fails only after commitment.
pub proof fn lemma_list_failure_is_committed(s: Seq<char>, depth: nat, items: Seq<ItemView>)
    ensures
        spec_items(s, depth, items) matches Err(f) ==> f.committed,
    decreases s.len(),
{
    if let Ok((rest, item)) = spec_item(s, depth) {
        if rest.len() < s.len() {
            lemma_list_failure_is_committed(rest, depth, items.push(item));
        }
    }
}

/// A whole source text is parsed to the end or not at all: on success
/// nothing remains, and every failure is committed.
pub proof fn lemma_parse_is_all_or_nothing(s: Seq<char>)
    ensures
        match spec_parse_stylesheet(s) {
            Ok((rest, _)) => rest.len() == 0,
            Err(f) => f.committed,
        },
{
}

/// The source text of a mixin selector: `#` or `.` and the name.
pub open spec fn mixin_selector_text(selector: MixinSelectorView) -> Seq<char> {
    match selector {
        MixinSelectorView::Id(name) => seq!['#'] + name,
        MixinSelectorView::Class(name) => seq!['.'] + name,
    }
}

/// The source text of a mixin selector followed by junk and a token that
/// begins with no character of an identifier is read as that selector and
/// that token.
pub proof fn lemma_mixin_head_parses(
    selector: MixinSelectorView,
    gap: Seq<char>,
    lit: Seq<char>,
    rest: Seq<char>,
)
    requires
        is_ident(selector.name()),
        is_junk(gap),
        lit.len() > 0,
        !crate::lexer::is_ident_char(lit[0]),
        !(crate::lexer::is_space(lit[0]) || lit[0] == '/'),
    ensures
        spec_mixin_simple_selector(mixin_selector_text(selector) + gap + lit + rest) matches Ok(
            (after_selector, parsed),
        ) && parsed == selector && spec_symbol(after_selector, lit) == Ok::<_, Failure>(
            (rest, ()),
        ),
{
    let token = lit + rest;
    let after_selector = gap + token;
    let s = mixin_selector_text(selector) + gap + lit + rest;
    assert(s.skip(1) =~= selector.name() + after_selector);
    assert(s[0] == mixin_selector_text(selector)[0]);
    assert(token[0] == lit[0]);
    if gap.len() > 0 {
        lemma_junk_first(gap);
        assert(after_selector[0] == gap[0]);
    } else {
        assert(after_selector =~= token);
    }
    lemma_ident_parses(selector.name(), after_selector);
    lemma_junk_is_stripped(gap, token);
    lemma_symbol_parses(lit, rest);
}

/// Every mixin call that can be written is parsed as a mixin call, however
/// much whitespace and however many comments stand around its tokens, and
/// what follows the semicolon remains.
pub proof fn lemma_mixin_call_parses(
    selector: MixinSelectorView,
    before_selector: Seq<char>,
    before_parens: Seq<char>,
    before_end: Seq<char>,
    rest: Seq<char>,
    depth: nat,
)
    requires
        is_ident(selector.name()),
        is_junk(before_selector),
        is_junk(before_parens),
        is_junk(before_end),
    ensures
        spec_item(
            before_selector + mixin_selector_text(selector) + before_parens + "()"@ + before_end
                + ";"@ + rest,
            depth,
        ) == Ok::<_, Failure>((rest, ItemView::MixinCall { selector })),
{
    reveal_strlit("()");
    reveal_strlit(";");
    let end = ";"@ + rest;
    let after_parens = before_end + end;
    let head = mixin_selector_text(selector) + before_parens + "()"@ + after_parens;
    let s = before_selector + mixin_selector_text(selector) + before_parens + "()"@ + before_end
        + ";"@ + rest;
    assert(s =~= before_selector + head);
    lemma_junk_is_stripped(before_selector, head);
    assert(head[0] == mixin_selector_text(selector)[0]);
    lemma_no_junk(head);
    lemma_mixin_head_parses(selector, before_parens, "()"@, after_parens);
    lemma_junk_is_stripped(before_end, end);
    lemma_symbol_parses(";"@, rest);
    assert(spec_mixin_call(s) == Ok::<_, Failure>((rest, ItemView::MixinCall { selector })));
    lemma_mixin_call_is_chosen(s, depth);
}

/// Every mixin declaration that can be written is parsed as a mixin
/// declaration: a mixin selector and `()` in front of a block give the
/// declaration of that mixin with the items of that block, and fail where
/// the block fails after commitment.
pub proof fn lemma_mixin_declaration_parses(
    selector: MixinSelectorView,
    before_selector: Seq<char>,
    before_parens: Seq<char>,
    block_text: Seq<char>,
    depth: nat,
)
    requires
        is_ident(selector.name()),
        is_junk(before_selector),
        is_junk(before_parens),
        !recoverable(spec_block_of_items(block_text, depth)),
    ensures
        spec_item(
            before_selector + mixin_selector_text(selector) + before_parens + "()"@ + block_text,
            depth,
        ) == match spec_block_of_items(block_text, depth) {
            Ok((rest, block)) => Ok((rest, ItemView::MixinDeclaration { selector, block })),
            Err(f) => Err(f),
        },
{
    reveal_strlit("()");
    let head = mixin_selector_text(selector) + before_parens + "()"@ + block_text;
    let s = before_selector + mixin_selector_text(selector) + before_parens + "()"@ + block_text;
    assert(s =~= before_selector + head);
    lemma_junk_is_stripped(before_selector, head);
    assert(head[0] == mixin_selector_text(selector)[0]);
    lemma_no_junk(head);
    lemma_mixin_head_parses(selector, before_parens, "()"@, block_text);
    lemma_mixin_declaration_is_chosen(s, depth);
}

/// The whitespace and comments around the tokens of a declaration.
pub struct Gaps {
    /// Before the name.
    pub before_name: Seq<char>,
    /// Between the name and the colon.
    pub before_colon: Seq<char>,
    /// Between the colon and the value.
    pub before_value: Seq<char>,
    /// Between the value and what follows it.
    pub after_value: Seq<char>,
    /// Between `!important`, where it is there, and the semicolon.
    pub before_end: Seq<char>,
}

impl Gaps {
    /// Whether every gap is made of whitespace and complete comments.
    pub open spec fn valid(self) -> bool {
        &&& is_junk(self.before_name)
        &&& is_junk(self.before_colon)
        &&& is_junk(self.before_value)
        &&& is_junk(self.after_value)
        &&& is_junk(self.before_end)
    }
}

/// What follows the value of a declaration: the gap, `!important` and
/// another gap where the declaration is important, and the semicolon.
pub open spec fn declaration_end(important: bool, gaps: Gaps) -> Seq<char> {
    gaps.after_value + (if important {
        "!important"@ + gaps.before_end
    } else {
        Seq::empty()
    }) + ";"@
}

/// The source text of the declaration of the property `name` with the
/// value written as `value_text`, with or without `!important`, written
/// with the given gaps.
pub open spec fn declaration_text(
    name: Seq<char>,
    value_text: Seq<char>,
    important: bool,
    gaps: Gaps,
) -> Seq<char> {
    gaps.before_name + name + gaps.before_colon + ":"@ + gaps.before_value + value_text
        + declaration_end(important, gaps)
}

/// The source text of the declaration of the variable `name` with the value
/// written as `value_text`, written with the given gaps.
pub open spec fn variable_declaration_text(
    name: Seq<char>,
    value_text: Seq<char>,
    gaps: Gaps,
) -> Seq<char> {
    gaps.before_name + seq!['@'] + name + gaps.before_colon + ":"@ + gaps.before_value
        + value_text + declaration_end(false, gaps)
}

/// The source text of the call of the variable `name`, written with the
/// given gaps.
pub open spec fn variable_call_text(name: Seq<char>, gaps: Gaps) -> Seq<char> {
    gaps.before_name + seq!['@'] + name + gaps.before_colon + "()"@ + gaps.before_end + ";"@
}

/// What follows the value of a declaration, as a flag and a semicolon: the
/// flag is read as written, the semicolon is matched, and what follows it
/// remains.
pub open spec fn reads_end(after_value: Seq<char>, important: bool, rest: Seq<char>) -> bool {
    let flagged = spec_important(after_value);
    &&& flagged is Ok
    &&& flagged->Ok_0.1 == important
    &&& spec_symbol(flagged->Ok_0.0, ";"@) == Ok::<_, Failure>((rest, ()))
}

/// The end of a declaration is read as the flag and the semicolon.
pub proof fn lemma_end_parses(important: bool, gaps: Gaps, rest: Seq<char>) -> (flag: Seq<char>)
    requires
        gaps.valid(),
    ensures
        declaration_end(important, gaps) + rest == gaps.after_value + flag,
        flag.len() > 0,
        flag[0] == '!' || flag[0] == ';',
        reads_end(gaps.after_value + flag, important, rest),
{
    reveal_strlit(";");
    reveal_strlit("!important");
    let end = ";"@ + rest;
    let before_end = gaps.before_end + end;
    let flag = if important {
        "!important"@ + before_end
    } else {
        end
    };
    let after_value = gaps.after_value + flag;
    assert(declaration_end(important, gaps) + rest =~= after_value);
    lemma_junk_is_stripped(gaps.after_value, flag);
    lemma_no_junk(flag);
    lemma_symbol_parses(";"@, rest);
    if important {
        lemma_symbol_parses("!important"@, before_end);
        assert(spec_important(after_value) == Ok::<_, Failure>((before_end, true)));
        lemma_junk_is_stripped(gaps.before_end, end);
    } else {
        if starts_with(flag, "!important"@) {
            lemma_starts_with_first(flag, "!important"@);
        }
        assert(spec_important(after_value) == Ok::<_, Failure>((after_value, false)));
    }
    flag
}

/// A value and the end of a declaration are read as that value, the flag
/// and the semicolon.
pub proof fn lemma_value_and_end_parse(
    value_text: Seq<char>,
    value: ValueView,
    important: bool,
    gaps: Gaps,
    rest: Seq<char>,
)
    requires
        is_term_text(value_text, value),
        gaps.valid(),
    ensures
        ({
            let parsed = spec_declaration_value(
                gaps.before_value + value_text + declaration_end(important, gaps) + rest,
            );
            &&& parsed is Ok
            &&& parsed->Ok_0.1 == value
            &&& reads_end(parsed->Ok_0.0, important, rest)
            &&& !important ==> spec_important(parsed->Ok_0.0)->Ok_0.0 == parsed->Ok_0.0
        }),
{
    let flag = lemma_end_parses(important, gaps, rest);
    let after_value = gaps.after_value + flag;
    let value_on = value_text + after_value;
    let s = gaps.before_value + value_text + declaration_end(important, gaps) + rest;
    assert(s =~= gaps.before_value + value_on);
    lemma_single_value_parses(value_text, value, gaps.after_value, flag);
    assert(value_text + gaps.after_value + flag =~= value_on);
    crate::laws::whitespace::lemma_leading_junk_is_ignored(
        gaps.before_value,
        value_on,
        Seq::empty(),
        0,
    );
}

/// Whitespace and comment insensitivity of declarations: every declaration
/// that can be written is parsed as that declaration, however much
/// whitespace and however many comments stand around its tokens, and what
/// follows the semicolon remains. So two ways of writing the same
/// declaration give the same tree.
pub proof fn lemma_declaration_parses(
    name: Seq<char>,
    value_text: Seq<char>,
    value: ValueView,
    important: bool,
    gaps: Gaps,
    rest: Seq<char>,
    depth: nat,
)
    requires
        is_ident(name),
        is_term_text(value_text, value),
        gaps.valid(),
    ensures
        spec_item(declaration_text(name, value_text, important, gaps) + rest, depth) == Ok::<
            _,
            Failure,
        >((rest, ItemView::Declaration { name, value, important })),
        spec_declaration(declaration_text(name, value_text, important, gaps) + rest)
            == spec_item(declaration_text(name, value_text, important, gaps) + rest, depth),
{
    reveal_strlit(":");
    let before_value = gaps.before_value + value_text + declaration_end(important, gaps) + rest;
    let colon = ":"@ + before_value;
    let before_colon = gaps.before_colon + colon;
    let named = name + before_colon;
    let s = declaration_text(name, value_text, important, gaps) + rest;
    assert(s =~= gaps.before_name + named);
    lemma_junk_is_stripped(gaps.before_name, named);
    assert(named[0] == name[0] && is_ident_char(name[0]));
    lemma_no_junk(named);
    assert(colon[0] == ':');
    if gaps.before_colon.len() > 0 {
        lemma_junk_first(gaps.before_colon);
        assert(before_colon[0] == gaps.before_colon[0]);
    } else {
        assert(before_colon =~= colon);
    }
    lemma_ident_parses(name, before_colon);
    lemma_junk_is_stripped(gaps.before_colon, colon);
    lemma_symbol_parses(":"@, before_value);
    assert(spec_symbol(before_colon, ":"@) == Ok::<_, Failure>((before_value, ())));
    lemma_value_and_end_parse(value_text, value, important, gaps, rest);
    lemma_declaration_is_committed_after_colon(s, depth);
}

/// An at-keyword followed by junk and a token that begins with no character
/// of an identifier is read as that name and that token.
pub proof fn lemma_at_keyword_head_parses(
    name: Seq<char>,
    before_name: Seq<char>,
    gap: Seq<char>,
    lit: Seq<char>,
    rest: Seq<char>,
)
    requires
        is_ident(name),
        is_junk(before_name),
        is_junk(gap),
        lit.len() > 0,
        !is_ident_char(lit[0]),
        !(crate::lexer::is_space(lit[0]) || lit[0] == '/'),
    ensures
        spec_at_keyword(before_name + seq!['@'] + name + gap + lit + rest) matches Ok(
            (after_name, parsed),
        ) && parsed == name && spec_symbol(after_name, lit) == Ok::<_, Failure>((rest, ()))
            && strip_junk(after_name) == lit + rest,
        strip_junk(before_name + seq!['@'] + name + gap + lit + rest)[0] == '@',
{
    let token = lit + rest;
    let after_name = gap + token;
    let head = seq!['@'] + name + after_name;
    let s = before_name + seq!['@'] + name + gap + lit + rest;
    assert(s =~= before_name + head);
    lemma_junk_is_stripped(before_name, head);
    assert(head[0] == '@');
    lemma_no_junk(head);
    assert(head.skip(1) =~= name + after_name);
    assert(token[0] == lit[0]);
    if gap.len() > 0 {
        lemma_junk_first(gap);
        assert(after_name[0] == gap[0]);
    } else {
        assert(after_name =~= token);
    }
    lemma_ident_parses(name, after_name);
    lemma_junk_is_stripped(gap, token);
    lemma_no_junk(token);
    lemma_symbol_parses(lit, rest);
}

/// No kind of item before the variable declaration matches input that
/// begins with `@`.
pub proof fn lemma_at_sign_skips_to_variables(s: Seq<char>, depth: nat)
    requires
        starts_with_char(strip_junk(s), '@'),
    ensures
        recoverable(spec_mixin_declaration(s, depth)),
        recoverable(spec_declaration(s)),
        recoverable(spec_mixin_call(s)),
        recoverable(spec_qualified_rule(s, depth)),
{
    assert(run_len(strip_junk(s), CharClass::Ident) == 0);
}

/// Every variable declaration that can be written is parsed as that
/// variable declaration, however much whitespace and however many comments
/// stand around its tokens, and what follows the semicolon remains.
pub proof fn lemma_variable_declaration_parses(
    name: Seq<char>,
    value_text: Seq<char>,
    value: ValueView,
    gaps: Gaps,
    rest: Seq<char>,
    depth: nat,
)
    requires
        is_ident(name),
        is_term_text(value_text, value),
        gaps.valid(),
    ensures
        spec_item(variable_declaration_text(name, value_text, gaps) + rest, depth) == Ok::<
            _,
            Failure,
        >((rest, ItemView::VariableDeclaration { name, value })),
{
    reveal_strlit(":");
    let before_value = gaps.before_value + value_text + declaration_end(false, gaps) + rest;
    let s = variable_declaration_text(name, value_text, gaps) + rest;
    assert(s =~= gaps.before_name + seq!['@'] + name + gaps.before_colon + ":"@ + before_value);
    lemma_at_keyword_head_parses(name, gaps.before_name, gaps.before_colon, ":"@, before_value);
    lemma_value_and_end_parse(value_text, value, false, gaps, rest);
    lemma_at_sign_skips_to_variables(s, depth);
    assert(spec_variable_declaration(s) == Ok::<_, Failure>(
        (rest, ItemView::VariableDeclaration { name, value }),
    ));
}

/// Every variable call that can be written is parsed as that variable call,
/// however much whitespace and however many comments stand around its
/// tokens, and what follows the semicolon remains.
pub proof fn lemma_variable_call_parses(
    name: Seq<char>,
    gaps: Gaps,
    rest: Seq<char>,
    depth: nat,
)
    requires
        is_ident(name),
        gaps.valid(),
    ensures
        spec_item(variable_call_text(name, gaps) + rest, depth) == Ok::<_, Failure>(
            (rest, ItemView::VariableCall { name }),
        ),
{
    reveal_strlit("()");
    reveal_strlit(":");
    reveal_strlit(";");
    let end = ";"@ + rest;
    let after_parens = gaps.before_end + end;
    let s = variable_call_text(name, gaps) + rest;
    assert(s =~= gaps.before_name + seq!['@'] + name + gaps.before_colon + "()"@ + after_parens);
    lemma_at_keyword_head_parses(name, gaps.before_name, gaps.before_colon, "()"@, after_parens);
    lemma_at_sign_skips_to_variables(s, depth);
    let after_name = spec_at_keyword(s)->Ok_0.0;
    if starts_with(strip_junk(after_name), ":"@) {
        lemma_starts_with_first(strip_junk(after_name), ":"@);
        assert(("()"@ + after_parens)[0] == '(');
    }
    assert(recoverable(spec_variable_declaration(s)));
    lemma_junk_is_stripped(gaps.before_end, end);
    lemma_symbol_parses(";"@, rest);
    assert(spec_variable_call(s) == Ok::<_, Failure>((rest, ItemView::VariableCall { name })));
}

/// The source text of a selector: `#` or `.` and the name.
pub open spec fn selector_text(selector: SelectorView) -> Seq<char> {
    match selector {
        SelectorView::Id(name) => seq!['#'] + name,
        SelectorView::Class(name) => seq!['.'] + name,
    }
}

/// The source text of a selector group from the gap after selector
/// `from - 1` on: that gap and, for each further selector, a comma, the gap
/// before the selector, the selector and the gap after it.
pub open spec fn selectors_text(
    selectors: Seq<SelectorView>,
    befores: Seq<Seq<char>>,
    afters: Seq<Seq<char>>,
    from: int,
) -> Seq<char>
    decreases selectors.len() - from,
{
    if 1 <= from < selectors.len() {
        afters[from - 1] + ","@ + befores[from] + selector_text(selectors[from]) + selectors_text(
            selectors,
            befores,
            afters,
            from + 1,
        )
    } else if from == selectors.len() && from >= 1 {
        afters[from - 1]
    } else {
        Seq::empty()
    }
}

/// The source text of a selector group: the selectors, each between two
/// gaps, separated by commas.
pub open spec fn selector_group_text(
    selectors: Seq<SelectorView>,
    befores: Seq<Seq<char>>,
    afters: Seq<Seq<char>>,
) -> Seq<char> {
    befores[0] + selector_text(selectors[0]) + selectors_text(selectors, befores, afters, 1)
}

/// Whether the selectors name identifiers, there is at least one, and there
/// is a gap of whitespace and comments before and after each.
pub open spec fn is_selector_group(
    selectors: Seq<SelectorView>,
    befores: Seq<Seq<char>>,
    afters: Seq<Seq<char>>,
) -> bool {
    &&& selectors.len() >= 1
    &&& befores.len() == selectors.len()
    &&& afters.len() == selectors.len()
    &&& forall|i: int| 0 <= i < selectors.len() ==> is_ident((#[trigger] selectors[i]).name())
    &&& forall|i: int| 0 <= i < befores.len() ==> is_junk(#[trigger] befores[i])
    &&& forall|i: int| 0 <= i < afters.len() ==> is_junk(#[trigger] afters[i])
}

/// What follows a selector of a group begins with no character of an
/// identifier, and after its junk with a comma if another selector follows
/// and with the opening brace if none does.
pub proof fn lemma_after_selector(
    selectors: Seq<SelectorView>,
    befores: Seq<Seq<char>>,
    afters: Seq<Seq<char>>,
    from: int,
    tail: Seq<char>,
)
    requires
        is_selector_group(selectors, befores, afters),
        1 <= from <= selectors.len(),
        starts_with_char(tail, '{'),
    ensures
        ({
            let s = selectors_text(selectors, befores, afters, from) + tail;
            &&& s.len() > 0
            &&& !is_ident_char(s[0])
            &&& strip_junk(s).len() > 0
            &&& strip_junk(s)[0] == (if from < selectors.len() {
                ','
            } else {
                '{'
            })
            &&& spec_symbol(s, "()"@) is Err
        }),
{
    reveal_strlit(",");
    reveal_strlit("()");
    let gap = afters[from - 1];
    let s = selectors_text(selectors, befores, afters, from) + tail;
    let next = if from < selectors.len() {
        ","@ + befores[from] + selector_text(selectors[from]) + selectors_text(
            selectors,
            befores,
            afters,
            from + 1,
        ) + tail
    } else {
        tail
    };
    assert(s =~= gap + next);
    assert(next[0] == ',' || next[0] == '{');
    if gap.len() > 0 {
        lemma_junk_first(gap);
        assert(s[0] == gap[0]);
    } else {
        assert(s =~= next);
    }
    lemma_junk_is_stripped(gap, next);
    lemma_no_junk(next);
    if starts_with(next, "()"@) {
        lemma_starts_with_first(next, "()"@);
    }
}

/// A selector between junk and a character that cannot continue its name is
/// read as that selector.
pub proof fn lemma_selector_parses(selector: SelectorView, before: Seq<char>, tail: Seq<char>)
    requires
        is_ident(selector.name()),
        is_junk(before),
        tail.len() == 0 || !is_ident_char(tail[0]),
    ensures
        spec_selector(before + selector_text(selector) + tail) == Ok::<_, Failure>(
            (tail, selector),
        ),
        strip_junk(before + selector_text(selector) + tail) == selector_text(selector) + tail,
{
    let head = selector_text(selector) + tail;
    let s = before + selector_text(selector) + tail;
    assert(s =~= before + head);
    lemma_junk_is_stripped(before, head);
    assert(head[0] == selector_text(selector)[0]);
    lemma_no_junk(head);
    assert(head.skip(1) =~= selector.name() + tail);
    lemma_ident_parses(selector.name(), tail);
}

/// The selectors of a group from the one at `from` on are read as written.
pub proof fn lemma_selectors_parse(
    selectors: Seq<SelectorView>,
    befores: Seq<Seq<char>>,
    afters: Seq<Seq<char>>,
    from: int,
    tail: Seq<char>,
)
    requires
        is_selector_group(selectors, befores, afters),
        1 <= from <= selectors.len(),
        starts_with_char(tail, '{'),
    ensures
        spec_selectors(
            selectors_text(selectors, befores, afters, from) + tail,
            selectors.take(from),
        ) == Ok::<_, Failure>((afters[selectors.len() - 1] + tail, selectors)),
    decreases selectors.len() - from,
{
    reveal_strlit(",");
    let s = selectors_text(selectors, befores, afters, from) + tail;
    lemma_after_selector(selectors, befores, afters, from, tail);
    if from == selectors.len() {
        assert(selectors.take(from) =~= selectors);
        if starts_with(strip_junk(s), ","@) {
            lemma_starts_with_first(strip_junk(s), ","@);
        }
        assert(s =~= afters[from - 1] + tail);
    } else {
        let gap = afters[from - 1];
        let after_selector = selectors_text(selectors, befores, afters, from + 1) + tail;
        let after_comma = befores[from] + selector_text(selectors[from]) + after_selector;
        let next = ","@ + after_comma;
        assert(s =~= gap + next);
        lemma_junk_is_stripped(gap, next);
        lemma_symbol_parses(","@, after_comma);
        assert(spec_symbol(s, ","@) == Ok::<_, Failure>((after_comma, ())));
        lemma_after_selector(selectors, befores, afters, from + 1, tail);
        lemma_selector_parses(selectors[from], befores[from], after_selector);
        assert(selectors.take(from).push(selectors[from]) =~= selectors.take(from + 1));
        lemma_selectors_parse(selectors, befores, afters, from + 1, tail);
    }
}

/// A selector group that can be written is read as written; the gap after
/// its last selector remains.
pub proof fn lemma_selector_group_parses(
    selectors: Seq<SelectorView>,
    befores: Seq<Seq<char>>,
    afters: Seq<Seq<char>>,
    tail: Seq<char>,
)
    requires
        is_selector_group(selectors, befores, afters),
        starts_with_char(tail, '{'),
    ensures
        spec_selector_group(selector_group_text(selectors, befores, afters) + tail) == Ok::<
            _,
            Failure,
        >((afters[selectors.len() - 1] + tail, selectors)),
{
    let s = selector_group_text(selectors, befores, afters) + tail;
    let after_first = selectors_text(selectors, befores, afters, 1) + tail;
    assert(s =~= befores[0] + selector_text(selectors[0]) + after_first);
    lemma_after_selector(selectors, befores, afters, 1, tail);
    lemma_selector_parses(selectors[0], befores[0], after_first);
    assert(selectors.take(1) =~= seq![selectors[0]]);
    lemma_selectors_parse(selectors, befores, afters, 1, tail);
}

/// No kind of item before the qualified rule matches a selector group in
/// front of a block.
pub proof fn lemma_selector_group_is_no_mixin(
    selectors: Seq<SelectorView>,
    befores: Seq<Seq<char>>,
    afters: Seq<Seq<char>>,
    tail: Seq<char>,
    depth: nat,
)
    requires
        is_selector_group(selectors, befores, afters),
        starts_with_char(tail, '{'),
    ensures
        recoverable(
            spec_mixin_declaration(selector_group_text(selectors, befores, afters) + tail, depth),
        ),
        recoverable(spec_declaration(selector_group_text(selectors, befores, afters) + tail)),
        recoverable(spec_mixin_call(selector_group_text(selectors, befores, afters) + tail)),
{
    let s = selector_group_text(selectors, befores, afters) + tail;
    let after_first = selectors_text(selectors, befores, afters, 1) + tail;
    assert(s =~= befores[0] + selector_text(selectors[0]) + after_first);
    lemma_after_selector(selectors, befores, afters, 1, tail);
    lemma_selector_parses(selectors[0], befores[0], after_first);
    let start = strip_junk(s);
    assert(start[0] == selector_text(selectors[0])[0]);
    assert(start.skip(1) =~= selectors[0].name() + after_first);
    lemma_ident_parses(selectors[0].name(), after_first);
    assert(run_len(start, CharClass::Ident) == 0);
}

/// Every qualified rule that can be written is parsed as a qualified rule:
/// a selector group, written with any whitespace and comments around its
/// selectors and commas, in front of a block gives the rule with those
/// selectors and the items of that block, and fails where the block fails.
pub proof fn lemma_qualified_rule_parses(
    selectors: Seq<SelectorView>,
    befores: Seq<Seq<char>>,
    afters: Seq<Seq<char>>,
    block_text: Seq<char>,
    depth: nat,
)
    requires
        is_selector_group(selectors, befores, afters),
        starts_with_char(block_text, '{'),
    ensures
        spec_item(selector_group_text(selectors, befores, afters) + block_text, depth)
            == match spec_block_of_items(block_text, depth) {
            Ok((rest, block)) => Ok(
                (rest, ItemView::QualifiedRule { selector_group: selectors, block }),
            ),
            Err(f) => Err(f),
        },
{
    let s = selector_group_text(selectors, befores, afters) + block_text;
    let last_gap = afters[selectors.len() - 1];
    lemma_selector_group_parses(selectors, befores, afters, block_text);
    lemma_selector_group_is_no_mixin(selectors, befores, afters, block_text, depth);
    crate::laws::whitespace::lemma_leading_junk_is_ignored(
        last_gap,
        block_text,
        Seq::empty(),
        depth,
    );
    lemma_no_junk(block_text);
    lemma_opened_block_is_committed(block_text, depth);
    assert(spec_qualified_rule(s, depth) == match spec_block_of_items(block_text, depth) {
        Ok((rest, block)) => Ok::<_, Failure>(
            (rest, ItemView::QualifiedRule { selector_group: selectors, block }),
        ),
        Err(f) => Err(f),
    });
}

} // verus!
