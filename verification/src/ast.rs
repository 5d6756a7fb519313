//! The abstract syntax tree and its mathematical model.
//!
//! Every piece of text in the tree is either a slice of the source or an
//! owned copy. The parser only ever borrows, so a tree that it returns lives
//! no longer than the source it was parsed from. The model of a node is
//! obtained with `deep_view`; it holds sequences of characters in place of
//! text and mathematical sequences in place of vectors.

use std::borrow::Cow;
use vstd::prelude::*;
use crate::lexer::{is_digit, is_hex_digit, is_ident};

verus! {

/// A reference embedded in a string literal.
#[derive(Debug, PartialEq, Eq)]
pub enum InterpolatedValue<'a> {
    /// `@{name}`
    Variable(Cow<'a, str>),
    /// `${name}`
    Property(Cow<'a, str>),
}

/// The right-hand side of a declaration.
#[derive(Debug, PartialEq, Eq)]
pub enum Value<'a> {
    /// A quoted string without interpolation: the text between the quotes.
    QuotedString(Cow<'a, str>),
    /// A quoted string with at least one interpolation: the literal
    /// segments, and the references that stand between them. There is one
    /// more segment than there are references.
    InterpolatedString(Vec<Cow<'a, str>>, Vec<InterpolatedValue<'a>>),
    /// A bare identifier such as `red`.
    Ident(Cow<'a, str>),
    /// A number such as `10px`, `1.5` or `50%`, split into its digits and
    /// its unit; the unit may be empty.
    Number { value: Cow<'a, str>, unit: Cow<'a, str> },
    /// A hexadecimal colour such as `#fff`: the digits after the `#`.
    Color(Cow<'a, str>),
    /// A reference to a variable such as `@base`: the name after the `@`.
    Variable(Cow<'a, str>),
    /// Two or more values separated by whitespace.
    List(Vec<Value<'a>>),
    /// Two or more values separated by commas.
    CommaList(Vec<Value<'a>>),
}

/// A selector of a qualified rule.
#[derive(Debug, PartialEq, Eq)]
pub enum Selector<'a> {
    /// `#name`
    Id(Cow<'a, str>),
    /// `.name`
    Class(Cow<'a, str>),
}

/// The selector that names a mixin.
#[derive(Debug, PartialEq, Eq)]
pub enum MixinSelector<'a> {
    /// `#name`
    Id(Cow<'a, str>),
    /// `.name`
    Class(Cow<'a, str>),
}

/// One statement of a stylesheet or of a block.
#[derive(Debug, PartialEq, Eq)]
pub enum Item<'a> {
    /// `name: value;` or `name: value !important;`
    Declaration { name: Cow<'a, str>, value: Value<'a>, important: bool },
    /// `selector, selector { items }`
    QualifiedRule { selector_group: Vec<Selector<'a>>, block: Vec<Item<'a>> },
    /// `.name() { items }`
    MixinDeclaration { selector: MixinSelector<'a>, block: Vec<Item<'a>> },
    /// `.name();`
    MixinCall { selector: MixinSelector<'a> },
    /// `@name: value;`
    VariableDeclaration { name: Cow<'a, str>, value: Value<'a> },
    /// `@name();`
    VariableCall { name: Cow<'a, str> },
}

/// The root of the tree.
#[derive(Debug, PartialEq, Eq)]
pub struct Stylesheet<'a> {
    pub items: Vec<Item<'a>>,
}

/// Model of [`InterpolatedValue`].
pub enum InterpolatedValueView {
    Variable(Seq<char>),
    Property(Seq<char>),
}

/// Model of [`Value`].
pub enum ValueView {
    QuotedString(Seq<char>),
    InterpolatedString(Seq<Seq<char>>, Seq<InterpolatedValueView>),
    Ident(Seq<char>),
    Number { value: Seq<char>, unit: Seq<char> },
    Color(Seq<char>),
    Variable(Seq<char>),
    List(Seq<ValueView>),
    CommaList(Seq<ValueView>),
}

/// Model of [`Selector`].
pub enum SelectorView {
    Id(Seq<char>),
    Class(Seq<char>),
}

/// Model of [`MixinSelector`].
pub enum MixinSelectorView {
    Id(Seq<char>),
    Class(Seq<char>),
}

/// Model of [`Item`].
pub enum ItemView {
    Declaration { name: Seq<char>, value: ValueView, important: bool },
    QualifiedRule { selector_group: Seq<SelectorView>, block: Seq<ItemView> },
    MixinDeclaration { selector: MixinSelectorView, block: Seq<ItemView> },
    MixinCall { selector: MixinSelectorView },
    VariableDeclaration { name: Seq<char>, value: ValueView },
    VariableCall { name: Seq<char> },
}

/// Model of [`Stylesheet`].
pub struct StylesheetView {
    pub items: Seq<ItemView>,
}

impl<'a> DeepView for InterpolatedValue<'a> {
    type V = InterpolatedValueView;

    open spec fn deep_view(&self) -> InterpolatedValueView {
        match self {
            InterpolatedValue::Variable(name) => InterpolatedValueView::Variable(name@),
            InterpolatedValue::Property(name) => InterpolatedValueView::Property(name@),
        }
    }
}

/// The model of a value.
pub open spec fn value_model<'a>(v: Value<'a>) -> ValueView
    decreases v,
{
    match v {
        Value::QuotedString(text) => ValueView::QuotedString(text@),
        Value::InterpolatedString(segments, interpolations) => ValueView::InterpolatedString(
            segments.deep_view(),
            interpolations.deep_view(),
        ),
        Value::Ident(name) => ValueView::Ident(name@),
        Value::Number { value, unit } => ValueView::Number { value: value@, unit: unit@ },
        Value::Color(digits) => ValueView::Color(digits@),
        Value::Variable(name) => ValueView::Variable(name@),
        Value::List(values) => ValueView::List(value_models(values@)),
        Value::CommaList(values) => ValueView::CommaList(value_models(values@)),
    }
}

impl<'a> DeepView for Value<'a> {
    type V = ValueView;

    open spec fn deep_view(&self) -> ValueView {
        value_model(*self)
    }
}

/// The models of the values in `values`, in order.
pub open spec fn value_models<'a>(values: Seq<Value<'a>>) -> Seq<ValueView>
    decreases values,
{
    if values.len() == 0 {
        Seq::empty()
    } else {
        value_models(values.drop_last()).push(value_model(values.last()))
    }
}

impl<'a> DeepView for Selector<'a> {
    type V = SelectorView;

    open spec fn deep_view(&self) -> SelectorView {
        match self {
            Selector::Id(name) => SelectorView::Id(name@),
            Selector::Class(name) => SelectorView::Class(name@),
        }
    }
}

impl<'a> DeepView for MixinSelector<'a> {
    type V = MixinSelectorView;

    open spec fn deep_view(&self) -> MixinSelectorView {
        match self {
            MixinSelector::Id(name) => MixinSelectorView::Id(name@),
            MixinSelector::Class(name) => MixinSelectorView::Class(name@),
        }
    }
}

/// The model of an item.
pub open spec fn item_model<'a>(item: Item<'a>) -> ItemView
    decreases item,
{
    match item {
        Item::Declaration { name, value, important } => ItemView::Declaration {
            name: name@,
            value: value.deep_view(),
            important,
        },
        Item::QualifiedRule { selector_group, block } => ItemView::QualifiedRule {
            selector_group: selector_group.deep_view(),
            block: item_models(block@),
        },
        Item::MixinDeclaration { selector, block } => ItemView::MixinDeclaration {
            selector: selector.deep_view(),
            block: item_models(block@),
        },
        Item::MixinCall { selector } => ItemView::MixinCall { selector: selector.deep_view() },
        Item::VariableDeclaration { name, value } => ItemView::VariableDeclaration {
            name: name@,
            value: value.deep_view(),
        },
        Item::VariableCall { name } => ItemView::VariableCall { name: name@ },
    }
}

impl<'a> DeepView for Item<'a> {
    type V = ItemView;

    open spec fn deep_view(&self) -> ItemView {
        item_model(*self)
    }
}

/// The models of the items in `items`, in order.
pub open spec fn item_models<'a>(items: Seq<Item<'a>>) -> Seq<ItemView>
    decreases items,
{
    if items.len() == 0 {
        Seq::empty()
    } else {
        item_models(items.drop_last()).push(item_model(items.last()))
    }
}

impl<'a> DeepView for Stylesheet<'a> {
    type V = StylesheetView;

    open spec fn deep_view(&self) -> StylesheetView {
        StylesheetView { items: self.items.deep_view() }
    }
}

impl InterpolatedValueView {
    /// The name that the reference refers to.
    pub open spec fn name(self) -> Seq<char> {
        match self {
            InterpolatedValueView::Variable(name) => name,
            InterpolatedValueView::Property(name) => name,
        }
    }
}

impl SelectorView {
    /// The name after the `#` or `.`.
    pub open spec fn name(self) -> Seq<char> {
        match self {
            SelectorView::Id(name) => name,
            SelectorView::Class(name) => name,
        }
    }
}

impl MixinSelectorView {
    /// The name after the `#` or `.`.
    pub open spec fn name(self) -> Seq<char> {
        match self {
            MixinSelectorView::Id(name) => name,
            MixinSelectorView::Class(name) => name,
        }
    }
}

impl ValueView {
    /// Whether the value is not a list.
    pub open spec fn is_term(self) -> bool {
        !(self is List) && !(self is CommaList)
    }
}

/// Whether a value is one that the grammar can produce: every name is an
/// identifier, an interpolated string has a reference and one more segment
/// than references, a number begins with a digit, a colour has hexadecimal
/// digits only and at least one, a whitespace-separated list has two or
/// more elements, none of them a list, and a comma-separated list has two or
/// more elements, none of them a comma-separated list.
pub open spec fn well_formed_value(v: ValueView) -> bool
    decreases v,
{
    match v {
        ValueView::QuotedString(_) => true,
        ValueView::InterpolatedString(segments, interpolations) => {
            &&& interpolations.len() >= 1
            &&& segments.len() == interpolations.len() + 1
            &&& forall|i: int|
                0 <= i < interpolations.len() ==> is_ident((#[trigger] interpolations[i]).name())
        },
        ValueView::Ident(name) => is_ident(name),
        ValueView::Number { value, unit } => value.len() > 0 && is_digit(value[0]),
        ValueView::Color(digits) => digits.len() > 0 && forall|i: int|
            0 <= i < digits.len() ==> is_hex_digit(#[trigger] digits[i]),
        ValueView::Variable(name) => is_ident(name),
        ValueView::List(values) => values.len() >= 2 && forall|i: int|
            0 <= i < values.len() ==> (#[trigger] values[i]).is_term() && well_formed_value(
                values[i],
            ),
        ValueView::CommaList(values) => values.len() >= 2 && forall|i: int|
            0 <= i < values.len() ==> !((#[trigger] values[i]) is CommaList) && well_formed_value(
                values[i],
            ),
    }
}

/// Whether an item is one that the grammar can produce: every name is an
/// identifier, every value is well formed, a selector group is not empty,
/// and every item of a block is well formed.
pub open spec fn well_formed_item(item: ItemView) -> bool
    decreases item,
{
    match item {
        ItemView::Declaration { name, value, important } => is_ident(name) && well_formed_value(
            value,
        ),
        ItemView::QualifiedRule { selector_group, block } => {
            &&& selector_group.len() >= 1
            &&& forall|i: int|
                0 <= i < selector_group.len() ==> is_ident((#[trigger] selector_group[i]).name())
            &&& forall|i: int| 0 <= i < block.len() ==> well_formed_item(#[trigger] block[i])
        },
        ItemView::MixinDeclaration { selector, block } => {
            &&& is_ident(selector.name())
            &&& forall|i: int| 0 <= i < block.len() ==> well_formed_item(#[trigger] block[i])
        },
        ItemView::MixinCall { selector } => is_ident(selector.name()),
        ItemView::VariableDeclaration { name, value } => is_ident(name) && well_formed_value(
            value,
        ),
        ItemView::VariableCall { name } => is_ident(name),
    }
}

/// Whether every item of the sequence is well formed.
pub open spec fn well_formed_items(items: Seq<ItemView>) -> bool {
    forall|i: int| 0 <= i < items.len() ==> well_formed_item(#[trigger] items[i])
}

impl StylesheetView {
    /// Whether every item of the stylesheet is well formed.
    pub open spec fn well_formed(self) -> bool {
        well_formed_items(self.items)
    }
}

/// The model of a vector that has grown by one element is the model of the
/// shorter vector with the model of that element appended.
pub proof fn lemma_deep_view_push<T: DeepView>(shorter: Vec<T>, longer: Vec<T>, last: T)
    requires
        longer@ == shorter@.push(last),
    ensures
        longer.deep_view() == shorter.deep_view().push(last.deep_view()),
{
    assert(longer.deep_view() =~= shorter.deep_view().push(last.deep_view()));
}

/// The model of an empty vector is the empty sequence.
pub proof fn lemma_deep_view_empty<T: DeepView>(v: Vec<T>)
    requires
        v@.len() == 0,
    ensures
        v.deep_view() == Seq::<T::V>::empty(),
{
    assert(v.deep_view() =~= Seq::<T::V>::empty());
}

/// The models of a sequence of values are the models of its elements.
pub proof fn lemma_value_models<'a>(values: Seq<Value<'a>>)
    ensures
        value_models(values).len() == values.len(),
        forall|i: int| 0 <= i < values.len() ==> value_models(values)[i] == values[i].deep_view(),
    decreases values.len(),
{
    if values.len() > 0 {
        lemma_value_models(values.drop_last());
    }
}

/// The models of a sequence of items are the models of its elements.
pub proof fn lemma_item_models<'a>(items: Seq<Item<'a>>)
    ensures
        item_models(items).len() == items.len(),
        forall|i: int| 0 <= i < items.len() ==> item_models(items)[i] == items[i].deep_view(),
    decreases items.len(),
{
    if items.len() > 0 {
        lemma_item_models(items.drop_last());
    }
}

/// A list is modelled by the models of its elements.
pub proof fn lemma_list_view<'a>(values: Vec<Value<'a>>)
    ensures
        Value::List(values).deep_view() == ValueView::List(values.deep_view()),
        Value::CommaList(values).deep_view() == ValueView::CommaList(values.deep_view()),
{
    lemma_value_models(values@);
    assert(value_models(values@) =~= values.deep_view());
}

/// A qualified rule is modelled by the models of its selectors and of the
/// items in its block.
pub proof fn lemma_qualified_rule_view<'a>(selector_group: Vec<Selector<'a>>, block: Vec<Item<'a>>)
    ensures
        (Item::QualifiedRule { selector_group, block }).deep_view() == (ItemView::QualifiedRule {
            selector_group: selector_group.deep_view(),
            block: block.deep_view(),
        }),
{
    lemma_item_models(block@);
    assert(item_models(block@) =~= block.deep_view());
}

/// A mixin declaration is modelled by the model of its selector and the
/// models of the items in its block.
pub proof fn lemma_mixin_declaration_view<'a>(selector: MixinSelector<'a>, block: Vec<Item<'a>>)
    ensures
        (Item::MixinDeclaration { selector, block }).deep_view() == (ItemView::MixinDeclaration {
            selector: selector.deep_view(),
            block: block.deep_view(),
        }),
{
    lemma_item_models(block@);
    assert(item_models(block@) =~= block.deep_view());
}

} // verus!
