//! The rules that a schema is made of.

use crate::expression::{Expression, ExpressionView};
use crate::tree::id_view;
use vstd::prelude::*;

verus! {

/// The width of a fixed-width integer field.
#[derive(Clone, Copy, PartialEq, Eq, Structural, Debug)]
pub enum IntegerWidth {
    /// Two bytes.
    Two,
    /// Four bytes.
    Four,
}

impl IntegerWidth {
    /// The number of bytes that a field of this width takes.
    pub open spec fn len(self) -> int {
        match self {
            IntegerWidth::Two => 2,
            IntegerWidth::Four => 4,
        }
    }
}

/// One node of a schema: how a span of bytes is to be read. The `id` of a
/// rule, where it has one, is the name under which an integer field binds its
/// value and the key by which a format names and explains the node.
#[derive(Debug, PartialEq, Eq)]
pub enum Rule {
    /// A little-endian unsigned integer.
    FixedWidthInteger { id: Option<String>, width: IntegerWidth },
    /// Bytes that must stand in the buffer as they are given.
    Constants { id: Option<String>, bytes: Vec<u8> },
    /// As many bytes as `length` evaluates to, taken as they are.
    RawSpan { id: Option<String>, length: Expression },
    /// The bytes up to and including the first `sentinel`, or up to the end
    /// of the buffer where there is none.
    UntilByte { id: Option<String>, sentinel: u8 },
    /// The items one after another.
    Tuple { id: Option<String>, items: Vec<Rule> },
    /// `child`, as many times as `count` evaluates to, or until the buffer
    /// is used up.
    Repeat { id: Option<String>, count: Expression, child: Box<Rule> },
    /// `child`, until the buffer is used up.
    Repeat0 { id: Option<String>, child: Box<Rule> },
    /// A rule of a kind that the engine does not know; it fails wherever it
    /// is applied.
    Unknown,
}

/// What a [`Rule`] stands for.
pub enum RuleView {
    FixedWidthInteger { id: Option<Seq<char>>, width: IntegerWidth },
    Constants { id: Option<Seq<char>>, bytes: Seq<u8> },
    RawSpan { id: Option<Seq<char>>, length: ExpressionView },
    UntilByte { id: Option<Seq<char>>, sentinel: u8 },
    Tuple { id: Option<Seq<char>>, items: Seq<RuleView> },
    Repeat { id: Option<Seq<char>>, count: ExpressionView, child: Box<RuleView> },
    Repeat0 { id: Option<Seq<char>>, child: Box<RuleView> },
    Unknown,
}

/// What a rule stands for.
pub open spec fn rule_view(rule: Rule) -> RuleView
    decreases rule,
{
    match rule {
        Rule::FixedWidthInteger { id, width } => RuleView::FixedWidthInteger {
            id: id_view(id),
            width,
        },
        Rule::Constants { id, bytes } => RuleView::Constants { id: id_view(id), bytes: bytes@ },
        Rule::RawSpan { id, length } => RuleView::RawSpan { id: id_view(id), length: length@ },
        Rule::UntilByte { id, sentinel } => RuleView::UntilByte { id: id_view(id), sentinel },
        Rule::Tuple { id, items } => RuleView::Tuple {
            id: id_view(id),
            items: Seq::new(
                items@.len(),
                |i: int|
                    if 0 <= i < items@.len() {
                        rule_view(items@[i])
                    } else {
                        arbitrary()
                    },
            ),
        },
        Rule::Repeat { id, count, child } => RuleView::Repeat {
            id: id_view(id),
            count: count@,
            child: Box::new(rule_view(*child)),
        },
        Rule::Repeat0 { id, child } => RuleView::Repeat0 {
            id: id_view(id),
            child: Box::new(rule_view(*child)),
        },
        Rule::Unknown => RuleView::Unknown,
    }
}

impl View for Rule {
    type V = RuleView;

    open spec fn view(&self) -> RuleView {
        rule_view(*self)
    }
}

/// What a list of rules stands for.
pub open spec fn rules_view(list: Seq<Rule>) -> Seq<RuleView> {
    Seq::new(list.len(), |i: int| list[i]@)
}

} // verus!
