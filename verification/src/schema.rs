//! From a schema document to the rules that it describes.
//!
//! A rule is a mapping. Its `type` names its kind, its `id` is optional, and
//! the other fields depend on the kind:
//!
//! | `type`       | fields                                   |
//! |--------------|------------------------------------------|
//! | `u16`, `u32` | none                                     |
//! | `constants`  | `constants`: a list of bytes             |
//! | `skim`       | `len_bytes`: an expression               |
//! | `until_byte` | `byte`: a byte                           |
//! | `tuple`      | `items`: a list of rules                 |
//! | `repeat`     | `repeat_times`: an expression, `children`: a rule |
//! | `repeat0`    | `children`: a rule                       |
//!
//! A mapping with another `type`, or without one, is a rule of unknown kind.
//! An expression is an integer, the name of a variable, or a mapping with one
//! of the operators `+` and `*` (over a list), `//` and
//! `to_floor_multiple_of` (over `input` and the operator's own value).

use crate::document::{documents_view, entries_view, Document, DocumentView};
use crate::expression::{expressions_view, Expression, ExpressionView};
use crate::rule::{rules_view, IntegerWidth, Rule, RuleView};
use crate::text::str_eq;
use crate::tree::id_view;
use vstd::prelude::*;

verus! {

/// Why a document describes no rule.
#[derive(Clone, Copy, PartialEq, Eq, Structural, Debug)]
pub enum SchemaError {
    /// Where a rule is due, the document holds no mapping.
    NotAMapping,
    /// A rule lacks a field that its kind requires, or an operator its input.
    MissingField,
    /// A field holds a value of the wrong shape.
    WrongType,
    /// A byte is not within 0 to 255.
    ByteOutOfRange,
    /// Where an expression is due, the document holds none.
    BadExpression,
}

/// The position of the first entry with the key `key`, or the number of
/// entries where there is none.
pub open spec fn index_of(entries: Seq<(DocumentView, DocumentView)>, key: Seq<char>) -> nat
    decreases entries.len(),
{
    if entries.len() == 0 {
        0
    } else if entries[0].0 == DocumentView::Text(key) {
        0
    } else {
        1 + index_of(entries.drop_first(), key)
    }
}

/// The value of the first entry with the key `key`, where there is one.
pub open spec fn lookup(entries: Seq<(DocumentView, DocumentView)>, key: Seq<char>) -> Option<
    DocumentView,
> {
    let at = index_of(entries, key);
    if at < entries.len() {
        Some(entries[at as int].1)
    } else {
        None
    }
}

/// The string under the key `key`, where there is one.
pub open spec fn text_field(entries: Seq<(DocumentView, DocumentView)>, key: Seq<char>) -> Option<
    Seq<char>,
> {
    match lookup(entries, key) {
        Some(DocumentView::Text(s)) => Some(s),
        _ => None,
    }
}

/// The byte that a document holds.
pub open spec fn compile_byte(doc: DocumentView) -> Result<u8, SchemaError> {
    match doc {
        DocumentView::Integer(v) => if 0 <= v <= 255 {
            Ok(v as u8)
        } else {
            Err(SchemaError::ByteOutOfRange)
        },
        _ => Err(SchemaError::WrongType),
    }
}

/// The bytes that a list of documents holds; the first error where one is
/// no byte.
pub open spec fn compile_bytes(docs: Seq<DocumentView>) -> Result<Seq<u8>, SchemaError>
    decreases docs.len(),
{
    if docs.len() == 0 {
        Ok(Seq::empty())
    } else {
        match compile_bytes(docs.drop_last()) {
            Ok(bytes) => match compile_byte(docs.last()) {
                Ok(b) => Ok(bytes.push(b)),
                Err(e) => Err(e),
            },
            Err(e) => Err(e),
        }
    }
}

/// The expression that a document describes.
pub open spec fn compile_expression(doc: DocumentView) -> Result<ExpressionView, SchemaError>
    decreases doc, 0nat,
{
    match doc {
        DocumentView::Integer(v) => Ok(ExpressionView::Literal(v)),
        DocumentView::Text(name) => Ok(ExpressionView::Variable(name)),
        DocumentView::Mapping(entries) => {
            let plus = index_of(entries, "+"@);
            let times = index_of(entries, "*"@);
            let over = index_of(entries, "//"@);
            let round = index_of(entries, "to_floor_multiple_of"@);
            let input = index_of(entries, "input"@);
            if plus < entries.len() && entries[plus as int].1 is Sequence {
                match compile_expressions(entries[plus as int].1->Sequence_0) {
                    Ok(terms) => Ok(ExpressionView::Sum(terms)),
                    Err(e) => Err(e),
                }
            } else if times < entries.len() && entries[times as int].1 is Sequence {
                match compile_expressions(entries[times as int].1->Sequence_0) {
                    Ok(factors) => Ok(ExpressionView::Product(factors)),
                    Err(e) => Err(e),
                }
            } else if over < entries.len() {
                if input < entries.len() {
                    match compile_expression(entries[input as int].1) {
                        Ok(a) => match compile_expression(entries[over as int].1) {
                            Ok(b) => Ok(ExpressionView::IntegerDivide(Box::new(a), Box::new(b))),
                            Err(e) => Err(e),
                        },
                        Err(e) => Err(e),
                    }
                } else {
                    Err(SchemaError::MissingField)
                }
            } else if round < entries.len() {
                if input < entries.len() {
                    match compile_expression(entries[input as int].1) {
                        Ok(a) => match compile_expression(entries[round as int].1) {
                            Ok(b) => Ok(
                                ExpressionView::RoundUpToMultiple(Box::new(a), Box::new(b)),
                            ),
                            Err(e) => Err(e),
                        },
                        Err(e) => Err(e),
                    }
                } else {
                    Err(SchemaError::MissingField)
                }
            } else {
                Err(SchemaError::BadExpression)
            }
        },
        _ => Err(SchemaError::BadExpression),
    }
}

/// The expressions that a list of documents describes; the first error where
/// one describes none.
pub open spec fn compile_expressions(docs: Seq<DocumentView>) -> Result<
    Seq<ExpressionView>,
    SchemaError,
>
    decreases docs, 1nat,
{
    if docs.len() == 0 {
        Ok(Seq::empty())
    } else {
        match compile_expressions(docs.drop_last()) {
            Ok(list) => match compile_expression(docs.last()) {
                Ok(e) => Ok(list.push(e)),
                Err(e) => Err(e),
            },
            Err(e) => Err(e),
        }
    }
}

/// The rule that a document describes.
pub open spec fn compile_rule(doc: DocumentView) -> Result<RuleView, SchemaError>
    decreases doc, 0nat,
{
    match doc {
        DocumentView::Mapping(entries) => {
            let id = text_field(entries, "id"@);
            let kind = text_field(entries, "type"@);
            if kind == Some("repeat"@) {
                let count = index_of(entries, "repeat_times"@);
                let child = index_of(entries, "children"@);
                if count >= entries.len() || child >= entries.len() {
                    Err(SchemaError::MissingField)
                } else {
                    match compile_expression(entries[count as int].1) {
                        Ok(c) => match compile_rule(entries[child as int].1) {
                            Ok(r) => Ok(RuleView::Repeat { id, count: c, child: Box::new(r) }),
                            Err(e) => Err(e),
                        },
                        Err(e) => Err(e),
                    }
                }
            } else if kind == Some("repeat0"@) {
                let child = index_of(entries, "children"@);
                if child >= entries.len() {
                    Err(SchemaError::MissingField)
                } else {
                    match compile_rule(entries[child as int].1) {
                        Ok(r) => Ok(RuleView::Repeat0 { id, child: Box::new(r) }),
                        Err(e) => Err(e),
                    }
                }
            } else if kind == Some("until_byte"@) {
                match lookup(entries, "byte"@) {
                    Some(held) => match compile_byte(held) {
                        Ok(sentinel) => Ok(RuleView::UntilByte { id, sentinel }),
                        Err(e) => Err(e),
                    },
                    None => Err(SchemaError::MissingField),
                }
            } else if kind == Some("tuple"@) {
                let items = index_of(entries, "items"@);
                if items >= entries.len() {
                    Err(SchemaError::MissingField)
                } else if entries[items as int].1 is Sequence {
                    match compile_rules(entries[items as int].1->Sequence_0) {
                        Ok(list) => Ok(RuleView::Tuple { id, items: list }),
                        Err(e) => Err(e),
                    }
                } else {
                    Err(SchemaError::WrongType)
                }
            } else if kind == Some("constants"@) {
                match lookup(entries, "constants"@) {
                    Some(DocumentView::Sequence(list)) => match compile_bytes(list) {
                        Ok(bytes) => Ok(RuleView::Constants { id, bytes }),
                        Err(e) => Err(e),
                    },
                    Some(_) => Err(SchemaError::WrongType),
                    None => Err(SchemaError::MissingField),
                }
            } else if kind == Some("u16"@) {
                Ok(RuleView::FixedWidthInteger { id, width: IntegerWidth::Two })
            } else if kind == Some("u32"@) {
                Ok(RuleView::FixedWidthInteger { id, width: IntegerWidth::Four })
            } else if kind == Some("skim"@) {
                match lookup(entries, "len_bytes"@) {
                    Some(held) => match compile_expression(held) {
                        Ok(length) => Ok(RuleView::RawSpan { id, length }),
                        Err(e) => Err(e),
                    },
                    None => Err(SchemaError::MissingField),
                }
            } else {
                Ok(RuleView::Unknown)
            }
        },
        _ => Err(SchemaError::NotAMapping),
    }
}

/// The rules that a list of documents describes; the first error where one
/// describes none.
pub open spec fn compile_rules(docs: Seq<DocumentView>) -> Result<Seq<RuleView>, SchemaError>
    decreases docs, 1nat,
{
    if docs.len() == 0 {
        Ok(Seq::empty())
    } else {
        match compile_rules(docs.drop_last()) {
            Ok(list) => match compile_rule(docs.last()) {
                Ok(r) => Ok(list.push(r)),
                Err(e) => Err(e),
            },
            Err(e) => Err(e),
        }
    }
}

/// The entries of a mapping are what its view holds.
pub proof fn lemma_mapping_view(doc: Document)
    requires
        doc is Mapping,
    ensures
        doc@ == DocumentView::Mapping(entries_view(doc->Mapping_0@)),
{
    assert(doc@->Mapping_0 =~= entries_view(doc->Mapping_0@));
}

/// The items of a sequence are what its view holds.
pub proof fn lemma_sequence_view(doc: Document)
    requires
        doc is Sequence,
    ensures
        doc@ == DocumentView::Sequence(documents_view(doc->Sequence_0@)),
{
    assert(doc@->Sequence_0 =~= documents_view(doc->Sequence_0@));
}

/// A list that fails on some of its first documents fails on all of them,
/// with the same error.
pub proof fn lemma_expressions_fail_from_prefix(docs: Seq<DocumentView>, k: int)
    requires
        0 <= k <= docs.len(),
        compile_expressions(docs.take(k)) is Err,
    ensures
        compile_expressions(docs) == compile_expressions(docs.take(k)),
    decreases docs.len() - k,
{
    if k < docs.len() {
        assert(docs.take(k + 1).drop_last() =~= docs.take(k));
        lemma_expressions_fail_from_prefix(docs, k + 1);
    } else {
        assert(docs.take(k) =~= docs);
    }
}

/// A list that fails on some of its first documents fails on all of them,
/// with the same error.
pub proof fn lemma_rules_fail_from_prefix(docs: Seq<DocumentView>, k: int)
    requires
        0 <= k <= docs.len(),
        compile_rules(docs.take(k)) is Err,
    ensures
        compile_rules(docs) == compile_rules(docs.take(k)),
    decreases docs.len() - k,
{
    if k < docs.len() {
        assert(docs.take(k + 1).drop_last() =~= docs.take(k));
        lemma_rules_fail_from_prefix(docs, k + 1);
    } else {
        assert(docs.take(k) =~= docs);
    }
}

/// A list that fails on some of its first documents fails on all of them,
/// with the same error.
pub proof fn lemma_bytes_fail_from_prefix(docs: Seq<DocumentView>, k: int)
    requires
        0 <= k <= docs.len(),
        compile_bytes(docs.take(k)) is Err,
    ensures
        compile_bytes(docs) == compile_bytes(docs.take(k)),
    decreases docs.len() - k,
{
    if k < docs.len() {
        assert(docs.take(k + 1).drop_last() =~= docs.take(k));
        lemma_bytes_fail_from_prefix(docs, k + 1);
    } else {
        assert(docs.take(k) =~= docs);
    }
}

/// Whether `found` is what stands under `key` in `entries`.
pub open spec fn is_lookup(
    entries: Seq<(Document, Document)>,
    key: Seq<char>,
    found: Option<&Document>,
) -> bool {
    let at = index_of(entries_view(entries), key);
    match found {
        Some(held) => at < entries.len() && *held == entries[at as int].1,
        None => at >= entries.len(),
    }
}

/// The value of the first entry with the key `key`, where there is one.
pub fn find<'a>(entries: &'a Vec<(Document, Document)>, key: &str) -> (found: Option<&'a Document>)
    ensures
        is_lookup(entries@, key@, found),
{
    let ghost all = entries_view(entries@);
    let mut i: usize = 0;
    proof {
        assert(all.skip(0) =~= all);
    }
    while i < entries.len()
        invariant
            i <= entries.len(),
            all == entries_view(entries@),
            index_of(all, key@) == i + index_of(all.skip(i as int), key@),
        decreases entries.len() - i,
    {
        proof {
            assert(all.skip(i as int).drop_first() =~= all.skip(i + 1));
            assert(all.skip(i as int)[0] == all[i as int]);
        }
        let hit = match &entries[i].0 {
            Document::Text(s) => str_eq(s.as_str(), key),
            _ => false,
        };
        if hit {
            return Some(&entries[i].1);
        }
        i = i + 1;
    }
    None
}

/// The string under the key `key`, where there is one.
pub fn find_text<'a>(entries: &'a Vec<(Document, Document)>, key: &str) -> (found: Option<&'a str>)
    ensures
        match found {
            Some(s) => text_field(entries_view(entries@), key@) == Some(s@),
            None => text_field(entries_view(entries@), key@) is None,
        },
{
    match find(entries, key) {
        Some(Document::Text(s)) => Some(s.as_str()),
        _ => None,
    }
}

/// The byte that a document holds.
pub fn byte_of(doc: &Document) -> (byte: Result<u8, SchemaError>)
    ensures
        byte == compile_byte(doc@),
{
    match doc {
        Document::Integer(v) => if 0 <= *v && *v <= 255 {
            Ok(*v as u8)
        } else {
            Err(SchemaError::ByteOutOfRange)
        },
        _ => Err(SchemaError::WrongType),
    }
}

/// The bytes that a list of documents holds.
pub fn bytes_of(docs: &Vec<Document>) -> (bytes: Result<Vec<u8>, SchemaError>)
    ensures
        match bytes {
            Ok(list) => compile_bytes(documents_view(docs@)) == Ok::<Seq<u8>, SchemaError>(list@),
            Err(e) => compile_bytes(documents_view(docs@)) == Err::<Seq<u8>, SchemaError>(e),
        },
{
    let ghost views = documents_view(docs@);
    let mut list: Vec<u8> = Vec::new();
    let mut i: usize = 0;
    proof {
        assert(views.take(0) =~= Seq::empty());
    }
    while i < docs.len()
        invariant
            i <= docs.len(),
            views == documents_view(docs@),
            compile_bytes(views.take(i as int)) == Ok::<Seq<u8>, SchemaError>(list@),
        decreases docs.len() - i,
    {
        proof {
            assert(views.take(i + 1).drop_last() =~= views.take(i as int));
            assert(views.take(i + 1).last() == docs@[i as int]@);
        }
        match byte_of(&docs[i]) {
            Ok(b) => {
                list.push(b);
            },
            Err(e) => {
                proof {
                    lemma_bytes_fail_from_prefix(views, i + 1);
                }
                return Err(e);
            },
        }
        i = i + 1;
    }
    proof {
        assert(views.take(i as int) =~= views);
    }
    Ok(list)
}

/// Whether `made` is what `meant` says: the same error, or a value that
/// stands for the same expression.
pub open spec fn is_expression(
    made: Result<Expression, SchemaError>,
    meant: Result<ExpressionView, SchemaError>,
) -> bool {
    match made {
        Ok(e) => meant == Ok::<ExpressionView, SchemaError>(e@),
        Err(err) => meant == Err::<ExpressionView, SchemaError>(err),
    }
}

/// Whether `made` is what `meant` says: the same error, or a value that
/// stands for the same rule.
pub open spec fn is_rule(
    made: Result<Rule, SchemaError>,
    meant: Result<RuleView, SchemaError>,
) -> bool {
    match made {
        Ok(r) => meant == Ok::<RuleView, SchemaError>(r@),
        Err(err) => meant == Err::<RuleView, SchemaError>(err),
    }
}

/// The expression that a document describes.
pub fn expression_of(doc: &Document) -> (made: Result<Expression, SchemaError>)
    ensures
        is_expression(made, compile_expression(doc@)),
    decreases doc, 0nat,
{
    match doc {
        Document::Integer(v) => Ok(Expression::Literal(*v)),
        Document::Text(name) => Ok(Expression::Variable(name.clone())),
        Document::Mapping(entries) => {
            proof {
                lemma_mapping_view(*doc);
            }
            if let Some(Document::Sequence(list)) = find(entries, "+") {
                proof {
                    let at = index_of(entries_view(entries@), "+"@) as int;
                    lemma_sequence_view(entries@[at].1);
                }
                return match expressions_of(list) {
                    Ok(terms) => {
                        let sum = Expression::Sum(terms);
                        proof {
                            assert(sum@->Sum_0 =~= expressions_view(terms@));
                        }
                        Ok(sum)
                    },
                    Err(e) => Err(e),
                };
            }
            if let Some(Document::Sequence(list)) = find(entries, "*") {
                proof {
                    let at = index_of(entries_view(entries@), "*"@) as int;
                    lemma_sequence_view(entries@[at].1);
                }
                return match expressions_of(list) {
                    Ok(factors) => {
                        let product = Expression::Product(factors);
                        proof {
                            assert(product@->Product_0 =~= expressions_view(factors@));
                        }
                        Ok(product)
                    },
                    Err(e) => Err(e),
                };
            }
            if let Some(by) = find(entries, "//") {
                return match find(entries, "input") {
                    Some(input) => match expression_of(input) {
                        Ok(a) => match expression_of(by) {
                            Ok(b) => Ok(Expression::IntegerDivide(Box::new(a), Box::new(b))),
                            Err(e) => Err(e),
                        },
                        Err(e) => Err(e),
                    },
                    None => Err(SchemaError::MissingField),
                };
            }
            if let Some(of) = find(entries, "to_floor_multiple_of") {
                return match find(entries, "input") {
                    Some(input) => match expression_of(input) {
                        Ok(a) => match expression_of(of) {
                            Ok(b) => Ok(Expression::RoundUpToMultiple(Box::new(a), Box::new(b))),
                            Err(e) => Err(e),
                        },
                        Err(e) => Err(e),
                    },
                    None => Err(SchemaError::MissingField),
                };
            }
            Err(SchemaError::BadExpression)
        },
        _ => Err(SchemaError::BadExpression),
    }
}

/// The expressions that a list of documents describes.
pub fn expressions_of(docs: &Vec<Document>) -> (made: Result<Vec<Expression>, SchemaError>)
    ensures
        match made {
            Ok(list) => compile_expressions(documents_view(docs@)) == Ok::<
                Seq<ExpressionView>,
                SchemaError,
            >(expressions_view(list@)),
            Err(e) => compile_expressions(documents_view(docs@)) == Err::<
                Seq<ExpressionView>,
                SchemaError,
            >(e),
        },
    decreases docs, 1nat,
{
    let ghost views = documents_view(docs@);
    let mut list: Vec<Expression> = Vec::new();
    let mut i: usize = 0;
    proof {
        assert(views.take(0) =~= Seq::empty());
        assert(expressions_view(list@) =~= Seq::empty());
    }
    while i < docs.len()
        invariant
            i <= docs.len(),
            views == documents_view(docs@),
            compile_expressions(views.take(i as int)) == Ok::<Seq<ExpressionView>, SchemaError>(
                expressions_view(list@),
            ),
        decreases docs.len() - i,
    {
        proof {
            assert(views.take(i + 1).drop_last() =~= views.take(i as int));
            assert(views.take(i + 1).last() == docs@[i as int]@);
        }
        match expression_of(&docs[i]) {
            Ok(e) => {
                proof {
                    assert(expressions_view(list@.push(e)) =~= expressions_view(list@).push(e@));
                }
                list.push(e);
            },
            Err(e) => {
                proof {
                    lemma_expressions_fail_from_prefix(views, i + 1);
                }
                return Err(e);
            },
        }
        i = i + 1;
    }
    proof {
        assert(views.take(i as int) =~= views);
    }
    Ok(list)
}

/// A copy of an identifier that may be missing.
fn owned_id(id: Option<&str>) -> (copy: Option<String>)
    ensures
        match id {
            Some(s) => id_view(copy) == Some(s@),
            None => id_view(copy) is None,
        },
{
    match id {
        Some(s) => Some(s.to_owned()),
        None => None,
    }
}

/// The rule that a document describes.
pub fn rule_of(doc: &Document) -> (made: Result<Rule, SchemaError>)
    ensures
        is_rule(made, compile_rule(doc@)),
    decreases doc, 0nat,
{
    let entries = match doc {
        Document::Mapping(entries) => entries,
        _ => {
            return Err(SchemaError::NotAMapping);
        },
    };
    proof {
        lemma_mapping_view(*doc);
    }
    let id = owned_id(find_text(entries, "id"));
    let kind = match find_text(entries, "type") {
        Some(kind) => kind,
        None => {
            return Ok(Rule::Unknown);
        },
    };
    if str_eq(kind, "repeat") {
        let count = find(entries, "repeat_times");
        let child = find(entries, "children");
        match (count, child) {
            (Some(count), Some(child)) => match expression_of(count) {
                Ok(count) => match rule_of(child) {
                    Ok(child) => Ok(Rule::Repeat { id, count, child: Box::new(child) }),
                    Err(e) => Err(e),
                },
                Err(e) => Err(e),
            },
            _ => Err(SchemaError::MissingField),
        }
    } else if str_eq(kind, "repeat0") {
        match find(entries, "children") {
            Some(child) => match rule_of(child) {
                Ok(child) => Ok(Rule::Repeat0 { id, child: Box::new(child) }),
                Err(e) => Err(e),
            },
            None => Err(SchemaError::MissingField),
        }
    } else if str_eq(kind, "until_byte") {
        match find(entries, "byte") {
            Some(held) => match byte_of(held) {
                Ok(sentinel) => Ok(Rule::UntilByte { id, sentinel }),
                Err(e) => Err(e),
            },
            None => Err(SchemaError::MissingField),
        }
    } else if str_eq(kind, "tuple") {
        match find(entries, "items") {
            Some(Document::Sequence(list)) => {
                proof {
                    let at = index_of(entries_view(entries@), "items"@) as int;
                    lemma_sequence_view(entries@[at].1);
                }
                match rules_of(list) {
                    Ok(items) => {
                        let rule = Rule::Tuple { id, items };
                        proof {
                            assert(rule@->Tuple_items =~= rules_view(items@));
                        }
                        Ok(rule)
                    },
                    Err(e) => Err(e),
                }
            },
            Some(_) => Err(SchemaError::WrongType),
            None => Err(SchemaError::MissingField),
        }
    } else if str_eq(kind, "constants") {
        match find(entries, "constants") {
            Some(Document::Sequence(list)) => {
                proof {
                    let at = index_of(entries_view(entries@), "constants"@) as int;
                    lemma_sequence_view(entries@[at].1);
                }
                match bytes_of(list) {
                    Ok(bytes) => Ok(Rule::Constants { id, bytes }),
                    Err(e) => Err(e),
                }
            },
            Some(_) => Err(SchemaError::WrongType),
            None => Err(SchemaError::MissingField),
        }
    } else if str_eq(kind, "u16") {
        Ok(Rule::FixedWidthInteger { id, width: IntegerWidth::Two })
    } else if str_eq(kind, "u32") {
        Ok(Rule::FixedWidthInteger { id, width: IntegerWidth::Four })
    } else if str_eq(kind, "skim") {
        match find(entries, "len_bytes") {
            Some(held) => match expression_of(held) {
                Ok(length) => Ok(Rule::RawSpan { id, length }),
                Err(e) => Err(e),
            },
            None => Err(SchemaError::MissingField),
        }
    } else {
        Ok(Rule::Unknown)
    }
}

/// The rules that a list of documents describes.
pub fn rules_of(docs: &Vec<Document>) -> (made: Result<Vec<Rule>, SchemaError>)
    ensures
        match made {
            Ok(list) => compile_rules(documents_view(docs@)) == Ok::<Seq<RuleView>, SchemaError>(
                rules_view(list@),
            ),
            Err(e) => compile_rules(documents_view(docs@)) == Err::<Seq<RuleView>, SchemaError>(e),
        },
    decreases docs, 1nat,
{
    let ghost views = documents_view(docs@);
    let mut list: Vec<Rule> = Vec::new();
    let mut i: usize = 0;
    proof {
        assert(views.take(0) =~= Seq::empty());
        assert(rules_view(list@) =~= Seq::empty());
    }
    while i < docs.len()
        invariant
            i <= docs.len(),
            views == documents_view(docs@),
            compile_rules(views.take(i as int)) == Ok::<Seq<RuleView>, SchemaError>(
                rules_view(list@),
            ),
        decreases docs.len() - i,
    {
        proof {
            assert(views.take(i + 1).drop_last() =~= views.take(i as int));
            assert(views.take(i + 1).last() == docs@[i as int]@);
        }
        match rule_of(&docs[i]) {
            Ok(r) => {
                proof {
                    assert(rules_view(list@.push(r)) =~= rules_view(list@).push(r@));
                }
                list.push(r);
            },
            Err(e) => {
                proof {
                    lemma_rules_fail_from_prefix(views, i + 1);
                }
                return Err(e);
            },
        }
        i = i + 1;
    }
    proof {
        assert(views.take(i as int) =~= views);
    }
    Ok(list)
}

} // verus!
