//! Reading schema documents that are written in YAML.
//!
//! The text is read by `serde_yaml`. What its functions return is taken on
//! trust, as stated on each of them below; the walk from the value that it
//! hands back to a [`Document`] is verified against those statements.

use crate::document::{Document, DocumentView};
use vstd::prelude::*;

verus! {

/// `serde_yaml::Value`: a YAML value. Nothing is known of what is inside one
/// but what the functions below say of it.
#[verifier::external_type_specification]
#[verifier::external_body]
pub struct ExValue(serde_yaml::Value);

/// `serde_yaml::Mapping`: a YAML mapping, whose keys and values are YAML
/// values.
#[verifier::external_type_specification]
#[verifier::external_body]
pub struct ExMapping(serde_yaml::Mapping);

/// `serde_yaml::Error`: why text could not be read as YAML.
#[verifier::external_type_specification]
#[verifier::external_body]
pub struct ExError(serde_yaml::Error);

/// The document that YAML text spells, where it spells one: what
/// `serde_yaml::from_slice` makes of the text.
pub uninterp spec fn yaml_document(text: Seq<u8>) -> Option<DocumentView>;

/// The document that a YAML value holds: an integer where `as_i64` gives
/// one, a string where `as_str` gives one, a sequence or a mapping where
/// `as_sequence` or `as_mapping` gives one, and `Other` where none of them
/// gives anything.
pub uninterp spec fn value_document(value: serde_yaml::Value) -> DocumentView;

/// The entries that a YAML mapping holds, in the order in which it walks them.
pub uninterp spec fn mapping_entries(mapping: serde_yaml::Mapping) -> Seq<
    (DocumentView, DocumentView),
>;

/// `serde_yaml::from_slice`, asked for a `Value`. Taken on trust: the same
/// text always gives the same outcome, which is either a value, whose
/// document is then the one that the text spells, or an error.
#[verifier::external_body]
fn yaml_from_slice(text: &[u8]) -> (parsed: Result<serde_yaml::Value, serde_yaml::Error>)
    ensures
        match parsed {
            Ok(value) => yaml_document(text@) == Some(value_document(value)),
            Err(_) => yaml_document(text@) is None,
        },
{
    serde_yaml::from_slice::<serde_yaml::Value>(text)
}

/// `serde_yaml::Value::as_i64`. Taken on trust: it gives the integer where
/// the value holds an integer that fits 64 signed bits, and nothing where it
/// holds anything else.
pub assume_specification[ serde_yaml::Value::as_i64 ](value: &serde_yaml::Value) -> (found: Option<
    i64,
>)
    ensures
        found == (match value_document(*value) {
            DocumentView::Integer(v) => Some(v),
            _ => None,
        }),
;

/// `serde_yaml::Value::as_str`. Taken on trust: it gives the string where the
/// value holds a string, and nothing where it holds anything else.
pub assume_specification<'a>[ serde_yaml::Value::as_str ](value: &'a serde_yaml::Value) -> (found:
    Option<&'a str>)
    ensures
        match value_document(*value) {
            DocumentView::Text(s) => found matches Some(text) && text@ == s,
            _ => found is None,
        },
;

/// `serde_yaml::Value::as_sequence`. Taken on trust: it gives the items, in
/// their order, where the value holds a sequence, and nothing where it holds
/// anything else.
pub assume_specification<'a>[ serde_yaml::Value::as_sequence ](
    value: &'a serde_yaml::Value,
) -> (found: Option<&'a Vec<serde_yaml::Value>>)
    ensures
        match value_document(*value) {
            DocumentView::Sequence(items) => found matches Some(list) && list@.len()
                == items.len() && forall|i: int|
                0 <= i < items.len() ==> value_document(#[trigger] list@[i]) == items[i],
            _ => found is None,
        },
;

/// `serde_yaml::Value::as_mapping`. Taken on trust: it gives the mapping
/// where the value holds one, and nothing where it holds anything else.
pub assume_specification<'a>[ serde_yaml::Value::as_mapping ](
    value: &'a serde_yaml::Value,
) -> (found: Option<&'a serde_yaml::Mapping>)
    ensures
        match value_document(*value) {
            DocumentView::Mapping(entries) => found matches Some(mapping) && mapping_entries(
                *mapping,
            ) == entries,
            _ => found is None,
        },
;

/// `serde_yaml::Mapping::iter`, collected into a list. Taken on trust: it
/// walks every entry of the mapping once, always in the same order, and hands
/// out the key and the value of each.
#[verifier::external_body]
fn mapping_pairs<'a>(mapping: &'a serde_yaml::Mapping) -> (pairs: Vec<
    (&'a serde_yaml::Value, &'a serde_yaml::Value),
>)
    ensures
        pairs@.len() == mapping_entries(*mapping).len(),
        forall|i: int|
            0 <= i < pairs@.len() ==> value_document(*(#[trigger] pairs@[i]).0) == mapping_entries(
                *mapping,
            )[i].0 && value_document(*pairs@[i].1) == mapping_entries(*mapping)[i].1,
{
    mapping.iter().collect()
}

/// The document that a YAML value holds.
fn document_of(value: &serde_yaml::Value) -> (doc: Document)
    ensures
        doc@ == value_document(*value),
    decreases value_document(*value),
{
    if let Some(v) = value.as_i64() {
        Document::Integer(v)
    } else if let Some(text) = value.as_str() {
        Document::Text(text.to_owned())
    } else if let Some(list) = value.as_sequence() {
        let ghost items = value_document(*value)->Sequence_0;
        let mut docs: Vec<Document> = Vec::new();
        let mut i: usize = 0;
        while i < list.len()
            invariant
                i <= list.len(),
                value_document(*value) == DocumentView::Sequence(items),
                list@.len() == items.len(),
                forall|j: int|
                    0 <= j < items.len() ==> value_document(#[trigger] list@[j]) == items[j],
                docs@.len() == i,
                forall|j: int| 0 <= j < i ==> (#[trigger] docs@[j])@ == items[j],
            decreases list.len() - i,
        {
            proof {
                assert(value_document(list@[i as int]) == items[i as int]);
                let whole = value_document(*value);
                assert(decreases_to!(whole => whole->Sequence_0[i as int]));
            }
            let doc = document_of(&list[i]);
            docs.push(doc);
            i = i + 1;
        }
        let doc = Document::Sequence(docs);
        proof {
            assert(doc@->Sequence_0 =~= items);
        }
        doc
    } else if let Some(mapping) = value.as_mapping() {
        let ghost entries = value_document(*value)->Mapping_0;
        let pairs = mapping_pairs(mapping);
        let mut docs: Vec<(Document, Document)> = Vec::new();
        let mut i: usize = 0;
        while i < pairs.len()
            invariant
                i <= pairs.len(),
                value_document(*value) == DocumentView::Mapping(entries),
                pairs@.len() == entries.len(),
                forall|j: int|
                    0 <= j < pairs@.len() ==> value_document(*(#[trigger] pairs@[j]).0)
                        == entries[j].0 && value_document(*pairs@[j].1) == entries[j].1,
                docs@.len() == i,
                forall|j: int|
                    0 <= j < i ==> (#[trigger] docs@[j]).0@ == entries[j].0 && docs@[j].1@
                        == entries[j].1,
            decreases pairs.len() - i,
        {
            proof {
                assert(value_document(*pairs@[i as int].0) == entries[i as int].0);
                let whole = value_document(*value);
                assert(decreases_to!(whole => whole->Mapping_0[i as int].0));
                assert(decreases_to!(whole => whole->Mapping_0[i as int].1));
            }
            let key = document_of(pairs[i].0);
            let held = document_of(pairs[i].1);
            docs.push((key, held));
            i = i + 1;
        }
        let doc = Document::Mapping(docs);
        proof {
            assert(doc@->Mapping_0 =~= entries);
        }
        doc
    } else {
        Document::Other
    }
}

/// Reads YAML text as a document; nothing where the text is no YAML document.
pub fn load(text: &[u8]) -> (doc: Option<Document>)
    ensures
        match doc {
            Some(d) => yaml_document(text@) == Some(d@),
            None => yaml_document(text@) is None,
        },
{
    match yaml_from_slice(text) {
        Ok(value) => Some(document_of(&value)),
        Err(_) => None,
    }
}

} // verus!
