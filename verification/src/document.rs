//! Schema documents: the hierarchical key/value form in which a format's
//! rules are written down.

use vstd::prelude::*;

verus! {

/// A value of a schema document.
#[derive(Debug, PartialEq, Eq)]
pub enum Document {
    /// An integer that fits 64 signed bits.
    Integer(i64),
    /// A string.
    Text(String),
    /// A list of values.
    Sequence(Vec<Document>),
    /// Keys and their values, in the order in which they were written.
    Mapping(Vec<(Document, Document)>),
    /// Any other value: null, a boolean, a number that is no such integer.
    Other,
}

/// What a [`Document`] stands for.
pub enum DocumentView {
    Integer(i64),
    Text(Seq<char>),
    Sequence(Seq<DocumentView>),
    Mapping(Seq<(DocumentView, DocumentView)>),
    Other,
}

/// What a document stands for.
pub open spec fn document_view(doc: Document) -> DocumentView
    decreases doc,
{
    match doc {
        Document::Integer(v) => DocumentView::Integer(v),
        Document::Text(s) => DocumentView::Text(s@),
        Document::Sequence(items) => DocumentView::Sequence(
            Seq::new(
                items@.len(),
                |i: int|
                    if 0 <= i < items@.len() {
                        document_view(items@[i])
                    } else {
                        arbitrary()
                    },
            ),
        ),
        Document::Mapping(entries) => DocumentView::Mapping(
            Seq::new(
                entries@.len(),
                |i: int|
                    if 0 <= i < entries@.len() {
                        (document_view(entries@[i].0), document_view(entries@[i].1))
                    } else {
                        arbitrary()
                    },
            ),
        ),
        Document::Other => DocumentView::Other,
    }
}

impl View for Document {
    type V = DocumentView;

    open spec fn view(&self) -> DocumentView {
        document_view(*self)
    }
}

/// What a list of documents stands for.
pub open spec fn documents_view(list: Seq<Document>) -> Seq<DocumentView> {
    Seq::new(list.len(), |i: int| list[i]@)
}

/// What a list of entries stands for.
pub open spec fn entries_view(list: Seq<(Document, Document)>) -> Seq<
    (DocumentView, DocumentView),
> {
    Seq::new(list.len(), |i: int| (list[i].0@, list[i].1@))
}

} // verus!
