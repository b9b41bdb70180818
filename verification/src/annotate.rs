//! The second pass over a tree: every child gets its name and every node its
//! explanation, from the leaves up.

use crate::parsers::Parsers;
use crate::tree::{
    children_view, in_bounds, lemma_view_children, NamedNode, Node, ParsedData,
};
use vstd::prelude::*;
use vstd::slice::slice_subrange;

verus! {

/// The name of a child once its parent has asked for it: the format's name
/// where the parent has an identifier, the name it had otherwise.
pub open spec fn named(
    parser: Parsers,
    parent_id: Option<Seq<char>>,
    child: NamedNode,
) -> NamedNode {
    match parent_id {
        Some(id) => NamedNode { name: parser.name_of(id, child.data), data: child.data },
        None => child,
    }
}

/// The explanation of a node whose children are named: the format's
/// explanation where the node has an identifier, the one it had otherwise.
pub open spec fn explained(parser: Parsers, data: Seq<u8>, node: Node) -> Node {
    match node.id {
        Some(id) => Node {
            explain: parser.explanation_of(
                id,
                data.subrange(node.min_index, node.max_index),
                node,
            ),
            ..node
        },
        None => node,
    }
}

/// A tree after the pass. Every child is annotated first and then named by
/// its parent; a node is explained once all its children are named. Ranges
/// and nesting stay as they are.
pub open spec fn annotated(parser: Parsers, data: Seq<u8>, node: Node) -> Node
    decreases node,
{
    let children = Seq::new(
        node.children.len(),
        |i: int|
            if 0 <= i < node.children.len() {
                named(
                    parser,
                    node.id,
                    NamedNode {
                        name: node.children[i].name,
                        data: annotated(parser, data, node.children[i].data),
                    },
                )
            } else {
                arbitrary()
            },
    );
    explained(parser, data, Node { children, ..node })
}

/// Names every child in the tree under `p` and explains every node of it,
/// from the leaves up.
pub fn name(parser: &Parsers, data: &Vec<u8>, p: &mut ParsedData)
    requires
        in_bounds(old(p)@, data@.len() as int),
    ensures
        final(p)@ == annotated(*parser, data@, old(p)@),
    decreases *old(p),
{
    let n = p.children.len();
    let mut i: usize = 0;
    proof {
        lemma_view_children(*p);
    }
    while i < n
        invariant
            i <= n,
            n == p.children@.len(),
            n == old(p).children@.len(),
            p.id == old(p).id,
            p.explain == old(p).explain,
            p.min_index == old(p).min_index,
            p.max_index == old(p).max_index,
            in_bounds(old(p)@, data@.len() as int),
            old(p)@.children == children_view(old(p).children@),
            forall|j: int| i <= j < n ==> p.children@[j] == old(p).children@[j],
            forall|j: int|
                0 <= j < i ==> (#[trigger] p.children@[j])@ == annotated(
                    *parser,
                    data@,
                    old(p)@,
                ).children[j],
        decreases n - i,
    {
        proof {
            assert(old(p)@.children[i as int] == old(p).children@[i as int]@);
        }
        name(parser, data, &mut p.children[i].data);
        if let Some(id) = &p.id {
            let given = parser.ask_name(id.as_str(), &p.children[i].data);
            p.children[i].name = given;
        }
        i = i + 1;
    }
    proof {
        lemma_view_children(*p);
        assert(p@.children =~= annotated(*parser, data@, old(p)@).children);
    }
    if let Some(id) = &p.id {
        let raw_bytes = slice_subrange(data.as_slice(), p.min_index, p.max_index);
        let explain = parser.ask_explain(id.as_str(), raw_bytes, p);
        p.explain = explain;
    }
}

} // verus!
