//! The tree that a parse produces, and what it stands for.

use vstd::prelude::*;

verus! {

/// One element of the tree: the range `[min_index, max_index)` of the buffer
/// that it accounts for, what it is and what it is made of.
#[derive(Debug, PartialEq, Eq)]
pub struct ParsedData {
    pub id: Option<String>,
    pub explain: String,
    pub min_index: usize,
    pub max_index: usize,
    pub children: Vec<ParsedDataChild>,
}

/// A node together with the name under which its parent shows it.
#[derive(Debug, PartialEq, Eq)]
pub struct ParsedDataChild {
    pub data: ParsedData,
    pub name: String,
}

/// A node and the position at which the next rule starts.
#[derive(Debug, PartialEq, Eq)]
pub struct ParseResult {
    pub body: ParsedData,
    pub new_min_index: usize,
}

/// What a [`ParsedData`] stands for.
pub struct Node {
    pub id: Option<Seq<char>>,
    pub explain: Seq<char>,
    pub min_index: int,
    pub max_index: int,
    pub children: Seq<NamedNode>,
}

/// What a [`ParsedDataChild`] stands for.
pub struct NamedNode {
    pub name: Seq<char>,
    pub data: Node,
}

/// The characters of an identifier, where there is one.
pub open spec fn id_view(id: Option<String>) -> Option<Seq<char>> {
    match id {
        Some(s) => Some(s@),
        None => None,
    }
}

/// What a node stands for.
pub open spec fn node_of(node: ParsedData) -> Node
    decreases node,
{
    Node {
        id: id_view(node.id),
        explain: node.explain@,
        min_index: node.min_index as int,
        max_index: node.max_index as int,
        children: Seq::new(
            node.children@.len(),
            |i: int|
                if 0 <= i < node.children@.len() {
                    NamedNode {
                        name: node.children@[i].name@,
                        data: node_of(node.children@[i].data),
                    }
                } else {
                    arbitrary()
                },
        ),
    }
}

impl View for ParsedData {
    type V = Node;

    open spec fn view(&self) -> Node {
        node_of(*self)
    }
}

impl View for ParsedDataChild {
    type V = NamedNode;

    open spec fn view(&self) -> NamedNode {
        NamedNode { name: self.name@, data: self.data@ }
    }
}

/// Whether every node of a tree accounts for a range of a buffer of `len`
/// bytes: `0 <= min_index <= max_index <= len`.
pub open spec fn in_bounds(node: Node, len: int) -> bool
    decreases node,
{
    &&& 0 <= node.min_index <= node.max_index <= len
    &&& forall|i: int|
        0 <= i < node.children.len() ==> in_bounds((#[trigger] node.children[i]).data, len)
}

/// Whether every one of `children` is in bounds.
pub open spec fn all_in_bounds(children: Seq<NamedNode>, len: int) -> bool {
    forall|i: int| 0 <= i < children.len() ==> in_bounds((#[trigger] children[i]).data, len)
}

/// What a list of children stands for.
pub open spec fn children_view(children: Seq<ParsedDataChild>) -> Seq<NamedNode> {
    Seq::new(children.len(), |i: int| children[i]@)
}

/// The children of a node's view are the views of its children.
pub proof fn lemma_view_children(node: ParsedData)
    ensures
        node@.children == children_view(node.children@),
{
    assert(node@.children =~= children_view(node.children@));
}

/// Adding a child adds its view.
pub proof fn lemma_children_view_push(children: Seq<ParsedDataChild>, child: ParsedDataChild)
    ensures
        children_view(children.push(child)) == children_view(children).push(child@),
{
    assert(children_view(children.push(child)) =~= children_view(children).push(child@));
}

/// A copy of an identifier.
pub fn clone_id(id: &Option<String>) -> (copy: Option<String>)
    ensures
        id_view(copy) == id_view(*id),
{
    match id {
        Some(s) => Some(s.clone()),
        None => None,
    }
}

/// Whether every node of the tree under `node` accounts for a range of a
/// buffer of `len` bytes.
pub fn check_bounds(node: &ParsedData, len: usize) -> (ok: bool)
    ensures
        ok == in_bounds(node@, len as int),
    decreases node,
{
    proof {
        lemma_view_children(*node);
    }
    if node.min_index > node.max_index || node.max_index > len {
        return false;
    }
    let mut i: usize = 0;
    while i < node.children.len()
        invariant
            i <= node.children.len(),
            node@.children == children_view(node.children@),
            forall|j: int|
                0 <= j < i ==> in_bounds((#[trigger] node@.children[j]).data, len as int),
        decreases node.children.len() - i,
    {
        if !check_bounds(&node.children[i].data, len) {
            proof {
                assert(node@.children[i as int].data == node.children@[i as int].data@);
            }
            return false;
        }
        proof {
            assert(node@.children[i as int].data == node.children@[i as int].data@);
        }
        i = i + 1;
    }
    true
}

} // verus!
