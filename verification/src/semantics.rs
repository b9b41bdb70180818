//! What applying a rule to a buffer means.
//!
//! The functions here are the mathematical account of the engine: for a rule,
//! a buffer, a position and the variables bound so far they give the node that
//! comes out, the position after it and the variables bound after it. The
//! executable engine is proved to compute exactly this.

use crate::expression::evaluate;
use crate::rule::RuleView;
use crate::tree::{NamedNode, Node};
use vstd::prelude::*;

verus! {

/// The result of applying a rule: the node, the position at which the next
/// rule starts, and the variables bound by then.
pub struct Outcome {
    pub node: Node,
    pub cursor: int,
    pub vars: Map<Seq<char>, i64>,
}

/// The children of a composite rule, the position after the last of them, and
/// the variables bound by then.
pub struct Progress {
    pub children: Seq<NamedNode>,
    pub cursor: int,
    pub vars: Map<Seq<char>, i64>,
}

/// A node without explanation and without children.
pub open spec fn leaf(id: Option<Seq<char>>, from: int, to: int) -> Node {
    Node { id, explain: Seq::empty(), min_index: from, max_index: to, children: Seq::empty() }
}

/// A node without explanation, with the given children.
pub open spec fn branch(
    id: Option<Seq<char>>,
    from: int,
    to: int,
    children: Seq<NamedNode>,
) -> Node {
    Node { id, explain: Seq::empty(), min_index: from, max_index: to, children }
}

/// The node that stands for a region that could not be read: it runs from
/// `cursor` to the end of the buffer.
pub open spec fn failure_node(len: int, cursor: int) -> Node {
    Node {
        id: None,
        explain: "parse failure"@,
        min_index: cursor,
        max_index: len,
        children: Seq::empty(),
    }
}

/// A rule that fails at `cursor`: the failure node, with the rest of the
/// buffer used up and no variable bound.
pub open spec fn failed(data: Seq<u8>, cursor: int, vars: Map<Seq<char>, i64>) -> Outcome {
    Outcome { node: failure_node(data.len() as int, cursor), cursor: data.len() as int, vars }
}

/// A child that its parent has not named.
pub open spec fn unnamed(node: Node) -> NamedNode {
    NamedNode { name: Seq::empty(), data: node }
}

/// The unsigned integer that `width` bytes at `at` spell, lowest byte first.
pub open spec fn little_endian(data: Seq<u8>, at: int, width: int) -> int
    decreases width,
{
    if width <= 0 {
        0
    } else {
        data[at] as int + 256 * little_endian(data, at + 1, width - 1)
    }
}

/// `vars`, with `id` bound to `value` where there is an `id`.
pub open spec fn bind(vars: Map<Seq<char>, i64>, id: Option<Seq<char>>, value: i64) -> Map<
    Seq<char>,
    i64,
> {
    match id {
        Some(name) => vars.insert(name, value),
        None => vars,
    }
}

/// A fixed-width integer: it fails where fewer than `width` bytes are left,
/// and binds its value otherwise.
pub open spec fn integer_outcome(
    id: Option<Seq<char>>,
    width: int,
    data: Seq<u8>,
    cursor: int,
    vars: Map<Seq<char>, i64>,
) -> Outcome {
    if cursor + width <= data.len() {
        Outcome {
            node: leaf(id, cursor, cursor + width),
            cursor: cursor + width,
            vars: bind(vars, id, little_endian(data, cursor, width) as i64),
        }
    } else {
        failed(data, cursor, vars)
    }
}

/// Whether `bytes` stand in `data` at `cursor`, every one of them.
pub open spec fn constants_match(data: Seq<u8>, cursor: int, bytes: Seq<u8>) -> bool {
    bytes.len() == 0 || (0 <= cursor && cursor + bytes.len() <= data.len() && data.subrange(
        cursor,
        cursor + bytes.len(),
    ) == bytes)
}

/// Literal bytes: they fail unless all of them stand at `cursor`.
pub open spec fn constants_outcome(
    id: Option<Seq<char>>,
    bytes: Seq<u8>,
    data: Seq<u8>,
    cursor: int,
    vars: Map<Seq<char>, i64>,
) -> Outcome {
    if constants_match(data, cursor, bytes) {
        Outcome {
            node: leaf(id, cursor, cursor + bytes.len()),
            cursor: cursor + bytes.len(),
            vars,
        }
    } else {
        failed(data, cursor, vars)
    }
}

/// A span of `length` bytes: it fails where `length` is unresolvable or
/// negative, or fewer bytes are left.
pub open spec fn span_outcome(
    id: Option<Seq<char>>,
    length: Option<i64>,
    data: Seq<u8>,
    cursor: int,
    vars: Map<Seq<char>, i64>,
) -> Outcome {
    match length {
        Some(n) => if 0 <= n && cursor + n <= data.len() {
            Outcome { node: leaf(id, cursor, cursor + n), cursor: cursor + n, vars }
        } else {
            failed(data, cursor, vars)
        },
        None => failed(data, cursor, vars),
    }
}

/// The position just after the first `sentinel` at or after `cursor`, or the
/// end of the buffer where there is none.
pub open spec fn sentinel_end(data: Seq<u8>, cursor: int, sentinel: u8) -> int
    decreases data.len() - cursor,
{
    if cursor < 0 || cursor >= data.len() {
        data.len() as int
    } else if data[cursor] == sentinel {
        cursor + 1
    } else {
        sentinel_end(data, cursor + 1, sentinel)
    }
}

/// Bytes up to a sentinel: this never fails.
pub open spec fn until_byte_outcome(
    id: Option<Seq<char>>,
    sentinel: u8,
    data: Seq<u8>,
    cursor: int,
    vars: Map<Seq<char>, i64>,
) -> Outcome {
    let end = sentinel_end(data, cursor, sentinel);
    Outcome { node: leaf(id, cursor, end), cursor: end, vars }
}

/// The distance from `cursor` to the end of a buffer of `len` bytes.
pub open spec fn remaining(len: int, cursor: int) -> nat {
    if cursor < len {
        (len - cursor) as nat
    } else {
        0
    }
}

/// The outcome of applying `rule` at `cursor`.
pub open spec fn run(
    rule: RuleView,
    data: Seq<u8>,
    cursor: int,
    vars: Map<Seq<char>, i64>,
) -> Outcome
    decreases rule, 0nat, 0nat,
{
    match rule {
        RuleView::FixedWidthInteger { id, width } => integer_outcome(
            id,
            width.len(),
            data,
            cursor,
            vars,
        ),
        RuleView::Constants { id, bytes } => constants_outcome(id, bytes, data, cursor, vars),
        RuleView::RawSpan { id, length } => span_outcome(
            id,
            evaluate(length, vars),
            data,
            cursor,
            vars,
        ),
        RuleView::UntilByte { id, sentinel } => until_byte_outcome(
            id,
            sentinel,
            data,
            cursor,
            vars,
        ),
        RuleView::Tuple { id, items } => {
            let done = run_items(items, 0, data, cursor, vars);
            Outcome {
                node: branch(id, cursor, done.cursor, done.children),
                cursor: done.cursor,
                vars: done.vars,
            }
        },
        RuleView::Repeat { id, count, child } => match evaluate(count, vars) {
            Some(times) => {
                let done = run_repeat(*child, times as int, data, cursor, vars);
                Outcome {
                    node: branch(id, cursor, done.cursor, done.children),
                    cursor: done.cursor,
                    vars: done.vars,
                }
            },
            None => failed(data, cursor, vars),
        },
        RuleView::Repeat0 { id, child } => {
            let done = run_repeat0(*child, data, cursor, vars);
            Outcome {
                node: branch(id, cursor, done.cursor, done.children),
                cursor: done.cursor,
                vars: done.vars,
            }
        },
        RuleView::Unknown => failed(data, cursor, vars),
    }
}

/// The items of a tuple from the `k`-th on, each starting where the one
/// before it ended. An item that would start beyond the end of the buffer
/// becomes a failure child named `*`, and ends the tuple.
pub open spec fn run_items(
    items: Seq<RuleView>,
    k: int,
    data: Seq<u8>,
    cursor: int,
    vars: Map<Seq<char>, i64>,
) -> Progress
    decreases items, 1nat, items.len() - k,
{
    if k < 0 || k >= items.len() {
        Progress { children: Seq::empty(), cursor, vars }
    } else if cursor > data.len() {
        Progress {
            children: seq![
                NamedNode { name: "*"@, data: failure_node(data.len() as int, cursor) },
            ],
            cursor,
            vars,
        }
    } else {
        let first = run(items[k], data, cursor, vars);
        let rest = run_items(items, k + 1, data, first.cursor, first.vars);
        Progress {
            children: seq![unnamed(first.node)] + rest.children,
            cursor: rest.cursor,
            vars: rest.vars,
        }
    }
}

/// `child` applied up to `times` times, stopping where the buffer is used up.
pub open spec fn run_repeat(
    child: RuleView,
    times: int,
    data: Seq<u8>,
    cursor: int,
    vars: Map<Seq<char>, i64>,
) -> Progress
    decreases child, 1nat, times,
{
    if times <= 0 || cursor >= data.len() {
        Progress { children: Seq::empty(), cursor, vars }
    } else {
        let first = run(child, data, cursor, vars);
        let rest = run_repeat(child, times - 1, data, first.cursor, first.vars);
        Progress {
            children: seq![unnamed(first.node)] + rest.children,
            cursor: rest.cursor,
            vars: rest.vars,
        }
    }
}

/// `child` applied until the buffer is used up. An application that takes
/// nothing is the last: every further one would be the same.
pub open spec fn run_repeat0(
    child: RuleView,
    data: Seq<u8>,
    cursor: int,
    vars: Map<Seq<char>, i64>,
) -> Progress
    decreases child, 1nat, remaining(data.len() as int, cursor),
{
    if cursor >= data.len() {
        Progress { children: Seq::empty(), cursor, vars }
    } else {
        let first = run(child, data, cursor, vars);
        if first.cursor <= cursor {
            Progress { children: seq![unnamed(first.node)], cursor: first.cursor, vars: first.vars }
        } else {
            let rest = run_repeat0(child, data, first.cursor, first.vars);
            Progress {
                children: seq![unnamed(first.node)] + rest.children,
                cursor: rest.cursor,
                vars: rest.vars,
            }
        }
    }
}

} // verus!
