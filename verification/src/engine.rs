//! The rule engine: it walks a rule tree over a buffer and builds the tree of
//! nodes, binding variables as it reads integer fields.

use crate::context::ParseContext;
use crate::expression::{evaluate, Expression};
use crate::laws::law_ranges_in_bounds;
use crate::rule::{rules_view, IntegerWidth, Rule, RuleView};
use crate::semantics::{
    branch, constants_match, constants_outcome, failure_node, integer_outcome, leaf,
    little_endian, remaining, run, run_items, run_repeat, run_repeat0, sentinel_end, span_outcome,
    unnamed, until_byte_outcome, Outcome,
};
use crate::tree::{
    children_view, clone_id, id_view, in_bounds, lemma_children_view_push, lemma_view_children,
    NamedNode, ParseResult, ParsedData, ParsedDataChild,
};
use vstd::prelude::*;

verus! {

/// Whether a result and the context it left behind are what `outcome` says.
pub open spec fn realizes(result: ParseResult, context: ParseContext, outcome: Outcome) -> bool {
    &&& result.body@ == outcome.node
    &&& result.new_min_index as int == outcome.cursor
    &&& context@ == outcome.vars
}

/// A node without explanation and without children.
fn leaf_node(id: &Option<String>, min_index: usize, max_index: usize) -> (node: ParsedData)
    ensures
        node@ == leaf(id_view(*id), min_index as int, max_index as int),
{
    let node = ParsedData {
        id: clone_id(id),
        explain: String::new(),
        min_index,
        max_index,
        children: Vec::new(),
    };
    proof {
        assert(node@.children =~= Seq::empty());
    }
    node
}

/// A node without explanation, with the given children.
fn branch_node(
    id: &Option<String>,
    min_index: usize,
    max_index: usize,
    children: Vec<ParsedDataChild>,
) -> (node: ParsedData)
    ensures
        node@ == branch(
            id_view(*id),
            min_index as int,
            max_index as int,
            children_view(children@),
        ),
{
    let node = ParsedData {
        id: clone_id(id),
        explain: String::new(),
        min_index,
        max_index,
        children,
    };
    proof {
        lemma_view_children(node);
    }
    node
}

/// The failure node for the region from `min_index` to the end of `data`,
/// with the rest of the buffer used up.
pub fn parse_failure(data: &Vec<u8>, min_index: usize) -> (result: ParseResult)
    ensures
        result.body@ == failure_node(data@.len() as int, min_index as int),
        result.new_min_index == data@.len(),
{
    let body = ParsedData {
        id: None,
        explain: "parse failure".to_owned(),
        min_index,
        max_index: data.len(),
        children: Vec::new(),
    };
    proof {
        assert(body@.children =~= Seq::empty());
    }
    ParseResult { body, new_min_index: data.len() }
}

/// Reads a two-byte little-endian unsigned integer at `min_index` and binds
/// it to `id`, where there is one. Fails where fewer than two bytes are left.
pub fn parse_u16(
    id: &Option<String>,
    data: &Vec<u8>,
    min_index: usize,
    context: &mut ParseContext,
) -> (result: ParseResult)
    ensures
        realizes(
            result,
            *final(context),
            integer_outcome(id_view(*id), 2, data@, min_index as int, old(context)@),
        ),
{
    if min_index > data.len() || data.len() - min_index < 2 {
        return parse_failure(data, min_index);
    }
    let low: i64 = data[min_index] as i64;
    let high: i64 = data[min_index + 1] as i64;
    let value: i64 = low + 256 * high;
    proof {
        reveal_with_fuel(little_endian, 3);
        assert(value == little_endian(data@, min_index as int, 2));
    }
    if let Some(name) = id {
        context.insert_variable(name.clone(), value);
    }
    ParseResult { body: leaf_node(id, min_index, min_index + 2), new_min_index: min_index + 2 }
}

/// Reads a four-byte little-endian unsigned integer at `min_index` and binds
/// it to `id`, where there is one. Fails where fewer than four bytes are left.
pub fn parse_u32(
    id: &Option<String>,
    data: &Vec<u8>,
    min_index: usize,
    context: &mut ParseContext,
) -> (result: ParseResult)
    ensures
        realizes(
            result,
            *final(context),
            integer_outcome(id_view(*id), 4, data@, min_index as int, old(context)@),
        ),
{
    if min_index > data.len() || data.len() - min_index < 4 {
        return parse_failure(data, min_index);
    }
    let b0: i64 = data[min_index] as i64;
    let b1: i64 = data[min_index + 1] as i64;
    let b2: i64 = data[min_index + 2] as i64;
    let b3: i64 = data[min_index + 3] as i64;
    let value: i64 = b0 + 256 * (b1 + 256 * (b2 + 256 * b3));
    proof {
        reveal_with_fuel(little_endian, 5);
        assert(value == little_endian(data@, min_index as int, 4));
    }
    if let Some(name) = id {
        context.insert_variable(name.clone(), value);
    }
    ParseResult { body: leaf_node(id, min_index, min_index + 4), new_min_index: min_index + 4 }
}

/// Matches `constants` against the buffer at `min_index`. Fails, without a
/// partial match, where a byte differs or the buffer ends first.
pub fn parse_constants(
    id: &Option<String>,
    constants: &Vec<u8>,
    data: &Vec<u8>,
    min_index: usize,
    context: &mut ParseContext,
) -> (result: ParseResult)
    ensures
        realizes(
            result,
            *final(context),
            constants_outcome(id_view(*id), constants@, data@, min_index as int, old(context)@),
        ),
{
    let mut mut_min_index: usize = min_index;
    let mut k: usize = 0;
    while k < constants.len()
        invariant
            k <= constants.len(),
            mut_min_index == min_index + k,
            *context == *old(context),
            k > 0 ==> min_index + k <= data@.len() && data@.subrange(
                min_index as int,
                min_index + k,
            ) == constants@.take(k as int),
        decreases constants.len() - k,
    {
        if data.len() <= mut_min_index || data[mut_min_index] != constants[k] {
            proof {
                assert(!constants_match(data@, min_index as int, constants@)) by {
                    if constants_match(data@, min_index as int, constants@) {
                        let found = data@.subrange(
                            min_index as int,
                            min_index + constants@.len(),
                        );
                        assert(found[k as int] == constants@[k as int]);
                    }
                }
            }
            return parse_failure(data, min_index);
        }
        proof {
            assert(data@.subrange(min_index as int, min_index + k + 1) =~= constants@.take(
                k + 1,
            )) by {
                let before = data@.subrange(min_index as int, min_index + k);
                let after = data@.subrange(min_index as int, min_index + k + 1);
                assert forall|i: int| 0 <= i < k + 1 implies after[i] == constants@.take(
                    k + 1,
                )[i] by {
                    if i < k {
                        assert(before[i] == constants@.take(k as int)[i]);
                    }
                }
            }
        }
        mut_min_index = mut_min_index + 1;
        k = k + 1;
    }
    proof {
        assert(constants@.take(k as int) =~= constants@);
    }
    ParseResult { body: leaf_node(id, min_index, mut_min_index), new_min_index: mut_min_index }
}

/// Takes as many bytes as `len_bytes` evaluates to. Fails where the length
/// is unresolvable or negative, or fewer bytes are left.
pub fn parse_skim(
    id: &Option<String>,
    len_bytes: &Expression,
    data: &Vec<u8>,
    min_index: usize,
    context: &mut ParseContext,
) -> (result: ParseResult)
    ensures
        realizes(
            result,
            *final(context),
            span_outcome(
                id_view(*id),
                evaluate(len_bytes@, old(context)@),
                data@,
                min_index as int,
                old(context)@,
            ),
        ),
{
    let length = crate::expression::calc(len_bytes, context);
    match length {
        Some(n) => {
            if n < 0 || min_index > data.len() || ((data.len() - min_index) as u64) < (n as u64) {
                return parse_failure(data, min_index);
            }
            let len_bytes: usize = n as usize;
            ParseResult {
                body: leaf_node(id, min_index, min_index + len_bytes),
                new_min_index: min_index + len_bytes,
            }
        },
        None => parse_failure(data, min_index),
    }
}

/// Takes the bytes from `min_index` up to and including the first `byte`,
/// or up to the end of the buffer where there is none.
pub fn parse_until_byte(
    id: &Option<String>,
    byte: u8,
    data: &Vec<u8>,
    min_index: usize,
    context: &mut ParseContext,
) -> (result: ParseResult)
    ensures
        realizes(
            result,
            *final(context),
            until_byte_outcome(id_view(*id), byte, data@, min_index as int, old(context)@),
        ),
{
    let mut new_min_index: usize = data.len();
    let mut i: usize = min_index;
    while i < data.len()
        invariant_except_break
            new_min_index == data@.len(),
            min_index <= i,
            sentinel_end(data@, min_index as int, byte) == sentinel_end(data@, i as int, byte),
        ensures
            new_min_index == sentinel_end(data@, min_index as int, byte),
        decreases data.len() - i,
    {
        if data[i] == byte {
            new_min_index = i + 1;
            break;
        }
        i = i + 1;
    }
    ParseResult { body: leaf_node(id, min_index, new_min_index), new_min_index }
}

/// A child that its parent has not named.
fn unnamed_child(data: ParsedData) -> (child: ParsedDataChild)
    ensures
        child@ == unnamed(data@),
{
    ParsedDataChild { data, name: String::new() }
}

/// Applies `rule` to `data` at `min_index`. This never fails outward: where
/// the rule cannot be applied, the result is the failure node and the rest of
/// the buffer is used up.
pub fn parse_main(
    rule: &Rule,
    data: &Vec<u8>,
    min_index: usize,
    context: &mut ParseContext,
) -> (result: ParseResult)
    ensures
        realizes(result, *final(context), run(rule@, data@, min_index as int, old(context)@)),
        min_index <= data@.len() ==> in_bounds(result.body@, data@.len() as int),
    decreases rule, 0nat,
{
    proof {
        if min_index <= data@.len() {
            law_ranges_in_bounds(rule@, data@, min_index as int, old(context)@);
        }
    }
    match rule {
        Rule::Repeat { id, count, child } => {
            parse_repeat(id, count, child, data, min_index, context)
        },
        Rule::Repeat0 { id, child } => parse_repeat0(id, child, data, min_index, context),
        Rule::UntilByte { id, sentinel } => {
            parse_until_byte(id, *sentinel, data, min_index, context)
        },
        Rule::Tuple { id, items } => {
            proof {
                assert(rule@->Tuple_items =~= rules_view(items@));
            }
            parse_tuple(id, items, data, min_index, context)
        },
        Rule::Constants { id, bytes } => parse_constants(id, bytes, data, min_index, context),
        Rule::FixedWidthInteger { id, width } => match width {
            IntegerWidth::Two => parse_u16(id, data, min_index, context),
            IntegerWidth::Four => parse_u32(id, data, min_index, context),
        },
        Rule::RawSpan { id, length } => parse_skim(id, length, data, min_index, context),
        Rule::Unknown => parse_failure(data, min_index),
    }
}

/// Applies `child` as many times as `repeat_times` evaluates to, each time
/// where the application before it ended, and stops early where the buffer is
/// used up. Fails as a whole where the count is unresolvable.
pub fn parse_repeat(
    id: &Option<String>,
    repeat_times: &Expression,
    child: &Rule,
    data: &Vec<u8>,
    min_index: usize,
    context: &mut ParseContext,
) -> (result: ParseResult)
    ensures
        realizes(
            result,
            *final(context),
            run(
                RuleView::Repeat {
                    id: id_view(*id),
                    count: repeat_times@,
                    child: Box::new(child@),
                },
                data@,
                min_index as int,
                old(context)@,
            ),
        ),
    decreases child, 1nat,
{
    let repeat_times = match crate::expression::calc(repeat_times, context) {
        Some(times) => times,
        None => {
            return parse_failure(data, min_index);
        },
    };
    let ghost whole = run_repeat(
        child@,
        repeat_times as int,
        data@,
        min_index as int,
        old(context)@,
    );
    let mut children: Vec<ParsedDataChild> = Vec::new();
    let mut mut_min_index: usize = min_index;
    let mut done: i64 = 0;
    proof {
        assert(children_view(children@) =~= Seq::empty());
        assert(Seq::<NamedNode>::empty() + whole.children =~= whole.children);
    }
    while done < repeat_times && mut_min_index < data.len()
        invariant
            0 <= done,
            ({
                let rest = run_repeat(
                    child@,
                    repeat_times - done,
                    data@,
                    mut_min_index as int,
                    context@,
                );
                &&& whole.children == children_view(children@) + rest.children
                &&& whole.cursor == rest.cursor
                &&& whole.vars == rest.vars
            }),
        decreases repeat_times - done,
    {
        let ghost before = children_view(children@);
        let ghost rest = run_repeat(
            child@,
            repeat_times - done,
            data@,
            mut_min_index as int,
            context@,
        );
        let result = parse_main(child, data, mut_min_index, context);
        let ghost first = unnamed(result.body@);
        let next_min_index = result.new_min_index;
        let named = unnamed_child(result.body);
        proof {
            lemma_children_view_push(children@, named);
        }
        children.push(named);
        mut_min_index = next_min_index;
        done = done + 1;
        proof {
            let next = run_repeat(
                child@,
                repeat_times - done,
                data@,
                mut_min_index as int,
                context@,
            );
            assert(rest.children == seq![first] + next.children);
            assert(before + (seq![first] + next.children) =~= before.push(first)
                + next.children);
        }
    }
    ParseResult {
        body: branch_node(id, min_index, mut_min_index, children),
        new_min_index: mut_min_index,
    }
}

/// Applies `child` until the buffer is used up, each time where the
/// application before it ended. An application that takes nothing is the
/// last one.
pub fn parse_repeat0(
    id: &Option<String>,
    child: &Rule,
    data: &Vec<u8>,
    min_index: usize,
    context: &mut ParseContext,
) -> (result: ParseResult)
    ensures
        realizes(
            result,
            *final(context),
            run(
                RuleView::Repeat0 { id: id_view(*id), child: Box::new(child@) },
                data@,
                min_index as int,
                old(context)@,
            ),
        ),
    decreases child, 1nat,
{
    let ghost whole = run_repeat0(child@, data@, min_index as int, old(context)@);
    let mut children: Vec<ParsedDataChild> = Vec::new();
    let mut mut_min_index: usize = min_index;
    proof {
        assert(children_view(children@) =~= Seq::empty());
        assert(Seq::<NamedNode>::empty() + whole.children =~= whole.children);
    }
    loop
        invariant_except_break
            ({
                let rest = run_repeat0(child@, data@, mut_min_index as int, context@);
                &&& whole.children == children_view(children@) + rest.children
                &&& whole.cursor == rest.cursor
                &&& whole.vars == rest.vars
            }),
        ensures
            whole.children == children_view(children@),
            whole.cursor == mut_min_index,
            whole.vars == context@,
        decreases remaining(data@.len() as int, mut_min_index as int),
    {
        if data.len() <= mut_min_index {
            proof {
                assert(children_view(children@) + Seq::<NamedNode>::empty() =~= children_view(
                    children@,
                ));
            }
            break;
        }
        let ghost before = children_view(children@);
        let ghost rest = run_repeat0(child@, data@, mut_min_index as int, context@);
        let result = parse_main(child, data, mut_min_index, context);
        let ghost first = unnamed(result.body@);
        let next_min_index = result.new_min_index;
        let named = unnamed_child(result.body);
        proof {
            lemma_children_view_push(children@, named);
        }
        children.push(named);
        if next_min_index <= mut_min_index {
            mut_min_index = next_min_index;
            proof {
                assert(before + seq![first] =~= before.push(first));
            }
            break;
        }
        mut_min_index = next_min_index;
        proof {
            let next = run_repeat0(child@, data@, mut_min_index as int, context@);
            assert(rest.children == seq![first] + next.children);
            assert(before + (seq![first] + next.children) =~= before.push(first)
                + next.children);
        }
    }
    ParseResult {
        body: branch_node(id, min_index, mut_min_index, children),
        new_min_index: mut_min_index,
    }
}

/// Applies the items one after another, each where the one before it ended.
/// An item that would start beyond the end of the buffer becomes a failure
/// child named `*`, and the items after it are left out.
pub fn parse_tuple(
    id: &Option<String>,
    items: &Vec<Rule>,
    data: &Vec<u8>,
    min_index: usize,
    context: &mut ParseContext,
) -> (result: ParseResult)
    ensures
        realizes(
            result,
            *final(context),
            run(
                RuleView::Tuple { id: id_view(*id), items: rules_view(items@) },
                data@,
                min_index as int,
                old(context)@,
            ),
        ),
    decreases items, 1nat,
{
    let ghost whole = run_items(rules_view(items@), 0, data@, min_index as int, old(context)@);
    let mut children: Vec<ParsedDataChild> = Vec::new();
    let mut mut_min_index: usize = min_index;
    let mut k: usize = 0;
    proof {
        assert(children_view(children@) =~= Seq::empty());
        assert(Seq::<NamedNode>::empty() + whole.children =~= whole.children);
    }
    while k < items.len() && mut_min_index <= data.len()
        invariant
            k <= items.len(),
            ({
                let rest = run_items(
                    rules_view(items@),
                    k as int,
                    data@,
                    mut_min_index as int,
                    context@,
                );
                &&& whole.children == children_view(children@) + rest.children
                &&& whole.cursor == rest.cursor
                &&& whole.vars == rest.vars
            }),
        decreases items.len() - k,
    {
        let ghost before = children_view(children@);
        let ghost rest = run_items(
            rules_view(items@),
            k as int,
            data@,
            mut_min_index as int,
            context@,
        );
        let result = parse_main(&items[k], data, mut_min_index, context);
        let ghost first = unnamed(result.body@);
        let next_min_index = result.new_min_index;
        let named = unnamed_child(result.body);
        proof {
            lemma_children_view_push(children@, named);
        }
        children.push(named);
        mut_min_index = next_min_index;
        k = k + 1;
        proof {
            let next = run_items(
                rules_view(items@),
                k as int,
                data@,
                mut_min_index as int,
                context@,
            );
            assert(rest.children == seq![first] + next.children);
            assert(before + (seq![first] + next.children) =~= before.push(first)
                + next.children);
        }
    }
    if k < items.len() {
        let ghost before = children_view(children@);
        let failure = ParsedDataChild {
            name: "*".to_owned(),
            data: parse_failure(data, mut_min_index).body,
        };
        proof {
            lemma_children_view_push(children@, failure);
            assert(before + seq![failure@] =~= before.push(failure@));
        }
        children.push(failure);
    } else {
        proof {
            assert(children_view(children@) + Seq::<NamedNode>::empty() =~= children_view(
                children@,
            ));
        }
    }
    ParseResult {
        body: branch_node(id, min_index, mut_min_index, children),
        new_min_index: mut_min_index,
    }
}

} // verus!
