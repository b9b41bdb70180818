//! What holds of every tree that the engine produces.

use crate::annotate::annotated;
use crate::expression::{evaluate, round_up_to_multiple};
use crate::parsers::Parsers;
use crate::rule::RuleView;
use crate::semantics::{
    remaining, run, run_items, run_repeat, run_repeat0, sentinel_end, unnamed, Outcome, Progress,
};
use crate::tree::{all_in_bounds, in_bounds, NamedNode, Node};
use vstd::prelude::*;

verus! {

/// Whether `children` lie one after another from `from` to `to`: each starts
/// where the one before it ends, the first starts at `from` and the last ends
/// at `to`. Without children, `from` is `to`.
pub open spec fn contiguous(children: Seq<NamedNode>, from: int, to: int) -> bool {
    &&& forall|i: int|
        0 <= i < children.len() ==> (#[trigger] children[i]).data.min_index
            <= children[i].data.max_index
    &&& forall|i: int|
        0 <= i < children.len() - 1 ==> (#[trigger] children[i]).data.max_index == children[i
            + 1].data.min_index
    &&& children.len() == 0 ==> from == to
    &&& children.len() > 0 ==> children[0].data.min_index == from && children[children.len()
        - 1].data.max_index == to
}

/// Whether an outcome is sound for a rule applied at `cursor`: its node runs
/// from `cursor` to the new position, which lies within the buffer, every
/// node of it is in bounds, and where nothing was taken nothing was bound.
pub open spec fn sound(o: Outcome, len: int, cursor: int, vars: Map<Seq<char>, i64>) -> bool {
    &&& o.node.min_index == cursor
    &&& o.node.max_index == o.cursor
    &&& cursor <= o.cursor <= len
    &&& in_bounds(o.node, len)
    &&& o.cursor == cursor ==> o.vars == vars
}

/// Whether the progress of a composite rule is sound: its children lie one
/// after another from `cursor` to the new position, which lies within the
/// buffer, every one of them is in bounds, and where nothing was taken
/// nothing was bound.
pub open spec fn sound_progress(
    p: Progress,
    len: int,
    cursor: int,
    vars: Map<Seq<char>, i64>,
) -> bool {
    &&& contiguous(p.children, cursor, p.cursor)
    &&& cursor <= p.cursor <= len
    &&& all_in_bounds(p.children, len)
    &&& p.cursor == cursor ==> p.vars == vars
}

/// A child put before children that lie one after another, where it ends
/// where they start, gives children that lie one after another.
pub proof fn lemma_contiguous_cons(first: NamedNode, rest: Seq<NamedNode>, to: int)
    requires
        first.data.min_index <= first.data.max_index,
        contiguous(rest, first.data.max_index, to),
    ensures
        contiguous(seq![first] + rest, first.data.min_index, to),
{
    let all = seq![first] + rest;
    assert forall|i: int| 0 <= i < all.len() implies (#[trigger] all[i]).data.min_index
        <= all[i].data.max_index by {
        if i > 0 {
            assert(all[i] == rest[i - 1]);
        }
    }
    assert forall|i: int| 0 <= i < all.len() - 1 implies (#[trigger] all[i]).data.max_index
        == all[i + 1].data.min_index by {
        assert(all[i + 1] == rest[i]);
        if i > 0 {
            assert(all[i] == rest[i - 1]);
        }
    }
    if rest.len() > 0 {
        assert(all[all.len() - 1] == rest[rest.len() - 1]);
    }
}

/// A child in bounds put before children in bounds gives children in bounds.
pub proof fn lemma_all_in_bounds_cons(first: NamedNode, rest: Seq<NamedNode>, len: int)
    requires
        in_bounds(first.data, len),
        all_in_bounds(rest, len),
    ensures
        all_in_bounds(seq![first] + rest, len),
{
    let all = seq![first] + rest;
    assert forall|i: int| 0 <= i < all.len() implies in_bounds((#[trigger] all[i]).data, len) by {
        if i > 0 {
            assert(all[i] == rest[i - 1]);
        }
    }
}

/// The position after a sentinel-delimited span lies after `cursor` and
/// within the buffer.
pub proof fn lemma_sentinel_end_bounds(data: Seq<u8>, cursor: int, sentinel: u8)
    requires
        0 <= cursor <= data.len(),
    ensures
        cursor <= sentinel_end(data, cursor, sentinel) <= data.len(),
        cursor < data.len() ==> cursor < sentinel_end(data, cursor, sentinel),
    decreases data.len() - cursor,
{
    if cursor < data.len() && data[cursor] != sentinel {
        lemma_sentinel_end_bounds(data, cursor + 1, sentinel);
    }
}

/// Every rule applied within the buffer has a sound outcome.
pub proof fn lemma_run_sound(rule: RuleView, data: Seq<u8>, cursor: int, vars: Map<Seq<char>, i64>)
    requires
        0 <= cursor <= data.len(),
    ensures
        sound(run(rule, data, cursor, vars), data.len() as int, cursor, vars),
    decreases rule, 0nat, 0nat,
{
    let len = data.len() as int;
    match rule {
        RuleView::FixedWidthInteger { id, width } => {},
        RuleView::Constants { id, bytes } => {},
        RuleView::RawSpan { id, length } => {},
        RuleView::UntilByte { id, sentinel } => {
            lemma_sentinel_end_bounds(data, cursor, sentinel);
        },
        RuleView::Tuple { id, items } => {
            lemma_items_sound(items, 0, data, cursor, vars);
        },
        RuleView::Repeat { id, count, child } => {
            match evaluate(count, vars) {
                Some(times) => {
                    lemma_repeat_sound(*child, times as int, data, cursor, vars);
                },
                None => {},
            }
        },
        RuleView::Repeat0 { id, child } => {
            lemma_repeat0_sound(*child, data, cursor, vars);
        },
        RuleView::Unknown => {},
    }
}

/// The items of a tuple applied within the buffer make sound progress.
pub proof fn lemma_items_sound(
    items: Seq<RuleView>,
    k: int,
    data: Seq<u8>,
    cursor: int,
    vars: Map<Seq<char>, i64>,
)
    requires
        0 <= cursor <= data.len(),
    ensures
        sound_progress(run_items(items, k, data, cursor, vars), data.len() as int, cursor, vars),
    decreases items, 1nat, items.len() - k,
{
    if 0 <= k < items.len() {
        let first = run(items[k], data, cursor, vars);
        lemma_run_sound(items[k], data, cursor, vars);
        let rest = run_items(items, k + 1, data, first.cursor, first.vars);
        lemma_items_sound(items, k + 1, data, first.cursor, first.vars);
        lemma_contiguous_cons(unnamed(first.node), rest.children, rest.cursor);
        lemma_all_in_bounds_cons(unnamed(first.node), rest.children, data.len() as int);
    }
}

/// A repeated rule applied within the buffer makes sound progress.
pub proof fn lemma_repeat_sound(
    child: RuleView,
    times: int,
    data: Seq<u8>,
    cursor: int,
    vars: Map<Seq<char>, i64>,
)
    requires
        0 <= cursor <= data.len(),
    ensures
        sound_progress(
            run_repeat(child, times, data, cursor, vars),
            data.len() as int,
            cursor,
            vars,
        ),
    decreases child, 1nat, times,
{
    if times > 0 && cursor < data.len() {
        let first = run(child, data, cursor, vars);
        lemma_run_sound(child, data, cursor, vars);
        let rest = run_repeat(child, times - 1, data, first.cursor, first.vars);
        lemma_repeat_sound(child, times - 1, data, first.cursor, first.vars);
        lemma_contiguous_cons(unnamed(first.node), rest.children, rest.cursor);
        lemma_all_in_bounds_cons(unnamed(first.node), rest.children, data.len() as int);
    }
}

/// A rule repeated to the end of the buffer makes sound progress.
pub proof fn lemma_repeat0_sound(
    child: RuleView,
    data: Seq<u8>,
    cursor: int,
    vars: Map<Seq<char>, i64>,
)
    requires
        0 <= cursor <= data.len(),
    ensures
        sound_progress(run_repeat0(child, data, cursor, vars), data.len() as int, cursor, vars),
    decreases child, 1nat, remaining(data.len() as int, cursor),
{
    if cursor < data.len() {
        let first = run(child, data, cursor, vars);
        lemma_run_sound(child, data, cursor, vars);
        if first.cursor <= cursor {
            lemma_contiguous_cons(unnamed(first.node), Seq::empty(), first.cursor);
            lemma_all_in_bounds_cons(unnamed(first.node), Seq::empty(), data.len() as int);
            assert(seq![unnamed(first.node)] + Seq::empty() =~= seq![unnamed(first.node)]);
        } else {
            let rest = run_repeat0(child, data, first.cursor, first.vars);
            lemma_repeat0_sound(child, data, first.cursor, first.vars);
            lemma_contiguous_cons(unnamed(first.node), rest.children, rest.cursor);
            lemma_all_in_bounds_cons(unnamed(first.node), rest.children, data.len() as int);
        }
    }
}

/// Every node of the tree that a rule produces within a buffer accounts for
/// a range of that buffer: `0 <= min_index <= max_index <= len`. The root
/// starts at the position at which the rule was applied and ends at the
/// position at which the next rule starts.
pub proof fn law_ranges_in_bounds(
    rule: RuleView,
    data: Seq<u8>,
    cursor: int,
    vars: Map<Seq<char>, i64>,
)
    requires
        0 <= cursor <= data.len(),
    ensures
        in_bounds(run(rule, data, cursor, vars).node, data.len() as int),
        run(rule, data, cursor, vars).node.min_index == cursor,
        run(rule, data, cursor, vars).node.max_index == run(rule, data, cursor, vars).cursor,
{
    lemma_run_sound(rule, data, cursor, vars);
}

/// The children of a tuple lie one after another without gap or overlap, and
/// the tuple's range runs from the start of the first to the end of the last.
pub proof fn law_tuple_children_contiguous(
    rule: RuleView,
    data: Seq<u8>,
    cursor: int,
    vars: Map<Seq<char>, i64>,
)
    requires
        rule is Tuple,
        0 <= cursor <= data.len(),
    ensures
        ({
            let node = run(rule, data, cursor, vars).node;
            contiguous(node.children, node.min_index, node.max_index)
        }),
{
    lemma_items_sound(rule->Tuple_items, 0, data, cursor, vars);
}

/// The children of a repetition, counted or not, lie one after another
/// without gap or overlap, and the repetition's range runs from the start of
/// the first to the end of the last.
pub proof fn law_repeat_children_contiguous(
    rule: RuleView,
    data: Seq<u8>,
    cursor: int,
    vars: Map<Seq<char>, i64>,
)
    requires
        rule is Repeat && evaluate(rule->Repeat_count, vars) is Some || rule is Repeat0,
        0 <= cursor <= data.len(),
    ensures
        ({
            let node = run(rule, data, cursor, vars).node;
            contiguous(node.children, node.min_index, node.max_index)
        }),
{
    match rule {
        RuleView::Repeat { id, count, child } => {
            lemma_repeat_sound(*child, evaluate(count, vars)->0 as int, data, cursor, vars);
        },
        RuleView::Repeat0 { id, child } => {
            lemma_repeat0_sound(*child, data, cursor, vars);
        },
        _ => {},
    }
}

/// A rule that takes nothing binds nothing: applying it again at the same
/// place gives the same outcome.
pub proof fn law_no_progress_no_binding(
    rule: RuleView,
    data: Seq<u8>,
    cursor: int,
    vars: Map<Seq<char>, i64>,
)
    requires
        0 <= cursor <= data.len(),
        run(rule, data, cursor, vars).cursor == cursor,
    ensures
        run(rule, data, cursor, vars).vars == vars,
{
    lemma_run_sound(rule, data, cursor, vars);
}

/// Whether `child` has the fixed width `w` on `data`: wherever `w` bytes are
/// left, it takes exactly those.
pub open spec fn fixed_width(child: RuleView, data: Seq<u8>, w: int) -> bool {
    forall|c: int, vars: Map<Seq<char>, i64>|
        0 <= c && c + w <= data.len() ==> {
            let o = #[trigger] run(child, data, c, vars);
            &&& o.cursor == c + w
            &&& o.node.min_index == c
            &&& o.node.max_index == c + w
        }
}

/// Whether `children` are `n` nodes of width `w` each, laid out one after
/// another from `from`.
pub open spec fn evenly_laid_out(children: Seq<NamedNode>, from: int, w: int, n: int) -> bool {
    &&& children.len() == n
    &&& forall|i: int|
        0 <= i < n ==> (#[trigger] children[i]).data.min_index == from + i * w
            && children[i].data.max_index == from + (i + 1) * w
}

/// An integer field has its width as fixed width.
pub proof fn lemma_integer_fixed_width(rule: RuleView, data: Seq<u8>)
    requires
        rule is FixedWidthInteger,
    ensures
        fixed_width(rule, data, rule->FixedWidthInteger_width.len()),
{
}

proof fn lemma_evenly_cons(first: NamedNode, rest: Seq<NamedNode>, from: int, w: int, n: int)
    requires
        n >= 1,
        first.data.min_index == from,
        first.data.max_index == from + w,
        evenly_laid_out(rest, from + w, w, n - 1),
    ensures
        evenly_laid_out(seq![first] + rest, from, w, n),
{
    let all = seq![first] + rest;
    assert forall|i: int| 0 <= i < n implies (#[trigger] all[i]).data.min_index == from + i * w
        && all[i].data.max_index == from + (i + 1) * w by {
        if i > 0 {
            assert(all[i] == rest[i - 1]);
            assert((from + w) + (i - 1) * w == from + i * w) by (nonlinear_arith);
            assert((from + w) + i * w == from + (i + 1) * w) by (nonlinear_arith);
        } else {
            assert(from + 0 * w == from);
            assert(from + (0 + 1) * w == from + w) by (nonlinear_arith);
        }
    }
}

proof fn lemma_repeat_fixed(
    child: RuleView,
    times: int,
    data: Seq<u8>,
    cursor: int,
    vars: Map<Seq<char>, i64>,
    w: int,
)
    requires
        w > 0,
        fixed_width(child, data, w),
        times >= 0,
        0 <= cursor,
        cursor + times * w <= data.len(),
    ensures
        evenly_laid_out(run_repeat(child, times, data, cursor, vars).children, cursor, w, times),
        run_repeat(child, times, data, cursor, vars).cursor == cursor + times * w,
    decreases times,
{
    if times > 0 {
        assert(times * w >= w) by (nonlinear_arith)
            requires
                times >= 1,
                w > 0,
        ;
        let first = run(child, data, cursor, vars);
        assert((cursor + w) + (times - 1) * w == cursor + times * w) by (nonlinear_arith);
        lemma_repeat_fixed(child, times - 1, data, first.cursor, first.vars, w);
        let rest = run_repeat(child, times - 1, data, first.cursor, first.vars);
        lemma_evenly_cons(unnamed(first.node), rest.children, cursor, w, times);
    } else {
        assert(cursor + 0 * w == cursor);
    }
}

proof fn lemma_repeat0_fixed(
    child: RuleView,
    data: Seq<u8>,
    cursor: int,
    vars: Map<Seq<char>, i64>,
    w: int,
    n: int,
)
    requires
        w > 0,
        fixed_width(child, data, w),
        n >= 0,
        0 <= cursor,
        cursor + n * w == data.len(),
    ensures
        evenly_laid_out(run_repeat0(child, data, cursor, vars).children, cursor, w, n),
        run_repeat0(child, data, cursor, vars).cursor == data.len(),
    decreases n,
{
    if n > 0 {
        assert(n * w >= w) by (nonlinear_arith)
            requires
                n >= 1,
                w > 0,
        ;
        let first = run(child, data, cursor, vars);
        assert((cursor + w) + (n - 1) * w == cursor + n * w) by (nonlinear_arith);
        lemma_repeat0_fixed(child, data, first.cursor, first.vars, w, n - 1);
        let rest = run_repeat0(child, data, first.cursor, first.vars);
        lemma_evenly_cons(unnamed(first.node), rest.children, cursor, w, n);
    } else {
        assert(cursor + 0 * w == cursor);
    }
}

/// A counted repetition of a child of fixed width `w`, over a buffer that
/// holds enough bytes for all `n` applications, has exactly `n` children of
/// width `w` each, laid out one after another, and ends after the last.
pub proof fn law_repeat_fixed_width(
    rule: RuleView,
    data: Seq<u8>,
    cursor: int,
    vars: Map<Seq<char>, i64>,
    w: int,
    n: int,
)
    requires
        rule is Repeat,
        evaluate(rule->Repeat_count, vars) == Some(n as i64),
        0 <= n <= i64::MAX,
        w > 0,
        fixed_width(*rule->Repeat_child, data, w),
        0 <= cursor,
        cursor + n * w <= data.len(),
    ensures
        ({
            let node = run(rule, data, cursor, vars).node;
            &&& evenly_laid_out(node.children, cursor, w, n)
            &&& node.min_index == cursor
            &&& node.max_index == cursor + n * w
        }),
{
    lemma_repeat_fixed(*rule->Repeat_child, n, data, cursor, vars, w);
}

/// An uncounted repetition of a child of fixed width `w`, over a rest of the
/// buffer that `w` divides, has as many children as `w` goes into that rest,
/// of width `w` each, laid out one after another, and ends at the end of the
/// buffer.
pub proof fn law_repeat0_fixed_width(
    rule: RuleView,
    data: Seq<u8>,
    cursor: int,
    vars: Map<Seq<char>, i64>,
    w: int,
)
    requires
        rule is Repeat0,
        w > 0,
        fixed_width(*rule->Repeat0_child, data, w),
        0 <= cursor <= data.len(),
        (data.len() - cursor) % w == 0,
    ensures
        ({
            let node = run(rule, data, cursor, vars).node;
            let n = (data.len() - cursor) / w;
            &&& evenly_laid_out(node.children, cursor, w, n)
            &&& node.min_index == cursor
            &&& node.max_index == data.len()
            &&& node.max_index == cursor + n * w
        }),
{
    let rest = data.len() - cursor;
    let n = rest / w;
    assert(n >= 0 && n * w == rest) by (nonlinear_arith)
        requires
            rest >= 0,
            w > 0,
            rest % w == 0,
            n == rest / w,
    ;
    lemma_repeat0_fixed(*rule->Repeat0_child, data, cursor, vars, w, n);
}

/// What the end of a sentinel-delimited span is: either no sentinel stands
/// from `cursor` on and the span runs to the end of the buffer, or the span
/// ends just after the first sentinel.
pub proof fn law_sentinel_end(data: Seq<u8>, cursor: int, sentinel: u8)
    requires
        0 <= cursor <= data.len(),
    ensures
        ({
            let end = sentinel_end(data, cursor, sentinel);
            &&& forall|i: int| cursor <= i < end - 1 ==> data[i] != sentinel
            &&& {
                ||| end == data.len() && (end == cursor || data[end - 1] != sentinel)
                ||| cursor < end <= data.len() && data[end - 1] == sentinel
            }
        }),
    decreases data.len() - cursor,
{
    if cursor < data.len() && data[cursor] != sentinel {
        law_sentinel_end(data, cursor + 1, sentinel);
        lemma_sentinel_end_bounds(data, cursor + 1, sentinel);
    }
}

/// Without a sentinel from `cursor` on, the span runs to the end of the
/// buffer.
pub proof fn law_until_byte_without_sentinel(
    rule: RuleView,
    data: Seq<u8>,
    cursor: int,
    vars: Map<Seq<char>, i64>,
)
    requires
        rule is UntilByte,
        0 <= cursor <= data.len(),
        forall|i: int| cursor <= i < data.len() ==> data[i] != rule->UntilByte_sentinel,
    ensures
        run(rule, data, cursor, vars).node.min_index == cursor,
        run(rule, data, cursor, vars).node.max_index == data.len(),
        run(rule, data, cursor, vars).cursor == data.len(),
{
    law_sentinel_end(data, cursor, rule->UntilByte_sentinel);
    lemma_sentinel_end_bounds(data, cursor, rule->UntilByte_sentinel);
}

/// Rounding a number that is not negative up to a multiple of a positive one
/// gives the least such multiple that is not below the number.
pub proof fn law_round_up_is_least_multiple(a: i64, b: i64)
    requires
        0 <= a,
        0 < b,
        round_up_to_multiple(a, b) is Some,
    ensures
        ({
            let r = round_up_to_multiple(a, b)->0 as int;
            &&& r % (b as int) == 0
            &&& a <= r < a + b
        }),
{
    let t = a + b - 1;
    let q = t / (b as int);
    let r = q * b;
    vstd::arithmetic::div_mod::lemma_fundamental_div_mod(t, b as int);
    vstd::arithmetic::div_mod::lemma_mod_bound(t, b as int);
    assert(t == b * q + t % (b as int));
    assert(b * q == q * b) by (nonlinear_arith);
    vstd::arithmetic::div_mod::lemma_mod_multiples_basic(q, b as int);
    assert(q >= 0) by {
        vstd::arithmetic::div_mod::lemma_div_pos_is_pos(t, b as int);
    }
}

/// The pass changes names and explanations only: identifiers, ranges and
/// nesting stay, and a tree that was in bounds still is.
pub proof fn law_annotation_keeps_shape(parser: Parsers, data: Seq<u8>, node: Node, len: int)
    ensures
        annotated(parser, data, node).id == node.id,
        annotated(parser, data, node).min_index == node.min_index,
        annotated(parser, data, node).max_index == node.max_index,
        annotated(parser, data, node).children.len() == node.children.len(),
        in_bounds(node, len) ==> in_bounds(annotated(parser, data, node), len),
    decreases node,
{
    let after = annotated(parser, data, node);
    if in_bounds(node, len) {
        assert forall|i: int| 0 <= i < after.children.len() implies in_bounds(
            (#[trigger] after.children[i]).data,
            len,
        ) by {
            law_annotation_keeps_shape(parser, data, node.children[i].data, len);
        }
    }
}

/// Running the pass a second time changes nothing: the tree that comes out
/// of the first run is the tree that comes out of the second.
pub proof fn law_annotation_idempotent(parser: Parsers, data: Seq<u8>, node: Node)
    ensures
        annotated(parser, data, annotated(parser, data, node)) == annotated(parser, data, node),
    decreases node,
{
    let once = annotated(parser, data, node);
    let twice = annotated(parser, data, once);
    assert(once.children.len() == node.children.len());
    assert forall|i: int| 0 <= i < once.children.len() implies twice.children[i]
        == once.children[i] by {
        law_annotation_idempotent(parser, data, node.children[i].data);
    }
    assert(twice.children =~= once.children);
}

} // verus!
