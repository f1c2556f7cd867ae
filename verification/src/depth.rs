//! Depth-list nesting: converting a flat, ordered sequence of
//! (indentation depth, payload) pairs into a nested forest.
//!
//! Each entry becomes a node; the maximal contiguous run of entries that
//! immediately follow a node and have a strictly greater depth becomes the
//! node's sub-list.  Only the relative order of depth values matters, never
//! their magnitude: a jump from depth 0 to depth 4 opens exactly one level.
//! The algorithm is domain-independent and is reused by every
//! indentation-sensitive construct of the grammar.

use vstd::prelude::*;

verus! {

/// One node of the forest produced by nesting: either the payload of a
/// single entry, or a sub-list holding the nodes that were nested under
/// the payload standing immediately before it.
#[derive(Debug, PartialEq, Eq)]
pub enum DepthItem<T> {
    Item(T),
    List(Vec<DepthItem<T>>),
}

/// An ordered forest of nested payloads.
pub type DepthList<T> = Vec<DepthItem<T>>;

/// The mathematical image of a [`DepthItem`], with sequences for vectors.
pub enum DepthNode<T> {
    Item(T),
    List(Seq<DepthNode<T>>),
}

/// The mathematical image of one [`DepthItem`].
pub open spec fn depth_item_view<T>(item: DepthItem<T>) -> DepthNode<T>
    decreases item,
{
    match item {
        DepthItem::Item(t) => DepthNode::Item(t),
        DepthItem::List(v) => DepthNode::List(depth_list_view(v@)),
    }
}

/// The mathematical image of a [`DepthList`].
pub open spec fn depth_list_view<T>(list: Seq<DepthItem<T>>) -> Seq<DepthNode<T>>
    decreases list,
{
    if list.len() == 0 {
        Seq::empty()
    } else {
        seq![depth_item_view(list[0])] + depth_list_view(list.subrange(1, list.len() as int))
    }
}

/// `depth_list_view` maps `depth_item_view` over the list, element by
/// element.
pub proof fn lemma_depth_list_view_pointwise<T>(list: Seq<DepthItem<T>>)
    ensures
        depth_list_view(list).len() == list.len(),
        forall|i: int|
            0 <= i < list.len() ==> depth_list_view(list)[i] == depth_item_view(list[i]),
    decreases list.len(),
{
    if list.len() > 0 {
        lemma_depth_list_view_pointwise(list.subrange(1, list.len() as int));
    }
}

/// The end of the run of entries nested under the entry before position
/// `i`: the first position at or after `i` whose depth is not strictly
/// greater than `d0`, or the length of the sequence if every remaining
/// depth is strictly greater.
pub open spec fn run_end<T>(entries: Seq<(usize, T)>, d0: usize, i: int) -> int
    decreases entries.len() - i,
{
    if i < 0 || i >= entries.len() {
        entries.len() as int
    } else if entries[i].0 <= d0 {
        i
    } else {
        run_end(entries, d0, i + 1)
    }
}

pub proof fn lemma_run_end_bounds<T>(entries: Seq<(usize, T)>, d0: usize, i: int)
    requires
        0 <= i <= entries.len(),
    ensures
        i <= run_end(entries, d0, i) <= entries.len(),
    decreases entries.len() - i,
{
    if i < entries.len() && entries[i].0 > d0 {
        lemma_run_end_bounds(entries, d0, i + 1);
    }
}

/// The nested forest that a flat depth list denotes.  The first entry is a
/// node; the contiguous run of strictly deeper entries after it, nested
/// among themselves, forms its sub-list; the remainder of the sequence
/// continues as its siblings.
pub open spec fn nest_spec<T>(entries: Seq<(usize, T)>) -> Seq<DepthNode<T>>
    decreases entries.len(),
    via nest_spec_decreases::<T>
{
    if entries.len() == 0 {
        Seq::empty()
    } else {
        let d0 = entries[0].0;
        let k = run_end(entries, d0, 1);
        let children = nest_spec(entries.subrange(1, k));
        let rest = nest_spec(entries.subrange(k, entries.len() as int));
        if k > 1 {
            seq![DepthNode::Item(entries[0].1), DepthNode::List(children)] + rest
        } else {
            seq![DepthNode::Item(entries[0].1)] + rest
        }
    }
}

#[via_fn]
proof fn nest_spec_decreases<T>(entries: Seq<(usize, T)>) {
    if entries.len() > 0 {
        lemma_run_end_bounds(entries, entries[0].0, 1);
    }
}

/// `run_end` is exactly characterized by its two defining properties:
/// every depth strictly inside the run exceeds `d0`, and the position the
/// run stops at (if any remains) does not.
proof fn lemma_run_end_char<T>(entries: Seq<(usize, T)>, d0: usize, i: int, k: int)
    requires
        0 <= i <= k <= entries.len(),
        forall|j: int| i <= j < k ==> #[trigger] entries[j].0 > d0,
        k < entries.len() ==> entries[k].0 <= d0,
    ensures
        run_end(entries, d0, i) == k,
    decreases entries.len() - i,
{
    if i < entries.len() && entries[i].0 > d0 {
        lemma_run_end_char(entries, d0, i + 1, k);
    }
}

/// Nest a flat depth list into a forest.
///
/// The result is fully determined by [`nest_spec`]: payloads are kept in
/// order, and each maximal run of strictly deeper entries becomes the
/// sub-list of the entry before it.
pub fn process_depths<T>(entries: Vec<(usize, T)>) -> (forest: DepthList<T>)
    ensures
        depth_list_view(forest@) == nest_spec(entries@),
    decreases entries@.len(),
{
    let ghost input = entries@;
    let mut entries = entries;
    if entries.len() == 0 {
        let forest: DepthList<T> = Vec::new();
        assert(depth_list_view(forest@) =~= nest_spec(input));
        return forest;
    }
    let d0 = entries[0].0;
    let mut k: usize = 1;
    while k < entries.len() && entries[k].0 > d0
        invariant
            entries@ == input,
            d0 == input[0].0,
            1 <= k <= input.len(),
            forall|j: int| 1 <= j < k ==> #[trigger] input[j].0 > d0,
        decreases input.len() - k,
    {
        k = k + 1;
    }
    proof {
        lemma_run_end_char(input, d0, 1, k as int);
    }

    let rest = entries.split_off(k);
    let first = entries.remove(0);
    assert(entries@ =~= input.subrange(1, k as int));
    assert(rest@ =~= input.subrange(k as int, input.len() as int));

    let children = process_depths(entries);
    let mut rest_forest = process_depths(rest);
    let ghost rest_view = rest_forest@;

    let mut forest: DepthList<T> = Vec::new();
    forest.push(DepthItem::Item(first.1));
    if k > 1 {
        forest.push(DepthItem::List(children));
    }
    forest.append(&mut rest_forest);
    proof {
        lemma_depth_list_view_pointwise(forest@);
        lemma_depth_list_view_pointwise(rest_view);
    }
    assert(depth_list_view(forest@) =~= nest_spec(input));
    forest
}

/// Nesting cares only about the relative order of depths.  Two entry
/// sequences with the same payloads whose depths compare identically at
/// every pair of positions denote the same forest, whatever the absolute
/// depth values are.
pub proof fn lemma_nest_relative_order<T>(a: Seq<(usize, T)>, b: Seq<(usize, T)>)
    requires
        a.len() == b.len(),
        forall|i: int| 0 <= i < a.len() ==> a[i].1 == b[i].1,
        forall|i: int, j: int|
            0 <= i < a.len() && 0 <= j < a.len() ==> ((a[i].0 < a[j].0) <==> (b[i].0 < b[j].0)),
    ensures
        nest_spec(a) == nest_spec(b),
    decreases a.len(),
{
    if a.len() == 0 {
        assert(nest_spec(a) =~= nest_spec(b));
    } else {
        let ka = run_end(a, a[0].0, 1);
        lemma_run_end_bounds(a, a[0].0, 1);
        assert(forall|j: int| 1 <= j < ka ==> #[trigger] a[j].0 > a[0].0) by {
            lemma_run_end_strict(a, a[0].0, 1);
        }
        assert(forall|j: int| 1 <= j < ka ==> #[trigger] b[j].0 > b[0].0);
        if ka < a.len() {
            lemma_run_end_stop(a, a[0].0, 1);
            assert(a[ka].0 <= a[0].0);
            assert(b[ka].0 <= b[0].0);
        }
        lemma_run_end_char(b, b[0].0, 1, ka);

        let a1 = a.subrange(1, ka);
        let b1 = b.subrange(1, ka);
        lemma_nest_relative_order(a1, b1);
        let a2 = a.subrange(ka, a.len() as int);
        let b2 = b.subrange(ka, b.len() as int);
        lemma_nest_relative_order(a2, b2);
        assert(nest_spec(a) =~= nest_spec(b));
    }
}

/// Every depth strictly inside a run exceeds the bound the run was taken
/// against.
proof fn lemma_run_end_strict<T>(entries: Seq<(usize, T)>, d0: usize, i: int)
    requires
        0 <= i <= entries.len(),
    ensures
        forall|j: int| i <= j < run_end(entries, d0, i) ==> #[trigger] entries[j].0 > d0,
    decreases entries.len() - i,
{
    if i < entries.len() && entries[i].0 > d0 {
        lemma_run_end_strict(entries, d0, i + 1);
    }
}

/// If a run stops before the end of the sequence, it stops at a depth
/// that does not exceed the bound.
proof fn lemma_run_end_stop<T>(entries: Seq<(usize, T)>, d0: usize, i: int)
    requires
        0 <= i <= entries.len(),
        run_end(entries, d0, i) < entries.len(),
    ensures
        entries[run_end(entries, d0, i)].0 <= d0,
    decreases entries.len() - i,
{
    if i < entries.len() && entries[i].0 > d0 {
        lemma_run_end_stop(entries, d0, i + 1);
    }
}

} // verus!
