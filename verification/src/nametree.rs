//! Flattening of name trees and number trees.
//!
//! A tree node is a dictionary. A node with a `Kids` array is a branch: its
//! pairs are those of its kids, in order. Any other node is a leaf: its pairs
//! are the items of its `Names` array (`Nums` in a number tree), two by two.

use vstd::prelude::*;
use crate::graph::{GraphValue, ObjectGraph};
use crate::names::{KIDS, NAMES, NUMS};
use crate::object::{Dictionary, Entries, Object, Value, lemma_position, position, values};

verus! {

/// The pairs of a leaf array: its items two by two. A last item without a
/// partner is left out.
pub open spec fn leaf_pairs(items: Seq<Value>) -> Seq<(Value, Value)> {
    Seq::new((items.len() / 2) as nat, |i: int| (items[2 * i], items[2 * i + 1]))
}

/// The pairs below the node `tree`, in document order.
///
/// A node whose first `Kids` entry is an array is a branch. `hops` bounds
/// how many references a path from `tree` may follow: a kid that is a
/// reference is followed while hops are left, and a kid that does not resolve
/// to a dictionary has no pairs.
pub open spec fn tree_pairs(g: GraphValue, tree: Entries, leaf_key: Seq<u8>, hops: nat) -> Seq<
    (Value, Value),
>
    decreases hops, tree, 0nat,
{
    let at = position(tree.pairs, KIDS@);
    if 0 <= at < tree.pairs.len() && tree.pairs[at].1 is Array {
        kids_pairs(g, tree.pairs[at].1->Array_0, 0, leaf_key, hops)
    } else {
        match tree.get(leaf_key) {
            Some(Value::Array(items)) => leaf_pairs(items),
            _ => Seq::empty(),
        }
    }
}

/// The pairs of the kids from position `from` on.
pub open spec fn kids_pairs(
    g: GraphValue,
    kids: Seq<Value>,
    from: int,
    leaf_key: Seq<u8>,
    hops: nat,
) -> Seq<(Value, Value)>
    decreases hops, kids, kids.len() - from,
{
    if 0 <= from < kids.len() {
        kid_pairs(g, kids[from], leaf_key, hops) + kids_pairs(g, kids, from + 1, leaf_key, hops)
    } else {
        Seq::empty()
    }
}

/// The pairs of one kid: those of the node that the kid is or refers to.
pub open spec fn kid_pairs(g: GraphValue, kid: Value, leaf_key: Seq<u8>, hops: nat) -> Seq<
    (Value, Value),
>
    decreases hops, kid, 0nat,
{
    match kid {
        Value::Dictionary(node) => tree_pairs(g, node, leaf_key, hops),
        Value::Reference(id) => match g.get(id) {
            Ok(Value::Dictionary(node)) => if hops > 0 {
                tree_pairs(g, node, leaf_key, (hops - 1) as nat)
            } else {
                Seq::empty()
            },
            _ => Seq::empty(),
        },
        _ => Seq::empty(),
    }
}

/// How many references a path through a tree may follow: as many as the
/// graph has objects. A path that follows more has come by an object twice.
pub open spec fn hop_limit(g: GraphValue) -> nat {
    g.objects.dom().len()
}

/// The pairs of the name tree rooted at `tree`.
pub open spec fn name_tree_pairs(g: GraphValue, tree: Entries) -> Seq<(Value, Value)> {
    tree_pairs(g, tree, NAMES@, hop_limit(g))
}

/// The pairs of the number tree rooted at `tree`.
pub open spec fn number_tree_pairs(g: GraphValue, tree: Entries) -> Seq<(Value, Value)> {
    tree_pairs(g, tree, NUMS@, hop_limit(g))
}

/// The values of a sequence of key and value objects.
pub open spec fn pair_values(pairs: Seq<(&Object, &Object)>) -> Seq<(Value, Value)> {
    Seq::new(pairs.len(), |i: int| (pairs[i].0@, pairs[i].1@))
}

/// Appends the pairs of the leaf array `items` to `out`.
fn collect_leaf<'a>(items: &'a Vec<Object>, out: &mut Vec<(&'a Object, &'a Object)>)
    ensures
        pair_values(final(out)@) == pair_values(old(out)@) + leaf_pairs(values(items@)),
{
    let count: usize = items.len() / 2;
    let mut i: usize = 0;
    while i < count
        invariant
            count == items.len() / 2,
            i <= count,
            out@.len() == old(out)@.len() + i,
            forall|k: int| 0 <= k < old(out)@.len() ==> out@[k] == old(out)@[k],
            forall|k: int|
                old(out)@.len() <= k < out@.len() ==> (#[trigger] out@[k]).0@ == items@[2 * (k
                    - old(out)@.len())]@ && out@[k].1@ == items@[2 * (k - old(out)@.len()) + 1]@,
        decreases count - i,
    {
        out.push((&items[2 * i], &items[2 * i + 1]));
        i += 1;
    }
}

/// Appends the pairs below the node `tree` to `out`.
fn collect_pairs<'a>(
    graph: &'a ObjectGraph,
    tree: &'a Dictionary,
    leaf_key: &[u8],
    hops: usize,
    out: &mut Vec<(&'a Object, &'a Object)>,
)
    ensures
        pair_values(final(out)@) == pair_values(old(out)@) + tree_pairs(
            graph@,
            tree@,
            leaf_key@,
            hops as nat,
        ),
    decreases hops, tree@, 0nat,
{
    proof {
        lemma_position(tree@.pairs, KIDS@);
    }
    if let Ok(entry) = tree.get(KIDS.as_slice()) {
        if let Ok(kids) = entry.as_array() {
            collect_kids(graph, kids, leaf_key, hops, out);
            return ;
        }
    }
    if let Ok(entry) = tree.get(leaf_key) {
        if let Ok(items) = entry.as_array() {
            collect_leaf(items, out);
            return ;
        }
    }
}

/// Appends the pairs of the kids of a branch to `out`.
fn collect_kids<'a>(
    graph: &'a ObjectGraph,
    kids: &'a Vec<Object>,
    leaf_key: &[u8],
    hops: usize,
    out: &mut Vec<(&'a Object, &'a Object)>,
)
    ensures
        pair_values(final(out)@) == pair_values(old(out)@) + kids_pairs(
            graph@,
            values(kids@),
            0,
            leaf_key@,
            hops as nat,
        ),
    decreases hops, values(kids@), 0nat,
{
    let ghost before = pair_values(out@);
    let ghost all = kids_pairs(graph@, values(kids@), 0, leaf_key@, hops as nat);
    let mut i: usize = 0;
    while i < kids.len()
        invariant
            i <= kids.len(),
            before == pair_values(old(out)@),
            all == kids_pairs(graph@, values(kids@), 0, leaf_key@, hops as nat),
            pair_values(out@) + kids_pairs(graph@, values(kids@), i as int, leaf_key@, hops as nat)
                == before + all,
        decreases kids.len() - i,
    {
        let ghost so_far = pair_values(out@);
        let ghost here = kid_pairs(graph@, values(kids@)[i as int], leaf_key@, hops as nat);
        let kid = &kids[i];
        match kid {
            Object::Dictionary(node) => {
                collect_pairs(graph, node, leaf_key, hops, out);
            },
            Object::Reference(id) => {
                if let Ok(target) = graph.get_object(*id) {
                    if let Ok(node) = target.as_dict() {
                        if hops > 0 {
                            collect_pairs(graph, node, leaf_key, hops - 1, out);
                        }
                    }
                }
            },
            _ => {},
        }
        assert(pair_values(out@) == so_far + here);
        i += 1;
    }
}

/// The number of objects in the graph.
fn count_objects(graph: &ObjectGraph) -> (n: usize)
    ensures
        n == hop_limit(graph@),
{
    let n = graph.objects.len();
    assert(graph@.objects.dom() =~= graph.objects@.dom());
    n
}

/// Flattens the name tree rooted at `tree`: every leaf pair, in document
/// order, as references into the graph.
pub fn name_tree_iter<'a>(graph: &'a ObjectGraph, tree: &'a Dictionary) -> (pairs: Vec<
    (&'a Object, &'a Object),
>)
    ensures
        pair_values(pairs@) == name_tree_pairs(graph@, tree@),
{
    let mut pairs: Vec<(&'a Object, &'a Object)> = Vec::new();
    let hops = count_objects(graph);
    collect_pairs(graph, tree, NAMES.as_slice(), hops, &mut pairs);
    pairs
}

/// Flattens the number tree rooted at `tree`: every leaf pair, in document
/// order, as references into the graph.
pub fn number_tree_iter<'a>(graph: &'a ObjectGraph, tree: &'a Dictionary) -> (pairs: Vec<
    (&'a Object, &'a Object),
>)
    ensures
        pair_values(pairs@) == number_tree_pairs(graph@, tree@),
{
    let mut pairs: Vec<(&'a Object, &'a Object)> = Vec::new();
    let hops = count_objects(graph);
    collect_pairs(graph, tree, NUMS.as_slice(), hops, &mut pairs);
    pairs
}

/// A node that has neither kids nor a leaf array has no pairs.
pub proof fn lemma_bare_node_is_empty(g: GraphValue, tree: Entries, leaf_key: Seq<u8>, hops: nat)
    requires
        !tree.contains_key(KIDS@),
        !tree.contains_key(leaf_key),
    ensures
        tree_pairs(g, tree, leaf_key, hops) == Seq::<(Value, Value)>::empty(),
{
}

/// The pairs of a branch are the pairs of its kids, one kid after the other.
pub proof fn lemma_branch_pairs(
    g: GraphValue,
    tree: Entries,
    kids: Seq<Value>,
    leaf_key: Seq<u8>,
    hops: nat,
    from: int,
)
    requires
        tree.get(KIDS@) == Some(Value::Array(kids)),
        0 <= from < kids.len(),
    ensures
        tree_pairs(g, tree, leaf_key, hops) == kids_pairs(g, kids, 0, leaf_key, hops),
        kids_pairs(g, kids, from, leaf_key, hops) == kid_pairs(g, kids[from], leaf_key, hops)
            + kids_pairs(g, kids, from + 1, leaf_key, hops),
        kids_pairs(g, kids, kids.len() as int, leaf_key, hops) == Seq::<(Value, Value)>::empty(),
{
    lemma_position(tree.pairs, KIDS@);
}

} // verus!
