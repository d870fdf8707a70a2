//! The layered view of the mix nodes: what it holds and when it exists.

use vstd::prelude::*;
use crate::topology::mix;

verus! {

/// The longest path through the mix network that a packet can describe.
pub const MAX_PATH_LENGTH: u64 = 5;

/// The highest layer that any of `nodes` declares; 0 where there is no node.
pub open spec fn highest_layer(nodes: Seq<mix::Node>) -> u64
    decreases nodes.len(),
{
    if nodes.len() == 0 {
        0
    } else {
        let below = highest_layer(nodes.drop_last());
        if nodes.last().layer > below {
            nodes.last().layer
        } else {
            below
        }
    }
}

/// The nodes of `nodes` that declare `layer`, in their order.
pub open spec fn layer_bucket(nodes: Seq<mix::Node>, layer: u64) -> Seq<mix::Node>
    decreases nodes.len(),
{
    if nodes.len() == 0 {
        Seq::empty()
    } else {
        let rest = layer_bucket(nodes.drop_last(), layer);
        if nodes.last().layer == layer {
            rest.push(nodes.last())
        } else {
            rest
        }
    }
}

/// Some node declares `layer`.
pub open spec fn declares_layer(nodes: Seq<mix::Node>, layer: u64) -> bool {
    exists|i: int| 0 <= i < nodes.len() && (#[trigger] nodes[i]).layer == layer
}

/// Some node declares a layer beyond the longest path.
pub open spec fn has_invalid_layer(nodes: Seq<mix::Node>) -> bool {
    exists|i: int| 0 <= i < nodes.len() && (#[trigger] nodes[i]).layer > MAX_PATH_LENGTH
}

/// The layers from 1 to `upto` that none of `nodes` declares, ascending.
pub open spec fn missing_layers_up_to(nodes: Seq<mix::Node>, upto: u64) -> Seq<u64>
    decreases upto,
{
    if upto == 0 {
        Seq::empty()
    } else {
        let below = missing_layers_up_to(nodes, (upto - 1) as u64);
        if layer_bucket(nodes, upto).len() == 0 {
            below.push(upto)
        } else {
            below
        }
    }
}

/// The layers below the highest one that none of `nodes` declares,
/// ascending.
pub open spec fn missing_layers(nodes: Seq<mix::Node>) -> Seq<u64> {
    missing_layers_up_to(nodes, highest_layer(nodes))
}

/// A route can be laid through `nodes`: no layer is beyond the longest path
/// and none is missing.
pub open spec fn is_routable(nodes: Seq<mix::Node>) -> bool {
    !has_invalid_layer(nodes) && missing_layers(nodes).len() == 0
}

/// The layers 1 to `highest`.
pub open spec fn layer_numbers(highest: u64) -> Set<u64> {
    Set::new(|layer: u64| 1 <= layer <= highest)
}

/// `layered` is the layered view of `nodes`: it holds the layers 1 to the
/// highest one, each with the nodes that declare it, in their order, and none
/// of them empty. A node that declares layer 0 belongs to no layer.
pub open spec fn is_layered_view(layered: Map<u64, Vec<mix::Node>>, nodes: Seq<mix::Node>) -> bool {
    &&& layered.dom() == layer_numbers(highest_layer(nodes))
    &&& forall|layer: u64| #[trigger]
        layered.contains_key(layer) ==> layered[layer]@ == layer_bucket(nodes, layer)
            && layered[layer]@.len() > 0
}

/// No node declares a layer above the highest one, and some node declares
/// it unless it is 0.
pub proof fn lemma_highest_layer(nodes: Seq<mix::Node>)
    ensures
        forall|i: int| 0 <= i < nodes.len() ==> (#[trigger] nodes[i]).layer <= highest_layer(nodes),
        highest_layer(nodes) == 0 || exists|i: int|
            0 <= i < nodes.len() && (#[trigger] nodes[i]).layer == highest_layer(nodes),
    decreases nodes.len(),
{
    if nodes.len() > 0 {
        let front = nodes.drop_last();
        lemma_highest_layer(front);
        assert forall|i: int| 0 <= i < nodes.len() implies (#[trigger] nodes[i]).layer
            <= highest_layer(nodes) by {
            if i < front.len() {
                assert(front[i] == nodes[i]);
            }
        }
        if highest_layer(nodes) != 0 {
            if nodes.last().layer > highest_layer(front) {
                assert(nodes[nodes.len() - 1].layer == highest_layer(nodes));
            } else {
                let i = choose|i: int|
                    0 <= i < front.len() && (#[trigger] front[i]).layer == highest_layer(front);
                assert(nodes[i].layer == highest_layer(nodes));
            }
        }
    }
}

/// A bucket holds nodes of its layer only, each from `nodes`.
pub proof fn lemma_bucket_members(nodes: Seq<mix::Node>, layer: u64, k: int)
    requires
        0 <= k < layer_bucket(nodes, layer).len(),
    ensures
        layer_bucket(nodes, layer)[k].layer == layer,
        nodes.contains(layer_bucket(nodes, layer)[k]),
    decreases nodes.len(),
{
    let front = nodes.drop_last();
    let rest = layer_bucket(front, layer);
    if k < rest.len() {
        lemma_bucket_members(front, layer, k);
        let at = choose|at: int| 0 <= at < front.len() && front[at] == rest[k];
        assert(nodes[at] == rest[k]);
    } else {
        assert(nodes[nodes.len() - 1] == nodes.last());
    }
}

/// A bucket is empty exactly when no node declares its layer.
pub proof fn lemma_bucket_empty(nodes: Seq<mix::Node>, layer: u64)
    ensures
        layer_bucket(nodes, layer).len() == 0 <==> forall|i: int|
            0 <= i < nodes.len() ==> (#[trigger] nodes[i]).layer != layer,
    decreases nodes.len(),
{
    if nodes.len() > 0 {
        let front = nodes.drop_last();
        lemma_bucket_empty(front, layer);
        if layer_bucket(nodes, layer).len() == 0 {
            assert forall|i: int| 0 <= i < nodes.len() implies (#[trigger] nodes[i]).layer
                != layer by {
                if i < front.len() {
                    assert(front[i] == nodes[i]);
                }
            }
        } else if nodes.last().layer == layer {
            assert(nodes[nodes.len() - 1].layer == layer);
        } else {
            let i = choose|i: int| 0 <= i < front.len() && (#[trigger] front[i]).layer == layer;
            assert(nodes[i].layer == layer);
        }
    }
}

/// The list of missing layers holds a layer exactly when it lies between 1
/// and `upto` and no node declares it; and it is strictly ascending.
pub proof fn lemma_missing_layers_up_to(nodes: Seq<mix::Node>, upto: u64)
    ensures
        forall|layer: u64|
            missing_layers_up_to(nodes, upto).contains(layer) <==> 1 <= layer <= upto
                && layer_bucket(nodes, layer).len() == 0,
        forall|a: int, b: int|
            0 <= a < b < missing_layers_up_to(nodes, upto).len() ==> missing_layers_up_to(
                nodes,
                upto,
            )[a] < missing_layers_up_to(nodes, upto)[b],
    decreases upto,
{
    let missing = missing_layers_up_to(nodes, upto);
    if upto > 0 {
        let below = missing_layers_up_to(nodes, (upto - 1) as u64);
        lemma_missing_layers_up_to(nodes, (upto - 1) as u64);
        assert forall|layer: u64| missing.contains(layer) <==> 1 <= layer <= upto && layer_bucket(
            nodes,
            layer,
        ).len() == 0 by {
            if missing.contains(layer) {
                let at = choose|at: int| 0 <= at < missing.len() && missing[at] == layer;
                if at < below.len() {
                    assert(below[at] == layer);
                    assert(below.contains(layer));
                }
            }
            if 1 <= layer <= upto && layer_bucket(nodes, layer).len() == 0 {
                if layer == upto {
                    assert(missing[missing.len() - 1] == layer);
                } else {
                    assert(below.contains(layer));
                    let at = choose|at: int| 0 <= at < below.len() && below[at] == layer;
                    assert(missing[at] == layer);
                }
            }
        }
        assert forall|a: int, b: int| 0 <= a < b < missing.len() implies missing[a]
            < missing[b] by {
            if b >= below.len() {
                assert(below[a] == missing[a]);
                assert(below.contains(missing[a]));
            } else {
                assert(below[a] == missing[a] && below[b] == missing[b]);
            }
        }
    }
}

/// A topology is routable exactly when its highest layer is within the
/// longest path and every layer from 1 to the highest one has a node.
pub proof fn lemma_routable_iff_layers_complete(nodes: Seq<mix::Node>)
    ensures
        is_routable(nodes) <==> highest_layer(nodes) <= MAX_PATH_LENGTH && forall|layer: u64|
            1 <= layer <= highest_layer(nodes) ==> #[trigger] declares_layer(nodes, layer),
        has_invalid_layer(nodes) <==> highest_layer(nodes) > MAX_PATH_LENGTH,
{
    lemma_highest_layer(nodes);
    lemma_missing_layers_up_to(nodes, highest_layer(nodes));
    let missing = missing_layers(nodes);
    if missing.len() == 0 {
        assert forall|layer: u64| 1 <= layer <= highest_layer(nodes) implies #[trigger]
            declares_layer(nodes, layer) by {
            lemma_bucket_empty(nodes, layer);
            assert(!missing.contains(layer));
        }
    } else {
        let layer = missing[0];
        assert(missing.contains(layer));
        lemma_bucket_empty(nodes, layer);
        assert(!declares_layer(nodes, layer));
    }
}

/// There are as many layers from 1 to `highest` as `highest` says.
pub proof fn lemma_layer_numbers_len(highest: u64)
    ensures
        layer_numbers(highest).finite(),
        layer_numbers(highest).len() == highest,
    decreases highest,
{
    if highest == 0 {
        assert(layer_numbers(highest) =~= Set::empty());
    } else {
        lemma_layer_numbers_len((highest - 1) as u64);
        assert(layer_numbers(highest) =~= layer_numbers((highest - 1) as u64).insert(highest));
    }
}

} // verus!
