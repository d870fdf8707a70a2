//! The topology of the network and the routes through it.

use vstd::prelude::*;
use std::collections::HashMap;
use itertools::Itertools;
use rand::seq::IteratorRandom;
use crate::topology::paths::{
    cartesian_product, choice, combinations, lemma_product_distinct, lemma_product_entry,
    lemma_product_len,
};
use crate::topology::filter::{clone_nodes, compatible_nodes};
use crate::topology::layers::{
    has_invalid_layer, highest_layer, is_layered_view, is_routable, layer_bucket,
    lemma_bucket_members, lemma_highest_layer, lemma_layer_numbers_len,
    lemma_missing_layers_up_to, lemma_routable_iff_layers_complete, missing_layers,
    missing_layers_up_to, MAX_PATH_LENGTH,
};

pub mod coco;
pub mod filter;
pub mod layers;
pub mod mix;
pub mod paths;
pub mod provider;
pub mod route;

pub use crate::topology::filter::{Filter, Versioned};

verus! {

/// Why no route can be laid through a topology.
#[derive(Debug)]
pub enum NymTopologyError {
    /// A mix node declares a layer beyond the longest path.
    InvalidMixLayerError,
    /// These layers, below the highest one, have no mix node.
    MissingLayerError(Vec<u64>),
}

/// `error` is the reason why `nodes` have no layered view.
pub open spec fn describes_failure(error: NymTopologyError, nodes: Seq<mix::Node>) -> bool {
    match error {
        NymTopologyError::InvalidMixLayerError => has_invalid_layer(nodes),
        NymTopologyError::MissingLayerError(layers) => {
            &&& !has_invalid_layer(nodes)
            &&& layers@ == missing_layers(nodes)
            &&& layers@.len() > 0
        },
    }
}

/// `hop` stands for one of the nodes of `nodes` that declare `layer`.
pub open spec fn is_hop_of_layer(hop: route::Node, nodes: Seq<mix::Node>, layer: u64) -> bool {
    exists|k: int|
        0 <= k < layer_bucket(nodes, layer).len() && hop == (#[trigger] layer_bucket(
            nodes,
            layer,
        )[k]).route_node()
}

/// `hop` stands for one of `providers`.
pub open spec fn is_provider_hop(hop: route::Node, providers: Seq<provider::Node>) -> bool {
    exists|k: int| 0 <= k < providers.len() && hop == (#[trigger] providers[k]).route_node()
}

/// `route` is the mix part of a route through `nodes`: one hop for each
/// layer from 1 to the highest one, ascending, each a node of its layer.
pub open spec fn is_mix_route(route: Seq<route::Node>, nodes: Seq<mix::Node>) -> bool {
    &&& route.len() == highest_layer(nodes)
    &&& forall|i: int|
        0 <= i < route.len() ==> is_hop_of_layer(#[trigger] route[i], nodes, (i + 1) as u64)
}

/// `route` is a route through `nodes` to one of `providers`: its mix part,
/// then the provider.
pub open spec fn is_route(
    route: Seq<route::Node>,
    nodes: Seq<mix::Node>,
    providers: Seq<provider::Node>,
) -> bool {
    &&& route.len() == highest_layer(nodes) + 1
    &&& is_mix_route(route.drop_last(), nodes)
    &&& is_provider_hop(route.last(), providers)
}

/// `route` is a route through `nodes` as far as `providers` allow: a route
/// to one of them where there is any, else its mix part alone.
pub open spec fn is_random_route(
    route: Seq<route::Node>,
    nodes: Seq<mix::Node>,
    providers: Seq<provider::Node>,
) -> bool {
    if providers.len() > 0 {
        is_route(route, nodes, providers)
    } else {
        is_mix_route(route, nodes)
    }
}

/// The first of `providers` that has the identity `identity`, if any has.
pub open spec fn first_provider_named(providers: Seq<provider::Node>, identity: Seq<char>) -> Option<
    provider::Node,
>
    decreases providers.len(),
{
    if providers.len() == 0 {
        None
    } else if providers.first().identity@ == identity {
        Some(providers.first())
    } else {
        first_provider_named(providers.drop_first(), identity)
    }
}

/// `route` is what a send to `wanted` goes over: a route that ends in that
/// provider where one is asked for and known, else a random route.
pub open spec fn is_fresh_route(
    route: Seq<route::Node>,
    nodes: Seq<mix::Node>,
    providers: Seq<provider::Node>,
    wanted: Option<provider::Node>,
) -> bool {
    match wanted {
        Some(provider) => {
            &&& route.len() == highest_layer(nodes) + 1
            &&& is_mix_route(route.drop_last(), nodes)
            &&& route.last() == provider.route_node()
        },
        None => is_random_route(route, nodes, providers),
    }
}

/// The hops that stand for the nodes of `layer`, in the order of the nodes.
pub open spec fn hops_of_layer(nodes: Seq<mix::Node>, layer: u64) -> Seq<route::Node> {
    Seq::new(layer_bucket(nodes, layer).len(), |k: int| layer_bucket(nodes, layer)[k].route_node())
}

/// The hops that stand for `providers`, in their order.
pub open spec fn provider_hops(providers: Seq<provider::Node>) -> Seq<route::Node> {
    Seq::new(providers.len(), |k: int| providers[k].route_node())
}

/// What a route chooses from: the hops of each layer from 1 to the highest
/// one, ascending, and after them the hops of the providers.
pub open spec fn route_layers(nodes: Seq<mix::Node>, providers: Seq<provider::Node>) -> Seq<
    Seq<route::Node>,
> {
    Seq::new(
        (highest_layer(nodes) + 1) as nat,
        |i: int|
            if i < highest_layer(nodes) {
                hops_of_layer(nodes, (i + 1) as u64)
            } else {
                provider_hops(providers)
            },
    )
}

/// The contents of each vector of `lists`.
pub open spec fn rows(lists: Seq<Vec<route::Node>>) -> Seq<Seq<route::Node>> {
    Seq::new(lists.len(), |i: int| lists[i]@)
}

/// The product of the sizes of the layers from 1 to `upto`.
pub open spec fn bucket_product(nodes: Seq<mix::Node>, upto: u64) -> nat
    decreases upto,
{
    if upto == 0 {
        1
    } else {
        bucket_product(nodes, (upto - 1) as u64) * layer_bucket(nodes, upto).len()
    }
}

proof fn lemma_mix_combinations(nodes: Seq<mix::Node>, providers: Seq<provider::Node>, upto: u64)
    requires
        upto <= highest_layer(nodes),
    ensures
        combinations(route_layers(nodes, providers).take(upto as int)) == bucket_product(
            nodes,
            upto,
        ),
    decreases upto,
{
    let layers = route_layers(nodes, providers);
    if upto > 0 {
        lemma_mix_combinations(nodes, providers, (upto - 1) as u64);
        assert(layers.take(upto as int).drop_last() =~= layers.take(upto - 1));
        assert(layers.take(upto as int).last() == hops_of_layer(nodes, upto));
    }
}

/// There are as many routes through a topology as the sizes of its layers
/// and the number of its providers multiply to.
pub proof fn lemma_all_paths_count(nodes: Seq<mix::Node>, providers: Seq<provider::Node>)
    ensures
        cartesian_product(route_layers(nodes, providers)).len() == bucket_product(
            nodes,
            highest_layer(nodes),
        ) * providers.len(),
{
    let layers = route_layers(nodes, providers);
    lemma_product_len(layers);
    lemma_mix_combinations(nodes, providers, highest_layer(nodes));
    assert(layers.drop_last() =~= layers.take(highest_layer(nodes) as int));
    assert(layers.last() == provider_hops(providers));
}

/// Each of the combinations that `all_paths` enumerates is a route: one
/// node of each layer, ascending, then a provider.
pub proof fn lemma_all_paths_are_routes(
    nodes: Seq<mix::Node>,
    providers: Seq<provider::Node>,
    k: int,
)
    requires
        0 <= k < cartesian_product(route_layers(nodes, providers)).len(),
    ensures
        is_route(cartesian_product(route_layers(nodes, providers))[k], nodes, providers),
{
    let layers = route_layers(nodes, providers);
    let path = cartesian_product(layers)[k];
    let highest = highest_layer(nodes) as int;
    lemma_product_entry(layers, k);
    assert forall|i: int| 0 <= i < path.drop_last().len() implies is_hop_of_layer(
        #[trigger] path.drop_last()[i],
        nodes,
        (i + 1) as u64,
    ) by {
        let picked = choice(layers, k, i);
        assert(layers[i] == hops_of_layer(nodes, (i + 1) as u64));
        assert(path[i] == layer_bucket(nodes, (i + 1) as u64)[picked].route_node());
    }
    let picked = choice(layers, k, highest);
    assert(layers[highest] == provider_hops(providers));
    assert(path.last() == providers[picked].route_node());
}

/// Two of the combinations that `all_paths` enumerates differ in the node
/// that they take from some layer, or in the provider.
pub proof fn lemma_all_paths_distinct(
    nodes: Seq<mix::Node>,
    providers: Seq<provider::Node>,
    k1: int,
    k2: int,
)
    requires
        0 <= k1 < cartesian_product(route_layers(nodes, providers)).len(),
        0 <= k2 < cartesian_product(route_layers(nodes, providers)).len(),
        k1 != k2,
    ensures
        exists|i: int|
            0 <= i <= highest_layer(nodes) && #[trigger] choice(
                route_layers(nodes, providers),
                k1,
                i,
            ) != choice(route_layers(nodes, providers), k2, i),
{
    lemma_product_distinct(route_layers(nodes, providers), k1, k2);
}

/// The limit that the packet format sets on the length of a path:
/// `sphinx_packet::constants::MAX_PATH_LENGTH`, which is 5.
#[verifier::external_body]
fn max_path_length() -> (limit: u64)
    ensures
        limit == MAX_PATH_LENGTH,
{
    sphinx_packet::constants::MAX_PATH_LENGTH as u64
}

/// `rand::seq::IteratorRandom::choose` on the items, with the generator of
/// the thread: one of the items, whichever the generator picks, and nothing
/// only where there is no item.
#[verifier::external_body]
fn choose_random<T>(items: Vec<T>) -> (picked: Option<T>)
    ensures
        picked is None <==> items@.len() == 0,
        picked matches Some(item) ==> items@.contains(item),
{
    items.into_iter().choose(&mut rand::thread_rng())
}

/// `itertools::Itertools::multi_cartesian_product` on the layers, collected:
/// every combination of one hop from each layer, the hops of the last layer
/// changing fastest, and nothing where there is no layer or an empty one.
#[verifier::external_body]
fn multi_cartesian_product(layers: Vec<Vec<route::Node>>) -> (paths: Vec<Vec<route::Node>>)
    ensures
        rows(paths@) == cartesian_product(rows(layers@)),
{
    layers.into_iter().multi_cartesian_product().collect()
}

fn mix_hops(nodes: &Vec<mix::Node>) -> (hops: Vec<route::Node>)
    ensures
        hops@ == Seq::new(nodes@.len(), |k: int| nodes@[k].route_node()),
{
    let mut hops: Vec<route::Node> = Vec::new();
    let mut k: usize = 0;
    while k < nodes.len()
        invariant
            k <= nodes@.len(),
            hops@ == Seq::new(k as nat, |k: int| nodes@[k].route_node()),
        decreases nodes@.len() - k,
    {
        hops.push(nodes[k].to_route_node());
        assert(hops@ =~= Seq::new((k + 1) as nat, |k: int| nodes@[k].route_node()));
        k += 1;
    }
    hops
}

fn provider_route_nodes(providers: &Vec<provider::Node>) -> (hops: Vec<route::Node>)
    ensures
        hops@ == provider_hops(providers@),
{
    let mut hops: Vec<route::Node> = Vec::new();
    let mut k: usize = 0;
    while k < providers.len()
        invariant
            k <= providers@.len(),
            hops@ == Seq::new(k as nat, |k: int| providers@[k].route_node()),
        decreases providers@.len() - k,
    {
        hops.push(providers[k].to_route_node());
        assert(hops@ =~= Seq::new((k + 1) as nat, |k: int| providers@[k].route_node()));
        k += 1;
    }
    hops
}

/// A set of relay descriptors: mix nodes, providers and registry nodes.
pub trait NymTopology: Sized {
    /// The mix nodes of the topology.
    spec fn mix_view(&self) -> Seq<mix::Node>;

    /// The providers of the topology.
    spec fn provider_view(&self) -> Seq<provider::Node>;

    /// The registry nodes of the topology.
    spec fn coco_view(&self) -> Seq<coco::Node>;

    fn new_from_nodes(
        mix_nodes: Vec<mix::Node>,
        mix_provider_nodes: Vec<provider::Node>,
        coco_nodes: Vec<coco::Node>,
    ) -> (topology: Self)
        ensures
            topology.mix_view() == mix_nodes@,
            topology.provider_view() == mix_provider_nodes@,
            topology.coco_view() == coco_nodes@,
    ;

    fn mix_nodes(&self) -> (nodes: Vec<mix::Node>)
        ensures
            nodes@ == self.mix_view(),
    ;

    fn providers(&self) -> (nodes: Vec<provider::Node>)
        ensures
            nodes@ == self.provider_view(),
    ;

    fn coco_nodes(&self) -> (nodes: Vec<coco::Node>)
        ensures
            nodes@ == self.coco_view(),
    ;

    /// Sorts the mix nodes into their layers. There is a layered view when
    /// no node declares a layer beyond the longest path and every layer from
    /// 1 to the highest one has a node. Else the error says which of the two
    /// failed, and the second names every missing layer. A node that
    /// declares layer 0 is in no layer and in no route.
    fn make_layered_topology(&self) -> (layered: Result<
        HashMap<u64, Vec<mix::Node>>,
        NymTopologyError,
    >)
        ensures
            layered is Ok <==> is_routable(self.mix_view()),
            layered matches Ok(layers) ==> is_layered_view(layers@, self.mix_view()),
            layered matches Err(error) ==> describes_failure(error, self.mix_view()),
    {
        broadcast use vstd::std_specs::hash::group_hash_axioms;

        let mut layered_topology: HashMap<u64, Vec<mix::Node>> = HashMap::new();
        let mut highest: u64 = 0;
        let limit = max_path_length();
        let nodes = self.mix_nodes();
        let count = nodes.len();
        let mut i: usize = 0;
        while i < count
            invariant
                count == nodes@.len(),
                i <= count,
                limit == MAX_PATH_LENGTH,
                nodes@ == self.mix_view(),
                highest <= MAX_PATH_LENGTH,
                highest == highest_layer(nodes@.take(i as int)),
                forall|j: int| 0 <= j < i ==> (#[trigger] nodes@[j]).layer <= MAX_PATH_LENGTH,
                forall|layer: u64| #[trigger]
                    layered_topology@.contains_key(layer) <==> layer >= 1 && layer_bucket(
                        nodes@.take(i as int),
                        layer,
                    ).len() > 0,
                forall|layer: u64| #[trigger]
                    layered_topology@.contains_key(layer) ==> layered_topology@[layer]@
                        == layer_bucket(nodes@.take(i as int), layer),
            decreases count - i,
        {
            let mix = nodes[i].clone();
            // the provider needs a place on the path too
            if mix.layer > limit {
                assert(nodes@[i as int].layer > MAX_PATH_LENGTH);
                return Err(NymTopologyError::InvalidMixLayerError);
            }
            let ghost seen = nodes@.take(i as int);
            let ghost next = nodes@.take(i + 1);
            let ghost before = layered_topology@;
            proof {
                assert(next.drop_last() =~= seen);
                assert(next.last() == mix);
            }
            if mix.layer > highest {
                highest = mix.layer;
            }
            if mix.layer >= 1 {
                let layer = mix.layer;
                let layer_nodes = layered_topology.entry(layer).or_insert(Vec::new());
                layer_nodes.push(mix);
                proof {
                    let grown = layer_bucket(seen, layer).push(mix);
                    assert(layered_topology@.contains_key(layer));
                    assert(layered_topology@[layer]@ =~= grown);
                    assert(layered_topology@ == before.insert(layer, layered_topology@[layer]));
                }
            }
            i += 1;
        }
        assert(nodes@.take(count as int) =~= nodes@);

        // no gap may be left below the highest layer
        let mut missing_layers: Vec<u64> = Vec::new();
        let mut layer: u64 = 1;
        while layer <= highest
            invariant
                1 <= layer <= highest + 1,
                highest <= MAX_PATH_LENGTH,
                missing_layers@ == missing_layers_up_to(nodes@, (layer - 1) as u64),
                forall|layer: u64| #[trigger]
                    layered_topology@.contains_key(layer) <==> layer >= 1 && layer_bucket(
                        nodes@,
                        layer,
                    ).len() > 0,
            decreases highest + 1 - layer,
        {
            if !layered_topology.contains_key(&layer) {
                missing_layers.push(layer);
            }
            layer += 1;
        }

        if missing_layers.len() > 0 {
            return Err(NymTopologyError::MissingLayerError(missing_layers));
        }
        proof {
            lemma_highest_layer(nodes@);
            lemma_missing_layers_up_to(nodes@, highest);
            assert forall|layer: u64|
                layered_topology@.contains_key(layer) <==> 1 <= layer <= highest by {
                if layered_topology@.contains_key(layer) {
                    lemma_bucket_members(nodes@, layer, 0);
                    let member = layer_bucket(nodes@, layer)[0];
                    let at = choose|at: int| 0 <= at < nodes@.len() && nodes@[at] == member;
                    assert(nodes@[at].layer == layer);
                }
                if 1 <= layer <= highest {
                    assert(!missing_layers_up_to(nodes@, highest).contains(layer));
                }
            }
            assert(layered_topology@.dom() =~= layers::layer_numbers(highest));
        }
        Ok(layered_topology)
    }

    /// A random way through the layers of the mix network: for each layer
    /// from 1 to the highest one, one of its nodes, each chosen independently
    /// of the others. No provider follows.
    fn mix_part(&self) -> (route: Result<Vec<route::Node>, NymTopologyError>)
        ensures
            route is Ok <==> is_routable(self.mix_view()),
            route matches Ok(hops) ==> is_mix_route(hops@, self.mix_view()),
            route matches Err(error) ==> describes_failure(error, self.mix_view()),
    {
        broadcast use vstd::std_specs::hash::group_hash_axioms;

        let mut layered_topology = match self.make_layered_topology() {
            Ok(layered_topology) => layered_topology,
            Err(error) => {
                return Err(error);
            },
        };
        let ghost nodes = self.mix_view();
        proof {
            lemma_layer_numbers_len(highest_layer(nodes));
            lemma_routable_iff_layers_complete(nodes);
        }
        let num_layers = layered_topology.len();
        let mut route: Vec<route::Node> = Vec::new();
        let mut layer: u64 = 1;
        while layer <= num_layers as u64
            invariant
                num_layers == highest_layer(nodes),
                num_layers <= MAX_PATH_LENGTH,
                1 <= layer <= num_layers + 1,
                route@.len() == layer - 1,
                forall|i: int|
                    0 <= i < route@.len() ==> is_hop_of_layer(
                        #[trigger] route@[i],
                        nodes,
                        (i + 1) as u64,
                    ),
                forall|other: u64|
                    layer <= other <= num_layers ==> #[trigger] layered_topology@.contains_key(
                        other,
                    ) && layered_topology@[other]@ == layer_bucket(nodes, other)
                        && layered_topology@[other]@.len() > 0,
            decreases num_layers + 1 - layer,
        {
            assert(layered_topology@.contains_key(layer));
            let layer_nodes = layered_topology.remove(&layer).unwrap();
            let random_node = choose_random(layer_nodes).unwrap();
            proof {
                let k = choose|k: int|
                    0 <= k < layer_bucket(nodes, layer).len() && layer_bucket(nodes, layer)[k]
                        == random_node;
                assert(is_hop_of_layer(random_node.route_node(), nodes, layer));
            }
            route.push(random_node.to_route_node());
            layer += 1;
        }
        Ok(route)
    }

    /// A random route to the given provider: a random way through the mix
    /// network, then the provider.
    fn route_to(&self, provider_node: route::Node) -> (route: Result<
        Vec<route::Node>,
        NymTopologyError,
    >)
        ensures
            route is Ok <==> is_routable(self.mix_view()),
            route matches Ok(hops) ==> {
                &&& hops@.len() == highest_layer(self.mix_view()) + 1
                &&& is_mix_route(hops@.drop_last(), self.mix_view())
                &&& hops@.last() == provider_node
            },
            route matches Err(error) ==> describes_failure(error, self.mix_view()),
    {
        let mut route = match self.mix_part() {
            Ok(route) => route,
            Err(error) => {
                return Err(error);
            },
        };
        let ghost mix_part = route@;
        route.push(provider_node);
        assert(route@.drop_last() =~= mix_part);
        Ok(route)
    }

    /// A random route: a random way through the layers of the mix network,
    /// then one of the providers, chosen at random. Where no provider is
    /// known the route ends with the node of the highest layer.
    fn mix_route(&self) -> (route: Result<Vec<route::Node>, NymTopologyError>)
        ensures
            route is Ok <==> is_routable(self.mix_view()),
            route matches Ok(hops) ==> {
                &&& is_random_route(hops@, self.mix_view(), self.provider_view())
                &&& is_mix_route(
                    hops@.take(highest_layer(self.mix_view()) as int),
                    self.mix_view(),
                )
            },
            route matches Err(error) ==> describes_failure(error, self.mix_view()),
    {
        let mut route = match self.mix_part() {
            Ok(route) => route,
            Err(error) => {
                return Err(error);
            },
        };
        let ghost mix_part = route@;
        match choose_random(self.providers()) {
            Some(provider) => {
                proof {
                    let k = choose|k: int|
                        0 <= k < self.provider_view().len() && self.provider_view()[k] == provider;
                    assert(is_provider_hop(provider.route_node(), self.provider_view()));
                }
                route.push(provider.to_route_node());
                assert(route@.drop_last() =~= mix_part);
                assert(route@.take(highest_layer(self.mix_view()) as int) =~= mix_part);
            },
            None => {
                assert(route@.take(highest_layer(self.mix_view()) as int) =~= mix_part);
            },
        }
        Ok(route)
    }

    /// The first of the providers that has the identity `identity`.
    fn find_provider(&self, identity: &str) -> (found: Option<provider::Node>)
        ensures
            found == first_provider_named(self.provider_view(), identity@),
    {
        let providers = self.providers();
        let wanted = identity.to_owned();
        let mut k: usize = 0;
        assert(providers@.skip(0) =~= providers@);
        while k < providers.len()
            invariant
                k <= providers@.len(),
                providers@ == self.provider_view(),
                wanted@ == identity@,
                first_provider_named(providers@, identity@) == first_provider_named(
                    providers@.skip(k as int),
                    identity@,
                ),
            decreases providers@.len() - k,
        {
            proof {
                let rest = providers@.skip(k as int);
                assert(rest.first() == providers@[k as int]);
                assert(rest.drop_first() =~= providers@.skip(k + 1));
            }
            if providers[k].identity == wanted {
                return Some(providers[k].clone());
            }
            k += 1;
        }
        None
    }

    /// A route for one send: to the provider of the identity
    /// `wanted_provider` where one is asked for and known, else a random
    /// route.
    fn fresh_route(&self, wanted_provider: Option<&str>) -> (route: Result<
        Vec<route::Node>,
        NymTopologyError,
    >)
        ensures
            route is Ok <==> is_routable(self.mix_view()),
            route matches Ok(hops) ==> is_fresh_route(
                hops@,
                self.mix_view(),
                self.provider_view(),
                match wanted_provider {
                    Some(identity) => first_provider_named(self.provider_view(), identity@),
                    None => None,
                },
            ),
            route matches Err(error) ==> describes_failure(error, self.mix_view()),
    {
        let found = match wanted_provider {
            Some(identity) => self.find_provider(identity),
            None => None,
        };
        match found {
            Some(provider) => self.route_to(provider.to_route_node()),
            None => self.mix_route(),
        }
    }

    /// Every route through the topology: each combination of one node from
    /// each layer, ascending, and one provider. Their number is the product
    /// of the sizes of the layers and of the number of providers: this is for
    /// diagnosis, not for sending.
    fn all_paths(&self) -> (paths: Result<Vec<Vec<route::Node>>, NymTopologyError>)
        ensures
            paths is Ok <==> is_routable(self.mix_view()),
            paths matches Ok(routes) ==> rows(routes@) == cartesian_product(
                route_layers(self.mix_view(), self.provider_view()),
            ),
            paths matches Err(error) ==> describes_failure(error, self.mix_view()),
    {
        broadcast use vstd::std_specs::hash::group_hash_axioms;

        let mut layered_topology = match self.make_layered_topology() {
            Ok(layered_topology) => layered_topology,
            Err(error) => {
                return Err(error);
            },
        };
        let providers = self.providers();
        let ghost nodes = self.mix_view();
        proof {
            lemma_layer_numbers_len(highest_layer(nodes));
            lemma_routable_iff_layers_complete(nodes);
        }
        let num_layers = layered_topology.len();
        let mut sorted_layers: Vec<Vec<route::Node>> = Vec::new();
        let mut layer: u64 = 1;
        while layer <= num_layers as u64
            invariant
                num_layers == highest_layer(nodes),
                num_layers <= MAX_PATH_LENGTH,
                1 <= layer <= num_layers + 1,
                sorted_layers@.len() == layer - 1,
                forall|i: int|
                    0 <= i < sorted_layers@.len() ==> (#[trigger] sorted_layers@[i])@
                        == hops_of_layer(nodes, (i + 1) as u64),
                forall|other: u64|
                    layer <= other <= num_layers ==> #[trigger] layered_topology@.contains_key(
                        other,
                    ) && layered_topology@[other]@ == layer_bucket(nodes, other),
            decreases num_layers + 1 - layer,
        {
            assert(layered_topology@.contains_key(layer));
            let layer_nodes = layered_topology.remove(&layer).unwrap();
            let hops = mix_hops(&layer_nodes);
            assert(hops@ =~= hops_of_layer(nodes, layer));
            sorted_layers.push(hops);
            layer += 1;
        }
        // the providers come last
        sorted_layers.push(provider_route_nodes(&providers));
        assert(rows(sorted_layers@) =~= route_layers(nodes, providers@));

        Ok(multi_cartesian_product(sorted_layers))
    }

    /// The topology without the nodes whose declared version is not
    /// compatible with the one expected of their class. Each class is
    /// filtered by itself, and the order of the nodes stays.
    fn filter_node_versions(
        &self,
        expected_mix_version: &str,
        expected_provider_version: &str,
        expected_coco_version: &str,
    ) -> (filtered: Self)
        ensures
            filtered.mix_view() == compatible_nodes(self.mix_view(), expected_mix_version@),
            filtered.provider_view() == compatible_nodes(
                self.provider_view(),
                expected_provider_version@,
            ),
            filtered.coco_view() == compatible_nodes(self.coco_view(), expected_coco_version@),
    {
        let mixes = Filter::new(self.mix_nodes()).run(expected_mix_version);
        let providers = Filter::new(self.providers()).run(expected_provider_version);
        let cocos = Filter::new(self.coco_nodes()).run(expected_coco_version);

        Self::new_from_nodes(mixes, providers, cocos)
    }

    /// The nodes of `nodes` whose declared version is compatible with
    /// `expected_version`, in their order.
    fn filter<T: Versioned>(&self, nodes: Vec<T>, expected_version: &str) -> (kept: Vec<T>)
        ensures
            kept@ == compatible_nodes(nodes@, expected_version@),
    {
        Filter::new(nodes).run(expected_version)
    }

    /// Whether a route can be laid through the topology.
    fn can_construct_path_through(&self) -> (possible: bool)
        ensures
            possible == is_routable(self.mix_view()),
    {
        match self.make_layered_topology() {
            Ok(_) => true,
            Err(_) => false,
        }
    }
}

/// The topology as the directory gave it.
pub struct Topology {
    mix_nodes: Vec<mix::Node>,
    mix_provider_nodes: Vec<provider::Node>,
    coco_nodes: Vec<coco::Node>,
}

impl NymTopology for Topology {
    closed spec fn mix_view(&self) -> Seq<mix::Node> {
        self.mix_nodes@
    }

    closed spec fn provider_view(&self) -> Seq<provider::Node> {
        self.mix_provider_nodes@
    }

    closed spec fn coco_view(&self) -> Seq<coco::Node> {
        self.coco_nodes@
    }

    fn new_from_nodes(
        mix_nodes: Vec<mix::Node>,
        mix_provider_nodes: Vec<provider::Node>,
        coco_nodes: Vec<coco::Node>,
    ) -> (topology: Self) {
        Topology { mix_nodes, mix_provider_nodes, coco_nodes }
    }

    fn mix_nodes(&self) -> (nodes: Vec<mix::Node>) {
        clone_nodes(&self.mix_nodes)
    }

    fn providers(&self) -> (nodes: Vec<provider::Node>) {
        clone_nodes(&self.mix_provider_nodes)
    }

    fn coco_nodes(&self) -> (nodes: Vec<coco::Node>) {
        clone_nodes(&self.coco_nodes)
    }
}

} // verus!
