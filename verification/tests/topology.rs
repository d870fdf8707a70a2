use nym_client::topology::filter::{Filter, Versioned};
use nym_client::topology::{coco, mix, provider, route};
use nym_client::topology::{NymTopology, NymTopologyError, Topology};

fn mix_node(name: &str, layer: u64, version: &str) -> mix::Node {
    mix::Node {
        identity: format!("{}-id", name),
        host: format!("{}.mix:1789", name),
        pub_key: format!("{}-key", name),
        layer,
        version: version.to_string(),
    }
}

fn provider_node(name: &str, version: &str) -> provider::Node {
    provider::Node {
        identity: format!("{}-id", name),
        host: format!("{}.provider:1789", name),
        version: version.to_string(),
    }
}

fn coco_node(name: &str, version: &str) -> coco::Node {
    coco::Node {
        identity: format!("{}-id", name),
        version: version.to_string(),
    }
}

fn mix_hop(name: &str) -> (String, String) {
    (format!("{}.mix:1789", name), format!("{}-key", name))
}

fn provider_hop(name: &str) -> (String, String) {
    (format!("{}.provider:1789", name), format!("{}-id", name))
}

fn as_pairs(route: &Vec<route::Node>) -> Vec<(String, String)> {
    route
        .iter()
        .map(|hop| (hop.address.clone(), hop.pub_key.clone()))
        .collect()
}

fn topology(mixes: Vec<mix::Node>, providers: Vec<provider::Node>) -> Topology {
    Topology::new_from_nodes(mixes, providers, Vec::new())
}

fn two_layers() -> Topology {
    topology(
        vec![
            mix_node("a", 1, "0.3.0"),
            mix_node("c", 2, "0.3.0"),
            mix_node("b", 1, "0.3.0"),
        ],
        vec![provider_node("p", "0.3.0")],
    )
}

#[test]
fn layered_view_of_two_complete_layers() {
    let layered = two_layers().make_layered_topology().unwrap();
    assert_eq!(layered.len(), 2);
    let first: Vec<String> = layered[&1].iter().map(|n| n.identity.clone()).collect();
    let second: Vec<String> = layered[&2].iter().map(|n| n.identity.clone()).collect();
    assert_eq!(first, vec!["a-id".to_string(), "b-id".to_string()]);
    assert_eq!(second, vec!["c-id".to_string()]);
}

#[test]
fn mix_route_takes_one_node_of_each_layer_then_the_provider() {
    let topology = two_layers();
    let mut seen_a = false;
    let mut seen_b = false;
    for _ in 0..200 {
        let route = as_pairs(&topology.mix_route().unwrap());
        assert_eq!(route.len(), 3);
        assert!(route[0] == mix_hop("a") || route[0] == mix_hop("b"));
        seen_a = seen_a || route[0] == mix_hop("a");
        seen_b = seen_b || route[0] == mix_hop("b");
        assert_eq!(route[1], mix_hop("c"));
        assert_eq!(route[2], provider_hop("p"));
    }
    assert!(seen_a && seen_b);
}

#[test]
fn mix_part_has_no_provider() {
    let route = as_pairs(&two_layers().mix_part().unwrap());
    assert_eq!(route.len(), 2);
    assert!(route[0] == mix_hop("a") || route[0] == mix_hop("b"));
    assert_eq!(route[1], mix_hop("c"));
}

#[test]
fn mix_route_draws_among_the_providers() {
    let topology = topology(
        vec![mix_node("a", 1, "0.3.0")],
        vec![provider_node("p", "0.3.0"), provider_node("q", "0.3.0")],
    );
    let mut seen_p = false;
    let mut seen_q = false;
    for _ in 0..200 {
        let route = as_pairs(&topology.mix_route().unwrap());
        assert_eq!(route.len(), 2);
        assert_eq!(route[0], mix_hop("a"));
        assert!(route[1] == provider_hop("p") || route[1] == provider_hop("q"));
        seen_p = seen_p || route[1] == provider_hop("p");
        seen_q = seen_q || route[1] == provider_hop("q");
    }
    assert!(seen_p && seen_q);
}

#[test]
fn the_first_provider_of_an_identity_is_found() {
    let mut second = provider_node("p", "0.4.0");
    second.host = "other.provider:1789".to_string();
    let topology = topology(
        vec![mix_node("a", 1, "0.3.0")],
        vec![provider_node("q", "0.3.0"), provider_node("p", "0.3.0"), second],
    );
    let found = topology.find_provider("p-id").unwrap();
    assert_eq!(found.host, "p.provider:1789");
    assert_eq!(found.version, "0.3.0");
    assert!(topology.find_provider("r-id").is_none());
    assert!(topology.find_provider("").is_none());
}

#[test]
fn a_fresh_route_ends_in_the_provider_that_is_asked_for() {
    let topology = topology(
        vec![mix_node("a", 1, "0.3.0")],
        vec![provider_node("p", "0.3.0"), provider_node("q", "0.3.0")],
    );
    for _ in 0..50 {
        assert_eq!(
            as_pairs(&topology.fresh_route(Some("q-id")).unwrap()),
            vec![mix_hop("a"), provider_hop("q")]
        );
    }
    for wanted in [None, Some("unknown-id")] {
        let route = as_pairs(&topology.fresh_route(wanted).unwrap());
        assert_eq!(route.len(), 2);
        assert_eq!(route[0], mix_hop("a"));
        assert!(route[1] == provider_hop("p") || route[1] == provider_hop("q"));
    }
    let broken = self::topology(vec![mix_node("b", 2, "0.3.0")], Vec::new());
    assert!(matches!(
        broken.fresh_route(Some("q-id")),
        Err(NymTopologyError::MissingLayerError(_))
    ));
}

#[test]
fn route_to_ends_in_the_given_provider() {
    let target = route::Node::new("elsewhere:1789".to_string(), "other-key".to_string());
    let route = as_pairs(&two_layers().route_to(target).unwrap());
    assert_eq!(route.len(), 3);
    assert_eq!(route[1], mix_hop("c"));
    assert_eq!(
        route[2],
        ("elsewhere:1789".to_string(), "other-key".to_string())
    );
}

#[test]
fn a_gap_between_layers_is_reported() {
    let topology = topology(
        vec![mix_node("a", 1, "0.3.0"), mix_node("b", 3, "0.3.0")],
        vec![provider_node("p", "0.3.0")],
    );
    match topology.make_layered_topology() {
        Err(NymTopologyError::MissingLayerError(layers)) => assert_eq!(layers, vec![2]),
        other => panic!("unexpected: {:?}", other.map(|layered| layered.len())),
    }
    assert!(!topology.can_construct_path_through());
    assert!(matches!(
        topology.mix_route(),
        Err(NymTopologyError::MissingLayerError(_))
    ));
    assert!(matches!(
        topology.mix_part(),
        Err(NymTopologyError::MissingLayerError(_))
    ));
    assert!(matches!(
        topology.all_paths(),
        Err(NymTopologyError::MissingLayerError(_))
    ));
}

#[test]
fn every_missing_layer_is_named() {
    let topology = topology(
        vec![mix_node("x", 5, "0.3.0"), mix_node("y", 2, "0.3.0")],
        Vec::new(),
    );
    match topology.make_layered_topology() {
        Err(NymTopologyError::MissingLayerError(layers)) => assert_eq!(layers, vec![1, 3, 4]),
        other => panic!("unexpected: {:?}", other.map(|layered| layered.len())),
    }
}

#[test]
fn a_layer_beyond_the_longest_path_is_refused() {
    let topology = topology(
        vec![mix_node("a", 1, "0.3.0"), mix_node("far", 6, "0.3.0")],
        vec![provider_node("p", "0.3.0")],
    );
    assert!(matches!(
        topology.make_layered_topology(),
        Err(NymTopologyError::InvalidMixLayerError)
    ));
    assert!(matches!(
        topology.route_to(route::Node::new("p".to_string(), "k".to_string())),
        Err(NymTopologyError::InvalidMixLayerError)
    ));
    assert!(!topology.can_construct_path_through());
}

#[test]
fn the_longest_path_itself_is_accepted() {
    let topology = topology(
        vec![
            mix_node("a", 1, "0.3.0"),
            mix_node("b", 2, "0.3.0"),
            mix_node("c", 3, "0.3.0"),
            mix_node("d", 4, "0.3.0"),
            mix_node("e", 5, "0.3.0"),
        ],
        vec![provider_node("p", "0.3.0")],
    );
    assert!(topology.can_construct_path_through());
    assert_eq!(topology.mix_route().unwrap().len(), 6);
}

#[test]
fn a_node_of_layer_zero_belongs_to_no_layer() {
    let topology = topology(
        vec![mix_node("z", 0, "0.3.0"), mix_node("a", 1, "0.3.0")],
        vec![provider_node("p", "0.3.0")],
    );
    let layered = topology.make_layered_topology().unwrap();
    assert_eq!(layered.len(), 1);
    assert!(!layered.contains_key(&0));
    assert_eq!(
        as_pairs(&topology.mix_route().unwrap()),
        vec![mix_hop("a"), provider_hop("p")]
    );
}

#[test]
fn a_topology_without_mix_nodes_has_an_empty_view() {
    let topology = topology(Vec::new(), vec![provider_node("p", "0.3.0")]);
    assert!(topology.can_construct_path_through());
    assert_eq!(topology.make_layered_topology().unwrap().len(), 0);
    assert_eq!(topology.mix_part().unwrap().len(), 0);
    assert_eq!(
        as_pairs(&topology.mix_route().unwrap()),
        vec![provider_hop("p")]
    );
    let paths: Vec<_> = topology.all_paths().unwrap().iter().map(as_pairs).collect();
    assert_eq!(paths, vec![vec![provider_hop("p")]]);
}

#[test]
fn without_a_provider_the_route_is_its_mix_part() {
    let topology = topology(vec![mix_node("a", 1, "0.3.0")], Vec::new());
    assert!(topology.can_construct_path_through());
    assert_eq!(
        as_pairs(&topology.mix_route().unwrap()),
        vec![mix_hop("a")]
    );
    assert_eq!(topology.all_paths().unwrap().len(), 0);
}

#[test]
fn all_paths_are_every_combination_in_order() {
    let topology = topology(
        vec![
            mix_node("a", 1, "0.3.0"),
            mix_node("c", 2, "0.3.0"),
            mix_node("b", 1, "0.3.0"),
        ],
        vec![provider_node("p", "0.3.0"), provider_node("q", "0.3.0")],
    );
    let paths: Vec<_> = topology.all_paths().unwrap().iter().map(as_pairs).collect();
    assert_eq!(
        paths,
        vec![
            vec![mix_hop("a"), mix_hop("c"), provider_hop("p")],
            vec![mix_hop("a"), mix_hop("c"), provider_hop("q")],
            vec![mix_hop("b"), mix_hop("c"), provider_hop("p")],
            vec![mix_hop("b"), mix_hop("c"), provider_hop("q")],
        ]
    );
}

#[test]
fn the_number_of_paths_is_the_product_of_the_sizes() {
    let mut mixes = Vec::new();
    for (layer, size) in [(1u64, 3usize), (2, 2), (3, 4)] {
        for k in 0..size {
            mixes.push(mix_node(&format!("m{}x{}", layer, k), layer, "0.3.0"));
        }
    }
    let providers = vec![
        provider_node("p", "0.3.0"),
        provider_node("q", "0.3.0"),
        provider_node("r", "0.3.0"),
    ];
    let paths: Vec<_> = topology(mixes, providers)
        .all_paths()
        .unwrap()
        .iter()
        .map(as_pairs)
        .collect();
    assert_eq!(paths.len(), 3 * 2 * 4 * 3);
    for (i, path) in paths.iter().enumerate() {
        assert_eq!(path.len(), 4);
        for other in &paths[i + 1..] {
            assert_ne!(path, other);
        }
    }
}

#[test]
fn filter_keeps_the_compatible_nodes_of_each_class() {
    let topology = Topology::new_from_nodes(
        vec![
            mix_node("a", 1, "0.3.0"),
            mix_node("b", 1, "0.4.0"),
            mix_node("c", 2, "0.3.7"),
        ],
        vec![provider_node("p", "0.5.1"), provider_node("q", "0.3.0")],
        vec![coco_node("v", "1.0.0"), coco_node("w", "not a version")],
    );
    let filtered = topology.filter_node_versions("0.3.2", "0.5.0", "1.0.9");
    let mixes: Vec<String> = filtered.mix_nodes().iter().map(|n| n.identity.clone()).collect();
    let providers: Vec<String> = filtered.providers().iter().map(|n| n.identity.clone()).collect();
    let cocos: Vec<String> = filtered.coco_nodes().iter().map(|n| n.identity.clone()).collect();
    assert_eq!(mixes, vec!["a-id".to_string(), "c-id".to_string()]);
    assert_eq!(providers, vec!["p-id".to_string()]);
    assert_eq!(cocos, vec!["v-id".to_string()]);
    // the topology that was filtered is as it was
    assert_eq!(topology.mix_nodes().len(), 3);
    assert_eq!(topology.providers().len(), 2);
    assert_eq!(topology.coco_nodes().len(), 2);
}

#[test]
fn filtering_twice_is_filtering_once() {
    let topology = Topology::new_from_nodes(
        vec![
            mix_node("a", 1, "0.3.0"),
            mix_node("b", 1, "0.4.0"),
            mix_node("c", 2, "0.3.7"),
        ],
        vec![provider_node("p", "0.5.1"), provider_node("q", "0.3.0")],
        vec![coco_node("v", "1.0.0")],
    );
    let once = topology.filter_node_versions("0.3.2", "0.5.0", "1.0.9");
    let twice = once.filter_node_versions("0.3.2", "0.5.0", "1.0.9");
    let names = |nodes: Vec<mix::Node>| -> Vec<String> {
        nodes.iter().map(|n| n.identity.clone()).collect()
    };
    assert_eq!(names(once.mix_nodes()), names(twice.mix_nodes()));
    assert_eq!(once.providers().len(), twice.providers().len());
    assert_eq!(once.coco_nodes().len(), twice.coco_nodes().len());
}

#[test]
fn filter_of_one_class() {
    let nodes = vec![
        coco_node("a", "2.1.0"),
        coco_node("b", "2.10.0"),
        coco_node("c", "2.1.15"),
    ];
    let kept = Filter::new(nodes.clone()).run("2.1.3");
    let names: Vec<String> = kept.iter().map(|n| n.identity.clone()).collect();
    assert_eq!(names, vec!["a-id".to_string(), "c-id".to_string()]);
    let again = two_layers().filter(nodes, "2.10.9");
    assert_eq!(again.len(), 1);
    assert_eq!(again[0].get_version(), "2.10.0");
}
