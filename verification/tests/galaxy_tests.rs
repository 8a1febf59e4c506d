use std::collections::{HashMap, HashSet};

use galaxy_ui::galaxy::{
    build_planets_and_edges_from_galaxy, canonical_edge, map_keys, planet_group_name, planet_label,
    GalaxyNode, PlanetKind,
};

#[test]
fn canonical_edge_orders_its_ends() {
    assert_eq!(canonical_edge(3, 1), Some((1, 3)));
    assert_eq!(canonical_edge(1, 3), Some((1, 3)));
    assert_eq!(canonical_edge(2, 2), None);
}

#[test]
fn canonical_edge_is_symmetric() {
    for a in 0..6u32 {
        for b in 0..6u32 {
            assert_eq!(canonical_edge(a, b), canonical_edge(b, a));
        }
    }
}

#[test]
fn group_names() {
    assert_eq!(planet_group_name(PlanetKind::Trip), "Trip");
    assert_eq!(planet_group_name(PlanetKind::Rustrelli), "Rustrelli");
    assert_eq!(planet_group_name(PlanetKind::Luna4), "Luna4");
    assert_eq!(planet_group_name(PlanetKind::RustyCrab), "Rusty Crabs");
    assert_eq!(planet_group_name(PlanetKind::Enterprise), "Enterprise");
    assert_eq!(planet_group_name(PlanetKind::Orbitron), "Orbitron");
    assert_eq!(planet_group_name(PlanetKind::Houston), "Houston");
}

#[test]
fn planet_label_has_name_and_id() {
    assert_eq!(planet_label(PlanetKind::RustyCrab, 7), "Rusty Crabs (7)");
    assert_eq!(planet_label(PlanetKind::Houston, 1203), "Houston (1203)");
}

#[test]
fn map_keys_lists_each_key_once() {
    let mut m = HashMap::new();
    m.insert(4u32, 'a');
    m.insert(8u32, 'b');
    m.insert(1u32, 'c');
    let mut keys = map_keys(&m);
    keys.sort();
    assert_eq!(keys, vec![1, 4, 8]);
}

fn node(kind: PlanetKind, alive: bool, neighbors: Vec<u32>) -> GalaxyNode {
    GalaxyNode { kind, alive, neighbors }
}

#[test]
fn planets_in_id_order_with_labels_and_edges_once() {
    let mut g = HashMap::new();
    g.insert(20u32, node(PlanetKind::Orbitron, true, vec![10, 30, 20]));
    g.insert(10u32, node(PlanetKind::Trip, false, vec![20]));
    g.insert(30u32, node(PlanetKind::Luna4, true, vec![20, 20]));
    let layout = vec![(0, 0), (1, 1), (2, 2)];
    let (planets, edges) = build_planets_and_edges_from_galaxy(&g, &layout);
    let ids: Vec<u32> = planets.iter().map(|p| p.id).collect();
    assert_eq!(ids, vec![10, 20, 30]);
    assert_eq!(planets[0].name, "Trip (10)");
    assert_eq!(planets[1].name, "Orbitron (20)");
    assert_eq!(planets[2].name, "Luna4 (30)");
    assert!(!planets[0].active);
    assert!(planets[1].active);
    assert_eq!(planets[2].pos, (2, 2));
    assert_eq!(edges.len(), 2);
    let set: HashSet<(u32, u32)> = edges.into_iter().collect();
    assert_eq!(set, [(10, 20), (20, 30)].into_iter().collect());
}

#[test]
fn many_planets_come_out_sorted() {
    let mut g = HashMap::new();
    for id in [9u32, 2, 7, 0, 5, 11, 3] {
        g.insert(id, node(PlanetKind::Houston, true, vec![]));
    }
    let layout: Vec<u8> = (0..7).collect();
    let (planets, edges) = build_planets_and_edges_from_galaxy(&g, &layout);
    let ids: Vec<u32> = planets.iter().map(|p| p.id).collect();
    assert_eq!(ids, vec![0, 2, 3, 5, 7, 9, 11]);
    let pos: Vec<u8> = planets.iter().map(|p| p.pos).collect();
    assert_eq!(pos, layout);
    assert!(edges.is_empty());
}

#[test]
fn empty_galaxy_has_nothing_to_draw() {
    let g: HashMap<u32, GalaxyNode> = HashMap::new();
    let layout: Vec<(i32, i32)> = Vec::new();
    let (planets, edges) = build_planets_and_edges_from_galaxy(&g, &layout);
    assert!(planets.is_empty());
    assert!(edges.is_empty());
}
