use std::collections::HashMap;

use galaxy_ui::galaxy::{GalaxyNode, Planet, PlanetKind};
use galaxy_ui::galaxy_state::GalaxyState;

fn galaxy() -> HashMap<u32, GalaxyNode> {
    let mut g = HashMap::new();
    g.insert(2u32, GalaxyNode { kind: PlanetKind::Enterprise, alive: true, neighbors: vec![1] });
    g.insert(1u32, GalaxyNode { kind: PlanetKind::Rustrelli, alive: true, neighbors: vec![2] });
    g
}

#[test]
fn new_state_is_empty_and_wants_a_rebuild() {
    let s: GalaxyState<(f32, f32)> = GalaxyState::new();
    assert!(s.planets.is_empty());
    assert!(s.edges.is_empty());
    assert!(s.planet_states.is_empty());
    assert!(s.cached_pos_by_id.is_empty());
    assert!(s.galaxy_needs_rebuild);
}

#[test]
fn rebuild_waits_for_a_galaxy() {
    let mut s: GalaxyState<(f32, f32)> = GalaxyState::new();
    assert!(!s.rebuild_if_needed(None, &Vec::new()));
    assert!(s.galaxy_needs_rebuild);
    assert!(s.planets.is_empty());
}

#[test]
fn rebuild_happens_once() {
    let mut s: GalaxyState<(f32, f32)> = GalaxyState::new();
    let g = galaxy();
    assert!(s.rebuild_if_needed(Some(&g), &vec![(0.0, 1.0), (2.0, 3.0)]));
    assert!(!s.galaxy_needs_rebuild);
    assert_eq!(s.planets.len(), 2);
    assert_eq!(s.planets[0].id, 1);
    assert_eq!(s.planets[0].pos, (0.0, 1.0));
    assert_eq!(s.planets[1].name, "Enterprise (2)");
    assert_eq!(s.edges, vec![(1, 2)]);
    // nothing to do until a rebuild is flagged again
    assert!(!s.rebuild_if_needed(Some(&g), &vec![(9.0, 9.0), (9.0, 9.0)]));
    assert_eq!(s.planets[0].pos, (0.0, 1.0));
}

fn planet(id: u32, pos: (i32, i32)) -> Planet<(i32, i32)> {
    Planet { id, pos, name: String::new(), active: true }
}

#[test]
fn refresh_fills_an_empty_cache() {
    let mut s: GalaxyState<(i32, i32)> = GalaxyState::new();
    s.planets = vec![planet(5, (1, 1)), planet(6, (2, 2))];
    s.refresh_pos_cache();
    assert_eq!(s.cached_pos_by_id.len(), 2);
    assert_eq!(s.cached_pos_by_id[&5], (1, 1));
    assert_eq!(s.cached_pos_by_id[&6], (2, 2));
}

#[test]
fn refresh_twice_is_refresh_once() {
    let mut s: GalaxyState<(i32, i32)> = GalaxyState::new();
    s.planets = vec![planet(5, (1, 1)), planet(6, (2, 2))];
    s.refresh_pos_cache();
    let once = s.cached_pos_by_id.clone();
    s.refresh_pos_cache();
    assert_eq!(s.cached_pos_by_id, once);
}

#[test]
fn refresh_follows_every_change_of_the_planet_list() {
    let mut s: GalaxyState<(i32, i32)> = GalaxyState::new();
    s.planets = vec![planet(5, (1, 1))];
    s.refresh_pos_cache();
    s.planets = vec![planet(5, (3, 3)), planet(7, (4, 4))];
    s.refresh_pos_cache();
    assert_eq!(s.cached_pos_by_id[&5], (3, 3));
    assert_eq!(s.cached_pos_by_id[&7], (4, 4));
    // same number of planets, new positions: the cache follows them
    s.planets = vec![planet(5, (8, 8)), planet(7, (9, 9))];
    s.refresh_pos_cache();
    assert_eq!(s.cached_pos_by_id[&5], (8, 8));
    assert_eq!(s.cached_pos_by_id[&7], (9, 9));
    // same number of planets, other ids: old ids are gone
    s.planets = vec![planet(1, (0, 1)), planet(2, (0, 2))];
    s.refresh_pos_cache();
    assert_eq!(s.cached_pos_by_id.len(), 2);
    assert!(!s.cached_pos_by_id.contains_key(&5));
    assert_eq!(s.cached_pos_by_id[&2], (0, 2));
}
