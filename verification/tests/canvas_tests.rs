use std::collections::HashMap;

use common_game::components::resource::{BasicResourceType, ResourceType};
use galaxy_ui::bag::BagContent;
use galaxy_ui::canvas::{edge_segments, explorer_label, explorers_on_planet, planet_state_text};

#[test]
fn explorers_standing_on_a_planet() {
    let mut positions = HashMap::new();
    positions.insert(100u32, 1u32);
    positions.insert(101u32, 2u32);
    positions.insert(102u32, 1u32);
    let mut on_one = explorers_on_planet(&positions, 1);
    on_one.sort();
    assert_eq!(on_one, vec![100, 102]);
    assert_eq!(explorers_on_planet(&positions, 2), vec![101]);
    assert!(explorers_on_planet(&positions, 3).is_empty());
}

#[test]
fn explorer_label_with_and_without_bag() {
    assert_eq!(explorer_label("Vojager", 12, None), "Vojager 12\nbag: loading");
    let empty = BagContent { resources_amounts: Vec::new() };
    assert_eq!(explorer_label("Nomad", 3, Some(&empty)), "Nomad 3\nbag: empty");
    let bag = BagContent { resources_amounts: vec![(ResourceType::Basic(BasicResourceType::Oxygen), 5)] };
    assert_eq!(explorer_label("Nomad", 3, Some(&bag)), "Nomad 3\nbag: Basic(Oxygen):5");
}

#[test]
fn planet_state_line() {
    assert_eq!(planet_state_text(true, 2, 3), "🚀 ⚡2/3");
    assert_eq!(planet_state_text(false, 0, 10), "⚡0/10");
    assert_eq!(planet_state_text(false, 12, 120), "⚡12/120");
}

#[test]
fn segments_skip_edges_with_unknown_ends() {
    let mut pos = HashMap::new();
    pos.insert(1u32, (0, 0));
    pos.insert(2u32, (5, 5));
    pos.insert(3u32, (9, 1));
    let edges = vec![(1, 2), (2, 4), (1, 3)];
    assert_eq!(edge_segments(&edges, &pos), vec![((0, 0), (5, 5)), ((0, 0), (9, 1))]);
    assert!(edge_segments(&Vec::new(), &pos).is_empty());
}

#[test]
fn explorers_come_in_the_map_order() {
    let mut positions = HashMap::new();
    for e in 0u32..20 {
        positions.insert(100 + e, e % 3);
    }
    let expected: Vec<u32> = positions.iter().filter(|(_, p)| **p == 1).map(|(e, _)| *e).collect();
    assert_eq!(explorers_on_planet(&positions, 1), expected);
}
