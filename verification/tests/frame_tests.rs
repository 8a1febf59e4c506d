use std::time::{Duration, Instant};

use galaxy_ui::frame::{
    active_planet_ids, advance_effect, drain_due_refreshes, find_planet, frame_commands, initial_commands,
    refresh_due, split_refreshes, UiCommand,
};
use galaxy_ui::galaxy::Planet;

fn planet(id: u32, active: bool) -> Planet<(i32, i32)> {
    Planet { id, pos: (0, 0), name: String::new(), active }
}

#[test]
fn first_requests() {
    assert_eq!(initial_commands(), vec![UiCommand::GetGalaxy, UiCommand::GetExplorersPosition]);
}

#[test]
fn only_active_planets_are_polled() {
    let planets = vec![planet(1, true), planet(2, false), planet(3, true)];
    assert_eq!(active_planet_ids(&planets), vec![1, 3]);
}

#[test]
fn frame_requests_in_order() {
    let planets = vec![planet(1, true), planet(2, false)];
    let explorers = vec![7, 8];
    assert_eq!(
        frame_commands(true, true, true, &planets, &explorers),
        vec![
            UiCommand::GetPlanetSnapshot(1),
            UiCommand::GetExplorerSnapshot(7),
            UiCommand::GetExplorerSnapshot(8),
            UiCommand::GetExplorersPosition,
        ]
    );
    assert!(frame_commands(false, false, false, &planets, &explorers).is_empty());
    assert_eq!(
        frame_commands(false, false, true, &planets, &explorers),
        vec![UiCommand::GetExplorersPosition]
    );
}

#[test]
fn refresh_due_after_100_ms() {
    assert!(!refresh_due(99_999_999));
    assert!(refresh_due(100_000_000));
}

#[test]
fn drain_takes_old_refreshes_and_keeps_new_ones() {
    let now = Instant::now();
    let old = now.checked_sub(Duration::from_millis(400)).unwrap();
    let mut queue = vec![(1u32, old), (2u32, now), (3u32, old)];
    let due = drain_due_refreshes(&mut queue);
    let due_ids: Vec<u32> = due.iter().map(|e| e.0).collect();
    assert_eq!(due_ids, vec![1, 3]);
    assert_eq!(queue.len(), 1);
    assert_eq!(queue[0].0, 2);
    let mut empty = Vec::new();
    assert!(drain_due_refreshes(&mut empty).is_empty());
}

#[test]
fn find_planet_finds_the_first() {
    let planets = vec![planet(4, true), planet(5, true), planet(5, false)];
    assert_eq!(find_planet(&planets, 5), Some(1));
    assert_eq!(find_planet(&planets, 6), None);
}

#[test]
fn effects_end_when_expired_or_planet_gone() {
    let planets = vec![planet(4, true)];
    let t = Instant::now();
    assert_eq!(advance_effect(Some((4, t)), &planets, false), Some((4, t)));
    assert_eq!(advance_effect(Some((4, t)), &planets, true), None);
    assert_eq!(advance_effect(Some((9, t)), &planets, false), None);
    assert_eq!(advance_effect(None, &planets, false), None);
}

#[test]
fn split_moves_the_last_entry_into_each_gap() {
    let t = Instant::now();
    let mut queue = vec![(1u32, t), (2u32, t), (3u32, t), (4u32, t)];
    let waited = vec![100_000_000u128, 99_999_999, 5_000_000_000, 0];
    let due = split_refreshes(&mut queue, &waited);
    let due_ids: Vec<u32> = due.iter().map(|e| e.0).collect();
    let kept_ids: Vec<u32> = queue.iter().map(|e| e.0).collect();
    assert_eq!(due_ids, vec![1, 3]);
    assert_eq!(kept_ids, vec![4, 2]);
}

#[test]
fn split_sends_in_swap_order() {
    let t = Instant::now();
    let mut queue = vec![(10u32, t), (20u32, t), (30u32, t)];
    let waited = vec![200_000_000u128; 3];
    let due = split_refreshes(&mut queue, &waited);
    let due_ids: Vec<u32> = due.iter().map(|e| e.0).collect();
    assert_eq!(due_ids, vec![10, 30, 20]);
    assert!(queue.is_empty());
}
