use galaxy_ui::ui_state::{ContextMenu, SpawnStage, UiState};

#[test]
fn new_state_is_idle() {
    let s: UiState<(i32, i32)> = UiState::new();
    assert!(s.pending_spawn_pos.is_none());
    assert_eq!(s.spawn_stage, SpawnStage::Idle);
    assert!(s.selected_neighbors.is_empty());
    assert!(s.selected_planet.is_none());
    assert!(s.context_menu_pos.is_none());
    assert!(s.selected_explorer.is_none());
    assert!(s.explorer_limit_popup.is_none());
    assert!(s.game_over_popup.is_none());
    assert!(s.resource_options.is_none());
    assert!(s.combination_options.is_none());
    assert_eq!(s.context_menu(), ContextMenu::Hidden);
}

#[test]
fn right_click_on_planet_opens_its_menu() {
    let mut s: UiState<(i32, i32)> = UiState::new();
    s.select_planet(4, (10, 20));
    assert_eq!(s.selected_planet, Some(4));
    assert_eq!(s.context_menu_pos, Some((10, 20)));
    assert_eq!(s.context_menu(), ContextMenu::Planet(4, (10, 20)));
    s.close_planet_menu();
    assert_eq!(s.selected_planet, None);
    assert_eq!(s.context_menu_pos, None);
    assert_eq!(s.context_menu(), ContextMenu::Hidden);
}

#[test]
fn explorer_menu_wins_over_planet_menu() {
    let mut s: UiState<(i32, i32)> = UiState::new();
    s.select_planet(4, (10, 20));
    s.select_explorer(9, (11, 21));
    assert_eq!(s.selected_planet, None);
    assert_eq!(s.context_menu(), ContextMenu::Explorer(9, (11, 21)));
    s.selected_planet = Some(4);
    assert_eq!(s.context_menu(), ContextMenu::Explorer(9, (11, 21)));
    s.close_explorer_menu();
    assert_eq!(s.selected_explorer, None);
    assert_eq!(s.context_menu(), ContextMenu::Hidden);
    // a planet stays selected but without a position no menu opens
    assert_eq!(s.selected_planet, Some(4));
}

#[test]
fn closing_twice_is_closing_once() {
    let mut s: UiState<(i32, i32)> = UiState::new();
    s.select_planet(1, (0, 0));
    s.pending_move_explorer = Some(3);
    s.close_planet_menu();
    s.close_planet_menu();
    assert_eq!(s.selected_planet, None);
    assert_eq!(s.pending_move_explorer, Some(3));
}

#[test]
fn cancel_spawn_clears_the_spawn_only() {
    let mut s: UiState<(i32, i32)> = UiState::new();
    s.pending_spawn_pos = Some((5, 5));
    s.spawn_stage = SpawnStage::SelectingNeighbors;
    s.selected_neighbors.insert(3);
    s.selected_neighbors.insert(4);
    s.select_planet(2, (1, 1));
    s.cancel_spawn();
    assert!(s.pending_spawn_pos.is_none());
    assert_eq!(s.spawn_stage, SpawnStage::Idle);
    assert!(s.selected_neighbors.is_empty());
    assert_eq!(s.selected_planet, Some(2));
    assert_eq!(s.context_menu_pos, Some((1, 1)));
}
