use galaxy_ui::startup::{can_start, explorer_choice_label, ExplorerType, StartupMenuResult};

#[test]
fn choice_labels() {
    assert_eq!(explorer_choice_label(Some(ExplorerType::Explorer)), "Nico Explorer");
    assert_eq!(explorer_choice_label(Some(ExplorerType::Vojager)), "Vojager");
    assert_eq!(explorer_choice_label(Some(ExplorerType::Nomad)), "Nomad");
    assert_eq!(explorer_choice_label(None), "None");
}

#[test]
fn start_needs_a_first_explorer() {
    assert!(!can_start(None));
    assert!(can_start(Some(ExplorerType::Nomad)));
    assert!(!StartupMenuResult::from_start_button(None, true).start_requested);
    assert!(!StartupMenuResult::from_start_button(Some(ExplorerType::Vojager), false).start_requested);
    assert!(StartupMenuResult::from_start_button(Some(ExplorerType::Vojager), true).start_requested);
}
