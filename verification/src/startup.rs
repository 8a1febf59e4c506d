//! The start screen: which explorers to play with.
use vstd::prelude::*;

verus! {

/// The kinds of explorer a slot can hold.
#[derive(Clone, Copy, Debug, PartialEq, Eq, Structural)]
pub enum ExplorerType {
    Explorer,
    Vojager,
    Nomad,
}

/// The text shown for an explorer slot's choice.
pub open spec fn spec_explorer_choice_label(choice: Option<ExplorerType>) -> Seq<char> {
    match choice {
        Some(ExplorerType::Explorer) => "Nico Explorer"@,
        Some(ExplorerType::Vojager) => "Vojager"@,
        Some(ExplorerType::Nomad) => "Nomad"@,
        None => "None"@,
    }
}

/// The text shown for an explorer slot's choice.
pub fn explorer_choice_label(choice: Option<ExplorerType>) -> (s: &'static str)
    ensures
        s@ == spec_explorer_choice_label(choice),
{
    match choice {
        Some(ExplorerType::Explorer) => "Nico Explorer",
        Some(ExplorerType::Vojager) => "Vojager",
        Some(ExplorerType::Nomad) => "Nomad",
        None => "None",
    }
}

/// What the start screen reports back after a frame.
pub struct StartupMenuResult {
    pub start_requested: bool,
}

/// The game can start once the first explorer slot is filled.
pub fn can_start(slot_one: Option<ExplorerType>) -> (ok: bool)
    ensures
        ok == slot_one is Some,
{
    slot_one.is_some()
}

impl StartupMenuResult {
    /// The start button only works while the game can start: a start is
    /// requested when it was clicked and the first slot is filled.
    pub fn from_start_button(slot_one: Option<ExplorerType>, clicked: bool) -> (r: Self)
        ensures
            r.start_requested == (clicked && slot_one is Some),
    {
        StartupMenuResult { start_requested: clicked && can_start(slot_one) }
    }
}

} // verus!
