//! Which menus, popups and selections the viewer currently shows.
use vstd::prelude::*;

use std::collections::HashSet;

use common_game::components::resource::{BasicResourceType, ComplexResourceType};
use common_game::utils::ID;

verus! {

broadcast use vstd::std_specs::hash::group_hash_axioms;

/// How far the user has got in spawning a new planet.
#[derive(Clone, Copy, Debug, PartialEq, Eq, Structural)]
pub enum SpawnStage {
    /// No planet is being spawned.
    Idle,
    /// A planet is being spawned and its neighbours are being picked.
    SelectingNeighbors,
}

/// The context menu to show this frame, with the point it opens at.
#[derive(Debug, PartialEq, Eq)]
pub enum ContextMenu<P> {
    Hidden,
    Planet(ID, P),
    Explorer(ID, P),
}

/// The interactive state of the viewer; positions on screen are of type `P`.
pub struct UiState<P> {
    pub pending_spawn_pos: Option<P>,
    pub spawn_stage: SpawnStage,
    pub selected_neighbors: HashSet<ID>,
    pub selected_planet: Option<ID>,
    pub context_menu_pos: Option<P>,
    pub selected_explorer: Option<ID>,
    pub pending_move_explorer: Option<ID>,
    pub pending_move_pos: Option<P>,
    pub explorer_limit_popup: Option<String>,
    pub game_over_popup: Option<String>,
    pub pending_generate_explorer: Option<ID>,
    pub pending_craft_explorer: Option<ID>,
    pub resource_options: Option<Vec<BasicResourceType>>,
    pub combination_options: Option<Vec<ComplexResourceType>>,
}

impl<P> UiState<P> {
    /// Nothing selected, nothing pending, no popup, no spawn under way.
    pub open spec fn is_idle(&self) -> bool {
        &&& self.pending_spawn_pos is None
        &&& self.spawn_stage == SpawnStage::Idle
        &&& self.selected_neighbors@ == Set::<ID>::empty()
        &&& self.selected_planet is None
        &&& self.context_menu_pos is None
        &&& self.selected_explorer is None
        &&& self.pending_move_explorer is None
        &&& self.pending_move_pos is None
        &&& self.explorer_limit_popup is None
        &&& self.game_over_popup is None
        &&& self.pending_generate_explorer is None
        &&& self.pending_craft_explorer is None
        &&& self.resource_options is None
        &&& self.combination_options is None
    }

    /// The state the viewer starts in: idle.
    pub fn new() -> (s: Self)
        ensures
            s.is_idle(),
    {
        UiState {
            pending_spawn_pos: None,
            spawn_stage: SpawnStage::Idle,
            selected_neighbors: HashSet::new(),
            selected_planet: None,
            context_menu_pos: None,
            selected_explorer: None,
            pending_move_explorer: None,
            pending_move_pos: None,
            explorer_limit_popup: None,
            game_over_popup: None,
            pending_generate_explorer: None,
            pending_craft_explorer: None,
            resource_options: None,
            combination_options: None,
        }
    }

    /// Closes the planet menu: no planet selected, no menu position; the
    /// rest stays.
    pub fn close_planet_menu(&mut self)
        ensures
            *final(self) == (UiState { selected_planet: None, context_menu_pos: None, ..*old(self) }),
    {
        self.selected_planet = None;
        self.context_menu_pos = None;
    }

    /// Closes the explorer menu: no explorer selected, no menu position;
    /// the rest stays.
    pub fn close_explorer_menu(&mut self)
        ensures
            *final(self) == (UiState {
                selected_explorer: None,
                context_menu_pos: None,
                ..*old(self)
            }),
    {
        self.selected_explorer = None;
        self.context_menu_pos = None;
    }

    /// Abandons a planet spawn: no pending position, no stage, no chosen
    /// neighbours; the rest stays.
    pub fn cancel_spawn(&mut self)
        ensures
            final(self).pending_spawn_pos is None,
            final(self).spawn_stage == SpawnStage::Idle,
            final(self).selected_neighbors@ == Set::<ID>::empty(),
            final(self).selected_planet == old(self).selected_planet,
            final(self).context_menu_pos == old(self).context_menu_pos,
            final(self).selected_explorer == old(self).selected_explorer,
            final(self).pending_move_explorer == old(self).pending_move_explorer,
            final(self).pending_move_pos == old(self).pending_move_pos,
            final(self).explorer_limit_popup == old(self).explorer_limit_popup,
            final(self).game_over_popup == old(self).game_over_popup,
            final(self).pending_generate_explorer == old(self).pending_generate_explorer,
            final(self).pending_craft_explorer == old(self).pending_craft_explorer,
            final(self).resource_options == old(self).resource_options,
            final(self).combination_options == old(self).combination_options,
    {
        self.pending_spawn_pos = None;
        self.spawn_stage = SpawnStage::Idle;
        self.selected_neighbors.clear();
    }

    /// A right click on planet `id` at `pos`: the planet menu opens there.
    pub fn select_planet(&mut self, id: ID, pos: P)
        ensures
            *final(self) == (UiState {
                selected_planet: Some(id),
                context_menu_pos: Some(pos),
                ..*old(self)
            }),
    {
        self.selected_planet = Some(id);
        self.context_menu_pos = Some(pos);
    }

    /// A right click on explorer `id` at `pos`: the explorer menu opens
    /// there, in place of any planet menu.
    pub fn select_explorer(&mut self, id: ID, pos: P)
        ensures
            *final(self) == (UiState {
                selected_explorer: Some(id),
                selected_planet: None,
                context_menu_pos: Some(pos),
                ..*old(self)
            }),
    {
        self.selected_explorer = Some(id);
        self.selected_planet = None;
        self.context_menu_pos = Some(pos);
    }
}

/// The context menu of a state: the explorer menu when an explorer is
/// selected and a menu position is set, else the planet menu when a planet
/// is selected and a position is set, else none.
pub open spec fn spec_context_menu<P>(s: &UiState<P>) -> ContextMenu<P> {
    match (s.selected_explorer, s.context_menu_pos) {
        (Some(e), Some(pos)) => ContextMenu::Explorer(e, pos),
        (None, Some(pos)) => match s.selected_planet {
            Some(p) => ContextMenu::Planet(p, pos),
            None => ContextMenu::Hidden,
        },
        _ => ContextMenu::Hidden,
    }
}

impl<P: Copy> UiState<P> {
    /// Which context menu to show this frame: an explorer menu wins over a
    /// planet menu, and no menu opens without a position.
    pub fn context_menu(&self) -> (m: ContextMenu<P>)
        ensures
            m == spec_context_menu(self),
    {
        match (self.selected_explorer, self.context_menu_pos) {
            (Some(e), Some(pos)) => ContextMenu::Explorer(e, pos),
            (None, Some(pos)) => match self.selected_planet {
                Some(p) => ContextMenu::Planet(p, pos),
                None => ContextMenu::Hidden,
            },
            _ => ContextMenu::Hidden,
        }
    }
}

/// Closing a menu twice is closing it once.
pub proof fn lemma_close_menus_idempotent<P>(s: UiState<P>)
    ensures
        ({
            let once = UiState { selected_planet: None, context_menu_pos: None, ..s };
            let twice = UiState { selected_planet: None, context_menu_pos: None, ..once };
            once == twice
        }),
        ({
            let once = UiState { selected_explorer: None, context_menu_pos: None, ..s };
            let twice = UiState { selected_explorer: None, context_menu_pos: None, ..once };
            once == twice
        }),
{
}

/// After either menu is closed, no context menu shows; after a right click
/// on a planet with no explorer selected, that planet's menu shows at the
/// click; after a right click on an explorer, that explorer's menu shows.
pub proof fn lemma_menu_after_actions<P>(s: UiState<P>, id: ID, pos: P)
    ensures
        spec_context_menu(&UiState { selected_planet: None, context_menu_pos: None, ..s })
            == ContextMenu::<P>::Hidden,
        spec_context_menu(&UiState { selected_explorer: None, context_menu_pos: None, ..s })
            == ContextMenu::<P>::Hidden,
        s.selected_explorer is None ==> spec_context_menu(
            &UiState { selected_planet: Some(id), context_menu_pos: Some(pos), ..s },
        ) == ContextMenu::Planet(id, pos),
        spec_context_menu(
            &UiState {
                selected_explorer: Some(id),
                selected_planet: None,
                context_menu_pos: Some(pos),
                ..s
            },
        ) == ContextMenu::Explorer(id, pos),
{
}

} // verus!
