//! The galaxy as the viewer holds it between frames.
use vstd::prelude::*;

use std::collections::HashMap;

use common_game::components::planet::DummyPlanetState;
use common_game::utils::ID;

use crate::galaxy::{
    build_planets_and_edges_from_galaxy, galaxy_edge_set, planet_label_text, GalaxyNode, Planet,
};

verus! {

broadcast use vstd::std_specs::hash::group_hash_axioms;

#[verifier::external_type_specification]
#[verifier::external_body]
pub struct ExDummyPlanetState(DummyPlanetState);

/// `planets` and `edges` are what the galaxy `g` gives with the planet
/// positions `layout`: planets in increasing id order, planet `i` at
/// `layout[i]`, labelled and active as its node says; each undirected edge
/// once.
pub open spec fn built_from<P>(
    planets: Seq<Planet<P>>,
    edges: Seq<(ID, ID)>,
    g: Map<ID, GalaxyNode>,
    layout: Seq<P>,
) -> bool {
    &&& planets.len() == g.len()
    &&& forall|i: int, j: int| 0 <= i < j < planets.len() ==> planets[i].id < planets[j].id
    &&& planets.map_values(|p: Planet<P>| p.id).to_set() == g.dom()
    &&& forall|i: int|
        0 <= i < planets.len() ==> {
            let p = #[trigger] planets[i];
            &&& g.contains_key(p.id)
            &&& p.pos == layout[i]
            &&& p.name@ == planet_label_text(g[p.id].kind, p.id)
            &&& p.active == g[p.id].alive
        }
    &&& edges.no_duplicates()
    &&& edges.to_set() == galaxy_edge_set(g)
}

/// Where each planet of `planets` is drawn; a later planet with the same
/// id wins.
pub open spec fn pos_map<P>(planets: Seq<Planet<P>>) -> Map<ID, P>
    decreases planets.len(),
{
    if planets.len() == 0 {
        Map::empty()
    } else {
        pos_map(planets.drop_last()).insert(planets.last().id, planets.last().pos)
    }
}

/// `new` is what `rebuild_if_needed` makes of `old` with the galaxy `g`
/// and the positions `layout`, answering `rebuilt`: it rebuilds exactly
/// when a rebuild is due and the galaxy is known, and then no rebuild is
/// due; otherwise nothing changes.
pub open spec fn rebuild_result<P>(
    old: GalaxyState<P>,
    new: GalaxyState<P>,
    g: Option<Map<ID, GalaxyNode>>,
    layout: Seq<P>,
    rebuilt: bool,
) -> bool {
    &&& rebuilt == (old.galaxy_needs_rebuild && g is Some)
    &&& rebuilt ==> {
        &&& built_from(new.planets@, new.edges@, g->0, layout)
        &&& !new.galaxy_needs_rebuild
        &&& new.planet_states == old.planet_states
        &&& new.cached_pos_by_id == old.cached_pos_by_id
    }
    &&& !rebuilt ==> new == old
}

/// `new` is what `refresh_pos_cache` makes of `old`: the cache holds where
/// each planet of the list is drawn, and nothing else changes.
pub open spec fn refresh_result<P>(old: GalaxyState<P>, new: GalaxyState<P>) -> bool {
    &&& new.cached_pos_by_id@ == pos_map(old.planets@)
    &&& new.planets == old.planets
    &&& new.edges == old.edges
    &&& new.planet_states == old.planet_states
    &&& new.galaxy_needs_rebuild == old.galaxy_needs_rebuild
}

/// The view of an optional borrowed galaxy.
pub open spec fn galaxy_view(galaxy: Option<&HashMap<ID, GalaxyNode>>) -> Option<Map<ID, GalaxyNode>> {
    match galaxy {
        Some(g) => Some(g@),
        None => None,
    }
}

/// The ids of the planets are all different.
pub open spec fn distinct_ids<P>(planets: Seq<Planet<P>>) -> bool {
    forall|i: int, j: int| 0 <= i < planets.len() && 0 <= j < planets.len() && i != j ==> planets[i].id != planets[j].id
}

/// The galaxy's planets and edges as drawn, the last known state of each
/// planet, and where each planet id is drawn.
pub struct GalaxyState<P> {
    pub planets: Vec<Planet<P>>,
    pub edges: Vec<(ID, ID)>,
    pub planet_states: HashMap<ID, DummyPlanetState>,
    pub galaxy_needs_rebuild: bool,
    pub cached_pos_by_id: HashMap<ID, P>,
}

impl<P: Copy> GalaxyState<P> {
    /// No planets, edges, states or positions yet; a rebuild is due.
    pub fn new() -> (s: Self)
        ensures
            s.planets@.len() == 0,
            s.edges@.len() == 0,
            s.planet_states@ == Map::<ID, DummyPlanetState>::empty(),
            s.galaxy_needs_rebuild,
            s.cached_pos_by_id@ == Map::<ID, P>::empty(),
    {
        GalaxyState {
            planets: Vec::new(),
            edges: Vec::new(),
            planet_states: HashMap::new(),
            galaxy_needs_rebuild: true,
            cached_pos_by_id: HashMap::new(),
        }
    }

    /// Rebuilds planets and edges from the galaxy, with planet `i` at
    /// `layout[i]`, when a rebuild is due and the galaxy is known; then no
    /// rebuild is due. Otherwise nothing changes. Answers whether it rebuilt.
    pub fn rebuild_if_needed(
        &mut self,
        galaxy: Option<&HashMap<ID, GalaxyNode>>,
        layout: &Vec<P>,
    ) -> (rebuilt: bool)
        requires
            galaxy matches Some(g) ==> layout@.len() == g@.len(),
        ensures
            rebuild_result(*old(self), *final(self), galaxy_view(galaxy), layout@, rebuilt),
    {
        if self.galaxy_needs_rebuild {
            if let Some(g) = galaxy {
                let (planets, edges) = build_planets_and_edges_from_galaxy(g, layout);
                self.planets = planets;
                self.edges = edges;
                self.galaxy_needs_rebuild = false;
                return true;
            }
        }
        false
    }

    /// Rebuilds the id → position cache from the planet list, so that it
    /// holds where each planet is drawn now (a later planet with the same id
    /// wins).
    pub fn refresh_pos_cache(&mut self)
        ensures
            refresh_result(*old(self), *final(self)),
    {
        self.cached_pos_by_id.clear();
        let n = self.planets.len();
        let mut i: usize = 0;
        while i < n
            invariant
                n == self.planets@.len(),
                i <= n,
                self.cached_pos_by_id@ == pos_map(self.planets@.take(i as int)),
                self.planets == old(self).planets,
                self.edges == old(self).edges,
                self.planet_states == old(self).planet_states,
                self.galaxy_needs_rebuild == old(self).galaxy_needs_rebuild,
            decreases n - i,
        {
            let id = self.planets[i].id;
            let pos = self.planets[i].pos;
            self.cached_pos_by_id.insert(id, pos);
            assert(self.planets@.take(i + 1).drop_last() =~= self.planets@.take(i as int));
            i = i + 1;
        }
        assert(self.planets@.take(n as int) =~= self.planets@);
    }
}

proof fn lemma_pos_map_facts<P>(planets: Seq<Planet<P>>)
    requires
        distinct_ids(planets),
    ensures
        pos_map(planets).dom() == planets.map_values(|p: Planet<P>| p.id).to_set(),
        pos_map(planets).len() == planets.len(),
        forall|i: int| 0 <= i < planets.len() ==> #[trigger] pos_map(planets)[planets[i].id] == planets[i].pos,
    decreases planets.len(),
{
    if planets.len() > 0 {
        let rest = planets.drop_last();
        lemma_pos_map_facts(rest);
        let last = planets.last();
        assert(!pos_map(rest).dom().contains(last.id)) by {
            if pos_map(rest).dom().contains(last.id) {
                let ids = rest.map_values(|p: Planet<P>| p.id);
                assert(ids.to_set().contains(last.id));
                let k = choose|k: int| 0 <= k < ids.len() && #[trigger] ids[k] == last.id;
                assert(planets[k].id == planets[planets.len() - 1].id);
            }
        }
        assert(pos_map(planets).dom() =~= planets.map_values(|p: Planet<P>| p.id).to_set()) by {
            assert(planets.map_values(|p: Planet<P>| p.id) =~= rest.map_values(|p: Planet<P>| p.id).push(last.id));
            rest.map_values(|p: Planet<P>| p.id).lemma_push_to_set_commute(last.id);
        }
        assert(pos_map(rest).dom().finite());
        assert forall|i: int| 0 <= i < planets.len() implies #[trigger] pos_map(planets)[planets[i].id] == planets[i].pos by {
            if i < planets.len() - 1 {
                assert(planets[i] == rest[i]);
                assert(pos_map(rest)[rest[i].id] == rest[i].pos);
            }
        }
    } else {
        assert(planets.map_values(|p: Planet<P>| p.id).to_set() =~= Set::<ID>::empty());
    }
}

/// Refreshing the position cache twice leaves the state as refreshing it
/// once does.
pub proof fn lemma_refresh_idempotent<P>(s0: GalaxyState<P>, s1: GalaxyState<P>, s2: GalaxyState<P>)
    requires
        refresh_result(s0, s1),
        refresh_result(s1, s2),
    ensures
        s2.cached_pos_by_id@ == s1.cached_pos_by_id@,
        s2.planets == s1.planets,
        s2.edges == s1.edges,
        s2.planet_states == s1.planet_states,
        s2.galaxy_needs_rebuild == s1.galaxy_needs_rebuild,
{
}

/// With distinct planet ids, a refreshed cache maps every planet's id to
/// where that planet is drawn, and nothing else, and has one entry per
/// planet.
pub proof fn lemma_refreshed_cache_matches<P>(planets: Seq<Planet<P>>)
    requires
        distinct_ids(planets),
    ensures
        pos_map(planets).dom() == planets.map_values(|p: Planet<P>| p.id).to_set(),
        pos_map(planets).len() == planets.len(),
        forall|i: int|
            0 <= i < planets.len() ==> #[trigger] pos_map(planets)[planets[i].id] == planets[i].pos,
{
    lemma_pos_map_facts(planets);
}

/// A rebuild happens at most once per dirty flag: after a call, a second
/// call with the same galaxy changes nothing and answers `false`.
pub proof fn lemma_rebuild_at_most_once<P>(
    s0: GalaxyState<P>,
    s1: GalaxyState<P>,
    s2: GalaxyState<P>,
    g: Option<Map<ID, GalaxyNode>>,
    layout1: Seq<P>,
    layout2: Seq<P>,
    r1: bool,
    r2: bool,
)
    requires
        rebuild_result(s0, s1, g, layout1, r1),
        rebuild_result(s1, s2, g, layout2, r2),
    ensures
        !r2,
        s2 == s1,
{
}

/// Planets built from a galaxy have distinct ids.
pub proof fn lemma_built_planets_distinct<P>(
    planets: Seq<Planet<P>>,
    edges: Seq<(ID, ID)>,
    g: Map<ID, GalaxyNode>,
    layout: Seq<P>,
)
    requires
        built_from(planets, edges, g, layout),
    ensures
        distinct_ids(planets),
{
    assert forall|i: int, j: int| 0 <= i < planets.len() && 0 <= j < planets.len() && i != j implies planets[i].id != planets[j].id by {
        if i < j {
            assert(planets[i].id < planets[j].id);
        } else {
            assert(planets[j].id < planets[i].id);
        }
    }
}

} // verus!
