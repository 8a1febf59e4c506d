//! The galaxy as the canvas draws it: planets in id order with their
//! labels, and the undirected edges between them.
use vstd::prelude::*;

use std::collections::HashMap;

use common_game::utils::ID;
use vstd::std_specs::iter::IteratorSpec;

use crate::text::{append_decimal, decimal};

verus! {

broadcast use vstd::std_specs::hash::group_hash_axioms;

/// The undirected edge between `a` and `b`, written with its smaller end
/// first; a node is not linked to itself.
pub open spec fn spec_canonical_edge(a: ID, b: ID) -> Option<(ID, ID)> {
    if a == b {
        None
    } else if a < b {
        Some((a, b))
    } else {
        Some((b, a))
    }
}

/// Normalises the pair `(a, b)` into an undirected edge.
pub fn canonical_edge(a: ID, b: ID) -> (e: Option<(ID, ID)>)
    ensures
        e == spec_canonical_edge(a, b),
{
    if a == b {
        None
    } else if a < b {
        Some((a, b))
    } else {
        Some((b, a))
    }
}

/// An edge does not depend on the direction in which it was listed, has
/// its smaller end first, and joins two different nodes.
pub proof fn lemma_canonical_edge_undirected(a: ID, b: ID)
    ensures
        spec_canonical_edge(a, b) == spec_canonical_edge(b, a),
        spec_canonical_edge(a, b) matches Some(e) ==> e.0 < e.1 && (e == (a, b) || e == (b, a)),
        spec_canonical_edge(a, b) is None <==> a == b,
{
}

/// The family a planet belongs to, which names it on the canvas.
#[derive(Clone, Copy, Debug, PartialEq, Eq, Structural)]
pub enum PlanetKind {
    Trip,
    Rustrelli,
    Luna4,
    RustyCrab,
    Enterprise,
    Orbitron,
    Houston,
}

/// The name shown for a planet family.
pub open spec fn spec_planet_group_name(kind: PlanetKind) -> Seq<char> {
    match kind {
        PlanetKind::Trip => "Trip"@,
        PlanetKind::Rustrelli => "Rustrelli"@,
        PlanetKind::Luna4 => "Luna4"@,
        PlanetKind::RustyCrab => "Rusty Crabs"@,
        PlanetKind::Enterprise => "Enterprise"@,
        PlanetKind::Orbitron => "Orbitron"@,
        PlanetKind::Houston => "Houston"@,
    }
}

/// The name shown for a planet family.
pub fn planet_group_name(kind: PlanetKind) -> (name: &'static str)
    ensures
        name@ == spec_planet_group_name(kind),
{
    match kind {
        PlanetKind::Trip => "Trip",
        PlanetKind::Rustrelli => "Rustrelli",
        PlanetKind::Luna4 => "Luna4",
        PlanetKind::RustyCrab => "Rusty Crabs",
        PlanetKind::Enterprise => "Enterprise",
        PlanetKind::Orbitron => "Orbitron",
        PlanetKind::Houston => "Houston",
    }
}

/// `Family (id)`, the label under a planet.
pub open spec fn planet_label_text(kind: PlanetKind, id: ID) -> Seq<char> {
    spec_planet_group_name(kind) + seq![' ', '('] + decimal(id as nat) + seq![')']
}

/// The label under a planet: its family's name and its id in brackets.
pub fn planet_label(kind: PlanetKind, id: ID) -> (s: String)
    ensures
        s@ == planet_label_text(kind, id),
{
    let mut s = String::from_str(planet_group_name(kind));
    proof {
        reveal_strlit(" (");
        reveal_strlit(")");
    }
    s.append(" (");
    append_decimal(&mut s, id as u64);
    s.append(")");
    assert(s@ =~= planet_label_text(kind, id));
    s
}

/// What the viewer knows of one planet of the galaxy.
pub struct GalaxyNode {
    pub kind: PlanetKind,
    pub alive: bool,
    pub neighbors: Vec<ID>,
}

/// A planet as the canvas draws it, at a position of type `P`.
pub struct Planet<P> {
    pub id: ID,
    pub pos: P,
    pub name: String,
    pub active: bool,
}

/// The keys of a map, each once, in the order in which the map lists them.
pub fn map_keys<V>(m: &HashMap<ID, V>) -> (ids: Vec<ID>)
    ensures
        ids@ == vstd::std_specs::hash::spec_keys_iter(m).remaining().unref(),
        ids@.no_duplicates(),
        ids@.to_set() == m@.dom(),
{
    let mut ids: Vec<ID> = Vec::new();
    let ghost keys = vstd::std_specs::hash::spec_keys_iter(m).remaining();
    for k in it: m.keys()
        invariant
            it.seq() == keys,
            ids@ == it.seq().take(it.index()).map_values(|r: &ID| *r),
    {
        ids.push(*k);
        assert(it.seq().take(it.index() + 1) =~= it.seq().take(it.index()).push(k));
        assert(ids@ =~= it.seq().take(it.index() + 1).map_values(|r: &ID| *r));
    }
    assert(keys.take(keys.len() as int) =~= keys);
    assert(ids@ =~= keys.unref());
    ids
}

/// Strictly increasing.
pub open spec fn strictly_increasing(s: Seq<ID>) -> bool {
    forall|i: int, j: int| 0 <= i < j < s.len() ==> s[i] < s[j]
}

/// Sorts distinct ids into increasing order.
fn sort_ids(v: Vec<ID>) -> (r: Vec<ID>)
    requires
        v@.no_duplicates(),
    ensures
        strictly_increasing(r@),
        r@.to_set() == v@.to_set(),
        r@.len() == v@.len(),
{
    let mut r: Vec<ID> = Vec::new();
    let n = v.len();
    let mut i: usize = 0;
    while i < n
        invariant
            n == v.len(),
            i <= n,
            v@.no_duplicates(),
            strictly_increasing(r@),
            r@.to_set() == v@.take(i as int).to_set(),
            r@.len() == i,
        decreases n - i,
    {
        let x = v[i];
        let mut j: usize = 0;
        while j < r.len() && r[j] < x
            invariant
                j <= r.len(),
                forall|k: int| 0 <= k < j ==> #[trigger] r@[k] < x,
            decreases r.len() - j,
        {
            j = j + 1;
        }
        let ghost old_r = r@;
        proof {
            // x was not seen before, so it differs from everything in r
            assert(!v@.take(i as int).contains(x)) by {
                if v@.take(i as int).contains(x) {
                    let k = choose|k: int| 0 <= k < i && v@.take(i as int)[k] == x;
                    assert(v@[k] == v@[i as int]);
                }
            }
            assert(!old_r.to_set().contains(x));
            if j < old_r.len() {
                assert(old_r[j as int] != x) by {
                    assert(old_r.to_set().contains(old_r[j as int]));
                }
            }
        }
        r.insert(j, x);
        proof {
            assert(r@ =~= old_r.insert(j as int, x));
            assert(v@.take(i + 1) =~= v@.take(i as int).push(x));
            let t0 = v@.take(i as int);
            let t1 = v@.take(i + 1);
            assert forall|y: ID| #[trigger] r@.contains(y) <==> t1.contains(y) by {
                if r@.contains(y) {
                    let k = choose|k: int| 0 <= k < r@.len() && r@[k] == y;
                    if k == j {
                        assert(t1[i as int] == x);
                    } else {
                        let k0 = if k < j { k } else { k - 1 };
                        assert(old_r[k0] == y);
                        assert(old_r.to_set().contains(y));
                        assert(t0.to_set().contains(y));
                        let q = choose|q: int| 0 <= q < t0.len() && t0[q] == y;
                        assert(t1[q] == y);
                    }
                }
                if t1.contains(y) {
                    let q = choose|q: int| 0 <= q < t1.len() && t1[q] == y;
                    if q == i {
                        assert(r@[j as int] == x);
                    } else {
                        assert(t0[q] == y);
                        assert(t0.to_set().contains(y));
                        assert(old_r.to_set().contains(y));
                        let k = choose|k: int| 0 <= k < old_r.len() && old_r[k] == y;
                        if k < j {
                            assert(r@[k] == y);
                        } else {
                            assert(r@[k + 1] == y);
                        }
                    }
                }
            }
            assert(r@.to_set() =~= t1.to_set());
        }
        i = i + 1;
    }
    assert(v@.take(n as int) =~= v@);
    r
}

/// An edge listed by either of its ends is one and the same edge of the
/// galaxy, joining two different planets with the smaller id first.
pub proof fn lemma_edge_from_either_end(g: Map<ID, GalaxyNode>, a: ID, j: int)
    requires
        g.contains_key(a),
        0 <= j < g[a].neighbors@.len(),
        g[a].neighbors@[j] != a,
    ensures
        ({
            let b = g[a].neighbors@[j];
            let e = if a < b { (a, b) } else { (b, a) };
            &&& galaxy_edge_set(g).contains(e)
            &&& spec_canonical_edge(b, a) == Some(e)
            &&& e.0 < e.1
        }),
{
    let b = g[a].neighbors@[j];
    assert(spec_canonical_edge(a, g[a].neighbors@[j]) == Some(if a < b { (a, b) } else { (b, a) }));
}

/// Every edge that some planet of `g` lists, in its undirected form.
pub open spec fn galaxy_edge_set(g: Map<ID, GalaxyNode>) -> Set<(ID, ID)> {
    Set::new(
        |e: (ID, ID)|
            exists|k: ID, j: int|
                #![trigger g[k].neighbors@[j]]
                g.contains_key(k) && 0 <= j < g[k].neighbors@.len() && spec_canonical_edge(
                    k,
                    g[k].neighbors@[j],
                ) == Some(e),
    )
}

/// The edges listed by the planets `ids[..i]`, and by `ids[i]` up to its
/// neighbour `j`.
pub open spec fn edges_listed(g: Map<ID, GalaxyNode>, ids: Seq<ID>, i: int, j: int) -> Set<
    (ID, ID),
> {
    Set::new(
        |e: (ID, ID)|
            exists|a: int, b: int|
                #![trigger g[ids[a]].neighbors@[b]]
                0 <= a <= i && 0 <= b < g[ids[a]].neighbors@.len() && (a < i || b < j)
                    && spec_canonical_edge(ids[a], g[ids[a]].neighbors@[b]) == Some(e),
    )
}

/// Whether `e` is one of `edges`.
fn contains_edge(edges: &Vec<(ID, ID)>, e: (ID, ID)) -> (r: bool)
    ensures
        r == edges@.contains(e),
{
    let mut i: usize = 0;
    while i < edges.len()
        invariant
            i <= edges.len(),
            forall|k: int| 0 <= k < i ==> edges@[k] != e,
        decreases edges.len() - i,
    {
        if edges[i].0 == e.0 && edges[i].1 == e.1 {
            return true;
        }
        i = i + 1;
    }
    false
}

/// The planets of the galaxy in increasing id order, planet `i` placed at
/// `layout[i]`, labelled with its family and id and active while alive;
/// and every undirected edge that some planet lists, each once.
pub fn build_planets_and_edges_from_galaxy<P: Copy>(
    galaxy: &HashMap<ID, GalaxyNode>,
    layout: &Vec<P>,
) -> (res: (Vec<Planet<P>>, Vec<(ID, ID)>))
    requires
        layout@.len() == galaxy@.len(),
    ensures
        res.0@.len() == galaxy@.len(),
        forall|i: int, j: int| 0 <= i < j < res.0@.len() ==> res.0@[i].id < res.0@[j].id,
        res.0@.map_values(|p: Planet<P>| p.id).to_set() == galaxy@.dom(),
        forall|i: int|
            0 <= i < res.0@.len() ==> {
                let p = #[trigger] res.0@[i];
                &&& galaxy@.contains_key(p.id)
                &&& p.pos == layout@[i]
                &&& p.name@ == planet_label_text(galaxy@[p.id].kind, p.id)
                &&& p.active == galaxy@[p.id].alive
            },
        res.1@.no_duplicates(),
        res.1@.to_set() == galaxy_edge_set(galaxy@),
{
    let ids = sort_ids(map_keys(galaxy));
    let n = ids.len();
    proof {
        assert(ids@.no_duplicates()) by {
            assert forall|a: int, b: int| 0 <= a < ids@.len() && 0 <= b < ids@.len() && a != b implies ids@[a] != ids@[b] by {
                if a < b {
                    assert(ids@[a] < ids@[b]);
                } else {
                    assert(ids@[b] < ids@[a]);
                }
            }
        }
        ids@.unique_seq_to_set();
    }
    let mut planets: Vec<Planet<P>> = Vec::new();
    let mut edges: Vec<(ID, ID)> = Vec::new();
    let mut i: usize = 0;
    assert(edges_listed(galaxy@, ids@, 0, 0) =~= Set::empty());
    while i < n
        invariant
            n == ids@.len(),
            n == layout@.len(),
            i <= n,
            strictly_increasing(ids@),
            ids@.to_set() == galaxy@.dom(),
            planets@.len() == i,
            forall|k: int|
                0 <= k < i ==> {
                    let p = #[trigger] planets@[k];
                    &&& p.id == ids@[k]
                    &&& p.pos == layout@[k]
                    &&& p.name@ == planet_label_text(galaxy@[p.id].kind, p.id)
                    &&& p.active == galaxy@[p.id].alive
                },
            edges@.no_duplicates(),
            edges@.to_set() == edges_listed(galaxy@, ids@, i as int, 0),
        decreases n - i,
    {
        let id = ids[i];
        proof {
            assert(ids@.to_set().contains(id));
        }
        let node = galaxy.get(&id).unwrap();
        let name = planet_label(node.kind, id);
        planets.push(Planet { id, pos: layout[i], name, active: node.alive });
        let m = node.neighbors.len();
        let mut j: usize = 0;
        while j < m
            invariant
                i < n,
                n == ids@.len(),
                id == ids@[i as int],
                galaxy@.contains_key(id),
                *node == galaxy@[id],
                m == node.neighbors@.len(),
                j <= m,
                edges@.no_duplicates(),
                edges@.to_set() == edges_listed(galaxy@, ids@, i as int, j as int),
            decreases m - j,
        {
            let nb = node.neighbors[j];
            let ghost before = edges@;
            let ce = canonical_edge(id, nb);
            if let Some(e) = ce {
                if !contains_edge(&edges, e) {
                    edges.push(e);
                }
            }
            proof {
                if let Some(e0) = ce {
                    if before.contains(e0) {
                        assert(edges@ == before);
                    } else {
                        assert(edges@ == before.push(e0));
                        assert(edges@[before.len() as int] == e0);
                    }
                    assert(edges@.contains(e0));
                } else {
                    assert(edges@ == before);
                }
                let g = galaxy@;
                assert(g[ids@[i as int]].neighbors@[j as int] == nb);
                assert(edges@.to_set() =~= edges_listed(g, ids@, i as int, j + 1)) by {
                    assert forall|e: (ID, ID)| edges@.to_set().contains(e) <==> edges_listed(
                        g,
                        ids@,
                        i as int,
                        j + 1,
                    ).contains(e) by {
                        if edges_listed(g, ids@, i as int, j + 1).contains(e) {
                            let (a, b) = choose|a: int, b: int|
                                #![trigger g[ids@[a]].neighbors@[b]]
                                0 <= a <= i && 0 <= b < g[ids@[a]].neighbors@.len() && (a < i || b
                                    < j + 1) && spec_canonical_edge(
                                    ids@[a],
                                    g[ids@[a]].neighbors@[b],
                                ) == Some(e);
                            if a < i || b < j {
                                assert(edges_listed(g, ids@, i as int, j as int).contains(e));
                                assert(before.to_set().contains(e));
                                let k = choose|k: int| 0 <= k < before.len() && before[k] == e;
                                assert(edges@[k] == e);
                            } else {
                                assert(edges@.contains(e));
                            }
                        }
                        if edges@.to_set().contains(e) {
                            let k = choose|k: int| 0 <= k < edges@.len() && edges@[k] == e;
                            if k < before.len() {
                                assert(before.to_set().contains(before[k]));
                            } else {
                                assert(g[ids@[i as int]].neighbors@[j as int] == nb);
                            }
                        }
                    }
                }
                if edges@.len() > before.len() {
                    assert forall|a: int, b: int|
                        0 <= a < edges@.len() && 0 <= b < edges@.len() && a != b implies edges@[a]
                        != edges@[b] by {
                        if a < before.len() && b < before.len() {
                        } else if a < before.len() {
                            assert(before.contains(before[a]));
                        } else {
                            assert(before.contains(before[b]));
                        }
                    }
                }
            }
            j = j + 1;
        }
        proof {
            assert(edges_listed(galaxy@, ids@, i as int, m as int) =~= edges_listed(
                galaxy@,
                ids@,
                i + 1,
                0,
            )) by {
                let g = galaxy@;
                assert forall|e: (ID, ID)| edges_listed(g, ids@, i as int, m as int).contains(e) <==> edges_listed(
                    g,
                    ids@,
                    i + 1,
                    0,
                ).contains(e) by {
                    if edges_listed(g, ids@, i + 1, 0).contains(e) {
                        let (a, b) = choose|a: int, b: int|
                            #![trigger g[ids@[a]].neighbors@[b]]
                            0 <= a <= i + 1 && 0 <= b < g[ids@[a]].neighbors@.len() && (a < i + 1
                                || b < 0) && spec_canonical_edge(
                                ids@[a],
                                g[ids@[a]].neighbors@[b],
                            ) == Some(e);
                        assert(a <= i);
                    }
                }
            }
        }
        i = i + 1;
    }
    proof {
        let g = galaxy@;
        assert(edges_listed(g, ids@, n as int, 0) =~= galaxy_edge_set(g)) by {
            assert forall|e: (ID, ID)| edges_listed(g, ids@, n as int, 0).contains(e) <==> galaxy_edge_set(g).contains(e) by {
                if galaxy_edge_set(g).contains(e) {
                    let (k, b) = choose|k: ID, b: int|
                        #![trigger g[k].neighbors@[b]]
                        g.contains_key(k) && 0 <= b < g[k].neighbors@.len() && spec_canonical_edge(
                            k,
                            g[k].neighbors@[b],
                        ) == Some(e);
                    assert(ids@.to_set().contains(k));
                    let a = choose|a: int| 0 <= a < ids@.len() && ids@[a] == k;
                    assert(g[ids@[a]].neighbors@[b] == g[k].neighbors@[b]);
                }
                if edges_listed(g, ids@, n as int, 0).contains(e) {
                    let (a, b) = choose|a: int, b: int|
                        #![trigger g[ids@[a]].neighbors@[b]]
                        0 <= a <= n && 0 <= b < g[ids@[a]].neighbors@.len() && (a < n || b < 0)
                            && spec_canonical_edge(ids@[a], g[ids@[a]].neighbors@[b]) == Some(e);
                    assert(ids@.to_set().contains(ids@[a]));
                }
            }
        }
        let pid = planets@.map_values(|p: Planet<P>| p.id);
        assert(pid =~= ids@);
        assert forall|a: int, b: int| 0 <= a < b < planets@.len() implies planets@[a].id
            < planets@[b].id by {
            assert(planets@[a].id == ids@[a]);
            assert(planets@[b].id == ids@[b]);
        }
        assert(galaxy@.dom().len() == galaxy@.len());
    }
    (planets, edges)
}

} // verus!
