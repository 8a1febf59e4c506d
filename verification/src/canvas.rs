//! What the canvas shows besides the layout: which explorers stand on a
//! planet, their labels, planet state lines and the edge segments.
use vstd::prelude::*;

use std::collections::HashMap;

use common_game::utils::ID;
use vstd::std_specs::iter::IteratorSpec;

use crate::bag::{bag_entries, bag_text, format_bag_content, BagContent};
use crate::galaxy::Planet;
use crate::text::{append_decimal, decimal};

verus! {

broadcast use vstd::std_specs::hash::group_hash_axioms;

/// The explorers whose position is `planet`.
pub open spec fn explorers_at(positions: Map<ID, ID>, planet: ID) -> Set<ID> {
    Set::new(|e: ID| positions.contains_key(e) && positions[e] == planet)
}

/// The explorers of `entries` (explorer, planet) whose planet is `planet`,
/// in the order of the entries.
pub open spec fn explorers_in_order(entries: Seq<(&ID, &ID)>, planet: ID) -> Seq<ID> {
    entries.filter(|kv: (&ID, &ID)| *kv.1 == planet).map_values(|kv: (&ID, &ID)| *kv.0)
}

/// The explorers standing on `planet`, in the order in which the position
/// map walks its entries, each once.
pub fn explorers_on_planet(positions: &HashMap<ID, ID>, planet: ID) -> (r: Vec<ID>)
    ensures
        r@ == explorers_in_order(
            vstd::std_specs::hash::spec_hash_map_iter(positions).remaining(),
            planet,
        ),
        r@.no_duplicates(),
        r@.to_set() == explorers_at(positions@, planet),
{
    let ghost v = vstd::std_specs::hash::spec_hash_map_iter(positions).remaining();
    let ghost m = positions@;
    let mut r: Vec<ID> = Vec::new();
    for entry in it: positions.iter()
        invariant
            it.seq() == v,
            m == positions@,
            v.no_duplicates(),
            r@ == explorers_in_order(v.take(it.index()), planet),
            r@.no_duplicates(),
            forall|x: ID| r@.contains(x) <==> exists|j: int| 0 <= j < it.index() && #[trigger] v[j] == (&x, &planet),
    {
        let ghost i = it.index();
        let ghost before = r@;
        proof {
            reveal(Seq::filter);
            assert(v.take(i + 1).drop_last() =~= v.take(i));
            assert(v.take(i + 1).last() == entry);
        }
        let ghost fb = v.take(i).filter(|kv: (&ID, &ID)| *kv.1 == planet);
        let (e, p) = entry;
        if *p == planet {
            proof {
                assert(!before.contains(*e)) by {
                    if before.contains(*e) {
                        let j = choose|j: int| 0 <= j < i && #[trigger] v[j] == (&*e, &planet);
                        assert(*v[j].0 == *v[i].0);
                        assert(m.contains_key(*v[i].0) && m[*v[i].0] == *v[i].1);
                        assert(v[j] == v[i]);
                    }
                }
            }
            r.push(*e);
            proof {
                fb.lemma_push_map_commute(|kv: (&ID, &ID)| *kv.0, entry);
            }
        }
        proof {
            assert forall|x: ID| r@.contains(x) <==> exists|j: int| 0 <= j < i + 1 && #[trigger] v[j] == (&x, &planet) by {
                if r@.contains(x) {
                    if before.contains(x) {
                        let j = choose|j: int| 0 <= j < i && #[trigger] v[j] == (&x, &planet);
                        assert(0 <= j < i + 1 && v[j] == (&x, &planet));
                    } else {
                        let k = choose|k: int| 0 <= k < r@.len() && #[trigger] r@[k] == x;
                        assert(k == before.len());
                        assert(v[i] == (&x, &planet));
                    }
                }
                if exists|j: int| 0 <= j < i + 1 && #[trigger] v[j] == (&x, &planet) {
                    let j = choose|j: int| 0 <= j < i + 1 && #[trigger] v[j] == (&x, &planet);
                    if j < i {
                        assert(before.contains(x));
                        let k = choose|k: int| 0 <= k < before.len() && #[trigger] before[k] == x;
                        assert(r@[k] == x);
                    } else {
                        assert(r@[before.len() as int] == x);
                    }
                }
            }
        }
    }
    proof {
        assert(v.take(v.len() as int) =~= v);
        assert forall|x: ID| r@.to_set().contains(x) <==> explorers_at(m, planet).contains(x) by {
            if r@.contains(x) {
                let j = choose|j: int| 0 <= j < v.len() && #[trigger] v[j] == (&x, &planet);
                assert(m.contains_key(*v[j].0) && m[*v[j].0] == *v[j].1);
            }
            if m.contains_key(x) && m[x] == planet {
                assert(v.contains((&x, &m[x])));
                let j = choose|j: int| 0 <= j < v.len() && #[trigger] v[j] == (&x, &m[x]);
                assert(v[j] == (&x, &planet));
            }
        }
        assert(r@.to_set() =~= explorers_at(m, planet));
    }
    r
}

/// `name id`, then on a second line the bag summary, or `bag: loading`
/// while the bag is not known yet.
pub open spec fn explorer_label_text(name: Seq<char>, id: ID, bag: Option<&BagContent>) -> Seq<char> {
    name + seq![' '] + decimal(id as nat) + seq!['\n'] + match bag {
        Some(b) => bag_text(bag_entries(b)),
        None => seq!['b', 'a', 'g', ':', ' ', 'l', 'o', 'a', 'd', 'i', 'n', 'g'],
    }
}

/// The label drawn beside an explorer.
pub fn explorer_label(name: &str, id: ID, bag: Option<&BagContent>) -> (s: String)
    ensures
        s@ == explorer_label_text(name@, id, bag),
{
    let mut s = String::from_str(name);
    proof {
        reveal_strlit(" ");
        reveal_strlit("\n");
        reveal_strlit("bag: loading");
    }
    s.append(" ");
    append_decimal(&mut s, id as u64);
    s.append("\n");
    match bag {
        Some(b) => {
            let line = format_bag_content(b);
            s.append(line.as_str());
        },
        None => {
            s.append("bag: loading");
        },
    }
    assert(s@ =~= explorer_label_text(name@, id, bag));
    s
}

/// The state line under a planet: a rocket when it has one, then the
/// lightning sign, the charged cells shown and the number of cells.
pub open spec fn planet_state_line(has_rocket: bool, shown_charged: nat, cells: nat) -> Seq<char> {
    (if has_rocket {
        "🚀 "@
    } else {
        Seq::<char>::empty()
    }) + "⚡"@ + decimal(shown_charged) + seq!['/'] + decimal(cells)
}

/// The state line under a planet that has `cells` energy cells, of which
/// `shown_charged` are shown as charged.
pub fn planet_state_text(has_rocket: bool, shown_charged: usize, cells: usize) -> (s: String)
    ensures
        s@ == planet_state_line(has_rocket, shown_charged as nat, cells as nat),
{
    let mut s = String::new();
    if has_rocket {
        s.append("🚀 ");
    }
    s.append("⚡");
    append_decimal(&mut s, shown_charged as u64);
    proof {
        reveal_strlit("/");
    }
    s.append("/");
    append_decimal(&mut s, cells as u64);
    assert(s@ =~= planet_state_line(has_rocket, shown_charged as nat, cells as nat));
    s
}

/// The rocket sign leads the state line exactly when the planet has a
/// rocket, whatever the charged and cell counts: with a rocket the line is
/// `🚀 ` followed by the line the same counts give without one, and
/// without a rocket it starts with the lightning sign.
pub proof fn lemma_rocket_sign_leads(shown_charged: nat, cells: nat)
    ensures
        planet_state_line(true, shown_charged, cells) == "🚀 "@ + planet_state_line(
            false,
            shown_charged,
            cells,
        ),
        planet_state_line(false, shown_charged, cells) == "⚡"@ + decimal(shown_charged) + seq![
            '/',
        ] + decimal(cells),
{
    let tail = "⚡"@ + decimal(shown_charged) + seq!['/'] + decimal(cells);
    assert(planet_state_line(false, shown_charged, cells) =~= tail);
    assert(planet_state_line(true, shown_charged, cells) =~= "🚀 "@ + tail);
}

/// The segments to draw for `edges`: one per edge whose two ends both have
/// a known position, in the order of the edges.
pub open spec fn segments<P>(edges: Seq<(ID, ID)>, pos: Map<ID, P>) -> Seq<(P, P)> {
    edges.filter(|e: (ID, ID)| pos.contains_key(e.0) && pos.contains_key(e.1)).map_values(
        |e: (ID, ID)| (pos[e.0], pos[e.1]),
    )
}

/// Edges are drawn one by one: no edge gives no segment, and an edge added
/// at the end adds its segment at the end when both its ends have a known
/// position, and nothing otherwise.
pub proof fn lemma_segments_push<P>(edges: Seq<(ID, ID)>, e: (ID, ID), pos: Map<ID, P>)
    ensures
        segments(Seq::<(ID, ID)>::empty(), pos) == Seq::<(P, P)>::empty(),
        segments(edges.push(e), pos) == segments(edges, pos) + (if pos.contains_key(e.0)
            && pos.contains_key(e.1) {
            seq![(pos[e.0], pos[e.1])]
        } else {
            Seq::<(P, P)>::empty()
        }),
{
    reveal(Seq::filter);
    let keep = |x: (ID, ID)| pos.contains_key(x.0) && pos.contains_key(x.1);
    let seg = |x: (ID, ID)| (pos[x.0], pos[x.1]);
    assert(Seq::<(ID, ID)>::empty().filter(keep) =~= Seq::<(ID, ID)>::empty());
    assert(segments(Seq::<(ID, ID)>::empty(), pos) =~= Seq::<(P, P)>::empty());
    let f = edges.filter(keep);
    edges.lemma_filter_push(e, keep);
    if keep(e) {
        f.lemma_push_map_commute(seg, e);
        assert(f.map_values(seg).push(seg(e)) =~= f.map_values(seg) + seq![seg(e)]);
    } else {
        assert(segments(edges, pos) + Seq::<(P, P)>::empty() =~= segments(edges, pos));
    }
}

/// Every edge whose two ends have a known position is drawn: its segment,
/// between the positions of its two ends, is among the segments, and
/// there are as many segments as such edges.
pub proof fn lemma_segments_draw_every_known_edge<P>(edges: Seq<(ID, ID)>, pos: Map<ID, P>, k: int)
    requires
        0 <= k < edges.len(),
        pos.contains_key(edges[k].0),
        pos.contains_key(edges[k].1),
    ensures
        segments(edges, pos).contains((pos[edges[k].0], pos[edges[k].1])),
        segments(edges, pos).len() == edges.filter(
            |e: (ID, ID)| pos.contains_key(e.0) && pos.contains_key(e.1),
        ).len(),
{
    let keep = |x: (ID, ID)| pos.contains_key(x.0) && pos.contains_key(x.1);
    let seg = |x: (ID, ID)| (pos[x.0], pos[x.1]);
    let f = edges.filter(keep);
    edges.lemma_filter_contains(keep, k);
    let j = choose|j: int| 0 <= j < f.len() && f[j] == edges[k];
    assert(f.map_values(seg)[j] == seg(edges[k]));
}

/// The line segments that draw the edges, between the cached positions of
/// their two ends; an edge with an end of unknown position is skipped.
pub fn edge_segments<P: Copy>(edges: &Vec<(ID, ID)>, pos: &HashMap<ID, P>) -> (r: Vec<(P, P)>)
    ensures
        r@ == segments(edges@, pos@),
{
    let n = edges.len();
    let mut r: Vec<(P, P)> = Vec::new();
    let mut i: usize = 0;
    while i < n
        invariant
            n == edges@.len(),
            i <= n,
            r@ == segments(edges@.take(i as int), pos@),
        decreases n - i,
    {
        let (a, b) = edges[i];
        proof {
            reveal(Seq::filter);
            assert(edges@.take(i + 1).drop_last() =~= edges@.take(i as int));
            assert(edges@.take(i + 1).last() == edges@[i as int]);
        }
        let ghost fb = edges@.take(i as int).filter(
            |e: (ID, ID)| pos@.contains_key(e.0) && pos@.contains_key(e.1),
        );
        match (pos.get(&a), pos.get(&b)) {
            (Some(pa), Some(pb)) => {
                r.push((*pa, *pb));
                proof {
                    fb.lemma_push_map_commute(|e: (ID, ID)| (pos@[e.0], pos@[e.1]), (a, b));
                }
            },
            _ => {},
        }
        i = i + 1;
    }
    assert(edges@.take(n as int) =~= edges@);
    r
}

} // verus!
