//! The decisions the viewer takes once per frame: which requests to send
//! to the orchestrator and which visual effects go on.
use vstd::prelude::*;

use std::time::Instant;
use vstd::multiset::Multiset;

use common_game::utils::ID;

use crate::galaxy::Planet;
use crate::clock::{read_clock, ClockReading};
use crate::timers::{duration_as_nanos, duration_between, nanos_since, NANOS_PER_MILLI};

verus! {

broadcast use {vstd::seq_lib::group_to_multiset_ensures, vstd::multiset::group_multiset_axioms};

/// A request from the viewer to the orchestrator.
#[derive(Clone, Copy, Debug, PartialEq, Eq, Structural)]
pub enum UiCommand {
    GetGalaxy,
    GetExplorersPosition,
    GetPlanetSnapshot(ID),
    GetExplorerSnapshot(ID),
}

/// What the viewer asks for as soon as it starts: the galaxy, then where
/// the explorers are.
pub fn initial_commands() -> (c: Vec<UiCommand>)
    ensures
        c@ == seq![UiCommand::GetGalaxy, UiCommand::GetExplorersPosition],
{
    let mut c = Vec::new();
    c.push(UiCommand::GetGalaxy);
    c.push(UiCommand::GetExplorersPosition);
    c
}

/// The ids of the active planets, in the order of the planets.
pub open spec fn active_ids<P>(planets: Seq<Planet<P>>) -> Seq<ID> {
    planets.filter(|p: Planet<P>| p.active).map_values(|p: Planet<P>| p.id)
}

/// The ids of the active planets, in the order of the planets.
pub fn active_planet_ids<P>(planets: &Vec<Planet<P>>) -> (r: Vec<ID>)
    ensures
        r@ == active_ids(planets@),
{
    let n = planets.len();
    let mut r: Vec<ID> = Vec::new();
    let mut i: usize = 0;
    while i < n
        invariant
            n == planets@.len(),
            i <= n,
            r@ == active_ids(planets@.take(i as int)),
        decreases n - i,
    {
        proof {
            reveal(Seq::filter);
            assert(planets@.take(i + 1).drop_last() =~= planets@.take(i as int));
            assert(planets@.take(i + 1).last() == planets@[i as int]);
        }
        let ghost before = planets@.take(i as int).filter(|p: Planet<P>| p.active);
        if planets[i].active {
            r.push(planets[i].id);
            proof {
                before.lemma_push_map_commute(|p: Planet<P>| p.id, planets@[i as int]);
            }
        }
        i = i + 1;
    }
    assert(planets@.take(n as int) =~= planets@);
    r
}

/// The polling requests of one frame: a snapshot of each active planet
/// when planet polling is due, a snapshot of each known explorer when
/// explorer polling is due, and the explorers' positions when position
/// polling is due, in that order.
pub open spec fn frame_requests<P>(
    planets_due: bool,
    explorers_due: bool,
    positions_due: bool,
    planets: Seq<Planet<P>>,
    explorers: Seq<ID>,
) -> Seq<UiCommand> {
    (if planets_due {
        active_ids(planets).map_values(|id: ID| UiCommand::GetPlanetSnapshot(id))
    } else {
        Seq::empty()
    }) + (if explorers_due {
        explorers.map_values(|id: ID| UiCommand::GetExplorerSnapshot(id))
    } else {
        Seq::empty()
    }) + (if positions_due {
        seq![UiCommand::GetExplorersPosition]
    } else {
        Seq::empty()
    })
}

/// The polling requests the viewer sends in one frame.
pub fn frame_commands<P>(
    planets_due: bool,
    explorers_due: bool,
    positions_due: bool,
    planets: &Vec<Planet<P>>,
    explorers: &Vec<ID>,
) -> (c: Vec<UiCommand>)
    ensures
        c@ == frame_requests(
            planets_due,
            explorers_due,
            positions_due,
            planets@,
            explorers@,
        ),
{
    let mut c: Vec<UiCommand> = Vec::new();
    let ghost c0 = c@;
    if planets_due {
        let ids = active_planet_ids(planets);
        let mut i: usize = 0;
        while i < ids.len()
            invariant
                i <= ids@.len(),
                c@ == c0 + ids@.take(i as int).map_values(|id: ID| UiCommand::GetPlanetSnapshot(id)),
            decreases ids.len() - i,
        {
            c.push(UiCommand::GetPlanetSnapshot(ids[i]));
            assert(ids@.take(i + 1) =~= ids@.take(i as int).push(ids@[i as int]));
            assert(c@ =~= c0 + ids@.take(i + 1).map_values(|id: ID| UiCommand::GetPlanetSnapshot(id)));
            i = i + 1;
        }
        assert(ids@.take(ids@.len() as int) =~= ids@);
    }
    let ghost c1 = c@;
    if explorers_due {
        let mut i: usize = 0;
        while i < explorers.len()
            invariant
                i <= explorers@.len(),
                c@ == c1 + explorers@.take(i as int).map_values(|id: ID| UiCommand::GetExplorerSnapshot(id)),
            decreases explorers.len() - i,
        {
            c.push(UiCommand::GetExplorerSnapshot(explorers[i]));
            assert(explorers@.take(i + 1) =~= explorers@.take(i as int).push(explorers@[i as int]));
            assert(c@ =~= c1 + explorers@.take(i + 1).map_values(|id: ID| UiCommand::GetExplorerSnapshot(id)));
            i = i + 1;
        }
        assert(explorers@.take(explorers@.len() as int) =~= explorers@);
    }
    if positions_due {
        c.push(UiCommand::GetExplorersPosition);
    }
    assert(c@ =~= frame_requests(
        planets_due,
        explorers_due,
        positions_due,
        planets@,
        explorers@,
    ));
    c
}

/// Picks out the planet snapshot requests.
pub open spec fn planet_requests() -> spec_fn(UiCommand) -> bool {
    |c: UiCommand| c is GetPlanetSnapshot
}

/// Picks out the explorer snapshot requests.
pub open spec fn explorer_requests() -> spec_fn(UiCommand) -> bool {
    |c: UiCommand| c is GetExplorerSnapshot
}

/// Picks out the position requests.
pub open spec fn position_requests() -> spec_fn(UiCommand) -> bool {
    |c: UiCommand| c is GetExplorersPosition
}

proof fn lemma_filter_keeps_all<A>(s: Seq<A>, pred: spec_fn(A) -> bool)
    requires
        forall|i: int| 0 <= i < s.len() ==> pred(#[trigger] s[i]),
    ensures
        s.filter(pred) == s,
    decreases s.len(),
{
    reveal(Seq::filter);
    if s.len() > 0 {
        let d = s.drop_last();
        assert forall|i: int| 0 <= i < d.len() implies pred(#[trigger] d[i]) by {
            assert(d[i] == s[i]);
        }
        lemma_filter_keeps_all(d, pred);
        assert(pred(s[s.len() - 1]));
        assert(d.push(s.last()) =~= s);
    }
}

proof fn lemma_filter_drops_all<A>(s: Seq<A>, pred: spec_fn(A) -> bool)
    requires
        forall|i: int| 0 <= i < s.len() ==> !pred(#[trigger] s[i]),
    ensures
        s.filter(pred) == Seq::<A>::empty(),
    decreases s.len(),
{
    reveal(Seq::filter);
    if s.len() > 0 {
        let d = s.drop_last();
        assert forall|i: int| 0 <= i < d.len() implies !pred(#[trigger] d[i]) by {
            assert(d[i] == s[i]);
        }
        lemma_filter_drops_all(d, pred);
        assert(!pred(s[s.len() - 1]));
    } else {
        assert(s =~= Seq::<A>::empty());
    }
}

/// No planet has no active id, and a planet added at the end adds its id
/// at the end exactly when it is active.
pub proof fn lemma_active_ids_push<P>(planets: Seq<Planet<P>>, p: Planet<P>)
    ensures
        active_ids(Seq::<Planet<P>>::empty()) == Seq::<ID>::empty(),
        active_ids(planets.push(p)) == active_ids(planets) + (if p.active {
            seq![p.id]
        } else {
            Seq::<ID>::empty()
        }),
{
    reveal(Seq::filter);
    assert(Seq::<Planet<P>>::empty().filter(|q: Planet<P>| q.active) =~= Seq::<Planet<P>>::empty());
    assert(active_ids(Seq::<Planet<P>>::empty()) =~= Seq::<ID>::empty());
    let f = planets.filter(|q: Planet<P>| q.active);
    planets.lemma_filter_push(p, |q: Planet<P>| q.active);
    if p.active {
        f.lemma_push_map_commute(|q: Planet<P>| q.id, p);
        assert(f.map_values(|q: Planet<P>| q.id).push(p.id) =~= f.map_values(|q: Planet<P>| q.id)
            + seq![p.id]);
    } else {
        assert(active_ids(planets) + Seq::<ID>::empty() =~= active_ids(planets));
    }
}

/// Each kind of polling request follows its own timer and nothing else.
/// Whatever the two other timers say, the planet snapshot requests of a
/// frame are one for each active planet, in the order of the planets, when
/// the planet timer is due, and none when it is not; the explorer snapshot
/// requests are one for each known explorer, in order, when the explorer
/// timer is due, and none when it is not; and there is one position
/// request when the position timer is due, and none when it is not. A
/// frame sends no other request.
pub proof fn lemma_frame_requests_per_timer<P>(
    planets_due: bool,
    explorers_due: bool,
    positions_due: bool,
    planets: Seq<Planet<P>>,
    explorers: Seq<ID>,
)
    ensures
        frame_requests(planets_due, explorers_due, positions_due, planets, explorers).filter(
            planet_requests(),
        ) == (if planets_due {
            active_ids(planets).map_values(|id: ID| UiCommand::GetPlanetSnapshot(id))
        } else {
            Seq::<UiCommand>::empty()
        }),
        frame_requests(planets_due, explorers_due, positions_due, planets, explorers).filter(
            explorer_requests(),
        ) == (if explorers_due {
            explorers.map_values(|id: ID| UiCommand::GetExplorerSnapshot(id))
        } else {
            Seq::<UiCommand>::empty()
        }),
        frame_requests(planets_due, explorers_due, positions_due, planets, explorers).filter(
            position_requests(),
        ) == (if positions_due {
            seq![UiCommand::GetExplorersPosition]
        } else {
            Seq::<UiCommand>::empty()
        }),
        frame_requests(planets_due, explorers_due, positions_due, planets, explorers).len() == (
        if planets_due {
            active_ids(planets).len()
        } else {
            0
        }) + (if explorers_due {
            explorers.len()
        } else {
            0
        }) + (if positions_due {
            1int
        } else {
            0
        }),
{
    let a: Seq<UiCommand> = if planets_due {
        active_ids(planets).map_values(|id: ID| UiCommand::GetPlanetSnapshot(id))
    } else {
        Seq::empty()
    };
    let b: Seq<UiCommand> = if explorers_due {
        explorers.map_values(|id: ID| UiCommand::GetExplorerSnapshot(id))
    } else {
        Seq::empty()
    };
    let c: Seq<UiCommand> = if positions_due {
        seq![UiCommand::GetExplorersPosition]
    } else {
        Seq::empty()
    };
    let r = frame_requests(planets_due, explorers_due, positions_due, planets, explorers);
    assert(r == a + b + c);
    let pp = planet_requests();
    let pe = explorer_requests();
    let pq = position_requests();
    Seq::filter_distributes_over_add(a + b, c, pp);
    Seq::filter_distributes_over_add(a, b, pp);
    Seq::filter_distributes_over_add(a + b, c, pe);
    Seq::filter_distributes_over_add(a, b, pe);
    Seq::filter_distributes_over_add(a + b, c, pq);
    Seq::filter_distributes_over_add(a, b, pq);
    assert forall|i: int| 0 <= i < a.len() implies #[trigger] a[i] is GetPlanetSnapshot by {}
    assert forall|i: int| 0 <= i < b.len() implies #[trigger] b[i] is GetExplorerSnapshot by {}
    assert forall|i: int| 0 <= i < c.len() implies #[trigger] c[i] is GetExplorersPosition by {}
    lemma_filter_keeps_all(a, pp);
    lemma_filter_drops_all(a, pe);
    lemma_filter_drops_all(a, pq);
    lemma_filter_drops_all(b, pp);
    lemma_filter_keeps_all(b, pe);
    lemma_filter_drops_all(b, pq);
    lemma_filter_drops_all(c, pp);
    lemma_filter_drops_all(c, pe);
    lemma_filter_keeps_all(c, pq);
    assert(a + Seq::<UiCommand>::empty() + Seq::<UiCommand>::empty() =~= a);
    assert(Seq::<UiCommand>::empty() + b + Seq::<UiCommand>::empty() =~= b);
    assert(Seq::<UiCommand>::empty() + Seq::<UiCommand>::empty() + c =~= c);
}

/// How long a planet waits after being queued before its snapshot is
/// requested again, in milliseconds.
pub const REFRESH_DELAY_MS: u64 = 100u64;

/// Whether a refresh queued `elapsed_nanos` nanoseconds ago is due.
pub open spec fn spec_refresh_due(elapsed_nanos: u128) -> bool {
    elapsed_nanos >= REFRESH_DELAY_MS * 1_000_000
}

/// Whether a refresh queued `elapsed_nanos` nanoseconds ago is due.
pub fn refresh_due(elapsed_nanos: u128) -> (due: bool)
    ensures
        due == spec_refresh_due(elapsed_nanos),
{
    elapsed_nanos >= (REFRESH_DELAY_MS as u128) * NANOS_PER_MILLI
}

/// Draining the refresh queue from position `i` on, when entry `k` has
/// waited `waited[k]` nanoseconds: a due entry at `i` is sent and the last
/// entry moves into its place; an entry not due yet is stepped over. The
/// result is the entries sent, in the order they are sent, and the queue
/// left.
pub open spec fn drain_from(q: Seq<(ID, Instant)>, waited: Seq<u128>, i: int) -> (
    Seq<(ID, Instant)>,
    Seq<(ID, Instant)>,
)
    decreases q.len() - i,
{
    if i < 0 || i >= q.len() || waited.len() != q.len() {
        (Seq::empty(), q)
    } else if spec_refresh_due(waited[i]) {
        let rest = drain_from(
            q.update(i, q.last()).drop_last(),
            waited.update(i, waited.last()).drop_last(),
            i,
        );
        (seq![q[i]] + rest.0, rest.1)
    } else {
        drain_from(q, waited, i + 1)
    }
}

/// The queued refreshes that are sent, in the order they are sent.
pub open spec fn refreshes_due(q: Seq<(ID, Instant)>, waited: Seq<u128>) -> Seq<(ID, Instant)> {
    drain_from(q, waited, 0).0
}

/// The queued refreshes left waiting, in the order they are left.
pub open spec fn refreshes_kept(q: Seq<(ID, Instant)>, waited: Seq<u128>) -> Seq<(ID, Instant)> {
    drain_from(q, waited, 0).1
}

proof fn lemma_swap_remove_multiset<A>(q: Seq<A>, i: int)
    requires
        0 <= i < q.len(),
    ensures
        q.update(i, q.last()).drop_last().to_multiset().insert(q[i]) == q.to_multiset(),
{
    let n = q.len();
    let r = q.update(i, q.last()).drop_last();
    assert(q.remove(i).to_multiset() =~= q.to_multiset().remove(q[i]));
    assert(q.to_multiset().count(q[i]) > 0) by {
        assert(q.contains(q[i]));
    }
    if i == n - 1 {
        assert(r =~= q.remove(i));
    } else {
        let a = q.subrange(0, i);
        let b = q.subrange(i + 1, n - 1);
        let l = seq![q.last()];
        assert(r =~= a + l + b);
        assert(q.remove(i) =~= a + b + l);
        vstd::seq_lib::lemma_multiset_commutative(a + l, b);
        vstd::seq_lib::lemma_multiset_commutative(a, l);
        vstd::seq_lib::lemma_multiset_commutative(a + b, l);
        vstd::seq_lib::lemma_multiset_commutative(a, b);
        assert(r.to_multiset() =~= q.remove(i).to_multiset());
    }
    assert(r.to_multiset().insert(q[i]) =~= q.to_multiset());
}

proof fn lemma_drain_from_keeps_all(q: Seq<(ID, Instant)>, waited: Seq<u128>, i: int)
    requires
        0 <= i,
    ensures
        drain_from(q, waited, i).1.to_multiset().add(drain_from(q, waited, i).0.to_multiset())
            == q.to_multiset(),
    decreases q.len() - i,
{
    if i >= q.len() || waited.len() != q.len() {
        assert(Seq::<(ID, Instant)>::empty().to_multiset() =~= Multiset::empty());
        assert(q.to_multiset().add(Multiset::empty()) =~= q.to_multiset());
    } else if spec_refresh_due(waited[i]) {
        let q1 = q.update(i, q.last()).drop_last();
        let w1 = waited.update(i, waited.last()).drop_last();
        lemma_drain_from_keeps_all(q1, w1, i);
        lemma_swap_remove_multiset(q, i);
        let rest = drain_from(q1, w1, i);
        vstd::seq_lib::lemma_multiset_commutative(seq![q[i]], rest.0);
        assert(seq![q[i]].to_multiset() =~= Multiset::empty().insert(q[i])) by {
            assert(seq![q[i]] =~= Seq::<(ID, Instant)>::empty().push(q[i]));
        }
        assert(drain_from(q, waited, i).1.to_multiset().add(drain_from(q, waited, i).0.to_multiset())
            =~= q.to_multiset());
    } else {
        lemma_drain_from_keeps_all(q, waited, i + 1);
    }
}

/// Draining the queue loses and adds nothing: the entries left and the
/// entries sent are together those queued.
pub proof fn lemma_refresh_split_keeps_all(q: Seq<(ID, Instant)>, waited: Seq<u128>)
    ensures
        refreshes_kept(q, waited).to_multiset().add(refreshes_due(q, waited).to_multiset())
            == q.to_multiset(),
{
    lemma_drain_from_keeps_all(q, waited, 0);
}

/// Each queued entry beside how long it has waited.
pub open spec fn queued_waits(q: Seq<(ID, Instant)>, waited: Seq<u128>) -> Seq<
    ((ID, Instant), u128),
> {
    Seq::new(q.len(), |k: int| (q[k], waited[k]))
}

/// The entries of `entries`, each as often as it occurs there, whose wait
/// makes them due (when `due` holds) or leaves them waiting (when it does
/// not).
pub open spec fn entries_by_due(entries: Seq<((ID, Instant), u128)>, due: bool) -> Multiset<
    (ID, Instant),
> {
    entries.filter(|e: ((ID, Instant), u128)| spec_refresh_due(e.1) == due).map_values(
        |e: ((ID, Instant), u128)| e.0,
    ).to_multiset()
}

proof fn lemma_entries_by_due_add(a: Seq<((ID, Instant), u128)>, b: Seq<((ID, Instant), u128)>, due: bool)
    ensures
        entries_by_due(a + b, due) == entries_by_due(a, due).add(entries_by_due(b, due)),
{
    let p = |e: ((ID, Instant), u128)| spec_refresh_due(e.1) == due;
    let g = |e: ((ID, Instant), u128)| e.0;
    Seq::filter_distributes_over_add(a, b, p);
    assert((a.filter(p) + b.filter(p)).map_values(g) =~= a.filter(p).map_values(g) + b.filter(
        p,
    ).map_values(g));
    vstd::seq_lib::lemma_multiset_commutative(a.filter(p).map_values(g), b.filter(p).map_values(g));
}

proof fn lemma_entries_by_due_one(x: ((ID, Instant), u128), due: bool)
    ensures
        entries_by_due(seq![x], due) == (if spec_refresh_due(x.1) == due {
            Multiset::empty().insert(x.0)
        } else {
            Multiset::empty()
        }),
{
    let p = |e: ((ID, Instant), u128)| spec_refresh_due(e.1) == due;
    let g = |e: ((ID, Instant), u128)| e.0;
    let e0 = Seq::<((ID, Instant), u128)>::empty();
    reveal(Seq::filter);
    assert(e0.filter(p) =~= e0);
    assert(seq![x] =~= e0.push(x));
    e0.lemma_filter_push(x, p);
    if p(x) {
        assert(seq![x].filter(p).map_values(g) =~= Seq::<(ID, Instant)>::empty().push(x.0));
    } else {
        assert(seq![x].filter(p).map_values(g) =~= Seq::<(ID, Instant)>::empty());
    }
}

proof fn lemma_drain_from_splits_by_due(q: Seq<(ID, Instant)>, waited: Seq<u128>, i: int)
    requires
        0 <= i <= q.len(),
        waited.len() == q.len(),
    ensures
        drain_from(q, waited, i).0.to_multiset() == entries_by_due(
            queued_waits(q, waited).subrange(i, q.len() as int),
            true,
        ),
        drain_from(q, waited, i).1.to_multiset() == q.subrange(0, i).to_multiset().add(
            entries_by_due(queued_waits(q, waited).subrange(i, q.len() as int), false),
        ),
    decreases q.len() - i,
{
    let n = q.len() as int;
    let pw = queued_waits(q, waited);
    if i == n {
        let e = Seq::<((ID, Instant), u128)>::empty();
        assert(pw.subrange(i, n) =~= e);
        reveal(Seq::filter);
        assert(e.filter(|x: ((ID, Instant), u128)| spec_refresh_due(x.1) == true) =~= e);
        assert(e.filter(|x: ((ID, Instant), u128)| spec_refresh_due(x.1) == false) =~= e);
        assert(entries_by_due(e, true) =~= Multiset::empty());
        assert(entries_by_due(e, false) =~= Multiset::empty());
        assert(q.subrange(0, i) =~= q);
        assert(Seq::<(ID, Instant)>::empty().to_multiset() =~= Multiset::empty());
        assert(q.to_multiset().add(Multiset::empty()) =~= q.to_multiset());
    } else {
        let rest_pw = pw.subrange(i, n);
        assert(rest_pw =~= seq![pw[i]] + pw.subrange(i + 1, n));
        lemma_entries_by_due_add(seq![pw[i]], pw.subrange(i + 1, n), true);
        lemma_entries_by_due_add(seq![pw[i]], pw.subrange(i + 1, n), false);
        lemma_entries_by_due_one(pw[i], true);
        lemma_entries_by_due_one(pw[i], false);
        if spec_refresh_due(waited[i]) {
            let q1 = q.update(i, q.last()).drop_last();
            let w1 = waited.update(i, waited.last()).drop_last();
            lemma_drain_from_splits_by_due(q1, w1, i);
            let pw1 = queued_waits(q1, w1);
            let rest = drain_from(q1, w1, i);
            assert(drain_from(q, waited, i) == (seq![q[i]] + rest.0, rest.1));
            assert(q1.subrange(0, i) =~= q.subrange(0, i));
            // the suffix after the swap-remove: the last entry in place of entry i
            if i == n - 1 {
                assert(pw1.subrange(i, n - 1) =~= Seq::<((ID, Instant), u128)>::empty());
                assert(pw.subrange(i + 1, n) =~= Seq::<((ID, Instant), u128)>::empty());
            } else {
                let mid = pw.subrange(i + 1, n - 1);
                assert(pw.subrange(i + 1, n) =~= mid + seq![pw[n - 1]]);
                assert(pw1.subrange(i, n - 1) =~= seq![pw[n - 1]] + mid);
                lemma_entries_by_due_add(mid, seq![pw[n - 1]], true);
                lemma_entries_by_due_add(mid, seq![pw[n - 1]], false);
                lemma_entries_by_due_add(seq![pw[n - 1]], mid, true);
                lemma_entries_by_due_add(seq![pw[n - 1]], mid, false);
            }
            vstd::seq_lib::lemma_multiset_commutative(seq![q[i]], rest.0);
            assert(seq![q[i]].to_multiset() =~= Multiset::empty().insert(q[i])) by {
                assert(seq![q[i]] =~= Seq::<(ID, Instant)>::empty().push(q[i]));
            }
            assert(drain_from(q, waited, i).0.to_multiset() =~= entries_by_due(rest_pw, true));
            assert(drain_from(q, waited, i).1.to_multiset() =~= q.subrange(0, i).to_multiset().add(
                entries_by_due(rest_pw, false),
            ));
        } else {
            lemma_drain_from_splits_by_due(q, waited, i + 1);
            assert(q.subrange(0, i + 1) =~= q.subrange(0, i) + seq![q[i]]);
            vstd::seq_lib::lemma_multiset_commutative(q.subrange(0, i), seq![q[i]]);
            assert(seq![q[i]].to_multiset() =~= Multiset::empty().insert(q[i])) by {
                assert(seq![q[i]] =~= Seq::<(ID, Instant)>::empty().push(q[i]));
            }
            assert(drain_from(q, waited, i).0.to_multiset() =~= entries_by_due(rest_pw, true));
            assert(drain_from(q, waited, i).1.to_multiset() =~= q.subrange(0, i).to_multiset().add(
                entries_by_due(rest_pw, false),
            ));
        }
    }
}

/// Draining sends exactly the due entries and keeps exactly the others:
/// the entries sent are, each as often as it is queued, those whose wait
/// has reached the refresh delay, and the entries left are those whose
/// wait has not.
pub proof fn lemma_refresh_split_by_wait(q: Seq<(ID, Instant)>, waited: Seq<u128>)
    requires
        waited.len() == q.len(),
    ensures
        refreshes_due(q, waited).to_multiset() == entries_by_due(queued_waits(q, waited), true),
        refreshes_kept(q, waited).to_multiset() == entries_by_due(queued_waits(q, waited), false),
{
    lemma_drain_from_splits_by_due(q, waited, 0);
    let pw = queued_waits(q, waited);
    assert(pw.subrange(0, q.len() as int) =~= pw);
    assert(q.subrange(0, 0) =~= Seq::<(ID, Instant)>::empty());
    assert(Seq::<(ID, Instant)>::empty().to_multiset() =~= Multiset::empty());
    assert(Multiset::<(ID, Instant)>::empty().add(entries_by_due(pw, false)) =~= entries_by_due(
        pw,
        false,
    ));
}

/// Drains the refresh queue, entry `k` having waited `waited[k]`
/// nanoseconds: walking the queue from the front, a due entry is taken out
/// and the last entry moves into its place, an entry not due yet is
/// stepped over. Returns the entries taken out, in the order taken.
pub fn split_refreshes(queue: &mut Vec<(ID, Instant)>, waited: &Vec<u128>) -> (due: Vec<
    (ID, Instant),
>)
    requires
        waited@.len() == old(queue)@.len(),
    ensures
        due@ == refreshes_due(old(queue)@, waited@),
        final(queue)@ == refreshes_kept(old(queue)@, waited@),
{
    let ghost q0 = queue@;
    let mut w: Vec<u128> = Vec::new();
    let mut k: usize = 0;
    while k < waited.len()
        invariant
            k <= waited@.len(),
            w@ == waited@.take(k as int),
        decreases waited.len() - k,
    {
        w.push(waited[k]);
        assert(waited@.take(k + 1) =~= waited@.take(k as int).push(waited@[k as int]));
        k = k + 1;
    }
    assert(waited@.take(waited@.len() as int) =~= waited@);
    let mut due: Vec<(ID, Instant)> = Vec::new();
    let mut i: usize = 0;
    while i < queue.len()
        invariant
            w@.len() == queue@.len(),
            i <= queue@.len(),
            due@ + drain_from(queue@, w@, i as int).0 == drain_from(q0, waited@, 0).0,
            drain_from(queue@, w@, i as int).1 == drain_from(q0, waited@, 0).1,
        decreases queue@.len() - i,
    {
        if refresh_due(w[i]) {
            let ghost q = queue@;
            let ghost wq = w@;
            let ghost d = due@;
            let e = queue.swap_remove(i);
            w.swap_remove(i);
            due.push(e);
            assert(drain_from(q, wq, i as int).0 == seq![q[i as int]] + drain_from(queue@, w@, i as int).0);
            assert(due@ + drain_from(queue@, w@, i as int).0 =~= d + drain_from(q, wq, i as int).0);
        } else {
            i = i + 1;
        }
    }
    assert(due@ + Seq::<(ID, Instant)>::empty() =~= due@);
    due
}

/// How long each queued refresh has waited when the clock read `nows[k]`
/// for entry `k`.
pub open spec fn waited_times(q: Seq<(ID, Instant)>, nows: Seq<Instant>) -> Seq<u128> {
    Seq::new(q.len(), |k: int| nanos_since(nows[k], q[k].1))
}

/// The instants that the readings `reads` of the clock showed.
pub open spec fn reading_times(reads: Seq<ClockReading>) -> Seq<Instant> {
    reads.map_values(|r: ClockReading| r.time())
}

/// Takes out of the queue every planet refresh that has waited long enough
/// since it was queued and returns them in the order taken, as
/// `split_refreshes` drains. For each entry the clock is read during the
/// call, and the entry's wait is measured from its queue time to that
/// reading; whatever the clock says, the queue is drained by those waits,
/// and nothing is lost or added.
pub fn drain_due_refreshes(queue: &mut Vec<(ID, Instant)>) -> (due: Vec<(ID, Instant)>)
    ensures
        exists|reads: Seq<ClockReading>|
            {
                &&& reads.len() == old(queue)@.len()
                &&& due@ == #[trigger] refreshes_due(
                    old(queue)@,
                    waited_times(old(queue)@, reading_times(reads)),
                )
                &&& final(queue)@ == refreshes_kept(
                    old(queue)@,
                    waited_times(old(queue)@, reading_times(reads)),
                )
            },
        final(queue)@.to_multiset().add(due@.to_multiset()) == old(queue)@.to_multiset(),
{
    let n = queue.len();
    let mut waited: Vec<u128> = Vec::new();
    let ghost mut reads: Seq<ClockReading> = Seq::empty();
    let mut i: usize = 0;
    while i < n
        invariant
            n == queue@.len(),
            i <= n,
            waited@.len() == i,
            reads.len() == i,
            forall|k: int|
                0 <= k < i ==> #[trigger] waited@[k] == nanos_since(reads[k].time(), queue@[k].1),
        decreases n - i,
    {
        let reading = read_clock();
        let now = reading.instant();
        let w = duration_as_nanos(&duration_between(&now, &queue[i].1));
        waited.push(w);
        proof {
            reads = reads.push(reading);
        }
        i = i + 1;
    }
    let ghost start = queue@;
    assert(waited@ =~= waited_times(start, reading_times(reads)));
    let due = split_refreshes(queue, &waited);
    proof {
        lemma_refresh_split_keeps_all(start, waited@);
        assert(due@ == refreshes_due(start, waited_times(start, reading_times(reads))));
    }
    due
}

/// Where the first planet with id `id` stands in `planets`, if any.
pub fn find_planet<P>(planets: &Vec<Planet<P>>, id: ID) -> (r: Option<usize>)
    ensures
        match r {
            Some(i) => i < planets@.len() && planets@[i as int].id == id && forall|k: int|
                0 <= k < i ==> #[trigger] planets@[k].id != id,
            None => forall|k: int| 0 <= k < planets@.len() ==> #[trigger] planets@[k].id != id,
        },
{
    let mut i: usize = 0;
    while i < planets.len()
        invariant
            i <= planets@.len(),
            forall|k: int| 0 <= k < i ==> #[trigger] planets@[k].id != id,
        decreases planets.len() - i,
    {
        if planets[i].id == id {
            return Some(i);
        }
        i = i + 1;
    }
    None
}

/// Some planet of `planets` has id `id`.
pub open spec fn has_planet<P>(planets: Seq<Planet<P>>, id: ID) -> bool {
    exists|k: int| 0 <= k < planets.len() && #[trigger] planets[k].id == id
}

/// A running effect (an asteroid or a sunray sent to a planet, with the time
/// it started) after this frame: it ends when its planet is no longer shown
/// or when it has been shown long enough, and otherwise goes on unchanged.
pub fn advance_effect<P>(
    effect: Option<(ID, Instant)>,
    planets: &Vec<Planet<P>>,
    expired: bool,
) -> (next: Option<(ID, Instant)>)
    ensures
        match effect {
            None => next is None,
            Some((id, _)) => next == (if has_planet(planets@, id) && !expired {
                effect
            } else {
                None
            }),
        },
{
    match effect {
        None => None,
        Some((id, started)) => {
            match find_planet(planets, id) {
                Some(_) => {
                    if expired {
                        None
                    } else {
                        Some((id, started))
                    }
                },
                None => None,
            }
        },
    }
}

} // verus!
