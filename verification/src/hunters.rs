//! Hunter movement (Enemy phase step 3.2): each ready, unengaged hunter on
//! the map moves one step toward the nearest prey-chosen investigator, then
//! engages on arrival. A barricaded location is impassable to a non-Elite
//! hunter at the graph level, so it shifts which investigator is nearest,
//! not just the final step.
use vstd::prelude::*;

use crate::cards::Restriction;
use crate::cursor::{
    active_at_of, active_investigators_at, is_active, is_active_id, investigator_location,
    location_of,
};
use crate::encounter::{investigator_choice_options, investigator_options};
use crate::engagement::{engage_enemy_with, move_hunter_to};
use crate::outcome::{
    ChoiceOption, EngineOutcome, Event, InputRequest, InputResponse, OptionTarget, PromptKind,
    Reject,
};
use crate::prey::{best_of, resolve_prey, resolves_to, PreyResolution};
use crate::movement::{attachments_carry, attachments_carry_restriction, enemy_is_elite, is_elite};
use crate::seqs::{lemma_filter_step, lemma_take_full};
use crate::set_aside::contains_location;
use crate::state::{
    enemy_index, has_enemy, has_location, lemma_enemy_index, investigator_ids_distinct, location_ids_distinct,
    location_index, Continuation, Enemy, EnemyId, GameState, HunterChoice, InvestigatorId,
    Location, LocationId,
};

verus! {

/// Whether a hunter may step into `loc`: Elite, or no card attached to `loc`
/// carries the enemy-movement restriction. Only attachments are read.
pub open spec fn hunter_may_enter(s: GameState, e: Enemy, loc: LocationId) -> bool {
    is_elite(e) || !(has_location(s.locations@, loc) && attachments_carry(
        s.registry,
        s.locations@[location_index(s.locations@, loc)].attachments@,
        Restriction::EnemyMovementBlocked,
    ))
}

/// Whether `enemy` may move into `loc`. Blocked only when a card attached to
/// `loc` carries the enemy-movement restriction **and** the enemy is
/// non-Elite. Shared by hunter movement and forced enemy movement, so a
/// barricade is honoured whatever moves the enemy.
pub fn enemy_can_enter_location(state: &GameState, enemy: &Enemy, loc: LocationId) -> (b: bool)
    requires
        location_ids_distinct(state.locations@),
    ensures
        b == hunter_may_enter(*state, *enemy, loc),
{
    enemy_is_elite(enemy) || !location_blocks_enemy_movement(state, loc)
}

/// Whether a card attached to `loc` carries the enemy-movement restriction
/// (`false` for a location not in play, or with no card data).
fn location_blocks_enemy_movement(state: &GameState, loc: LocationId) -> (b: bool)
    requires
        location_ids_distinct(state.locations@),
    ensures
        b == (has_location(state.locations@, loc) && attachments_carry(
            state.registry,
            state.locations@[location_index(state.locations@, loc)].attachments@,
            Restriction::EnemyMovementBlocked,
        )),
{
    match state.find_location(loc) {
        None => false,
        Some(i) => attachments_carry_restriction(
            &state.registry,
            &state.locations[i].attachments,
            Restriction::EnemyMovementBlocked,
        ),
    }
}

/// Whether location `j` lists location `i` among its connections.
pub open spec fn linked(locs: Seq<Location>, j: int, i: int) -> bool {
    locs[j].connections@.contains(locs[i].id)
}

/// One breadth-first layer more: what `prev` reaches, plus every passable
/// location connected from it.
pub open spec fn layer_step(locs: Seq<Location>, pass: Seq<bool>, prev: Seq<bool>) -> Seq<bool> {
    Seq::new(
        locs.len(),
        |i: int|
            prev[i] || (pass[i] && exists|j: int|
                0 <= j < locs.len() && #[trigger] prev[j] && linked(locs, j, i)),
    )
}

/// The locations (by index) reachable from `src` in at most `k` steps
/// through passable locations.
pub open spec fn layer(locs: Seq<Location>, pass: Seq<bool>, src: int, k: nat) -> Seq<bool>
    decreases k,
{
    if k == 0 {
        Seq::new(locs.len(), |i: int| i == src)
    } else {
        layer_step(locs, pass, layer(locs, pass, src, (k - 1) as nat))
    }
}

/// The least `j >= k`, up to the number of locations, at which `dst` is
/// reached from `src`.
pub open spec fn first_reach(locs: Seq<Location>, pass: Seq<bool>, src: int, dst: int, k: nat)
    -> Option<nat>
    decreases locs.len() + 1 - k,
{
    if k > locs.len() {
        None
    } else if layer(locs, pass, src, k)[dst] {
        Some(k)
    } else {
        first_reach(locs, pass, src, dst, k + 1)
    }
}

/// The number of connections from `src` to `dst` through passable
/// locations, if `dst` is reachable.
pub open spec fn distance(locs: Seq<Location>, pass: Seq<bool>, src: int, dst: int) -> Option<nat> {
    first_reach(locs, pass, src, dst, 0)
}

/// Whether `enemy` may enter each location, by index.
fn passable_marks(state: &GameState, enemy: &Enemy) -> (r: Vec<bool>)
    requires
        location_ids_distinct(state.locations@),
    ensures
        r@.len() == state.locations@.len(),
        forall|i: int|
            0 <= i < r@.len() ==> r@[i] == hunter_may_enter(*state, *enemy, state.locations@[i].id),
{
    let mut out: Vec<bool> = Vec::new();
    let mut i: usize = 0;
    while i < state.locations.len()
        invariant
            i <= state.locations@.len(),
            location_ids_distinct(state.locations@),
            out@.len() == i,
            forall|k: int|
                0 <= k < i ==> out@[k] == hunter_may_enter(*state, *enemy, state.locations@[k].id),
        decreases state.locations@.len() - i,
    {
        let b = enemy_can_enter_location(state, enemy, state.locations[i].id);
        out.push(b);
        i += 1;
    }
    out
}

/// Whether some location reached in `prev` connects to location `i`.
fn reached_neighbour(locs: &Vec<Location>, prev: &Vec<bool>, i: usize) -> (b: bool)
    requires
        prev@.len() == locs@.len(),
        i < locs@.len(),
    ensures
        b == exists|j: int| 0 <= j < locs@.len() && #[trigger] prev@[j] && linked(locs@, j, i as int),
{
    let mut j: usize = 0;
    while j < locs.len()
        invariant
            prev@.len() == locs@.len(),
            i < locs@.len(),
            j <= locs@.len(),
            forall|k: int| 0 <= k < j ==> !(#[trigger] prev@[k] && linked(locs@, k, i as int)),
        decreases locs@.len() - j,
    {
        if prev[j] && contains_location(&locs[j].connections, locs[i].id) {
            return true;
        }
        j += 1;
    }
    false
}

/// The next breadth-first layer after `prev`.
fn next_layer(locs: &Vec<Location>, pass: &Vec<bool>, prev: &Vec<bool>) -> (r: Vec<bool>)
    requires
        prev@.len() == locs@.len(),
        pass@.len() == locs@.len(),
    ensures
        r@ == layer_step(locs@, pass@, prev@),
{
    let mut out: Vec<bool> = Vec::new();
    let mut i: usize = 0;
    while i < locs.len()
        invariant
            prev@.len() == locs@.len(),
            pass@.len() == locs@.len(),
            i <= locs@.len(),
            out@.len() == i,
            forall|k: int| 0 <= k < i ==> out@[k] == layer_step(locs@, pass@, prev@)[k],
        decreases locs@.len() - i,
    {
        let b = prev[i] || (pass[i] && reached_neighbour(locs, prev, i));
        out.push(b);
        i += 1;
    }
    assert(out@ =~= layer_step(locs@, pass@, prev@));
    out
}

/// The first layer: `src` alone.
fn start_layer(n: usize, src: usize) -> (r: Vec<bool>)
    ensures
        r@ == Seq::new(n as nat, |i: int| i == src),
{
    let mut out: Vec<bool> = Vec::new();
    let mut i: usize = 0;
    while i < n
        invariant
            i <= n,
            out@.len() == i,
            forall|k: int| 0 <= k < i ==> out@[k] == (k == src),
        decreases n - i,
    {
        out.push(i == src);
        i += 1;
    }
    assert(out@ =~= Seq::new(n as nat, |i: int| i == src));
    out
}

/// The breadth-first distance from location `src` to location `dst` (by
/// index) through passable locations.
fn bfs_distance(locs: &Vec<Location>, pass: &Vec<bool>, src: usize, dst: usize) -> (r: Option<usize>)
    requires
        pass@.len() == locs@.len(),
        src < locs@.len(),
        dst < locs@.len(),
    ensures
        match r {
            Some(d) => distance(locs@, pass@, src as int, dst as int) == Some(d as nat),
            None => distance(locs@, pass@, src as int, dst as int) is None,
        },
{
    let n = locs.len();
    let mut cur = start_layer(n, src);
    let mut k: usize = 0;
    while k < n
        invariant
            n == locs@.len(),
            pass@.len() == locs@.len(),
            src < n,
            dst < n,
            k <= n,
            cur@ == layer(locs@, pass@, src as int, k as nat),
            distance(locs@, pass@, src as int, dst as int) == first_reach(
                locs@,
                pass@,
                src as int,
                dst as int,
                k as nat,
            ),
        decreases n - k,
    {
        if cur[dst] {
            return Some(k);
        }
        cur = next_layer(locs, pass, &cur);
        k += 1;
    }
    if cur[dst] {
        Some(k)
    } else {
        proof {
            assert(first_reach(locs@, pass@, src as int, dst as int, (k + 1) as nat) is None);
        }
        None
    }
}

/// The index of the location investigator `id` stands at, when seated, on
/// the map, and that location is in play.
pub open spec fn target_index(s: GameState, id: InvestigatorId) -> Option<int> {
    match location_of(s.investigators@, id) {
        Some(l) => if has_location(s.locations@, l) {
            Some(location_index(s.locations@, l))
        } else {
            None
        },
        None => None,
    }
}

/// How far investigator `id` is from location index `from`, when `Active`
/// and reachable.
pub open spec fn inv_distance(s: GameState, pass: Seq<bool>, from: int, id: InvestigatorId) -> Option<
    nat,
> {
    if is_active_id(s.investigators@, id) {
        match target_index(s, id) {
            Some(t) => distance(s.locations@, pass, from, t),
            None => None,
        }
    } else {
        None
    }
}

/// The least distance from `from` to any investigator of `order`.
pub open spec fn min_distance(s: GameState, pass: Seq<bool>, from: int, order: Seq<InvestigatorId>)
    -> Option<nat>
    decreases order.len(),
{
    if order.len() == 0 {
        None
    } else {
        let rest = min_distance(s, pass, from, order.drop_last());
        match inv_distance(s, pass, from, order.last()) {
            None => rest,
            Some(d) => match rest {
                None => Some(d),
                Some(m) => Some(
                    if d < m {
                        d
                    } else {
                        m
                    },
                ),
            },
        }
    }
}

/// The reachable `Active` investigators nearest to `from`, in turn order.
pub open spec fn nearest_of(s: GameState, pass: Seq<bool>, from: int) -> Seq<InvestigatorId> {
    match min_distance(s, pass, from, s.turn_order@) {
        None => Seq::empty(),
        Some(m) => s.turn_order@.filter(|id: InvestigatorId| inv_distance(s, pass, from, id) == Some(m)),
    }
}

/// The distance from location index `from` to investigator `id`.
fn investigator_distance(state: &GameState, pass: &Vec<bool>, from: usize, id: InvestigatorId)
    -> (r: Option<usize>)
    requires
        investigator_ids_distinct(state.investigators@),
        location_ids_distinct(state.locations@),
        pass@.len() == state.locations@.len(),
        from < state.locations@.len(),
    ensures
        match r {
            Some(d) => inv_distance(*state, pass@, from as int, id) == Some(d as nat),
            None => inv_distance(*state, pass@, from as int, id) is None,
        },
{
    if !is_active(state, id) {
        return None;
    }
    let Some(loc) = investigator_location(state, id) else {
        return None;
    };
    let Some(t) = state.find_location(loc) else {
        return None;
    };
    bfs_distance(&state.locations, pass, from, t)
}

/// The reachable `Active` investigators nearest to location index `from`,
/// in turn order.
fn nearest_investigators(state: &GameState, pass: &Vec<bool>, from: usize) -> (r: Vec<
    InvestigatorId,
>)
    requires
        investigator_ids_distinct(state.investigators@),
        location_ids_distinct(state.locations@),
        pass@.len() == state.locations@.len(),
        from < state.locations@.len(),
    ensures
        r@ == nearest_of(*state, pass@, from as int),
{
    let ghost order = state.turn_order@;
    let mut least: Option<usize> = None;
    let mut i: usize = 0;
    while i < state.turn_order.len()
        invariant
            order == state.turn_order@,
            i <= order.len(),
            investigator_ids_distinct(state.investigators@),
            location_ids_distinct(state.locations@),
            pass@.len() == state.locations@.len(),
            from < state.locations@.len(),
            match least {
                Some(m) => min_distance(*state, pass@, from as int, order.take(i as int)) == Some(
                    m as nat,
                ),
                None => min_distance(*state, pass@, from as int, order.take(i as int)) is None,
            },
        decreases order.len() - i,
    {
        proof {
            assert(order.take(i + 1).drop_last() =~= order.take(i as int));
            assert(order.take(i + 1).last() == order[i as int]);
        }
        match investigator_distance(state, pass, from, state.turn_order[i]) {
            None => {},
            Some(d) => {
                least = match least {
                    None => Some(d),
                    Some(m) => Some(
                        if d < m {
                            d
                        } else {
                            m
                        },
                    ),
                };
            },
        }
        i += 1;
    }
    proof {
        lemma_take_full(order);
    }
    let Some(m) = least else {
        return Vec::new();
    };
    let ghost p = |id: InvestigatorId| inv_distance(*state, pass@, from as int, id) == Some(m as nat);
    let mut out: Vec<InvestigatorId> = Vec::new();
    let mut j: usize = 0;
    while j < state.turn_order.len()
        invariant
            order == state.turn_order@,
            j <= order.len(),
            investigator_ids_distinct(state.investigators@),
            location_ids_distinct(state.locations@),
            pass@.len() == state.locations@.len(),
            from < state.locations@.len(),
            p == (|id: InvestigatorId| inv_distance(*state, pass@, from as int, id) == Some(m as nat)),
            out@ == order.take(j as int).filter(p),
        decreases order.len() - j,
    {
        proof {
            lemma_filter_step(order, p, j as int);
        }
        let id = state.turn_order[j];
        match investigator_distance(state, pass, from, id) {
            Some(d) => {
                if d == m {
                    out.push(id);
                }
            },
            None => {},
        }
        j += 1;
    }
    out
}

/// Whether location index `m` is a first step on a shortest passable path
/// from `from` to `t`.
pub open spec fn is_step_toward(locs: Seq<Location>, pass: Seq<bool>, from: int, t: int, m: int) -> bool {
    &&& 0 <= m < locs.len()
    &&& pass[m]
    &&& linked(locs, from, m)
    &&& match distance(locs, pass, from, t) {
        Some(d) => d >= 1 && distance(locs, pass, m, t) == Some((d - 1) as nat),
        None => false,
    }
}

/// Whether location index `m` is a first step from `from` toward where
/// investigator `id` stands.
pub open spec fn steps_toward_inv(s: GameState, pass: Seq<bool>, from: int, id: InvestigatorId, m: int) -> bool {
    match target_index(s, id) {
        Some(t) => is_step_toward(s.locations@, pass, from, t, m),
        None => false,
    }
}

/// Whether location index `m` is a first step toward one of `chosen`.
pub open spec fn is_dest_index(s: GameState, pass: Seq<bool>, from: int, chosen: Seq<InvestigatorId>, m: int) -> bool {
    exists|k: int| 0 <= k < chosen.len() && #[trigger] steps_toward_inv(s, pass, from, chosen[k], m)
}

/// `prev` with every first step from `from` toward investigator `id`
/// marked as well.
fn mark_steps(state: &GameState, pass: &Vec<bool>, from: usize, id: InvestigatorId, prev: &Vec<bool>) -> (r: Vec<bool>)
    requires
        investigator_ids_distinct(state.investigators@),
        location_ids_distinct(state.locations@),
        pass@.len() == state.locations@.len(),
        prev@.len() == state.locations@.len(),
        from < state.locations@.len(),
    ensures
        r@.len() == prev@.len(),
        forall|m: int| 0 <= m < prev@.len() ==> r@[m] == (prev@[m]
            || steps_toward_inv(*state, pass@, from as int, id, m)),
{
    let n = state.locations.len();
    let target = match investigator_location(state, id) {
        Some(loc) => state.find_location(loc),
        None => None,
    };
    let dist = match target {
        Some(t) => bfs_distance(&state.locations, pass, from, t),
        None => None,
    };
    let mut out: Vec<bool> = Vec::new();
    let mut m: usize = 0;
    while m < n
        invariant
            n == state.locations@.len(),
            pass@.len() == n,
            prev@.len() == n,
            from < n,
            match target {
                Some(t) => t < n && target_index(*state, id) == Some(t as int) && match dist {
                    Some(d) => distance(state.locations@, pass@, from as int, t as int) == Some(d as nat),
                    None => distance(state.locations@, pass@, from as int, t as int) is None,
                },
                None => target_index(*state, id) is None,
            },
            m <= n,
            out@.len() == m,
            forall|k: int| 0 <= k < m ==> out@[k] == (prev@[k] || steps_toward_inv(*state, pass@, from as int, id, k)),
        decreases n - m,
    {
        let mut b = prev[m];
        if let Some(t) = target {
            if let Some(d) = dist {
                if d >= 1 && pass[m] && contains_location(&state.locations[from].connections, state.locations[m].id) {
                    if let Some(e) = bfs_distance(&state.locations, pass, m, t) {
                        if e == d - 1 {
                            b = true;
                        }
                    }
                }
            }
        }
        out.push(b);
        m += 1;
    }
    out
}

/// Strictly ascending by id.
pub open spec fn ascending(v: Seq<LocationId>) -> bool {
    forall|i: int, j: int| 0 <= i < j < v.len() ==> v[i].0 < v[j].0
}

/// Insert `id` into the ascending `v`, keeping it ascending.
fn insert_ascending(v: &mut Vec<LocationId>, id: LocationId)
    requires
        ascending(old(v)@),
        !old(v)@.contains(id),
    ensures
        ascending(final(v)@),
        forall|l: LocationId| final(v)@.contains(l) <==> (old(v)@.contains(l) || l == id),
{
    let mut p: usize = 0;
    while p < v.len() && v[p].0 < id.0
        invariant
            p <= v@.len(),
            forall|k: int| 0 <= k < p ==> v@[k].0 < id.0,
        decreases v@.len() - p,
    {
        p += 1;
    }
    let ghost old_v = v@;
    proof {
        if p < old_v.len() {
            assert(old_v[p as int] != id);
            assert(old_v[p as int].0 > id.0);
        }
    }
    v.insert(p, id);
    proof {
        old_v.insert_ensures(p as int, id);
        assert forall|i: int, j: int| 0 <= i < j < v@.len() implies v@[i].0 < v@[j].0 by {
            if j < p {
            } else if j == p {
            } else if i < p {
                assert(v@[j] == old_v[j - 1]);
            } else if i == p {
                assert(v@[j] == old_v[j - 1]);
                assert(old_v[p as int].0 > id.0);
                if j - 1 > p {
                    assert(old_v[p as int].0 < old_v[j - 1].0);
                }
            } else {
                assert(v@[i] == old_v[i - 1]);
                assert(v@[j] == old_v[j - 1]);
            }
        }
        assert forall|l: LocationId| v@.contains(l) <==> (old_v.contains(l) || l == id) by {
            if v@.contains(l) {
                let i = choose|i: int| 0 <= i < v@.len() && v@[i] == l;
                if i < p {
                    assert(old_v[i] == l);
                } else if i > p {
                    assert(old_v[i - 1] == l);
                }
            }
            if old_v.contains(l) {
                let i = choose|i: int| 0 <= i < old_v.len() && old_v[i] == l;
                if i < p {
                    assert(v@[i] == l);
                } else {
                    assert(v@[i + 1] == l);
                }
            }
            if l == id {
                assert(v@[p as int] == l);
            }
        }
    }
}

/// The ids of the marked locations, ascending.
fn marked_ids_ascending(locs: &Vec<Location>, marks: &Vec<bool>) -> (r: Vec<LocationId>)
    requires
        location_ids_distinct(locs@),
        marks@.len() == locs@.len(),
    ensures
        ascending(r@),
        forall|l: LocationId| r@.contains(l) <==> exists|m: int| 0 <= m < locs@.len() && #[trigger] marks@[m] && locs@[m].id == l,
{
    let mut out: Vec<LocationId> = Vec::new();
    let mut m: usize = 0;
    while m < locs.len()
        invariant
            location_ids_distinct(locs@),
            marks@.len() == locs@.len(),
            m <= locs@.len(),
            ascending(out@),
            forall|l: LocationId| out@.contains(l) <==> exists|k: int| 0 <= k < m && #[trigger] marks@[k] && locs@[k].id == l,
        decreases locs@.len() - m,
    {
        if marks[m] {
            let id = locs[m].id;
            proof {
                if out@.contains(id) {
                    let k = choose|k: int| 0 <= k < m && #[trigger] marks@[k] && locs@[k].id == id;
                    assert(locs@[k].id == locs@[m as int].id);
                }
            }
            insert_ascending(&mut out, id);
            proof {
                assert forall|l: LocationId| out@.contains(l) <==> exists|k: int| 0 <= k < m + 1 && #[trigger] marks@[k] && locs@[k].id == l by {
                    if l == id {
                        assert(marks@[m as int] && locs@[m as int].id == l);
                    }
                    if exists|k: int| 0 <= k < m + 1 && #[trigger] marks@[k] && locs@[k].id == l {
                        let k = choose|k: int| 0 <= k < m + 1 && #[trigger] marks@[k] && locs@[k].id == l;
                        if k < m {
                            assert(exists|k: int| 0 <= k < m && #[trigger] marks@[k] && locs@[k].id == l);
                        }
                    }
                }
            }
        } else {
            proof {
                assert forall|l: LocationId| out@.contains(l) <==> exists|k: int| 0 <= k < m + 1 && #[trigger] marks@[k] && locs@[k].id == l by {
                    if exists|k: int| 0 <= k < m + 1 && #[trigger] marks@[k] && locs@[k].id == l {
                        let k = choose|k: int| 0 <= k < m + 1 && #[trigger] marks@[k] && locs@[k].id == l;
                        assert(k < m);
                        assert(exists|k: int| 0 <= k < m && #[trigger] marks@[k] && locs@[k].id == l);
                    }
                }
            }
        }
        m += 1;
    }
    out
}

/// Whether `e` may enter each location, by index.
pub open spec fn pass_of(s: GameState, e: Enemy) -> Seq<bool> {
    Seq::new(s.locations@.len(), |i: int| hunter_may_enter(s, e, s.locations@[i].id))
}

/// The investigators a hunter at location index `from` closes in on: the
/// prey-best of the nearest reachable ones.
pub open spec fn hunted_of(s: GameState, e: Enemy, from: int) -> Seq<InvestigatorId> {
    best_of(s, e.prey, nearest_of(s, pass_of(s, e), from))
}

/// Whether `l` is a legal destination for hunter `e` at location index
/// `from`: a first step on a shortest passable path toward one of the
/// investigators it closes in on.
pub open spec fn is_hunter_dest(s: GameState, e: Enemy, from: int, l: LocationId) -> bool {
    exists|m: int|
        0 <= m < s.locations@.len() && #[trigger] is_dest_index(s, pass_of(s, e), from, hunted_of(s, e, from), m)
            && s.locations@[m].id == l
}

/// A row of `n` unset marks.
fn no_marks(n: usize) -> (r: Vec<bool>)
    ensures
        r@.len() == n,
        forall|i: int| 0 <= i < n ==> !r@[i],
{
    let mut out: Vec<bool> = Vec::new();
    let mut i: usize = 0;
    while i < n
        invariant
            i <= n,
            out@.len() == i,
            forall|k: int| 0 <= k < i ==> !out@[k],
        decreases n - i,
    {
        out.push(false);
        i += 1;
    }
    out
}

/// The prey-legal destinations of `enemy` standing at location index
/// `from`: the union of shortest-path first steps toward each nearest,
/// prey-chosen investigator, ascending by id. Empty when no investigator is
/// reachable.
fn hunter_destinations(state: &GameState, from: usize, enemy: &Enemy) -> (r: Vec<LocationId>)
    requires
        investigator_ids_distinct(state.investigators@),
        location_ids_distinct(state.locations@),
        from < state.locations@.len(),
    ensures
        ascending(r@),
        forall|l: LocationId| r@.contains(l) <==> is_hunter_dest(*state, *enemy, from as int, l),
{
    let pass = passable_marks(state, enemy);
    let ghost gpass = pass_of(*state, *enemy);
    assert(pass@ =~= gpass);
    let nearest = nearest_investigators(state, &pass, from);
    let chosen: Vec<InvestigatorId> = match resolve_prey(state, enemy.prey, &nearest) {
        PreyResolution::Nobody => Vec::new(),
        PreyResolution::One(id) => vec![id],
        PreyResolution::Tie(v) => v,
    };
    let ghost hunted = hunted_of(*state, *enemy, from as int);
    assert(chosen@ =~= hunted);
    let n = state.locations.len();
    let mut marks = no_marks(n);
    let mut k: usize = 0;
    while k < chosen.len()
        invariant
            investigator_ids_distinct(state.investigators@),
            location_ids_distinct(state.locations@),
            n == state.locations@.len(),
            from < n,
            pass@ == gpass,
            gpass.len() == n,
            chosen@ == hunted,
            k <= chosen@.len(),
            marks@.len() == n,
            forall|m: int| 0 <= m < n ==> marks@[m] == exists|k2: int| 0 <= k2 < k && #[trigger] steps_toward_inv(*state, gpass, from as int, hunted[k2], m),
        decreases chosen@.len() - k,
    {
        let next = mark_steps(state, &pass, from, chosen[k], &marks);
        proof {
            assert forall|m: int| 0 <= m < n implies next@[m] == exists|k2: int| 0 <= k2 < k + 1 && #[trigger] steps_toward_inv(*state, gpass, from as int, hunted[k2], m) by {
                if steps_toward_inv(*state, gpass, from as int, hunted[k as int], m) {
                    assert(exists|k2: int| 0 <= k2 < k + 1 && #[trigger] steps_toward_inv(*state, gpass, from as int, hunted[k2], m));
                }
                if exists|k2: int| 0 <= k2 < k + 1 && #[trigger] steps_toward_inv(*state, gpass, from as int, hunted[k2], m) {
                    let k2 = choose|k2: int| 0 <= k2 < k + 1 && #[trigger] steps_toward_inv(*state, gpass, from as int, hunted[k2], m);
                    if k2 < k {
                        assert(marks@[m]);
                    }
                }
            }
        }
        marks = next;
        k += 1;
    }
    let r = marked_ids_ascending(&state.locations, &marks);
    proof {
        assert forall|l: LocationId| r@.contains(l) <==> is_hunter_dest(*state, *enemy, from as int, l) by {
            if r@.contains(l) {
                let m = choose|m: int| 0 <= m < state.locations@.len() && #[trigger] marks@[m] && state.locations@[m].id == l;
                assert(is_dest_index(*state, gpass, from as int, hunted, m));
            }
            if is_hunter_dest(*state, *enemy, from as int, l) {
                let m = choose|m: int|
                    0 <= m < state.locations@.len() && #[trigger] is_dest_index(*state, gpass, from as int, hunted, m)
                        && state.locations@[m].id == l;
                assert(marks@[m]);
            }
        }
    }
    r
}

/// Whether `l` is a legal destination for hunter `e` standing at `loc`.
pub open spec fn in_dests(s: GameState, e: Enemy, loc: LocationId, l: LocationId) -> bool {
    has_location(s.locations@, loc) && is_hunter_dest(s, e, location_index(s.locations@, loc), l)
}

/// Whether `v` lists the destinations of hunter `e` at `loc`, ascending.
pub open spec fn lists_dests(v: Seq<LocationId>, s: GameState, e: Enemy, loc: LocationId) -> bool {
    ascending(v) && forall|l: LocationId| v.contains(l) <==> in_dests(s, e, loc, l)
}

/// `s` with the enemy at `i` engaged with `t`.
pub open spec fn engaged_at(s: GameState, f: GameState, i: int, t: InvestigatorId) -> bool {
    &&& f == (GameState { enemies: f.enemies, ..s })
    &&& f.enemies@ == s.enemies@.update(i, Enemy { engaged_with: Some(t), ..s.enemies@[i] })
}

/// `s` with the enemy at `i` moved to `l`.
pub open spec fn moved_at(s: GameState, f: GameState, i: int, l: LocationId) -> bool {
    &&& f == (GameState { enemies: f.enemies, ..s })
    &&& f.enemies@ == s.enemies@.update(i, Enemy { current_location: Some(l), ..s.enemies@[i] })
}

/// What engage-on-arrival does for enemy `id` where it stands: a single
/// prey-best co-located investigator is engaged at once; two or more tie
/// and are handed back for the lead's pick; nobody there leaves it be.
pub open spec fn arrival_result(
    s: GameState,
    f: GameState,
    e0: Seq<Event>,
    e1: Seq<Event>,
    r: Option<HunterChoice>,
    id: EnemyId,
) -> bool {
    let i = enemy_index(s.enemies@, id);
    let e = s.enemies@[i];
    let best = best_of(s, e.prey, active_at_of(s, e.current_location.unwrap()));
    if best.len() == 1 {
        &&& engaged_at(s, f, i, best[0])
        &&& e1 == e0.push(Event::EnemyEngaged { enemy: id, investigator: best[0] })
        &&& r is None
    } else {
        &&& f == s
        &&& e1 == e0
        &&& if best.len() == 0 {
            r is None
        } else {
            r matches Some(HunterChoice::Engage { enemy, candidates }) && enemy == id && candidates@
                == best
        }
    }
}

/// Engage-on-arrival for a hunter at its (possibly unchanged) location.
fn engage_on_arrival(state: &mut GameState, events: &mut Vec<Event>, enemy_id: EnemyId) -> (r:
    Option<HunterChoice>)
    requires
        old(state).wf(),
        has_enemy(old(state).enemies@, enemy_id),
        old(state).enemies@[enemy_index(old(state).enemies@, enemy_id)].current_location is Some,
    ensures
        final(state).wf(),
        arrival_result(*old(state), *final(state), old(events)@, final(events)@, r, enemy_id),
        *final(state) == (GameState { enemies: final(state).enemies, ..*old(state) }),
        final(state).enemies@.len() == old(state).enemies@.len(),
        forall|j: int| 0 <= j < old(state).enemies@.len() ==> (#[trigger] final(state).enemies@[j]).id
            == old(state).enemies@[j].id,
        extends(old(events)@, final(events)@),
        r matches Some(c) ==> choice_fits(*final(state), c),
{
    let i = state.find_enemy(enemy_id).unwrap();
    let loc = state.enemies[i].current_location.unwrap();
    let prey = state.enemies[i].prey;
    let candidates = active_investigators_at(state, loc);
    match resolve_prey(state, prey, &candidates) {
        PreyResolution::Nobody => None,
        PreyResolution::One(target) => {
            engage_enemy_with(state, events, enemy_id, target);
            None
        },
        PreyResolution::Tie(v) => Some(HunterChoice::Engage { enemy: enemy_id, candidates: v }),
    }
}

/// What processing hunter `id` does: when no `Active` investigator shares
/// its location it moves one step toward its prey (a tie of first steps is
/// handed back for the lead's pick; no reachable investigator leaves it
/// where it is), then it engages on arrival.
pub open spec fn hunter_step_result(
    s: GameState,
    f: GameState,
    e0: Seq<Event>,
    e1: Seq<Event>,
    r: Option<HunterChoice>,
    id: EnemyId,
) -> bool {
    let i = enemy_index(s.enemies@, id);
    let e = s.enemies@[i];
    let from = e.current_location.unwrap();
    if active_at_of(s, from).len() > 0 {
        arrival_result(s, f, e0, e1, r, id)
    } else {
        exists|v: Seq<LocationId>|
            #[trigger] lists_dests(v, s, e, from) && if v.len() == 0 {
                f == s && e1 == e0 && r is None
            } else if v.len() == 1 {
                exists|m: GameState|
                    #[trigger] moved_at(s, m, i, v[0]) && arrival_result(
                        m,
                        f,
                        e0.push(Event::EnemyMoved { enemy: id, to: v[0] }),
                        e1,
                        r,
                        id,
                    )
            } else {
                &&& f == s
                &&& e1 == e0
                &&& r matches Some(HunterChoice::Move { enemy, candidates }) && enemy == id
                    && candidates@ == v
            }
    }
}

/// Process one hunter: movement, then engage-on-arrival. Hands back the
/// choice a tie suspends on.
fn process_one_hunter(state: &mut GameState, events: &mut Vec<Event>, enemy_id: EnemyId) -> (r:
    Option<HunterChoice>)
    requires
        old(state).wf(),
        has_enemy(old(state).enemies@, enemy_id),
        old(state).enemies@[enemy_index(old(state).enemies@, enemy_id)].current_location is Some,
    ensures
        final(state).wf(),
        hunter_step_result(*old(state), *final(state), old(events)@, final(events)@, r, enemy_id),
        final(state).investigators@ == old(state).investigators@,
        final(state).enemies@.len() == old(state).enemies@.len(),
        forall|j: int| 0 <= j < old(state).enemies@.len() ==> (#[trigger] final(state).enemies@[j]).id
            == old(state).enemies@[j].id,
        *final(state) == (GameState { enemies: final(state).enemies, ..*old(state) }),
        extends(old(events)@, final(events)@),
        r matches Some(c) ==> choice_fits(*final(state), c),
{
    let i = state.find_enemy(enemy_id).unwrap();
    let from = state.enemies[i].current_location.unwrap();
    let here = active_investigators_at(state, from);
    if here.len() > 0 {
        return engage_on_arrival(state, events, enemy_id);
    }
    let dests: Vec<LocationId> = match state.find_location(from) {
        Some(fi) => hunter_destinations(state, fi, &state.enemies[i]),
        None => Vec::new(),
    };
    proof {
        assert(lists_dests(dests@, *old(state), old(state).enemies@[i as int], from));
    }
    if dests.len() == 0 {
        return None;
    }
    if dests.len() > 1 {
        return Some(HunterChoice::Move { enemy: enemy_id, candidates: dests });
    }
    let ghost s0 = *state;
    move_hunter_to(state, events, enemy_id, dests[0]);
    let ghost m = *state;
    proof {
        assert(moved_at(s0, m, i as int, dests@[0]));
        lemma_enemy_index(m.enemies@, enemy_id, i as int);
    }
    engage_on_arrival(state, events, enemy_id)
}

/// Whether `e1` extends the log `e0`.
pub open spec fn extends(e0: Seq<Event>, e1: Seq<Event>) -> bool {
    e0.len() <= e1.len() && forall|k: int| 0 <= k < e0.len() ==> #[trigger] e1[k] == e0[k]
}

/// Whether a pending hunter choice names an enemy in play.
pub open spec fn choice_fits(s: GameState, c: HunterChoice) -> bool {
    match c {
        HunterChoice::Move { enemy, .. } => has_enemy(s.enemies@, enemy),
        HunterChoice::Engage { enemy, .. } => has_enemy(s.enemies@, enemy),
    }
}

/// Whether `e` is an eligible hunter for step 3.2: ready, unengaged, has
/// the keyword, and is on the map.
pub open spec fn eligible_hunter(e: Enemy) -> bool {
    e.hunter && !e.exhausted && e.engaged_with is None && e.current_location is Some
}

/// Whether `enemy` is an eligible hunter for step 3.2: ready, unengaged,
/// with the keyword, and on the map.
fn is_eligible_hunter(enemy: &Enemy) -> (r: bool)
    ensures
        r == eligible_hunter(*enemy),
{
    enemy.hunter && !enemy.exhausted && enemy.engaged_with.is_none() && enemy.current_location.is_some()
}

/// Whether the enemy at `i` is the eligible hunter with the smallest id above
/// `after` (any id when `after` is `None`).
pub open spec fn is_next_hunter(es: Seq<Enemy>, after: Option<u32>, i: int) -> bool {
    &&& 0 <= i < es.len()
    &&& eligible_hunter(es[i])
    &&& (after matches Some(a) ==> es[i].id.0 > a)
    &&& forall|j: int|
        0 <= j < es.len() && eligible_hunter(es[j]) && (after matches Some(a) ==> es[j].id.0 > a)
            ==> es[i].id.0 <= #[trigger] es[j].id.0
}

/// Whether some eligible hunter has an id above `after`.
pub open spec fn has_next_hunter(es: Seq<Enemy>, after: Option<u32>) -> bool {
    exists|j: int|
        0 <= j < es.len() && #[trigger] eligible_hunter(es[j]) && (after matches Some(a) ==> es[j].id.0 > a)
}

/// The eligible hunter with the smallest id above `after`, if any.
fn next_eligible_hunter(state: &GameState, after: Option<u32>) -> (r: Option<usize>)
    ensures
        match r {
            Some(i) => is_next_hunter(state.enemies@, after, i as int),
            None => !has_next_hunter(state.enemies@, after),
        },
{
    let mut best: Option<usize> = None;
    let mut i: usize = 0;
    while i < state.enemies.len()
        invariant
            i <= state.enemies@.len(),
            match best {
                Some(b) => b < i && eligible_hunter(state.enemies@[b as int]) && (after matches Some(a)
                    ==> state.enemies@[b as int].id.0 > a) && forall|j: int|
                    0 <= j < i && eligible_hunter(state.enemies@[j]) && (after matches Some(a)
                        ==> state.enemies@[j].id.0 > a) ==> state.enemies@[b as int].id.0
                        <= #[trigger] state.enemies@[j].id.0,
                None => forall|j: int|
                    0 <= j < i ==> !(#[trigger] eligible_hunter(state.enemies@[j]) && (after matches Some(a)
                        ==> state.enemies@[j].id.0 > a)),
            },
        decreases state.enemies@.len() - i,
    {
        let e = &state.enemies[i];
        let fits = is_eligible_hunter(e) && match after {
            Some(a) => e.id.0 > a,
            None => true,
        };
        if fits {
            match best {
                None => {
                    best = Some(i);
                },
                Some(b) => {
                    if e.id.0 < state.enemies[b].id.0 {
                        best = Some(i);
                    }
                },
            }
        }
        i += 1;
    }
    best
}

/// The options of a movement prompt over `cands`: option `j` names location
/// `j`.
pub open spec fn location_options(cands: Seq<LocationId>) -> Seq<ChoiceOption> {
    Seq::new(cands.len(), |j: int| ChoiceOption { id: j as u32, target: Some(OptionTarget::Location(cands[j])) })
}

/// One option per tied destination.
fn location_choice_options(cands: &Vec<LocationId>) -> (r: Vec<ChoiceOption>)
    requires
        cands@.len() <= u32::MAX,
    ensures
        r@ == location_options(cands@),
{
    let mut out: Vec<ChoiceOption> = Vec::new();
    let mut j: usize = 0;
    while j < cands.len()
        invariant
            j <= cands@.len(),
            cands@.len() <= u32::MAX,
            out@ == location_options(cands@).take(j as int),
        decreases cands@.len() - j,
    {
        out.push(ChoiceOption { id: j as u32, target: Some(OptionTarget::Location(cands[j])) });
        proof {
            assert(out@ =~= location_options(cands@).take(j + 1));
        }
        j += 1;
    }
    proof {
        assert(out@ =~= location_options(cands@));
    }
    out
}

/// The prompt a pending hunter choice puts to the lead investigator.
pub open spec fn hunter_prompt(c: HunterChoice, q: InputRequest) -> bool {
    match c {
        HunterChoice::Move { enemy, candidates } => q.kind == PromptKind::HunterMove(enemy)
            && q.options@ == location_options(candidates@) && q.target == Some(
            OptionTarget::Enemy(enemy),
        ),
        HunterChoice::Engage { enemy, candidates } => q.kind == PromptKind::HunterEngage(enemy)
            && q.options@ == investigator_options(candidates@) && q.target == Some(
            OptionTarget::Enemy(enemy),
        ),
    }
}

/// The number of candidates of a pending hunter choice.
pub open spec fn choice_len(c: HunterChoice) -> nat {
    match c {
        HunterChoice::Move { candidates, .. } => candidates@.len(),
        HunterChoice::Engage { candidates, .. } => candidates@.len(),
    }
}

/// Park `choice` on a `HunterMove` frame and ask the lead investigator, the
/// candidates riding the prompt as options. A choice too large to number
/// is refused with the state untouched.
fn suspend_hunter_choice(state: &mut GameState, choice: HunterChoice) -> (r: EngineOutcome)
    requires
        old(state).wf(),
    ensures
        final(state).wf(),
        if choice_len(choice) <= u32::MAX {
            &&& *final(state) == (GameState { continuations: final(state).continuations, ..*old(state) })
            &&& final(state).continuations@ == old(state).continuations@.push(Continuation::HunterMove(choice))
            &&& r matches EngineOutcome::AwaitingInput { request } && hunter_prompt(choice, request)
        } else {
            *final(state) == *old(state) && r == (EngineOutcome::Rejected { reason: Reject::DriveLimit })
        },
{
    let request = match &choice {
        HunterChoice::Move { enemy, candidates } => {
            if candidates.len() > 0xffff_ffffusize {
                return EngineOutcome::Rejected { reason: Reject::DriveLimit };
            }
            InputRequest {
                kind: PromptKind::HunterMove(*enemy),
                options: location_choice_options(candidates),
                target: Some(OptionTarget::Enemy(*enemy)),
            }
        },
        HunterChoice::Engage { enemy, candidates } => {
            if candidates.len() > 0xffff_ffffusize {
                return EngineOutcome::Rejected { reason: Reject::DriveLimit };
            }
            InputRequest {
                kind: PromptKind::HunterEngage(*enemy),
                options: investigator_choice_options(candidates),
                target: Some(OptionTarget::Enemy(*enemy)),
            }
        },
    };
    state.continuations.push(Continuation::HunterMove(choice));
    EngineOutcome::AwaitingInput { request }
}

/// What driving the hunters does to the parts of the state they leave
/// alone: everything but the enemies and the stack is untouched, the
/// enemies keep their ids, and the stack either stays as it was or gains
/// one `HunterMove` frame, on which the outcome waits.
pub open spec fn hunters_frame(s: GameState, f: GameState, e0: Seq<Event>, e1: Seq<Event>, r: EngineOutcome) -> bool {
    &&& f == (GameState { enemies: f.enemies, continuations: f.continuations, ..s })
    &&& f.enemies@.len() == s.enemies@.len()
    &&& forall|j: int| 0 <= j < s.enemies@.len() ==> (#[trigger] f.enemies@[j]).id == s.enemies@[j].id
    &&& extends(e0, e1)
    &&& match r {
        EngineOutcome::AwaitingInput { request } => {
            &&& f.continuations@.len() == s.continuations@.len() + 1
            &&& f.continuations@.drop_last() == s.continuations@
            &&& f.continuations@.last() matches Continuation::HunterMove(c) && hunter_prompt(c, request)
                && choice_fits(f, c)
        },
        _ => f.continuations@ == s.continuations@,
    }
}

/// What suspending on hunter choice `c` from `m` does: the choice is
/// pushed as a `HunterMove` frame and its prompt is the outcome (a choice
/// too large to number is refused with nothing changed).
pub open spec fn suspended_on(m: GameState, f: GameState, c: HunterChoice, r: EngineOutcome) -> bool {
    if choice_len(c) <= u32::MAX {
        &&& f == (GameState { continuations: f.continuations, ..m })
        &&& f.continuations@ == m.continuations@.push(Continuation::HunterMove(c))
        &&& r matches EngineOutcome::AwaitingInput { request } && hunter_prompt(c, request)
    } else {
        f == m && r == (EngineOutcome::Rejected { reason: Reject::DriveLimit })
    }
}

/// The id cursor after the first `k` processed hunters `ids`, starting
/// above `after`.
pub open spec fn hunter_cursor(ids: Seq<EnemyId>, after: Option<u32>, k: int) -> Option<u32> {
    if k <= 0 {
        after
    } else {
        Some(ids[k - 1].0)
    }
}

/// `st[0..=n]`, `lg[0..=n]`: the states and logs of processing the hunters
/// `ids[0..n]`, each the eligible hunter with the smallest id above the
/// previous one (above `after` for the first), none of them suspending.
pub open spec fn hunters_trace(
    st: Seq<GameState>,
    lg: Seq<Seq<Event>>,
    ids: Seq<EnemyId>,
    after: Option<u32>,
    n: int,
) -> bool
    decreases n,
{
    if n <= 0 {
        n == 0
    } else {
        &&& hunters_trace(st, lg, ids, after, n - 1)
        &&& has_enemy(st[n - 1].enemies@, ids[n - 1])
        &&& is_next_hunter(st[n - 1].enemies@, hunter_cursor(ids, after, n - 1), enemy_index(st[n - 1].enemies@, ids[n - 1]))
        &&& hunter_step_result(st[n - 1], st[n], lg[n - 1], lg[n], None, ids[n - 1])
    }
}

/// What processing the eligible hunters with ids above `after` does, in
/// ascending id order: each moves and engages as [`hunter_step_result`]
/// says, until none is left (`Done`) or one hands back a tie, on which the
/// drive suspends.
pub open spec fn hunters_after(s: GameState, f: GameState, e0: Seq<Event>, e1: Seq<Event>, after: Option<u32>, r: EngineOutcome) -> bool {
    exists|st: Seq<GameState>, lg: Seq<Seq<Event>>, ids: Seq<EnemyId>, n: int|
        {
            &&& #[trigger] hunters_trace(st, lg, ids, after, n)
            &&& 0 <= n && st.len() > n && lg.len() > n && ids.len() >= n
            &&& st[0] == s && lg[0] == e0
            &&& if has_next_hunter(st[n].enemies@, hunter_cursor(ids, after, n)) {
                &&& ids.len() > n
                &&& has_enemy(st[n].enemies@, ids[n])
                &&& is_next_hunter(st[n].enemies@, hunter_cursor(ids, after, n), enemy_index(st[n].enemies@, ids[n]))
                &&& exists|m: GameState, c: HunterChoice|
                    #[trigger] hunter_step_result(st[n], m, lg[n], e1, Some(c), ids[n]) && suspended_on(m, f, c, r)
            } else {
                f == st[n] && e1 == lg[n] && r is Done
            }
        }
}

/// A hunters trace stays one when later entries are appended.
proof fn lemma_hunters_trace_extend(
    st: Seq<GameState>,
    lg: Seq<Seq<Event>>,
    ids: Seq<EnemyId>,
    after: Option<u32>,
    n: int,
    st2: Seq<GameState>,
    lg2: Seq<Seq<Event>>,
    ids2: Seq<EnemyId>,
)
    requires
        hunters_trace(st, lg, ids, after, n),
        0 <= n < st.len(),
        n < lg.len(),
        n <= ids.len(),
        st.len() <= st2.len(),
        lg.len() <= lg2.len(),
        ids.len() <= ids2.len(),
        forall|k: int| 0 <= k < st.len() ==> st2[k] == st[k],
        forall|k: int| 0 <= k < lg.len() ==> lg2[k] == lg[k],
        forall|k: int| 0 <= k < ids.len() ==> ids2[k] == ids[k],
    ensures
        hunters_trace(st2, lg2, ids2, after, n),
    decreases n,
{
    if n > 0 {
        lemma_hunters_trace_extend(st, lg, ids, after, n - 1, st2, lg2, ids2);
        assert(hunter_cursor(ids2, after, n - 1) == hunter_cursor(ids, after, n - 1));
    }
}

/// A trace that ends as [`hunters_after`] describes is such a run.
proof fn lemma_hunters_after_intro(
    s: GameState,
    f: GameState,
    e0: Seq<Event>,
    e1: Seq<Event>,
    after: Option<u32>,
    r: EngineOutcome,
    st: Seq<GameState>,
    lg: Seq<Seq<Event>>,
    ids: Seq<EnemyId>,
    n: int,
)
    requires
        hunters_trace(st, lg, ids, after, n),
        0 <= n && st.len() > n && lg.len() > n && ids.len() >= n,
        st[0] == s && lg[0] == e0,
        if has_next_hunter(st[n].enemies@, hunter_cursor(ids, after, n)) {
            &&& ids.len() > n
            &&& has_enemy(st[n].enemies@, ids[n])
            &&& is_next_hunter(st[n].enemies@, hunter_cursor(ids, after, n), enemy_index(st[n].enemies@, ids[n]))
            &&& exists|m: GameState, c: HunterChoice|
                #[trigger] hunter_step_result(st[n], m, lg[n], e1, Some(c), ids[n]) && suspended_on(m, f, c, r)
        } else {
            f == st[n] && e1 == lg[n] && r is Done
        },
    ensures
        hunters_after(s, f, e0, e1, after, r),
{
}

/// Process the eligible hunters with ids above `after`, ascending, until
/// none remain or one suspends on a lead-investigator tie.
fn run_hunters_after(state: &mut GameState, events: &mut Vec<Event>, after: Option<u32>) -> (r: EngineOutcome)
    requires
        old(state).wf(),
    ensures
        final(state).wf(),
        hunters_frame(*old(state), *final(state), old(events)@, final(events)@, r),
        r is Done || r is AwaitingInput || r == (EngineOutcome::Rejected { reason: Reject::DriveLimit }),
        hunters_after(*old(state), *final(state), old(events)@, final(events)@, after, r),
{
    let ghost s0 = *state;
    let ghost e0 = events@;
    let ghost mut st: Seq<GameState> = seq![*state];
    let ghost mut lg: Seq<Seq<Event>> = seq![events@];
    let ghost mut ids: Seq<EnemyId> = Seq::empty();
    let mut cursor = after;
    loop
        invariant
            state.wf(),
            s0 == *old(state),
            e0 == old(events)@,
            hunters_frame(s0, *state, e0, events@, EngineOutcome::Done),
            st.len() == ids.len() + 1,
            lg.len() == ids.len() + 1,
            st[0] == s0,
            lg[0] == e0,
            st[ids.len() as int] == *state,
            lg[ids.len() as int] == events@,
            cursor == hunter_cursor(ids, after, ids.len() as int),
            hunters_trace(st, lg, ids, after, ids.len() as int),
        decreases match cursor {
            None => 0x1_0000_0000int,
            Some(c) => 0xffff_ffff - c,
        },
    {
        let Some(i) = next_eligible_hunter(state, cursor) else {
            proof {
                lemma_hunters_after_intro(s0, *state, e0, events@, after, EngineOutcome::Done, st, lg, ids, ids.len() as int);
            }
            return EngineOutcome::Done;
        };
        let id = state.enemies[i].id;
        proof {
            lemma_enemy_index(state.enemies@, id, i as int);
        }
        let ghost s1 = *state;
        match process_one_hunter(state, events, id) {
            Some(choice) => {
                let ghost s2 = *state;
                let ghost c = choice;
                let r = suspend_hunter_choice(state, choice);
                proof {
                    if r is AwaitingInput {
                        assert(state.continuations@.drop_last() =~= s2.continuations@);
                        assert(choice_fits(*state, c));
                    }
                    let ids2 = ids.push(id);
                    lemma_hunters_trace_extend(st, lg, ids, after, ids.len() as int, st, lg, ids2);
                    assert(hunter_cursor(ids2, after, ids.len() as int) == hunter_cursor(ids, after, ids.len() as int));
                    assert(hunter_step_result(st[ids.len() as int], s2, lg[ids.len() as int], events@, Some(c), ids2[ids.len() as int]));
                    assert(suspended_on(s2, *state, c, r));
                    lemma_hunters_after_intro(s0, *state, e0, events@, after, r, st, lg, ids2, ids.len() as int);
                }
                return r;
            },
            None => {},
        }
        proof {
            let n = ids.len() as int;
            let ids2 = ids.push(id);
            let st2 = st.push(*state);
            let lg2 = lg.push(events@);
            lemma_hunters_trace_extend(st, lg, ids, after, n, st2, lg2, ids2);
            assert(hunter_cursor(ids2, after, n) == hunter_cursor(ids, after, n));
            assert(st2[n] == s1);
            assert(hunter_step_result(st2[n], st2[n + 1], lg2[n], lg2[n + 1], None, ids2[n]));
            assert(hunters_trace(st2, lg2, ids2, after, n + 1));
            st = st2;
            lg = lg2;
            ids = ids2;
        }
        cursor = Some(id.0);
    }
}

/// Drive Enemy-phase step 3.2: process eligible hunters in ascending enemy
/// id order until none remain (`Done`) or one suspends on a
/// lead-investigator tie (`AwaitingInput`, with a `HunterMove` frame on
/// top).
pub fn drive_hunter_moves(state: &mut GameState, events: &mut Vec<Event>) -> (r: EngineOutcome)
    requires
        old(state).wf(),
    ensures
        final(state).wf(),
        hunters_frame(*old(state), *final(state), old(events)@, final(events)@, r),
        r is Done || r is AwaitingInput || r == (EngineOutcome::Rejected { reason: Reject::DriveLimit }),
        hunters_after(*old(state), *final(state), old(events)@, final(events)@, None, r),
{
    run_hunters_after(state, events, None)
}

/// What resuming leaves of the parts of the state the hunters do not touch:
/// the answered frame is popped, and the stack either ends there or gains
/// one new `HunterMove` frame, on which the outcome waits.
pub open spec fn resumed_frame(s: GameState, f: GameState, r: EngineOutcome) -> bool {
    &&& f == (GameState { enemies: f.enemies, continuations: f.continuations, ..s })
    &&& f.enemies@.len() == s.enemies@.len()
    &&& forall|j: int| 0 <= j < s.enemies@.len() ==> (#[trigger] f.enemies@[j]).id == s.enemies@[j].id
    &&& match r {
        EngineOutcome::AwaitingInput { request } => {
            &&& f.continuations@.len() == s.continuations@.len()
            &&& f.continuations@.drop_last() == s.continuations@.drop_last()
            &&& f.continuations@.last() matches Continuation::HunterMove(c) && hunter_prompt(c, request)
        },
        _ => f.continuations@ == s.continuations@.drop_last(),
    }
}

/// `s` with its answered frame popped and enemy `id` moved to `l`.
pub open spec fn moved_off_frame(s: GameState, f: GameState, id: EnemyId, l: LocationId) -> bool {
    let i = enemy_index(s.enemies@, id);
    &&& f == (GameState { enemies: f.enemies, continuations: f.continuations, ..s })
    &&& f.continuations@ == s.continuations@.drop_last()
    &&& f.enemies@ == s.enemies@.update(i, Enemy { current_location: Some(l), ..s.enemies@[i] })
}

/// `s` with its answered frame popped and enemy `id` engaged with `t`.
pub open spec fn engaged_off_frame(s: GameState, f: GameState, id: EnemyId, t: InvestigatorId) -> bool {
    let i = enemy_index(s.enemies@, id);
    &&& f == (GameState { enemies: f.enemies, continuations: f.continuations, ..s })
    &&& f.continuations@ == s.continuations@.drop_last()
    &&& f.enemies@ == s.enemies@.update(i, Enemy { engaged_with: Some(t), ..s.enemies@[i] })
}

/// What the hunters with ids above `after` do (see [`hunters_after`]),
/// followed, once none is left, by step 3.3's opening: the attack cursor is
/// seeded and the first attack window opens.
pub open spec fn hunters_then_attacks(s: GameState, f: GameState, e0: Seq<Event>, e1: Seq<Event>, after: Option<u32>, r: EngineOutcome) -> bool {
    exists|g: GameState, eg: Seq<Event>, x: EngineOutcome|
        {
            &&& #[trigger] hunters_after(s, g, e0, eg, after, x)
            &&& if x is Done {
                crate::phases::kickoff_result(g, f, eg, e1) && r is Done
            } else {
                f == g && e1 == eg && r == x
            }
        }
}

/// What answering a suspended hunter choice does (see [`resume_hunter_choice`]).
pub open spec fn hunter_choice_resumed(s: GameState, f: GameState, e0: Seq<Event>, e1: Seq<Event>, response: InputResponse, r: EngineOutcome) -> bool {
    match (s.continuations@.last(), response) {
        (Continuation::HunterMove(HunterChoice::Move { enemy, candidates }), InputResponse::PickSingle(i)) =>
            if i < candidates@.len() {
            &&& exists|m1: GameState, m2: GameState, em: Seq<Event>, c: Option<HunterChoice>|
                {
                    &&& moved_off_frame(s, m1, enemy, candidates@[i as int])
                    &&& #[trigger] arrival_result(
                        m1,
                        m2,
                        e0.push(Event::EnemyMoved { enemy, to: candidates@[i as int] }),
                        em,
                        c,
                        enemy,
                    )
                    &&& match c {
                        Some(ch) => suspended_on(m2, f, ch, r) && e1 == em,
                        None => hunters_then_attacks(m2, f, em, e1, Some(enemy.0), r),
                    }
                }
            &&& r is Done || r is AwaitingInput || r == (EngineOutcome::Rejected { reason: Reject::DriveLimit })
        } else {
            f == s && e1 == e0 && r == (
            EngineOutcome::Rejected { reason: Reject::OptionOutOfRange })
        },
        (Continuation::HunterMove(HunterChoice::Engage { enemy, candidates }), InputResponse::PickSingle(i)) =>
            if i < candidates@.len() {
            &&& exists|m2: GameState|
                {
                    &&& engaged_off_frame(s, m2, enemy, candidates@[i as int])
                    &&& #[trigger] hunters_then_attacks(
                        m2,
                        f,
                        e0.push(Event::EnemyEngaged { enemy, investigator: candidates@[i as int] }),
                        e1,
                        Some(enemy.0),
                        r,
                    )
                }
            &&& r is Done || r is AwaitingInput || r == (EngineOutcome::Rejected { reason: Reject::DriveLimit })
        } else {
            f == s && e1 == e0 && r == (
            EngineOutcome::Rejected { reason: Reject::OptionOutOfRange })
        },
        (Continuation::HunterMove(_), _) => f == s && e1
            == e0 && r == (EngineOutcome::Rejected { reason: Reject::WrongResponseKind }),
        _ => true,
    }
}

/// Resume a suspended hunter choice with the lead investigator's pick:
/// move the hunter to the picked destination (then engage on arrival) or
/// engage the picked investigator, carry on with the hunters after it, and
/// once they are all done open step 3.3's attack loop.
/// Another kind of answer, or a pick out of range, is refused and the frame
/// stays for a retry.
pub fn resume_hunter_choice(state: &mut GameState, events: &mut Vec<Event>, response: &InputResponse)
    -> (r: EngineOutcome)
    requires
        old(state).wf(),
        old(state).continuations@.len() > 0,
        old(state).continuations@.last() matches Continuation::HunterMove(c) && choice_fits(*old(state), c),
    ensures
        final(state).wf(),
        hunter_choice_resumed(*old(state), *final(state), old(events)@, final(events)@, *response, r),
{
    let i = match response {
        InputResponse::PickSingle(i) => *i,
        _ => {
            return EngineOutcome::Rejected { reason: Reject::WrongResponseKind };
        },
    };
    let n = state.continuations.len();
    let (enemy, to, who) = match &state.continuations[n - 1] {
        Continuation::HunterMove(HunterChoice::Move { enemy, candidates }) => {
            if i as usize >= candidates.len() {
                return EngineOutcome::Rejected { reason: Reject::OptionOutOfRange };
            }
            (*enemy, Some(candidates[i as usize]), None)
        },
        Continuation::HunterMove(HunterChoice::Engage { enemy, candidates }) => {
            if i as usize >= candidates.len() {
                return EngineOutcome::Rejected { reason: Reject::OptionOutOfRange };
            }
            (*enemy, None, Some(candidates[i as usize]))
        },
        _ => {
            return EngineOutcome::Done;
        },
    };
    let ghost s0 = *state;
    let ghost e0 = events@;
    state.continuations.pop();
    let ghost p = *state;
    proof {
        lemma_enemy_index(p.enemies@, enemy, enemy_index(s0.enemies@, enemy));
    }
    let ghost mut m2 = *state;
    let ghost mut em = events@;
    match to {
        Some(loc) => {
            move_hunter_to(state, events, enemy, loc);
            let ghost s1 = *state;
            let ghost ev1 = events@;
            proof {
                lemma_enemy_index(state.enemies@, enemy, enemy_index(s0.enemies@, enemy));
                assert(moved_off_frame(s0, s1, enemy, loc));
            }
            let arrival = engage_on_arrival(state, events, enemy);
            proof {
                m2 = *state;
                em = events@;
                assert(arrival_result(s1, m2, ev1, em, arrival, enemy));
            }
            match arrival {
                Some(c) => {
                    let ghost s2 = *state;
                    let r = suspend_hunter_choice(state, c);
                    proof {
                        if r is AwaitingInput {
                            assert(state.continuations@.drop_last() =~= s0.continuations@.drop_last());
                        }
                        assert(suspended_on(s2, *state, c, r));
                    }
                    return r;
                },
                None => {},
            }
        },
        None => {
            engage_enemy_with(state, events, enemy, who.unwrap());
            proof {
                m2 = *state;
                em = events@;
                assert(engaged_off_frame(s0, m2, enemy, who.unwrap()));
            }
        },
    }
    let r = run_hunters_after(state, events, Some(enemy.0));
    let ghost g = *state;
    let ghost eg = events@;
    proof {
        assert(hunters_after(m2, g, em, eg, Some(enemy.0), r));
    }
    if let EngineOutcome::Done = r {
        crate::phases::enemy_attack_kickoff(state, events);
        proof {
            assert(crate::phases::kickoff_result(g, *state, eg, events@));
        }
    }
    assert(hunters_then_attacks(m2, *state, em, events@, Some(enemy.0), r));
    r
}


/// Whether a hunter at location index `to` is strictly nearer the nearest
/// reachable investigator than it was at `from`.
pub open spec fn nearer_prey(s: GameState, pass: Seq<bool>, from: int, to: int) -> bool {
    match (min_distance(s, pass, from, s.turn_order@), min_distance(s, pass, to, s.turn_order@)) {
        (Some(before), Some(after)) => after < before,
        _ => false,
    }
}

/// The least distance over `order` is no more than any one member's, and
/// it is one of them.
proof fn lemma_min_distance_bounds(s: GameState, pass: Seq<bool>, from: int, order: Seq<InvestigatorId>, j: int)
    requires
        0 <= j < order.len(),
        inv_distance(s, pass, from, order[j]) is Some,
    ensures
        min_distance(s, pass, from, order) matches Some(m) && m <= inv_distance(s, pass, from, order[j]).unwrap(),
    decreases order.len(),
{
    let t = order.drop_last();
    if j < order.len() - 1 {
        assert(t[j] == order[j]);
        lemma_min_distance_bounds(s, pass, from, t, j);
    } else {
        assert(order[j] == order.last());
    }
}

/// Hunters close in: every destination a hunter may be moved to is a
/// location connected from where it stands, one it may enter (a barricade
/// stops all but Elite enemies), and from there it is strictly nearer the
/// nearest reachable investigator than before.
pub proof fn law_hunter_steps_close_in(s: GameState, e: Enemy, from: int, l: LocationId)
    requires
        0 <= from < s.locations@.len(),
        is_hunter_dest(s, e, from, l),
    ensures
        exists|m: int|
            0 <= m < s.locations@.len() && s.locations@[m].id == l && #[trigger] linked(s.locations@, from, m)
                && hunter_may_enter(s, e, l) && nearer_prey(s, pass_of(s, e), from, m),
{
    let pass = pass_of(s, e);
    let hunted = hunted_of(s, e, from);
    let near = nearest_of(s, pass, from);
    let m = choose|m: int|
        0 <= m < s.locations@.len() && #[trigger] is_dest_index(s, pass, from, hunted, m) && s.locations@[m].id == l;
    let k = choose|k: int| 0 <= k < hunted.len() && #[trigger] steps_toward_inv(s, pass, from, hunted[k], m);
    let id = hunted[k];
    crate::prey::law_prey_keeps_the_most_extreme(s, e.prey, near);
    assert(near.contains(id));
    let m0 = min_distance(s, pass, from, s.turn_order@).unwrap();
    let p = |x: InvestigatorId| inv_distance(s, pass, from, x) == Some(m0);
    assert(min_distance(s, pass, from, s.turn_order@) is Some);
    assert(near == s.turn_order@.filter(p));
    crate::seqs::lemma_filter_members(s.turn_order@, p);
    let q = choose|q: int| 0 <= q < near.len() && near[q] == id;
    assert(p(near[q]));
    assert(s.turn_order@.contains(near[q]));
    let j = choose|j: int| 0 <= j < s.turn_order@.len() && s.turn_order@[j] == id;
    let t = target_index(s, id).unwrap();
    assert(inv_distance(s, pass, m, id) == distance(s.locations@, pass, m, t));
    lemma_min_distance_bounds(s, pass, m, s.turn_order@, j);
    assert(linked(s.locations@, from, m));
}


/// Whether `ev` reports a movement or an engagement of enemy `id`.
pub open spec fn reports_enemy(ev: Event, id: EnemyId) -> bool {
    match ev {
        Event::EnemyMoved { enemy, .. } => enemy == id,
        Event::EnemyEngaged { enemy, .. } => enemy == id,
        _ => false,
    }
}

/// The enemy a pending hunter choice is about.
pub open spec fn choice_enemy(c: HunterChoice) -> EnemyId {
    match c {
        HunterChoice::Move { enemy, .. } => enemy,
        HunterChoice::Engage { enemy, .. } => enemy,
    }
}

/// What engage-on-arrival for `id` touches: that enemy alone, the reports
/// of that enemy alone, and a choice about that enemy alone.
proof fn lemma_arrival_touches_only(
    s: GameState,
    f: GameState,
    e0: Seq<Event>,
    e1: Seq<Event>,
    r: Option<HunterChoice>,
    id: EnemyId,
)
    requires
        crate::state::enemy_ids_distinct(s.enemies@),
        has_enemy(s.enemies@, id),
        arrival_result(s, f, e0, e1, r, id),
    ensures
        f.enemies@.len() == s.enemies@.len(),
        forall|j: int|
            0 <= j < s.enemies@.len() && j != enemy_index(s.enemies@, id) ==> f.enemies@[j] == s.enemies@[j],
        forall|j: int| 0 <= j < s.enemies@.len() ==> (#[trigger] f.enemies@[j]).id == s.enemies@[j].id,
        e0.len() <= e1.len(),
        forall|k: int| 0 <= k < e0.len() ==> e1[k] == e0[k],
        forall|k: int| e0.len() <= k < e1.len() ==> reports_enemy(#[trigger] e1[k], id),
        r matches Some(c) ==> choice_enemy(c) == id,
{
    let i = enemy_index(s.enemies@, id);
    assert(0 <= i < s.enemies@.len() && s.enemies@[i].id == id);
}

/// What processing hunter `id` touches: that enemy alone, the reports of
/// that enemy alone, and a choice about that enemy alone.
proof fn lemma_step_touches_only(
    s: GameState,
    f: GameState,
    e0: Seq<Event>,
    e1: Seq<Event>,
    r: Option<HunterChoice>,
    id: EnemyId,
)
    requires
        crate::state::enemy_ids_distinct(s.enemies@),
        has_enemy(s.enemies@, id),
        hunter_step_result(s, f, e0, e1, r, id),
    ensures
        f.enemies@.len() == s.enemies@.len(),
        forall|j: int|
            0 <= j < s.enemies@.len() && j != enemy_index(s.enemies@, id) ==> f.enemies@[j] == s.enemies@[j],
        forall|j: int| 0 <= j < s.enemies@.len() ==> (#[trigger] f.enemies@[j]).id == s.enemies@[j].id,
        e0.len() <= e1.len(),
        forall|k: int| 0 <= k < e0.len() ==> e1[k] == e0[k],
        forall|k: int| e0.len() <= k < e1.len() ==> reports_enemy(#[trigger] e1[k], id),
        r matches Some(c) ==> choice_enemy(c) == id,
{
    let i = enemy_index(s.enemies@, id);
    assert(0 <= i < s.enemies@.len() && s.enemies@[i].id == id);
    let e = s.enemies@[i];
    let from = e.current_location.unwrap();
    if active_at_of(s, from).len() > 0 {
        lemma_arrival_touches_only(s, f, e0, e1, r, id);
    } else {
        let v = choose|v: Seq<LocationId>|
            #[trigger] lists_dests(v, s, e, from) && if v.len() == 0 {
                f == s && e1 == e0 && r is None
            } else if v.len() == 1 {
                exists|m: GameState|
                    #[trigger] moved_at(s, m, i, v[0]) && arrival_result(
                        m,
                        f,
                        e0.push(Event::EnemyMoved { enemy: id, to: v[0] }),
                        e1,
                        r,
                        id,
                    )
            } else {
                &&& f == s
                &&& e1 == e0
                &&& r matches Some(HunterChoice::Move { enemy, candidates }) && enemy == id
                    && candidates@ == v
            };
        if v.len() == 1 {
            let em = e0.push(Event::EnemyMoved { enemy: id, to: v[0] });
            let m = choose|m: GameState|
                #[trigger] moved_at(s, m, i, v[0]) && arrival_result(m, f, em, e1, r, id);
            assert(crate::state::enemy_ids_distinct(m.enemies@)) by {
                assert forall|a: int, b: int|
                    0 <= a < m.enemies@.len() && 0 <= b < m.enemies@.len() && a != b implies m.enemies@[a].id
                    != m.enemies@[b].id by {
                    assert(m.enemies@[a].id == s.enemies@[a].id);
                    assert(m.enemies@[b].id == s.enemies@[b].id);
                }
            }
            lemma_enemy_index(m.enemies@, id, i);
            lemma_arrival_touches_only(m, f, em, e1, r, id);
            assert forall|k: int| e0.len() <= k < e1.len() implies reports_enemy(#[trigger] e1[k], id) by {
                if k == e0.len() {
                    assert(e1[k] == em[k]);
                }
            }
        }
    }
}

/// Processing a run of eligible hunters spares an enemy that was engaged,
/// exhausted, without the keyword or off the map at its start: it is
/// neither changed nor reported.
proof fn lemma_trace_spares_engaged(
    st: Seq<GameState>,
    lg: Seq<Seq<Event>>,
    ids: Seq<EnemyId>,
    after: Option<u32>,
    n: int,
    j: int,
)
    requires
        hunters_trace(st, lg, ids, after, n),
        0 <= n,
        st.len() > n,
        lg.len() > n,
        ids.len() >= n,
        crate::state::enemy_ids_distinct(st[0].enemies@),
        0 <= j < st[0].enemies@.len(),
        st[0].enemies@[j].engaged_with is Some || st[0].enemies@[j].exhausted || !st[0].enemies@[j].hunter
            || st[0].enemies@[j].current_location is None,
    ensures
        st[n].enemies@.len() == st[0].enemies@.len(),
        forall|a: int| 0 <= a < st[0].enemies@.len() ==> (#[trigger] st[n].enemies@[a]).id == st[0].enemies@[a].id,
        crate::state::enemy_ids_distinct(st[n].enemies@),
        st[n].enemies@[j] == st[0].enemies@[j],
        lg[0].len() <= lg[n].len(),
        forall|k: int| 0 <= k < lg[0].len() ==> lg[n][k] == lg[0][k],
        forall|k: int| lg[0].len() <= k < lg[n].len() ==> !reports_enemy(#[trigger] lg[n][k], st[0].enemies@[j].id),
    decreases n,
{
    if n > 0 {
        lemma_trace_spares_engaged(st, lg, ids, after, n - 1, j);
        let p = st[n - 1];
        let id = ids[n - 1];
        let i = enemy_index(p.enemies@, id);
        assert(eligible_hunter(p.enemies@[i]));
        assert(i != j);
        lemma_step_touches_only(p, st[n], lg[n - 1], lg[n], None, id);
        assert(p.enemies@[i].id == id);
        assert(id != st[0].enemies@[j].id);
        assert(crate::state::enemy_ids_distinct(st[n].enemies@)) by {
            assert forall|a: int, b: int|
                0 <= a < st[n].enemies@.len() && 0 <= b < st[n].enemies@.len() && a != b implies st[n].enemies@[a].id
                != st[n].enemies@[b].id by {
                assert(st[n].enemies@[a].id == p.enemies@[a].id);
                assert(st[n].enemies@[b].id == p.enemies@[b].id);
            }
        }
        assert forall|k: int| lg[0].len() <= k < lg[n].len() implies !reports_enemy(
            #[trigger] lg[n][k],
            st[0].enemies@[j].id,
        ) by {
            if k < lg[n - 1].len() {
                assert(lg[n][k] == lg[n - 1][k]);
            } else {
                assert(reports_enemy(lg[n][k], id));
            }
        }
    }
}

/// Only ready, unengaged hunters on the map hunt: an enemy that, when step
/// 3.2 begins, is already engaged, is exhausted, lacks the Hunter keyword or
/// is off the map keeps its engagement and its place (it is not changed at
/// all), is reported neither moving nor engaging, and no hunter prompt is
/// about it.
pub proof fn law_hunters_leave_engaged_enemies_be(
    s: GameState,
    f: GameState,
    e0: Seq<Event>,
    e1: Seq<Event>,
    after: Option<u32>,
    r: EngineOutcome,
    j: int,
)
    requires
        s.wf(),
        hunters_after(s, f, e0, e1, after, r),
        0 <= j < s.enemies@.len(),
        s.enemies@[j].engaged_with is Some || s.enemies@[j].exhausted || !s.enemies@[j].hunter
            || s.enemies@[j].current_location is None,
    ensures
        f.enemies@.len() == s.enemies@.len(),
        f.enemies@[j] == s.enemies@[j],
        forall|k: int| e0.len() <= k < e1.len() ==> !reports_enemy(#[trigger] e1[k], s.enemies@[j].id),
        r matches EngineOutcome::AwaitingInput { request } ==> request.kind != PromptKind::HunterMove(
            s.enemies@[j].id,
        ) && request.kind != PromptKind::HunterEngage(s.enemies@[j].id),
{
    let (st, lg, ids, n) = choose|st: Seq<GameState>, lg: Seq<Seq<Event>>, ids: Seq<EnemyId>, n: int|
        {
            &&& #[trigger] hunters_trace(st, lg, ids, after, n)
            &&& 0 <= n && st.len() > n && lg.len() > n && ids.len() >= n
            &&& st[0] == s && lg[0] == e0
            &&& if has_next_hunter(st[n].enemies@, hunter_cursor(ids, after, n)) {
                &&& ids.len() > n
                &&& has_enemy(st[n].enemies@, ids[n])
                &&& is_next_hunter(st[n].enemies@, hunter_cursor(ids, after, n), enemy_index(st[n].enemies@, ids[n]))
                &&& exists|m: GameState, c: HunterChoice|
                    #[trigger] hunter_step_result(st[n], m, lg[n], e1, Some(c), ids[n]) && suspended_on(m, f, c, r)
            } else {
                f == st[n] && e1 == lg[n] && r is Done
            }
        };
    lemma_trace_spares_engaged(st, lg, ids, after, n, j);
    if has_next_hunter(st[n].enemies@, hunter_cursor(ids, after, n)) {
        let p = st[n];
        let id = ids[n];
        let (m, c) = choose|m: GameState, c: HunterChoice|
            #[trigger] hunter_step_result(p, m, lg[n], e1, Some(c), id) && suspended_on(m, f, c, r);
        let i = enemy_index(p.enemies@, id);
        assert(eligible_hunter(p.enemies@[i]));
        assert(i != j);
        lemma_step_touches_only(p, m, lg[n], e1, Some(c), id);
        assert(p.enemies@[i].id == id);
        assert(id != s.enemies@[j].id);
        assert forall|k: int| e0.len() <= k < e1.len() implies !reports_enemy(#[trigger] e1[k], s.enemies@[j].id) by {
            if k < lg[n].len() {
                assert(e1[k] == lg[n][k]);
            } else {
                assert(reports_enemy(e1[k], id));
            }
        }
        assert(choice_enemy(c) == id);
    }
}

} // verus!
