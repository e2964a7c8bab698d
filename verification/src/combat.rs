//! Enemy attacks in the Enemy phase (Rules Reference p.25 step 3.3).
use vstd::prelude::*;

use crate::elimination::{harm_result, lemma_harm_keeps_ids, take_damage, take_horror};
use crate::outcome::Event;
use crate::state::{
    enemy_ids_distinct, has_investigator, investigator_index, Enemy, EnemyId, GameState,
    InvestigatorId, Status,
};

verus! {

/// Whether `e` attacks `inv` in step 3.3: ready and engaged with them.
pub open spec fn attacks(e: Enemy, inv: InvestigatorId) -> bool {
    e.engaged_with == Some(inv) && !e.exhausted
}

/// Whether the enemy at `i` is the attacker of `inv` with the smallest id
/// above `after` (any id when `after` is `None`).
pub open spec fn is_next_attacker(es: Seq<Enemy>, inv: InvestigatorId, after: Option<u32>, i: int) -> bool {
    &&& 0 <= i < es.len()
    &&& attacks(es[i], inv)
    &&& (after matches Some(a) ==> es[i].id.0 > a)
    &&& forall|j: int|
        0 <= j < es.len() && attacks(es[j], inv) && (after matches Some(a) ==> es[j].id.0 > a) ==> es[i].id.0
            <= #[trigger] es[j].id.0
}

/// Whether some attacker of `inv` has an id above `after`.
pub open spec fn has_next_attacker(es: Seq<Enemy>, inv: InvestigatorId, after: Option<u32>) -> bool {
    exists|j: int|
        0 <= j < es.len() && #[trigger] attacks(es[j], inv) && (after matches Some(a) ==> es[j].id.0 > a)
}

/// The attacker of `inv` with the smallest id above `after`, if any.
pub fn next_attacker(state: &GameState, inv: InvestigatorId, after: Option<u32>) -> (r: Option<usize>)
    ensures
        match r {
            Some(i) => is_next_attacker(state.enemies@, inv, after, i as int),
            None => !has_next_attacker(state.enemies@, inv, after),
        },
{
    let mut best: Option<usize> = None;
    let mut i: usize = 0;
    while i < state.enemies.len()
        invariant
            i <= state.enemies@.len(),
            match best {
                Some(b) => b < i && attacks(state.enemies@[b as int], inv) && (after matches Some(a)
                    ==> state.enemies@[b as int].id.0 > a) && forall|j: int|
                    0 <= j < i && attacks(state.enemies@[j], inv) && (after matches Some(a)
                        ==> state.enemies@[j].id.0 > a) ==> state.enemies@[b as int].id.0
                        <= #[trigger] state.enemies@[j].id.0,
                None => forall|j: int|
                    0 <= j < i ==> !(#[trigger] attacks(state.enemies@[j], inv) && (after matches Some(a)
                        ==> state.enemies@[j].id.0 > a)),
            },
        decreases state.enemies@.len() - i,
    {
        let e = &state.enemies[i];
        let fits = e.engaged_with == Some(inv) && !e.exhausted && match after {
            Some(a) => e.id.0 > a,
            None => true,
        };
        if fits {
            match best {
                None => {
                    best = Some(i);
                },
                Some(b) => {
                    if e.id.0 < state.enemies[b].id.0 {
                        best = Some(i);
                    }
                },
            }
        }
        i += 1;
    }
    best
}

/// One enemy's attack on `inv` through the intermediate states `m1` (after
/// its damage) and `m2` (after its horror): its damage and then its horror,
/// from a single source, the horror only if `inv` survives the damage; then
/// the enemy exhausts, announced.
pub open spec fn attack_steps(
    s: GameState,
    f: GameState,
    e0: Seq<Event>,
    e1: Seq<Event>,
    k: int,
    inv: InvestigatorId,
    m1: GameState,
    ev1: Seq<Event>,
    m2: GameState,
    ev2: Seq<Event>,
) -> bool {
    let e = s.enemies@[k];
    &&& harm_result(s, m1, e0, ev1, inv, e.attack_damage, false)
    &&& if m1.investigators@[investigator_index(m1.investigators@, inv)].status == Status::Active {
        harm_result(m1, m2, ev1, ev2, inv, e.attack_horror, true)
    } else {
        m2 == m1 && ev2 == ev1
    }
    &&& f == (GameState { enemies: f.enemies, ..m2 })
    &&& f.enemies@ == m2.enemies@.update(k, Enemy { exhausted: true, ..m2.enemies@[k] })
    &&& e1 == ev2.push(Event::EnemyExhausted { enemy: m2.enemies@[k].id })
}

/// One enemy's attack on `inv` (its damage and then its horror, from a
/// single source, the horror only if `inv` survives the damage), then the
/// enemy exhausts, announced.
#[verifier::opaque]
pub open spec fn attack_result(s: GameState, f: GameState, e0: Seq<Event>, e1: Seq<Event>, k: int, inv: InvestigatorId) -> bool {
    exists|m1: GameState, ev1: Seq<Event>, m2: GameState, ev2: Seq<Event>|
        #[trigger] attack_steps(s, f, e0, e1, k, inv, m1, ev1, m2, ev2)
}

/// Whether the investigator with `id` is seated and `Active`.
pub open spec fn active_in(s: GameState, id: InvestigatorId) -> bool {
    has_investigator(s.investigators@, id) && s.investigators@[investigator_index(s.investigators@, id)].status
        == Status::Active
}

/// The id of the last attacker after the first `j` attacks of a run
/// through the states `st` with attackers at positions `ks` (none before the
/// first).
pub open spec fn last_attacker(st: Seq<GameState>, ks: Seq<int>, j: int) -> Option<u32> {
    if j <= 0 {
        None
    } else {
        Some(st[j - 1].enemies@[ks[j - 1]].id.0)
    }
}

/// The first `ks.len()` attacks of a run on `inv` through the states `st`
/// and logs `lg`: before each, `inv` is `Active` and the attacker is the
/// ready engaged enemy with the smallest id above the last attacker's.
pub open spec fn attack_steps_so_far(inv: InvestigatorId, st: Seq<GameState>, lg: Seq<Seq<Event>>, ks: Seq<int>) -> bool
    decreases ks.len(),
{
    &&& st.len() == ks.len() + 1
    &&& lg.len() == ks.len() + 1
    &&& if ks.len() == 0 {
        true
    } else {
        let j = ks.len() - 1;
        &&& attack_steps_so_far(inv, st.drop_last(), lg.drop_last(), ks.drop_last())
        &&& active_in(st[j], inv)
        &&& is_next_attacker(st[j].enemies@, inv, last_attacker(st, ks, j), ks[j])
        &&& attack_result(st[j], st[j + 1], lg[j], lg[j + 1], ks[j], inv)
    }
}

/// Step 3.3's attacks on `inv`, from `s` (logging from `e0`) to `f`
/// (logging to `e1`), through the states `st` with attackers at `ks`: one
/// attack at a time, in ascending enemy-id order, until `inv` is no longer
/// `Active` or no ready engaged enemy is left.
pub open spec fn attack_run(
    s: GameState,
    f: GameState,
    e0: Seq<Event>,
    e1: Seq<Event>,
    inv: InvestigatorId,
    st: Seq<GameState>,
    lg: Seq<Seq<Event>>,
    ks: Seq<int>,
) -> bool {
    &&& attack_steps_so_far(inv, st, lg, ks)
    &&& st[0] == s
    &&& lg[0] == e0
    &&& st[ks.len() as int] == f
    &&& lg[ks.len() as int] == e1
    &&& (!active_in(f, inv) || !has_next_attacker(f.enemies@, inv, last_attacker(st, ks, ks.len() as int)))
}

/// With distinct enemy ids, the next attacker is unique.
proof fn lemma_next_attacker_unique(es: Seq<Enemy>, inv: InvestigatorId, after: Option<u32>, i: int, j: int)
    requires
        enemy_ids_distinct(es),
        is_next_attacker(es, inv, after, i),
        is_next_attacker(es, inv, after, j),
    ensures
        i == j,
{
    assert(es[i].id.0 <= es[j].id.0);
    assert(es[j].id.0 <= es[i].id.0);
}

/// Resolve every attack on `inv` in step 3.3: each ready enemy engaged with
/// them attacks in ascending enemy-id order, dealing its damage and horror,
/// and exhausts. The loop stops as soon as `inv` is no longer `Active`.
/// Nothing happens for an investigator who is not seated or not `Active`.
#[verifier::spinoff_prover]
#[verifier::rlimit(60)]
pub fn resolve_attacks_for_investigator(state: &mut GameState, events: &mut Vec<Event>, inv: InvestigatorId)
    requires
        old(state).wf(),
    ensures
        final(state).wf(),
        exists|st: Seq<GameState>, lg: Seq<Seq<Event>>, ks: Seq<int>|
            attack_run(*old(state), *final(state), old(events)@, final(events)@, inv, st, lg, ks),
        !active_in(*old(state), inv) ==> *final(state) == *old(state) && final(events)@ == old(events)@,
        final(state).investigators@.len() == old(state).investigators@.len(),
        final(state).enemies@.len() == old(state).enemies@.len(),
{
    let ghost s0 = *state;
    let ghost e0 = events@;
    let Some(k) = state.find_investigator(inv) else {
        proof {
            assert(attack_run(s0, s0, e0, e0, inv, seq![s0], seq![e0], Seq::empty()));
        }
        return;
    };
    if !matches!(state.investigators[k].status, Status::Active) {
        proof {
            assert(attack_run(s0, s0, e0, e0, inv, seq![s0], seq![e0], Seq::empty()));
        }
        return;
    }
    let mut after: Option<u32> = None;
    let ghost mut st: Seq<GameState> = seq![s0];
    let ghost mut lg: Seq<Seq<Event>> = seq![e0];
    let ghost mut ks: Seq<int> = Seq::empty();
    loop
        invariant
            state.wf(),
            has_investigator(state.investigators@, inv),
            state.investigators@.len() == s0.investigators@.len(),
            state.enemies@.len() == s0.enemies@.len(),
            attack_steps_so_far(inv, st, lg, ks),
            st[0] == s0,
            lg[0] == e0,
            st[ks.len() as int] == *state,
            lg[ks.len() as int] == events@,
            after == last_attacker(st, ks, ks.len() as int),
        ensures
            !active_in(*state, inv) || !has_next_attacker(state.enemies@, inv, after),
        decreases (match after {
            Some(a) => u32::MAX - a,
            None => u32::MAX + 1,
        }),
    {
        let k1 = state.find_investigator(inv).unwrap();
        if !matches!(state.investigators[k1].status, Status::Active) {
            break;
        }
        let Some(i) = next_attacker(state, inv, after) else {
            break;
        };
        let eid = state.enemies[i].id;
        let damage = state.enemies[i].attack_damage;
        let horror = state.enemies[i].attack_horror;
        let ghost cur = *state;
        let ghost ecur = events@;
        take_damage(state, events, inv, damage);
        let ghost m1 = *state;
        let ghost ev1 = events@;
        proof {
            lemma_harm_keeps_ids(cur, *state, ecur, events@, inv, damage, false);
            let w = investigator_index(cur.investigators@, inv);
            assert(state.investigators@[w].id == inv);
        }
        let k2 = state.find_investigator(inv).unwrap();
        if matches!(state.investigators[k2].status, Status::Active) {
            let ghost b2 = *state;
            let ghost ev2 = events@;
            take_horror(state, events, inv, horror);
            proof {
                lemma_harm_keeps_ids(b2, *state, ev2, events@, inv, horror, true);
                let w = investigator_index(b2.investigators@, inv);
                assert(state.investigators@[w].id == inv);
            }
        }
        let ghost m2 = *state;
        let ghost ev2 = events@;
        proof {
            assert(m2.enemies@[i as int].id == cur.enemies@[i as int].id);
        }
        state.enemies[i].exhausted = true;
        events.push(Event::EnemyExhausted { enemy: eid });
        proof {
            assert(enemy_ids_distinct(state.enemies@)) by {
                assert forall|a: int, b: int|
                    0 <= a < state.enemies@.len() && 0 <= b < state.enemies@.len() && a != b implies state.enemies@[a].id
                    != state.enemies@[b].id by {
                    assert(state.enemies@[a].id == m2.enemies@[a].id);
                    assert(state.enemies@[b].id == m2.enemies@[b].id);
                }
            }
            assert forall|t: int| 0 <= t < state.enemies@.len() implies state.enemies@[t].id.0 < state.next_enemy_id by {
                assert(state.enemies@[t].id == m2.enemies@[t].id);
            }
            assert(state.enemies@ =~= m2.enemies@.update(i as int, Enemy { exhausted: true, ..m2.enemies@[i as int] }));
            assert(attack_steps(cur, *state, ecur, events@, i as int, inv, m1, ev1, m2, ev2));
            assert(attack_result(cur, *state, ecur, events@, i as int, inv)) by {
                reveal(attack_result);
            }
            let j = ks.len() as int;
            let st2 = st.push(*state);
            let lg2 = lg.push(events@);
            let ks2 = ks.push(i as int);
            assert(st2.drop_last() =~= st);
            assert(lg2.drop_last() =~= lg);
            assert(ks2.drop_last() =~= ks);
            assert(last_attacker(st2, ks2, j) == last_attacker(st, ks, j));
            assert(attack_steps_so_far(inv, st2, lg2, ks2));
            st = st2;
            lg = lg2;
            ks = ks2;
        }
        after = Some(eid.0);
    }
    proof {
        assert(attack_run(s0, *state, e0, events@, inv, st, lg, ks));
    }
}

/// The id of the `j`-th attacker of a run through `st` with attackers at `ks`.
pub open spec fn attacker_id(st: Seq<GameState>, ks: Seq<int>, j: int) -> u32 {
    st[j].enemies@[ks[j]].id.0
}

/// Each enemy attacks at most once in step 3.3's attacks on one
/// investigator: the attackers' ids strictly ascend along the run.
pub proof fn law_attackers_ascend(inv: InvestigatorId, st: Seq<GameState>, lg: Seq<Seq<Event>>, ks: Seq<int>, a: int, b: int)
    requires
        attack_steps_so_far(inv, st, lg, ks),
        0 <= a < b < ks.len(),
    ensures
        attacker_id(st, ks, a) < attacker_id(st, ks, b),
    decreases ks.len(),
{
    let n = ks.len() - 1;
    let (st0, lg0, ks0) = (st.drop_last(), lg.drop_last(), ks.drop_last());
    if b < n {
        law_attackers_ascend(inv, st0, lg0, ks0, a, b);
        assert(st0[a] == st[a] && st0[b] == st[b] && ks0[a] == ks[a] && ks0[b] == ks[b]);
    } else {
        assert(is_next_attacker(st[b].enemies@, inv, last_attacker(st, ks, b), ks[b]));
        if a < b - 1 {
            law_attackers_ascend(inv, st0, lg0, ks0, a, b - 1);
            assert(st0[a] == st[a] && st0[b - 1] == st[b - 1] && ks0[a] == ks[a] && ks0[b - 1] == ks[b - 1]);
        }
    }
}

} // verus!
