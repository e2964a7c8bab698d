//! Engagement (Rules Reference p.10): "Any time a ready unengaged enemy is
//! at the same location as an investigator, it engages that investigator…
//! follow the enemy's prey instructions."
use vstd::prelude::*;

use crate::cards::CardRegistry;
use crate::cursor::{active_at_in, active_investigators_at};
use crate::outcome::Event;
use crate::prey::{best_in, resolve_prey, PreyResolution};
use crate::state::{
    enemy_index, has_enemy, Enemy, EnemyId, GameState, Investigator, InvestigatorId, LocationId,
};

verus! {

/// The investigator a now-unengaged enemy engages where it stands: the first
/// of the prey-best co-located `Active` investigators, if it is ready and
/// on the map.
pub open spec fn reengage_target(
    invs: Seq<Investigator>,
    order: Seq<InvestigatorId>,
    reg: Option<CardRegistry>,
    e: Enemy,
) -> Option<InvestigatorId> {
    if e.exhausted {
        None
    } else {
        match e.current_location {
            None => None,
            Some(loc) => {
                let best = best_in(invs, reg, e.prey, active_at_in(invs, order, loc));
                if best.len() > 0 {
                    Some(best[0])
                } else {
                    None
                }
            },
        }
    }
}

/// Set `enemy_id`'s engagement to `target` and log `EnemyEngaged`.
pub fn engage_enemy_with(
    state: &mut GameState,
    events: &mut Vec<Event>,
    enemy_id: EnemyId,
    target: InvestigatorId,
)
    requires
        old(state).wf(),
        has_enemy(old(state).enemies@, enemy_id),
    ensures
        final(state).wf(),
        ({
            let i = enemy_index(old(state).enemies@, enemy_id);
            &&& *final(state) == GameState { enemies: final(state).enemies, ..*old(state) }
            &&& final(state).enemies@ == old(state).enemies@.update(
                i,
                Enemy { engaged_with: Some(target), ..old(state).enemies@[i] },
            )
        }),
        final(events)@ == old(events)@.push(
            Event::EnemyEngaged { enemy: enemy_id, investigator: target },
        ),
{
    let i = state.find_enemy(enemy_id).unwrap();
    state.enemies[i].engaged_with = Some(target);
    events.push(Event::EnemyEngaged { enemy: enemy_id, investigator: target });
}

/// Move `enemy_id` to `to` and log `EnemyMoved`.
pub fn move_hunter_to(state: &mut GameState, events: &mut Vec<Event>, enemy_id: EnemyId, to: LocationId)
    requires
        old(state).wf(),
        has_enemy(old(state).enemies@, enemy_id),
    ensures
        final(state).wf(),
        ({
            let i = enemy_index(old(state).enemies@, enemy_id);
            &&& *final(state) == GameState { enemies: final(state).enemies, ..*old(state) }
            &&& final(state).enemies@ == old(state).enemies@.update(
                i,
                Enemy { current_location: Some(to), ..old(state).enemies@[i] },
            )
        }),
        final(events)@ == old(events)@.push(Event::EnemyMoved { enemy: enemy_id, to }),
{
    let i = state.find_enemy(enemy_id).unwrap();
    state.enemies[i].current_location = Some(to);
    events.push(Event::EnemyMoved { enemy: enemy_id, to });
}

/// Engage a now-unengaged enemy with a co-located investigator per the
/// general engagement rule. No-op when the enemy is exhausted or off the
/// map. A prey tie engages the lead of the tie (first in turn order) rather
/// than suspending, which keeps every defeat caller synchronous.
///
/// The enemy's existing engagement is overwritten, not announced: callers
/// clear (and announce) any engagement first.
pub fn reengage_at_location(state: &mut GameState, events: &mut Vec<Event>, enemy_id: EnemyId)
    requires
        old(state).wf(),
        has_enemy(old(state).enemies@, enemy_id),
    ensures
        final(state).wf(),
        ({
            let i = enemy_index(old(state).enemies@, enemy_id);
            let e = old(state).enemies@[i];
            match reengage_target(old(state).investigators@, old(state).turn_order@, old(state).registry, e) {
                Some(t) => {
                    &&& *final(state) == GameState { enemies: final(state).enemies, ..*old(state) }
                    &&& final(state).enemies@ == old(state).enemies@.update(
                        i,
                        Enemy { engaged_with: Some(t), ..e },
                    )
                    &&& final(events)@ == old(events)@.push(
                        Event::EnemyEngaged { enemy: enemy_id, investigator: t },
                    )
                },
                None => *final(state) == *old(state) && final(events)@ == old(events)@,
            }
        }),
{
    let i = state.find_enemy(enemy_id).unwrap();
    if state.enemies[i].exhausted {
        return;
    }
    let Some(loc) = state.enemies[i].current_location else {
        return;
    };
    let prey = state.enemies[i].prey;
    let candidates = active_investigators_at(state, loc);
    match resolve_prey(state, prey, &candidates) {
        PreyResolution::Nobody => {},
        PreyResolution::One(target) => engage_enemy_with(state, events, enemy_id, target),
        PreyResolution::Tie(tied) => engage_enemy_with(state, events, enemy_id, tied[0]),
    }
}

} // verus!
