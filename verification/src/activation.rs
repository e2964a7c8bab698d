//! Whether an investigator may activate an action ability now (Rules
//! Reference "Abilities", "Actions", "Limits and Maximums"): the sources an
//! investigator can reach, and the checks an activation passes before any
//! cost is paid.
use vstd::prelude::*;

use crate::cards::{effect_can_change_state, effect_changes_state, metadata_of, Effect, Trigger};
use crate::outcome::Reject;
use crate::state::{
    has_investigator, has_location, investigator_index, location_index, uses_in, uses_in_round,
    CardCode, CardInPlay, CardInstanceId, GameState, InvestigatorId, LocationId, Phase, Status,
};

verus! {

/// The card an activated ability is printed on.
#[derive(Clone, Copy, Debug, PartialEq, Eq, Structural)]
pub enum AbilitySource {
    /// A card in play, by its instance.
    InPlay(CardInstanceId),
    /// A location in play.
    Location(LocationId),
}

/// What an activatable ability is: the code of its card, its effect, and
/// the actions it costs.
pub struct ActivateCheck {
    pub source_code: CardCode,
    pub effect: Effect,
    pub action_cost: u8,
}

/// The code of the last card in `cards` with instance `inst`, if any.
pub open spec fn instance_code(cards: Seq<CardInPlay>, inst: CardInstanceId) -> Option<Seq<char>>
    decreases cards.len(),
{
    if cards.len() == 0 {
        None
    } else if cards.last().instance_id == inst {
        Some(cards.last().code@)
    } else {
        instance_code(cards.drop_last(), inst)
    }
}

/// The code of the card with instance `inst` in `cards`, if one is there.
fn find_instance_code(cards: &Vec<CardInPlay>, inst: CardInstanceId) -> (r: Option<CardCode>)
    ensures
        match r {
            Some(c) => instance_code(cards@, inst) == Some(c@),
            None => instance_code(cards@, inst) is None,
        },
{
    let mut i: usize = cards.len();
    proof {
        assert(cards@.take(i as int) =~= cards@);
    }
    while i > 0
        invariant
            i <= cards@.len(),
            instance_code(cards@, inst) == instance_code(cards@.take(i as int), inst),
        decreases i,
    {
        proof {
            assert(cards@.take(i as int).drop_last() =~= cards@.take(i - 1));
        }
        if cards[i - 1].instance_id == inst {
            return Some(cards[i - 1].code.clone());
        }
        i -= 1;
    }
    None
}

/// The code of the card `src` names, when `id` can reach it: a card in
/// play under their control or at their location, or the location they are
/// at.
pub open spec fn reachable_code(s: GameState, id: InvestigatorId, src: AbilitySource) -> Option<Seq<char>> {
    let inv = s.investigators@[investigator_index(s.investigators@, id)];
    let here = match inv.current_location {
        Some(l) => if has_location(s.locations@, l) {
            Some(s.locations@[location_index(s.locations@, l)])
        } else {
            None
        },
        None => None,
    };
    match src {
        AbilitySource::InPlay(i) => match instance_code(inv.cards_in_play@, i) {
            Some(c) => Some(c),
            None => match here {
                Some(loc) => instance_code(loc.cards_at_location@, i),
                None => None,
            },
        },
        AbilitySource::Location(l) => match here {
            Some(loc) => if loc.id == l {
                Some(loc.code@)
            } else {
                None
            },
            None => None,
        },
    }
}

/// Why `id` may not activate the ability at `index` on `src` now, if they
/// may not. An activated ability is an action ability: it is activated on
/// its controller's own Investigation turn, for one action, within its
/// limit, and only when its effect can change the game state. A limit
/// counts uses per card instance, so a limited ability on a location is
/// refused.
pub open spec fn activation_fault(s: GameState, id: InvestigatorId, src: AbilitySource, index: u8) -> Option<Reject> {
    let invs = s.investigators@;
    if !has_investigator(invs, id) {
        Some(Reject::InvestigatorNotInState)
    } else {
        let inv = invs[investigator_index(invs, id)];
        if inv.status != Status::Active {
            Some(Reject::NotActive)
        } else {
            match reachable_code(s, id, src) {
                None => Some(Reject::SourceUnreachable),
                Some(code) => match s.registry {
                    None => Some(Reject::NoRegistry),
                    Some(reg) => match metadata_of(reg, code) {
                        None => Some(Reject::UnknownCard),
                        Some(m) => {
                            let abs = m.abilities@;
                            if index >= abs.len() || !(abs[index as int].trigger is Activated) {
                                Some(Reject::NoSuchAbility)
                            } else {
                                let a = abs[index as int];
                                if a.usage_limit is Some && src is Location {
                                    Some(Reject::UntrackableLimit)
                                } else if !(s.phase == Phase::Investigation && s.active_investigator
                                    == Some(id)) {
                                    Some(Reject::NotActivatableNow)
                                } else if inv.actions_remaining < 1 {
                                    Some(Reject::NoActionLeft)
                                } else if src matches AbilitySource::InPlay(i) && a.usage_limit matches Some(n)
                                    && uses_in_round(s.ability_usage@, i, index as int, s.round) >= n {
                                    Some(Reject::LimitReached)
                                } else if !effect_changes_state(a.effect) {
                                    Some(Reject::NoStateChange)
                                } else {
                                    None
                                }
                            }
                        },
                    },
                },
            }
        }
    }
}

/// The code of the card `src` names, when `id` (seated at `k`) can reach
/// it.
fn reachable_source_code(state: &GameState, k: usize, src: AbilitySource) -> (r: Option<CardCode>)
    requires
        state.wf(),
        k < state.investigators@.len(),
    ensures
        match r {
            Some(c) => reachable_code(*state, state.investigators@[k as int].id, src) == Some(c@),
            None => reachable_code(*state, state.investigators@[k as int].id, src) is None,
        },
{
    proof {
        crate::state::lemma_investigator_index(
            state.investigators@,
            state.investigators@[k as int].id,
            k as int,
        );
    }
    let inv = &state.investigators[k];
    let here = match inv.current_location {
        Some(l) => state.find_location(l),
        None => None,
    };
    match src {
        AbilitySource::InPlay(i) => match find_instance_code(&inv.cards_in_play, i) {
            Some(c) => Some(c),
            None => match here {
                Some(li) => find_instance_code(&state.locations[li].cards_at_location, i),
                None => None,
            },
        },
        AbilitySource::Location(l) => match here {
            Some(li) => if state.locations[li].id == l {
                Some(state.locations[li].code.clone())
            } else {
                None
            },
            None => None,
        },
    }
}

/// Whether `id` may activate the ability at `ability_index` on `source`
/// now; the first check that fails is the answer (see
/// [`activation_fault`]). Changes nothing.
pub fn check_activate_ability(
    state: &GameState,
    id: InvestigatorId,
    source: AbilitySource,
    ability_index: u8,
) -> (r: Result<ActivateCheck, Reject>)
    requires
        state.wf(),
    ensures
        match r {
            Ok(c) => {
                &&& activation_fault(*state, id, source, ability_index) is None
                &&& reachable_code(*state, id, source) == Some(c.source_code@)
                &&& c.effect == metadata_of(state.registry->0, c.source_code@)->0.abilities@[ability_index as int].effect
                &&& c.action_cost == 1
            },
            Err(why) => activation_fault(*state, id, source, ability_index) == Some(why),
        },
{
    let Some(k) = state.find_investigator(id) else {
        return Err(Reject::InvestigatorNotInState);
    };
    let inv = &state.investigators[k];
    if !matches!(inv.status, Status::Active) {
        return Err(Reject::NotActive);
    }
    let Some(code) = reachable_source_code(state, k, source) else {
        return Err(Reject::SourceUnreachable);
    };
    let Some(reg) = &state.registry else {
        return Err(Reject::NoRegistry);
    };
    let Some(m) = reg.metadata_for(code.as_str()) else {
        return Err(Reject::UnknownCard);
    };
    let idx = ability_index as usize;
    if idx >= m.abilities.len() || !matches!(m.abilities[idx].trigger, Trigger::Activated) {
        return Err(Reject::NoSuchAbility);
    }
    let a = &m.abilities[idx];
    let located = matches!(source, AbilitySource::Location(_));
    if a.usage_limit.is_some() && located {
        return Err(Reject::UntrackableLimit);
    }
    let own_turn = matches!(state.phase, Phase::Investigation) && state.active_investigator == Some(id);
    if !own_turn {
        return Err(Reject::NotActivatableNow);
    }
    if inv.actions_remaining < 1 {
        return Err(Reject::NoActionLeft);
    }
    if let AbilitySource::InPlay(i) = source {
        if let Some(n) = a.usage_limit {
            if uses_in(&state.ability_usage, i, idx, state.round) >= n {
                return Err(Reject::LimitReached);
            }
        }
    }
    if !effect_can_change_state(&a.effect) {
        return Err(Reject::NoStateChange);
    }
    Ok(ActivateCheck { source_code: code, effect: a.effect, action_cost: 1 })
}

} // verus!
