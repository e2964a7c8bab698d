//! Where a movement block bites, for both sides of the table.
//!
//! Barricade blocks **enemies** and not investigators ("Non-Elite enemies
//! cannot move into attached location."); the Parlor's unrevealed back
//! blocks **investigators** and not enemies ("You cannot move into the
//! Parlor."). A block is checked against the compelled step, never baked
//! into the connection graph, and the Elite exemption is the enemy side's
//! alone.
use vstd::prelude::*;

use crate::cards::{
    abilities_of, metadata_of, Ability, CardRegistry, Effect, Restriction, Trigger,
};
use crate::state::{
    has_location, location_ids_distinct, location_index, CardInPlay, Enemy, GameState, Location,
    LocationId,
};

verus! {

/// Whether `abs` holds a constant ability that is exactly the restriction `r`.
pub open spec fn abilities_carry(abs: Seq<Ability>, r: Restriction) -> bool {
    exists|k: int|
        0 <= k < abs.len() && abs[k].trigger is Constant && abs[k].effect == Effect::Restrict(r)
}

/// The abilities of the side of `loc` that is in effect: the revealed side
/// once revealed, the unrevealed back before.
pub open spec fn location_side_abilities(reg: Option<CardRegistry>, loc: Location) -> Seq<Ability> {
    match reg {
        Some(r) => match metadata_of(r, loc.code@) {
            Some(m) => if loc.revealed {
                m.abilities@
            } else {
                m.back_abilities@
            },
            None => Seq::empty(),
        },
        None => Seq::empty(),
    }
}

/// Whether some card attached to `loc` carries the restriction `r`.
pub open spec fn attachments_carry(
    reg: Option<CardRegistry>,
    attachments: Seq<CardInPlay>,
    r: Restriction,
) -> bool {
    exists|a: int| 0 <= a < attachments.len() && abilities_carry(abilities_of(reg, attachments[a].code@), r)
}

/// Whether location `loc` carries the constant restriction `r`, on its own
/// in-effect side or on any card attached to it. `false` with no card data.
pub open spec fn location_carries(s: GameState, loc: LocationId, r: Restriction) -> bool {
    has_location(s.locations@, loc) && {
        let l = s.locations@[location_index(s.locations@, loc)];
        abilities_carry(location_side_abilities(s.registry, l), r) || attachments_carry(
            s.registry,
            l.attachments@,
            r,
        )
    }
}

/// Whether `e` is Elite (has the "Elite" trait).
pub open spec fn is_elite(e: Enemy) -> bool {
    exists|k: int| 0 <= k < e.traits@.len() && e.traits@[k]@ == "Elite"@
}

/// Whether an enemy may move into `loc`: Elite, or `loc` is not
/// enemy-blocked.
pub open spec fn enemy_may_enter(s: GameState, e: Enemy, loc: LocationId) -> bool {
    is_elite(e) || !location_carries(s, loc, Restriction::EnemyMovementBlocked)
}

/// Whether `abs` holds a constant ability that is exactly `r`.
pub fn carries_restriction(abs: &Vec<Ability>, r: Restriction) -> (b: bool)
    ensures
        b == abilities_carry(abs@, r),
{
    let mut k: usize = 0;
    while k < abs.len()
        invariant
            k <= abs@.len(),
            forall|j: int|
                0 <= j < k ==> !(abs@[j].trigger is Constant && abs@[j].effect
                    == Effect::Restrict(r)),
        decreases abs@.len() - k,
    {
        if matches!(abs[k].trigger, Trigger::Constant) && abs[k].effect == Effect::Restrict(r) {
            return true;
        }
        k += 1;
    }
    false
}

/// Whether some card in `attachments` carries `r` in the corpus `reg`.
pub fn attachments_carry_restriction(
    reg: &Option<CardRegistry>,
    attachments: &Vec<CardInPlay>,
    r: Restriction,
) -> (b: bool)
    ensures
        b == attachments_carry(*reg, attachments@, r),
{
    let Some(registry) = reg else {
        return false;
    };
    let mut a: usize = 0;
    while a < attachments.len()
        invariant
            a <= attachments@.len(),
            *reg == Some(*registry),
            forall|j: int|
                0 <= j < a ==> !abilities_carry(abilities_of(*reg, attachments@[j].code@), r),
        decreases attachments@.len() - a,
    {
        if let Some(m) = registry.metadata_for(attachments[a].code.as_str()) {
            if carries_restriction(&m.abilities, r) {
                return true;
            }
        }
        a += 1;
    }
    false
}

/// Whether `loc` carries the constant restriction `r`, on the location's
/// own in-effect side or on any card attached to it.
fn location_carries_restriction(state: &GameState, loc: LocationId, r: Restriction) -> (b: bool)
    requires
        location_ids_distinct(state.locations@),
    ensures
        b == location_carries(*state, loc, r),
{
    let Some(i) = state.find_location(loc) else {
        return false;
    };
    let location = &state.locations[i];
    let own = match &state.registry {
        Some(reg) => match reg.metadata_for(location.code.as_str()) {
            Some(m) => if location.revealed {
                carries_restriction(&m.abilities, r)
            } else {
                carries_restriction(&m.back_abilities, r)
            },
            None => false,
        },
        None => false,
    };
    if own {
        return true;
    }
    attachments_carry_restriction(&state.registry, &location.attachments, r)
}

/// Whether `enemy` may move into `loc`. Blocked only when `loc` carries the
/// enemy-movement restriction **and** the enemy is non-Elite. An enemy is
/// not stopped by an investigator-side barrier.
pub fn enemy_can_enter_location(state: &GameState, enemy: &Enemy, loc: LocationId) -> (b: bool)
    requires
        location_ids_distinct(state.locations@),
    ensures
        b == enemy_may_enter(*state, *enemy, loc),
{
    enemy_is_elite(enemy) || !location_carries_restriction(
        state,
        loc,
        Restriction::EnemyMovementBlocked,
    )
}

/// Whether an investigator may move into `loc`: blocked when `loc` carries
/// the investigator-movement restriction (the Parlor's unrevealed back).
pub fn investigator_can_enter_location(state: &GameState, loc: LocationId) -> (b: bool)
    requires
        location_ids_distinct(state.locations@),
    ensures
        b == !location_carries(*state, loc, Restriction::InvestigatorMovementBlocked),
{
    !location_carries_restriction(state, loc, Restriction::InvestigatorMovementBlocked)
}

/// Whether `enemy` is Elite, read from its traits.
pub fn enemy_is_elite(enemy: &Enemy) -> (b: bool)
    ensures
        b == is_elite(*enemy),
{
    let elite = "Elite".to_owned();
    let mut k: usize = 0;
    while k < enemy.traits.len()
        invariant
            k <= enemy.traits@.len(),
            elite@ == "Elite"@,
            forall|j: int| 0 <= j < k ==> enemy.traits@[j]@ != "Elite"@,
        decreases enemy.traits@.len() - k,
    {
        if enemy.traits[k] == elite {
            return true;
        }
        k += 1;
    }
    false
}

} // verus!
