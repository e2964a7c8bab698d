//! Timing points: the single chokepoint through which forced abilities are
//! queued when a framework or game event happens.
//!
//! [`queue_event`] queues; it does not resolve. Firing an ability pushes a
//! frame for the drive loop, so `Done` means "queued", and a caller with
//! work to do after the emit puts that work on its own frame and emits last.
use vstd::prelude::*;

use crate::cards::{EventTiming, SkillTestKind, TestOutcome};
use crate::forced_triggers::ForcedTriggerPoint;
use crate::state::{CardCode, CardInstanceId, EnemyId, InvestigatorId, LocationId, Phase};

verus! {

/// A game or framework timing point at which forced and/or reaction
/// abilities may fire, with the binding context the fired effects need.
pub enum TimingEvent {
    /// An investigator entered a location (forced only).
    EnteredLocation { investigator: InvestigatorId, location: LocationId },
    /// A phase ended (forced only).
    PhaseEnded { phase: Phase },
    /// An act advanced; its reverse resolves (forced only).
    ActAdvanced { code: CardCode },
    /// An agenda advanced; its reverse resolves (forced only).
    AgendaAdvanced { code: CardCode },
    /// An enemy was defeated (forced and reaction).
    EnemyDefeated { enemy: EnemyId, by: Option<InvestigatorId>, code: CardCode },
    /// The round ended, step 4.6 (forced only; walks every cell).
    RoundEnded,
    /// An investigator's turn ended, step 2.2.2 (forced only).
    EndOfTurn { investigator: InvestigatorId },
    /// The game ended (forced only).
    GameEnd,
    /// The game has ended for one eliminated investigator, for the purpose of
    /// resolving that investigator's weaknesses (forced only).
    EliminationGameEnd { investigator: InvestigatorId },
    /// An enemy attack soaked damage onto a controlled asset (reaction only).
    EnemyAttackDamagedSelf { asset: CardInstanceId, enemy: EnemyId, controller: InvestigatorId },
    /// A skill test resolved (forced and reaction).
    SkillTestResolved { investigator: InvestigatorId, kind: SkillTestKind, outcome: TestOutcome },
    /// An enemy is about to attack an investigator (reaction only).
    EnemyAttacks { enemy: EnemyId, investigator: InvestigatorId },
    /// An investigator is about to discover clues (reaction only).
    WouldDiscoverClues { investigator: InvestigatorId, location: LocationId, count: u8 },
    /// A card entered play (reaction only).
    EnteredPlay { instance: CardInstanceId, controller: InvestigatorId },
    /// An investigator left a location (forced only).
    LeftLocation { investigator: InvestigatorId, location: LocationId },
}

/// The forced dispatch point of `e`, if it fires forced abilities.
pub open spec fn forced_point_of(e: TimingEvent) -> Option<ForcedTriggerPoint> {
    match e {
        TimingEvent::EnteredLocation { investigator, location } => Some(
            ForcedTriggerPoint::EnteredLocation { investigator, location },
        ),
        TimingEvent::PhaseEnded { phase } => Some(ForcedTriggerPoint::PhaseEnded { phase }),
        TimingEvent::ActAdvanced { code } => Some(ForcedTriggerPoint::ActAdvanced { code }),
        TimingEvent::AgendaAdvanced { code } => Some(ForcedTriggerPoint::AgendaAdvanced { code }),
        TimingEvent::EnemyDefeated { code, .. } => Some(ForcedTriggerPoint::EnemyDefeated { code }),
        TimingEvent::RoundEnded => Some(ForcedTriggerPoint::RoundEnded),
        TimingEvent::EndOfTurn { investigator } => Some(
            ForcedTriggerPoint::EndOfTurn { investigator },
        ),
        TimingEvent::GameEnd => Some(ForcedTriggerPoint::GameEnd),
        TimingEvent::EliminationGameEnd { investigator } => Some(
            ForcedTriggerPoint::EliminationGameEnd { investigator },
        ),
        TimingEvent::SkillTestResolved { investigator, kind, outcome } => Some(
            ForcedTriggerPoint::SkillTestResolved { investigator, kind, outcome },
        ),
        TimingEvent::LeftLocation { investigator, location } => Some(
            ForcedTriggerPoint::LeftLocation { investigator, location },
        ),
        TimingEvent::EnemyAttackDamagedSelf { .. } => None,
        TimingEvent::EnemyAttacks { .. } => None,
        TimingEvent::EnteredPlay { .. } => None,
        TimingEvent::WouldDiscoverClues { .. } => None,
    }
}

/// The cell `e`'s reaction window opens in: the before-windows and the
/// round end are `When`; everything else is `After`.
pub open spec fn reaction_bucket_of(e: TimingEvent) -> EventTiming {
    match e {
        TimingEvent::EnemyAttacks { .. } => EventTiming::When,
        TimingEvent::WouldDiscoverClues { .. } => EventTiming::When,
        TimingEvent::RoundEnded => EventTiming::When,
        _ => EventTiming::After,
    }
}

/// Whether `e` opens a reaction window.
pub open spec fn opens_reaction_window_spec(e: TimingEvent) -> bool {
    match e {
        TimingEvent::EnemyDefeated { .. } => true,
        TimingEvent::EnemyAttackDamagedSelf { .. } => true,
        TimingEvent::SkillTestResolved { .. } => true,
        TimingEvent::EnemyAttacks { .. } => true,
        TimingEvent::WouldDiscoverClues { .. } => true,
        TimingEvent::EnteredPlay { .. } => true,
        _ => false,
    }
}

/// Who resolves a triggering condition's own impact: step 2 of a nested
/// sequence ("execute when effects, resolve the condition, execute after
/// effects").
#[derive(Clone, Copy, Debug, PartialEq, Eq, Structural)]
pub enum ConditionResolution {
    /// The coordinator resolves the condition between its `when` and `at`
    /// cells (with [`resolve_bare_milestone`] for a bare milestone).
    Coordinator,
    /// The emitting caller mutated the board before emitting.
    Caller,
}

/// Who resolves `e`'s own impact. Only the round end is a coordinator-owned
/// bare milestone.
pub open spec fn condition_resolution_of(e: TimingEvent) -> ConditionResolution {
    match e {
        TimingEvent::RoundEnded => ConditionResolution::Coordinator,
        _ => ConditionResolution::Caller,
    }
}

impl TimingEvent {
    /// A copy of this timing point.
    pub fn copy(&self) -> (r: TimingEvent)
        ensures
            r == *self,
    {
        match self {
            TimingEvent::EnteredLocation { investigator, location } => TimingEvent::EnteredLocation {
                investigator: *investigator,
                location: *location,
            },
            TimingEvent::PhaseEnded { phase } => TimingEvent::PhaseEnded { phase: *phase },
            TimingEvent::ActAdvanced { code } => TimingEvent::ActAdvanced { code: code.clone() },
            TimingEvent::AgendaAdvanced { code } => TimingEvent::AgendaAdvanced { code: code.clone() },
            TimingEvent::EnemyDefeated { enemy, by, code } => TimingEvent::EnemyDefeated {
                enemy: *enemy,
                by: *by,
                code: code.clone(),
            },
            TimingEvent::RoundEnded => TimingEvent::RoundEnded,
            TimingEvent::EndOfTurn { investigator } => TimingEvent::EndOfTurn { investigator: *investigator },
            TimingEvent::GameEnd => TimingEvent::GameEnd,
            TimingEvent::EliminationGameEnd { investigator } => TimingEvent::EliminationGameEnd {
                investigator: *investigator,
            },
            TimingEvent::EnemyAttackDamagedSelf { asset, enemy, controller } => TimingEvent::EnemyAttackDamagedSelf {
                asset: *asset,
                enemy: *enemy,
                controller: *controller,
            },
            TimingEvent::SkillTestResolved { investigator, kind, outcome } => TimingEvent::SkillTestResolved {
                investigator: *investigator,
                kind: *kind,
                outcome: *outcome,
            },
            TimingEvent::EnemyAttacks { enemy, investigator } => TimingEvent::EnemyAttacks {
                enemy: *enemy,
                investigator: *investigator,
            },
            TimingEvent::WouldDiscoverClues { investigator, location, count } => TimingEvent::WouldDiscoverClues {
                investigator: *investigator,
                location: *location,
                count: *count,
            },
            TimingEvent::EnteredPlay { instance, controller } => TimingEvent::EnteredPlay {
                instance: *instance,
                controller: *controller,
            },
            TimingEvent::LeftLocation { investigator, location } => TimingEvent::LeftLocation {
                investigator: *investigator,
                location: *location,
            },
        }
    }

    /// The forced dispatch point for this timing event, if it fires forced
    /// abilities.
    pub fn forced_point(&self) -> (r: Option<ForcedTriggerPoint>)
        ensures
            r == forced_point_of(*self),
    {
        match self {
            TimingEvent::EnteredLocation { investigator, location } => Some(
                ForcedTriggerPoint::EnteredLocation {
                    investigator: *investigator,
                    location: *location,
                },
            ),
            TimingEvent::PhaseEnded { phase } => Some(
                ForcedTriggerPoint::PhaseEnded { phase: *phase },
            ),
            TimingEvent::ActAdvanced { code } => Some(
                ForcedTriggerPoint::ActAdvanced { code: code.clone() },
            ),
            TimingEvent::AgendaAdvanced { code } => Some(
                ForcedTriggerPoint::AgendaAdvanced { code: code.clone() },
            ),
            TimingEvent::EnemyDefeated { code, .. } => Some(
                ForcedTriggerPoint::EnemyDefeated { code: code.clone() },
            ),
            TimingEvent::RoundEnded => Some(ForcedTriggerPoint::RoundEnded),
            TimingEvent::EndOfTurn { investigator } => Some(
                ForcedTriggerPoint::EndOfTurn { investigator: *investigator },
            ),
            TimingEvent::GameEnd => Some(ForcedTriggerPoint::GameEnd),
            TimingEvent::EliminationGameEnd { investigator } => Some(
                ForcedTriggerPoint::EliminationGameEnd { investigator: *investigator },
            ),
            TimingEvent::SkillTestResolved { investigator, kind, outcome } => Some(
                ForcedTriggerPoint::SkillTestResolved {
                    investigator: *investigator,
                    kind: *kind,
                    outcome: *outcome,
                },
            ),
            TimingEvent::LeftLocation { investigator, location } => Some(
                ForcedTriggerPoint::LeftLocation {
                    investigator: *investigator,
                    location: *location,
                },
            ),
            TimingEvent::EnemyAttackDamagedSelf { .. } => None,
            TimingEvent::EnemyAttacks { .. } => None,
            TimingEvent::EnteredPlay { .. } => None,
            TimingEvent::WouldDiscoverClues { .. } => None,
        }
    }

    /// The timing cell this event's reaction window opens in.
    pub fn reaction_bucket(&self) -> (r: EventTiming)
        ensures
            r == reaction_bucket_of(*self),
    {
        match self {
            TimingEvent::EnemyAttacks { .. } => EventTiming::When,
            TimingEvent::WouldDiscoverClues { .. } => EventTiming::When,
            TimingEvent::RoundEnded => EventTiming::When,
            _ => EventTiming::After,
        }
    }

    /// Who resolves this triggering condition's own impact.
    pub fn condition_resolution(&self) -> (r: ConditionResolution)
        ensures
            r == condition_resolution_of(*self),
    {
        match self {
            TimingEvent::RoundEnded => ConditionResolution::Coordinator,
            TimingEvent::EnteredLocation { .. } => ConditionResolution::Caller,
            TimingEvent::PhaseEnded { .. } => ConditionResolution::Caller,
            TimingEvent::ActAdvanced { .. } => ConditionResolution::Caller,
            TimingEvent::AgendaAdvanced { .. } => ConditionResolution::Caller,
            TimingEvent::EnemyDefeated { .. } => ConditionResolution::Caller,
            TimingEvent::EndOfTurn { .. } => ConditionResolution::Caller,
            TimingEvent::GameEnd => ConditionResolution::Caller,
            TimingEvent::EliminationGameEnd { .. } => ConditionResolution::Caller,
            TimingEvent::EnemyAttackDamagedSelf { .. } => ConditionResolution::Caller,
            TimingEvent::SkillTestResolved { .. } => ConditionResolution::Caller,
            TimingEvent::EnemyAttacks { .. } => ConditionResolution::Caller,
            TimingEvent::WouldDiscoverClues { .. } => ConditionResolution::Caller,
            TimingEvent::EnteredPlay { .. } => ConditionResolution::Caller,
            TimingEvent::LeftLocation { .. } => ConditionResolution::Caller,
        }
    }

    /// Whether this timing event opens a reaction window.
    pub fn opens_reaction_window(&self) -> (r: bool)
        ensures
            r == opens_reaction_window_spec(*self),
    {
        match self {
            TimingEvent::EnemyDefeated { .. } => true,
            TimingEvent::EnemyAttackDamagedSelf { .. } => true,
            TimingEvent::SkillTestResolved { .. } => true,
            TimingEvent::EnemyAttacks { .. } => true,
            TimingEvent::WouldDiscoverClues { .. } => true,
            TimingEvent::EnteredPlay { .. } => true,
            _ => false,
        }
    }
}

} // verus!
