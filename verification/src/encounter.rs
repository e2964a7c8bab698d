//! Encounter cards: revealing a drawn card, its revelation abilities, and
//! spawning enemies (Rules Reference p.24 step 1.4, p.10 engagement).
use vstd::prelude::*;

use crate::cards::{metadata_of, abilities_of, kind_type, Ability, CardKind, CardMetadata, CardRegistry, CardType, Effect, EnemyStats, HealthValue};
use crate::cursor::{active_at_in, active_investigators_at};
use crate::engagement::engage_enemy_with;
use crate::outcome::{ChoiceOption, EngineOutcome, Event, InputRequest, OptionTarget, PromptKind, Reject};
use crate::prey::{best_in, resolve_prey, PreyResolution};
use crate::queue::{effect_result, resolve_effect};
use crate::seqs::{lemma_filter_step, lemma_take_full};
use crate::cursor::{location_of, next_active_after_of, next_active_investigator_after};
use crate::deck::{draw_encounter_top, draw_result, shuffle_encounter_deck, shuffled};
use crate::state::{has_enemy, enemy_index, lemma_enemy_index, PhaseStep, Phase};
use crate::hunters::engaged_off_frame;
use crate::outcome::InputResponse;
use crate::state::{
    enemy_ids_distinct, first_location_with_code, has_location_code, CardCode, Continuation, Enemy,
    EnemyId, GameState, InvestigatorId, LocationId, SpawnEngagePending,
};

verus! {

/// The effects of the revelation abilities among `abs`, in printed order.
pub open spec fn revelation_effects(abs: Seq<Ability>) -> Seq<Effect> {
    abs.filter(|a: Ability| a.trigger is Revelation).map_values(|a: Ability| a.effect)
}

/// Resolving `effs` one after another for `controller`, from (`s`, `e0`)
/// to (`f`, `e1`).
pub open spec fn effects_result(
    s: GameState,
    f: GameState,
    e0: Seq<Event>,
    e1: Seq<Event>,
    effs: Seq<Effect>,
    controller: InvestigatorId,
) -> bool
    decreases effs.len(),
{
    if effs.len() == 0 {
        f == s && e1 == e0
    } else {
        exists|m: GameState, em: Seq<Event>|
            {
                &&& m.wf()
                &&& effects_result(s, m, e0, em, effs.drop_last(), controller)
                &&& effect_result(m, f, em, e1, effs.last(), controller)
            }
    }
}

/// The revelation effects printed on `code` in the installed corpus.
fn revelation_effects_of(state: &GameState, code: &CardCode) -> (r: Vec<Effect>)
    ensures
        r@ == revelation_effects(abilities_of(state.registry, code@)),
{
    let mut out: Vec<Effect> = Vec::new();
    let Some(reg) = &state.registry else {
        proof {
            assert(Seq::<Ability>::empty().filter(|a: Ability| a.trigger is Revelation) =~= Seq::<Ability>::empty());
            assert(out@ =~= revelation_effects(Seq::<Ability>::empty()));
        }
        return out;
    };
    let Some(m) = reg.metadata_for(code.as_str()) else {
        proof {
            assert(Seq::<Ability>::empty().filter(|a: Ability| a.trigger is Revelation) =~= Seq::<Ability>::empty());
            assert(out@ =~= revelation_effects(Seq::<Ability>::empty()));
        }
        return out;
    };
    let ghost p = |a: Ability| a.trigger is Revelation;
    let mut i: usize = 0;
    while i < m.abilities.len()
        invariant
            i <= m.abilities@.len(),
            p == (|a: Ability| a.trigger is Revelation),
            out@ == m.abilities@.take(i as int).filter(p).map_values(|a: Ability| a.effect),
        decreases m.abilities@.len() - i,
    {
        proof {
            lemma_filter_step(m.abilities@, p, i as int);
        }
        if let crate::cards::Trigger::Revelation = m.abilities[i].trigger {
            out.push(m.abilities[i].effect);
            proof {
                assert(out@ =~= m.abilities@.take(i + 1).filter(p).map_values(|a: Ability| a.effect));
            }
        }
        i += 1;
    }
    proof {
        lemma_take_full(m.abilities@);
    }
    out
}

/// Resolve `effs` in order for `controller`.
fn resolve_effects(state: &mut GameState, events: &mut Vec<Event>, effs: &Vec<Effect>, controller: InvestigatorId)
    requires
        old(state).wf(),
    ensures
        final(state).wf(),
        effects_result(*old(state), *final(state), old(events)@, final(events)@, effs@, controller),
{
    let ghost s0 = *state;
    let ghost ev0 = events@;
    let mut i: usize = 0;
    while i < effs.len()
        invariant
            i <= effs@.len(),
            state.wf(),
            effects_result(s0, *state, ev0, events@, effs@.take(i as int), controller),
        decreases effs@.len() - i,
    {
        let ghost m = *state;
        let ghost em = events@;
        resolve_effect(state, events, effs[i], controller);
        proof {
            assert(effs@.take(i + 1).drop_last() =~= effs@.take(i as int));
            assert(effs@.take(i + 1).last() == effs@[i as int]);
        }
        i += 1;
    }
    proof {
        lemma_take_full(effs@);
    }
}

/// The health an enemy printed with `h` enters play with among `n`
/// investigators: fixed, scaled per investigator (the count capped at the
/// `u8` maximum, the product saturating), or 1 when unprinted.
pub open spec fn spawn_health(h: Option<HealthValue>, n: nat) -> u8 {
    match h {
        Some(HealthValue::Fixed(v)) => v,
        Some(HealthValue::PerInvestigator(v)) => {
            let count = if n > 255 { 255 } else { n };
            if v * count > 255 { 255 } else { (v * count) as u8 }
        },
        None => 1,
    }
}

/// A printed stat as a signed-range value (capped at 127).
pub open spec fn stat_cap(v: u8) -> u8 {
    if v > 127 { 127 } else { v }
}

/// Whether `e` is the enemy minted from `stats` as `id` with `code` at `loc`
/// among `n` investigators: ready, undamaged, unengaged.
pub open spec fn minted_enemy(
    e: Enemy,
    id: EnemyId,
    code: CardCode,
    m: CardMetadata,
    stats: EnemyStats,
    n: nat,
    loc: LocationId,
) -> bool {
    &&& e.id == id
    &&& e.code == code
    &&& e.fight == stat_cap(stats.fight)
    &&& e.evade == stat_cap(stats.evade)
    &&& e.max_health == spawn_health(stats.health, n)
    &&& e.damage == 0
    &&& e.attack_damage == stats.damage
    &&& e.attack_horror == stats.horror
    &&& e.current_location == Some(loc)
    &&& !e.exhausted
    &&& e.traits@ == m.traits@
    &&& e.hunter == stats.hunter
    &&& e.prey == stats.prey
    &&& e.retaliate == stats.retaliate
    &&& e.victory == stats.victory
}

/// The investigators a spawned enemy with `stats` at `loc` could engage:
/// the prey-best `Active` investigators there, in turn order.
pub open spec fn spawn_candidates(s: GameState, stats: EnemyStats, loc: LocationId) -> Seq<InvestigatorId> {
    best_in(s.investigators@, s.registry, stats.prey, active_at_in(s.investigators@, s.turn_order@, loc))
}

/// The options of an engagement prompt over `cands`: option `j` names
/// investigator `j`.
pub open spec fn investigator_options(cands: Seq<InvestigatorId>) -> Seq<ChoiceOption> {
    Seq::new(cands.len(), |j: int| ChoiceOption { id: j as u32, target: Some(OptionTarget::Investigator(cands[j])) })
}

/// One option per tied investigator.
pub fn investigator_choice_options(cands: &Vec<InvestigatorId>) -> (r: Vec<ChoiceOption>)
    requires
        cands@.len() <= u32::MAX,
    ensures
        r@ == investigator_options(cands@),
{
    let mut out: Vec<ChoiceOption> = Vec::new();
    let mut j: usize = 0;
    while j < cands.len()
        invariant
            j <= cands@.len(),
            cands@.len() <= u32::MAX,
            out@ == investigator_options(cands@).take(j as int),
        decreases cands@.len() - j,
    {
        out.push(ChoiceOption { id: j as u32, target: Some(OptionTarget::Investigator(cands[j])) });
        proof {
            assert(out@ =~= investigator_options(cands@).take(j + 1));
        }
        j += 1;
    }
    proof {
        assert(out@ =~= investigator_options(cands@));
    }
    out
}

/// The one investigator a spawned enemy engages at once, if the prey-best
/// set is a single investigator.
pub open spec fn sole_target(best: Seq<InvestigatorId>) -> Option<InvestigatorId> {
    if best.len() == 1 {
        Some(best[0])
    } else {
        None
    }
}

/// What minting the enemy card `code` (printed `m`, with enemy stats
/// `stats`) at `loc` does, from (`s`, `e0`) to (`f`, `e1`) with outcome
/// `r`: the enemy enters play under the next enemy id and `EnemySpawned` is
/// announced; a sole prey-best investigator there is engaged at once; two
/// or more tie and suspend on the lead's pick, remembered on a frame with
/// the drawing investigator and the card's surge.
pub open spec fn spawn_result(
    s: GameState,
    f: GameState,
    e0: Seq<Event>,
    e1: Seq<Event>,
    r: EngineOutcome,
    drawer: InvestigatorId,
    code: CardCode,
    m: CardMetadata,
    stats: EnemyStats,
    loc: LocationId,
) -> bool {
    let id = EnemyId(s.next_enemy_id);
    let best = spawn_candidates(s, stats, loc);
    let spawned = e0.push(
        Event::EnemySpawned { enemy: id, code, location: loc, engaged_with: sole_target(best) },
    );
    if s.next_enemy_id == u32::MAX || best.len() > u32::MAX {
        f == s && e1 == e0 && r == (EngineOutcome::Rejected { reason: Reject::DriveLimit })
    } else {
        &&& f.next_enemy_id == s.next_enemy_id + 1
        &&& f.enemies@.len() == s.enemies@.len() + 1
        &&& f.enemies@.drop_last() == s.enemies@
        &&& minted_enemy(f.enemies@.last(), id, code, m, stats, s.investigators@.len(), loc)
        &&& f.enemies@.last().engaged_with == sole_target(best)
        &&& if best.len() < 2 {
            &&& f == (GameState { enemies: f.enemies, next_enemy_id: f.next_enemy_id, ..s })
            &&& r is Done
            &&& e1 == spawned + if best.len() == 1 {
                seq![Event::EnemyEngaged { enemy: id, investigator: best[0] }]
            } else {
                Seq::empty()
            }
        } else {
            &&& f == (GameState {
                enemies: f.enemies,
                next_enemy_id: f.next_enemy_id,
                continuations: f.continuations,
                ..s
            })
            &&& f.continuations@.drop_last() == s.continuations@
            &&& f.continuations@.len() == s.continuations@.len() + 1
            &&& f.continuations@.last() matches Continuation::SpawnEngage(p) && p.enemy == id
                && p.investigator_to_draw == drawer && p.candidates@ == best && p.surge == m.surge
                && p.chain_count == 0
            &&& r matches EngineOutcome::AwaitingInput { request } && request.kind
                == PromptKind::SpawnEngage(id) && request.options@ == investigator_options(best)
            &&& e1 == spawned
        }
    }
}

/// `v` capped at 127.
fn cap_stat(v: u8) -> (r: u8)
    ensures
        r == stat_cap(v),
{
    if v > 127 {
        127
    } else {
        v
    }
}

/// The health an enemy printed with `h` enters play with among `n`
/// investigators.
fn health_for(h: Option<HealthValue>, n: usize) -> (r: u8)
    ensures
        r == spawn_health(h, n as nat),
{
    match h {
        Some(HealthValue::Fixed(v)) => v,
        Some(HealthValue::PerInvestigator(v)) => {
            let count: u16 = if n > 255 {
                255
            } else {
                n as u16
            };
            assert(v * count <= 255 * 255) by (nonlinear_arith)
                requires
                    v <= 255,
                    count <= 255,
            ;
            let p: u16 = v as u16 * count;
            if p > 255 {
                255
            } else {
                p as u8
            }
        },
        None => 1,
    }
}

/// Mint an enemy from `metadata` at `location`, resolving engagement on
/// spawn by prey: nobody there leaves it unengaged, one prey-best
/// investigator is engaged at once, and a tie suspends on the lead's pick.
/// `drawer` is the drawing (or controlling) investigator, carried into the
/// tie's resume. A card that is not an enemy is refused, and so is a spawn
/// once the enemy ids are used up.
pub fn spawn_enemy_at(
    state: &mut GameState,
    events: &mut Vec<Event>,
    drawer: InvestigatorId,
    code: CardCode,
    metadata: &CardMetadata,
    location: LocationId,
) -> (r: EngineOutcome)
    requires
        old(state).wf(),
    ensures
        final(state).wf(),
        match metadata.kind {
            CardKind::Enemy(stats) => spawn_result(
                *old(state),
                *final(state),
                old(events)@,
                final(events)@,
                r,
                drawer,
                code,
                *metadata,
                stats,
                location,
            ),
            _ => *final(state) == *old(state) && final(events)@ == old(events)@ && r == (
            EngineOutcome::Rejected { reason: Reject::NotAnEnemy }),
        },
{
    let stats = match &metadata.kind {
        CardKind::Enemy(st) => st,
        _ => {
            return EngineOutcome::Rejected { reason: Reject::NotAnEnemy };
        },
    };
    let ghost s0 = *state;
    if state.next_enemy_id == u32::MAX {
        return EngineOutcome::Rejected { reason: Reject::DriveLimit };
    }
    let candidates = active_investigators_at(state, location);
    let resolution = resolve_prey(state, stats.prey, &candidates);
    if let PreyResolution::Tie(tied) = &resolution {
        if tied.len() > 0xFFFF_FFFF {
            return EngineOutcome::Rejected { reason: Reject::DriveLimit };
        }
    }
    let id = EnemyId(state.next_enemy_id);
    state.next_enemy_id = state.next_enemy_id + 1;
    let engaged_now = match &resolution {
        PreyResolution::One(t) => Some(*t),
        _ => None,
    };
    let enemy = Enemy {
        id,
        code: code.clone(),
        fight: cap_stat(stats.fight),
        evade: cap_stat(stats.evade),
        max_health: health_for(stats.health, state.investigators.len()),
        damage: 0,
        attack_damage: stats.damage,
        attack_horror: stats.horror,
        current_location: Some(location),
        exhausted: false,
        traits: crate::cards::copy_names(&metadata.traits),
        engaged_with: None,
        hunter: stats.hunter,
        prey: stats.prey,
        retaliate: stats.retaliate,
        victory: stats.victory,
    };
    state.enemies.push(enemy);
    proof {
        assert(state.enemies@.drop_last() =~= s0.enemies@);
        assert(enemy_ids_distinct(state.enemies@)) by {
            assert forall|a: int, b: int|
                0 <= a < state.enemies@.len() && 0 <= b < state.enemies@.len() && a != b implies state.enemies@[a].id
                != state.enemies@[b].id by {
                if a < s0.enemies@.len() && b < s0.enemies@.len() {
                    assert(state.enemies@[a] == s0.enemies@[a]);
                    assert(state.enemies@[b] == s0.enemies@[b]);
                } else if a < s0.enemies@.len() {
                    assert(state.enemies@[a] == s0.enemies@[a]);
                } else {
                    assert(state.enemies@[b] == s0.enemies@[b]);
                }
            }
        }
        assert forall|t: int| 0 <= t < state.enemies@.len() implies state.enemies@[t].id.0
            < state.next_enemy_id by {
            if t < s0.enemies@.len() {
                assert(state.enemies@[t] == s0.enemies@[t]);
            }
        }
        crate::state::lemma_enemy_index(state.enemies@, id, s0.enemies@.len() as int);
    }
    events.push(Event::EnemySpawned { enemy: id, code, location, engaged_with: engaged_now });
    match resolution {
        PreyResolution::Nobody => {
            proof {
                let best = spawn_candidates(s0, *stats, location);
                assert(best.len() == 0);
                assert(events@ =~= events@ + Seq::<Event>::empty());
                assert(*state == (GameState { enemies: state.enemies, next_enemy_id: state.next_enemy_id, ..s0 }));
                assert(minted_enemy(state.enemies@.last(), id, code, *metadata, *stats, s0.investigators@.len(), location));
                assert(sole_target(best) is None);
                assert(events@ == old(events)@.push(Event::EnemySpawned { enemy: id, code, location, engaged_with: sole_target(best) }));
                assert(state.enemies@.last().engaged_with == sole_target(best));
                assert(state.enemies@.len() == s0.enemies@.len() + 1);
                assert(state.next_enemy_id == s0.next_enemy_id + 1);
                assert(spawn_result(s0, *state, old(events)@, events@, EngineOutcome::Done, drawer, code, *metadata, *stats, location));
            }
            EngineOutcome::Done
        },
        PreyResolution::One(target) => {
            let ghost before = *state;
            engage_enemy_with(state, events, id, target);
            proof {
                assert(state.enemies@.drop_last() =~= s0.enemies@);
                let best = spawn_candidates(s0, *stats, location);
                assert(best.len() == 1 && best[0] == target);
                assert(events@ =~= old(events)@.push(Event::EnemySpawned { enemy: id, code, location, engaged_with: sole_target(best) }) + seq![Event::EnemyEngaged { enemy: id, investigator: best[0] }]);
                assert(state.enemies@.last() == Enemy { engaged_with: Some(target), ..before.enemies@.last() });
                assert(minted_enemy(state.enemies@.last(), id, code, *metadata, *stats, s0.investigators@.len(), location));
                assert(*state == (GameState { enemies: state.enemies, next_enemy_id: state.next_enemy_id, ..s0 }));
                assert(spawn_result(s0, *state, old(events)@, events@, EngineOutcome::Done, drawer, code, *metadata, *stats, location));
            }
            EngineOutcome::Done
        },
        PreyResolution::Tie(tied) => {
            let options = investigator_choice_options(&tied);
            state.continuations.push(
                Continuation::SpawnEngage(
                    SpawnEngagePending {
                        enemy: id,
                        investigator_to_draw: drawer,
                        candidates: tied,
                        surge: metadata.surge,
                        chain_count: 0,
                    },
                ),
            );
            proof {
                assert(state.continuations@.drop_last() =~= s0.continuations@);
            }
            EngineOutcome::AwaitingInput {
                request: InputRequest { kind: PromptKind::SpawnEngage(id), options, target: None },
            }
        },
    }
}

/// Where an enemy with `stats` drawn by `drawer` spawns: the in-play
/// location its spawn instruction names, or else the drawer's location.
pub open spec fn spawn_location(s: GameState, drawer: InvestigatorId, stats: EnemyStats) -> Option<LocationId> {
    match stats.spawn {
        Some(c) => if has_location_code(s.locations@, c@) {
            Some(s.locations@[first_location_with_code(s.locations@, c@)].id)
        } else {
            None
        },
        None => location_of(s.investigators@, drawer),
    }
}

/// What spawning the drawn enemy card `code` does: refused when it is not
/// an enemy or has nowhere to spawn (its named location is not in play, or
/// the drawer stands nowhere); otherwise it is minted there.
pub open spec fn spawn_enemy_result(
    s: GameState,
    f: GameState,
    e0: Seq<Event>,
    e1: Seq<Event>,
    r: EngineOutcome,
    drawer: InvestigatorId,
    code: CardCode,
    m: CardMetadata,
) -> bool {
    match m.kind {
        CardKind::Enemy(stats) => match spawn_location(s, drawer, stats) {
            None => f == s && e1 == e0 && r == (EngineOutcome::Rejected {
                reason: if stats.spawn is Some {
                    Reject::LocationNotInPlay
                } else {
                    Reject::NoSpawnLocation
                },
            }),
            Some(loc) => spawn_result(s, f, e0, e1, r, drawer, code, m, stats, loc),
        },
        _ => f == s && e1 == e0 && r == (EngineOutcome::Rejected { reason: Reject::NotAnEnemy }),
    }
}

/// Spawn a drawn encounter enemy per its spawn instruction: at the in-play
/// location it names, or (with none) engaged-or-not at the drawing
/// investigator's location. Refused, changing nothing, when it has nowhere
/// to spawn.
pub fn spawn_enemy(
    state: &mut GameState,
    events: &mut Vec<Event>,
    drawer: InvestigatorId,
    code: CardCode,
    metadata: &CardMetadata,
) -> (r: EngineOutcome)
    requires
        old(state).wf(),
    ensures
        final(state).wf(),
        spawn_enemy_result(*old(state), *final(state), old(events)@, final(events)@, r, drawer, code, *metadata),
{
    let stats = match &metadata.kind {
        CardKind::Enemy(st) => st,
        _ => {
            return EngineOutcome::Rejected { reason: Reject::NotAnEnemy };
        },
    };
    let location = match &stats.spawn {
        Some(loc_code) => match state.location_id_by_code(loc_code.as_str()) {
            Some(l) => l,
            None => {
                return EngineOutcome::Rejected { reason: Reject::LocationNotInPlay };
            },
        },
        None => match crate::cursor::investigator_location(state, drawer) {
            Some(l) => l,
            None => {
                return EngineOutcome::Rejected { reason: Reject::NoSpawnLocation };
            },
        },
    };
    spawn_enemy_at(state, events, drawer, code, metadata, location)
}

/// What resolving the drawn encounter card `code` (printed `m`) does for
/// `investigator`: `CardRevealed` is announced first; a treachery's
/// revelation effects resolve and it goes to the encounter discard; an
/// enemy's revelation effects resolve and it spawns; any other type is
/// refused. Without card data the resolution is refused after the reveal.
pub open spec fn encounter_result(
    s: GameState,
    f: GameState,
    e0: Seq<Event>,
    e1: Seq<Event>,
    r: EngineOutcome,
    investigator: InvestigatorId,
    code: CardCode,
    m: CardMetadata,
) -> bool {
    let t = kind_type(m.kind);
    let revealed = e0.push(Event::CardRevealed { investigator, code, card_type: t });
    let effs = revelation_effects(abilities_of(s.registry, code@));
    if t != CardType::Treachery && t != CardType::Enemy {
        f == s && e1 == revealed && r == (EngineOutcome::Rejected { reason: Reject::InvalidEncounterCardType })
    } else if s.registry is None {
        f == s && e1 == revealed && r == (EngineOutcome::Rejected { reason: Reject::NoRegistry })
    } else {
        exists|mid: GameState, em: Seq<Event>|
            {
                &&& mid.wf()
                &&& effects_result(s, mid, revealed, em, effs, investigator)
                &&& if t == CardType::Treachery {
                    &&& f == (GameState { encounter_discard: f.encounter_discard, ..mid })
                    &&& f.encounter_discard@ == mid.encounter_discard@.push(code)
                    &&& e1 == em
                    &&& r is Done
                } else {
                    spawn_enemy_result(mid, f, em, e1, r, investigator, code, m)
                }
            }
    }
}

/// Resolve an already-drawn encounter card: announce `CardRevealed` (before
/// anything resolves), then a treachery's revelation abilities and its
/// discard, or an enemy's revelation abilities and its spawn. Encounter
/// decks hold only treacheries and enemies; any other type is refused.
pub fn resolve_encounter_card(
    state: &mut GameState,
    events: &mut Vec<Event>,
    investigator: InvestigatorId,
    code: CardCode,
    metadata: &CardMetadata,
) -> (r: EngineOutcome)
    requires
        old(state).wf(),
    ensures
        final(state).wf(),
        encounter_result(*old(state), *final(state), old(events)@, final(events)@, r, investigator, code, *metadata),
{
    let card_type = metadata.card_type();
    events.push(Event::CardRevealed { investigator, code: code.clone(), card_type });
    match card_type {
        CardType::Treachery => {
            if state.registry.is_none() {
                return EngineOutcome::Rejected { reason: Reject::NoRegistry };
            }
            let effs = revelation_effects_of(state, &code);
            resolve_effects(state, events, &effs, investigator);
            state.encounter_discard.push(code);
            EngineOutcome::Done
        },
        CardType::Enemy => {
            if state.registry.is_none() {
                return EngineOutcome::Rejected { reason: Reject::NoRegistry };
            }
            let effs = revelation_effects_of(state, &code);
            resolve_effects(state, events, &effs, investigator);
            spawn_enemy(state, events, investigator, code, metadata)
        },
        _ => EngineOutcome::Rejected { reason: Reject::InvalidEncounterCardType },
    }
}

/// Whether some entry of `v` is the code `c`.
pub open spec fn holds_code(v: Seq<CardCode>, c: Seq<char>) -> bool {
    exists|i: int| 0 <= i < v.len() && v[i]@ == c
}

/// The first position of the code `c` in `v`.
pub open spec fn first_code_index(v: Seq<CardCode>, c: Seq<char>) -> int {
    choose|i: int| 0 <= i < v.len() && v[i]@ == c && forall|j: int| 0 <= j < i ==> v[j]@ != c
}

/// The first position of `code` in `v`, if it is there.
pub fn position_of(v: &Vec<CardCode>, code: &str) -> (r: Option<usize>)
    ensures
        match r {
            Some(i) => holds_code(v@, code@) && i == first_code_index(v@, code@) && i < v@.len()
                && v@[i as int]@ == code@,
            None => !holds_code(v@, code@),
        },
{
    let wanted = code.to_owned();
    let mut i: usize = 0;
    while i < v.len()
        invariant
            i <= v@.len(),
            wanted@ == code@,
            forall|j: int| 0 <= j < i ==> v@[j]@ != code@,
        decreases v@.len() - i,
    {
        if v[i] == wanted {
            proof {
                let k = first_code_index(v@, code@);
                assert(holds_code(v@, code@));
                assert(0 <= k < v@.len() && v@[k]@ == code@ && forall|j: int| 0 <= j < k ==> v@[j]@ != code@);
                if k < i {
                } else if k > i {
                    assert(v@[i as int]@ != code@);
                }
            }
            return Some(i);
        }
        i += 1;
    }
    None
}

/// An enemy entering play from a set-aside zone (the enemies' zone when
/// `enemies_zone`, else the cards' zone) at the location `target`: the code
/// at `idx` leaves the zone and the enemy is minted there, a tie carried for
/// `lead`.
#[verifier::opaque]
pub open spec fn aside_enemy_spawn(
    enemies_zone: bool,
    s: GameState,
    f: GameState,
    e0: Seq<Event>,
    e1: Seq<Event>,
    r: EngineOutcome,
    idx: int,
    m: CardMetadata,
    stats: EnemyStats,
    target: LocationId,
    lead: InvestigatorId,
) -> bool {
    let code = if enemies_zone {
        s.set_aside_enemies@[idx]
    } else {
        s.set_aside_cards@[idx]
    };
    exists|mid: GameState|
        #![trigger zone_taken(enemies_zone, s, mid, idx)]
        {
            &&& zone_taken(enemies_zone, s, mid, idx)
            &&& spawn_result(mid, f, e0, e1, r, lead, code, m, stats, target)
        }
}

/// `mid` is `s` with the code at `idx` taken out of a set-aside zone (the
/// enemies' zone when `enemies_zone`, else the cards' zone).
pub open spec fn zone_taken(enemies_zone: bool, s: GameState, mid: GameState, idx: int) -> bool {
    if enemies_zone {
        &&& mid == (GameState { set_aside_enemies: mid.set_aside_enemies, ..s })
        &&& mid.set_aside_enemies@ == s.set_aside_enemies@.remove(idx)
    } else {
        &&& mid == (GameState { set_aside_cards: mid.set_aside_cards, ..s })
        &&& mid.set_aside_cards@ == s.set_aside_cards@.remove(idx)
    }
}

/// Take the code at `pos` out of a set-aside zone and mint its enemy at
/// `location` (see [`aside_enemy_spawn`]).
pub fn spawn_aside_enemy_at(
    state: &mut GameState,
    events: &mut Vec<Event>,
    enemies_zone: bool,
    pos: usize,
    location: LocationId,
    lead: InvestigatorId,
    metadata: &CardMetadata,
    Ghost(printed): Ghost<CardMetadata>,
) -> (r: EngineOutcome)
    requires
        old(state).wf(),
        enemies_zone ==> pos < old(state).set_aside_enemies@.len(),
        !enemies_zone ==> pos < old(state).set_aside_cards@.len(),
        metadata.kind is Enemy,
        printed.kind == metadata.kind,
        printed.traits@ == metadata.traits@,
        printed.surge == metadata.surge,
    ensures
        final(state).wf(),
        aside_enemy_spawn(
            enemies_zone,
            *old(state),
            *final(state),
            old(events)@,
            final(events)@,
            r,
            pos as int,
            printed,
            printed.kind->0,
            location,
            lead,
        ),
{
    reveal(aside_enemy_spawn);
    let ghost s0 = *state;
    let card = if enemies_zone {
        state.set_aside_enemies.remove(pos)
    } else {
        state.set_aside_cards.remove(pos)
    };
    let ghost mid = *state;
    let r = spawn_enemy_at(state, events, lead, card, metadata, location);
    proof {
        let stats = metadata.kind->0;
        let zone = if enemies_zone {
            s0.set_aside_enemies@
        } else {
            s0.set_aside_cards@
        };
        assert(spawn_result(mid, *state, old(events)@, events@, r, lead, zone[pos as int], *metadata, stats, location));
        assert(spawn_result(mid, *state, old(events)@, events@, r, lead, zone[pos as int], printed, stats, location));
        assert(zone_taken(enemies_zone, s0, mid, pos as int));
        assert(aside_enemy_spawn(enemies_zone, s0, *state, old(events)@, events@, r, pos as int, printed, stats, location, lead));
    }
    r
}

/// What bringing the set-aside enemy `ecode` into play at the location
/// printed `lcode` does for `controller`: refused, changing nothing, when
/// the code is not set aside, there is no card data or none for it, or the
/// location is not in play; otherwise the code leaves the set-aside zone and
/// the enemy is minted there.
pub open spec fn set_aside_spawn_result(
    s: GameState,
    f: GameState,
    e0: Seq<Event>,
    e1: Seq<Event>,
    r: EngineOutcome,
    controller: InvestigatorId,
    ecode: Seq<char>,
    lcode: Seq<char>,
) -> bool {
    let refused = |why: Reject| f == s && e1 == e0 && r == (EngineOutcome::Rejected { reason: why });
    if !holds_code(s.set_aside_enemies@, ecode) {
        refused(Reject::NotSetAside)
    } else if s.registry is None {
        refused(Reject::NoRegistry)
    } else if metadata_of(s.registry->0, ecode) is None {
        refused(Reject::UnknownCard)
    } else if !has_location_code(s.locations@, lcode) {
        refused(Reject::LocationNotInPlay)
    } else {
        let idx = first_code_index(s.set_aside_enemies@, ecode);
        let m = metadata_of(s.registry->0, ecode)->0;
        let loc = s.locations@[first_location_with_code(s.locations@, lcode)].id;
        match m.kind {
            CardKind::Enemy(stats) => aside_enemy_spawn(true, s, f, e0, e1, r, idx, m, stats, loc, controller),
            _ => f == s && e1 == e0 && r == (EngineOutcome::Rejected { reason: Reject::NotAnEnemy }),
        }
    }
}

/// Bring a set-aside enemy into play at the location printed
/// `location_code`, minting its stats from the corpus (per-investigator
/// health scales by the live investigator count). Every check comes first:
/// a refusal changes nothing.
pub fn spawn_set_aside_enemy(
    state: &mut GameState,
    events: &mut Vec<Event>,
    controller: InvestigatorId,
    enemy_code: &str,
    location_code: &str,
) -> (r: EngineOutcome)
    requires
        old(state).wf(),
    ensures
        final(state).wf(),
        set_aside_spawn_result(
            *old(state),
            *final(state),
            old(events)@,
            final(events)@,
            r,
            controller,
            enemy_code@,
            location_code@,
        ),
{
    let Some(pos) = position_of(&state.set_aside_enemies, enemy_code) else {
        return EngineOutcome::Rejected { reason: Reject::NotSetAside };
    };
    let metadata = match &state.registry {
        None => {
            return EngineOutcome::Rejected { reason: Reject::NoRegistry };
        },
        Some(reg) => match reg.metadata_for(enemy_code) {
            None => {
                return EngineOutcome::Rejected { reason: Reject::UnknownCard };
            },
            Some(m) => m.copy(),
        },
    };
    let Some(location) = state.location_id_by_code(location_code) else {
        return EngineOutcome::Rejected { reason: Reject::LocationNotInPlay };
    };
    if !matches!(metadata.kind, CardKind::Enemy(_)) {
        return EngineOutcome::Rejected { reason: Reject::NotAnEnemy };
    }
    spawn_aside_enemy_at(
        state,
        events,
        true,
        pos,
        location,
        controller,
        &metadata,
        Ghost(metadata_of(state.registry->0, enemy_code@)->0),
    )
}

/// The longest surge chain one Mythos draw may run; a well-formed encounter
/// deck never comes near it.
pub const MAX_SURGE_CHAIN: usize = 64;

/// What revealing the top encounter card for `investigator` does: refused
/// without card data, changing nothing; otherwise the top card is drawn
/// (reshuffling the discard in when the deck is empty), an exhausted
/// encounter universe is refused, an unknown code is refused after the
/// draw, and a known card resolves.
pub open spec fn revealed_result(
    s: GameState,
    f: GameState,
    e0: Seq<Event>,
    e1: Seq<Event>,
    r: EngineOutcome,
    investigator: InvestigatorId,
) -> bool {
    if s.registry is None {
        f == s && e1 == e0 && r == (EngineOutcome::Rejected { reason: Reject::NoRegistry })
    } else {
        exists|mid: GameState, em: Seq<Event>, drawn: Option<CardCode>|
            {
                &&& draw_result(s, mid, e0, em, drawn)
                &&& match drawn {
                    None => f == mid && e1 == em && r == (EngineOutcome::Rejected {
                        reason: Reject::EncounterDeckEmpty,
                    }),
                    Some(code) => match metadata_of(s.registry->0, code@) {
                        None => f == mid && e1 == em && r == (EngineOutcome::Rejected {
                            reason: Reject::UnknownCard,
                        }),
                        Some(m) => encounter_result(mid, f, em, e1, r, investigator, code, m),
                    },
                }
            }
    }
}

/// Reveal and resolve the top encounter card for `investigator` (outside
/// the Mythos draw chain).
pub fn encounter_card_revealed(state: &mut GameState, events: &mut Vec<Event>, investigator: InvestigatorId) -> (r:
    EngineOutcome)
    requires
        old(state).wf(),
    ensures
        final(state).wf(),
        revealed_result(*old(state), *final(state), old(events)@, final(events)@, r, investigator),
{
    if state.registry.is_none() {
        return EngineOutcome::Rejected { reason: Reject::NoRegistry };
    }
    let ghost s0 = *state;
    let Some(code) = draw_encounter_top(state, events) else {
        return EngineOutcome::Rejected { reason: Reject::EncounterDeckEmpty };
    };
    let metadata = match &state.registry {
        Some(reg) => match reg.metadata_for(code.as_str()) {
            Some(m) => m.copy(),
            None => {
                return EngineOutcome::Rejected { reason: Reject::UnknownCard };
            },
        },
        None => {
            return EngineOutcome::Rejected { reason: Reject::NoRegistry };
        },
    };
    resolve_encounter_card(state, events, investigator, code, &metadata)
}

/// Shuffle the encounter deck on the engine's record of a shuffle.
pub fn encounter_deck_shuffled(state: &mut GameState, events: &mut Vec<Event>) -> (r: EngineOutcome)
    ensures
        r is Done,
        *final(state) == (GameState {
            encounter_deck: final(state).encounter_deck,
            rng: final(state).rng,
            ..*old(state)
        }),
        (final(state).encounter_deck@, final(state).rng) == shuffled(
            old(state).encounter_deck@,
            old(state).rng,
        ),
        final(events)@ == if old(state).encounter_deck@.len() >= 2 {
            old(events)@.push(Event::EncounterDeckShuffled)
        } else {
            old(events)@
        },
{
    shuffle_encounter_deck(state, events);
    EngineOutcome::Done
}

/// The Mythos draw cursor moves past `current` to the next `Active`
/// investigator in turn order; with nobody left, the after-draws window is
/// queued.
pub open spec fn draw_cursor_moved(s: GameState, f: GameState, current: InvestigatorId) -> bool {
    &&& f.mythos_draw_pending == next_active_after_of(s, current)
    &&& f == (GameState { mythos_draw_pending: f.mythos_draw_pending, continuations: f.continuations, ..s })
    &&& f.continuations@ == if next_active_after_of(s, current) is None {
        s.continuations@.push(Continuation::FastWindow { kind: PhaseStep::MythosAfterDraws })
    } else {
        s.continuations@
    }
}

/// Move the Mythos draw cursor past `current` to the next `Active`
/// investigator in turn order; when nobody is left to draw, the
/// after-draws player window is pushed.
pub fn advance_mythos_draw_pending(state: &mut GameState, current: InvestigatorId)
    requires
        old(state).wf(),
    ensures
        final(state).wf(),
        draw_cursor_moved(*old(state), *final(state), current),
{
    let next = next_active_investigator_after(state, current);
    state.mythos_draw_pending = next;
    if next.is_none() {
        state.continuations.push(Continuation::FastWindow { kind: PhaseStep::MythosAfterDraws });
    }
}

/// One draw of a chain from `s`: the top card is drawn, has card data,
/// and resolves without suspending or refusing; `surge` is whether it
/// surges.
#[verifier::opaque]
pub open spec fn chain_draw(s: GameState, f: GameState, e0: Seq<Event>, e1: Seq<Event>, investigator: InvestigatorId, surge: bool) -> bool {
    exists|mid: GameState, em: Seq<Event>, code: CardCode|
        {
            &&& #[trigger] draw_result(s, mid, e0, em, Some(code))
            &&& mid.registry is Some
            &&& metadata_of(mid.registry->0, code@) matches Some(m) && m.surge == surge && encounter_result(
                mid,
                f,
                em,
                e1,
                EngineOutcome::Done,
                investigator,
                code,
                m,
            )
        }
}

/// Whether the chain draws again after `n` draws: at first as asked, then
/// while the last card surged.
pub open spec fn chain_more(surges: Seq<bool>, first: bool, n: int) -> bool {
    if n <= 0 {
        first
    } else {
        surges[n - 1]
    }
}

/// `st[0..=n]`, `lg[0..=n]`: the states and logs of `n` chain draws that
/// each resolved, each taken while the chain was to draw again.
pub open spec fn chain_trace(
    st: Seq<GameState>,
    lg: Seq<Seq<Event>>,
    surges: Seq<bool>,
    first: bool,
    investigator: InvestigatorId,
    n: int,
) -> bool
    decreases n,
{
    if n <= 0 {
        n == 0
    } else {
        &&& chain_trace(st, lg, surges, first, investigator, n - 1)
        &&& chain_more(surges, first, n - 1)
        &&& chain_draw(st[n - 1], st[n], lg[n - 1], lg[n], investigator, surges[n - 1])
    }
}

/// `g` with a spawn-engagement tie on top (if that is what is on top)
/// marked with the chain position `count`, so the pick resumes the chain
/// there.
pub open spec fn chain_marked(g: GameState, f: GameState, count: int) -> bool {
    if g.continuations@.len() == 0 {
        f == g
    } else {
        &&& f == (GameState { continuations: f.continuations, ..g })
        &&& f.continuations@ == g.continuations@.drop_last().push(
            match g.continuations@.last() {
                Continuation::SpawnEngage(p) => Continuation::SpawnEngage(
                    SpawnEngagePending { chain_count: count as usize, ..p },
                ),
                other => other,
            },
        )
    }
}

/// A chain draw, at position `count`, that stops the chain: the deck and
/// discard are exhausted, the card has no data, or its resolution
/// suspends (a spawn tie, marked with `count`) or is refused.
#[verifier::opaque]
pub open spec fn chain_stop(s: GameState, f: GameState, e0: Seq<Event>, e1: Seq<Event>, investigator: InvestigatorId, count: int, r: EngineOutcome) -> bool {
    exists|mid: GameState, em: Seq<Event>, d: Option<CardCode>|
        {
            &&& #[trigger] draw_result(s, mid, e0, em, d)
            &&& match d {
                None => f == mid && e1 == em && r == (EngineOutcome::Rejected { reason: Reject::EncounterDeckEmpty }),
                Some(code) => if mid.registry is None {
                    f == mid && e1 == em && r == (EngineOutcome::Rejected { reason: Reject::NoRegistry })
                } else {
                    match metadata_of(mid.registry->0, code@) {
                        None => f == mid && e1 == em && r == (EngineOutcome::Rejected { reason: Reject::UnknownCard }),
                        Some(m) => exists|g: GameState|
                            {
                                &&& #[trigger] encounter_result(mid, g, em, e1, r, investigator, code, m)
                                &&& !(r is Done)
                                &&& if r is AwaitingInput {
                                    chain_marked(g, f, count)
                                } else {
                                    f == g
                                }
                            },
                    }
                },
            }
        }
}

/// What one investigator's Mythos draw chain does from chain position
/// `count` (draw first when `first`): refused unchanged without card data
/// or past the surge cap; otherwise it draws and resolves cards while they
/// surge. It finishes by moving the draw cursor on (`Done`), or stops at
/// the surge cap (`DriveLimit`), or on a draw that stops it (see
/// [`chain_stop`]).
#[verifier::opaque]
pub open spec fn draw_chain_ran(
    s: GameState,
    f: GameState,
    e0: Seq<Event>,
    e1: Seq<Event>,
    investigator: InvestigatorId,
    count: int,
    first: bool,
    r: EngineOutcome,
) -> bool {
    if s.registry is None {
        f == s && e1 == e0 && r == (EngineOutcome::Rejected { reason: Reject::NoRegistry })
    } else if count > MAX_SURGE_CHAIN {
        f == s && e1 == e0 && r == (EngineOutcome::Rejected { reason: Reject::DriveLimit })
    } else {
        exists|st: Seq<GameState>, lg: Seq<Seq<Event>>, surges: Seq<bool>, n: int|
            {
                &&& #[trigger] chain_trace(st, lg, surges, first, investigator, n)
                &&& 0 <= n && st.len() > n && lg.len() > n && surges.len() >= n
                &&& count + n <= MAX_SURGE_CHAIN
                &&& st[0] == s && lg[0] == e0
                &&& if !chain_more(surges, first, n) {
                    draw_cursor_moved(st[n], f, investigator) && e1 == lg[n] && r is Done
                } else if count + n == MAX_SURGE_CHAIN {
                    f == st[n] && e1 == lg[n] && r == (EngineOutcome::Rejected { reason: Reject::DriveLimit })
                } else {
                    chain_stop(st[n], f, lg[n], e1, investigator, count + n + 1, r)
                }
            }
    }
}

/// Whether `c` carries the printed data of `m` (as a copy does).
pub open spec fn same_printed(c: CardMetadata, m: CardMetadata) -> bool {
    &&& c.code == m.code
    &&& c.name == m.name
    &&& c.kind == m.kind
    &&& c.traits@ == m.traits@
    &&& c.weakness == m.weakness
    &&& c.surge == m.surge
    &&& c.peril == m.peril
    &&& c.abilities@ == m.abilities@
    &&& c.back_abilities@ == m.back_abilities@
    &&& c.fast == m.fast
    &&& c.cost == m.cost
    &&& c.only_during_turn == m.only_during_turn
}

/// A draw that resolved is a chain draw.
proof fn lemma_chain_draw_intro(
    s: GameState,
    mid: GameState,
    f: GameState,
    e0: Seq<Event>,
    em: Seq<Event>,
    e1: Seq<Event>,
    investigator: InvestigatorId,
    code: CardCode,
    m: CardMetadata,
    c: CardMetadata,
)
    requires
        draw_result(s, mid, e0, em, Some(code)),
        mid.registry is Some,
        metadata_of(mid.registry->0, code@) == Some(m),
        same_printed(c, m),
        encounter_result(mid, f, em, e1, EngineOutcome::Done, investigator, code, c),
    ensures
        chain_draw(s, f, e0, e1, investigator, m.surge),
{
    reveal(chain_draw);
    assert(encounter_result(mid, f, em, e1, EngineOutcome::Done, investigator, code, m));
}

/// A draw that stops the chain, in each of the ways it can.
proof fn lemma_chain_stop_intro(
    s: GameState,
    mid: GameState,
    f: GameState,
    e0: Seq<Event>,
    em: Seq<Event>,
    e1: Seq<Event>,
    investigator: InvestigatorId,
    count: int,
    r: EngineOutcome,
    d: Option<CardCode>,
    g: GameState,
    c: CardMetadata,
)
    requires
        draw_result(s, mid, e0, em, d),
        d matches Some(code) ==> (mid.registry is Some ==> (metadata_of(mid.registry->0, code@) matches Some(m)
            ==> same_printed(c, m))),
        match d {
            None => f == mid && e1 == em && r == (EngineOutcome::Rejected { reason: Reject::EncounterDeckEmpty }),
            Some(code) => if mid.registry is None {
                f == mid && e1 == em && r == (EngineOutcome::Rejected { reason: Reject::NoRegistry })
            } else {
                match metadata_of(mid.registry->0, code@) {
                    None => f == mid && e1 == em && r == (EngineOutcome::Rejected { reason: Reject::UnknownCard }),
                    Some(m) => {
                        &&& encounter_result(mid, g, em, e1, r, investigator, code, c)
                        &&& !(r is Done)
                        &&& if r is AwaitingInput {
                            chain_marked(g, f, count)
                        } else {
                            f == g
                        }
                    },
                }
            },
        },
    ensures
        chain_stop(s, f, e0, e1, investigator, count, r),
{
    reveal(chain_stop);
    if let Some(code) = d {
        if mid.registry is Some {
            if let Some(m) = metadata_of(mid.registry->0, code@) {
                assert(encounter_result(mid, g, em, e1, r, investigator, code, m));
            }
        }
    }
}

/// A chain trace stays one when later entries are appended.
proof fn lemma_chain_trace_extend(
    st: Seq<GameState>,
    lg: Seq<Seq<Event>>,
    surges: Seq<bool>,
    first: bool,
    investigator: InvestigatorId,
    n: int,
    st2: Seq<GameState>,
    lg2: Seq<Seq<Event>>,
    surges2: Seq<bool>,
)
    requires
        chain_trace(st, lg, surges, first, investigator, n),
        0 <= n < st.len(),
        n < lg.len(),
        n <= surges.len(),
        st.len() <= st2.len(),
        lg.len() <= lg2.len(),
        surges.len() <= surges2.len(),
        forall|k: int| 0 <= k < st.len() ==> st2[k] == st[k],
        forall|k: int| 0 <= k < lg.len() ==> lg2[k] == lg[k],
        forall|k: int| 0 <= k < surges.len() ==> surges2[k] == surges[k],
    ensures
        chain_trace(st2, lg2, surges2, first, investigator, n),
    decreases n,
{
    if n > 0 {
        lemma_chain_trace_extend(st, lg, surges, first, investigator, n - 1, st2, lg2, surges2);
        assert(chain_more(surges2, first, n - 1) == chain_more(surges, first, n - 1));
    }
}

/// A chain trace that ends as [`draw_chain_ran`] describes is such a run.
proof fn lemma_draw_chain_intro(
    s: GameState,
    f: GameState,
    e0: Seq<Event>,
    e1: Seq<Event>,
    investigator: InvestigatorId,
    count: int,
    first: bool,
    r: EngineOutcome,
    st: Seq<GameState>,
    lg: Seq<Seq<Event>>,
    surges: Seq<bool>,
    n: int,
)
    requires
        s.registry is Some,
        count <= MAX_SURGE_CHAIN,
        chain_trace(st, lg, surges, first, investigator, n),
        0 <= n && st.len() > n && lg.len() > n && surges.len() >= n,
        count + n <= MAX_SURGE_CHAIN,
        st[0] == s && lg[0] == e0,
        if !chain_more(surges, first, n) {
            draw_cursor_moved(st[n], f, investigator) && e1 == lg[n] && r is Done
        } else if count + n == MAX_SURGE_CHAIN {
            f == st[n] && e1 == lg[n] && r == (EngineOutcome::Rejected { reason: Reject::DriveLimit })
        } else {
            chain_stop(st[n], f, lg[n], e1, investigator, count + n + 1, r)
        },
    ensures
        draw_chain_ran(s, f, e0, e1, investigator, count, first, r),
{
    reveal(draw_chain_ran);
}

/// One investigator's Mythos encounter draw, from chain position
/// `chain_count`: while `draw_more`, draw the top card, resolve it, and
/// draw again if it surges; then move the draw cursor on. An engagement tie
/// on a spawned enemy suspends the chain (its position is remembered on the
/// tie's frame, and the pick resumes it). Refused without card data, when
/// the encounter deck and discard are both exhausted, on an unknown code,
/// or past the surge cap.
#[verifier::spinoff_prover]
#[verifier::rlimit(60)]
pub fn run_mythos_draw_chain(
    state: &mut GameState,
    events: &mut Vec<Event>,
    investigator: InvestigatorId,
    chain_count: usize,
    draw_more: bool,
) -> (r: EngineOutcome)
    requires
        old(state).wf(),
    ensures
        final(state).wf(),
        old(state).registry is None ==> *final(state) == *old(state) && final(events)@ == old(events)@
            && r == (EngineOutcome::Rejected { reason: Reject::NoRegistry }),
        draw_chain_ran(
            *old(state),
            *final(state),
            old(events)@,
            final(events)@,
            investigator,
            chain_count as int,
            draw_more,
            r,
        ),
        r is Done ==> final(state).mythos_draw_pending == next_active_after_of(*final(state), investigator),
        r is Done && final(state).mythos_draw_pending is None ==> final(state).continuations@.len() > 0
            && final(state).continuations@.last() == (Continuation::FastWindow { kind: PhaseStep::MythosAfterDraws }),
{
    if state.registry.is_none() {
        proof {
            reveal(draw_chain_ran);
        }
        return EngineOutcome::Rejected { reason: Reject::NoRegistry };
    }
    if chain_count > MAX_SURGE_CHAIN {
        proof {
            reveal(draw_chain_ran);
        }
        return EngineOutcome::Rejected { reason: Reject::DriveLimit };
    }
    let ghost s0 = *state;
    let ghost e0 = events@;
    let ghost mut st: Seq<GameState> = seq![*state];
    let ghost mut lg: Seq<Seq<Event>> = seq![events@];
    let ghost mut surges: Seq<bool> = Seq::empty();
    let mut count = chain_count;
    let mut more = draw_more;
    while more
        invariant
            state.wf(),
            s0 == *old(state),
            e0 == old(events)@,
            s0.registry is Some,
            chain_count <= MAX_SURGE_CHAIN,
            count <= MAX_SURGE_CHAIN,
            count == chain_count + surges.len(),
            st.len() == surges.len() + 1,
            lg.len() == surges.len() + 1,
            st[0] == s0,
            lg[0] == e0,
            st[surges.len() as int] == *state,
            lg[surges.len() as int] == events@,
            more == chain_more(surges, draw_more, surges.len() as int),
            chain_trace(st, lg, surges, draw_more, investigator, surges.len() as int),
        decreases MAX_SURGE_CHAIN - count,
    {
        let ghost n = surges.len() as int;
        if count == MAX_SURGE_CHAIN {
            proof {
                lemma_draw_chain_intro(
                    s0, *state, e0, events@, investigator, chain_count as int, draw_more,
                    EngineOutcome::Rejected { reason: Reject::DriveLimit }, st, lg, surges, n,
                );
            }
            return EngineOutcome::Rejected { reason: Reject::DriveLimit };
        }
        count = count + 1;
        let ghost cur = *state;
        let ghost ecur = events@;
        let ghost mut printed: CardMetadata = arbitrary();
        let drawn = draw_encounter_top(state, events);
        let ghost mid = *state;
        let ghost em = events@;
        proof {
            assert(draw_result(cur, mid, ecur, em, drawn));
        }
        let Some(code) = drawn else {
            proof {
                lemma_chain_stop_intro(cur, mid, *state, ecur, em, events@, investigator, count as int,
                    EngineOutcome::Rejected { reason: Reject::EncounterDeckEmpty }, drawn, mid, printed);
                lemma_draw_chain_intro(
                    s0, *state, e0, events@, investigator, chain_count as int, draw_more,
                    EngineOutcome::Rejected { reason: Reject::EncounterDeckEmpty }, st, lg, surges, n,
                );
            }
            return EngineOutcome::Rejected { reason: Reject::EncounterDeckEmpty };
        };
        let metadata = match &state.registry {
            Some(reg) => match reg.metadata_for(code.as_str()) {
                Some(m) => {
                    let c = m.copy();
                    proof {
                        printed = *m;
                    }
                    c
                },
                None => {
                    proof {
                        lemma_chain_stop_intro(cur, mid, *state, ecur, em, events@, investigator, count as int,
                            EngineOutcome::Rejected { reason: Reject::UnknownCard }, drawn, mid, printed);
                        lemma_draw_chain_intro(
                            s0, *state, e0, events@, investigator, chain_count as int, draw_more,
                            EngineOutcome::Rejected { reason: Reject::UnknownCard }, st, lg, surges, n,
                        );
                    }
                    return EngineOutcome::Rejected { reason: Reject::UnknownCard };
                },
            },
            None => {
                proof {
                    lemma_chain_stop_intro(cur, mid, *state, ecur, em, events@, investigator, count as int,
                        EngineOutcome::Rejected { reason: Reject::NoRegistry }, drawn, mid, printed);
                    lemma_draw_chain_intro(
                        s0, *state, e0, events@, investigator, chain_count as int, draw_more,
                        EngineOutcome::Rejected { reason: Reject::NoRegistry }, st, lg, surges, n,
                    );
                }
                return EngineOutcome::Rejected { reason: Reject::NoRegistry };
            },
        };
        let surge = metadata.surge;
        let outcome = resolve_encounter_card(state, events, investigator, code, &metadata);
        let ghost g = *state;
        let ghost eg = events@;
        proof {
            assert(encounter_result(mid, g, em, eg, outcome, investigator, code, metadata));
        }
        match outcome {
            EngineOutcome::Done => {},
            EngineOutcome::AwaitingInput { .. } => {
                let k = state.continuations.len();
                if k > 0 {
                    let top = state.continuations.pop().unwrap();
                    let patched = match top {
                        Continuation::SpawnEngage(p) => Continuation::SpawnEngage(
                            SpawnEngagePending { chain_count: count, ..p },
                        ),
                        other => other,
                    };
                    state.continuations.push(patched);
                }
                proof {
                    assert(chain_marked(g, *state, count as int));
                    lemma_chain_stop_intro(cur, mid, *state, ecur, em, events@, investigator, count as int,
                        outcome, drawn, g, metadata);
                    lemma_draw_chain_intro(
                        s0, *state, e0, events@, investigator, chain_count as int, draw_more, outcome, st, lg, surges, n,
                    );
                }
                return outcome;
            },
            EngineOutcome::Rejected { .. } => {
                proof {
                    lemma_chain_stop_intro(cur, mid, *state, ecur, em, events@, investigator, count as int,
                        outcome, drawn, g, metadata);
                    lemma_draw_chain_intro(
                        s0, *state, e0, events@, investigator, chain_count as int, draw_more, outcome, st, lg, surges, n,
                    );
                }
                return outcome;
            },
        }
        proof {
            let st2 = st.push(*state);
            let lg2 = lg.push(events@);
            let surges2 = surges.push(surge);
            lemma_chain_trace_extend(st, lg, surges, draw_more, investigator, n, st2, lg2, surges2);
            assert(chain_more(surges2, draw_more, n) == chain_more(surges, draw_more, n));
            assert(st2[n] == cur);
            lemma_chain_draw_intro(cur, mid, *state, ecur, em, events@, investigator, code, printed, metadata);
            assert(chain_draw(st2[n], st2[n + 1], lg2[n], lg2[n + 1], investigator, surges2[n]));
            assert(chain_trace(st2, lg2, surges2, draw_more, investigator, n + 1));
            st = st2;
            lg = lg2;
            surges = surges2;
        }
        more = surge;
    }
    advance_mythos_draw_pending(state, investigator);
    proof {
        lemma_draw_chain_intro(
            s0, *state, e0, events@, investigator, chain_count as int, draw_more, EngineOutcome::Done, st, lg,
            surges, surges.len() as int,
        );
    }
    EngineOutcome::Done
}

/// What a Mythos encounter draw for `investigator` does: refused, with
/// nothing changed, outside the Mythos phase, when nobody is due to draw,
/// or when it is someone else's draw; otherwise their draw chain runs (see
/// [`draw_chain_ran`]).
pub open spec fn encounter_drawn(s: GameState, f: GameState, e0: Seq<Event>, e1: Seq<Event>, investigator: InvestigatorId, r: EngineOutcome) -> bool {
    if s.phase != Phase::Mythos {
        f == s && e1 == e0 && r == (EngineOutcome::Rejected { reason: Reject::WrongPhase })
    } else if s.mythos_draw_pending is None {
        f == s && e1 == e0 && r == (EngineOutcome::Rejected { reason: Reject::NoDrawPending })
    } else if s.mythos_draw_pending != Some(investigator) {
        f == s && e1 == e0 && r == (EngineOutcome::Rejected { reason: Reject::OutOfOrder })
    } else {
        draw_chain_ran(s, f, e0, e1, investigator, 0, true, r)
    }
}

/// A Mythos encounter draw for `investigator`: refused outside the Mythos
/// phase, when nobody is due to draw, or when it is someone else's draw;
/// otherwise their draw chain runs.
pub fn draw_encounter_card(state: &mut GameState, events: &mut Vec<Event>, investigator: InvestigatorId) -> (r:
    EngineOutcome)
    requires
        old(state).wf(),
    ensures
        final(state).wf(),
        encounter_drawn(*old(state), *final(state), old(events)@, final(events)@, investigator, r),
        r is Done ==> final(state).mythos_draw_pending == next_active_after_of(*final(state), investigator),
{
    if !matches!(state.phase, Phase::Mythos) {
        return EngineOutcome::Rejected { reason: Reject::WrongPhase };
    }
    match state.mythos_draw_pending {
        None => EngineOutcome::Rejected { reason: Reject::NoDrawPending },
        Some(expected) => if expected != investigator {
            EngineOutcome::Rejected { reason: Reject::OutOfOrder }
        } else {
            run_mythos_draw_chain(state, events, investigator, 0, true)
        },
    }
}

/// What answering a spawn-engagement tie does (see [`resume_spawn_engage`]).
pub open spec fn spawn_engage_resumed(s: GameState, f: GameState, e0: Seq<Event>, e1: Seq<Event>, response: InputResponse, r: EngineOutcome) -> bool {
    match (s.continuations@.last(), response) {
        (Continuation::SpawnEngage(p), InputResponse::PickSingle(i)) => if i < p.candidates@.len() {
            let mid_chain = s.phase == Phase::Mythos && s.mythos_draw_pending
                == Some(p.investigator_to_draw);
            let em = e0.push(Event::EnemyEngaged { enemy: p.enemy, investigator: p.candidates@[i as int] });
            exists|m: GameState|
                {
                    &&& #[trigger] engaged_off_frame(s, m, p.enemy, p.candidates@[i as int])
                    &&& if mid_chain {
                        draw_chain_ran(m, f, em, e1, p.investigator_to_draw, p.chain_count as int, p.surge, r)
                    } else {
                        f == m && e1 == em && r is Done
                    }
                }
        } else {
            f == s && e1 == e0 && r == (
            EngineOutcome::Rejected { reason: Reject::OptionOutOfRange })
        },
        (Continuation::SpawnEngage(_), _) => f == s && e1
            == e0 && r == (EngineOutcome::Rejected { reason: Reject::WrongResponseKind }),
        _ => true,
    }
}

/// Resume a spawn-engagement tie with the lead's pick: the picked tied
/// investigator is engaged and the frame pops; if the tie suspended a
/// Mythos draw chain (the drawer is still the one due to draw), the chain
/// resumes where it stopped. Another kind of answer, or a pick out of range,
/// is refused and the frame stays for a retry.
pub fn resume_spawn_engage(state: &mut GameState, events: &mut Vec<Event>, response: &InputResponse) -> (r:
    EngineOutcome)
    requires
        old(state).wf(),
        old(state).continuations@.len() > 0,
        old(state).continuations@.last() matches Continuation::SpawnEngage(p) && has_enemy(
            old(state).enemies@,
            p.enemy,
        ),
    ensures
        final(state).wf(),
        spawn_engage_resumed(*old(state), *final(state), old(events)@, final(events)@, *response, r),
{
    let i = match response {
        InputResponse::PickSingle(i) => *i,
        _ => {
            return EngineOutcome::Rejected { reason: Reject::WrongResponseKind };
        },
    };
    let n = state.continuations.len();
    let (enemy, who, drawer, count, surge) = match &state.continuations[n - 1] {
        Continuation::SpawnEngage(p) => {
            if i as usize >= p.candidates.len() {
                return EngineOutcome::Rejected { reason: Reject::OptionOutOfRange };
            }
            (p.enemy, p.candidates[i as usize], p.investigator_to_draw, p.chain_count, p.surge)
        },
        _ => {
            return EngineOutcome::Done;
        },
    };
    let ghost s0 = *state;
    state.continuations.pop();
    proof {
        lemma_enemy_index(state.enemies@, enemy, enemy_index(s0.enemies@, enemy));
    }
    engage_enemy_with(state, events, enemy, who);
    assert(engaged_off_frame(s0, *state, enemy, who));
    let mid_chain = matches!(state.phase, Phase::Mythos) && state.mythos_draw_pending == Some(drawer);
    if mid_chain {
        run_mythos_draw_chain(state, events, drawer, count, surge)
    } else {
        EngineOutcome::Done
    }
}


/// A spawned enemy's health scales with the table: an enemy printed with
/// `PerInvestigator(v)` health enters play with `v` times the number of
/// seated investigators (capped at 255), one printed `Fixed(v)` with `v`,
/// undamaged.
pub proof fn law_spawned_health_scales_with_the_table(
    s: GameState,
    f: GameState,
    e0: Seq<Event>,
    e1: Seq<Event>,
    r: EngineOutcome,
    drawer: InvestigatorId,
    code: CardCode,
    m: CardMetadata,
    stats: EnemyStats,
    loc: LocationId,
)
    requires
        spawn_result(s, f, e0, e1, r, drawer, code, m, stats, loc),
        !(r is Rejected),
        stats.health is Some,
    ensures
        f.enemies@.len() == s.enemies@.len() + 1,
        f.enemies@.last().damage == 0,
        stats.health matches Some(HealthValue::Fixed(v)) ==> f.enemies@.last().max_health == v,
        stats.health matches Some(HealthValue::PerInvestigator(v)) ==> f.enemies@.last().max_health as int == (
        if v * s.investigators@.len() >= 255 {
            255
        } else {
            v * s.investigators@.len()
        }),
{
    let len = s.investigators@.len() as int;
    if let Some(HealthValue::PerInvestigator(v)) = stats.health {
        if len > 255 {
            assert(v * len >= v * 255) by (nonlinear_arith)
                requires
                    len > 255,
                    v >= 0,
            ;
            if v >= 1 {
                assert(v * 255 >= 255) by (nonlinear_arith)
                    requires
                        v >= 1,
                ;
            } else {
                assert(v * len == 0 && v * 255 == 0) by (nonlinear_arith)
                    requires
                        v == 0,
                ;
            }
        }
    }
}

} // verus!
