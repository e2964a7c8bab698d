//! Investigator elimination (Rules Reference p.10): defeat, the elimination
//! steps, single-source damage and horror, and the all-defeated check.
use vstd::prelude::*;

use crate::cards::{card_is_weakness, is_weakness, CardRegistry, EventTiming};
use crate::cursor::{find_turn_frame, has_turn_frame, turn_frame_of};
use crate::engagement::{reengage_at_location, reengage_target};
use crate::forced_triggers::{collect_forced_hits, forced_hits_of, ForcedTriggerPoint};
use crate::emit::TimingEvent;
use crate::outcome::{EngineOutcome, Event, Zone};
use crate::queue::{queue_event, queued_event};
use crate::seqs::{lemma_filter_step, lemma_take_full};
use crate::state::{
    enemy_ids_distinct, has_investigator, has_location, investigator_ids_distinct,
    investigator_index, lemma_enemy_index, lemma_investigator_index, location_index, status_for_cause,
    CardCode, CardInPlay, Continuation, DefeatCause, EliminationStep, Enemy, GameState,
    Investigator, InvestigatorId, Location, ScenarioEnding, Status,
};

verus! {

/// The codes of `cards`, in order.
pub open spec fn codes_of(cards: Seq<CardInPlay>) -> Seq<CardCode> {
    cards.map_values(|c: CardInPlay| c.code)
}

/// Whether `c` is a weakness under the corpus `reg` (so owned by the player
/// whose threat area holds it).
pub open spec fn weak_under(reg: Option<CardRegistry>) -> spec_fn(CardInPlay) -> bool {
    |c: CardInPlay| is_weakness(reg, c.code@)
}

/// Whether `c` is scenario-owned under the corpus `reg` (not a weakness).
pub open spec fn scenario_under(reg: Option<CardRegistry>) -> spec_fn(CardInPlay) -> bool {
    |c: CardInPlay| !is_weakness(reg, c.code@)
}

/// `after` is `before` with Elimination steps 1 and 2 applied to the
/// investigator's own zones: every card controlled in play, every owned
/// weakness in the threat area and the hand, deck and discard removed from
/// the game (in that order), the threat area emptied (its scenario-owned
/// cards go to the encounter discard), clues and resources gone, and the
/// investigator between locations. Nothing else about them changes.
pub open spec fn stripped(reg: Option<CardRegistry>, before: Investigator, after: Investigator) -> bool {
    &&& after.id == before.id
    &&& after.name == before.name
    &&& after.skills == before.skills
    &&& after.max_health == before.max_health
    &&& after.damage == before.damage
    &&& after.max_sanity == before.max_sanity
    &&& after.horror == before.horror
    &&& after.actions_remaining == before.actions_remaining
    &&& after.status == before.status
    &&& after.current_location is None
    &&& after.clues == 0
    &&& after.resources == 0
    &&& after.hand@.len() == 0
    &&& after.deck@.len() == 0
    &&& after.discard@.len() == 0
    &&& after.cards_in_play@.len() == 0
    &&& after.threat_area@.len() == 0
    &&& after.removed_from_game@ == before.removed_from_game@ + codes_of(before.cards_in_play@)
        + codes_of(before.threat_area@.filter(weak_under(reg))) + before.hand@ + before.deck@
        + before.discard@
}

/// Elimination steps 1 and 2 on the investigator's own zones. Returns the
/// scenario-owned threat-area cards, in order, for step 4 to discard.
fn strip_investigator(inv: &mut Investigator, reg: &Option<CardRegistry>) -> (kept: Vec<CardInPlay>)
    ensures
        stripped(*reg, *old(inv), *final(inv)),
        kept@ == old(inv).threat_area@.filter(scenario_under(*reg)),
{
    let ghost before = *inv;
    let mut removed: Vec<CardCode> = Vec::new();
    std::mem::swap(&mut removed, &mut inv.removed_from_game);
    let mut in_play: Vec<CardInPlay> = Vec::new();
    std::mem::swap(&mut in_play, &mut inv.cards_in_play);
    let mut i: usize = 0;
    while i < in_play.len()
        invariant
            i <= in_play@.len(),
            in_play@ == before.cards_in_play@,
            removed@ == before.removed_from_game@ + codes_of(in_play@.take(i as int)),
        decreases in_play@.len() - i,
    {
        proof {
            assert(codes_of(in_play@.take(i + 1)) =~= codes_of(in_play@.take(i as int)).push(
                in_play@[i as int].code,
            ));
        }
        removed.push(in_play[i].code.clone());
        i += 1;
    }
    proof {
        lemma_take_full(in_play@);
    }
    let mut threat: Vec<CardInPlay> = Vec::new();
    std::mem::swap(&mut threat, &mut inv.threat_area);
    let ghost mid = removed@;
    let ghost weak = weak_under(*reg);
    let ghost scen = scenario_under(*reg);
    let mut kept: Vec<CardInPlay> = Vec::new();
    let mut j: usize = 0;
    while j < threat.len()
        invariant
            j <= threat@.len(),
            threat@ == before.threat_area@,
            weak == weak_under(*reg),
            scen == scenario_under(*reg),
            removed@ == mid + codes_of(threat@.take(j as int).filter(weak)),
            kept@ == threat@.take(j as int).filter(scen),
        decreases threat@.len() - j,
    {
        proof {
            lemma_filter_step(threat@, weak, j as int);
            lemma_filter_step(threat@, scen, j as int);
        }
        let c = &threat[j];
        if card_is_weakness(reg, c.code.as_str()) {
            proof {
                assert(codes_of(threat@.take(j + 1).filter(weak)) =~= codes_of(
                    threat@.take(j as int).filter(weak),
                ).push(c.code));
            }
            removed.push(c.code.clone());
        } else {
            kept.push(CardInPlay { code: c.code.clone(), instance_id: c.instance_id, exhausted: c.exhausted });
        }
        j += 1;
    }
    proof {
        lemma_take_full(threat@);
    }
    removed.append(&mut inv.hand);
    removed.append(&mut inv.deck);
    removed.append(&mut inv.discard);
    inv.removed_from_game = removed;
    inv.clues = 0;
    inv.resources = 0;
    inv.current_location = None;
    proof {
        assert(inv.removed_from_game@ =~= before.removed_from_game@ + codes_of(before.cards_in_play@)
            + codes_of(before.threat_area@.filter(weak_under(*reg))) + before.hand@
            + before.deck@ + before.discard@);
    }
    kept
}


/// `a + b`, saturating at the `u8` maximum.
pub open spec fn sat_add_u8(a: u8, b: u8) -> u8 {
    if a + b > 255 {
        255
    } else {
        (a + b) as u8
    }
}

/// Whether Elimination step 2 places `inv`'s clues: they hold some and stand
/// at a location in play.
pub open spec fn drops_clues(locs: Seq<Location>, inv: Investigator) -> bool {
    &&& inv.clues > 0
    &&& inv.current_location is Some
    &&& has_location(locs, inv.current_location->0)
}

/// The locations after step 2 placed `inv`'s clues where they stood.
pub open spec fn locations_after_drop(locs: Seq<Location>, inv: Investigator) -> Seq<Location> {
    if drops_clues(locs, inv) {
        let li = location_index(locs, inv.current_location->0);
        locs.update(li, Location { clues: sat_add_u8(locs[li].clues, inv.clues), ..locs[li] })
    } else {
        locs
    }
}

/// What step 2 logs: the location's new clue count, when clues were placed.
pub open spec fn clue_events(locs: Seq<Location>, inv: Investigator) -> Seq<Event> {
    if drops_clues(locs, inv) {
        let l = inv.current_location->0;
        let li = location_index(locs, l);
        seq![Event::LocationCluesChanged { location: l, new_count: sat_add_u8(locs[li].clues, inv.clues) }]
    } else {
        Seq::empty()
    }
}

/// The enemies after step 3: each one engaged with `id` is disengaged and
/// then engages whom the general engagement rule names (or nobody).
pub open spec fn enemies_after_elimination(
    invs: Seq<Investigator>,
    order: Seq<InvestigatorId>,
    reg: Option<CardRegistry>,
    es: Seq<Enemy>,
    id: InvestigatorId,
) -> Seq<Enemy> {
    Seq::new(
        es.len(),
        |j: int|
            if es[j].engaged_with == Some(id) {
                Enemy { engaged_with: reengage_target(invs, order, reg, es[j]), ..es[j] }
            } else {
                es[j]
            },
    )
}

/// What the first half of step 3 logs: one `EnemyDisengaged` per enemy
/// engaged with `id`, in enemy order.
pub open spec fn disengage_events(es: Seq<Enemy>, id: InvestigatorId) -> Seq<Event>
    decreases es.len(),
{
    if es.len() == 0 {
        Seq::empty()
    } else {
        let prev = disengage_events(es.drop_last(), id);
        if es.last().engaged_with == Some(id) {
            prev.push(Event::EnemyDisengaged { enemy: es.last().id, investigator: id })
        } else {
            prev
        }
    }
}

/// What the second half of step 3 logs: one `EnemyEngaged` per disengaged
/// enemy that engages someone, in enemy order.
pub open spec fn reengage_events(
    invs: Seq<Investigator>,
    order: Seq<InvestigatorId>,
    reg: Option<CardRegistry>,
    es: Seq<Enemy>,
    id: InvestigatorId,
) -> Seq<Event>
    decreases es.len(),
{
    if es.len() == 0 {
        Seq::empty()
    } else {
        let prev = reengage_events(invs, order, reg, es.drop_last(), id);
        let e = es.last();
        if e.engaged_with == Some(id) {
            match reengage_target(invs, order, reg, e) {
                Some(t) => prev.push(Event::EnemyEngaged { enemy: e.id, investigator: t }),
                None => prev,
            }
        } else {
            prev
        }
    }
}

/// What step 4 logs: one `CardDiscarded` per scenario-owned threat card.
pub open spec fn threat_discard_events(id: InvestigatorId, cards: Seq<CardInPlay>) -> Seq<Event> {
    cards.map_values(
        |c: CardInPlay| Event::CardDiscarded { investigator: id, code: c.code, from: Zone::ThreatArea },
    )
}

/// The scenario-owned cards in `inv`'s threat area.
pub open spec fn scenario_cards(reg: Option<CardRegistry>, inv: Investigator) -> Seq<CardInPlay> {
    inv.threat_area@.filter(scenario_under(reg))
}

/// Elimination steps 1-5 for the eliminated (no longer `Active`)
/// investigator `id`, relating the state before (`s`, `e0`) to the state
/// after (`f`, `e1`).
pub open spec fn elimination_steps(
    s: GameState,
    f: GameState,
    e0: Seq<Event>,
    e1: Seq<Event>,
    id: InvestigatorId,
) -> bool {
    let k = investigator_index(s.investigators@, id);
    let inv = s.investigators@[k];
    &&& f == GameState {
        investigators: f.investigators,
        locations: f.locations,
        enemies: f.enemies,
        encounter_discard: f.encounter_discard,
        ..s
    }
    &&& f.investigators@.len() == s.investigators@.len()
    &&& forall|j: int|
        0 <= j < s.investigators@.len() && j != k ==> f.investigators@[j] == s.investigators@[j]
    &&& stripped(s.registry, inv, f.investigators@[k])
    &&& f.locations@ == locations_after_drop(s.locations@, inv)
    &&& f.enemies@ == enemies_after_elimination(
        s.investigators@,
        s.turn_order@,
        s.registry,
        s.enemies@,
        id,
    )
    &&& f.encounter_discard@ == s.encounter_discard@ + codes_of(scenario_cards(s.registry, inv))
    &&& e1 == e0 + clue_events(s.locations@, inv) + disengage_events(s.enemies@, id)
        + reengage_events(s.investigators@, s.turn_order@, s.registry, s.enemies@, id)
        + threat_discard_events(id, scenario_cards(s.registry, inv))
}

/// Step 2's location side: place `inv`'s clues where they stood.
fn drop_clues(state: &mut GameState, events: &mut Vec<Event>, inv_index: usize)
    requires
        old(state).wf(),
        inv_index < old(state).investigators@.len(),
    ensures
        final(state).wf(),
        *final(state) == (GameState { locations: final(state).locations, ..*old(state) }),
        final(state).locations@ == locations_after_drop(
            old(state).locations@,
            old(state).investigators@[inv_index as int],
        ),
        final(events)@ == old(events)@ + clue_events(
            old(state).locations@,
            old(state).investigators@[inv_index as int],
        ),
{
    let clues = state.investigators[inv_index].clues;
    if clues == 0 {
        proof {
            assert(old(events)@ + Seq::<Event>::empty() =~= old(events)@);
        }
        return;
    }
    let Some(l) = state.investigators[inv_index].current_location else {
        proof {
            assert(old(events)@ + Seq::<Event>::empty() =~= old(events)@);
        }
        return;
    };
    let Some(li) = state.find_location(l) else {
        proof {
            assert(old(events)@ + Seq::<Event>::empty() =~= old(events)@);
        }
        return;
    };
    let new_count = state.locations[li].clues.saturating_add(clues);
    state.locations[li].clues = new_count;
    events.push(Event::LocationCluesChanged { location: l, new_count });
    proof {
        assert(final(events)@ =~= old(events)@ + clue_events(
            old(state).locations@,
            old(state).investigators@[inv_index as int],
        ));
        assert(state.locations@ =~= locations_after_drop(
            old(state).locations@,
            old(state).investigators@[inv_index as int],
        ));
    }
}

/// The first half of step 3: every enemy engaged with `id` disengages.
/// Returns, per enemy, whether it was engaged with `id`.
fn disengage_all(state: &mut GameState, events: &mut Vec<Event>, id: InvestigatorId) -> (was: Vec<
    bool,
>)
    requires
        old(state).wf(),
    ensures
        final(state).wf(),
        *final(state) == (GameState { enemies: final(state).enemies, ..*old(state) }),
        final(state).enemies@.len() == old(state).enemies@.len(),
        was@.len() == old(state).enemies@.len(),
        forall|t: int|
            0 <= t < old(state).enemies@.len() ==> {
                &&& was@[t] == (old(state).enemies@[t].engaged_with == Some(id))
                &&& final(state).enemies@[t] == if was@[t] {
                    Enemy { engaged_with: None, ..old(state).enemies@[t] }
                } else {
                    old(state).enemies@[t]
                }
            },
        final(events)@ == old(events)@ + disengage_events(old(state).enemies@, id),
{
    let ghost s0 = *state;
    let ghost ev0 = events@;
    let mut was: Vec<bool> = Vec::new();
    let mut j: usize = 0;
    while j < state.enemies.len()
        invariant
            s0.wf(),
            j <= state.enemies@.len(),
            state.enemies@.len() == s0.enemies@.len(),
            *state == (GameState { enemies: state.enemies, ..s0 }),
            was@.len() == j,
            forall|t: int|
                0 <= t < j ==> {
                    &&& was@[t] == (s0.enemies@[t].engaged_with == Some(id))
                    &&& state.enemies@[t] == if was@[t] {
                        Enemy { engaged_with: None, ..s0.enemies@[t] }
                    } else {
                        s0.enemies@[t]
                    }
                },
            forall|t: int| j <= t < state.enemies@.len() ==> state.enemies@[t] == s0.enemies@[t],
            events@ == ev0 + disengage_events(s0.enemies@.take(j as int), id),
        decreases state.enemies@.len() - j,
    {
        proof {
            assert(s0.enemies@.take(j + 1).drop_last() =~= s0.enemies@.take(j as int));
            assert(s0.enemies@.take(j + 1).last() == s0.enemies@[j as int]);
        }
        let engaged = state.enemies[j].engaged_with == Some(id);
        if engaged {
            let eid = state.enemies[j].id;
            state.enemies[j].engaged_with = None;
            events.push(Event::EnemyDisengaged { enemy: eid, investigator: id });
            proof {
                assert(events@ =~= ev0 + disengage_events(s0.enemies@.take(j + 1), id));
            }
        }
        was.push(engaged);
        j += 1;
    }
    proof {
        lemma_take_full(s0.enemies@);
        assert(enemy_ids_distinct(state.enemies@)) by {
            assert forall|a: int, b: int|
                0 <= a < state.enemies@.len() && 0 <= b < state.enemies@.len() && a != b implies state.enemies@[a].id
                != state.enemies@[b].id by {
                let (wa, wb) = (was@[a], was@[b]);
                assert(state.enemies@[a].id == s0.enemies@[a].id);
                assert(state.enemies@[b].id == s0.enemies@[b].id);
            }
        }
        assert forall|t: int| 0 <= t < state.enemies@.len() implies state.enemies@[t].id.0
            < state.next_enemy_id by {
            let w = was@[t];
            assert(state.enemies@[t].id == s0.enemies@[t].id);
        }
        assert forall|a: int, b: int| 0 <= a < b < state.enemies@.len() implies state.enemies@[a].id.0
            < state.enemies@[b].id.0 by {
            let (wa, wb) = (was@[a], was@[b]);
            assert(state.enemies@[a].id == s0.enemies@[a].id);
            assert(state.enemies@[b].id == s0.enemies@[b].id);
        }
    }
    was
}

/// The second half of step 3: each enemy `was` marks engages per the general
/// engagement rule.
fn reengage_all(state: &mut GameState, events: &mut Vec<Event>, id: InvestigatorId, was: &Vec<bool>, Ghost(e0): Ghost<Seq<Enemy>>)
    requires
        old(state).wf(),
        e0.len() == old(state).enemies@.len(),
        was@.len() == e0.len(),
        forall|t: int|
            0 <= t < e0.len() ==> {
                &&& was@[t] == (e0[t].engaged_with == Some(id))
                &&& old(state).enemies@[t] == if was@[t] {
                    Enemy { engaged_with: None, ..e0[t] }
                } else {
                    e0[t]
                }
            },
    ensures
        final(state).wf(),
        *final(state) == (GameState { enemies: final(state).enemies, ..*old(state) }),
        final(state).enemies@ == enemies_after_elimination(
            old(state).investigators@,
            old(state).turn_order@,
            old(state).registry,
            e0,
            id,
        ),
        final(events)@ == old(events)@ + reengage_events(
            old(state).investigators@,
            old(state).turn_order@,
            old(state).registry,
            e0,
            id,
        ),
{
    let ghost s0 = *state;
    let ghost ev0 = events@;
    let ghost target = enemies_after_elimination(s0.investigators@, s0.turn_order@, s0.registry, e0, id);
    let mut j: usize = 0;
    while j < was.len()
        invariant
            state.wf(),
            j <= was@.len(),
            was@.len() == e0.len(),
            state.enemies@.len() == e0.len(),
            target == enemies_after_elimination(s0.investigators@, s0.turn_order@, s0.registry, e0, id),
            *state == (GameState { enemies: state.enemies, ..s0 }),
            forall|t: int| 0 <= t < j ==> state.enemies@[t] == target[t],
            forall|t: int| j <= t < e0.len() ==> state.enemies@[t] == s0.enemies@[t],
            forall|t: int|
                0 <= t < e0.len() ==> {
                    &&& was@[t] == (e0[t].engaged_with == Some(id))
                    &&& s0.enemies@[t] == if was@[t] {
                        Enemy { engaged_with: None, ..e0[t] }
                    } else {
                        e0[t]
                    }
                },
            events@ == ev0 + reengage_events(
                s0.investigators@,
                s0.turn_order@,
                s0.registry,
                e0.take(j as int),
                id,
            ),
        decreases was@.len() - j,
    {
        proof {
            assert(e0.take(j + 1).drop_last() =~= e0.take(j as int));
            assert(e0.take(j + 1).last() == e0[j as int]);
        }
        if was[j] {
            let eid = state.enemies[j].id;
            proof {
                lemma_enemy_index(state.enemies@, eid, j as int);
            }
            reengage_at_location(state, events, eid);
            proof {
                assert(events@ =~= ev0 + reengage_events(
                    s0.investigators@,
                    s0.turn_order@,
                    s0.registry,
                    e0.take(j + 1),
                    id,
                ));
            }
        } else {
            proof {
                assert(events@ =~= ev0 + reengage_events(
                    s0.investigators@,
                    s0.turn_order@,
                    s0.registry,
                    e0.take(j + 1),
                    id,
                ));
            }
        }
        j += 1;
    }
    proof {
        lemma_take_full(e0);
        assert(state.enemies@ =~= target);
    }
}

/// Step 4: the scenario-owned threat cards `kept` go to the encounter
/// discard pile.
fn discard_threat_cards(state: &mut GameState, events: &mut Vec<Event>, id: InvestigatorId, kept: &Vec<CardInPlay>)
    ensures
        *final(state) == (GameState { encounter_discard: final(state).encounter_discard, ..*old(state) }),
        final(state).encounter_discard@ == old(state).encounter_discard@ + codes_of(kept@),
        final(events)@ == old(events)@ + threat_discard_events(id, kept@),
{
    let ghost s0 = *state;
    let ghost ev0 = events@;
    let mut i: usize = 0;
    while i < kept.len()
        invariant
            i <= kept@.len(),
            *state == (GameState { encounter_discard: state.encounter_discard, ..s0 }),
            state.encounter_discard@ == s0.encounter_discard@ + codes_of(kept@.take(i as int)),
            events@ == ev0 + threat_discard_events(id, kept@.take(i as int)),
        decreases kept@.len() - i,
    {
        proof {
            assert(codes_of(kept@.take(i + 1)) =~= codes_of(kept@.take(i as int)).push(kept@[i as int].code));
            assert(threat_discard_events(id, kept@.take(i + 1)) =~= threat_discard_events(id, kept@.take(i as int)).push(
                Event::CardDiscarded { investigator: id, code: kept@[i as int].code, from: Zone::ThreatArea },
            ));
        }
        state.encounter_discard.push(kept[i].code.clone());
        events.push(Event::CardDiscarded { investigator: id, code: kept[i].code.clone(), from: Zone::ThreatArea });
        i += 1;
    }
    proof {
        lemma_take_full(kept@);
    }
}

/// Execute Elimination steps 1-5 for `id`, whose status has just left
/// `Active`: remove their cards from the game, place their clues where they
/// stood, disengage their enemies (which then engage a co-located survivor
/// per prey, a tie going to the first in turn order), discard the
/// scenario-owned threat cards, and leave them between locations. The lead
/// passes implicitly: it is always the first `Active` investigator.
pub fn run_elimination_steps(state: &mut GameState, events: &mut Vec<Event>, id: InvestigatorId)
    requires
        old(state).wf(),
        has_investigator(old(state).investigators@, id),
        old(state).investigators@[investigator_index(old(state).investigators@, id)].status
            != Status::Active,
    ensures
        final(state).wf(),
        elimination_steps(*old(state), *final(state), old(events)@, final(events)@, id),
{
    let ghost s0 = *state;
    let ghost ev0 = events@;
    let k = state.find_investigator(id).unwrap();
    let ghost inv0 = s0.investigators@[k as int];
    drop_clues(state, events, k);
    let ghost ev1 = events@;
    let ghost e0 = state.enemies@;
    let was = disengage_all(state, events, id);
    let ghost ev2 = events@;
    reengage_all(state, events, id, &was, Ghost(e0));
    let ghost ev3 = events@;
    let mut inv = state.investigators.remove(k);
    let kept = strip_investigator(&mut inv, &state.registry);
    state.investigators.insert(k, inv);
    proof {
        assert(state.investigators@ =~= s0.investigators@.update(k as int, inv));
        assert(investigator_ids_distinct(state.investigators@)) by {
            assert forall|a: int, b: int|
                0 <= a < state.investigators@.len() && 0 <= b < state.investigators@.len() && a
                    != b implies state.investigators@[a].id != state.investigators@[b].id by {
                assert(state.investigators@[a].id == s0.investigators@[a].id);
                assert(state.investigators@[b].id == s0.investigators@[b].id);
            }
        }
    }
    discard_threat_cards(state, events, id, &kept);
    proof {
        assert(events@ =~= ev0 + clue_events(s0.locations@, inv0) + disengage_events(s0.enemies@, id)
            + reengage_events(s0.investigators@, s0.turn_order@, s0.registry, s0.enemies@, id)
            + threat_discard_events(id, scenario_cards(s0.registry, inv0)));
    }
}

/// The investigators with the one at `k` given status `st`.
pub open spec fn flipped_investigators(invs: Seq<Investigator>, k: int, st: Status) -> Seq<
    Investigator,
> {
    invs.update(k, Investigator { status: st, ..invs[k] })
}

/// Whether it is `id`'s turn and that turn is not yet ending.
pub open spec fn arms_turn(c: Seq<Continuation>, id: InvestigatorId) -> bool {
    &&& has_turn_frame(c, id)
    &&& c[turn_frame_of(c, id)] == Continuation::InvestigatorTurn { investigator: id, ending: false }
}

/// The continuations with `id`'s open turn marked as ending.
pub open spec fn armed(c: Seq<Continuation>, id: InvestigatorId) -> Seq<Continuation> {
    if arms_turn(c, id) {
        c.update(turn_frame_of(c, id), Continuation::InvestigatorTurn { investigator: id, ending: true })
    } else {
        c
    }
}

/// `TurnEnded` when an elimination ends `id`'s open turn.
pub open spec fn turn_end_events(c: Seq<Continuation>, id: InvestigatorId) -> Seq<Event> {
    if arms_turn(c, id) {
        seq![Event::TurnEnded { investigator: id }]
    } else {
        Seq::empty()
    }
}

/// Whether some investigator is still `Active`.
pub open spec fn any_active(invs: Seq<Investigator>) -> bool {
    exists|i: int| 0 <= i < invs.len() && invs[i].status == Status::Active
}

/// Whether every seated investigator is out of the game (and at least one
/// is seated).
pub open spec fn all_defeated(invs: Seq<Investigator>) -> bool {
    invs.len() > 0 && !any_active(invs)
}

/// The scenario ending after the all-defeated check: `NoResolution` is
/// latched when nobody remains, unless an ending was already latched.
pub open spec fn ending_after_check(invs: Seq<Investigator>, e: Option<ScenarioEnding>) -> Option<
    ScenarioEnding,
> {
    if all_defeated(invs) && e is None {
        Some(ScenarioEnding::NoResolution)
    } else {
        e
    }
}

/// `AllInvestigatorsDefeated` when nobody remains.
pub open spec fn all_defeated_events(invs: Seq<Investigator>) -> Seq<Event> {
    if all_defeated(invs) {
        seq![Event::AllInvestigatorsDefeated]
    } else {
        Seq::empty()
    }
}

/// Whether `id` owns an in-play weakness with a "when the game ends" forced
/// ability that would initiate, in any cell (Elimination step 0).
pub open spec fn game_end_fork(s: GameState, id: InvestigatorId) -> bool {
    ||| forced_hits_of(s, ForcedTriggerPoint::EliminationGameEnd { investigator: id }, EventTiming::When).len() > 0
    ||| forced_hits_of(s, ForcedTriggerPoint::EliminationGameEnd { investigator: id }, EventTiming::At).len() > 0
    ||| forced_hits_of(s, ForcedTriggerPoint::EliminationGameEnd { investigator: id }, EventTiming::After).len() > 0
}

/// What defeating the seated investigator `id` with `cause` does, from
/// (`s`, `e0`) to (`f`, `e1`). Not `Active`: nothing. With a step-0
/// weakness: the status flips, the turn ends, and an elimination frame is
/// pushed for the drive loop. Otherwise the status flips, the turn ends,
/// Elimination steps 1-5 run, and the all-defeated check follows.
pub open spec fn defeat_result(
    s: GameState,
    f: GameState,
    e0: Seq<Event>,
    e1: Seq<Event>,
    id: InvestigatorId,
    cause: DefeatCause,
) -> bool {
    let k = investigator_index(s.investigators@, id);
    let inv = s.investigators@[k];
    let finv = flipped_investigators(s.investigators@, k, status_for_cause(cause));
    let defeated = e0.push(Event::InvestigatorDefeated { investigator: id, cause }) + turn_end_events(
        s.continuations@,
        id,
    );
    if inv.status != Status::Active {
        f == s && e1 == e0
    } else if game_end_fork(s, id) {
        &&& f == GameState { investigators: f.investigators, continuations: f.continuations, ..s }
        &&& f.investigators@ == finv
        &&& f.continuations@ == armed(s.continuations@, id).push(
            Continuation::Elimination { investigator: id, step: EliminationStep::FireWeaknessGameEnd },
        )
        &&& e1 == defeated
    } else {
        &&& f == GameState {
            investigators: f.investigators,
            continuations: f.continuations,
            locations: f.locations,
            enemies: f.enemies,
            encounter_discard: f.encounter_discard,
            ending: f.ending,
            ..s
        }
        &&& f.investigators@.len() == s.investigators@.len()
        &&& forall|j: int|
            0 <= j < s.investigators@.len() && j != k ==> f.investigators@[j] == s.investigators@[j]
        &&& stripped(s.registry, finv[k], f.investigators@[k])
        &&& f.continuations@ == armed(s.continuations@, id)
        &&& f.locations@ == locations_after_drop(s.locations@, inv)
        &&& f.enemies@ == enemies_after_elimination(finv, s.turn_order@, s.registry, s.enemies@, id)
        &&& f.encounter_discard@ == s.encounter_discard@ + codes_of(scenario_cards(s.registry, inv))
        &&& f.ending == ending_after_check(finv, s.ending)
        &&& e1 == defeated + clue_events(s.locations@, inv) + disengage_events(s.enemies@, id)
            + reengage_events(finv, s.turn_order@, s.registry, s.enemies@, id)
            + threat_discard_events(id, scenario_cards(s.registry, inv)) + all_defeated_events(finv)
    }
}

/// The status a defeat of cause `cause` leaves behind.
pub fn status_for(cause: DefeatCause) -> (r: Status)
    ensures
        r == status_for_cause(cause),
{
    match cause {
        DefeatCause::Damage => Status::Killed,
        DefeatCause::Horror => Status::Insane,
        DefeatCause::Resigned => Status::Resigned,
        DefeatCause::CardAbility => Status::DefeatedByCardAbility,
    }
}

/// End `id`'s turn when elimination takes them out of it: mark their open
/// turn frame as ending and announce `TurnEnded`. Nothing when it is not
/// their turn, or when the turn is already ending (it was announced then).
/// Their remaining actions are left as they were.
fn end_turn_on_elimination(state: &mut GameState, events: &mut Vec<Event>, id: InvestigatorId)
    ensures
        *final(state) == (GameState { continuations: final(state).continuations, ..*old(state) }),
        final(state).continuations@ == armed(old(state).continuations@, id),
        final(events)@ == old(events)@ + turn_end_events(old(state).continuations@, id),
{
    let Some(i) = find_turn_frame(state, id) else {
        proof {
            assert(old(events)@ + Seq::<Event>::empty() =~= old(events)@);
        }
        return;
    };
    let open = match &state.continuations[i] {
        Continuation::InvestigatorTurn { ending, .. } => !*ending,
        _ => false,
    };
    if !open {
        proof {
            assert(old(events)@ + Seq::<Event>::empty() =~= old(events)@);
        }
        return;
    }
    state.continuations.set(i, Continuation::InvestigatorTurn { investigator: id, ending: true });
    events.push(Event::TurnEnded { investigator: id });
    proof {
        assert(final(events)@ =~= old(events)@ + turn_end_events(old(state).continuations@, id));
    }
}

/// Whether `id` owns an in-play weakness carrying a "when the game ends"
/// forced ability, in any cell: whether Elimination step 0 has anything to
/// fire.
fn has_weakness_game_end_ability(state: &GameState, id: InvestigatorId) -> (r: bool)
    requires
        state.wf(),
    ensures
        r == game_end_fork(*state, id),
{
    let point = ForcedTriggerPoint::EliminationGameEnd { investigator: id };
    collect_forced_hits(state, &point, EventTiming::When).len() > 0 || collect_forced_hits(
        state,
        &point,
        EventTiming::At,
    ).len() > 0 || collect_forced_hits(state, &point, EventTiming::After).len() > 0
}

/// Announce `AllInvestigatorsDefeated` and latch `NoResolution` (first
/// writer wins) when no investigator remains `Active`. Nothing when nobody
/// is seated.
pub fn check_all_defeated(state: &mut GameState, events: &mut Vec<Event>)
    ensures
        *final(state) == (GameState {
            ending: ending_after_check(old(state).investigators@, old(state).ending),
            ..*old(state)
        }),
        final(events)@ == old(events)@ + all_defeated_events(old(state).investigators@),
{
    let mut any = false;
    let mut i: usize = 0;
    while i < state.investigators.len()
        invariant
            i <= state.investigators@.len(),
            any == exists|t: int| 0 <= t < i && state.investigators@[t].status == Status::Active,
        decreases state.investigators@.len() - i,
    {
        if matches!(state.investigators[i].status, Status::Active) {
            any = true;
        }
        i += 1;
    }
    if !any && state.investigators.len() > 0 {
        events.push(Event::AllInvestigatorsDefeated);
        if state.ending.is_none() {
            state.ending = Some(ScenarioEnding::NoResolution);
        }
        proof {
            assert(final(events)@ =~= old(events)@ + all_defeated_events(old(state).investigators@));
        }
    } else {
        proof {
            assert(old(events)@ + Seq::<Event>::empty() =~= old(events)@);
        }
    }
}

/// Defeat the seated investigator `id` with `cause`: flip their status to
/// the one the cause leaves, announce `InvestigatorDefeated`, and end their
/// turn if it was theirs. An investigator who is not `Active` is left alone
/// (an investigator is defeated once). With a step-0 weakness ability the
/// rest of the elimination waits on a frame for the drive loop; otherwise
/// Elimination steps 1-5 and the all-defeated check run here.
#[verifier::rlimit(40)]
pub fn apply_investigator_defeat(
    state: &mut GameState,
    events: &mut Vec<Event>,
    id: InvestigatorId,
    cause: DefeatCause,
)
    requires
        old(state).wf(),
        has_investigator(old(state).investigators@, id),
    ensures
        final(state).wf(),
        defeat_result(*old(state), *final(state), old(events)@, final(events)@, id, cause),
{
    let ghost s0 = *state;
    let ghost ev0 = events@;
    let k = state.find_investigator(id).unwrap();
    if !matches!(state.investigators[k].status, Status::Active) {
        return;
    }
    let fork = has_weakness_game_end_ability(state, id);
    state.investigators[k].status = status_for(cause);
    proof {
        assert(state.investigators@ =~= flipped_investigators(
            s0.investigators@,
            k as int,
            status_for_cause(cause),
        ));
        assert(investigator_ids_distinct(state.investigators@)) by {
            assert forall|a: int, b: int|
                0 <= a < state.investigators@.len() && 0 <= b < state.investigators@.len() && a
                    != b implies state.investigators@[a].id != state.investigators@[b].id by {
                assert(state.investigators@[a].id == s0.investigators@[a].id);
                assert(state.investigators@[b].id == s0.investigators@[b].id);
            }
        }
        lemma_investigator_index(state.investigators@, id, k as int);
    }
    events.push(Event::InvestigatorDefeated { investigator: id, cause });
    end_turn_on_elimination(state, events, id);
    if fork {
        state.continuations.push(
            Continuation::Elimination { investigator: id, step: EliminationStep::FireWeaknessGameEnd },
        );
        return;
    }
    let ghost mid = *state;
    let ghost ev1 = events@;
    run_elimination_steps(state, events, id);
    let ghost m2 = *state;
    proof {
        assert forall|j: int| 0 <= j < m2.investigators@.len() implies m2.investigators@[j].status
            == mid.investigators@[j].status by {
            if j != k {
            }
        }
        assert(any_active(m2.investigators@) == any_active(mid.investigators@)) by {
            if any_active(m2.investigators@) {
                let j = choose|j: int|
                    0 <= j < m2.investigators@.len() && m2.investigators@[j].status == Status::Active;
                assert(mid.investigators@[j].status == Status::Active);
            }
            if any_active(mid.investigators@) {
                let j = choose|j: int|
                    0 <= j < mid.investigators@.len() && mid.investigators@[j].status
                        == Status::Active;
                assert(m2.investigators@[j].status == Status::Active);
            }
        }
    }
    check_all_defeated(state, events);
    proof {
        assert(events@ =~= ev0.push(Event::InvestigatorDefeated { investigator: id, cause })
            + turn_end_events(s0.continuations@, id) + clue_events(
            s0.locations@,
            s0.investigators@[k as int],
        ) + disengage_events(s0.enemies@, id) + reengage_events(
            mid.investigators@,
            s0.turn_order@,
            s0.registry,
            s0.enemies@,
            id,
        ) + threat_discard_events(id, scenario_cards(s0.registry, s0.investigators@[k as int]))
            + all_defeated_events(mid.investigators@));
    }
}

/// What dealing `amount` damage (or, with `horror`, horror) from a single
/// source to the seated investigator `id` does. Nothing when `amount` is 0
/// or they are not `Active`; otherwise the harm is placed on them (the count
/// saturates at the `u8` maximum) and announced, and a count that reaches
/// their printed maximum defeats them (cause `Damage` or `Horror`).
pub open spec fn harm_result(
    s: GameState,
    f: GameState,
    e0: Seq<Event>,
    e1: Seq<Event>,
    id: InvestigatorId,
    amount: u8,
    horror: bool,
) -> bool {
    let k = investigator_index(s.investigators@, id);
    let inv = s.investigators@[k];
    if amount == 0 || inv.status != Status::Active {
        f == s && e1 == e0
    } else {
        let placed = if horror {
            Investigator { horror: sat_add_u8(inv.horror, amount), ..inv }
        } else {
            Investigator { damage: sat_add_u8(inv.damage, amount), ..inv }
        };
        let announced = if horror {
            e0.push(Event::HorrorTaken { investigator: id, amount })
        } else {
            e0.push(Event::DamageTaken { investigator: id, amount })
        };
        let lethal = if horror {
            placed.horror >= placed.max_sanity
        } else {
            placed.damage >= placed.max_health
        };
        exists|mid: GameState|
            {
                &&& mid == (GameState { investigators: mid.investigators, ..s })
                &&& mid.investigators@ == s.investigators@.update(k, placed)
                &&& if lethal {
                    defeat_result(
                        mid,
                        f,
                        announced,
                        e1,
                        id,
                        if horror {
                            DefeatCause::Horror
                        } else {
                            DefeatCause::Damage
                        },
                    )
                } else {
                    f == mid && e1 == announced
                }
            }
    }
}

fn place_harm(state: &mut GameState, events: &mut Vec<Event>, id: InvestigatorId, amount: u8, horror: bool)
    requires
        old(state).wf(),
        has_investigator(old(state).investigators@, id),
    ensures
        final(state).wf(),
        harm_result(*old(state), *final(state), old(events)@, final(events)@, id, amount, horror),
{
    let ghost s0 = *state;
    let k = state.find_investigator(id).unwrap();
    if amount == 0 || !matches!(state.investigators[k].status, Status::Active) {
        return;
    }
    let lethal = if horror {
        let h = state.investigators[k].horror.saturating_add(amount);
        state.investigators[k].horror = h;
        events.push(Event::HorrorTaken { investigator: id, amount });
        h >= state.investigators[k].max_sanity
    } else {
        let d = state.investigators[k].damage.saturating_add(amount);
        state.investigators[k].damage = d;
        events.push(Event::DamageTaken { investigator: id, amount });
        d >= state.investigators[k].max_health
    };
    let ghost mid = *state;
    let ghost ev1 = events@;
    proof {
        assert(investigator_ids_distinct(state.investigators@)) by {
            assert forall|a: int, b: int|
                0 <= a < state.investigators@.len() && 0 <= b < state.investigators@.len() && a
                    != b implies state.investigators@[a].id != state.investigators@[b].id by {
                assert(state.investigators@[a].id == s0.investigators@[a].id);
                assert(state.investigators@[b].id == s0.investigators@[b].id);
            }
        }
        lemma_investigator_index(state.investigators@, id, k as int);
    }
    if lethal {
        apply_investigator_defeat(
            state,
            events,
            id,
            if horror {
                DefeatCause::Horror
            } else {
                DefeatCause::Damage
            },
        );
    }
    proof {
        let inv = s0.investigators@[k as int];
        let placed = if horror {
            Investigator { horror: sat_add_u8(inv.horror, amount), ..inv }
        } else {
            Investigator { damage: sat_add_u8(inv.damage, amount), ..inv }
        };
        assert(mid.investigators@ =~= s0.investigators@.update(k as int, placed));
    }
}

/// Deal `amount` damage from a single source to the seated investigator
/// `id`; lethal damage defeats them (cause `Damage`).
pub fn take_damage(state: &mut GameState, events: &mut Vec<Event>, id: InvestigatorId, amount: u8)
    requires
        old(state).wf(),
        has_investigator(old(state).investigators@, id),
    ensures
        final(state).wf(),
        harm_result(*old(state), *final(state), old(events)@, final(events)@, id, amount, false),
{
    place_harm(state, events, id, amount, false);
}

/// Deal `amount` horror from a single source to the seated investigator
/// `id`; lethal horror defeats them (cause `Horror`).
pub fn take_horror(state: &mut GameState, events: &mut Vec<Event>, id: InvestigatorId, amount: u8)
    requires
        old(state).wf(),
        has_investigator(old(state).investigators@, id),
    ensures
        final(state).wf(),
        harm_result(*old(state), *final(state), old(events)@, final(events)@, id, amount, true),
{
    place_harm(state, events, id, amount, true);
}

/// Defeat the seated investigator `id` outright by a card ability (cause
/// `CardAbility`, status `DefeatedByCardAbility`), with the ordinary
/// elimination. Nothing when they are not `Active`.
pub fn defeat_investigator(state: &mut GameState, events: &mut Vec<Event>, id: InvestigatorId)
    requires
        old(state).wf(),
        has_investigator(old(state).investigators@, id),
    ensures
        final(state).wf(),
        defeat_result(
            *old(state),
            *final(state),
            old(events)@,
            final(events)@,
            id,
            DefeatCause::CardAbility,
        ),
{
    apply_investigator_defeat(state, events, id, DefeatCause::CardAbility);
}

/// What driving the elimination frame on top of `s` does (see
/// [`drive_elimination`]).
pub open spec fn elimination_driven(s: GameState, f: GameState, e0: Seq<Event>, e1: Seq<Event>) -> bool {
    match s.continuations@.last() {
        Continuation::Elimination { investigator, step } => match step {
            EliminationStep::FireWeaknessGameEnd => exists|mid: GameState|
                {
                    &&& mid == (GameState { continuations: mid.continuations, ..s })
                    &&& mid.continuations@ == s.continuations@.update(
                        s.continuations@.len() - 1,
                        Continuation::Elimination { investigator, step: EliminationStep::RunSteps },
                    )
                    &&& queued_event(
                        mid,
                        f,
                        TimingEvent::EliminationGameEnd { investigator },
                    )
                    &&& e1 == e0
                },
            EliminationStep::RunSteps => exists|popped: GameState, m: GameState, ev: Seq<Event>|
                {
                    &&& popped == (GameState { continuations: popped.continuations, ..s })
                    &&& popped.continuations@ == s.continuations@.drop_last()
                    &&& elimination_steps(popped, m, e0, ev, investigator)
                    &&& f == (GameState {
                        ending: ending_after_check(m.investigators@, m.ending),
                        ..m
                    })
                    &&& e1 == ev + all_defeated_events(m.investigators@)
                },
        },
        _ => true,
    }
}

/// Drive an elimination frame. At step 0 its cursor moves on to steps 1-6
/// first and the eliminated investigator's weakness-scoped game-end timing
/// point is queued above it; once those abilities have drained, steps 1-5
/// and the all-defeated check run and the frame pops.
pub fn drive_elimination(state: &mut GameState, events: &mut Vec<Event>) -> (r: EngineOutcome)
    requires
        old(state).wf(),
        old(state).continuations@.len() > 0,
        old(state).continuations@.last() matches Continuation::Elimination { investigator, .. }
            && has_investigator(old(state).investigators@, investigator)
            && old(state).investigators@[investigator_index(old(state).investigators@, investigator)].status
            != Status::Active,
    ensures
        final(state).wf(),
        r is Done,
        elimination_driven(*old(state), *final(state), old(events)@, final(events)@),
{
    let n = state.continuations.len();
    let (id, at_step_zero) = match &state.continuations[n - 1] {
        Continuation::Elimination { investigator, step } => (
            *investigator,
            matches!(step, EliminationStep::FireWeaknessGameEnd),
        ),
        _ => {
            return EngineOutcome::Done;
        },
    };
    if at_step_zero {
        state.continuations.set(
            n - 1,
            Continuation::Elimination { investigator: id, step: EliminationStep::RunSteps },
        );
        let ghost mid = *state;
        let _ = queue_event(state, &TimingEvent::EliminationGameEnd { investigator: id });
        EngineOutcome::Done
    } else {
        state.continuations.pop();
        let ghost popped = *state;
        let ghost ev0 = events@;
        run_elimination_steps(state, events, id);
        let ghost m = *state;
        let ghost ev = events@;
        check_all_defeated(state, events);
        EngineOutcome::Done
    }
}

/// A defeat keeps every seat: the same number of investigators, each with
/// the id it had.
pub proof fn lemma_defeat_keeps_ids(
    s: GameState,
    f: GameState,
    e0: Seq<Event>,
    e1: Seq<Event>,
    id: InvestigatorId,
    cause: DefeatCause,
)
    requires
        has_investigator(s.investigators@, id),
        defeat_result(s, f, e0, e1, id, cause),
    ensures
        f.investigators@.len() == s.investigators@.len(),
        forall|j: int| 0 <= j < s.investigators@.len() ==> #[trigger] f.investigators@[j].id == s.investigators@[j].id,
        f.enemies@.len() == s.enemies@.len(),
        forall|j: int| 0 <= j < s.enemies@.len() ==> #[trigger] f.enemies@[j].id == s.enemies@[j].id,
{
    let k = investigator_index(s.investigators@, id);
    assert forall|j: int| 0 <= j < s.investigators@.len() implies #[trigger] f.investigators@[j].id
        == s.investigators@[j].id by {
        if j != k {
        }
    }
}

/// Harm keeps every seat: the same number of investigators, each with the
/// id it had.
pub proof fn lemma_harm_keeps_ids(
    s: GameState,
    f: GameState,
    e0: Seq<Event>,
    e1: Seq<Event>,
    id: InvestigatorId,
    amount: u8,
    horror: bool,
)
    requires
        has_investigator(s.investigators@, id),
        harm_result(s, f, e0, e1, id, amount, horror),
    ensures
        f.investigators@.len() == s.investigators@.len(),
        forall|j: int| 0 <= j < s.investigators@.len() ==> #[trigger] f.investigators@[j].id == s.investigators@[j].id,
        f.enemies@.len() == s.enemies@.len(),
        forall|j: int| 0 <= j < s.enemies@.len() ==> #[trigger] f.enemies@[j].id == s.enemies@[j].id,
{
    let k = investigator_index(s.investigators@, id);
    let inv = s.investigators@[k];
    if amount == 0 || inv.status != Status::Active {
    } else {
        let placed = if horror {
            Investigator { horror: sat_add_u8(inv.horror, amount), ..inv }
        } else {
            Investigator { damage: sat_add_u8(inv.damage, amount), ..inv }
        };
        let announced = if horror {
            e0.push(Event::HorrorTaken { investigator: id, amount })
        } else {
            e0.push(Event::DamageTaken { investigator: id, amount })
        };
        let lethal = if horror {
            placed.horror >= placed.max_sanity
        } else {
            placed.damage >= placed.max_health
        };
        let mid = choose|mid: GameState|
            {
                &&& mid == (GameState { investigators: mid.investigators, ..s })
                &&& mid.investigators@ == s.investigators@.update(k, placed)
                &&& if lethal {
                    defeat_result(
                        mid,
                        f,
                        announced,
                        e1,
                        id,
                        if horror {
                            DefeatCause::Horror
                        } else {
                            DefeatCause::Damage
                        },
                    )
                } else {
                    f == mid && e1 == announced
                }
            };
        assert(has_investigator(mid.investigators@, id)) by {
            assert(mid.investigators@[k].id == id);
        }
        if lethal {
            lemma_defeat_keeps_ids(
                mid,
                f,
                announced,
                e1,
                id,
                if horror {
                    DefeatCause::Horror
                } else {
                    DefeatCause::Damage
                },
            );
        }
        assert forall|j: int| 0 <= j < s.investigators@.len() implies #[trigger] f.investigators@[j].id
            == s.investigators@[j].id by {
            assert(f.investigators@[j].id == mid.investigators@[j].id);
            if j != k {
            }
        }
    }
}


/// After a defeat has been applied, the investigator is seated where they
/// were and is no longer `Active`.
proof fn lemma_defeat_leaves_inactive(
    s: GameState,
    f: GameState,
    e0: Seq<Event>,
    e1: Seq<Event>,
    id: InvestigatorId,
    cause: DefeatCause,
)
    requires
        s.wf(),
        has_investigator(s.investigators@, id),
        defeat_result(s, f, e0, e1, id, cause),
    ensures
        has_investigator(f.investigators@, id),
        investigator_index(f.investigators@, id) == investigator_index(s.investigators@, id),
        f.investigators@[investigator_index(f.investigators@, id)].status != Status::Active,
{
    let k = investigator_index(s.investigators@, id);
    lemma_defeat_keeps_ids(s, f, e0, e1, id, cause);
    assert(investigator_ids_distinct(f.investigators@)) by {
        assert forall|a: int, b: int|
            0 <= a < f.investigators@.len() && 0 <= b < f.investigators@.len() && a != b implies f.investigators@[a].id
            != f.investigators@[b].id by {
            assert(f.investigators@[a].id == s.investigators@[a].id);
            assert(f.investigators@[b].id == s.investigators@[b].id);
        }
    }
    assert(f.investigators@[k].id == s.investigators@[k].id);
    lemma_investigator_index(f.investigators@, id, k);
}

/// An investigator is defeated at most once: once a defeat (by any cause)
/// has been applied, a second one (by any cause) changes nothing and logs
/// nothing.
pub proof fn law_defeat_happens_once(
    s: GameState,
    f: GameState,
    f2: GameState,
    e0: Seq<Event>,
    e1: Seq<Event>,
    e2: Seq<Event>,
    id: InvestigatorId,
    first: DefeatCause,
    second: DefeatCause,
)
    requires
        s.wf(),
        has_investigator(s.investigators@, id),
        defeat_result(s, f, e0, e1, id, first),
        defeat_result(f, f2, e1, e2, id, second),
    ensures
        f2 == f,
        e2 == e1,
{
    lemma_defeat_leaves_inactive(s, f, e0, e1, id, first);
}

/// Damage and horror do not reach a defeated investigator: once a defeat
/// has been applied, any further harm changes nothing and logs nothing.
pub proof fn law_no_harm_after_defeat(
    s: GameState,
    f: GameState,
    f2: GameState,
    e0: Seq<Event>,
    e1: Seq<Event>,
    e2: Seq<Event>,
    id: InvestigatorId,
    cause: DefeatCause,
    amount: u8,
    horror: bool,
)
    requires
        s.wf(),
        has_investigator(s.investigators@, id),
        defeat_result(s, f, e0, e1, id, cause),
        harm_result(f, f2, e1, e2, id, amount, horror),
    ensures
        f2 == f,
        e2 == e1,
{
    lemma_defeat_leaves_inactive(s, f, e0, e1, id, cause);
}


/// Harm defeats exactly at the threshold: after `amount` (> 0) horror is
/// placed on an `Active` investigator, they are driven insane exactly when
/// their horror (old horror plus `amount`) is at least their printed
/// sanity, and otherwise stay `Active` holding that horror; damage likewise
/// kills exactly when it reaches their printed health. The count placed
/// saturates at 255.
pub proof fn law_harm_defeats_exactly_at_the_threshold(
    s: GameState,
    f: GameState,
    e0: Seq<Event>,
    e1: Seq<Event>,
    id: InvestigatorId,
    amount: u8,
    horror: bool,
)
    requires
        s.wf(),
        has_investigator(s.investigators@, id),
        amount > 0,
        s.investigators@[investigator_index(s.investigators@, id)].status == Status::Active,
        harm_result(s, f, e0, e1, id, amount, horror),
    ensures
        ({
            let k = investigator_index(s.investigators@, id);
            let before = s.investigators@[k];
            let after = f.investigators@[k];
            let total = if horror { before.horror + amount } else { before.damage + amount };
            let limit = if horror { before.max_sanity } else { before.max_health };
            &&& f.investigators@.len() == s.investigators@.len()
            &&& after.id == id
            &&& (if horror { after.horror as int } else { after.damage as int }) == (if total > 255 {
                255
            } else {
                total
            })
            &&& (total >= limit ==> after.status == (if horror { Status::Insane } else { Status::Killed }))
            &&& (total < limit ==> after.status == Status::Active)
        }),
{
    let k = investigator_index(s.investigators@, id);
    lemma_investigator_index(s.investigators@, id, k);
    let inv = s.investigators@[k];
    let placed = if horror {
        Investigator { horror: sat_add_u8(inv.horror, amount), ..inv }
    } else {
        Investigator { damage: sat_add_u8(inv.damage, amount), ..inv }
    };
    let lethal = if horror {
        placed.horror >= placed.max_sanity
    } else {
        placed.damage >= placed.max_health
    };
    let mid = choose|mid: GameState|
        {
            &&& mid == (GameState { investigators: mid.investigators, ..s })
            &&& mid.investigators@ == s.investigators@.update(k, placed)
            &&& if lethal {
                defeat_result(
                    mid,
                    f,
                    if horror {
                        e0.push(Event::HorrorTaken { investigator: id, amount })
                    } else {
                        e0.push(Event::DamageTaken { investigator: id, amount })
                    },
                    e1,
                    id,
                    if horror {
                        DefeatCause::Horror
                    } else {
                        DefeatCause::Damage
                    },
                )
            } else {
                f == mid && e1 == (if horror {
                    e0.push(Event::HorrorTaken { investigator: id, amount })
                } else {
                    e0.push(Event::DamageTaken { investigator: id, amount })
                })
            }
        };
    assert(mid.investigators@[k] == placed);
    if lethal {
        assert(investigator_ids_distinct(mid.investigators@)) by {
            assert forall|a: int, b: int|
                0 <= a < mid.investigators@.len() && 0 <= b < mid.investigators@.len() && a != b implies mid.investigators@[a].id
                != mid.investigators@[b].id by {
                assert(mid.investigators@[a].id == s.investigators@[a].id);
                assert(mid.investigators@[b].id == s.investigators@[b].id);
            }
        }
        lemma_investigator_index(mid.investigators@, id, k);
    }
}

} // verus!
