use eldritch_dispatch::combat::resolve_attacks_for_investigator;
use eldritch_dispatch::cursor::{first_active_investigator, next_active_investigator_after};
use eldritch_dispatch::dispatch::{apply_player_action, drive_frames, resolve_input};
use eldritch_dispatch::encounter::advance_mythos_draw_pending;
use eldritch_dispatch::outcome::{EngineOutcome, Event, InputResponse, PlayerAction, Reject};
use eldritch_dispatch::phases::{
    end_turn, investigation_phase, mythos_phase, mythos_phase_end, resume_hand_size_discard,
    step_phase, upkeep_after_round_ended, upkeep_phase_end, upkeep_resume,
};
use eldritch_dispatch::state::ScenarioEnding;
use eldritch_dispatch::state::{
    Act, CardInPlay, CardInstanceId, Continuation, Enemy, EnemyId, GameState, Investigator,
    InvestigatorId, Location, LocationId, Phase, PhaseStep, Prey, Skills, Status,
};
use eldritch_dispatch::upkeep::{
    check_hand_size, over_cap_investigators, ready_exhausted_cards, reset_actions, rotate_to_active,
    upkeep_draw_and_resource, ACTIONS_PER_TURN,
};

fn test_investigator(n: u32) -> Investigator {
    Investigator {
        id: InvestigatorId(n),
        name: format!("Investigator {n}"),
        current_location: None,
        skills: Skills { willpower: 3, intellect: 3, combat: 3, agility: 3 },
        max_health: 8,
        damage: 0,
        max_sanity: 8,
        horror: 0,
        clues: 0,
        resources: 5,
        actions_remaining: 3,
        status: Status::Active,
        deck: Vec::new(),
        hand: Vec::new(),
        discard: Vec::new(),
        cards_in_play: Vec::new(),
        threat_area: Vec::new(),
        removed_from_game: Vec::new(),
    }
}

fn test_location(n: u32, code: &str) -> Location {
    Location::new(LocationId(n), code.to_string(), 0)
}

fn test_enemy(n: u32, code: &str) -> Enemy {
    Enemy {
        id: EnemyId(n),
        code: code.to_string(),
        fight: 2,
        evade: 2,
        max_health: 2,
        damage: 0,
        attack_damage: 1,
        attack_horror: 1,
        current_location: None,
        exhausted: false,
        traits: Vec::new(),
        engaged_with: None,
        hunter: false,
        prey: Prey::Default,
        retaliate: false,
        victory: None,
    }
}

fn build(invs: Vec<Investigator>, locs: Vec<Location>, enemies: Vec<Enemy>, order: &[u32], phase: Phase) -> GameState {
    let mut s = GameState::new();
    s.phase = phase;
    for l in locs {
        if l.id.0 >= s.next_location_id {
            s.next_location_id = l.id.0 + 1;
        }
        s.locations.push(l);
    }
    for e in enemies {
        if e.id.0 >= s.next_enemy_id {
            s.next_enemy_id = e.id.0 + 1;
        }
        s.enemies.push(e);
    }
    s.investigators = invs;
    s.turn_order = order.iter().map(|n| InvestigatorId(*n)).collect();
    s
}

fn inv(s: &GameState, n: u32) -> &Investigator {
    s.investigators.iter().find(|i| i.id == InvestigatorId(n)).expect("seated")
}

fn inv_mut(s: &mut GameState, n: u32) -> &mut Investigator {
    s.investigators.iter_mut().find(|i| i.id == InvestigatorId(n)).expect("seated")
}

fn enemy(s: &GameState, n: u32) -> &Enemy {
    s.enemies.iter().find(|e| e.id == EnemyId(n)).expect("in play")
}

fn pos(events: &[Event], pred: impl Fn(&Event) -> bool) -> Option<usize> {
    events.iter().position(pred)
}

fn opened(kind: PhaseStep) -> impl Fn(&Event) -> bool {
    move |e| matches!(e, Event::WindowOpened { kind: k } if *k == kind)
}

fn closed(kind: PhaseStep) -> impl Fn(&Event) -> bool {
    move |e| matches!(e, Event::WindowClosed { kind: k } if *k == kind)
}

fn started(phase: Phase) -> impl Fn(&Event) -> bool {
    move |e| matches!(e, Event::PhaseStarted { phase: p } if *p == phase)
}

fn ended(phase: Phase) -> impl Fn(&Event) -> bool {
    move |e| matches!(e, Event::PhaseEnded { phase: p } if *p == phase)
}

fn linked(n: u32, code: &str, to: &[u32]) -> Location {
    let mut l = test_location(n, code);
    l.connections = to.iter().map(|t| LocationId(*t)).collect();
    l
}

fn with_hand_size_discard_pending(s: &mut GameState, ids: &[u32]) {
    s.continuations.push(Continuation::HandSizeDiscard { remaining: ids.iter().map(|n| InvestigatorId(*n)).collect() });
}

fn pending_discards(s: &GameState) -> Option<Vec<InvestigatorId>> {
    s.continuations.iter().rev().find_map(|c| match c {
        Continuation::HandSizeDiscard { remaining } => Some(remaining.clone()),
        _ => None,
    })
}

// ---- Investigation phase ----

#[test]
fn investigation_phase_emits_phase_started_and_rotates_to_lead() {
    let mut state = build(vec![test_investigator(1), test_investigator(2)], vec![], vec![], &[1, 2], Phase::Mythos);
    let mut events = Vec::new();

    investigation_phase(&mut state, &mut events);

    assert_eq!(state.active_investigator, Some(InvestigatorId(1)), "rotates to the lead (first in turn_order)");
    assert!(events.iter().any(started(Phase::Investigation)));
    assert!(!events.iter().any(|e| matches!(e, Event::ActionsRemainingChanged { .. })),
        "rotate emits no ActionsRemainingChanged (actions reset at Upkeep 4.2)");
    assert!(events.iter().any(opened(PhaseStep::InvestigationBegins)));
}

#[test]
fn investigation_phase_with_empty_turn_order_parks() {
    let mut state = build(vec![], vec![], vec![], &[], Phase::Investigation);
    let mut events = Vec::new();

    investigation_phase(&mut state, &mut events);

    assert_eq!(state.active_investigator, None, "no investigator to rotate to");
    assert_eq!(state.phase, Phase::Investigation, "phase must not advance");
    assert!(!events.iter().any(ended(Phase::Investigation)), "parking must NOT end the phase");
}

#[test]
fn investigation_phase_skips_defeated_lead_and_picks_first_active() {
    let mut state = build(vec![test_investigator(1), test_investigator(2)], vec![], vec![], &[1, 2], Phase::Mythos);
    inv_mut(&mut state, 1).status = Status::Killed;
    let mut events = Vec::new();

    investigation_phase(&mut state, &mut events);

    assert_eq!(state.active_investigator, Some(InvestigatorId(2)));
}

#[test]
fn end_turn_for_last_investigator_ends_phase_and_steps_to_enemy() {
    let mut state = build(vec![test_investigator(1)], vec![], vec![], &[1], Phase::Investigation);
    state.active_investigator = Some(InvestigatorId(1));
    let mut events = Vec::new();

    let outcome = end_turn(&mut state, &mut events);

    assert!(matches!(outcome, EngineOutcome::Done));
    assert!(events.iter().any(|e| matches!(e, Event::TurnEnded { investigator } if *investigator == InvestigatorId(1))));
    assert!(events.iter().any(ended(Phase::Investigation)));
    assert_eq!(events.iter().filter(|e| ended(Phase::Investigation)(e)).count(), 1,
        "exactly one PhaseEnded(Investigation)");
    assert_ne!(state.phase, Phase::Investigation, "phase advanced past Investigation");
}

#[test]
fn end_turn_rotates_to_next_active_and_opens_turn_window() {
    let mut state = build(vec![test_investigator(1), test_investigator(2)], vec![], vec![], &[1, 2], Phase::Investigation);
    state.active_investigator = Some(InvestigatorId(1));
    let mut events = Vec::new();

    let outcome = end_turn(&mut state, &mut events);

    assert!(matches!(outcome, EngineOutcome::Done));
    assert_eq!(state.active_investigator, Some(InvestigatorId(2)), "rotates to the next active investigator");
    assert_eq!(state.phase, Phase::Investigation, "phase does not end mid-round");
    assert!(!events.iter().any(ended(Phase::Investigation)));
    assert!(events.iter().any(opened(PhaseStep::InvestigatorTurnBegins)));
}

#[test]
fn step_phase_emits_no_phase_ended() {
    let mut state = build(vec![test_investigator(1)], vec![], vec![], &[1], Phase::Investigation);
    let mut events = Vec::new();

    step_phase(&mut state, &mut events);

    assert_eq!(events.iter().filter(|e| ended(Phase::Investigation)(e)).count(), 0,
        "step_phase must emit no PhaseEnded(Investigation)");
}

#[test]
fn investigation_entry_emits_phase_started_then_windows_then_lead_active() {
    let mut state = build(vec![test_investigator(1)], vec![], vec![], &[1], Phase::Mythos);
    let mut events = Vec::new();

    step_phase(&mut state, &mut events);

    assert_eq!(state.phase, Phase::Investigation);
    assert_eq!(state.active_investigator, Some(InvestigatorId(1)));
    assert!(events.iter().any(started(Phase::Investigation)));
    assert!(events.iter().any(opened(PhaseStep::InvestigationBegins)));
    assert!(events.iter().any(opened(PhaseStep::InvestigatorTurnBegins)));
    assert!(!events.iter().any(ended(Phase::Investigation)));
}

// ---- Mythos phase ----

#[test]
fn mythos_phase_emits_phase_started_and_seeds_draw_pending() {
    let mut state = build(vec![test_investigator(1), test_investigator(2)], vec![], vec![], &[1, 2], Phase::Mythos);
    let mut events = Vec::new();

    mythos_phase(&mut state, &mut events);

    assert_eq!(state.mythos_draw_pending, Some(InvestigatorId(1)));
    assert!(events.iter().any(started(Phase::Mythos)));
}

#[test]
fn mythos_phase_with_empty_turn_order_opens_after_draws_window_inline() {
    let mut state = build(vec![], vec![], vec![], &[], Phase::Mythos);
    let mut events = Vec::new();

    mythos_phase(&mut state, &mut events);

    assert_eq!(state.mythos_draw_pending, None);
    assert_eq!(state.phase, Phase::Investigation);
    assert!(events.iter().any(opened(PhaseStep::MythosAfterDraws)));
    assert!(events.iter().any(closed(PhaseStep::MythosAfterDraws)));
    assert!(events.iter().any(ended(Phase::Mythos)));
    assert!(events.iter().any(started(Phase::Investigation)));
}

#[test]
fn mythos_phase_end_emits_phase_ended_and_steps_to_investigation() {
    let mut state = build(vec![test_investigator(1)], vec![], vec![], &[1], Phase::Mythos);
    let mut events = Vec::new();

    mythos_phase_end(&mut state, &mut events);

    assert_eq!(state.phase, Phase::Investigation);
    assert!(events.iter().any(ended(Phase::Mythos)));
    assert!(events.iter().any(started(Phase::Investigation)));
}

#[test]
fn mythos_phase_skips_eliminated_lead_when_seeding_cursor() {
    let mut state = build(vec![test_investigator(1), test_investigator(2)], vec![], vec![], &[1, 2], Phase::Mythos);
    inv_mut(&mut state, 1).status = Status::Killed;
    let mut events = Vec::new();

    mythos_phase(&mut state, &mut events);

    assert_eq!(state.mythos_draw_pending, Some(InvestigatorId(2)));
}

#[test]
fn mythos_phase_with_all_investigators_eliminated_opens_after_draws_window() {
    let mut state = build(vec![test_investigator(1)], vec![], vec![], &[1], Phase::Mythos);
    inv_mut(&mut state, 1).status = Status::Killed;
    let mut events = Vec::new();

    mythos_phase(&mut state, &mut events);

    assert_eq!(state.mythos_draw_pending, None);
    assert_eq!(state.phase, Phase::Investigation, "no Active drawers: MythosAfterDraws fires inline");
}

#[test]
fn advance_mythos_draw_pending_skips_eliminated_middle_investigator() {
    let mut state = build(vec![test_investigator(1), test_investigator(2), test_investigator(3)], vec![], vec![], &[1, 2, 3], Phase::Mythos);
    inv_mut(&mut state, 2).status = Status::Killed;
    state.mythos_draw_pending = Some(InvestigatorId(1));

    advance_mythos_draw_pending(&mut state, InvestigatorId(1));

    assert_eq!(state.mythos_draw_pending, Some(InvestigatorId(3)));
}

#[test]
fn first_active_investigator_finds_first_active_skipping_eliminated() {
    let mut state = build(vec![test_investigator(1), test_investigator(2), test_investigator(3)], vec![], vec![], &[1, 2, 3], Phase::Mythos);
    inv_mut(&mut state, 1).status = Status::Killed;
    inv_mut(&mut state, 2).status = Status::Insane;
    assert_eq!(first_active_investigator(&state), Some(InvestigatorId(3)));
}

#[test]
fn first_active_investigator_returns_none_when_all_eliminated() {
    let mut state = build(vec![test_investigator(1)], vec![], vec![], &[1], Phase::Mythos);
    inv_mut(&mut state, 1).status = Status::Killed;
    assert_eq!(first_active_investigator(&state), None);
}

#[test]
fn first_active_investigator_returns_none_when_turn_order_empty() {
    let state = GameState::new();
    assert_eq!(first_active_investigator(&state), None);
}

#[test]
fn next_active_investigator_after_skips_eliminated_middle() {
    let invs = vec![test_investigator(1), test_investigator(2), test_investigator(3), test_investigator(4)];
    let mut state = build(invs, vec![], vec![], &[1, 2, 3, 4], Phase::Mythos);
    inv_mut(&mut state, 2).status = Status::Killed;
    assert_eq!(next_active_investigator_after(&state, InvestigatorId(1)), Some(InvestigatorId(3)));
    assert_eq!(next_active_investigator_after(&state, InvestigatorId(3)), Some(InvestigatorId(4)));
    assert_eq!(next_active_investigator_after(&state, InvestigatorId(4)), None);
}

#[test]
fn next_active_investigator_after_returns_none_when_current_not_in_turn_order() {
    let state = build(vec![test_investigator(1)], vec![], vec![], &[1], Phase::Mythos);
    assert_eq!(next_active_investigator_after(&state, InvestigatorId(99)), None);
}

#[test]
fn next_active_investigator_after_works_when_current_is_non_active() {
    let mut state = build(vec![test_investigator(1), test_investigator(2)], vec![], vec![], &[1, 2], Phase::Mythos);
    inv_mut(&mut state, 1).status = Status::Killed;
    assert_eq!(next_active_investigator_after(&state, InvestigatorId(1)), Some(InvestigatorId(2)));
}

// ---- Upkeep phase ----

#[test]
fn upkeep_phase_emits_phase_started_and_auto_skips_to_mythos() {
    let mut state = build(vec![test_investigator(1)], vec![], vec![], &[1], Phase::Enemy);
    let mut events = Vec::new();

    step_phase(&mut state, &mut events);

    let s = pos(&events, started(Phase::Upkeep)).expect("PhaseStarted(Upkeep)");
    let wo = pos(&events, opened(PhaseStep::UpkeepBegins)).expect("WindowOpened(UpkeepBegins)");
    let wc = pos(&events, closed(PhaseStep::UpkeepBegins)).expect("WindowClosed(UpkeepBegins)");
    let e = pos(&events, ended(Phase::Upkeep)).expect("PhaseEnded(Upkeep)");
    let m = pos(&events, started(Phase::Mythos)).expect("PhaseStarted(Mythos)");
    assert!(s < wo && wo < wc && wc < e && e < m, "upkeep sub-step events must be ordered");
    assert_eq!(state.phase, Phase::Mythos, "cascade lands in Mythos");
    assert!(!state.continuations.iter().any(|c| matches!(c, Continuation::FastWindow { .. })),
        "UpkeepBegins must not persist on the stack");
}

#[test]
fn ready_exhausted_cards_readies_investigator_cards_and_enemies() {
    let mut i = test_investigator(1);
    let mut c = CardInPlay::enter_play("01000".to_string(), CardInstanceId(1));
    c.exhausted = true;
    i.cards_in_play = vec![c];
    let mut e = test_enemy(1, "Test Enemy");
    e.exhausted = true;
    let mut state = build(vec![i], vec![], vec![e], &[], Phase::Upkeep);
    let mut events = Vec::new();

    ready_exhausted_cards(&mut state, &mut events);

    assert!(!inv(&state, 1).cards_in_play[0].exhausted, "card readied");
    assert!(!enemy(&state, 1).exhausted, "enemy readied");
    assert!(events.iter().any(|e| matches!(e,
        Event::CardReadied { investigator, instance_id, .. } if *investigator == InvestigatorId(1) && *instance_id == CardInstanceId(1))));
    assert!(events.iter().any(|e| matches!(e, Event::EnemyReadied { enemy } if *enemy == EnemyId(1))));
}

#[test]
fn ready_exhausted_cards_reengages_co_located_unengaged_enemy() {
    let mut i = test_investigator(1);
    i.current_location = Some(LocationId(10));
    let mut e = test_enemy(1, "Test Enemy");
    e.exhausted = true;
    e.current_location = Some(LocationId(10));
    let mut state = build(vec![i], vec![test_location(10, "Synth Loc")], vec![e], &[1], Phase::Upkeep);
    let mut events = Vec::new();

    ready_exhausted_cards(&mut state, &mut events);

    assert!(!enemy(&state, 1).exhausted, "enemy readied");
    assert_eq!(enemy(&state, 1).engaged_with, Some(InvestigatorId(1)), "readied enemy re-engages the co-located investigator");
    let readied = pos(&events, |e| matches!(e, Event::EnemyReadied { enemy } if *enemy == EnemyId(1))).expect("readied");
    let engaged = pos(&events, |e| matches!(e, Event::EnemyEngaged { investigator, .. } if *investigator == InvestigatorId(1))).expect("engaged");
    assert!(readied < engaged);
}

#[test]
fn ready_exhausted_cards_leaves_ready_cards_untouched() {
    let mut state = build(vec![test_investigator(1)], vec![], vec![test_enemy(1, "Test Enemy")], &[], Phase::Upkeep);
    let mut events = Vec::new();

    ready_exhausted_cards(&mut state, &mut events);

    assert!(events.is_empty(), "no readying events for already-ready cards");
}

#[test]
fn ready_exhausted_cards_no_engage_when_no_co_located_investigator() {
    let mut e = test_enemy(1, "Test Enemy");
    e.exhausted = true;
    e.current_location = Some(LocationId(10));
    let mut state = build(vec![test_investigator(1)], vec![test_location(10, "Synth Loc")], vec![e], &[1], Phase::Upkeep);
    let mut events = Vec::new();

    ready_exhausted_cards(&mut state, &mut events);

    assert!(!enemy(&state, 1).exhausted, "enemy readied");
    assert_eq!(enemy(&state, 1).engaged_with, None, "no investigator at the enemy's location: no engagement");
    assert!(!events.iter().any(|e| matches!(e, Event::EnemyEngaged { .. })));
}

#[test]
fn ready_exhausted_cards_keeps_existing_engagement_no_duplicate() {
    let mut e = test_enemy(1, "Test Enemy");
    e.exhausted = true;
    e.engaged_with = Some(InvestigatorId(1));
    let mut state = build(vec![test_investigator(1)], vec![], vec![e], &[], Phase::Upkeep);
    let mut events = Vec::new();

    ready_exhausted_cards(&mut state, &mut events);

    assert!(!enemy(&state, 1).exhausted, "enemy readied");
    assert_eq!(enemy(&state, 1).engaged_with, Some(InvestigatorId(1)), "an already-engaged enemy keeps its engagement");
    assert!(!events.iter().any(|e| matches!(e, Event::EnemyEngaged { .. })));
}

#[test]
fn upkeep_draw_and_resource_draws_and_grants_per_active_investigator() {
    let mut a = test_investigator(1);
    a.deck = vec!["01000".to_string()];
    let mut b = test_investigator(2);
    b.deck = vec!["01001".to_string()];
    let mut c = test_investigator(3);
    c.status = Status::Resigned;
    c.deck = vec!["01002".to_string()];
    let (res_a, res_b, res_c) = (a.resources, b.resources, c.resources);
    let hand_a = a.hand.len();
    let mut state = build(vec![a, b, c], vec![], vec![], &[1, 2, 3], Phase::Upkeep);
    let mut events = Vec::new();

    upkeep_draw_and_resource(&mut state, &mut events);

    assert_eq!(inv(&state, 1).resources, res_a + 1);
    assert_eq!(inv(&state, 2).resources, res_b + 1);
    assert_eq!(inv(&state, 3).resources, res_c, "eliminated investigator skipped");
    assert_eq!(inv(&state, 1).hand.len(), hand_a + 1);
    assert_eq!(inv(&state, 3).deck.len(), 1, "eliminated investigator did not draw");
}

#[test]
fn upkeep_draw_and_resource_two_pass_ordering() {
    let mut a = test_investigator(1);
    a.deck = vec!["01000".to_string()];
    let mut b = test_investigator(2);
    b.deck = vec!["01001".to_string()];
    let mut state = build(vec![a, b], vec![], vec![], &[1, 2], Phase::Upkeep);
    let mut events = Vec::new();

    upkeep_draw_and_resource(&mut state, &mut events);

    let last_draw = events.iter().rposition(|e| matches!(e, Event::CardsDrawn { .. })).expect("draws");
    let first_gain = pos(&events, |e| matches!(e, Event::ResourcesGained { .. })).expect("gains");
    assert!(last_draw < first_gain, "all draws must precede all resource gains");
}

#[test]
fn reset_actions_sets_active_to_per_turn_and_skips_eliminated() {
    let mut a = test_investigator(1);
    a.actions_remaining = 0;
    let mut b = test_investigator(2);
    b.actions_remaining = 0;
    b.status = Status::Killed;
    let mut state = build(vec![a, b], vec![], vec![], &[1, 2], Phase::Upkeep);
    let mut events = Vec::new();

    reset_actions(&mut state, &mut events);

    assert_eq!(inv(&state, 1).actions_remaining, ACTIONS_PER_TURN);
    assert_eq!(inv(&state, 2).actions_remaining, 0, "eliminated skipped");
    assert!(events.iter().any(|e| matches!(e,
        Event::ActionsRemainingChanged { investigator, new_count } if *investigator == InvestigatorId(1) && *new_count == ACTIONS_PER_TURN)));
    assert!(!events.iter().any(|e| matches!(e,
        Event::ActionsRemainingChanged { investigator, .. } if *investigator == InvestigatorId(2))));
}

#[test]
fn reset_actions_emits_nothing_for_already_full() {
    let mut a = test_investigator(1);
    a.actions_remaining = ACTIONS_PER_TURN;
    let mut state = build(vec![a], vec![], vec![], &[1], Phase::Upkeep);
    let mut events = Vec::new();

    reset_actions(&mut state, &mut events);

    assert_eq!(inv(&state, 1).actions_remaining, ACTIONS_PER_TURN);
    assert!(events.is_empty(), "no event when value is unchanged");
}

#[test]
fn rotate_to_active_does_not_refresh_actions() {
    let mut a = test_investigator(1);
    a.actions_remaining = 1;
    let mut state = build(vec![a], vec![], vec![], &[], Phase::Investigation);

    rotate_to_active(&mut state, InvestigatorId(1));

    assert_eq!(state.active_investigator, Some(InvestigatorId(1)));
    assert_eq!(inv(&state, 1).actions_remaining, 1, "rotate must not refresh actions");
}

#[test]
fn round_increments_on_mythos_entry_via_driver() {
    let mut state = build(vec![test_investigator(1)], vec![], vec![], &[1], Phase::Upkeep);
    state.round = 4;
    let mut events = Vec::new();

    step_phase(&mut state, &mut events);

    assert_eq!(state.round, 5, "round bumps on Mythos entry");
    assert_eq!(state.phase, Phase::Mythos);
}

#[test]
fn end_turn_cascades_through_upkeep_to_mythos_draw_pending() {
    let mut i = test_investigator(1);
    i.actions_remaining = 0;
    i.deck = vec!["01000".to_string(), "01001".to_string()];
    let mut c = CardInPlay::enter_play("01002".to_string(), CardInstanceId(1));
    c.exhausted = true;
    i.cards_in_play = vec![c];
    let res_before = i.resources;
    let hand_before = i.hand.len();
    let mut state = build(vec![i], vec![], vec![], &[1], Phase::Investigation);
    state.active_investigator = Some(InvestigatorId(1));
    state.round = 1;
    let mut events = Vec::new();

    let outcome = apply_player_action(&mut state, &mut events, &PlayerAction::EndTurn);

    assert!(matches!(outcome, EngineOutcome::Done));
    assert_eq!(state.phase, Phase::Mythos);
    assert_eq!(state.round, 2, "round bumped on Mythos entry");
    assert_eq!(state.mythos_draw_pending, Some(InvestigatorId(1)));
    assert_eq!(state.active_investigator, None);
    assert!(!inv(&state, 1).cards_in_play[0].exhausted, "readied");
    assert_eq!(inv(&state, 1).resources, res_before + 1, "gained 1");
    assert_eq!(inv(&state, 1).hand.len(), hand_before + 1, "drew 1");
}

// ---- the act's round-end clue spend ----

fn round_end_window_state(clues: u8) -> GameState {
    let mut i = test_investigator(1);
    i.current_location = Some(LocationId(2));
    i.clues = clues;
    let mut state = build(vec![i], vec![test_location(2, "01112")], vec![], &[1], Phase::Upkeep);
    state.act_deck = vec![
        Act { code: "01109".to_string(), clue_threshold: 3, round_end_advance: Some("01112".to_string()) },
        Act { code: "01110".to_string(), clue_threshold: 0, round_end_advance: None },
    ];
    state.act_index = 0;
    state
}

fn round_end_pending(s: &GameState) -> bool {
    s.continuations.iter().any(|c| matches!(c, Continuation::ActRoundEndAdvance { .. }))
}

#[test]
fn upkeep_phase_end_opens_window_when_affordable() {
    let mut state = round_end_window_state(3);
    let mut events = Vec::new();

    let out = upkeep_phase_end(&mut state, &mut events);

    assert!(matches!(out, EngineOutcome::AwaitingInput { .. }));
    assert!(round_end_pending(&state));
    assert_eq!(state.phase, Phase::Upkeep, "parked: did not transition");
    assert!(!events.iter().any(started(Phase::Mythos)));
}

#[test]
fn upkeep_phase_end_skips_window_when_unaffordable() {
    let mut state = round_end_window_state(2);
    let mut events = Vec::new();

    let out = upkeep_phase_end(&mut state, &mut events);

    assert!(matches!(out, EngineOutcome::Done));
    assert!(!round_end_pending(&state));
    assert_eq!(state.phase, Phase::Mythos, "no window: straight to Mythos");
}

#[test]
fn resume_confirm_spends_and_advances() {
    let mut state = round_end_window_state(3);
    let mut events = Vec::new();
    let _ = upkeep_phase_end(&mut state, &mut events);

    let out = resolve_input(&mut state, &mut events, &InputResponse::Confirm);

    assert!(matches!(out, EngineOutcome::Done));
    assert_eq!(state.act_index, 1, "advanced act 2 -> act 3");
    assert_eq!(inv(&state, 1).clues, 0, "spent 3 clues");
    assert!(!round_end_pending(&state));
    assert_eq!(state.phase, Phase::Mythos);
}

#[test]
fn resume_skip_advances_nothing_and_continues() {
    let mut state = round_end_window_state(3);
    let mut events = Vec::new();
    let _ = upkeep_phase_end(&mut state, &mut events);

    let out = resolve_input(&mut state, &mut events, &InputResponse::Skip);

    assert!(matches!(out, EngineOutcome::Done));
    assert_eq!(state.act_index, 0, "no advance on Skip");
    assert_eq!(inv(&state, 1).clues, 3, "no clues spent");
    assert!(!round_end_pending(&state));
    assert_eq!(state.phase, Phase::Mythos);
}

#[test]
fn resume_rejects_wrong_response_kind() {
    let mut state = round_end_window_state(3);
    let mut events = Vec::new();
    let _ = upkeep_phase_end(&mut state, &mut events);

    let out = resolve_input(&mut state, &mut events, &InputResponse::DiscardCards { indices: vec![] });

    assert!(matches!(out, EngineOutcome::Rejected { .. }));
    assert!(round_end_pending(&state), "still pending");
    assert_eq!(state.phase, Phase::Upkeep);
}

#[test]
fn affordability_counts_only_contributor_location() {
    let mut state = round_end_window_state(0);
    let mut o = test_investigator(2);
    o.current_location = Some(LocationId(9));
    o.clues = 9;
    state.investigators.push(o);
    state.turn_order.push(InvestigatorId(2));
    state.locations.push(test_location(9, "99999"));
    state.next_location_id = 10;
    let mut events = Vec::new();

    let out = upkeep_phase_end(&mut state, &mut events);

    assert!(matches!(out, EngineOutcome::Done), "unaffordable by Hallway alone");
    assert!(!round_end_pending(&state));
}

// ---- Enemy phase ----

#[test]
fn enemy_phase_runs_hunters_then_attack_loop_when_no_tie() {
    let locs = vec![linked(1, "A", &[2]), linked(2, "B", &[1])];
    let mut i = test_investigator(1);
    i.current_location = Some(LocationId(2));
    let mut h = test_enemy(1, "Hunter");
    h.hunter = true;
    h.current_location = Some(LocationId(1));
    let mut state = build(vec![i], locs, vec![h], &[1], Phase::Investigation);
    state.active_investigator = Some(InvestigatorId(1));
    let mut events = Vec::new();

    let outcome = end_turn(&mut state, &mut events);

    assert!(matches!(outcome, EngineOutcome::Done));
    assert_eq!(state.phase, Phase::Mythos);
    assert_eq!(enemy(&state, 1).current_location, Some(LocationId(2)));
    assert!(events.iter().any(|e| matches!(e, Event::EnemyEngaged { enemy, .. } if *enemy == EnemyId(1))));
    assert!(events.iter().any(opened(PhaseStep::BeforeInvestigatorAttacked)));
}

#[test]
fn enemy_phase_suspends_on_hunter_tie_then_resumes_into_attack_loop() {
    let locs = vec![linked(1, "A", &[2, 3]), linked(2, "B", &[1, 4]), linked(3, "C", &[1, 4]), linked(4, "D", &[2, 3])];
    let mut i = test_investigator(1);
    i.current_location = Some(LocationId(4));
    let mut h = test_enemy(1, "Hunter");
    h.hunter = true;
    h.current_location = Some(LocationId(1));
    let mut state = build(vec![i], locs, vec![h], &[1], Phase::Investigation);
    state.active_investigator = Some(InvestigatorId(1));
    let mut events = Vec::new();

    let outcome = end_turn(&mut state, &mut events);

    assert!(matches!(outcome, EngineOutcome::AwaitingInput { .. }));
    assert_eq!(state.phase, Phase::Enemy);
    let mut ev2 = Vec::new();
    let resumed = resolve_input(&mut state, &mut ev2, &InputResponse::PickSingle(0));
    assert!(matches!(resumed, EngineOutcome::Done));
    assert!(ev2.iter().any(opened(PhaseStep::BeforeInvestigatorAttacked)));
    assert_eq!(state.phase, Phase::Mythos);
}

#[test]
fn resolve_attacks_for_investigator_fires_engaged_ready_enemy_and_exhausts() {
    let mut e = test_enemy(1, "Test Enemy");
    e.engaged_with = Some(InvestigatorId(1));
    e.attack_damage = 1;
    e.attack_horror = 0;
    let mut state = build(vec![test_investigator(1)], vec![], vec![e], &[], Phase::Enemy);
    let mut events = Vec::new();

    resolve_attacks_for_investigator(&mut state, &mut events, InvestigatorId(1));

    assert!(events.iter().any(|e| matches!(e, Event::DamageTaken { investigator, amount: 1 } if *investigator == InvestigatorId(1))));
    assert!(enemy(&state, 1).exhausted, "enemy must be exhausted");
    assert!(events.iter().any(|e| matches!(e, Event::EnemyExhausted { enemy } if *enemy == EnemyId(1))));
    let d = pos(&events, |e| matches!(e, Event::DamageTaken { .. })).unwrap();
    let x = pos(&events, |e| matches!(e, Event::EnemyExhausted { .. })).unwrap();
    assert!(d < x, "DamageTaken must precede EnemyExhausted");
}

#[test]
fn resolve_attacks_for_investigator_excludes_exhausted_and_unengaged_enemies() {
    let mut e1 = test_enemy(1, "Exhausted Engaged");
    e1.engaged_with = Some(InvestigatorId(1));
    e1.exhausted = true;
    e1.attack_damage = 5;
    let mut e2 = test_enemy(2, "Ready Unengaged");
    e2.attack_damage = 5;
    let mut e3 = test_enemy(3, "Ready Engaged");
    e3.engaged_with = Some(InvestigatorId(1));
    e3.attack_damage = 1;
    let mut state = build(vec![test_investigator(1)], vec![], vec![e1, e2, e3], &[], Phase::Enemy);
    let mut events = Vec::new();

    resolve_attacks_for_investigator(&mut state, &mut events, InvestigatorId(1));

    let damages: Vec<&Event> = events.iter().filter(|e| matches!(e, Event::DamageTaken { .. })).collect();
    assert_eq!(damages.len(), 1, "exactly one attacker should fire");
    assert!(matches!(damages[0], Event::DamageTaken { amount: 1, .. }));
    assert!(enemy(&state, 1).exhausted, "e1 was already exhausted; still is");
    assert!(!enemy(&state, 2).exhausted, "e2 must NOT exhaust (didn't attack)");
    assert!(enemy(&state, 3).exhausted, "e3 attacked and exhausted");
    let exhausted: Vec<&Event> = events.iter().filter(|e| matches!(e, Event::EnemyExhausted { .. })).collect();
    assert_eq!(exhausted.len(), 1);
    assert!(matches!(exhausted[0], Event::EnemyExhausted { enemy: EnemyId(3) }));
}

#[test]
fn resolve_attacks_for_investigator_iterates_attackers_in_enemy_id_order() {
    let mut lower = test_enemy(2, "Lower id");
    lower.engaged_with = Some(InvestigatorId(1));
    lower.attack_damage = 1;
    let mut higher = test_enemy(10, "Higher id");
    higher.engaged_with = Some(InvestigatorId(1));
    higher.attack_damage = 2;
    let mut i = test_investigator(1);
    i.max_health = 100;
    i.max_sanity = 100;
    let mut state = build(vec![i], vec![], vec![higher, lower], &[], Phase::Enemy);
    let mut events = Vec::new();

    resolve_attacks_for_investigator(&mut state, &mut events, InvestigatorId(1));

    let damages: Vec<u8> = events.iter().filter_map(|e| match e {
        Event::DamageTaken { amount, .. } => Some(*amount),
        _ => None,
    }).collect();
    assert_eq!(damages, vec![1, 2], "enemy id order: 2 (dmg 1) before 10 (dmg 2)");
}

#[test]
fn resolve_attacks_for_investigator_early_breaks_when_target_defeated_mid_loop() {
    let mut e1 = test_enemy(1, "Killer");
    e1.engaged_with = Some(InvestigatorId(1));
    e1.attack_damage = 1;
    let mut e2 = test_enemy(2, "Bystander");
    e2.engaged_with = Some(InvestigatorId(1));
    e2.attack_damage = 5;
    let mut i = test_investigator(1);
    i.max_health = 1;
    let mut state = build(vec![i], vec![], vec![e1, e2], &[], Phase::Enemy);
    let mut events = Vec::new();

    resolve_attacks_for_investigator(&mut state, &mut events, InvestigatorId(1));

    assert!(enemy(&state, 1).exhausted, "e1 attacked, must exhaust");
    assert!(!enemy(&state, 2).exhausted, "e2 must not exhaust (early-break)");
    assert_eq!(events.iter().filter(|e| matches!(e, Event::DamageTaken { .. })).count(), 1, "only e1's attack lands");
    let exhausted: Vec<&Event> = events.iter().filter(|e| matches!(e, Event::EnemyExhausted { .. })).collect();
    assert_eq!(exhausted.len(), 1);
    assert!(matches!(exhausted[0], Event::EnemyExhausted { enemy: EnemyId(1) }));
    assert_eq!(inv(&state, 1).status, Status::Killed);
}

#[test]
fn enemy_phase_emits_phase_started_and_cascades_to_mythos_in_no_eligibility_case() {
    let mut state = build(vec![test_investigator(1)], vec![], vec![], &[1], Phase::Investigation);
    let mut events = Vec::new();

    step_phase(&mut state, &mut events);

    let s = pos(&events, started(Phase::Enemy)).expect("PhaseStarted(Enemy)");
    let w1o = pos(&events, opened(PhaseStep::BeforeInvestigatorAttacked)).expect("WindowOpened(Before)");
    let w1c = pos(&events, closed(PhaseStep::BeforeInvestigatorAttacked)).expect("WindowClosed(Before)");
    let w2o = pos(&events, opened(PhaseStep::AfterAllInvestigatorsAttacked)).expect("WindowOpened(After)");
    let w2c = pos(&events, closed(PhaseStep::AfterAllInvestigatorsAttacked)).expect("WindowClosed(After)");
    let e = pos(&events, ended(Phase::Enemy)).expect("PhaseEnded(Enemy)");
    let u = pos(&events, started(Phase::Upkeep)).expect("PhaseStarted(Upkeep)");
    assert!(s < w1o && w1o < w1c && w1c < w2o && w2o < w2c && w2c < e && e < u, "ordered 3.1 -> windows -> 3.4 -> 4.1");
    assert_eq!(state.phase, Phase::Mythos, "cascade lands in Mythos");
    assert_eq!(state.enemy_attack_pending, None, "cursor cleared at end");
}

#[test]
fn enemy_phase_with_two_investigators_iterates_in_turn_order() {
    let mut state = build(vec![test_investigator(1), test_investigator(2)], vec![], vec![], &[1, 2], Phase::Investigation);
    let mut events = Vec::new();

    step_phase(&mut state, &mut events);

    let before: Vec<usize> = events.iter().enumerate().filter(|(_, e)| opened(PhaseStep::BeforeInvestigatorAttacked)(e)).map(|(i, _)| i).collect();
    let after: Vec<usize> = events.iter().enumerate().filter(|(_, e)| opened(PhaseStep::AfterAllInvestigatorsAttacked)(e)).map(|(i, _)| i).collect();
    assert_eq!(before.len(), 2, "one window per Active investigator");
    assert_eq!(after.len(), 1);
    assert!(before[0] < before[1] && before[1] < after[0]);
}

#[test]
fn enemy_phase_skips_eliminated_investigator_in_advance() {
    let mut state = build(vec![test_investigator(1), test_investigator(2), test_investigator(3)], vec![], vec![], &[1, 2, 3], Phase::Investigation);
    inv_mut(&mut state, 2).status = Status::Insane;
    let mut events = Vec::new();

    step_phase(&mut state, &mut events);

    assert_eq!(events.iter().filter(|e| opened(PhaseStep::BeforeInvestigatorAttacked)(e)).count(), 2, "Insane id2 must be skipped");
}

#[test]
fn enemy_phase_with_all_eliminated_opens_after_all_directly() {
    let mut state = build(vec![test_investigator(1)], vec![], vec![], &[1], Phase::Investigation);
    inv_mut(&mut state, 1).status = Status::Killed;
    let mut events = Vec::new();

    step_phase(&mut state, &mut events);

    assert!(!events.iter().any(opened(PhaseStep::BeforeInvestigatorAttacked)), "no per-investigator window when all are eliminated");
    assert!(events.iter().any(opened(PhaseStep::AfterAllInvestigatorsAttacked)));
    assert_eq!(state.phase, Phase::Investigation);
}

#[test]
fn enemy_phase_attack_lands_in_full_cascade() {
    let mut e = test_enemy(1, "Test Enemy");
    e.engaged_with = Some(InvestigatorId(1));
    e.attack_damage = 1;
    let mut state = build(vec![test_investigator(1)], vec![], vec![e], &[1], Phase::Investigation);
    let mut events = Vec::new();

    step_phase(&mut state, &mut events);

    assert!(events.iter().any(|e| matches!(e, Event::DamageTaken { investigator, amount: 1 } if *investigator == InvestigatorId(1))));
    assert!(events.iter().any(|e| matches!(e, Event::EnemyExhausted { enemy } if *enemy == EnemyId(1))));
    assert_eq!(state.phase, Phase::Mythos);
}

#[test]
fn step_phase_from_enemy_does_not_emit_phase_ended_enemy() {
    let mut state = build(vec![test_investigator(1)], vec![], vec![], &[1], Phase::Enemy);
    let mut events = Vec::new();

    step_phase(&mut state, &mut events);

    assert_eq!(events.iter().filter(|e| ended(Phase::Enemy)(e)).count(), 0);
}

#[test]
fn enemy_phase_resumes_via_skip_input() {
    let mut e = test_enemy(1, "Test Enemy");
    e.engaged_with = Some(InvestigatorId(1));
    e.attack_damage = 1;
    let mut state = build(vec![test_investigator(1)], vec![], vec![e], &[1], Phase::Enemy);
    state.enemy_attack_pending = Some(InvestigatorId(1));
    state.continuations.push(Continuation::FastWindow { kind: PhaseStep::BeforeInvestigatorAttacked });
    let mut events = Vec::new();

    let outcome = apply_player_action(&mut state, &mut events, &PlayerAction::ResolveInput { response: InputResponse::Skip });

    assert!(matches!(outcome, EngineOutcome::Done), "expected Done after Skip");
    assert_eq!(state.phase, Phase::Mythos, "cascade lands in Mythos after Skip resumed the continuation");
    assert!(events.iter().any(|e| matches!(e, Event::DamageTaken { investigator, amount: 1 } if *investigator == InvestigatorId(1))));
    assert!(events.iter().any(|e| matches!(e, Event::EnemyExhausted { enemy } if *enemy == EnemyId(1))));
    assert_eq!(state.enemy_attack_pending, None);
}

// ---- hand size (step 4.5) ----

#[test]
fn over_cap_investigators_lists_only_over_eight_in_player_order() {
    let mut state = build(vec![test_investigator(1), test_investigator(2)], vec![], vec![], &[2, 1], Phase::Upkeep);
    inv_mut(&mut state, 1).hand = vec!["x".to_string(); 9];
    inv_mut(&mut state, 2).hand = vec!["x".to_string(); 8];
    assert_eq!(over_cap_investigators(&state), vec![InvestigatorId(1)]);
    inv_mut(&mut state, 2).hand = vec!["x".to_string(); 10];
    assert_eq!(over_cap_investigators(&state), vec![InvestigatorId(2), InvestigatorId(1)]);
}

#[test]
fn check_hand_size_suspends_for_over_cap_investigator() {
    let mut state = build(vec![test_investigator(1)], vec![], vec![], &[1], Phase::Upkeep);
    inv_mut(&mut state, 1).hand = vec!["x".to_string(); 10];

    let outcome = check_hand_size(&mut state);

    assert!(matches!(outcome, EngineOutcome::AwaitingInput { .. }), "over-cap investigator must suspend");
    assert_eq!(pending_discards(&state), Some(vec![InvestigatorId(1)]));
}

#[test]
fn check_hand_size_is_noop_when_all_at_or_below_cap() {
    let mut state = build(vec![test_investigator(1)], vec![], vec![], &[1], Phase::Upkeep);
    inv_mut(&mut state, 1).hand = vec!["x".to_string(); 8];

    let outcome = check_hand_size(&mut state);

    assert!(matches!(outcome, EngineOutcome::Done));
    assert!(!matches!(state.continuations.last(), Some(Continuation::HandSizeDiscard { .. })));
}

#[test]
fn upkeep_resume_parks_at_hand_size_discard() {
    let mut state = build(vec![test_investigator(1)], vec![], vec![], &[1], Phase::Upkeep);
    inv_mut(&mut state, 1).hand = (0..12).map(|i| format!("h{i}")).collect();
    inv_mut(&mut state, 1).deck = (0..3).map(|i| format!("d{i}")).collect();
    let mut events = Vec::new();

    let outcome = upkeep_resume(&mut state, &mut events);

    assert!(matches!(outcome, EngineOutcome::AwaitingInput { .. }));
    assert!(matches!(state.continuations.last(), Some(Continuation::HandSizeDiscard { .. })));
    assert_eq!(state.phase, Phase::Upkeep, "4.6 must NOT have run while parked");
    assert!(!events.iter().any(ended(Phase::Upkeep)));
}

#[test]
fn resume_hand_size_discard_discards_overflow_and_advances_to_mythos() {
    let mut state = build(vec![test_investigator(1)], vec![], vec![], &[1], Phase::Upkeep);
    with_hand_size_discard_pending(&mut state, &[1]);
    inv_mut(&mut state, 1).hand = (0..10).map(|i| format!("c{i}")).collect();
    let mut events = Vec::new();

    let outcome = resume_hand_size_discard(&mut state, &mut events, &InputResponse::DiscardCards { indices: vec![0, 1] });

    assert!(matches!(outcome, EngineOutcome::Done));
    assert!(!matches!(state.continuations.last(), Some(Continuation::HandSizeDiscard { .. })));
    assert_eq!(inv(&state, 1).hand.len(), 8);
    assert_eq!(inv(&state, 1).discard.len(), 2);
    assert_eq!(state.phase, Phase::Mythos, "queue drained: 4.6 runs, next round Mythos");
    assert_eq!(events.iter().filter(|e| matches!(e, Event::CardDiscarded { .. })).count(), 2);
    assert_eq!(inv(&state, 1).discard, vec!["c0".to_string(), "c1".to_string()],
        "the cards at the submitted indices (0,1) must be the ones discarded");
}

#[test]
fn resume_hand_size_discard_rejects_wrong_count() {
    let mut state = build(vec![test_investigator(1)], vec![], vec![], &[1], Phase::Upkeep);
    with_hand_size_discard_pending(&mut state, &[1]);
    inv_mut(&mut state, 1).hand = (0..10).map(|i| format!("c{i}")).collect();
    let mut events = Vec::new();

    let outcome = resume_hand_size_discard(&mut state, &mut events, &InputResponse::DiscardCards { indices: vec![0] });

    assert!(matches!(outcome, EngineOutcome::Rejected { .. }));
    assert_eq!(inv(&state, 1).hand.len(), 10, "rejected: hand untouched");
    assert!(matches!(state.continuations.last(), Some(Continuation::HandSizeDiscard { .. })), "rejected: still pending");
    assert!(events.is_empty(), "rejected: no events");
}

#[test]
fn resume_hand_size_discard_rejects_duplicate_and_oob_indices() {
    let fresh = || {
        let mut s = build(vec![test_investigator(1)], vec![], vec![], &[1], Phase::Upkeep);
        with_hand_size_discard_pending(&mut s, &[1]);
        inv_mut(&mut s, 1).hand = (0..10).map(|i| format!("c{i}")).collect();
        s
    };
    let mut s1 = fresh();
    let mut e1 = Vec::new();
    let o1 = resume_hand_size_discard(&mut s1, &mut e1, &InputResponse::DiscardCards { indices: vec![0, 0] });
    assert!(matches!(o1, EngineOutcome::Rejected { .. }));
    assert_eq!(inv(&s1, 1).hand.len(), 10);

    let mut s2 = fresh();
    let mut e2 = Vec::new();
    let o2 = resume_hand_size_discard(&mut s2, &mut e2, &InputResponse::DiscardCards { indices: vec![0, 99] });
    assert!(matches!(o2, EngineOutcome::Rejected { .. }));
    assert_eq!(inv(&s2, 1).hand.len(), 10);
}

#[test]
fn resume_hand_size_discard_sequences_investigators_in_player_order() {
    let mut state = build(vec![test_investigator(1), test_investigator(2)], vec![], vec![], &[1, 2], Phase::Upkeep);
    with_hand_size_discard_pending(&mut state, &[1, 2]);
    inv_mut(&mut state, 1).hand = (0..9).map(|i| format!("a{i}")).collect();
    inv_mut(&mut state, 2).hand = (0..9).map(|i| format!("b{i}")).collect();
    let mut events = Vec::new();

    let o1 = resume_hand_size_discard(&mut state, &mut events, &InputResponse::DiscardCards { indices: vec![0] });

    assert!(matches!(o1, EngineOutcome::AwaitingInput { .. }));
    assert_eq!(pending_discards(&state), Some(vec![InvestigatorId(2)]));
    assert_eq!(state.phase, Phase::Upkeep);
    assert_eq!(inv(&state, 1).hand.len(), 8);
}

#[test]
fn resume_hand_size_discard_rejects_wrong_response_kind() {
    let mut state = build(vec![test_investigator(1)], vec![], vec![], &[1], Phase::Upkeep);
    with_hand_size_discard_pending(&mut state, &[1]);
    inv_mut(&mut state, 1).hand = (0..10).map(|i| format!("c{i}")).collect();
    let mut events = Vec::new();

    let outcome = resume_hand_size_discard(&mut state, &mut events, &InputResponse::Skip);

    assert!(matches!(outcome, EngineOutcome::Rejected { .. }));
    assert_eq!(inv(&state, 1).hand.len(), 10, "rejected: hand untouched");
    assert!(matches!(state.continuations.last(), Some(Continuation::HandSizeDiscard { .. })), "rejected: still pending");
    assert!(events.is_empty(), "rejected: no events");
}

#[test]
fn round_end_clears_round_scoped_skill_substitutions() {
    let mut state = build(vec![test_investigator(1)], vec![], vec![], &[1], Phase::Upkeep);
    state.active_investigator = Some(InvestigatorId(1));
    state.round = 1;
    state.skill_substitutions.push(InvestigatorId(1));
    let mut events = Vec::new();

    upkeep_after_round_ended(&mut state, &mut events);

    assert!(state.skill_substitutions.is_empty(), "round end (step 4.6) clears round-scoped substitutions");
}

#[test]
fn end_turn_is_refused_outside_the_investigation_phase() {
    let mut state = build(vec![test_investigator(1)], vec![], vec![], &[1], Phase::Enemy);
    state.active_investigator = Some(InvestigatorId(1));
    let mut events = Vec::new();

    let outcome = end_turn(&mut state, &mut events);

    assert!(matches!(outcome, EngineOutcome::Rejected { reason } if reason.message().contains("Investigation phase")));
    assert!(events.is_empty());
    assert_eq!(state.phase, Phase::Enemy);
}

#[test]
fn mythos_entry_places_one_doom_on_the_current_agenda() {
    let mut state = build(vec![test_investigator(1)], vec![], vec![], &[1], Phase::Upkeep);
    state.agenda_deck = vec![eldritch_dispatch::state::Agenda { code: "01105".to_string(), doom_threshold: 3 }];
    state.doom = 1;
    let mut events = Vec::new();

    step_phase(&mut state, &mut events);

    assert_eq!(state.doom, 2);
    assert!(events.iter().any(|e| matches!(e, Event::DoomPlaced { new_count: 2 })));
}

#[test]
fn driving_a_settled_stack_changes_nothing() {
    let mut state = build(vec![test_investigator(1)], vec![], vec![], &[1], Phase::Upkeep);
    with_hand_size_discard_pending(&mut state, &[1]);
    let mut events = Vec::new();
    let depth = state.continuations.len();

    let outcome = drive_frames(&mut state, &mut events);

    assert!(matches!(outcome, EngineOutcome::Done));
    assert_eq!(state.continuations.len(), depth);
    assert!(matches!(state.continuations.last(), Some(Continuation::HandSizeDiscard { .. })));
    assert!(events.is_empty());
    assert_eq!(state.phase, Phase::Upkeep);

    let mut empty = build(vec![test_investigator(1)], vec![], vec![], &[1], Phase::Investigation);
    let mut ev2 = Vec::new();
    assert!(matches!(drive_frames(&mut empty, &mut ev2), EngineOutcome::Done));
    assert!(empty.continuations.is_empty());
    assert!(ev2.is_empty());
}

#[test]
fn mulligan_completion_kicks_off_investigation_phase() {
    let mut state = build(vec![test_investigator(1)], vec![], vec![], &[1], Phase::Investigation);
    state.active_investigator = None;
    state.mulligan_pending = Some(InvestigatorId(1));
    let mut events = Vec::new();

    let outcome = apply_player_action(
        &mut state,
        &mut events,
        &PlayerAction::Mulligan { investigator: InvestigatorId(1), indices_to_redraw: vec![] },
    );

    assert!(matches!(outcome, EngineOutcome::Done));
    assert_eq!(state.mulligan_pending, None, "mulligan cursor clears once every investigator has mulliganed");
    assert_eq!(
        state.active_investigator,
        Some(InvestigatorId(1)),
        "Investigation phase kicks off and rotates to the lead after mulligan completes"
    );
    let phase_started = events
        .iter()
        .position(|e| matches!(e, Event::PhaseStarted { phase: Phase::Investigation }))
        .expect("PhaseStarted(Investigation) must fire");
    let window_opened = events
        .iter()
        .position(|e| matches!(e, Event::WindowOpened { kind: PhaseStep::InvestigationBegins }))
        .expect("WindowOpened(InvestigationBegins) must fire at phase start");
    assert!(phase_started < window_opened, "PhaseStarted (2.1) must precede the post-2.1 InvestigationBegins window");
}

#[test]
fn mulligan_passes_the_cursor_in_turn_order_and_redraws() {
    let mut state = build(vec![test_investigator(1), test_investigator(2)], vec![], vec![], &[1, 2], Phase::Investigation);
    state.mulligan_pending = Some(InvestigatorId(1));
    inv_mut(&mut state, 1).hand = vec!["a".to_string(), "b".to_string(), "c".to_string()];
    inv_mut(&mut state, 1).deck = vec!["d1".to_string(), "d2".to_string(), "d3".to_string()];
    let mut events = Vec::new();

    let early = apply_player_action(&mut state, &mut events, &PlayerAction::EndTurn);
    assert!(matches!(early, EngineOutcome::Rejected { reason: Reject::MulliganPending }));
    let wrong = apply_player_action(
        &mut state,
        &mut events,
        &PlayerAction::Mulligan { investigator: InvestigatorId(2), indices_to_redraw: vec![] },
    );
    assert!(matches!(wrong, EngineOutcome::Rejected { reason: Reject::OutOfOrder }));
    let dup = apply_player_action(
        &mut state,
        &mut events,
        &PlayerAction::Mulligan { investigator: InvestigatorId(1), indices_to_redraw: vec![0, 0] },
    );
    assert!(matches!(dup, EngineOutcome::Rejected { reason: Reject::DuplicateIndex }));
    assert!(events.is_empty(), "refusals change nothing");

    let ok = apply_player_action(
        &mut state,
        &mut events,
        &PlayerAction::Mulligan { investigator: InvestigatorId(1), indices_to_redraw: vec![0, 2] },
    );
    assert!(matches!(ok, EngineOutcome::Done));
    assert_eq!(inv(&state, 1).hand, vec!["b".to_string(), "d1".to_string(), "d2".to_string()]);
    let mut deck = inv(&state, 1).deck.clone();
    deck.sort();
    assert_eq!(deck, vec!["a".to_string(), "c".to_string(), "d3".to_string()]);
    assert!(events.iter().any(|e| matches!(e, Event::CardsDrawn { count: 2, .. })));
    assert!(events.iter().any(|e| matches!(e, Event::DeckShuffled { .. })));
    assert_eq!(state.mulligan_pending, Some(InvestigatorId(2)));
    assert_eq!(state.active_investigator, None, "setup is not over yet");

    let last = apply_player_action(
        &mut state,
        &mut events,
        &PlayerAction::Mulligan { investigator: InvestigatorId(2), indices_to_redraw: vec![] },
    );
    assert!(matches!(last, EngineOutcome::Done));
    assert_eq!(state.mulligan_pending, None);
    assert_eq!(state.active_investigator, Some(InvestigatorId(1)));

    let none_due = apply_player_action(
        &mut state,
        &mut events,
        &PlayerAction::Mulligan { investigator: InvestigatorId(1), indices_to_redraw: vec![] },
    );
    assert!(matches!(none_due, EngineOutcome::Rejected { reason: Reject::NoMulliganPending }));
}

#[test]
fn a_latched_ending_cancels_opportunities_not_resolutions() {
    let mut state = build(vec![test_investigator(1)], vec![], vec![], &[1], Phase::Investigation);
    state.ending = Some(ScenarioEnding::NoResolution);
    state.continuations.push(Continuation::NextPhase);
    state.continuations.push(Continuation::InvestigatorTurn { investigator: InvestigatorId(1), ending: false });
    let mut events = Vec::new();

    let outcome = drive_frames(&mut state, &mut events);

    assert!(matches!(outcome, EngineOutcome::Done));
    assert!(state.continuations.is_empty(), "the open turn and the phase progression are dropped unrun");
    assert!(events.is_empty());
    assert_eq!(state.phase, Phase::Investigation, "no phase begins once the scenario has ended");
}
