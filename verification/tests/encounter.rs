use eldritch_dispatch::cards::{CardKind, CardMetadata, EnemyStats, HealthValue};
use eldritch_dispatch::deck::{draw_encounter_top, reshuffle_encounter_discard, shuffle_encounter_deck};
use eldritch_dispatch::dispatch::{apply_engine_record, apply_player_action};
use eldritch_dispatch::encounter::{
    draw_encounter_card, resume_spawn_engage, run_mythos_draw_chain, spawn_enemy, spawn_enemy_at,
    spawn_set_aside_enemy,
};
use eldritch_dispatch::outcome::{EngineOutcome, EngineRecord, Event, InputResponse, PlayerAction};
use eldritch_dispatch::state::{
    Continuation, Enemy, GameState, Investigator, InvestigatorId, Location, LocationId, Phase, Prey,
    Skills, Status,
};

fn test_investigator(n: u32) -> Investigator {
    Investigator {
        id: InvestigatorId(n),
        name: format!("Investigator {n}"),
        current_location: None,
        skills: Skills { willpower: 3, intellect: 3, combat: 3, agility: 3 },
        max_health: 8,
        damage: 0,
        max_sanity: 8,
        horror: 0,
        clues: 0,
        resources: 5,
        actions_remaining: 3,
        status: Status::Active,
        deck: Vec::new(),
        hand: Vec::new(),
        discard: Vec::new(),
        cards_in_play: Vec::new(),
        threat_area: Vec::new(),
        removed_from_game: Vec::new(),
    }
}

fn test_location(n: u32, code: &str) -> Location {
    Location::new(LocationId(n), code.to_string(), 0)
}

fn build(invs: Vec<Investigator>, locs: Vec<Location>, order: &[u32]) -> GameState {
    let mut s = GameState::new();
    for l in locs {
        if l.id.0 >= s.next_location_id {
            s.next_location_id = l.id.0 + 1;
        }
        s.locations.push(l);
    }
    s.investigators = invs;
    s.turn_order = order.iter().map(|n| InvestigatorId(*n)).collect();
    s
}

fn place(s: &mut GameState, inv: u32, loc: u32) {
    for i in s.investigators.iter_mut() {
        if i.id == InvestigatorId(inv) {
            i.current_location = Some(LocationId(loc));
        }
    }
}

#[allow(clippy::too_many_arguments)]
fn enemy_metadata(
    spawn: Option<&str>,
    health: HealthValue,
    hunter: bool,
    retaliate: bool,
    prey: Prey,
    fight: u8,
    evade: u8,
    damage: u8,
    horror: u8,
    victory: Option<u8>,
) -> CardMetadata {
    CardMetadata {
        code: "_synth_enemy".to_string(),
        name: "Synth Enemy".to_string(),
        kind: CardKind::Enemy(EnemyStats {
            health: Some(health),
            fight,
            evade,
            damage,
            horror,
            hunter,
            retaliate,
            prey,
            victory,
            spawn: spawn.map(|s| s.to_string()),
        }),
        traits: Vec::new(),
        weakness: false,
        surge: false,
        peril: false,
        abilities: Vec::new(),
        back_abilities: Vec::new(),
        fast: false,
        cost: None,
        only_during_turn: false,
    }
}

fn synth_enemy_metadata(spawn: Option<&str>) -> CardMetadata {
    enemy_metadata(spawn, HealthValue::Fixed(1), false, false, Prey::Default, 1, 1, 0, 0, None)
}

fn only_enemy(s: &GameState) -> &Enemy {
    s.enemies.first().expect("enemy spawned")
}

#[test]
fn rejects_when_no_card_registry_installed() {
    let mut state = build(vec![test_investigator(1)], vec![], &[]);
    state.encounter_deck.push("__no_such_card".to_string());
    let pre_deck_len = state.encounter_deck.len();
    let mut events = Vec::new();

    let outcome = apply_engine_record(
        &mut state,
        &mut events,
        &EngineRecord::EncounterCardRevealed { investigator: InvestigatorId(1) },
    );

    match outcome {
        EngineOutcome::Rejected { reason } => {
            let m = reason.message();
            assert!(m.contains("no card registry installed") || m.contains("unknown card code"),
                "unexpected reject reason: {m:?}");
        },
        _ => panic!("expected Rejected"),
    }
    assert!(state.encounter_deck.len() <= pre_deck_len, "deck should not grow");
    assert!(events.is_empty(), "no events should fire before CardRevealed");
}

#[test]
fn shuffle_encounter_deck_emits_event_when_two_or_more_cards() {
    let mut state = GameState::new();
    state.rng = 42;
    state.encounter_deck = vec!["a".to_string(), "b".to_string(), "c".to_string()];
    let mut events = Vec::new();

    shuffle_encounter_deck(&mut state, &mut events);

    assert!(matches!(events.as_slice(), [Event::EncounterDeckShuffled]));
    assert_eq!(state.encounter_deck.len(), 3);
    let mut codes = state.encounter_deck.clone();
    codes.sort();
    assert_eq!(codes, vec!["a".to_string(), "b".to_string(), "c".to_string()]);
}

#[test]
fn shuffle_encounter_deck_is_silent_on_zero_or_one_card() {
    for n in 0..=1 {
        let mut state = GameState::new();
        for i in 0..n {
            state.encounter_deck.push(format!("c{i}"));
        }
        let mut events = Vec::new();
        shuffle_encounter_deck(&mut state, &mut events);
        assert!(events.is_empty(), "expected no event for n={n} deck");
    }
}

#[test]
fn reshuffle_encounter_discard_moves_discard_into_deck_and_shuffles() {
    let mut state = GameState::new();
    state.rng = 7;
    for i in 0..5 {
        state.encounter_discard.push(format!("d{i}"));
    }
    let mut events = Vec::new();

    reshuffle_encounter_discard(&mut state, &mut events);

    assert!(state.encounter_discard.is_empty(), "discard should be drained");
    assert_eq!(state.encounter_deck.len(), 5, "all 5 cards moved into deck");
    assert!(matches!(events.as_slice(), [Event::EncounterDeckShuffled]));
}

#[test]
fn reshuffle_encounter_discard_is_silent_when_discard_has_one_card() {
    let mut state = GameState::new();
    state.encounter_discard.push("solo".to_string());
    let mut events = Vec::new();

    reshuffle_encounter_discard(&mut state, &mut events);

    assert!(state.encounter_discard.is_empty());
    assert_eq!(state.encounter_deck.len(), 1);
    assert!(events.is_empty(), "1-card shuffle emits no event");
}

#[test]
fn draw_encounter_top_drains_deck_then_returns_none() {
    let mut state = GameState::new();
    state.encounter_deck = vec!["a".to_string(), "b".to_string(), "c".to_string()];
    let mut events = Vec::new();

    assert_eq!(draw_encounter_top(&mut state, &mut events), Some("a".to_string()));
    assert_eq!(draw_encounter_top(&mut state, &mut events), Some("b".to_string()));
    assert_eq!(draw_encounter_top(&mut state, &mut events), Some("c".to_string()));
    assert_eq!(draw_encounter_top(&mut state, &mut events), None);
    assert!(events.is_empty(), "no events for any draw");
}

#[test]
fn draw_encounter_top_reshuffles_discard_on_empty_deck() {
    let mut state = GameState::new();
    state.rng = 13;
    state.encounter_discard = vec!["x".to_string(), "y".to_string(), "z".to_string()];
    let mut events = Vec::new();

    let drawn = draw_encounter_top(&mut state, &mut events).expect("should reshuffle and draw");

    assert!(["x".to_string(), "y".to_string(), "z".to_string()].contains(&drawn));
    assert_eq!(state.encounter_deck.len(), 2, "2 cards remain in deck post-draw");
    assert!(state.encounter_discard.is_empty(), "discard drained");
    assert!(matches!(events.as_slice(), [Event::EncounterDeckShuffled]), "reshuffle emits one event");
}

#[test]
fn draw_encounter_top_returns_none_when_deck_and_discard_both_empty() {
    let mut state = GameState::new();
    let mut events = Vec::new();
    assert_eq!(draw_encounter_top(&mut state, &mut events), None);
    assert!(events.is_empty(), "no events on empty-on-both");
}

#[test]
fn engine_record_encounter_deck_shuffled_drives_shuffle() {
    let mut state = GameState::new();
    state.rng = 99;
    for i in 0..4 {
        state.encounter_deck.push(format!("c{i}"));
    }
    let mut original = state.encounter_deck.clone();
    let mut events = Vec::new();

    let outcome = apply_engine_record(&mut state, &mut events, &EngineRecord::EncounterDeckShuffled);

    assert!(matches!(outcome, EngineOutcome::Done));
    let mut shuffled = state.encounter_deck.clone();
    shuffled.sort();
    original.sort();
    assert_eq!(shuffled, original);
    assert!(events.iter().any(|e| matches!(e, Event::EncounterDeckShuffled)));
}

#[test]
fn encounter_deck_shuffle_is_deterministic_from_seed() {
    fn shuffle_with_seed(seed: u64) -> Vec<String> {
        let mut state = GameState::new();
        state.rng = seed;
        for i in 0..10 {
            state.encounter_deck.push(format!("c{i:02}"));
        }
        let mut events = Vec::new();
        shuffle_encounter_deck(&mut state, &mut events);
        state.encounter_deck
    }
    let a = shuffle_with_seed(2026);
    let b = shuffle_with_seed(2026);
    assert_eq!(a, b, "same seed must produce same shuffle order");
    let c = shuffle_with_seed(42);
    assert_ne!(a, c, "different seeds should produce different orders");
}

#[test]
fn spawn_enemy_at_places_enemy_at_the_given_location_not_the_drawers() {
    let mut state = build(vec![test_investigator(1)], vec![test_location(10, "_here"), test_location(11, "_there")], &[1]);
    place(&mut state, 1, 10);
    let metadata = synth_enemy_metadata(None);
    let mut events = Vec::new();

    let outcome = spawn_enemy_at(&mut state, &mut events, InvestigatorId(1), "_synth_enemy".to_string(), &metadata, LocationId(11));

    assert!(matches!(outcome, EngineOutcome::Done));
    assert_eq!(only_enemy(&state).current_location, Some(LocationId(11)),
        "the explicit location wins over the drawer's location");
    assert!(events.iter().any(|e| matches!(e, Event::EnemySpawned { location, .. } if *location == LocationId(11))));
}

#[test]
fn spawn_set_aside_enemy_rejects_when_not_set_aside() {
    let mut state = build(vec![test_investigator(1)], vec![], &[1]);
    let mut events = Vec::new();

    let outcome = spawn_set_aside_enemy(&mut state, &mut events, InvestigatorId(1), "01116", "01112");

    assert!(matches!(outcome, EngineOutcome::Rejected { .. }), "spawning an enemy that isn't set aside must reject");
    assert!(state.enemies.is_empty(), "no enemy minted on reject");
}

#[test]
fn spawn_set_aside_enemy_keeps_the_code_aside_on_a_failed_spawn() {
    let mut state = build(vec![test_investigator(1)], vec![], &[1]);
    state.set_aside_enemies.push("01116".to_string());
    let mut events = Vec::new();

    let outcome = spawn_set_aside_enemy(&mut state, &mut events, InvestigatorId(1), "01116", "01112");

    assert!(matches!(outcome, EngineOutcome::Rejected { .. }), "missing target location must reject");
    assert_eq!(state.set_aside_enemies, vec!["01116".to_string()], "the code stays set aside when the spawn rejects");
    assert!(state.enemies.is_empty(), "no enemy minted on reject");
}

#[test]
fn spawn_enemy_reads_combat_stats_and_keywords_from_metadata() {
    let mut state = build(vec![test_investigator(1)], vec![test_location(10, "_l")], &[1]);
    place(&mut state, 1, 10);
    let metadata = enemy_metadata(None, HealthValue::Fixed(5), true, true, Prey::Default, 4, 4, 2, 2, None);
    let mut events = Vec::new();

    spawn_enemy(&mut state, &mut events, InvestigatorId(1), "_synth_enemy".to_string(), &metadata);

    let enemy = only_enemy(&state);
    assert_eq!(enemy.fight, 4);
    assert_eq!(enemy.evade, 4);
    assert_eq!(enemy.attack_damage, 2);
    assert_eq!(enemy.attack_horror, 2);
    assert_eq!(enemy.max_health, 5);
    assert!(enemy.hunter);
    assert!(enemy.retaliate);
}

#[test]
fn spawn_enemy_scales_per_investigator_health_by_investigator_count() {
    let mut state = build(vec![test_investigator(1), test_investigator(2)], vec![test_location(10, "_l")], &[1, 2]);
    place(&mut state, 1, 10);
    place(&mut state, 2, 10);
    let metadata = enemy_metadata(None, HealthValue::PerInvestigator(5), false, false, Prey::Default, 4, 4, 2, 2, None);
    let mut events = Vec::new();

    spawn_enemy(&mut state, &mut events, InvestigatorId(1), "_synth_enemy".to_string(), &metadata);

    assert_eq!(only_enemy(&state).max_health, 10, "5 health x 2 investigators");
}

#[test]
fn spawn_enemy_reads_victory_from_metadata() {
    let mut state = build(vec![test_investigator(1)], vec![test_location(10, "_l")], &[1]);
    place(&mut state, 1, 10);
    let metadata = enemy_metadata(None, HealthValue::Fixed(5), false, false, Prey::Default, 4, 4, 2, 2, Some(2));
    let mut events = Vec::new();

    spawn_enemy(&mut state, &mut events, InvestigatorId(1), "_synth_enemy".to_string(), &metadata);

    assert_eq!(only_enemy(&state).victory, Some(2));
}

#[test]
fn spawn_at_specific_location_with_one_investigator_engages_them() {
    let mut state = build(vec![test_investigator(1)], vec![test_location(10, "_synth_loc")], &[1]);
    place(&mut state, 1, 10);
    let metadata = synth_enemy_metadata(Some("_synth_loc"));
    let mut events = Vec::new();

    let outcome = spawn_enemy(&mut state, &mut events, InvestigatorId(1), "_synth_enemy".to_string(), &metadata);

    assert!(matches!(outcome, EngineOutcome::Done));
    assert_eq!(state.enemies.len(), 1);
    assert_eq!(only_enemy(&state).current_location, Some(LocationId(10)));
    assert_eq!(only_enemy(&state).engaged_with, Some(InvestigatorId(1)));
    let spawned = events.iter().position(|e| matches!(e,
        Event::EnemySpawned { code, location, engaged_with, .. }
            if code == "_synth_enemy" && *location == LocationId(10) && *engaged_with == Some(InvestigatorId(1))));
    let engaged = events.iter().position(|e| matches!(e,
        Event::EnemyEngaged { investigator, .. } if *investigator == InvestigatorId(1)));
    assert!(spawned.is_some() && engaged.is_some() && spawned < engaged, "spawn then engage");
}

#[test]
fn spawn_at_specific_location_with_no_investigators_leaves_unengaged() {
    let mut state = build(vec![test_investigator(1)], vec![test_location(10, "_synth_loc")], &[]);
    let metadata = synth_enemy_metadata(Some("_synth_loc"));
    let mut events = Vec::new();

    let outcome = spawn_enemy(&mut state, &mut events, InvestigatorId(1), "_synth_enemy".to_string(), &metadata);

    assert!(matches!(outcome, EngineOutcome::Done));
    assert_eq!(only_enemy(&state).engaged_with, None);
    assert!(!events.iter().any(|e| matches!(e, Event::EnemyEngaged { .. })));
}

#[test]
fn spawn_at_specific_location_rejects_when_location_not_in_play() {
    let mut state = build(vec![test_investigator(1)], vec![], &[]);
    let metadata = synth_enemy_metadata(Some("_nonexistent_loc"));
    let mut events = Vec::new();

    let outcome = spawn_enemy(&mut state, &mut events, InvestigatorId(1), "_synth_enemy".to_string(), &metadata);

    match outcome {
        EngineOutcome::Rejected { reason } => {
            assert!(reason.message().contains("spawn location not in play"), "unexpected reason: {:?}", reason.message());
        },
        _ => panic!("expected Rejected"),
    }
    assert!(state.enemies.is_empty());
}

#[test]
fn spawn_with_no_instruction_places_at_drawing_investigators_location() {
    let mut state = build(vec![test_investigator(1)], vec![test_location(10, "_demo_loc")], &[1]);
    place(&mut state, 1, 10);
    let metadata = synth_enemy_metadata(None);
    let mut events = Vec::new();

    let outcome = spawn_enemy(&mut state, &mut events, InvestigatorId(1), "_synth_enemy".to_string(), &metadata);

    assert!(matches!(outcome, EngineOutcome::Done));
    assert_eq!(only_enemy(&state).current_location, Some(LocationId(10)));
    assert_eq!(only_enemy(&state).engaged_with, Some(InvestigatorId(1)));
    assert!(events.iter().any(|e| matches!(e, Event::EnemyEngaged { investigator, .. } if *investigator == InvestigatorId(1))));
}

#[test]
fn spawn_with_no_instruction_rejects_when_drawing_investigator_has_no_location() {
    let mut state = build(vec![test_investigator(1)], vec![], &[]);
    let metadata = synth_enemy_metadata(None);
    let mut events = Vec::new();

    let outcome = spawn_enemy(&mut state, &mut events, InvestigatorId(1), "_synth_enemy".to_string(), &metadata);

    match outcome {
        EngineOutcome::Rejected { reason } => {
            assert!(reason.message().contains("drawing investigator has no location"), "unexpected reason: {:?}", reason.message());
        },
        _ => panic!("expected Rejected"),
    }
}

#[test]
fn spawn_engages_sole_colocated_investigator() {
    let mut i = test_investigator(1);
    i.current_location = Some(LocationId(1));
    let mut state = build(vec![i], vec![test_location(1, "_loc")], &[1]);
    state.phase = Phase::Mythos;
    let metadata = synth_enemy_metadata(None);
    let mut events = Vec::new();

    let outcome = spawn_enemy(&mut state, &mut events, InvestigatorId(1), "_synth_enemy".to_string(), &metadata);

    assert!(matches!(outcome, EngineOutcome::Done));
    assert_eq!(only_enemy(&state).engaged_with, Some(InvestigatorId(1)));
}

fn tie_state() -> GameState {
    let mut i1 = test_investigator(1);
    i1.current_location = Some(LocationId(1));
    let mut i2 = test_investigator(2);
    i2.current_location = Some(LocationId(1));
    let mut state = build(vec![i1, i2], vec![test_location(1, "_loc")], &[1, 2]);
    state.phase = Phase::Mythos;
    state.mythos_draw_pending = Some(InvestigatorId(1));
    state
}

#[test]
fn spawn_tie_suspends_for_lead_pick() {
    let mut state = tie_state();
    let metadata = synth_enemy_metadata(None);
    let mut events = Vec::new();

    let outcome = spawn_enemy(&mut state, &mut events, InvestigatorId(1), "_synth_enemy".to_string(), &metadata);

    assert!(matches!(outcome, EngineOutcome::AwaitingInput { .. }));
    assert!(matches!(state.continuations.last(), Some(Continuation::SpawnEngage(_))));
    assert_eq!(only_enemy(&state).engaged_with, None);
}

#[test]
fn resume_spawn_engage_rejects_bad_pick_and_preserves_pending() {
    let mut state = tie_state();
    let metadata = synth_enemy_metadata(None);
    let mut events = Vec::new();
    let _ = spawn_enemy(&mut state, &mut events, InvestigatorId(1), "_synth_enemy".to_string(), &metadata);
    assert!(matches!(state.continuations.last(), Some(Continuation::SpawnEngage(_))));

    let outcome = resume_spawn_engage(&mut state, &mut events, &InputResponse::PickSingle(2));

    assert!(matches!(outcome, EngineOutcome::Rejected { .. }));
    assert!(matches!(state.continuations.last(), Some(Continuation::SpawnEngage(_))),
        "pending must survive a rejected pick for retry");
    assert_eq!(only_enemy(&state).engaged_with, None, "no engagement on rejected pick");
}

#[test]
fn spawn_mints_distinct_enemy_ids() {
    let mut state = build(vec![test_investigator(1)], vec![test_location(10, "_l")], &[]);
    place(&mut state, 1, 10);
    let metadata = synth_enemy_metadata(Some("_l"));
    let mut events = Vec::new();

    let _ = spawn_enemy(&mut state, &mut events, InvestigatorId(1), "_synth_enemy".to_string(), &metadata);
    let _ = spawn_enemy(&mut state, &mut events, InvestigatorId(1), "_synth_enemy".to_string(), &metadata);

    assert_eq!(state.enemies.len(), 2, "two spawns should produce two distinct enemies");
    assert_ne!(state.enemies[0].id, state.enemies[1].id);
}

#[test]
fn rejects_when_registry_not_installed_or_unknown_code() {
    let mut state = build(vec![test_investigator(1)], vec![], &[1]);
    state.phase = Phase::Mythos;
    state.mythos_draw_pending = Some(InvestigatorId(1));
    state.encounter_deck.push("__no_such_card".to_string());
    let pre_deck_len = state.encounter_deck.len();
    let mut events = Vec::new();

    let outcome = run_mythos_draw_chain(&mut state, &mut events, InvestigatorId(1), 0, true);

    match outcome {
        EngineOutcome::Rejected { reason } => {
            let m = reason.message();
            assert!(m.contains("no card registry installed") || m.contains("unknown card code"), "unexpected reject reason: {m:?}");
        },
        _ => panic!("expected Rejected"),
    }
    assert!(state.encounter_deck.len() <= pre_deck_len, "deck should not grow");
}

#[test]
fn rejects_outside_mythos_phase() {
    let mut state = build(vec![test_investigator(1)], vec![], &[]);
    state.phase = Phase::Investigation;
    state.mythos_draw_pending = Some(InvestigatorId(1));
    let mut events = Vec::new();

    let outcome = draw_encounter_card(&mut state, &mut events, InvestigatorId(1));

    assert!(matches!(outcome, EngineOutcome::Rejected { reason } if reason.message().contains("only valid during Mythos")));
}

#[test]
fn rejects_when_no_draw_pending() {
    let mut state = build(vec![test_investigator(1)], vec![], &[]);
    state.phase = Phase::Mythos;
    state.mythos_draw_pending = None;
    let mut events = Vec::new();

    let outcome = draw_encounter_card(&mut state, &mut events, InvestigatorId(1));

    assert!(matches!(outcome, EngineOutcome::Rejected { reason } if reason.message().contains("no draw pending")));
}

#[test]
fn rejects_when_out_of_order() {
    let mut state = build(vec![test_investigator(1), test_investigator(2)], vec![], &[]);
    state.phase = Phase::Mythos;
    state.mythos_draw_pending = Some(InvestigatorId(1));
    let mut events = Vec::new();

    let outcome = draw_encounter_card(&mut state, &mut events, InvestigatorId(2));

    assert!(matches!(outcome, EngineOutcome::Rejected { reason } if reason.message().contains("out of order")));
}

#[test]
fn resume_spawn_engage_engages_the_picked_investigator() {
    let mut state = tie_state();
    state.mythos_draw_pending = None;
    let metadata = synth_enemy_metadata(None);
    let mut events = Vec::new();
    let _ = spawn_enemy(&mut state, &mut events, InvestigatorId(1), "_synth_enemy".to_string(), &metadata);

    let outcome = resume_spawn_engage(&mut state, &mut events, &InputResponse::PickSingle(1));

    assert!(matches!(outcome, EngineOutcome::Done));
    assert_eq!(only_enemy(&state).engaged_with, Some(InvestigatorId(2)));
    assert!(state.continuations.is_empty(), "the tie's frame is popped");
}

#[test]
fn encounter_draw_action_runs_the_due_draw_and_carries_the_round_on() {
    let mut state = build(vec![test_investigator(1)], vec![], &[1]);
    state.phase = Phase::Mythos;
    state.mythos_draw_pending = Some(InvestigatorId(1));
    let mut treachery = synth_enemy_metadata(None);
    treachery.code = "_synth_treachery".to_string();
    treachery.kind = CardKind::Treachery;
    state.registry = Some(eldritch_dispatch::cards::CardRegistry { cards: vec![treachery] });
    state.encounter_deck.push("_synth_treachery".to_string());
    let mut events = Vec::new();

    let wrong = apply_player_action(
        &mut state,
        &mut events,
        &PlayerAction::DrawEncounterCard { investigator: InvestigatorId(2) },
    );
    assert!(matches!(wrong, EngineOutcome::Rejected { .. }));
    assert!(events.is_empty());

    let outcome = apply_player_action(
        &mut state,
        &mut events,
        &PlayerAction::DrawEncounterCard { investigator: InvestigatorId(1) },
    );
    assert!(matches!(outcome, EngineOutcome::Done));
    assert_eq!(state.encounter_discard, vec!["_synth_treachery".to_string()]);
    assert_eq!(state.mythos_draw_pending, None);
    assert_eq!(state.phase, Phase::Investigation, "after the last draw the Mythos phase ends");
    assert_eq!(state.active_investigator, Some(InvestigatorId(1)));
}
