use eldritch_dispatch::cards::{CardKind, CardMetadata, CardRegistry};
use eldritch_dispatch::dispatch::apply_player_action;
use eldritch_dispatch::outcome::{EngineOutcome, Event, PlayerAction, Reject, RosterEntry};
use eldritch_dispatch::setup::{INITIAL_HAND_SIZE, STARTING_RESOURCES};
use eldritch_dispatch::state::{
    GameState, Investigator, InvestigatorId, Location, LocationId, Phase, Skills, Status,
};

fn test_investigator(n: u32) -> Investigator {
    Investigator {
        id: InvestigatorId(n),
        name: format!("Investigator {n}"),
        current_location: None,
        skills: Skills { willpower: 3, intellect: 3, combat: 3, agility: 3 },
        max_health: 8,
        damage: 0,
        max_sanity: 8,
        horror: 0,
        clues: 0,
        resources: 5,
        actions_remaining: 3,
        status: Status::Active,
        deck: Vec::new(),
        hand: Vec::new(),
        discard: Vec::new(),
        cards_in_play: Vec::new(),
        threat_area: Vec::new(),
        removed_from_game: Vec::new(),
    }
}

fn preseated() -> GameState {
    let mut s = GameState::new();
    s.investigators.push(test_investigator(1));
    s.turn_order.push(InvestigatorId(1));
    s
}

fn start(state: &mut GameState, roster: Vec<RosterEntry>) -> (EngineOutcome, Vec<Event>) {
    let mut events = Vec::new();
    let outcome = apply_player_action(state, &mut events, &PlayerAction::StartScenario { roster });
    (outcome, events)
}

fn card(code: &str, kind: CardKind) -> CardMetadata {
    CardMetadata {
        code: code.to_string(),
        name: format!("Card {code}"),
        kind,
        traits: Vec::new(),
        weakness: false,
        surge: false,
        peril: false,
        abilities: Vec::new(),
        back_abilities: Vec::new(),
        fast: false,
        cost: None,
        only_during_turn: false,
    }
}

fn registry() -> CardRegistry {
    CardRegistry {
        cards: vec![
            card(
                "01001",
                CardKind::Investigator {
                    skills: Skills { willpower: 3, intellect: 3, combat: 4, agility: 2 },
                    health: 9,
                    sanity: 5,
                },
            ),
            card("01020", CardKind::Asset),
        ],
    }
}

#[test]
fn start_scenario_rejects_when_roster_would_seat_zero_investigators() {
    let mut state = GameState::new();
    let (outcome, events) = start(&mut state, vec![]);
    assert!(matches!(outcome, EngineOutcome::Rejected { .. }));
    assert_eq!(state.round, 0, "state unchanged on reject");
    assert!(events.is_empty(), "no events on reject");
}

#[test]
fn start_scenario_empty_roster_passes_through_with_preseated_investigator() {
    let mut state = preseated();
    let (outcome, _events) = start(&mut state, vec![]);
    assert!(matches!(outcome, EngineOutcome::Done));
    assert_eq!(state.round, 1);
}

#[test]
fn start_scenario_shuffles_the_encounter_deck() {
    let mut state = preseated();
    let codes = ["e1", "e2", "e3", "e4", "e5"];
    state.encounter_deck = codes.iter().map(|c| c.to_string()).collect();
    let (outcome, events) = start(&mut state, vec![]);
    assert!(matches!(outcome, EngineOutcome::Done));
    assert!(events.iter().any(|e| matches!(e, Event::EncounterDeckShuffled)));
    let mut after: Vec<&str> = state.encounter_deck.iter().map(|c| c.as_str()).collect();
    after.sort_unstable();
    assert_eq!(after, codes, "shuffle preserves the deck's contents");
}

#[test]
fn start_scenario_rejects_unresolvable_roster_entry() {
    let mut state = GameState::new();
    let roster = vec![RosterEntry { investigator: "01001".to_string(), deck: vec![] }];
    let (outcome, events) = start(&mut state, roster);
    assert!(matches!(outcome, EngineOutcome::Rejected { .. }));
    assert_eq!(state.round, 0, "state unchanged on reject");
    assert!(events.is_empty());
}

#[test]
fn start_scenario_without_registry_names_the_missing_card_data() {
    let mut state = GameState::new();
    let roster = vec![RosterEntry { investigator: "01001".to_string(), deck: vec![] }];
    let (outcome, _) = start(&mut state, roster);
    assert!(matches!(outcome, EngineOutcome::Rejected { reason: Reject::NoRegistry }));
}

#[test]
fn start_scenario_rejects_unknown_and_non_investigator_codes() {
    let mut state = GameState::new();
    state.registry = Some(registry());
    let unknown = vec![RosterEntry { investigator: "99999".to_string(), deck: vec![] }];
    let (outcome, events) = start(&mut state, unknown);
    assert!(matches!(outcome, EngineOutcome::Rejected { reason: Reject::UnknownCard }));
    assert!(events.is_empty());
    let asset = vec![RosterEntry { investigator: "01020".to_string(), deck: vec![] }];
    let (outcome, _) = start(&mut state, asset);
    assert!(matches!(outcome, EngineOutcome::Rejected { reason: Reject::NotAnInvestigator }));
    assert_eq!(state.round, 0);
    assert!(state.investigators.is_empty());
}

#[test]
fn start_scenario_refuses_a_scenario_already_under_way() {
    let mut state = preseated();
    state.round = 3;
    let (outcome, events) = start(&mut state, vec![]);
    assert!(matches!(outcome, EngineOutcome::Rejected { reason: Reject::AlreadyStarted }));
    assert_eq!(state.round, 3);
    assert!(events.is_empty());
}

#[test]
fn start_scenario_seats_a_registry_investigator_with_an_opening_hand() {
    let mut state = GameState::new();
    state.registry = Some(registry());
    state.locations.push(Location::new(LocationId(1), "study".to_string(), 2));
    state.next_location_id = 2;
    state.starting_location = Some(LocationId(1));
    let deck: Vec<String> = (0..8).map(|k| format!("c{k}")).collect();
    let roster = vec![RosterEntry { investigator: "01001".to_string(), deck: deck.clone() }];
    let (outcome, events) = start(&mut state, roster);
    assert!(matches!(outcome, EngineOutcome::Done));
    assert_eq!(state.round, 1);
    assert_eq!(state.phase, Phase::Investigation);
    assert!(events.iter().any(|e| matches!(e, Event::ScenarioStarted)));
    assert_eq!(state.investigators.len(), 1);
    let seated = &state.investigators[0];
    assert_eq!(seated.skills, Skills { willpower: 3, intellect: 3, combat: 4, agility: 2 });
    assert_eq!(seated.max_health, 9);
    assert_eq!(seated.max_sanity, 5);
    assert_eq!(seated.resources, STARTING_RESOURCES);
    assert_eq!(seated.current_location, Some(LocationId(1)));
    assert_eq!(seated.hand.len(), INITIAL_HAND_SIZE);
    assert_eq!(seated.deck.len() + seated.hand.len(), deck.len());
    let mut all: Vec<String> = seated.deck.iter().chain(seated.hand.iter()).cloned().collect();
    all.sort();
    let mut expected = deck.clone();
    expected.sort();
    assert_eq!(all, expected, "dealing keeps every card of the deck");
    assert!(state.turn_order.contains(&seated.id));
}

#[test]
fn start_scenario_shuffle_is_deterministic_for_a_seed() {
    let build = || {
        let mut s = preseated();
        s.rng = 42;
        s.encounter_deck = (0..10).map(|k| format!("e{k}")).collect();
        s
    };
    let mut a = build();
    let mut b = build();
    start(&mut a, vec![]);
    start(&mut b, vec![]);
    assert_eq!(a.encounter_deck, b.encounter_deck);
    assert_eq!(a.rng, b.rng);
}

#[test]
fn start_scenario_refuses_seats_whose_ids_would_overflow() {
    let mut state = GameState::new();
    state.registry = Some(registry());
    state.investigators.push(test_investigator(u32::MAX));
    state.turn_order.push(InvestigatorId(u32::MAX));
    let roster = vec![RosterEntry { investigator: "01001".to_string(), deck: vec![] }];
    let (outcome, events) = start(&mut state, roster);
    assert!(matches!(outcome, EngineOutcome::Rejected { reason: Reject::IdsExhausted }));
    assert!(events.is_empty());
    assert_eq!(state.round, 0);
    assert_eq!(state.investigators.len(), 1);
    assert_eq!(state.turn_order, vec![InvestigatorId(u32::MAX)]);
}

#[test]
fn start_scenario_numbers_new_seats_after_the_ids_in_use() {
    let mut state = GameState::new();
    state.registry = Some(registry());
    state.investigators.push(test_investigator(5));
    state.turn_order.push(InvestigatorId(5));
    let roster = vec![
        RosterEntry { investigator: "01001".to_string(), deck: vec![] },
        RosterEntry { investigator: "01001".to_string(), deck: vec![] },
    ];
    let (outcome, _events) = start(&mut state, roster);
    assert!(matches!(outcome, EngineOutcome::Done));
    let ids: Vec<u32> = state.investigators.iter().map(|i| i.id.0).collect();
    assert_eq!(ids, vec![5, 6, 7]);
    assert_eq!(state.turn_order, vec![InvestigatorId(5), InvestigatorId(6), InvestigatorId(7)]);
    assert_eq!(state.round, 1);
    assert_eq!(state.phase, Phase::Investigation);
}

#[test]
fn start_scenario_seeds_the_mulligan_cursor_and_waits_for_mulligans() {
    let mut state = GameState::new();
    state.investigators.push(test_investigator(1));
    state.investigators.push(test_investigator(2));
    state.turn_order = vec![InvestigatorId(1), InvestigatorId(2)];
    let (outcome, events) = start(&mut state, vec![]);
    assert!(matches!(outcome, EngineOutcome::Done));
    assert_eq!(state.mulligan_pending, Some(InvestigatorId(1)));
    assert_eq!(state.active_investigator, None, "the Investigation phase waits for the mulligans");
    assert_eq!(state.phase, Phase::Investigation);
    assert!(!events.iter().any(|e| matches!(e, Event::PhaseStarted { .. })));
    let (early, _) = {
        let mut ev = Vec::new();
        let o = apply_player_action(&mut state, &mut ev, &PlayerAction::EndTurn);
        (o, ev)
    };
    assert!(matches!(early, EngineOutcome::Rejected { reason: Reject::MulliganPending }));
}
