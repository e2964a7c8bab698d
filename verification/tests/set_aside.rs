use eldritch_dispatch::outcome::EngineOutcome;
use eldritch_dispatch::set_aside::put_set_aside_card_into_play;
use eldritch_dispatch::state::{GameState, Investigator, InvestigatorId, Skills, Status};

fn test_investigator(n: u32) -> Investigator {
    Investigator {
        id: InvestigatorId(n),
        name: format!("Investigator {n}"),
        current_location: None,
        skills: Skills { willpower: 3, intellect: 3, combat: 3, agility: 3 },
        max_health: 8,
        damage: 0,
        max_sanity: 8,
        horror: 0,
        clues: 0,
        resources: 5,
        actions_remaining: 3,
        status: Status::Active,
        deck: Vec::new(),
        hand: Vec::new(),
        discard: Vec::new(),
        cards_in_play: Vec::new(),
        threat_area: Vec::new(),
        removed_from_game: Vec::new(),
    }
}

fn one_seated() -> GameState {
    let mut s = GameState::new();
    s.investigators.push(test_investigator(1));
    s.turn_order.push(InvestigatorId(1));
    s
}

#[test]
fn rejects_a_code_that_is_not_set_aside() {
    let mut state = one_seated();
    let mut events = Vec::new();

    let outcome = put_set_aside_card_into_play(&mut state, &mut events, "01116", Some("01112"));

    assert!(matches!(outcome, EngineOutcome::Rejected { .. }), "a code that isn't set aside must reject");
    assert!(state.enemies.is_empty(), "no enemy minted on reject");
    assert!(state.locations.is_empty(), "no location minted on reject");
}

#[test]
fn keeps_the_code_aside_on_a_failed_entry() {
    let mut state = one_seated();
    state.set_aside_cards.push("01116".to_string());
    let mut events = Vec::new();

    let outcome = put_set_aside_card_into_play(&mut state, &mut events, "01116", Some("01112"));

    assert!(matches!(outcome, EngineOutcome::Rejected { .. }), "an entry that cannot complete must reject");
    assert_eq!(state.set_aside_cards, vec!["01116".to_string()], "the code stays set aside when the entry rejects");
    assert!(state.enemies.is_empty(), "no enemy minted on reject");
}
