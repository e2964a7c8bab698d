use eldritch_dispatch::location_reveal::reveal_location;
use eldritch_dispatch::outcome::Event;
use eldritch_dispatch::state::{
    ClueValue, GameState, Investigator, InvestigatorId, Location, LocationId, Skills, Status,
};

fn test_investigator(n: u32) -> Investigator {
    Investigator {
        id: InvestigatorId(n),
        name: format!("Investigator {n}"),
        current_location: None,
        skills: Skills { willpower: 3, intellect: 3, combat: 3, agility: 3 },
        max_health: 8,
        damage: 0,
        max_sanity: 8,
        horror: 0,
        clues: 0,
        resources: 5,
        actions_remaining: 3,
        status: Status::Active,
        deck: Vec::new(),
        hand: Vec::new(),
        discard: Vec::new(),
        cards_in_play: Vec::new(),
        threat_area: Vec::new(),
        removed_from_game: Vec::new(),
    }
}

fn unrevealed(id: u32, code: &str, printed: ClueValue) -> Location {
    let mut loc = Location::new(LocationId(id), code.to_string(), 0);
    loc.revealed = false;
    loc.printed_clues = printed;
    loc.clues = 0;
    loc
}

fn state_with(invs: Vec<Investigator>, loc: Location) -> GameState {
    let mut s = GameState::new();
    s.next_location_id = loc.id.0 + 1;
    s.locations.push(loc);
    s.investigators = invs;
    s
}

#[test]
fn reveal_places_per_investigator_clues_times_count() {
    let mut state = state_with(vec![test_investigator(1), test_investigator(2)], unrevealed(5, "x", ClueValue::PerInvestigator(2)));
    let mut events = Vec::new();

    reveal_location(&mut state, &mut events, LocationId(5));

    let loc = &state.locations[0];
    assert!(loc.revealed);
    assert_eq!(loc.clues, 4, "2 per-investigator x 2 investigators");
    assert!(events.iter().any(|e| matches!(e, Event::LocationRevealed { location, clues } if *location == LocationId(5) && *clues == 4)));
}

#[test]
fn reveal_places_fixed_clues_regardless_of_count() {
    let mut state = state_with(vec![test_investigator(1), test_investigator(2)], unrevealed(5, "x", ClueValue::Fixed(3)));
    let mut events = Vec::new();

    reveal_location(&mut state, &mut events, LocationId(5));

    assert_eq!(state.locations[0].clues, 3);
}

#[test]
fn reveal_is_idempotent_on_already_revealed() {
    let mut state = state_with(vec![test_investigator(1)], Location::new(LocationId(5), "x".to_string(), 9));
    let mut events = Vec::new();

    reveal_location(&mut state, &mut events, LocationId(5));

    assert_eq!(state.locations[0].clues, 9, "unchanged");
    assert!(!events.iter().any(|e| matches!(e, Event::LocationRevealed { .. })));
}
