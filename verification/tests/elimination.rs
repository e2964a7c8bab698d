use eldritch_dispatch::elimination::{apply_investigator_defeat, defeat_investigator, take_damage, take_horror};
use eldritch_dispatch::outcome::Event;
use eldritch_dispatch::state::{
    CardInPlay, CardInstanceId, Continuation, DefeatCause, Enemy, EnemyId, GameState, Investigator,
    InvestigatorId, Location, LocationId, Phase, Prey, ScenarioEnding, Skills, Status,
};

fn test_investigator(n: u32) -> Investigator {
    Investigator {
        id: InvestigatorId(n),
        name: format!("Investigator {n}"),
        current_location: None,
        skills: Skills { willpower: 3, intellect: 3, combat: 3, agility: 3 },
        max_health: 8,
        damage: 0,
        max_sanity: 8,
        horror: 0,
        clues: 0,
        resources: 5,
        actions_remaining: 3,
        status: Status::Active,
        deck: Vec::new(),
        hand: Vec::new(),
        discard: Vec::new(),
        cards_in_play: Vec::new(),
        threat_area: Vec::new(),
        removed_from_game: Vec::new(),
    }
}

fn test_location(n: u32, code: &str) -> Location {
    Location::new(LocationId(n), code.to_string(), 0)
}

fn test_enemy(n: u32, code: &str) -> Enemy {
    Enemy {
        id: EnemyId(n),
        code: code.to_string(),
        fight: 2,
        evade: 2,
        max_health: 2,
        damage: 0,
        attack_damage: 1,
        attack_horror: 1,
        current_location: None,
        exhausted: false,
        traits: Vec::new(),
        engaged_with: None,
        hunter: false,
        prey: Prey::Default,
        retaliate: false,
        victory: None,
    }
}

fn build(invs: Vec<Investigator>, locs: Vec<Location>, enemies: Vec<Enemy>, order: &[u32]) -> GameState {
    let mut s = GameState::new();
    for l in locs {
        if l.id.0 >= s.next_location_id {
            s.next_location_id = l.id.0 + 1;
        }
        s.locations.push(l);
    }
    for e in enemies {
        if e.id.0 >= s.next_enemy_id {
            s.next_enemy_id = e.id.0 + 1;
        }
        s.enemies.push(e);
    }
    s.investigators = invs;
    s.turn_order = order.iter().map(|n| InvestigatorId(*n)).collect();
    s
}

fn inv(s: &GameState, n: u32) -> &Investigator {
    s.investigators.iter().find(|i| i.id == InvestigatorId(n)).expect("seated")
}

fn loc(s: &GameState, n: u32) -> &Location {
    s.locations.iter().find(|l| l.id == LocationId(n)).expect("in play")
}

fn enemy(s: &GameState, n: u32) -> &Enemy {
    s.enemies.iter().find(|e| e.id == EnemyId(n)).expect("in play")
}

fn two_investigator_open_turn(whose: u32) -> GameState {
    let mut first = test_investigator(1);
    first.actions_remaining = 2;
    let mut second = test_investigator(2);
    second.actions_remaining = 2;
    let mut s = build(vec![first, second], vec![], vec![], &[1, 2]);
    s.phase = Phase::Investigation;
    s.active_investigator = Some(InvestigatorId(whose));
    s.continuations.push(Continuation::InvestigatorTurn { investigator: InvestigatorId(whose), ending: false });
    s
}

fn turn_frame(s: &GameState) -> Option<(InvestigatorId, bool)> {
    s.continuations.iter().rev().find_map(|c| match c {
        Continuation::InvestigatorTurn { investigator, ending } => Some((*investigator, *ending)),
        _ => None,
    })
}

#[test]
fn elimination_step1_removes_controlled_and_owned_cards() {
    let id = InvestigatorId(1);
    let mut i = test_investigator(1);
    i.hand = vec!["h1".to_string(), "h2".to_string()];
    i.deck = vec!["d1".to_string()];
    i.discard = vec!["x1".to_string()];
    i.cards_in_play = vec![CardInPlay::enter_play("p1".to_string(), CardInstanceId(1))];
    let mut state = build(vec![i], vec![], vec![], &[]);
    let mut events = Vec::new();

    apply_investigator_defeat(&mut state, &mut events, id, DefeatCause::Damage);

    let after = inv(&state, 1);
    assert!(after.hand.is_empty(), "hand drained");
    assert!(after.deck.is_empty(), "deck drained");
    assert!(after.discard.is_empty(), "discard drained");
    assert!(after.cards_in_play.is_empty(), "cards_in_play drained");
    let removed: Vec<&str> = after.removed_from_game.iter().map(|c| c.as_str()).collect();
    assert_eq!(removed.len(), 5, "all controlled/owned cards removed");
    assert!(removed.contains(&"p1"));
    assert!(removed.contains(&"h1"));
    assert!(removed.contains(&"d1"));
    assert!(removed.contains(&"x1"));
}

#[test]
fn elimination_step2_places_clues_at_location_and_zeroes_resources() {
    let id = InvestigatorId(1);
    let mut i = test_investigator(1);
    i.current_location = Some(LocationId(1));
    i.clues = 2;
    i.resources = 4;
    let mut l = test_location(1, "Study");
    l.clues = 1;
    let mut state = build(vec![i], vec![l], vec![], &[]);
    let mut events = Vec::new();

    apply_investigator_defeat(&mut state, &mut events, id, DefeatCause::Damage);

    assert_eq!(loc(&state, 1).clues, 3, "2 investigator clues added to location's 1");
    assert_eq!(inv(&state, 1).clues, 0, "investigator clues cleared");
    assert_eq!(inv(&state, 1).resources, 0, "resources returned to pool");
    assert!(events.iter().any(|e| matches!(e,
        Event::LocationCluesChanged { location, new_count: 3 } if *location == LocationId(1))));
}

#[test]
fn elimination_step3_disengages_then_reengages_ready_enemy_onto_survivor() {
    let dead = InvestigatorId(1);
    let surv = InvestigatorId(2);
    let mut dying = test_investigator(1);
    dying.current_location = Some(LocationId(1));
    let mut survivor = test_investigator(2);
    survivor.current_location = Some(LocationId(1));
    let mut e = test_enemy(1, "Ghoul");
    e.current_location = Some(LocationId(1));
    e.engaged_with = Some(dead);
    let mut state = build(vec![dying, survivor], vec![test_location(1, "Study")], vec![e], &[1, 2]);
    let mut events = Vec::new();

    apply_investigator_defeat(&mut state, &mut events, dead, DefeatCause::Damage);

    assert!(events.iter().any(|ev| matches!(ev,
        Event::EnemyDisengaged { enemy, investigator } if *enemy == EnemyId(1) && *investigator == dead)));
    assert_eq!(enemy(&state, 1).engaged_with, Some(surv), "ready enemy re-engages the co-located survivor");
    assert!(events.iter().any(|ev| matches!(ev,
        Event::EnemyEngaged { enemy, investigator } if *enemy == EnemyId(1) && *investigator == surv)));
    assert_eq!(enemy(&state, 1).current_location, Some(LocationId(1)));
    assert_eq!(inv(&state, 1).current_location, None, "eliminated => between locations");
}

#[test]
fn elimination_step3_solo_defeat_leaves_enemy_unengaged() {
    let dead = InvestigatorId(1);
    let mut dying = test_investigator(1);
    dying.current_location = Some(LocationId(1));
    let mut e = test_enemy(1, "Ghoul");
    e.current_location = Some(LocationId(1));
    e.engaged_with = Some(dead);
    let mut state = build(vec![dying], vec![test_location(1, "Study")], vec![e], &[1]);
    let mut events = Vec::new();

    apply_investigator_defeat(&mut state, &mut events, dead, DefeatCause::Damage);

    assert!(events.iter().any(|ev| matches!(ev,
        Event::EnemyDisengaged { enemy, investigator } if *enemy == EnemyId(1) && *investigator == dead)));
    assert_eq!(enemy(&state, 1).engaged_with, None, "no surviving co-located investigator => stays unengaged");
    assert!(!events.iter().any(|ev| matches!(ev, Event::EnemyEngaged { .. })));
}

#[test]
fn last_investigator_defeated_latches_lost_resolution() {
    let id = InvestigatorId(1);
    let mut i = test_investigator(1);
    i.horror = 7;
    let mut state = build(vec![i], vec![], vec![], &[1]);
    state.phase = Phase::Investigation;
    state.active_investigator = Some(id);
    let mut events = Vec::new();

    take_horror(&mut state, &mut events, id, 1);

    assert!(events.iter().any(|e| matches!(e, Event::AllInvestigatorsDefeated)));
    assert_eq!(state.ending, Some(ScenarioEnding::NoResolution),
        "no-remaining-players must latch NoResolution, not a resolution point");
}

#[test]
fn elimination_runs_on_horror_defeat_too() {
    let dead = InvestigatorId(1);
    let surv = InvestigatorId(2);
    let mut dying = test_investigator(1);
    dying.current_location = Some(LocationId(1));
    dying.clues = 1;
    let mut survivor = test_investigator(2);
    survivor.current_location = Some(LocationId(1));
    let mut e = test_enemy(1, "Whippoorwill");
    e.current_location = Some(LocationId(1));
    e.engaged_with = Some(dead);
    let mut state = build(vec![dying, survivor], vec![test_location(1, "Study")], vec![e], &[1, 2]);
    let mut events = Vec::new();

    apply_investigator_defeat(&mut state, &mut events, dead, DefeatCause::Horror);

    assert_eq!(inv(&state, 1).status, Status::Insane);
    assert_eq!(loc(&state, 1).clues, 1, "clue placed at location");
    assert_eq!(enemy(&state, 1).engaged_with, Some(surv), "re-engaged survivor");
    assert_eq!(inv(&state, 1).current_location, None);
}

#[test]
fn elimination_step3_exhausted_engaged_enemy_disengages_but_does_not_reengage() {
    let dead = InvestigatorId(1);
    let mut dying = test_investigator(1);
    dying.current_location = Some(LocationId(1));
    let mut survivor = test_investigator(2);
    survivor.current_location = Some(LocationId(1));
    let mut e = test_enemy(1, "Ghoul");
    e.current_location = Some(LocationId(1));
    e.engaged_with = Some(dead);
    e.exhausted = true;
    let mut state = build(vec![dying, survivor], vec![test_location(1, "Study")], vec![e], &[1, 2]);
    let mut events = Vec::new();

    apply_investigator_defeat(&mut state, &mut events, dead, DefeatCause::Damage);

    assert!(events.iter().any(|ev| matches!(ev,
        Event::EnemyDisengaged { enemy, investigator } if *enemy == EnemyId(1) && *investigator == dead)));
    assert_eq!(enemy(&state, 1).engaged_with, None);
    assert!(!events.iter().any(|ev| matches!(ev, Event::EnemyEngaged { .. })));
}

#[test]
fn elimination_without_location_skips_clue_placement_and_does_not_panic() {
    let id = InvestigatorId(1);
    let mut i = test_investigator(1);
    i.current_location = None;
    i.clues = 3;
    i.resources = 2;
    let mut state = build(vec![i], vec![], vec![], &[]);
    let mut events = Vec::new();

    apply_investigator_defeat(&mut state, &mut events, id, DefeatCause::Damage);

    assert_eq!(inv(&state, 1).clues, 0, "clues cleared (left play)");
    assert_eq!(inv(&state, 1).resources, 0, "resources returned");
    assert!(!events.iter().any(|e| matches!(e, Event::LocationCluesChanged { .. })));
}

#[test]
fn elimination_without_registry_treats_threat_area_as_scenario_owned() {
    let id = InvestigatorId(1);
    let mut i = test_investigator(1);
    i.threat_area = vec![CardInPlay::enter_play("01165".to_string(), CardInstanceId(1))];
    let mut state = build(vec![i], vec![], vec![], &[]);
    let mut events = Vec::new();

    apply_investigator_defeat(&mut state, &mut events, id, DefeatCause::Damage);

    assert!(inv(&state, 1).threat_area.is_empty(), "threat area drained");
    assert_eq!(state.encounter_discard.len(), 1, "no registry => routed to the encounter discard");
    assert!(inv(&state, 1).removed_from_game.is_empty());
}

#[test]
fn defeat_during_your_own_turn_arms_the_turn_frame_and_announces_the_end() {
    let dead = InvestigatorId(1);
    let mut state = two_investigator_open_turn(1);
    let mut events = Vec::new();

    apply_investigator_defeat(&mut state, &mut events, dead, DefeatCause::Damage);

    assert_eq!(turn_frame(&state), Some((dead, true)),
        "an eliminated investigator cannot take an action, so the turn goes to 2.2.2");
    assert!(events.iter().any(|e| matches!(e, Event::TurnEnded { investigator } if *investigator == dead)));
    assert_eq!(inv(&state, 1).actions_remaining, 2, "the action that killed them stays charged");
}

#[test]
fn defeat_outside_your_turn_leaves_the_active_investigators_frame_alone() {
    let active = InvestigatorId(1);
    let dead = InvestigatorId(2);
    let mut state = two_investigator_open_turn(1);
    let mut events = Vec::new();

    apply_investigator_defeat(&mut state, &mut events, dead, DefeatCause::Damage);

    assert_eq!(turn_frame(&state), Some((active, false)),
        "the active investigator's turn is untouched by someone else's defeat");
    assert!(!events.iter().any(|e| matches!(e, Event::TurnEnded { .. })));
}

#[test]
fn defeat_with_no_turn_frame_at_all_is_a_no_op() {
    let dead = InvestigatorId(1);
    let mut state = build(vec![test_investigator(1)], vec![], vec![], &[1]);
    state.phase = Phase::Mythos;
    let mut events = Vec::new();

    apply_investigator_defeat(&mut state, &mut events, dead, DefeatCause::Horror);

    assert_eq!(turn_frame(&state), None);
    assert!(!events.iter().any(|e| matches!(e, Event::TurnEnded { .. })));
}

#[test]
fn defeat_while_the_turn_is_already_ending_does_not_re_announce_it() {
    let dead = InvestigatorId(1);
    let mut state = two_investigator_open_turn(1);
    for c in state.continuations.iter_mut() {
        if let Continuation::InvestigatorTurn { ending, .. } = c {
            *ending = true;
        }
    }
    let mut events = Vec::new();

    apply_investigator_defeat(&mut state, &mut events, dead, DefeatCause::Damage);

    assert_eq!(turn_frame(&state), Some((dead, true)));
    assert!(!events.iter().any(|e| matches!(e, Event::TurnEnded { .. })));
}

#[test]
fn resigning_during_your_own_turn_ends_it_too() {
    let dead = InvestigatorId(1);
    let mut state = two_investigator_open_turn(1);
    let mut events = Vec::new();

    apply_investigator_defeat(&mut state, &mut events, dead, DefeatCause::Resigned);

    assert_eq!(inv(&state, 1).status, Status::Resigned);
    assert_eq!(turn_frame(&state), Some((dead, true)));
}

#[test]
fn a_card_ability_defeat_is_neither_killed_nor_insane() {
    let a = InvestigatorId(1);
    let mut state = two_investigator_open_turn(1);
    let mut events = Vec::new();

    defeat_investigator(&mut state, &mut events, a);

    assert_eq!(inv(&state, 1).status, Status::DefeatedByCardAbility, "not Killed and not Insane");
    assert!(events.iter().any(|e| matches!(e,
        Event::InvestigatorDefeated { investigator, cause } if *investigator == a && *cause == DefeatCause::CardAbility)));
    assert_eq!(inv(&state, 2).status, Status::Active, "the other investigator is untouched");
    assert!(state.ending.is_none(), "one active investigator remains, so the scenario has not ended");
}

#[test]
fn a_card_ability_defeating_the_last_investigator_latches_no_resolution() {
    let mut state = two_investigator_open_turn(1);
    let mut events = Vec::new();

    defeat_investigator(&mut state, &mut events, InvestigatorId(1));
    defeat_investigator(&mut state, &mut events, InvestigatorId(2));

    assert!(events.iter().any(|e| matches!(e, Event::AllInvestigatorsDefeated)));
    assert_eq!(state.ending, Some(ScenarioEnding::NoResolution), "Elimination step 6, not a numbered resolution");
}

#[test]
fn a_card_ability_defeat_no_ops_on_an_already_eliminated_investigator() {
    let a = InvestigatorId(1);
    let mut state = two_investigator_open_turn(2);
    state.investigators[0].status = Status::Resigned;
    let mut events = Vec::new();

    defeat_investigator(&mut state, &mut events, a);

    assert_eq!(inv(&state, 1).status, Status::Resigned, "the resigned investigator is left alone");
    assert!(!events.iter().any(|e| matches!(e, Event::InvestigatorDefeated { .. })));
}

#[test]
fn damage_below_the_threshold_only_places_damage() {
    let id = InvestigatorId(1);
    let mut state = build(vec![test_investigator(1)], vec![], vec![], &[1]);
    let mut events = Vec::new();

    take_damage(&mut state, &mut events, id, 3);

    assert_eq!(inv(&state, 1).damage, 3);
    assert_eq!(inv(&state, 1).status, Status::Active);
    assert!(events.iter().any(|e| matches!(e, Event::DamageTaken { investigator, amount: 3 } if *investigator == id)));
    assert!(!events.iter().any(|e| matches!(e, Event::InvestigatorDefeated { .. })));
}

#[test]
fn lethal_damage_kills_once_and_later_damage_is_ignored() {
    let id = InvestigatorId(1);
    let mut state = build(vec![test_investigator(1), test_investigator(2)], vec![], vec![], &[1, 2]);
    let mut events = Vec::new();

    take_damage(&mut state, &mut events, id, 8);
    take_damage(&mut state, &mut events, id, 2);

    assert_eq!(inv(&state, 1).status, Status::Killed);
    let defeats = events.iter().filter(|e| matches!(e, Event::InvestigatorDefeated { .. })).count();
    assert_eq!(defeats, 1, "an investigator is defeated once");
    let hits = events.iter().filter(|e| matches!(e, Event::DamageTaken { .. })).count();
    assert_eq!(hits, 1, "damage to an eliminated investigator is not placed");
}
