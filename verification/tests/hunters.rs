use eldritch_dispatch::cards::{Ability, CardKind, CardMetadata, CardRegistry, Effect, Restriction, Stat, Trigger};
use eldritch_dispatch::dispatch::resolve_input;
use eldritch_dispatch::engagement::reengage_at_location;
use eldritch_dispatch::hunters::{drive_hunter_moves, enemy_can_enter_location};
use eldritch_dispatch::outcome::{EngineOutcome, Event, InputResponse, OptionTarget};
use eldritch_dispatch::prey::{measure_value, resolve_prey, PreyResolution};
use eldritch_dispatch::state::{
    CardInPlay, CardInstanceId, Continuation, Enemy, EnemyId, GameState, Investigator,
    InvestigatorId, Location, LocationId, Phase, Prey, PreyDirection, PreyMeasure, SkillKind,
    Skills, Status,
};

fn test_investigator(n: u32) -> Investigator {
    Investigator {
        id: InvestigatorId(n),
        name: format!("Investigator {n}"),
        current_location: None,
        skills: Skills { willpower: 3, intellect: 3, combat: 3, agility: 3 },
        max_health: 8,
        damage: 0,
        max_sanity: 8,
        horror: 0,
        clues: 0,
        resources: 5,
        actions_remaining: 3,
        status: Status::Active,
        deck: Vec::new(),
        hand: Vec::new(),
        discard: Vec::new(),
        cards_in_play: Vec::new(),
        threat_area: Vec::new(),
        removed_from_game: Vec::new(),
    }
}

fn test_location(n: u32, code: &str) -> Location {
    Location::new(LocationId(n), code.to_string(), 0)
}

fn test_enemy(n: u32, code: &str) -> Enemy {
    Enemy {
        id: EnemyId(n),
        code: code.to_string(),
        fight: 2,
        evade: 2,
        max_health: 2,
        damage: 0,
        attack_damage: 1,
        attack_horror: 1,
        current_location: None,
        exhausted: false,
        traits: Vec::new(),
        engaged_with: None,
        hunter: false,
        prey: Prey::Default,
        retaliate: false,
        victory: None,
    }
}

fn build(invs: Vec<Investigator>, locs: Vec<Location>, enemies: Vec<Enemy>, order: &[u32]) -> GameState {
    let mut s = GameState::new();
    s.phase = Phase::Enemy;
    for l in locs {
        if l.id.0 >= s.next_location_id {
            s.next_location_id = l.id.0 + 1;
        }
        s.locations.push(l);
    }
    for e in enemies {
        if e.id.0 >= s.next_enemy_id {
            s.next_enemy_id = e.id.0 + 1;
        }
        s.enemies.push(e);
    }
    s.investigators = invs;
    s.turn_order = order.iter().map(|n| InvestigatorId(*n)).collect();
    s
}

fn linked(n: u32, code: &str, to: &[u32]) -> Location {
    let mut l = test_location(n, code);
    l.connections = to.iter().map(|t| LocationId(*t)).collect();
    l
}

fn at(mut i: Investigator, loc: u32) -> Investigator {
    i.current_location = Some(LocationId(loc));
    i
}

fn hunter(n: u32, loc: u32) -> Enemy {
    let mut h = test_enemy(n, "Hunter");
    h.hunter = true;
    h.current_location = Some(LocationId(loc));
    h
}

fn enemy(s: &GameState, n: u32) -> &Enemy {
    s.enemies.iter().find(|e| e.id == EnemyId(n)).expect("in play")
}

/// A diamond: A(1) links B(2) and C(3), both link D(4).
fn diamond() -> Vec<Location> {
    vec![linked(1, "A", &[2, 3]), linked(2, "B", &[1, 4]), linked(3, "C", &[1, 4]), linked(4, "D", &[2, 3])]
}

fn pick_location(outcome: &EngineOutcome, target: LocationId) -> InputResponse {
    let EngineOutcome::AwaitingInput { request } = outcome else {
        panic!("expected AwaitingInput");
    };
    let opt = request.options.iter().find(|o| matches!(o.target, Some(OptionTarget::Location(l)) if l == target))
        .expect("offered option");
    InputResponse::PickSingle(opt.id)
}

fn pick_investigator(outcome: &EngineOutcome, target: InvestigatorId) -> InputResponse {
    let EngineOutcome::AwaitingInput { request } = outcome else {
        panic!("expected AwaitingInput");
    };
    let opt = request.options.iter().find(|o| matches!(o.target, Some(OptionTarget::Investigator(i)) if i == target))
        .expect("offered option");
    InputResponse::PickSingle(opt.id)
}

fn card(code: &str, abilities: Vec<Ability>) -> CardMetadata {
    CardMetadata {
        code: code.to_string(),
        name: code.to_string(),
        kind: CardKind::Asset,
        traits: Vec::new(),
        weakness: false,
        surge: false,
        peril: false,
        abilities,
        back_abilities: Vec::new(),
        fast: false,
        cost: None,
        only_during_turn: false,
    }
}

fn constant_modifier(stat: Stat, amount: i8) -> Ability {
    Ability { trigger: Trigger::Constant, effect: Effect::ModifyStat { stat, amount }, usage_limit: None }
}

fn fake_registry() -> CardRegistry {
    CardRegistry {
        cards: vec![
            card("combat+1", vec![constant_modifier(Stat::Combat, 1)]),
            card("combat-5", vec![constant_modifier(Stat::Combat, -5)]),
            card("maxhealth+2", vec![constant_modifier(Stat::MaxHealth, 2)]),
        ],
    }
}

fn investigator_with(cards: &[&str], damage: u8) -> Investigator {
    let mut i = test_investigator(1);
    i.damage = damage;
    i.cards_in_play = cards.iter().enumerate()
        .map(|(k, c)| CardInPlay::enter_play(c.to_string(), CardInstanceId(k as u32)))
        .collect();
    i
}

fn ranked(direction: PreyDirection, measure: PreyMeasure) -> Prey {
    Prey::Ranked { direction, measure }
}

#[test]
fn resolve_prey_default_single_candidate_is_one() {
    let state = build(vec![test_investigator(1)], vec![], vec![], &[]);
    let r = resolve_prey(&state, Prey::Default, &vec![InvestigatorId(1)]);
    assert!(matches!(r, PreyResolution::One(id) if id == InvestigatorId(1)));
}

#[test]
fn resolve_prey_default_multiple_is_tie() {
    let state = build(vec![test_investigator(1), test_investigator(2)], vec![], vec![], &[]);
    let r = resolve_prey(&state, Prey::Default, &vec![InvestigatorId(1), InvestigatorId(2)]);
    assert!(matches!(r, PreyResolution::Tie(ref v) if v.len() == 2));
}

#[test]
fn resolve_prey_empty_is_none() {
    let state = GameState::new();
    let r = resolve_prey(&state, Prey::Default, &vec![]);
    assert!(matches!(r, PreyResolution::Nobody));
}

#[test]
fn resolve_prey_highest_stat_picks_max() {
    let mut hi = test_investigator(1);
    hi.skills.combat = 5;
    let mut lo = test_investigator(2);
    lo.skills.combat = 2;
    let state = build(vec![hi, lo], vec![], vec![], &[]);
    let r = resolve_prey(&state, ranked(PreyDirection::Highest, PreyMeasure::Skill(SkillKind::Combat)),
        &vec![InvestigatorId(1), InvestigatorId(2)]);
    assert!(matches!(r, PreyResolution::One(id) if id == InvestigatorId(1)));
}

#[test]
fn resolve_prey_highest_stat_tie_is_tie() {
    let mut a = test_investigator(1);
    a.skills.combat = 4;
    let mut b = test_investigator(2);
    b.skills.combat = 4;
    let state = build(vec![a, b], vec![], vec![], &[]);
    let r = resolve_prey(&state, ranked(PreyDirection::Highest, PreyMeasure::Skill(SkillKind::Combat)),
        &vec![InvestigatorId(1), InvestigatorId(2)]);
    assert!(matches!(r, PreyResolution::Tie(ref v) if v.len() == 2));
}

#[test]
fn resolve_prey_lowest_remaining_health_picks_min() {
    let mut hurt = test_investigator(1);
    hurt.max_health = 5;
    hurt.damage = 4;
    let mut healthy = test_investigator(2);
    healthy.max_health = 5;
    healthy.damage = 0;
    let state = build(vec![hurt, healthy], vec![], vec![], &[]);
    let r = resolve_prey(&state, ranked(PreyDirection::Lowest, PreyMeasure::RemainingHealth),
        &vec![InvestigatorId(1), InvestigatorId(2)]);
    assert!(matches!(r, PreyResolution::One(id) if id == InvestigatorId(1)));
}

#[test]
fn resolve_prey_lowest_remaining_health_tie_is_tie() {
    let mut a = test_investigator(1);
    a.max_health = 5;
    a.damage = 2;
    let mut b = test_investigator(2);
    b.max_health = 4;
    b.damage = 1;
    let state = build(vec![a, b], vec![], vec![], &[]);
    let r = resolve_prey(&state, ranked(PreyDirection::Lowest, PreyMeasure::RemainingHealth),
        &vec![InvestigatorId(1), InvestigatorId(2)]);
    assert!(matches!(r, PreyResolution::Tie(ref v) if v.len() == 2));
}

#[test]
fn base_value_when_no_registry() {
    let inv = investigator_with(&[], 0);
    assert_eq!(measure_value(None, &inv, PreyMeasure::Skill(SkillKind::Combat)), 3);
}

#[test]
fn folds_constant_skill_modifier() {
    let inv = investigator_with(&["combat+1"], 0);
    let reg = fake_registry();
    assert_eq!(measure_value(Some(&reg), &inv, PreyMeasure::Skill(SkillKind::Combat)), 4);
}

#[test]
fn folds_max_health_modifier_into_remaining_health() {
    let inv = investigator_with(&["maxhealth+2"], 1);
    let reg = fake_registry();
    assert_eq!(measure_value(Some(&reg), &inv, PreyMeasure::RemainingHealth), 9);
}

#[test]
fn clamps_at_zero() {
    let inv = investigator_with(&["combat-5"], 0);
    let reg = fake_registry();
    assert_eq!(measure_value(Some(&reg), &inv, PreyMeasure::Skill(SkillKind::Combat)), 0);
}

#[test]
fn hunter_moves_one_step_toward_investigator_two_hops_away_no_engage() {
    let locs = vec![linked(1, "A", &[2]), linked(2, "B", &[1, 3]), linked(3, "C", &[2])];
    let mut state = build(vec![at(test_investigator(1), 3)], locs, vec![hunter(1, 1)], &[1]);
    let mut events = Vec::new();

    let outcome = drive_hunter_moves(&mut state, &mut events);

    assert!(matches!(outcome, EngineOutcome::Done));
    assert_eq!(enemy(&state, 1).current_location, Some(LocationId(2)));
    assert_eq!(enemy(&state, 1).engaged_with, None);
    assert!(events.iter().any(|e| matches!(e, Event::EnemyMoved { enemy, to } if *enemy == EnemyId(1) && *to == LocationId(2))));
}

#[test]
fn hunter_engages_when_it_moves_into_investigators_location() {
    let locs = vec![linked(1, "A", &[2]), linked(2, "B", &[1])];
    let mut state = build(vec![at(test_investigator(1), 2)], locs, vec![hunter(1, 1)], &[1]);
    let mut events = Vec::new();

    drive_hunter_moves(&mut state, &mut events);

    assert_eq!(enemy(&state, 1).current_location, Some(LocationId(2)));
    assert_eq!(enemy(&state, 1).engaged_with, Some(InvestigatorId(1)));
    assert!(events.iter().any(|e| matches!(e, Event::EnemyEngaged { enemy, investigator } if *enemy == EnemyId(1) && *investigator == InvestigatorId(1))));
}

#[test]
fn hunter_with_no_path_does_not_move() {
    let locs = vec![linked(1, "A", &[]), test_location(9, "Island")];
    let mut state = build(vec![at(test_investigator(1), 1)], locs, vec![hunter(1, 9)], &[1]);
    let mut events = Vec::new();

    drive_hunter_moves(&mut state, &mut events);

    assert_eq!(enemy(&state, 1).current_location, Some(LocationId(9)));
    assert!(!events.iter().any(|e| matches!(e, Event::EnemyMoved { .. })));
}

#[test]
fn exhausted_hunter_is_skipped() {
    let locs = vec![linked(1, "A", &[2]), linked(2, "B", &[1])];
    let mut h = hunter(1, 1);
    h.exhausted = true;
    let mut state = build(vec![at(test_investigator(1), 2)], locs, vec![h], &[1]);
    let mut events = Vec::new();

    drive_hunter_moves(&mut state, &mut events);

    assert_eq!(enemy(&state, 1).current_location, Some(LocationId(1)));
    assert!(!events.iter().any(|e| matches!(e, Event::EnemyMoved { .. })));
}

#[test]
fn non_hunter_enemy_does_not_move() {
    let locs = vec![linked(1, "A", &[2]), linked(2, "B", &[1])];
    let mut e = test_enemy(1, "Slug");
    e.current_location = Some(LocationId(1));
    let mut state = build(vec![at(test_investigator(1), 2)], locs, vec![e], &[1]);
    let mut events = Vec::new();

    drive_hunter_moves(&mut state, &mut events);

    assert_eq!(enemy(&state, 1).current_location, Some(LocationId(1)));
    assert!(!events.iter().any(|e| matches!(e, Event::EnemyMoved { .. })));
}

#[test]
fn hunter_already_co_located_does_not_move_but_engages() {
    let locs = vec![linked(1, "A", &[2]), linked(2, "B", &[1])];
    let mut state = build(vec![at(test_investigator(1), 1)], locs, vec![hunter(1, 1)], &[1]);
    let mut events = Vec::new();

    let outcome = drive_hunter_moves(&mut state, &mut events);

    assert!(matches!(outcome, EngineOutcome::Done));
    assert_eq!(enemy(&state, 1).current_location, Some(LocationId(1)));
    assert_eq!(enemy(&state, 1).engaged_with, Some(InvestigatorId(1)));
    assert!(!events.iter().any(|e| matches!(e, Event::EnemyMoved { .. })));
    assert!(events.iter().any(|e| matches!(e, Event::EnemyEngaged { enemy, investigator } if *enemy == EnemyId(1) && *investigator == InvestigatorId(1))));
}

#[test]
fn hunter_move_tie_suspends_then_resumes_on_pick_location() {
    let mut state = build(vec![at(test_investigator(1), 4)], diamond(), vec![hunter(1, 1)], &[1]);
    let mut events = Vec::new();

    let outcome = drive_hunter_moves(&mut state, &mut events);

    assert!(matches!(outcome, EngineOutcome::AwaitingInput { .. }));
    assert!(matches!(state.continuations.last(), Some(Continuation::HunterMove(_))));
    let mut ev2 = Vec::new();
    let resumed = resolve_input(&mut state, &mut ev2, &pick_location(&outcome, LocationId(3)));
    // The answer carries the Enemy phase on: the attack windows auto-skip
    // and the cascade runs into the next round's Mythos phase, whose
    // encounter draws are player-driven.
    assert!(matches!(resumed, EngineOutcome::Done));
    assert_eq!(state.phase, Phase::Mythos);
    assert_eq!(enemy(&state, 1).current_location, Some(LocationId(3)));
    assert!(!matches!(state.continuations.last(), Some(Continuation::HunterMove(_))));
    assert!(ev2.iter().any(|e| matches!(e, Event::EnemyMoved { enemy, to } if *enemy == EnemyId(1) && *to == LocationId(3))));
}

#[test]
fn hunter_move_tie_rejects_invalid_pick() {
    let mut state = build(vec![at(test_investigator(1), 4)], diamond(), vec![hunter(1, 1)], &[1]);
    let mut events = Vec::new();
    drive_hunter_moves(&mut state, &mut events);
    let mut ev2 = Vec::new();

    let result = resolve_input(&mut state, &mut ev2, &InputResponse::PickSingle(99));

    assert!(matches!(result, EngineOutcome::Rejected { .. }));
    assert!(matches!(state.continuations.last(), Some(Continuation::HunterMove(_))), "pending stays open on invalid pick");
}

#[test]
fn hunter_engage_tie_suspends_then_resumes_on_pick_investigator() {
    let locs = vec![linked(1, "A", &[2]), linked(2, "B", &[1])];
    let mut state = build(vec![at(test_investigator(1), 2), at(test_investigator(2), 2)], locs, vec![hunter(1, 1)], &[1, 2]);
    let mut events = Vec::new();

    let outcome = drive_hunter_moves(&mut state, &mut events);

    assert_eq!(enemy(&state, 1).current_location, Some(LocationId(2)));
    assert!(matches!(outcome, EngineOutcome::AwaitingInput { .. }));
    let mut ev2 = Vec::new();
    let resumed = resolve_input(&mut state, &mut ev2, &pick_investigator(&outcome, InvestigatorId(2)));
    // The answer carries the Enemy phase on: the attack windows auto-skip
    // and the cascade runs into the next round's Mythos phase, whose
    // encounter draws are player-driven.
    assert!(matches!(resumed, EngineOutcome::Done));
    assert_eq!(state.phase, Phase::Mythos);
    assert_eq!(enemy(&state, 1).engaged_with, Some(InvestigatorId(2)));
    assert!(!matches!(state.continuations.last(), Some(Continuation::HunterMove(_))));
}

#[test]
fn highest_combat_prey_breaks_move_tie_without_prompt() {
    let locs = vec![linked(1, "A", &[2, 3]), linked(2, "B", &[1]), linked(3, "C", &[1])];
    let mut inv1 = at(test_investigator(1), 2);
    inv1.skills.combat = 5;
    let mut inv2 = at(test_investigator(2), 3);
    inv2.skills.combat = 2;
    let mut h = hunter(1, 1);
    h.prey = ranked(PreyDirection::Highest, PreyMeasure::Skill(SkillKind::Combat));
    let mut state = build(vec![inv1, inv2], locs, vec![h], &[1, 2]);
    let mut events = Vec::new();

    let outcome = drive_hunter_moves(&mut state, &mut events);

    assert!(matches!(outcome, EngineOutcome::Done));
    assert_eq!(enemy(&state, 1).current_location, Some(LocationId(2)));
    assert_eq!(enemy(&state, 1).engaged_with, Some(InvestigatorId(1)));
}

#[test]
fn multi_hunter_one_suspends_then_next_processed_on_resume() {
    let mut tie_hunter = hunter(1, 1);
    tie_hunter.code = "Tie Hunter".to_string();
    let mut clean_hunter = hunter(2, 2);
    clean_hunter.code = "Clean Hunter".to_string();
    let mut state = build(vec![at(test_investigator(1), 4)], diamond(), vec![tie_hunter, clean_hunter], &[1]);
    let mut events = Vec::new();

    let outcome = drive_hunter_moves(&mut state, &mut events);

    assert!(matches!(outcome, EngineOutcome::AwaitingInput { .. }));
    let mut ev2 = Vec::new();
    let resumed = resolve_input(&mut state, &mut ev2, &pick_location(&outcome, LocationId(2)));
    // The answer carries the Enemy phase on: the attack windows auto-skip
    // and the cascade runs into the next round's Mythos phase, whose
    // encounter draws are player-driven.
    assert!(matches!(resumed, EngineOutcome::Done));
    assert_eq!(state.phase, Phase::Mythos);
    assert_eq!(enemy(&state, 2).current_location, Some(LocationId(4)));
    assert_eq!(enemy(&state, 2).engaged_with, Some(InvestigatorId(1)));
}

#[test]
fn hunter_move_tie_rejects_wrong_response_kind() {
    let mut state = build(vec![at(test_investigator(1), 4)], diamond(), vec![hunter(1, 1)], &[1]);
    let mut events = Vec::new();
    let outcome = drive_hunter_moves(&mut state, &mut events);
    assert!(matches!(outcome, EngineOutcome::AwaitingInput { .. }));
    assert!(matches!(state.continuations.last(), Some(Continuation::HunterMove(_))));
    let mut ev2 = Vec::new();

    let result = resolve_input(&mut state, &mut ev2, &InputResponse::Skip);

    assert!(matches!(result, EngineOutcome::Rejected { .. }), "wrong response kind should be rejected");
    assert!(matches!(state.continuations.last(), Some(Continuation::HunterMove(_))),
        "pending preserved so client can retry with PickSingle");
}

#[test]
fn hunter_engage_tie_rejects_wrong_response_kind() {
    let locs = vec![linked(1, "A", &[2]), linked(2, "B", &[1])];
    let mut state = build(vec![at(test_investigator(1), 2), at(test_investigator(2), 2)], locs, vec![hunter(1, 1)], &[1, 2]);
    let mut events = Vec::new();
    let outcome = drive_hunter_moves(&mut state, &mut events);
    assert_eq!(enemy(&state, 1).current_location, Some(LocationId(2)));
    assert!(matches!(outcome, EngineOutcome::AwaitingInput { .. }));
    assert!(matches!(state.continuations.last(), Some(Continuation::HunterMove(_))));
    let mut ev2 = Vec::new();

    let result = resolve_input(&mut state, &mut ev2, &InputResponse::Skip);

    assert!(matches!(result, EngineOutcome::Rejected { .. }), "wrong response kind should be rejected");
    assert!(matches!(state.continuations.last(), Some(Continuation::HunterMove(_))),
        "pending preserved so client can retry with PickSingle");
}

#[test]
fn reengage_at_location_engages_sole_co_located_survivor() {
    let mut e = test_enemy(1, "Ghoul");
    e.current_location = Some(LocationId(1));
    let mut state = build(vec![at(test_investigator(2), 1)], vec![test_location(1, "Study")], vec![e], &[2]);
    let mut events = Vec::new();

    reengage_at_location(&mut state, &mut events, EnemyId(1));

    assert_eq!(enemy(&state, 1).engaged_with, Some(InvestigatorId(2)));
    assert!(events.iter().any(|ev| matches!(ev, Event::EnemyEngaged { enemy, investigator } if *enemy == EnemyId(1) && *investigator == InvestigatorId(2))));
}

#[test]
fn reengage_at_location_no_co_located_investigator_leaves_unengaged() {
    let mut e = test_enemy(1, "Ghoul");
    e.current_location = Some(LocationId(1));
    let mut state = build(vec![], vec![test_location(1, "Study")], vec![e], &[]);
    let mut events = Vec::new();

    reengage_at_location(&mut state, &mut events, EnemyId(1));

    assert_eq!(enemy(&state, 1).engaged_with, None);
    assert!(!events.iter().any(|ev| matches!(ev, Event::EnemyEngaged { .. })));
}

#[test]
fn reengage_at_location_tie_auto_picks_lead_first_in_turn_order() {
    let mut e = test_enemy(1, "Ghoul");
    e.current_location = Some(LocationId(1));
    let mut state = build(vec![at(test_investigator(2), 1), at(test_investigator(3), 1)], vec![test_location(1, "Study")], vec![e], &[2, 3]);
    let mut events = Vec::new();

    reengage_at_location(&mut state, &mut events, EnemyId(1));

    assert_eq!(enemy(&state, 1).engaged_with, Some(InvestigatorId(2)), "tie engages the lead (turn_order-first)");
    assert!(events.iter().any(|ev| matches!(ev, Event::EnemyEngaged { enemy, investigator } if *enemy == EnemyId(1) && *investigator == InvestigatorId(2))));
}

#[test]
fn reengage_at_location_exhausted_enemy_does_not_engage() {
    let mut e = test_enemy(1, "Ghoul");
    e.current_location = Some(LocationId(1));
    e.exhausted = true;
    let mut state = build(vec![at(test_investigator(2), 1)], vec![test_location(1, "Study")], vec![e], &[2]);
    let mut events = Vec::new();

    reengage_at_location(&mut state, &mut events, EnemyId(1));

    assert_eq!(enemy(&state, 1).engaged_with, None);
    assert!(!events.iter().any(|ev| matches!(ev, Event::EnemyEngaged { .. })));
}

#[test]
fn reengage_at_location_enemy_without_location_is_noop() {
    let e = test_enemy(1, "Ghoul");
    let mut state = build(vec![], vec![], vec![e], &[]);
    let mut events = Vec::new();

    reengage_at_location(&mut state, &mut events, EnemyId(1));

    assert_eq!(enemy(&state, 1).engaged_with, None);
    assert!(!events.iter().any(|ev| matches!(ev, Event::EnemyEngaged { .. })));
}

fn barricade_registry() -> CardRegistry {
    CardRegistry {
        cards: vec![card("barricade", vec![Ability {
            trigger: Trigger::Constant,
            effect: Effect::Restrict(Restriction::EnemyMovementBlocked),
            usage_limit: None,
        }])],
    }
}

#[test]
fn a_barricade_blocks_a_non_elite_enemy_but_not_an_elite_one() {
    let mut l = test_location(1, "Hall");
    l.attachments.push(CardInPlay::enter_play("barricade".to_string(), CardInstanceId(1)));
    let mut state = build(vec![], vec![l, test_location(2, "Study")], vec![], &[]);
    state.registry = Some(barricade_registry());
    let plain = test_enemy(1, "Ghoul");
    let mut elite = test_enemy(2, "Priest");
    elite.traits.push("Elite".to_string());

    assert!(!enemy_can_enter_location(&state, &plain, LocationId(1)));
    assert!(enemy_can_enter_location(&state, &elite, LocationId(1)));
    assert!(enemy_can_enter_location(&state, &plain, LocationId(2)));
}

#[test]
fn a_barricaded_step_routes_the_hunter_around_it() {
    // A(1)-B(2)-D(4) and A(1)-C(3)-D(4); B is barricaded, so the only
    // shortest passable route to D runs through C.
    let mut locs = diamond();
    locs[1].attachments.push(CardInPlay::enter_play("barricade".to_string(), CardInstanceId(1)));
    let mut state = build(vec![at(test_investigator(1), 4)], locs, vec![hunter(1, 1)], &[1]);
    state.registry = Some(barricade_registry());
    let mut events = Vec::new();

    let outcome = drive_hunter_moves(&mut state, &mut events);

    assert!(matches!(outcome, EngineOutcome::Done), "one passable first step: no prompt");
    assert_eq!(enemy(&state, 1).current_location, Some(LocationId(3)));
}

#[test]
fn the_move_tie_lists_destinations_in_ascending_id_order() {
    let mut state = build(vec![at(test_investigator(1), 4)], diamond(), vec![hunter(1, 1)], &[1]);
    let mut events = Vec::new();

    let outcome = drive_hunter_moves(&mut state, &mut events);

    let EngineOutcome::AwaitingInput { request } = outcome else { panic!("expected a prompt") };
    assert_eq!(request.options.len(), 2);
    assert!(matches!(request.options[0].target, Some(OptionTarget::Location(LocationId(2)))));
    assert!(matches!(request.options[1].target, Some(OptionTarget::Location(LocationId(3)))));
}
