use eldritch_dispatch::activation::{check_activate_ability, AbilitySource};
use eldritch_dispatch::cards::{
    Ability, CardKind, CardMetadata, CardRegistry, Effect, EventPattern, EventTiming, Trigger,
    TriggerKind,
};
use eldritch_dispatch::outcome::Reject;
use eldritch_dispatch::state::{
    CardInPlay, CardInstanceId, ClueValue, GameState, Investigator, InvestigatorId, Location, LocationId, Phase, Skills,
    Status, UsageCounter,
};

const INV: InvestigatorId = InvestigatorId(1);

fn test_investigator(n: u32) -> Investigator {
    Investigator {
        id: InvestigatorId(n),
        name: format!("Investigator {n}"),
        current_location: None,
        skills: Skills { willpower: 3, intellect: 3, combat: 3, agility: 3 },
        max_health: 8,
        damage: 0,
        max_sanity: 8,
        horror: 0,
        clues: 0,
        resources: 5,
        actions_remaining: 3,
        status: Status::Active,
        deck: Vec::new(),
        hand: Vec::new(),
        discard: Vec::new(),
        cards_in_play: Vec::new(),
        threat_area: Vec::new(),
        removed_from_game: Vec::new(),
    }
}

fn activated(effect: Effect, usage_limit: Option<u8>) -> Ability {
    Ability { trigger: Trigger::Activated, effect, usage_limit }
}

fn card(code: &str, kind: CardKind, abilities: Vec<Ability>) -> CardMetadata {
    CardMetadata {
        code: code.to_string(),
        name: format!("Card {code}"),
        kind,
        traits: Vec::new(),
        weakness: false,
        surge: false,
        peril: false,
        abilities,
        back_abilities: Vec::new(),
        fast: false,
        cost: Some(0),
        only_during_turn: false,
    }
}

/// A tool whose action gains a resource (once per round), a trinket whose
/// action does nothing, a charm with only a reaction, a study whose action
/// gains a resource, and a vault whose action is limited.
fn registry() -> CardRegistry {
    let reaction = Ability {
        trigger: Trigger::OnEvent {
            pattern: EventPattern::EnemyDefeated { by_controller: true, code: None },
            timing: EventTiming::After,
            kind: TriggerKind::Reaction,
        },
        effect: Effect::GainResources(1),
        usage_limit: None,
    };
    CardRegistry {
        cards: vec![
            card("tool", CardKind::Asset, vec![activated(Effect::GainResources(1), Some(1))]),
            card("trinket", CardKind::Asset, vec![activated(Effect::Nothing, None)]),
            card("charm", CardKind::Asset, vec![reaction]),
            card("study", CardKind::Location { clues: ClueValue::Fixed(2) }, vec![activated(Effect::GainResources(1), None)]),
            card("vault", CardKind::Location { clues: ClueValue::Fixed(1) }, vec![activated(Effect::GainResources(1), Some(1))]),
        ],
    }
}

/// Investigator 1 on their Investigation turn at the study (location 1),
/// with the tool (instance 5), the trinket (6) and the charm (7) in play;
/// the vault (location 2) holds a story tool (instance 8), and the study a
/// story tool (instance 9).
fn seated() -> GameState {
    let mut s = GameState::new();
    let mut inv = test_investigator(1);
    inv.current_location = Some(LocationId(1));
    inv.cards_in_play = vec![
        CardInPlay::enter_play("tool".to_string(), CardInstanceId(5)),
        CardInPlay::enter_play("trinket".to_string(), CardInstanceId(6)),
        CardInPlay::enter_play("charm".to_string(), CardInstanceId(7)),
    ];
    s.investigators.push(inv);
    s.turn_order.push(INV);
    let mut study = Location::new(LocationId(1), "study".to_string(), 0);
    study.cards_at_location.push(CardInPlay::enter_play("tool".to_string(), CardInstanceId(9)));
    let mut vault = Location::new(LocationId(2), "vault".to_string(), 0);
    vault.cards_at_location.push(CardInPlay::enter_play("tool".to_string(), CardInstanceId(8)));
    s.locations.push(study);
    s.locations.push(vault);
    s.next_location_id = 3;
    s.active_investigator = Some(INV);
    s.phase = Phase::Investigation;
    s.round = 1;
    s.registry = Some(registry());
    s
}

#[test]
fn check_activate_ability_returns_err_for_unreachable_source() {
    let mut state = GameState::new();
    state.investigators.push(test_investigator(1));
    state.active_investigator = Some(INV);
    let err = check_activate_ability(&state, INV, AbilitySource::InPlay(CardInstanceId(999)), 0)
        .err()
        .expect("a source the investigator cannot reach should reject");
    assert!(err.message().contains("cannot reach"), "error should say the source is unreachable, got: {}", err.message());
}

#[test]
fn check_activate_ability_returns_err_when_investigator_missing() {
    let state = GameState::new();
    let err = check_activate_ability(&state, InvestigatorId(99), AbilitySource::InPlay(CardInstanceId(1)), 0)
        .err()
        .expect("missing investigator should reject");
    assert!(err.message().contains("not in state"), "error should say not in state, got: {}", err.message());
}

#[test]
fn an_action_ability_on_a_controlled_card_is_activatable_on_your_turn() {
    let state = seated();
    let ok = check_activate_ability(&state, INV, AbilitySource::InPlay(CardInstanceId(5)), 0).ok().expect("activatable");
    assert_eq!(ok.source_code, "tool");
    assert_eq!(ok.effect, Effect::GainResources(1));
    assert_eq!(ok.action_cost, 1);
}

#[test]
fn cards_and_the_location_where_you_are_are_reachable_and_nothing_elsewhere() {
    let state = seated();
    let here = check_activate_ability(&state, INV, AbilitySource::InPlay(CardInstanceId(9)), 0).ok().expect("a card at your location");
    assert_eq!(here.source_code, "tool");
    let place = check_activate_ability(&state, INV, AbilitySource::Location(LocationId(1)), 0).ok().expect("your location");
    assert_eq!(place.source_code, "study");
    assert!(matches!(
        check_activate_ability(&state, INV, AbilitySource::InPlay(CardInstanceId(8)), 0),
        Err(Reject::SourceUnreachable)
    ));
    assert!(matches!(
        check_activate_ability(&state, INV, AbilitySource::Location(LocationId(2)), 0),
        Err(Reject::SourceUnreachable)
    ));
}

#[test]
fn each_activation_check_refuses_with_its_own_reason() {
    let state = seated();
    assert!(matches!(check_activate_ability(&state, INV, AbilitySource::InPlay(CardInstanceId(5)), 1), Err(Reject::NoSuchAbility)));
    assert!(matches!(check_activate_ability(&state, INV, AbilitySource::InPlay(CardInstanceId(7)), 0), Err(Reject::NoSuchAbility)));
    assert!(matches!(check_activate_ability(&state, INV, AbilitySource::InPlay(CardInstanceId(6)), 0), Err(Reject::NoStateChange)));

    let mut killed = seated();
    killed.investigators[0].status = Status::Killed;
    assert!(matches!(check_activate_ability(&killed, INV, AbilitySource::InPlay(CardInstanceId(5)), 0), Err(Reject::NotActive)));

    let mut bare = seated();
    bare.registry = None;
    assert!(matches!(check_activate_ability(&bare, INV, AbilitySource::InPlay(CardInstanceId(5)), 0), Err(Reject::NoRegistry)));

    let mut mythos = seated();
    mythos.phase = Phase::Mythos;
    assert!(matches!(check_activate_ability(&mythos, INV, AbilitySource::InPlay(CardInstanceId(5)), 0), Err(Reject::NotActivatableNow)));

    let mut tired = seated();
    tired.investigators[0].actions_remaining = 0;
    assert!(matches!(check_activate_ability(&tired, INV, AbilitySource::InPlay(CardInstanceId(5)), 0), Err(Reject::NoActionLeft)));
}

#[test]
fn a_limited_ability_is_refused_once_used_this_round_and_on_a_location() {
    let mut used = seated();
    used.ability_usage.push(UsageCounter { instance: CardInstanceId(5), address: 0, round: 1, count: 1 });
    assert!(matches!(check_activate_ability(&used, INV, AbilitySource::InPlay(CardInstanceId(5)), 0), Err(Reject::LimitReached)));
    let mut last_round = seated();
    last_round.ability_usage.push(UsageCounter { instance: CardInstanceId(5), address: 0, round: 0, count: 1 });
    assert!(check_activate_ability(&last_round, INV, AbilitySource::InPlay(CardInstanceId(5)), 0).is_ok());

    let mut at_vault = seated();
    at_vault.investigators[0].current_location = Some(LocationId(2));
    assert!(matches!(check_activate_ability(&at_vault, INV, AbilitySource::Location(LocationId(2)), 0), Err(Reject::UntrackableLimit)));
}
