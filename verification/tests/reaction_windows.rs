use eldritch_dispatch::cards::{
    Ability, CardKind, CardMetadata, CardRegistry, Effect, EventPattern, EventTiming, SkillTestKind,
    TestOutcome, Trigger, TriggerKind,
};
use eldritch_dispatch::dispatch::{resolve_input, drive_frames};
use eldritch_dispatch::emit::TimingEvent;
use eldritch_dispatch::forced_triggers::{collect_forced_hits, ForcedTriggerPoint};
use eldritch_dispatch::outcome::{
    EngineOutcome, Event, InputResponse, LapseReason, OptionTarget, PromptKind, Reject,
};
use eldritch_dispatch::phases::open_fast_window;
use eldritch_dispatch::plays::{any_fast_play_eligible, check_play_card, enumerate_fast_plays};
use eldritch_dispatch::queue::{candidate_anchor, queue_event, build_resolution_options};
use eldritch_dispatch::reactions::{candidate_source_present, scan_reactions_at, trigger_matches};
use eldritch_dispatch::state::{
    Act, CardInPlay, CardInstanceId, CandidateSource, Continuation, EnemyId, GameState, Investigator,
    InvestigatorId, Location, LocationId, Phase, PhaseStep, ResolutionCandidate, Skills, Status,
};

fn test_investigator(n: u32) -> Investigator {
    Investigator {
        id: InvestigatorId(n),
        name: format!("Investigator {n}"),
        current_location: None,
        skills: Skills { willpower: 3, intellect: 3, combat: 3, agility: 3 },
        max_health: 8,
        damage: 0,
        max_sanity: 8,
        horror: 0,
        clues: 0,
        resources: 5,
        actions_remaining: 3,
        status: Status::Active,
        deck: Vec::new(),
        hand: Vec::new(),
        discard: Vec::new(),
        cards_in_play: Vec::new(),
        threat_area: Vec::new(),
        removed_from_game: Vec::new(),
    }
}

#[test]
fn resolution_options_anchor_by_candidate_source() {
    let cands = vec![
        ResolutionCandidate::new("_inplay".to_string(), InvestigatorId(1), 0, CandidateSource::InPlay(CardInstanceId(9))),
        ResolutionCandidate::new("01022".to_string(), InvestigatorId(1), 0, CandidateSource::Hand),
        ResolutionCandidate::new("_board".to_string(), InvestigatorId(1), 0, CandidateSource::Board),
    ];
    let opts = build_resolution_options(&cands, None, None);
    assert!(matches!(opts[0].target, Some(OptionTarget::CardInstance(CardInstanceId(9)))));
    assert!(matches!(&opts[1].target,
        Some(OptionTarget::HandCardByCode { investigator, code }) if *investigator == InvestigatorId(1) && code == "01022"));
    assert!(matches!(opts[2].target, Some(OptionTarget::Global)));
}

#[test]
fn board_candidate_matching_current_act_anchors_to_act() {
    let act = "01109".to_string();
    let cands = vec![
        ResolutionCandidate::new(act.clone(), InvestigatorId(1), 0, CandidateSource::Board),
        ResolutionCandidate::new("_other_board".to_string(), InvestigatorId(1), 0, CandidateSource::Board),
    ];
    let opts = build_resolution_options(&cands, Some(&act), None);
    assert!(matches!(opts[0].target, Some(OptionTarget::Act)));
    assert!(matches!(opts[1].target, Some(OptionTarget::Global)));
}

#[test]
fn candidate_anchor_maps_each_source() {
    let act = "01109".to_string();
    let agenda = "01105".to_string();
    let inplay = ResolutionCandidate::new("01020".to_string(), InvestigatorId(1), 0, CandidateSource::InPlay(CardInstanceId(5)));
    let location = ResolutionCandidate::new("01113".to_string(), InvestigatorId(1), 0, CandidateSource::Location(LocationId(7)));
    let hand = ResolutionCandidate::new("01022".to_string(), InvestigatorId(2), 0, CandidateSource::Hand);
    let board_act = ResolutionCandidate::new(act.clone(), InvestigatorId(1), 0, CandidateSource::Board);
    let board_other = ResolutionCandidate::new("_other".to_string(), InvestigatorId(1), 0, CandidateSource::Board);
    let board_agenda = ResolutionCandidate::new(agenda.clone(), InvestigatorId(1), 0, CandidateSource::Board);

    assert!(matches!(candidate_anchor(&inplay, Some(&act), Some(&agenda)), OptionTarget::CardInstance(CardInstanceId(5))));
    assert!(matches!(candidate_anchor(&hand, Some(&act), Some(&agenda)),
        OptionTarget::HandCardByCode { investigator, ref code } if investigator == InvestigatorId(2) && code == "01022"));
    assert!(matches!(candidate_anchor(&board_act, Some(&act), Some(&agenda)), OptionTarget::Act));
    assert!(matches!(candidate_anchor(&board_other, Some(&act), Some(&agenda)), OptionTarget::Global));
    assert!(matches!(candidate_anchor(&location, Some(&act), Some(&agenda)), OptionTarget::Location(LocationId(7))));
    assert!(matches!(candidate_anchor(&board_agenda, Some(&act), Some(&agenda)), OptionTarget::Agenda));
}

#[test]
fn open_fast_window_with_no_eligibility_auto_skips_inline() {
    let mut state = GameState::new();
    state.investigators.push(test_investigator(1));
    let mut events = Vec::new();

    open_fast_window(&mut state, &mut events, PhaseStep::MythosAfterDraws);

    assert!(!state.continuations.iter().any(|c| matches!(c, Continuation::FastWindow { .. })),
        "auto-skip must not leave the window on the stack");
}

const INV: InvestigatorId = InvestigatorId(1);
const SOME_CODE: &str = "_synth_card";

fn reaction(pattern: EventPattern, timing: EventTiming, effect: Effect, usage_limit: Option<u8>) -> Ability {
    Ability { trigger: Trigger::OnEvent { pattern, timing, kind: TriggerKind::Reaction }, effect, usage_limit }
}

fn after_your_defeat() -> EventPattern {
    EventPattern::EnemyDefeated { by_controller: true, code: None }
}

fn card(code: &str, kind: CardKind, abilities: Vec<Ability>, fast: bool, cost: Option<u8>) -> CardMetadata {
    CardMetadata {
        code: code.to_string(),
        name: format!("Card {code}"),
        kind,
        traits: Vec::new(),
        weakness: false,
        surge: false,
        peril: false,
        abilities,
        back_abilities: Vec::new(),
        fast,
        cost,
        only_during_turn: false,
    }
}

/// An investigator card with a once-per-round "after you defeat an enemy:
/// gain 1 resource" reaction, a Fast reaction event costing 1 that deals
/// its player 1 horror, a plain asset, a Fast asset, and a reaction event.
fn registry() -> CardRegistry {
    CardRegistry {
        cards: vec![
            card("r_inplay", CardKind::Asset, vec![reaction(after_your_defeat(), EventTiming::After, Effect::GainResources(1), Some(1))], false, Some(0)),
            card("r_event", CardKind::Event, vec![reaction(after_your_defeat(), EventTiming::After, Effect::DealHorror(1), None)], true, Some(1)),
            card("asset", CardKind::Asset, Vec::new(), false, Some(2)),
            card("fast_asset", CardKind::Asset, Vec::new(), true, Some(1)),
            card("plain_event", CardKind::Event, vec![Ability { trigger: Trigger::OnPlay, effect: Effect::GainResources(2), usage_limit: None }], false, Some(0)),
            card("noop_event", CardKind::Event, vec![Ability { trigger: Trigger::OnPlay, effect: Effect::Nothing, usage_limit: None }], false, Some(0)),
        ],
    }
}

fn seated(hand: &[&str], in_play: &[(&str, u32)], resources: u8) -> GameState {
    let mut s = GameState::new();
    let mut inv = test_investigator(1);
    inv.resources = resources;
    inv.hand = hand.iter().map(|c| c.to_string()).collect();
    inv.cards_in_play = in_play.iter().map(|(c, i)| CardInPlay::enter_play(c.to_string(), CardInstanceId(*i))).collect();
    s.investigators.push(inv);
    s.turn_order.push(INV);
    s.active_investigator = Some(INV);
    s.phase = Phase::Investigation;
    s.registry = Some(registry());
    s
}

fn defeat_by(by: u32) -> TimingEvent {
    TimingEvent::EnemyDefeated { enemy: EnemyId(1), by: Some(InvestigatorId(by)), code: "01160".to_string() }
}

fn open_window(state: &mut GameState, event: &TimingEvent) -> (EngineOutcome, Vec<Event>) {
    let mut events = Vec::new();
    queue_event(state, event);
    let outcome = drive_frames(state, &mut events);
    (outcome, events)
}

fn window_candidates(state: &GameState) -> Vec<ResolutionCandidate> {
    match state.continuations.last() {
        Some(Continuation::ReactionWindow { candidates, .. }) => candidates.iter()
            .map(|c| ResolutionCandidate::new(c.code.clone(), c.controller, c.address, c.source))
            .collect(),
        _ => Vec::new(),
    }
}

#[test]
fn check_play_card_returns_err_for_unknown_hand_index() {
    let mut state = GameState::new();
    state.investigators.push(test_investigator(1));
    state.active_investigator = Some(INV);
    let err = check_play_card(&state, INV, 0).err().expect("empty hand should reject");
    assert!(err.message().contains("hand_index"), "error should mention hand_index, got: {}", err.message());
}

#[test]
fn check_play_card_returns_err_when_investigator_missing() {
    let state = GameState::new();
    let err = check_play_card(&state, InvestigatorId(99), 0).err().expect("missing investigator should reject");
    assert!(err.message().contains("not in state"), "error should say not in state, got: {}", err.message());
}

#[test]
fn a_pattern_pairs_with_its_condition_in_every_cell() {
    let attack = TimingEvent::EnemyAttacks { enemy: EnemyId(1), investigator: INV };
    let discover = TimingEvent::WouldDiscoverClues { investigator: INV, location: LocationId(2), count: 1 };
    assert!(trigger_matches(&attack, &EventPattern::EnemyAttacks, INV));
    assert!(trigger_matches(&discover, &EventPattern::DiscoverClues, INV));
    assert!(!trigger_matches(&attack, &EventPattern::DiscoverClues, INV));
}

#[test]
fn round_ended_matches_its_own_pattern_board_scoped() {
    assert!(trigger_matches(&TimingEvent::RoundEnded, &EventPattern::RoundEnded, INV));
    assert!(trigger_matches(&TimingEvent::RoundEnded, &EventPattern::RoundEnded, InvestigatorId(2)));
    assert!(!trigger_matches(&TimingEvent::RoundEnded, &EventPattern::EnemyAttacks, INV));
}

#[test]
fn soak_event_matches_only_the_self_soak_pattern() {
    let soak = TimingEvent::EnemyAttackDamagedSelf { asset: CardInstanceId(7), enemy: EnemyId(1), controller: INV };
    assert!(trigger_matches(&soak, &EventPattern::EnemyAttackDamagedSelf, INV));
    assert!(!trigger_matches(&soak, &EventPattern::EnemyDefeated { by_controller: false, code: None }, INV));
    let defeat = TimingEvent::EnemyDefeated { enemy: EnemyId(1), by: Some(INV), code: "01000".to_string() };
    assert!(!trigger_matches(&defeat, &EventPattern::EnemyAttackDamagedSelf, INV));
}

#[test]
fn returns_false_when_no_investigators() {
    let state = GameState::new();
    assert!(!any_fast_play_eligible(&state));
}

#[test]
fn returns_false_when_hands_and_in_play_empty() {
    let mut state = GameState::new();
    state.investigators.push(test_investigator(1));
    assert!(!any_fast_play_eligible(&state));
}

#[test]
fn enumerate_fast_plays_empty_when_nothing_eligible() {
    let mut state = GameState::new();
    state.phase = Phase::Investigation;
    state.active_investigator = Some(INV);
    state.investigators.push(test_investigator(1));
    assert!(enumerate_fast_plays(&state).is_empty());
}

fn candidate(source: CandidateSource) -> ResolutionCandidate {
    ResolutionCandidate::new(SOME_CODE.to_string(), INV, 0, source)
}

#[test]
fn a_hand_candidate_is_present_only_while_the_code_is_in_hand() {
    let mut state = GameState::new();
    let mut inv = test_investigator(1);
    inv.hand.push(SOME_CODE.to_string());
    state.investigators.push(inv);
    assert!(candidate_source_present(&state, &candidate(CandidateSource::Hand)));
    state.investigators[0].hand.clear();
    assert!(!candidate_source_present(&state, &candidate(CandidateSource::Hand)));
}

#[test]
fn an_in_play_candidate_is_present_only_while_its_instance_is() {
    let mut state = GameState::new();
    let mut inv = test_investigator(1);
    inv.cards_in_play.push(CardInPlay::enter_play(SOME_CODE.to_string(), CardInstanceId(7)));
    state.investigators.push(inv);
    assert!(candidate_source_present(&state, &candidate(CandidateSource::InPlay(CardInstanceId(7)))));
    assert!(!candidate_source_present(&state, &candidate(CandidateSource::InPlay(CardInstanceId(8)))));
}

#[test]
fn a_board_candidate_is_present_only_while_it_is_the_current_act_or_agenda() {
    let mut state = GameState::new();
    state.investigators.push(test_investigator(1));
    assert!(!candidate_source_present(&state, &candidate(CandidateSource::Board)));
}

#[test]
fn a_location_candidate_tracks_its_location() {
    let mut state = GameState::new();
    state.investigators.push(test_investigator(1));
    state.locations.push(Location::new(LocationId(10), "Study".to_string(), 0));
    state.next_location_id = 11;
    assert!(candidate_source_present(&state, &candidate(CandidateSource::Location(LocationId(10)))));
    assert!(!candidate_source_present(&state, &candidate(CandidateSource::Location(LocationId(11)))));
}

#[test]
fn a_board_candidate_on_the_current_act_is_present() {
    let mut state = GameState::new();
    state.act_deck.push(Act { code: SOME_CODE.to_string(), clue_threshold: 0, round_end_advance: None });
    assert!(candidate_source_present(&state, &candidate(CandidateSource::Board)));
}

#[test]
fn skill_test_reaction_is_scoped_to_the_tester_and_outcome() {
    let pattern = EventPattern::SkillTestResolved { kind: Some(SkillTestKind::Investigate), outcome: TestOutcome::Success };
    let ok = TimingEvent::SkillTestResolved { investigator: INV, kind: SkillTestKind::Investigate, outcome: TestOutcome::Success };
    let other = TimingEvent::SkillTestResolved { investigator: InvestigatorId(2), kind: SkillTestKind::Investigate, outcome: TestOutcome::Success };
    let failed = TimingEvent::SkillTestResolved { investigator: INV, kind: SkillTestKind::Investigate, outcome: TestOutcome::Failure };
    assert!(trigger_matches(&ok, &pattern, INV));
    assert!(!trigger_matches(&other, &pattern, INV));
    assert!(!trigger_matches(&failed, &pattern, INV));
}

#[test]
fn defeat_reaction_narrowed_to_the_controller() {
    assert!(trigger_matches(&defeat_by(1), &after_your_defeat(), INV));
    assert!(!trigger_matches(&defeat_by(2), &after_your_defeat(), INV));
    assert!(trigger_matches(&defeat_by(2), &EventPattern::EnemyDefeated { by_controller: false, code: None }, INV));
}

#[test]
fn scan_offers_in_play_reactions_then_hand_plays() {
    let state = seated(&["r_event", "asset"], &[("r_inplay", 5)], 3);
    let found = scan_reactions_at(&state, &defeat_by(1), EventTiming::After);
    assert_eq!(found.len(), 2);
    assert_eq!(found[0].source, CandidateSource::InPlay(CardInstanceId(5)));
    assert_eq!(found[1].source, CandidateSource::Hand);
    assert_eq!(found[1].code, "r_event");
    assert!(scan_reactions_at(&state, &defeat_by(1), EventTiming::When).is_empty(), "wrong cell");
    assert!(scan_reactions_at(&state, &defeat_by(2), EventTiming::After).is_empty(), "someone else's defeat");
}

#[test]
fn an_unaffordable_fast_event_is_not_offered() {
    let state = seated(&["r_event"], &[], 0);
    assert!(scan_reactions_at(&state, &defeat_by(1), EventTiming::After).is_empty());
}

#[test]
fn a_reaction_window_prompts_fires_and_counts_its_use() {
    let mut state = seated(&[], &[("r_inplay", 5)], 3);
    let (outcome, _) = open_window(&mut state, &defeat_by(1));
    match outcome {
        EngineOutcome::AwaitingInput { request } => {
            assert_eq!(request.kind, PromptKind::ReactionWindow);
            assert_eq!(request.options.len(), 1);
            assert!(matches!(request.options[0].target, Some(OptionTarget::CardInstance(CardInstanceId(5)))));
        },
        _ => panic!("expected a reaction prompt"),
    }
    let mut events = Vec::new();
    let outcome = resolve_input(&mut state, &mut events, &InputResponse::PickSingle(0));
    assert!(matches!(outcome, EngineOutcome::Done));
    assert_eq!(state.investigators[0].resources, 4, "the reaction's effect resolved");
    assert!(!state.continuations.iter().any(|c| matches!(c, Continuation::ReactionWindow { .. })), "window closed");
    assert_eq!(state.ability_usage.len(), 1);
    assert_eq!(state.ability_usage[0].count, 1);
    // Limit once per round: a second defeat this round offers nothing.
    let (outcome, _) = open_window(&mut state, &defeat_by(1));
    assert!(matches!(outcome, EngineOutcome::Done));
    assert!(state.continuations.is_empty());
}

#[test]
fn skipping_a_reaction_window_closes_it_untouched() {
    let mut state = seated(&[], &[("r_inplay", 5)], 3);
    open_window(&mut state, &defeat_by(1));
    let mut events = Vec::new();
    let outcome = resolve_input(&mut state, &mut events, &InputResponse::Skip);
    assert!(matches!(outcome, EngineOutcome::Done));
    assert!(state.continuations.is_empty());
    assert_eq!(state.investigators[0].resources, 3);
    assert!(events.is_empty());
}

#[test]
fn a_pick_out_of_range_or_of_the_wrong_kind_is_refused() {
    let mut state = seated(&[], &[("r_inplay", 5)], 3);
    open_window(&mut state, &defeat_by(1));
    let mut events = Vec::new();
    let outcome = resolve_input(&mut state, &mut events, &InputResponse::PickSingle(3));
    assert!(matches!(outcome, EngineOutcome::Rejected { reason: Reject::OptionOutOfRange }));
    let outcome = resolve_input(&mut state, &mut events, &InputResponse::Confirm);
    assert!(matches!(outcome, EngineOutcome::Rejected { reason: Reject::WrongResponseKind }));
    assert_eq!(window_candidates(&state).len(), 1, "the window stays for a retry");
    assert!(events.is_empty());
}

#[test]
fn playing_a_fast_event_pays_discards_and_resolves() {
    let mut state = seated(&["r_event"], &[], 2);
    open_window(&mut state, &defeat_by(1));
    let mut events = Vec::new();
    let outcome = resolve_input(&mut state, &mut events, &InputResponse::PickSingle(0));
    assert!(matches!(outcome, EngineOutcome::Done));
    let inv = &state.investigators[0];
    assert_eq!(inv.resources, 1, "cost paid");
    assert!(inv.hand.is_empty());
    assert_eq!(inv.discard, vec!["r_event".to_string()]);
    assert_eq!(inv.horror, 1, "its effect resolved");
    assert!(events.iter().any(|e| matches!(e, Event::CardPlayed { investigator, code } if *investigator == INV && code == "r_event")));
}

#[test]
fn a_sibling_that_can_no_longer_be_paid_for_lapses() {
    let mut state = seated(&["r_event", "r_event"], &[], 1);
    let (outcome, _) = open_window(&mut state, &defeat_by(1));
    match outcome {
        EngineOutcome::AwaitingInput { request } => assert_eq!(request.options.len(), 2),
        _ => panic!("expected both copies offered"),
    }
    let mut events = Vec::new();
    let outcome = resolve_input(&mut state, &mut events, &InputResponse::PickSingle(0));
    assert!(matches!(outcome, EngineOutcome::Done));
    assert!(events.iter().any(|e| matches!(e,
        Event::ReactionOptionLapsed { investigator, code, reason: LapseReason::CostUnpayable }
            if *investigator == INV && code == "r_event")));
    assert!(state.continuations.is_empty(), "the emptied window closed");
    assert_eq!(state.investigators[0].hand.len(), 1, "the second copy stays in hand");
}

#[test]
fn a_plain_asset_is_playable_on_your_turn_with_an_action_and_the_cost() {
    let state = seated(&["asset"], &[], 2);
    let ok = check_play_card(&state, INV, 0).ok().expect("playable");
    assert!(!ok.is_fast);
    let poor = seated(&["asset"], &[], 1);
    assert!(matches!(check_play_card(&poor, INV, 0), Err(Reject::CannotAfford)));
    let mut tired = seated(&["asset"], &[], 2);
    tired.investigators[0].actions_remaining = 0;
    assert!(matches!(check_play_card(&tired, INV, 0), Err(Reject::NoActionLeft)));
    let mut mythos = seated(&["asset"], &[], 2);
    mythos.phase = Phase::Mythos;
    assert!(matches!(check_play_card(&mythos, INV, 0), Err(Reject::NotPlayableNow)));
}

#[test]
fn events_that_cannot_change_anything_or_answer_a_trigger_are_not_played() {
    let state = seated(&["noop_event", "r_event", "plain_event"], &[], 5);
    assert!(matches!(check_play_card(&state, INV, 0), Err(Reject::NoStateChange)));
    assert!(matches!(check_play_card(&state, INV, 1), Err(Reject::ReactionEventOnly)));
    assert!(check_play_card(&state, INV, 2).is_ok());
}

#[test]
fn a_fast_asset_is_a_fast_play_on_your_turn_but_not_off_it() {
    let state = seated(&["fast_asset", "asset"], &[], 5);
    let plays = enumerate_fast_plays(&state);
    assert_eq!(plays.len(), 1);
    assert_eq!(plays[0].hand_index, 0);
    assert!(any_fast_play_eligible(&state));
    let mut off_turn = seated(&["fast_asset"], &[], 5);
    off_turn.active_investigator = None;
    assert!(!any_fast_play_eligible(&off_turn));
}

#[test]
fn skill_test_resolution_fires_forced_abilities_attached_to_the_tested_location() {
    let fog = Ability {
        trigger: Trigger::OnEvent {
            pattern: EventPattern::SkillTestResolved { kind: Some(SkillTestKind::Investigate), outcome: TestOutcome::Success },
            timing: EventTiming::After,
            kind: TriggerKind::Forced,
        },
        effect: Effect::DealHorror(1),
        usage_limit: None,
    };
    let mut state = GameState::new();
    state.registry = Some(CardRegistry { cards: vec![card("fog", CardKind::Treachery, vec![fog], false, None)] });
    state.investigators.push(test_investigator(1));
    state.turn_order.push(INV);
    let mut study = Location::new(LocationId(1), "study".to_string(), 2);
    study.attachments.push(CardInPlay::enter_play("fog".to_string(), CardInstanceId(7)));
    state.locations.push(study);
    state.next_location_id = 2;
    let point = ForcedTriggerPoint::SkillTestResolved {
        investigator: INV,
        kind: SkillTestKind::Investigate,
        outcome: TestOutcome::Success,
    };

    let none = collect_forced_hits(&state, &point, EventTiming::After);
    assert!(none.is_empty(), "no skill test in flight at the location: nothing attached answers");

    state.skill_test_location = Some(LocationId(1));
    let hits = collect_forced_hits(&state, &point, EventTiming::After);
    assert_eq!(hits.len(), 1);
    assert_eq!(hits[0].code, "fog");
    assert_eq!(hits[0].controller, INV);
    assert!(matches!(hits[0].source, CandidateSource::InPlay(CardInstanceId(7))));
}

#[test]
fn a_queued_timing_point_sits_above_the_phase_it_interrupts() {
    let mut state = GameState::new();
    state.continuations.push(Continuation::NextPhase);
    let out = queue_event(&mut state, &TimingEvent::RoundEnded);
    assert!(matches!(out, EngineOutcome::Done));
    assert_eq!(state.continuations.len(), 2);
    assert!(matches!(state.continuations[0], Continuation::NextPhase), "the phase's continuation stays beneath");
    assert!(matches!(state.continuations[1], Continuation::EmitEvent { event: TimingEvent::RoundEnded, .. }));
}
