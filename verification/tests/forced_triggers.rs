use eldritch_dispatch::outcome::{EngineOutcome, InputResponse, OptionTarget};
use eldritch_dispatch::queue::{drive_acknowledge_forced, resume_acknowledge_forced, resume_forced_run};
use eldritch_dispatch::cards::Effect;
use eldritch_dispatch::state::{
    Agenda, CandidateSource, CardInstanceId, Continuation, GameState, InvestigatorId, LocationId,
    ResolutionCandidate,
};

fn ack_state(code: &str, source: CandidateSource) -> GameState {
    let mut state = GameState::new();
    state.continuations.push(Continuation::AcknowledgeForced {
        candidate: ResolutionCandidate::new(code.to_string(), InvestigatorId(1), 0, source),
    });
    state
}

#[test]
fn acknowledge_forced_suspends_then_pops_on_pick() {
    let mut state = ack_state("01113", CandidateSource::Location(LocationId(1)));

    match drive_acknowledge_forced(&state) {
        EngineOutcome::AwaitingInput { request } => {
            assert_eq!(request.options.len(), 1, "forced ack is a one-option pick");
        },
        _ => panic!("expected one-option suspend"),
    }

    let out = resume_acknowledge_forced(&mut state, &InputResponse::PickSingle(0));
    assert!(matches!(out, EngineOutcome::Done));
    assert!(state.continuations.is_empty(), "the AcknowledgeForced frame must be popped on resume");
}

#[test]
fn acknowledge_forced_rejects_non_pick_response() {
    let mut state = ack_state("01113", CandidateSource::Location(LocationId(1)));

    let out = resume_acknowledge_forced(&mut state, &InputResponse::Confirm);

    assert!(matches!(out, EngineOutcome::Rejected { .. }));
    assert!(matches!(state.continuations.last(), Some(Continuation::AcknowledgeForced { .. })),
        "a rejected resume must leave the frame in place");
}

#[test]
fn acknowledge_forced_anchors_the_option_to_its_source_card() {
    let state = ack_state("01020", CandidateSource::InPlay(CardInstanceId(5)));
    match drive_acknowledge_forced(&state) {
        EngineOutcome::AwaitingInput { request } => {
            assert_eq!(request.options.len(), 1, "forced ack is a one-option pick");
            assert!(matches!(request.options[0].target, Some(OptionTarget::CardInstance(CardInstanceId(5)))));
        },
        _ => panic!("expected one-option suspend"),
    }
}

#[test]
fn acknowledge_forced_anchors_a_location_source_to_its_map_node() {
    let state = ack_state("01113", CandidateSource::Location(LocationId(3)));
    match drive_acknowledge_forced(&state) {
        EngineOutcome::AwaitingInput { request } => {
            assert_eq!(request.options.len(), 1, "forced ack is a one-option pick");
            assert!(matches!(request.options[0].target, Some(OptionTarget::Location(LocationId(3)))));
        },
        _ => panic!("expected one-option suspend"),
    }
}

#[test]
fn acknowledge_forced_anchors_an_agenda_source_to_the_agenda_card() {
    let mut state = ack_state("01105", CandidateSource::Board);
    state.agenda_deck = vec![Agenda { code: "01105".to_string(), doom_threshold: 3 }];
    state.agenda_index = 0;
    match drive_acknowledge_forced(&state) {
        EngineOutcome::AwaitingInput { request } => {
            assert_eq!(request.options.len(), 1, "forced ack is a one-option pick");
            assert!(matches!(request.options[0].target, Some(OptionTarget::Agenda)));
        },
        _ => panic!("expected one-option suspend"),
    }
}

#[test]
fn forced_run_pick_without_card_data_pushes_an_effect_that_does_nothing() {
    let mut state = GameState::new();
    let a = ResolutionCandidate::new("01105".to_string(), InvestigatorId(1), 0, CandidateSource::Board);
    let b = ResolutionCandidate::new("01106".to_string(), InvestigatorId(2), 3, CandidateSource::Board);
    state.continuations.push(Continuation::ForcedRun { candidates: vec![a, b] });

    let out = resume_forced_run(&mut state, &InputResponse::PickSingle(1));

    assert!(matches!(out, EngineOutcome::Done));
    assert_eq!(state.continuations.len(), 2);
    match &state.continuations[0] {
        Continuation::ForcedRun { candidates } => {
            assert_eq!(candidates.len(), 1);
            assert_eq!(candidates[0].code, "01105");
        },
        _ => panic!("the run stays beneath the picked effect"),
    }
    assert!(matches!(
        state.continuations[1],
        Continuation::Effect { effect: Effect::Nothing, controller: InvestigatorId(2), source: None }
    ));
}
