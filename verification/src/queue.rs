//! Queueing at timing points: a forced ability's effect goes onto the
//! continuation stack (with a one-option acknowledgement in interactive
//! play), two or more simultaneous forced abilities open an ordered run for
//! the lead to sequence, and the multi-cell round end walks its cells on a
//! frame of its own.
use vstd::prelude::*;

use crate::cards::{CardRegistry, Effect, EventTiming};
use crate::elimination::{harm_result, sat_add_u8, take_damage, take_horror};
use crate::emit::{forced_point_of, opens_reaction_window_spec, reaction_bucket_of, TimingEvent};
use crate::reactions::reactions_at;
use crate::forced_triggers::{
    collect_forced_hits, forced_hits_of, initiable, source_abilities, ForcedTriggerPoint,
};
use crate::movement::location_side_abilities;
use crate::outcome::{ChoiceOption, EngineOutcome, InputRequest, InputResponse, OptionTarget, PromptKind, Reject};
use crate::seqs::lemma_filter_members;
use crate::outcome::Event;
use crate::state::{
    has_investigator, investigator_ids_distinct, investigator_index, lemma_investigator_index,
    location_ids_distinct, CandidateSource, CardCode, CardInstanceId, Continuation, EmitStep,
    GameState, Investigator, InvestigatorId, ResolutionCandidate,
};

verus! {

/// The card instance a candidate's source names, if any.
pub open spec fn instance_of(src: CandidateSource) -> Option<CardInstanceId> {
    match src {
        CandidateSource::InPlay(i) => Some(i),
        _ => None,
    }
}

/// The effect frame a forced candidate queues: its ability's effect, bound
/// to its controller and source instance.
pub open spec fn effect_frame(s: GameState, c: ResolutionCandidate) -> Continuation {
    Continuation::Effect {
        effect: source_abilities(s, c.source, c.code@)[c.address as int].effect,
        controller: c.controller,
        source: instance_of(c.source),
    }
}

/// What queueing the forced abilities at `point` in `bucket` does: nothing
/// without a hit; otherwise the first hit's effect frame is pushed, topped
/// by its acknowledgement in interactive play.
pub open spec fn queued_forced(s: GameState, f: GameState, point: ForcedTriggerPoint, bucket: EventTiming) -> bool {
    let hits = forced_hits_of(s, point, bucket);
    if hits.len() == 0 {
        f == s
    } else {
        &&& f == (GameState { continuations: f.continuations, ..s })
        &&& f.continuations@ == s.continuations@.push(effect_frame(s, hits[0])) + if s.interactive_acknowledge {
            seq![Continuation::AcknowledgeForced { candidate: hits[0] }]
        } else {
            Seq::empty()
        }
    }
}

/// What queueing the timing event `e` does: the round end pushes its
/// `when`/`at`/`after` walk; two or more simultaneous forced hits open an
/// ordered run; zero or one queue inline.
pub open spec fn queued_event(s: GameState, f: GameState, e: TimingEvent) -> bool {
    if e is RoundEnded {
        &&& f == (GameState { continuations: f.continuations, ..s })
        &&& f.continuations@ == s.continuations@.push(
            Continuation::EmitEvent { event: e, step: EmitStep::When },
        )
    } else if opens_reaction_window_spec(e) && reactions_at(s, e, reaction_bucket_of(e)).len() > 0 {
        exists|mid: GameState| #[trigger] window_queued(s, mid, e) && forced_queued(mid, f, e)
    } else {
        forced_queued(s, f, e)
    }
}

/// The reaction window of `e` pushed onto `s`'s stack (giving `mid`),
/// holding every option a scan of its cell finds.
pub open spec fn window_queued(s: GameState, mid: GameState, e: TimingEvent) -> bool {
    &&& mid == (GameState { continuations: mid.continuations, ..s })
    &&& mid.continuations@.drop_last() == s.continuations@
    &&& mid.continuations@.len() == s.continuations@.len() + 1
    &&& mid.continuations@.last() matches Continuation::ReactionWindow { event, bucket, candidates }
        && event == e && bucket == reaction_bucket_of(e) && candidates@ == reactions_at(s, e, reaction_bucket_of(e))
}

/// The forced abilities of `e` queued on `s` (giving `f`): two or more
/// open an ordered run, zero or one queue inline.
pub open spec fn forced_queued(s: GameState, f: GameState, e: TimingEvent) -> bool {
    match forced_point_of(e) {
        None => f == s,
        Some(p) => {
            let hits = forced_hits_of(s, p, EventTiming::After);
            if hits.len() >= 2 {
                &&& f == (GameState { continuations: f.continuations, ..s })
                &&& f.continuations@.len() == s.continuations@.len() + 1
                &&& f.continuations@.take(s.continuations@.len() as int) == s.continuations@
                &&& f.continuations@.last() matches Continuation::ForcedRun { candidates }
                    && candidates@ == hits
            } else {
                queued_forced(s, f, p, EventTiming::After)
            }
        },
    }
}

/// A copy of `c`.
pub fn clone_candidate(c: &ResolutionCandidate) -> (r: ResolutionCandidate)
    ensures
        r == *c,
{
    ResolutionCandidate {
        code: c.code.clone(),
        controller: c.controller,
        address: c.address,
        source: c.source,
    }
}

/// The effect of the ability a candidate names, if its address is in range
/// of the abilities its source has in effect.
pub fn candidate_effect(state: &GameState, reg: &CardRegistry, c: &ResolutionCandidate) -> (r: Option<Effect>)
    requires
        state.registry == Some(*reg),
        location_ids_distinct(state.locations@),
    ensures
        match r {
            Some(e) => c.address < source_abilities(*state, c.source, c.code@).len() && e
                == source_abilities(*state, c.source, c.code@)[c.address as int].effect,
            None => c.address >= source_abilities(*state, c.source, c.code@).len(),
        },
{
    match c.source {
        CandidateSource::Location(l) => {
            let Some(i) = state.find_location(l) else {
                return None;
            };
            let loc = &state.locations[i];
            match reg.metadata_for(loc.code.as_str()) {
                Some(m) => {
                    let abs = if loc.revealed {
                        &m.abilities
                    } else {
                        &m.back_abilities
                    };
                    if c.address < abs.len() {
                        Some(abs[c.address].effect)
                    } else {
                        None
                    }
                },
                None => None,
            }
        },
        _ => match reg.metadata_for(c.code.as_str()) {
            Some(m) => if c.address < m.abilities.len() {
                Some(m.abilities[c.address].effect)
            } else {
                None
            },
            None => None,
        },
    }
}

/// The card instance a candidate's source names, if any.
pub fn source_instance(src: CandidateSource) -> (r: Option<CardInstanceId>)
    ensures
        r == instance_of(src),
{
    match src {
        CandidateSource::InPlay(i) => Some(i),
        _ => None,
    }
}

/// Queue the forced abilities that fire at `point` in `bucket`. At most one
/// is expected here (two or more go through the ordered run): its effect
/// frame is pushed for the drive loop, and in interactive play a one-option
/// acknowledgement is pushed above it so the player confirms before it
/// resolves.
pub fn queue_forced_triggers(state: &mut GameState, point: &ForcedTriggerPoint, bucket: EventTiming) -> (r:
    EngineOutcome)
    requires
        old(state).wf(),
    ensures
        final(state).wf(),
        queued_forced(*old(state), *final(state), *point, bucket),
        r is Done,
{
    let hits = collect_forced_hits(state, point, bucket);
    if hits.len() == 0 {
        return EngineOutcome::Done;
    }
    let ghost s0 = *state;
    proof {
        lemma_filter_members(
            crate::forced_triggers::raw_hits(s0, *point, bucket),
            |c: ResolutionCandidate| initiable(s0, c),
        );
        assert(initiable(s0, hits@[0]));
    }
    let Some(reg) = &state.registry else {
        return EngineOutcome::Done;
    };
    let effect = match candidate_effect(state, reg, &hits[0]) {
        Some(e) => e,
        None => {
            return EngineOutcome::Done;
        },
    };
    let frame = Continuation::Effect {
        effect,
        controller: hits[0].controller,
        source: source_instance(hits[0].source),
    };
    state.continuations.push(frame);
    if state.interactive_acknowledge {
        let c = clone_candidate(&hits[0]);
        state.continuations.push(Continuation::AcknowledgeForced { candidate: c });
    }
    proof {
        assert(state.continuations@ =~= s0.continuations@.push(effect_frame(s0, hits@[0])) + if s0.interactive_acknowledge {
            seq![Continuation::AcknowledgeForced { candidate: hits@[0] }]
        } else {
            Seq::empty()
        });
    }
    EngineOutcome::Done
}

/// Queue the timing event `e`: the round end cedes to its
/// `when`/`at`/`after` walk; two or more simultaneous forced abilities open
/// an ordered run for the lead; zero or one queue inline. Only queues: the
/// drive loop resolves what was pushed.
pub fn queue_event(state: &mut GameState, event: &TimingEvent) -> (r: EngineOutcome)
    requires
        old(state).wf(),
    ensures
        final(state).wf(),
        queued_event(*old(state), *final(state), *event),
        r is Done,
{
    if let TimingEvent::RoundEnded = event {
        state.continuations.push(
            Continuation::EmitEvent { event: TimingEvent::RoundEnded, step: EmitStep::When },
        );
        return EngineOutcome::Done;
    }
    if event.opens_reaction_window() {
        let bucket = event.reaction_bucket();
        let candidates = crate::reactions::scan_reactions_at(state, event, bucket);
        if candidates.len() > 0 {
            let ghost s0 = *state;
            state.continuations.push(
                Continuation::ReactionWindow { event: event.copy(), bucket, candidates },
            );
            proof {
                assert(state.continuations@.drop_last() =~= s0.continuations@);
                assert(window_queued(s0, *state, *event));
            }
        }
    }
    let Some(point) = event.forced_point() else {
        return EngineOutcome::Done;
    };
    let hits = collect_forced_hits(state, &point, EventTiming::After);
    if hits.len() >= 2 {
        let ghost s0 = *state;
        state.continuations.push(Continuation::ForcedRun { candidates: hits });
        proof {
            assert(state.continuations@.take(s0.continuations@.len() as int) =~= s0.continuations@);
        }
        EngineOutcome::Done
    } else {
        queue_forced_triggers(state, &point, EventTiming::After)
    }
}

/// Where a candidate's option is anchored: a hand card by its code, an
/// in-play card by its instance, a location by its map node, an enemy by
/// itself, and a board card on the act or agenda whose current code it
/// carries (else nowhere in particular).
pub open spec fn anchor_of(
    c: ResolutionCandidate,
    act: Option<Seq<char>>,
    agenda: Option<Seq<char>>,
) -> OptionTarget {
    match c.source {
        CandidateSource::Hand => OptionTarget::HandCardByCode { investigator: c.controller, code: c.code },
        CandidateSource::InPlay(i) => OptionTarget::CardInstance(i),
        CandidateSource::Location(l) => OptionTarget::Location(l),
        CandidateSource::Enemy(e) => OptionTarget::Enemy(e),
        CandidateSource::Board => if act == Some(c.code@) {
            OptionTarget::Act
        } else if agenda == Some(c.code@) {
            OptionTarget::Agenda
        } else {
            OptionTarget::Global
        },
    }
}

/// The code of the current act, if the act deck is not exhausted.
pub open spec fn current_act_of(s: GameState) -> Option<Seq<char>> {
    if s.act_index < s.act_deck@.len() {
        Some(s.act_deck@[s.act_index as int].code@)
    } else {
        None
    }
}

/// The code of the current agenda, if the agenda deck is not exhausted.
pub open spec fn current_agenda_of(s: GameState) -> Option<Seq<char>> {
    if s.agenda_index < s.agenda_deck@.len() {
        Some(s.agenda_deck@[s.agenda_index as int].code@)
    } else {
        None
    }
}

/// The view of an optional borrowed code.
pub open spec fn code_view(c: Option<&CardCode>) -> Option<Seq<char>> {
    match c {
        Some(x) => Some(x@),
        None => None,
    }
}

/// The code of the current act, if any.
pub fn current_act_code(state: &GameState) -> (r: Option<&CardCode>)
    ensures
        code_view(r) == current_act_of(*state),
{
    if state.act_index < state.act_deck.len() {
        Some(&state.act_deck[state.act_index].code)
    } else {
        None
    }
}

/// The code of the current agenda, if any.
pub fn current_agenda_code(state: &GameState) -> (r: Option<&CardCode>)
    ensures
        code_view(r) == current_agenda_of(*state),
{
    if state.agenda_index < state.agenda_deck.len() {
        Some(&state.agenda_deck[state.agenda_index].code)
    } else {
        None
    }
}

/// Whether `code` is the code `slot` holds.
fn same_code(slot: Option<&CardCode>, code: &CardCode) -> (r: bool)
    ensures
        r == (code_view(slot) == Some(code@)),
{
    match slot {
        Some(c) => {
            let r = *c == *code;
            proof {
                if r {
                } else {
                    assert(c@ != code@);
                }
            }
            r
        },
        None => false,
    }
}

/// The board anchor for a candidate's option.
pub fn candidate_anchor(
    cand: &ResolutionCandidate,
    current_act: Option<&CardCode>,
    current_agenda: Option<&CardCode>,
) -> (r: OptionTarget)
    ensures
        r == anchor_of(*cand, code_view(current_act), code_view(current_agenda)),
{
    match cand.source {
        CandidateSource::Hand => OptionTarget::HandCardByCode {
            investigator: cand.controller,
            code: cand.code.clone(),
        },
        CandidateSource::InPlay(i) => OptionTarget::CardInstance(i),
        CandidateSource::Location(l) => OptionTarget::Location(l),
        CandidateSource::Enemy(e) => OptionTarget::Enemy(e),
        CandidateSource::Board => if same_code(current_act, &cand.code) {
            OptionTarget::Act
        } else if same_code(current_agenda, &cand.code) {
            OptionTarget::Agenda
        } else {
            OptionTarget::Global
        },
    }
}

/// The one-option prompt that confirms a lone forced ability anchored at
/// `target`.
pub open spec fn ack_prompt(r: EngineOutcome, target: OptionTarget) -> bool {
    r matches EngineOutcome::AwaitingInput { request } && request.kind == PromptKind::AcknowledgeForced
        && request.options@ == seq![ChoiceOption { id: 0, target: Some(target) }]
}

/// Drive an acknowledgement frame: suspend on a one-option pick anchored to
/// the forced ability's source, before its effect resolves. Refused when the
/// top frame is not an acknowledgement.
pub fn drive_acknowledge_forced(state: &GameState) -> (r: EngineOutcome)
    ensures
        match state.continuations@.last() {
            Continuation::AcknowledgeForced { candidate } => state.continuations@.len() > 0
                ==> ack_prompt(r, anchor_of(candidate, current_act_of(*state), current_agenda_of(*state))),
            _ => true,
        },
        state.continuations@.len() == 0 || !(state.continuations@.last() is AcknowledgeForced)
            ==> r == (EngineOutcome::Rejected { reason: Reject::NoPromptOutstanding }),
{
    let n = state.continuations.len();
    if n == 0 {
        return EngineOutcome::Rejected { reason: Reject::NoPromptOutstanding };
    }
    match &state.continuations[n - 1] {
        Continuation::AcknowledgeForced { candidate } => {
            let anchor = candidate_anchor(candidate, current_act_code(state), current_agenda_code(state));
            let mut options: Vec<ChoiceOption> = Vec::new();
            options.push(ChoiceOption { id: 0, target: Some(anchor) });
            proof {
                assert(options@ =~= seq![ChoiceOption { id: 0, target: Some(anchor_of(*candidate, current_act_of(*state), current_agenda_of(*state))) }]);
            }
            EngineOutcome::AwaitingInput {
                request: InputRequest { kind: PromptKind::AcknowledgeForced, options, target: None },
            }
        },
        _ => EngineOutcome::Rejected { reason: Reject::NoPromptOutstanding },
    }
}

/// What answering a forced-ability acknowledgement does: the one option
/// pops the frame, so its effect (beneath) resolves next; any other answer
/// is refused.
pub open spec fn acknowledged(s: GameState, f: GameState, response: InputResponse, r: EngineOutcome) -> bool {
    &&& (response == InputResponse::PickSingle(0)) ==> ({
        &&& r is Done
        &&& f == (GameState { continuations: f.continuations, ..s })
        &&& f.continuations@ == s.continuations@.drop_last()
    })
    &&& !(response == InputResponse::PickSingle(0)) ==> ({
        &&& f == s
        &&& r == (EngineOutcome::Rejected { reason: Reject::WrongResponseKind })
    })
}

/// Resume an acknowledgement frame: the single option pops it, leaving the
/// effect beneath for the drive loop; any other answer is refused and the
/// frame stays.
pub fn resume_acknowledge_forced(state: &mut GameState, response: &InputResponse) -> (r: EngineOutcome)
    requires
        old(state).continuations@.len() > 0,
        old(state).continuations@.last() is AcknowledgeForced,
    ensures
        acknowledged(*old(state), *final(state), *response, r),
{
    match response {
        InputResponse::PickSingle(0) => {
            state.continuations.pop();
            EngineOutcome::Done
        },
        _ => EngineOutcome::Rejected { reason: Reject::WrongResponseKind },
    }
}

/// What resolving `effect` for `controller` does: damage and horror are
/// dealt to the controller as single-source harm, resources go to the
/// controller, doom goes on the agenda; restrictions, modifiers and no-ops
/// change nothing when resolved. An unseated controller receives nothing.
pub open spec fn effect_result(
    s: GameState,
    f: GameState,
    e0: Seq<Event>,
    e1: Seq<Event>,
    effect: Effect,
    controller: InvestigatorId,
) -> bool {
    let seated = has_investigator(s.investigators@, controller);
    match effect {
        Effect::DealDamage(n) => if seated {
            harm_result(s, f, e0, e1, controller, n, false)
        } else {
            f == s && e1 == e0
        },
        Effect::DealHorror(n) => if seated {
            harm_result(s, f, e0, e1, controller, n, true)
        } else {
            f == s && e1 == e0
        },
        Effect::GainResources(n) => if seated && n > 0 {
            let k = investigator_index(s.investigators@, controller);
            let inv = s.investigators@[k];
            &&& f == (GameState { investigators: f.investigators, ..s })
            &&& f.investigators@ == s.investigators@.update(
                k,
                Investigator { resources: sat_add_u8(inv.resources, n), ..inv },
            )
            &&& e1 == e0.push(Event::ResourcesGained { investigator: controller, amount: n })
        } else {
            f == s && e1 == e0
        },
        Effect::PlaceDoom(n) => if n > 0 {
            &&& f == (GameState { doom: sat_add_u8(s.doom, n), ..s })
            &&& e1 == e0.push(Event::DoomPlaced { new_count: sat_add_u8(s.doom, n) })
        } else {
            f == s && e1 == e0
        },
        _ => f == s && e1 == e0,
    }
}

/// Resolve `effect` for `controller`.
pub fn resolve_effect(state: &mut GameState, events: &mut Vec<Event>, effect: Effect, controller: InvestigatorId)
    requires
        old(state).wf(),
    ensures
        final(state).wf(),
        effect_result(*old(state), *final(state), old(events)@, final(events)@, effect, controller),
{
    let ghost s0 = *state;
    match effect {
        Effect::DealDamage(n) => {
            if state.find_investigator(controller).is_some() {
                take_damage(state, events, controller, n);
            }
        },
        Effect::DealHorror(n) => {
            if state.find_investigator(controller).is_some() {
                take_horror(state, events, controller, n);
            }
        },
        Effect::GainResources(n) => {
            if n > 0 {
                if let Some(k) = state.find_investigator(controller) {
                    let r = state.investigators[k].resources.saturating_add(n);
                    state.investigators[k].resources = r;
                    events.push(Event::ResourcesGained { investigator: controller, amount: n });
                    proof {
                        assert(state.investigators@ =~= s0.investigators@.update(
                            k as int,
                            Investigator { resources: sat_add_u8(s0.investigators@[k as int].resources, n), ..s0.investigators@[k as int] },
                        ));
                        assert(investigator_ids_distinct(state.investigators@)) by {
                            assert forall|a: int, b: int|
                                0 <= a < state.investigators@.len() && 0 <= b < state.investigators@.len()
                                    && a != b implies state.investigators@[a].id != state.investigators@[b].id by {
                                assert(state.investigators@[a].id == s0.investigators@[a].id);
                                assert(state.investigators@[b].id == s0.investigators@[b].id);
                            }
                        }
                    }
                }
            }
        },
        Effect::PlaceDoom(n) => {
            if n > 0 {
                let d = state.doom.saturating_add(n);
                state.doom = d;
                events.push(Event::DoomPlaced { new_count: d });
            }
        },
        _ => {},
    }
}

/// What driving the effect frame on top of `s` does: the frame pops and
/// its effect resolves for its controller.
pub open spec fn effect_driven(s: GameState, f: GameState, e0: Seq<Event>, e1: Seq<Event>) -> bool {
    match s.continuations@.last() {
        Continuation::Effect { effect, controller, .. } => exists|popped: GameState|
            {
                &&& popped == (GameState { continuations: popped.continuations, ..s })
                &&& popped.continuations@ == s.continuations@.drop_last()
                &&& #[trigger] effect_result(popped, f, e0, e1, effect, controller)
            },
        _ => true,
    }
}

/// Drive an effect frame: pop it and resolve its effect for its controller.
pub fn drive_effect(state: &mut GameState, events: &mut Vec<Event>) -> (r: EngineOutcome)
    requires
        old(state).wf(),
        old(state).continuations@.len() > 0,
        old(state).continuations@.last() is Effect,
    ensures
        final(state).wf(),
        r is Done,
        effect_driven(*old(state), *final(state), old(events)@, final(events)@),
{
    let frame = state.continuations.pop().unwrap();
    let ghost popped = *state;
    match frame {
        Continuation::Effect { effect, controller, .. } => {
            resolve_effect(state, events, effect, controller);
        },
        _ => {},
    }
    EngineOutcome::Done
}

/// The options of an ordering prompt over `cands`: option `j` is candidate
/// `j`, anchored where it is printed.
pub open spec fn run_options(
    cands: Seq<ResolutionCandidate>,
    act: Option<Seq<char>>,
    agenda: Option<Seq<char>>,
) -> Seq<ChoiceOption> {
    Seq::new(cands.len(), |j: int| ChoiceOption { id: j as u32, target: Some(anchor_of(cands[j], act, agenda)) })
}

/// One option per candidate, anchored where each is printed.
pub fn build_resolution_options(
    cands: &Vec<ResolutionCandidate>,
    current_act: Option<&CardCode>,
    current_agenda: Option<&CardCode>,
) -> (r: Vec<ChoiceOption>)
    requires
        cands@.len() <= u32::MAX,
    ensures
        r@ == run_options(cands@, code_view(current_act), code_view(current_agenda)),
{
    let mut out: Vec<ChoiceOption> = Vec::new();
    let mut j: usize = 0;
    while j < cands.len()
        invariant
            j <= cands@.len(),
            cands@.len() <= u32::MAX,
            out@ == run_options(cands@, code_view(current_act), code_view(current_agenda)).take(j as int),
        decreases cands@.len() - j,
    {
        let anchor = candidate_anchor(&cands[j], current_act, current_agenda);
        out.push(ChoiceOption { id: j as u32, target: Some(anchor) });
        proof {
            assert(out@ =~= run_options(cands@, code_view(current_act), code_view(current_agenda)).take(j + 1));
        }
        j += 1;
    }
    proof {
        assert(out@ =~= run_options(cands@, code_view(current_act), code_view(current_agenda)));
    }
    out
}

/// Drive an ordered forced run: with candidates left, suspend for the lead
/// to pick which resolves next; with none left, pop it.
pub fn drive_forced_run(state: &mut GameState) -> (r: EngineOutcome)
    requires
        old(state).continuations@.len() > 0,
        old(state).continuations@.last() is ForcedRun,
    ensures
        match old(state).continuations@.last() {
            Continuation::ForcedRun { candidates } => if candidates@.len() == 0 {
                &&& r is Done
                &&& *final(state) == (GameState { continuations: final(state).continuations, ..*old(state) })
                &&& final(state).continuations@ == old(state).continuations@.drop_last()
            } else if candidates@.len() <= u32::MAX {
                &&& *final(state) == *old(state)
                &&& r matches EngineOutcome::AwaitingInput { request } && request.kind == PromptKind::ForcedOrder
                    && request.options@ == run_options(
                    candidates@,
                    current_act_of(*old(state)),
                    current_agenda_of(*old(state)),
                )
            } else {
                *final(state) == *old(state) && r == (EngineOutcome::Rejected { reason: Reject::DriveLimit })
            },
            _ => true,
        },
{
    let n = state.continuations.len();
    let count = match &state.continuations[n - 1] {
        Continuation::ForcedRun { candidates } => candidates.len(),
        _ => 0,
    };
    if count == 0 {
        state.continuations.pop();
        return EngineOutcome::Done;
    }
    if count > 0xFFFF_FFFF {
        return EngineOutcome::Rejected { reason: Reject::DriveLimit };
    }
    match &state.continuations[n - 1] {
        Continuation::ForcedRun { candidates } => {
            let options = build_resolution_options(candidates, current_act_code(state), current_agenda_code(state));
            EngineOutcome::AwaitingInput {
                request: InputRequest { kind: PromptKind::ForcedOrder, options, target: None },
            }
        },
        _ => EngineOutcome::Done,
    }
}

/// The frame a pick from an ordered forced run pushes: the effect of the
/// ability the candidate names, or, when its source no longer has that
/// ability (or there is no card data), an effect that does nothing.
pub open spec fn picked_frame(s: GameState, c: ResolutionCandidate) -> Continuation {
    if s.registry is Some && c.address < source_abilities(s, c.source, c.code@).len() {
        effect_frame(s, c)
    } else {
        Continuation::Effect { effect: Effect::Nothing, controller: c.controller, source: None }
    }
}

/// What answering an ordered forced run does (see [`resume_forced_run`]).
pub open spec fn forced_run_resumed(s: GameState, f: GameState, response: InputResponse, r: EngineOutcome) -> bool {
    match (s.continuations@.last(), response) {
        (Continuation::ForcedRun { candidates }, InputResponse::PickSingle(i)) => if i < candidates@.len() {
            &&& r is Done
            &&& f == (GameState { continuations: f.continuations, ..s })
            &&& f.continuations@.len() == s.continuations@.len() + 1
            &&& f.continuations@.take(s.continuations@.len() - 1)
                == s.continuations@.drop_last()
            &&& f.continuations@[s.continuations@.len() - 1] matches
                Continuation::ForcedRun { candidates: rest } && rest@ == candidates@.remove(i as int)
            &&& f.continuations@.last() == picked_frame(s, candidates@[i as int])
            &&& initiable(s, candidates@[i as int]) ==> f.continuations@.last()
                == effect_frame(s, candidates@[i as int])
        } else {
            f == s && r == (EngineOutcome::Rejected { reason: Reject::OptionOutOfRange })
        },
        (Continuation::ForcedRun { .. }, _) => f == s && r == (EngineOutcome::Rejected {
            reason: Reject::WrongResponseKind,
        }),
        _ => true,
    }
}

/// Resume an ordered forced run with the lead's pick: the picked candidate
/// leaves the run and its effect is pushed above it, so it resolves before
/// the next pick. A pick out of range, or another kind of answer, is
/// refused and the run stays as it was.
pub fn resume_forced_run(state: &mut GameState, response: &InputResponse) -> (r: EngineOutcome)
    requires
        old(state).wf(),
        old(state).continuations@.len() > 0,
        old(state).continuations@.last() is ForcedRun,
    ensures
        final(state).wf(),
        forced_run_resumed(*old(state), *final(state), *response, r),
{
    let i = match response {
        InputResponse::PickSingle(i) => *i,
        _ => {
            return EngineOutcome::Rejected { reason: Reject::WrongResponseKind };
        },
    };
    let n = state.continuations.len();
    let count = match &state.continuations[n - 1] {
        Continuation::ForcedRun { candidates } => candidates.len(),
        _ => 0,
    };
    if i as usize >= count {
        return EngineOutcome::Rejected { reason: Reject::OptionOutOfRange };
    }
    let ghost s0 = *state;
    let frame = state.continuations.pop().unwrap();
    let Continuation::ForcedRun { mut candidates } = frame else {
        return EngineOutcome::Done;
    };
    let picked = candidates.remove(i as usize);
    state.continuations.push(Continuation::ForcedRun { candidates });
    let effect = match &state.registry {
        Some(reg) => candidate_effect(state, reg, &picked),
        None => None,
    };
    let frame = match effect {
        Some(e) => Continuation::Effect {
            effect: e,
            controller: picked.controller,
            source: source_instance(picked.source),
        },
        None => Continuation::Effect { effect: Effect::Nothing, controller: picked.controller, source: None },
    };
    state.continuations.push(frame);
    proof {
        assert(state.continuations@.take(s0.continuations@.len() - 1) =~= s0.continuations@.drop_last());
    }
    EngineOutcome::Done
}

/// Queueing the forced abilities of one cell only adds frames on top of
/// the stack: everything already there, phase progression included, stays
/// beneath in the same order.
proof fn lemma_forced_sit_above(s: GameState, f: GameState, point: ForcedTriggerPoint, bucket: EventTiming)
    requires
        queued_forced(s, f, point, bucket),
    ensures
        s.continuations@.len() <= f.continuations@.len(),
        f.continuations@.take(s.continuations@.len() as int) == s.continuations@,
        f == (GameState { continuations: f.continuations, ..s }),
{
    let hits = forced_hits_of(s, point, bucket);
    if hits.len() > 0 {
        assert(f.continuations@.take(s.continuations@.len() as int) =~= s.continuations@);
    } else {
        assert(f.continuations@.take(s.continuations@.len() as int) =~= s.continuations@);
    }
}

/// Queueing a timing event never buries what is queued: its reaction
/// window, ordered run or forced abilities are pushed on top, and the
/// frames already on the stack (a phase's continuation among them) stay
/// beneath them, in the same order, so what was queued resolves first.
pub proof fn law_queued_abilities_sit_above(s: GameState, f: GameState, e: TimingEvent)
    requires
        queued_event(s, f, e),
    ensures
        s.continuations@.len() <= f.continuations@.len(),
        f.continuations@.take(s.continuations@.len() as int) == s.continuations@,
        f == (GameState { continuations: f.continuations, ..s }),
{
    if e is RoundEnded {
        assert(f.continuations@.take(s.continuations@.len() as int) =~= s.continuations@);
    } else if opens_reaction_window_spec(e) && reactions_at(s, e, reaction_bucket_of(e)).len() > 0 {
        let mid = choose|mid: GameState| #[trigger] window_queued(s, mid, e) && forced_queued(mid, f, e);
        assert(mid.continuations@.take(s.continuations@.len() as int) =~= s.continuations@);
        lemma_forced_queued_above(mid, f, e);
        assert(f.continuations@.take(s.continuations@.len() as int) =~= s.continuations@);
    } else {
        lemma_forced_queued_above(s, f, e);
    }
}

/// The forced half of [`law_queued_abilities_sit_above`].
proof fn lemma_forced_queued_above(s: GameState, f: GameState, e: TimingEvent)
    requires
        forced_queued(s, f, e),
    ensures
        s.continuations@.len() <= f.continuations@.len(),
        f.continuations@.take(s.continuations@.len() as int) == s.continuations@,
        f == (GameState { continuations: f.continuations, ..s }),
{
    match forced_point_of(e) {
        None => {
            assert(f.continuations@.take(s.continuations@.len() as int) =~= s.continuations@);
        },
        Some(p) => {
            let hits = forced_hits_of(s, p, EventTiming::After);
            if hits.len() < 2 {
                lemma_forced_sit_above(s, f, p, EventTiming::After);
            }
        },
    }
}

} // verus!
