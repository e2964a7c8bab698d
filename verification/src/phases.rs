//! The round structure (Rules Reference p.24-25): each phase's framework
//! steps, the player windows between them, and the transitions from one
//! phase to the next.
//!
//! A step never calls the next phase itself: it queues the work that
//! follows it as a frame (`NextPhase`, `UpkeepEnd`, `RoundEndTail`, or a
//! `FastWindow` whose closing runs the window's continuation), and the
//! drive loop in [`crate::dispatch`] resolves the frames in stack order.
//! Forced abilities a step queues land above its continuation, so they
//! resolve first. A step that suspends on a player's choice (a hunter tie,
//! the hand-size discard) leaves nothing queued beneath it: the choice's
//! answer runs the rest of the phase itself.
use vstd::prelude::*;

use crate::combat::{attack_run, resolve_attacks_for_investigator};
use crate::dispatch::{drive, drive_run, then_driven, popped_from, refusal_changes_nothing, drive_frames, settled};
use crate::cursor::{
    first_active_investigator, first_active_of, next_active_after_of, next_active_investigator_after,
};
use crate::cards::EventTiming;
use crate::emit::{forced_point_of, TimingEvent};
use crate::forced_triggers::{collect_forced_hits, forced_hits_of, ForcedTriggerPoint};
use crate::hunters::{drive_hunter_moves, hunters_frame};
use crate::outcome::{EngineOutcome, Event, InputRequest, InputResponse, OptionTarget, PromptKind, Reject};
use crate::queue::{queue_event, queue_forced_triggers, queued_event, queued_forced};
use crate::state::{
    has_investigator, investigator_index, EmitStep, first_location_with_code, has_location, has_location_code, phase_after, Continuation,
    GameState, Investigator, InvestigatorId, LocationId, Phase, PhaseStep,
};
use crate::upkeep::{
    actions_reset, cards_readied, drawn_and_granted, hand_checked, check_discard, check_hand_size, discard_fault, discard_from_hand, discard_prompt,
    park_hand_size_discard, picked, ready_exhausted_cards, reset_actions, unpicked,
    upkeep_draw_and_resource,
};
use crate::outcome::Zone;
use crate::state::CardCode;

verus! {

/// What opening framework player window `kind` does: it opens and closes
/// at once, announced, and its continuation is queued.
pub open spec fn window_result(s: GameState, f: GameState, e0: Seq<Event>, e1: Seq<Event>, kind: PhaseStep) -> bool {
    &&& f == (GameState { continuations: f.continuations, ..s })
    &&& f.continuations@ == s.continuations@.push(Continuation::FastWindow { kind })
    &&& e1 == e0.push(Event::WindowOpened { kind }).push(Event::WindowClosed { kind })
}

/// Open framework player window `kind`. No Fast play or reaction is ever
/// eligible at a framework window in this engine, so the window auto-skips:
/// it opens and closes at once, and its continuation is queued as a
/// `FastWindow` frame that the drive loop runs next.
pub fn queue_window(state: &mut GameState, events: &mut Vec<Event>, kind: PhaseStep)
    requires
        old(state).wf(),
    ensures
        final(state).wf(),
        window_result(*old(state), *final(state), old(events)@, final(events)@, kind),
{
    events.push(Event::WindowOpened { kind });
    events.push(Event::WindowClosed { kind });
    state.continuations.push(Continuation::FastWindow { kind });
}

/// Step 2.1: the Investigation phase begins, then the post-2.1 window,
/// whose continuation rotates to the lead.
pub open spec fn investigation_begun(s: GameState, f: GameState, e0: Seq<Event>, e1: Seq<Event>) -> bool {
    window_result(
        s,
        f,
        e0.push(Event::PhaseStarted { phase: Phase::Investigation }),
        e1,
        PhaseStep::InvestigationBegins,
    )
}

/// Step 2.1, Investigation phase begins: announce it and open the post-2.1
/// window. The rotation to the first investigator (step 2.2) is the
/// window's continuation.
pub fn begin_investigation_phase(state: &mut GameState, events: &mut Vec<Event>)
    requires
        old(state).wf(),
    ensures
        final(state).wf(),
        investigation_begun(*old(state), *final(state), old(events)@, final(events)@),
{
    events.push(Event::PhaseStarted { phase: Phase::Investigation });
    queue_window(state, events, PhaseStep::InvestigationBegins);
}

/// Step 2.2: `who`'s turn begins: they become the active investigator, an
/// open turn frame is pushed for them, and the post-2.2 window opens above
/// it.
pub open spec fn turn_begun(s: GameState, f: GameState, e0: Seq<Event>, e1: Seq<Event>, who: InvestigatorId) -> bool {
    &&& f == (GameState { active_investigator: Some(who), continuations: f.continuations, ..s })
    &&& f.continuations@ == s.continuations@.push(
        Continuation::InvestigatorTurn { investigator: who, ending: false },
    ).push(Continuation::FastWindow { kind: PhaseStep::InvestigatorTurnBegins })
    &&& e1 == e0.push(Event::WindowOpened { kind: PhaseStep::InvestigatorTurnBegins }).push(
        Event::WindowClosed { kind: PhaseStep::InvestigatorTurnBegins },
    )
}

/// Step 2.2, next investigator's turn begins: rotate the active cursor to
/// `who` (actions were already reset at Upkeep 4.2), open their turn, and
/// open the post-2.2 window.
pub fn begin_investigator_turn(state: &mut GameState, events: &mut Vec<Event>, who: InvestigatorId)
    requires
        old(state).wf(),
    ensures
        final(state).wf(),
        turn_begun(*old(state), *final(state), old(events)@, final(events)@, who),
{
    state.active_investigator = Some(who);
    state.continuations.push(Continuation::InvestigatorTurn { investigator: who, ending: false });
    queue_window(state, events, PhaseStep::InvestigatorTurnBegins);
}

/// A phase ended: announced, and the next phase is queued.
pub open spec fn phase_closed(s: GameState, f: GameState, e0: Seq<Event>, e1: Seq<Event>, p: Phase) -> bool {
    &&& f == (GameState { continuations: f.continuations, ..s })
    &&& f.continuations@ == s.continuations@.push(Continuation::NextPhase)
    &&& e1 == e0.push(Event::PhaseEnded { phase: p })
}

/// Step 2.3, Investigation phase ends: announced, and the Enemy phase is
/// queued.
pub fn end_investigation_phase(state: &mut GameState, events: &mut Vec<Event>)
    requires
        old(state).wf(),
    ensures
        final(state).wf(),
        phase_closed(*old(state), *final(state), old(events)@, final(events)@, Phase::Investigation),
{
    events.push(Event::PhaseEnded { phase: Phase::Investigation });
    state.continuations.push(Continuation::NextPhase);
}

/// Step 1.5, Mythos phase ends: announced, and the Investigation phase is
/// queued.
pub fn end_mythos_phase(state: &mut GameState, events: &mut Vec<Event>)
    requires
        old(state).wf(),
    ensures
        final(state).wf(),
        phase_closed(*old(state), *final(state), old(events)@, final(events)@, Phase::Mythos),
{
    events.push(Event::PhaseEnded { phase: Phase::Mythos });
    state.continuations.push(Continuation::NextPhase);
}

/// `r` bumped by one, saturating.
pub open spec fn next_round(r: u32) -> u32 {
    if r < u32::MAX {
        (r + 1) as u32
    } else {
        r
    }
}

/// `d` bumped by one, saturating.
pub open spec fn one_more_doom(d: u8) -> u8 {
    if d < u8::MAX {
        (d + 1) as u8
    } else {
        d
    }
}

/// Steps 1.1-1.4: the round begins and the Mythos phase with it, one doom
/// is placed on the current agenda (when there is one), and the
/// encounter-draw cursor is seeded to the lead `Active` investigator; with
/// nobody to draw, the post-1.4 window opens at once.
pub open spec fn mythos_begun(s: GameState, f: GameState, e0: Seq<Event>, e1: Seq<Event>) -> bool {
    let has_agenda = s.agenda_index < s.agenda_deck@.len();
    let doom = if has_agenda {
        one_more_doom(s.doom)
    } else {
        s.doom
    };
    let em = if has_agenda {
        e0.push(Event::PhaseStarted { phase: Phase::Mythos }).push(Event::DoomPlaced { new_count: doom })
    } else {
        e0.push(Event::PhaseStarted { phase: Phase::Mythos })
    };
    let seeded = GameState {
        round: next_round(s.round),
        doom,
        mythos_draw_pending: first_active_of(s),
        ..s
    };
    if first_active_of(s) is Some {
        f == seeded && e1 == em
    } else {
        window_result(seeded, f, em, e1, PhaseStep::MythosAfterDraws)
    }
}

/// Steps 1.1-1.4 of the Mythos phase. The draws themselves are
/// player-driven; the cursor says whose draw is due.
pub fn begin_mythos_phase(state: &mut GameState, events: &mut Vec<Event>)
    requires
        old(state).wf(),
    ensures
        final(state).wf(),
        mythos_begun(*old(state), *final(state), old(events)@, final(events)@),
{
    if state.round < u32::MAX {
        state.round = state.round + 1;
    }
    events.push(Event::PhaseStarted { phase: Phase::Mythos });
    if state.agenda_index < state.agenda_deck.len() {
        if state.doom < u8::MAX {
            state.doom = state.doom + 1;
        }
        events.push(Event::DoomPlaced { new_count: state.doom });
    }
    let lead = first_active_investigator(state);
    state.mythos_draw_pending = lead;
    if lead.is_none() {
        queue_window(state, events, PhaseStep::MythosAfterDraws);
    }
}

/// Step 4.1: the Upkeep phase begins, then the post-4.1 window, whose
/// continuation runs steps 4.2-4.5.
pub open spec fn upkeep_begun(s: GameState, f: GameState, e0: Seq<Event>, e1: Seq<Event>) -> bool {
    window_result(
        s,
        f,
        e0.push(Event::PhaseStarted { phase: Phase::Upkeep }),
        e1,
        PhaseStep::UpkeepBegins,
    )
}

/// Step 4.1, Upkeep phase begins: announce it and open the post-4.1 window.
pub fn begin_upkeep_phase(state: &mut GameState, events: &mut Vec<Event>)
    requires
        old(state).wf(),
    ensures
        final(state).wf(),
        upkeep_begun(*old(state), *final(state), old(events)@, final(events)@),
{
    events.push(Event::PhaseStarted { phase: Phase::Upkeep });
    queue_window(state, events, PhaseStep::UpkeepBegins);
}

/// Steps 3.1-3.3's opening: the Enemy phase begins, the hunters move, and
/// once they are done the attack loop opens. A hunter tie suspends; its
/// answer carries the phase on.
pub open spec fn enemy_begun(s: GameState, f: GameState, e0: Seq<Event>, e1: Seq<Event>, r: EngineOutcome) -> bool {
    crate::hunters::hunters_then_attacks(s, f, e0.push(Event::PhaseStarted { phase: Phase::Enemy }), e1, None, r)
}

/// Steps 3.1-3.2, Enemy phase begins: announce it and move the hunters;
/// with no tie, open the attack loop (step 3.3). A hunter tie suspends, and
/// its answer opens the attack loop once the last hunter has moved.
pub fn begin_enemy_phase(state: &mut GameState, events: &mut Vec<Event>) -> (r: EngineOutcome)
    requires
        old(state).wf(),
    ensures
        final(state).wf(),
        enemy_begun(*old(state), *final(state), old(events)@, final(events)@, r),
        r is Done || r is AwaitingInput || r == (EngineOutcome::Rejected { reason: Reject::DriveLimit }),
{
    events.push(Event::PhaseStarted { phase: Phase::Enemy });
    let ghost e1 = events@;
    let ghost s0 = *state;
    let r = drive_hunter_moves(state, events);
    let ghost g = *state;
    let ghost eg = events@;
    proof {
        assert(crate::hunters::hunters_after(s0, g, e1, eg, None, r));
    }
    if let EngineOutcome::Done = r {
        enemy_attack_kickoff(state, events);
        assert(kickoff_result(g, *state, eg, events@));
    }
    r
}

/// What stepping to the phase after `s.phase` does: the phase changes and
/// the new phase's opening steps run.
pub open spec fn phase_stepped(s: GameState, f: GameState, e0: Seq<Event>, e1: Seq<Event>, r: EngineOutcome) -> bool {
    let mid = GameState { phase: phase_after(s.phase), ..s };
    match phase_after(s.phase) {
        Phase::Mythos => mythos_begun(mid, f, e0, e1) && r is Done,
        Phase::Investigation => investigation_begun(mid, f, e0, e1) && r is Done,
        Phase::Enemy => enemy_begun(mid, f, e0, e1, r),
        Phase::Upkeep => upkeep_begun(mid, f, e0, e1) && r is Done,
    }
}

/// Transition to the next phase and run its opening steps. No phase end is
/// announced here: each phase's end step owns its own `PhaseEnded`.
pub fn enter_next_phase(state: &mut GameState, events: &mut Vec<Event>) -> (r: EngineOutcome)
    requires
        old(state).wf(),
    ensures
        final(state).wf(),
        phase_stepped(*old(state), *final(state), old(events)@, final(events)@, r),
        r is Done || r is AwaitingInput || r == (EngineOutcome::Rejected { reason: Reject::DriveLimit }),
{
    let to = state.phase.next();
    state.phase = to;
    match to {
        Phase::Mythos => {
            begin_mythos_phase(state, events);
            EngineOutcome::Done
        },
        Phase::Investigation => {
            begin_investigation_phase(state, events);
            EngineOutcome::Done
        },
        Phase::Enemy => begin_enemy_phase(state, events),
        Phase::Upkeep => {
            begin_upkeep_phase(state, events);
            EngineOutcome::Done
        },
    }
}

/// Step 3.3's opening: the attack cursor is seeded to the lead `Active`
/// investigator and the first attack window opens, or, with nobody to
/// attack, the final window.
pub open spec fn kickoff_result(s: GameState, f: GameState, e0: Seq<Event>, e1: Seq<Event>) -> bool {
    let p = first_active_of(s);
    window_result(GameState { enemy_attack_pending: p, ..s }, f, e0, e1, attack_window(p))
}

/// The window that opens for attack cursor `p`: the next attack's window,
/// or the final one when nobody is left.
pub open spec fn attack_window(p: Option<InvestigatorId>) -> PhaseStep {
    if p is Some {
        PhaseStep::BeforeInvestigatorAttacked
    } else {
        PhaseStep::AfterAllInvestigatorsAttacked
    }
}

/// Step 3.3, once hunter movement is done: seed the per-investigator attack
/// cursor and open the first attack window, or the final window directly
/// when nobody is `Active`.
pub fn enemy_attack_kickoff(state: &mut GameState, events: &mut Vec<Event>)
    requires
        old(state).wf(),
    ensures
        final(state).wf(),
        kickoff_result(*old(state), *final(state), old(events)@, final(events)@),
{
    let lead = first_active_investigator(state);
    state.enemy_attack_pending = lead;
    if lead.is_some() {
        queue_window(state, events, PhaseStep::BeforeInvestigatorAttacked);
    } else {
        queue_window(state, events, PhaseStep::AfterAllInvestigatorsAttacked);
    }
}

/// What step 3.3 does for the investigator the attack cursor names (see
/// [`attack_pending_investigator`]).
pub open spec fn attack_step(s: GameState, f: GameState, e0: Seq<Event>, e1: Seq<Event>) -> bool {
    match s.enemy_attack_pending {
        None => window_result(s, f, e0, e1, PhaseStep::AfterAllInvestigatorsAttacked),
        Some(i) => exists|mid: GameState, em: Seq<Event>|
            {
                &&& #[trigger] window_result(
                    GameState { enemy_attack_pending: next_active_after_of(mid, i), ..mid },
                    f,
                    em,
                    e1,
                    attack_window(next_active_after_of(mid, i)),
                )
                &&& exists|st: Seq<GameState>, lg: Seq<Seq<Event>>, ks: Seq<int>|
                    attack_run(s, mid, e0, em, i, st, lg, ks)
            },
    }
}

/// Step 3.3 for the investigator the attack cursor names: every ready enemy
/// engaged with them attacks (see [`attack_run`]), then the cursor moves to the next `Active`
/// investigator after them in turn order (they may have been defeated
/// meanwhile) and that one's window opens, or the final window when
/// nobody is left. With no cursor the final window opens.
pub fn attack_pending_investigator(state: &mut GameState, events: &mut Vec<Event>)
    requires
        old(state).wf(),
    ensures
        final(state).wf(),
        attack_step(*old(state), *final(state), old(events)@, final(events)@),
{
    match state.enemy_attack_pending {
        None => {
            queue_window(state, events, PhaseStep::AfterAllInvestigatorsAttacked);
        },
        Some(i) => {
            resolve_attacks_for_investigator(state, events, i);
            let ghost mid = *state;
            let ghost em = events@;
            let next = next_active_investigator_after(state, i);
            state.enemy_attack_pending = next;
            if next.is_some() {
                queue_window(state, events, PhaseStep::BeforeInvestigatorAttacked);
            } else {
                queue_window(state, events, PhaseStep::AfterAllInvestigatorsAttacked);
            }
            proof {
                assert(window_result(
                    GameState { enemy_attack_pending: next_active_after_of(mid, i), ..mid },
                    *state,
                    em,
                    events@,
                    attack_window(next_active_after_of(mid, i)),
                ));
            }
        },
    }
}

/// Step 3.4: the Enemy phase ends, announced; the Upkeep phase is queued
/// and the forced abilities keyed to the phase's end are queued above it.
pub open spec fn enemy_closed(s: GameState, f: GameState, e0: Seq<Event>, e1: Seq<Event>) -> bool {
    exists|mid: GameState|
        #[trigger] phase_closed(s, mid, e0, e1, Phase::Enemy) && queued_event(
            mid,
            f,
            TimingEvent::PhaseEnded { phase: Phase::Enemy },
        )
}

/// Step 3.4, Enemy phase ends.
pub fn end_enemy_phase(state: &mut GameState, events: &mut Vec<Event>)
    requires
        old(state).wf(),
    ensures
        final(state).wf(),
        enemy_closed(*old(state), *final(state), old(events)@, final(events)@),
{
    events.push(Event::PhaseEnded { phase: Phase::Enemy });
    state.continuations.push(Continuation::NextPhase);
    let ghost mid = *state;
    queue_event(state, &TimingEvent::PhaseEnded { phase: Phase::Enemy });
    assert(phase_closed(*old(state), mid, old(events)@, events@, Phase::Enemy));
}

/// Steps 4.2-4.5: actions reset, exhausted cards ready, each `Active`
/// investigator draws and gains a resource, and hand size is checked. With
/// nobody over the limit step 4.6 is queued; otherwise the drive parks on
/// the discard, and its last answer runs step 4.6 itself.
pub open spec fn upkeep_resumed(s: GameState, f: GameState, e0: Seq<Event>, e1: Seq<Event>, r: EngineOutcome) -> bool {
    exists|m1: GameState, ea: Seq<Event>, m2: GameState, eb: Seq<Event>, m3: GameState, m4: GameState|
        {
            &&& #[trigger] actions_reset(s, m1, e0, ea)
            &&& #[trigger] cards_readied(m1, m2, ea, eb)
            &&& #[trigger] drawn_and_granted(m2, m3, eb, e1)
            &&& #[trigger] hand_checked(m3, m4, r)
            &&& if r is Done {
                &&& f == (GameState { continuations: f.continuations, ..m4 })
                &&& f.continuations@ == m4.continuations@.push(Continuation::UpkeepEnd)
            } else {
                f == m4
            }
        }
}

/// Steps 4.2-4.5, the post-4.1 window's continuation: reset actions, ready
/// exhausted cards, draw and gain resources, then check hand size, which
/// parks when anyone is over the limit; otherwise step 4.6 is queued.
pub fn resume_upkeep(state: &mut GameState, events: &mut Vec<Event>) -> (r: EngineOutcome)
    requires
        old(state).wf(),
    ensures
        final(state).wf(),
        r is Done || r is AwaitingInput,
        upkeep_resumed(*old(state), *final(state), old(events)@, final(events)@, r),
{
    let ghost s0 = *state;
    let ghost e0 = events@;
    reset_actions(state, events);
    let ghost m1 = *state;
    let ghost ea = events@;
    ready_exhausted_cards(state, events);
    let ghost m2 = *state;
    let ghost eb = events@;
    upkeep_draw_and_resource(state, events);
    let ghost m3 = *state;
    let r = check_hand_size(state);
    let ghost m4 = *state;
    if let EngineOutcome::Done = r {
        state.continuations.push(Continuation::UpkeepEnd);
    }
    proof {
        assert(actions_reset(s0, m1, e0, ea));
        assert(cards_readied(m1, m2, ea, eb));
        assert(drawn_and_granted(m2, m3, eb, events@));
        assert(hand_checked(m3, m4, r));
    }
    r
}

/// Step 4.6: the Upkeep phase ends, announced; the round's tail is queued,
/// the round-end walk above it, and the forced abilities keyed to the
/// phase's end above that.
pub open spec fn upkeep_closed(s: GameState, f: GameState, e0: Seq<Event>, e1: Seq<Event>) -> bool {
    exists|m1: GameState, m2: GameState|
        {
            &&& m1 == (GameState { continuations: m1.continuations, ..s })
            &&& m1.continuations@ == s.continuations@.push(Continuation::RoundEndTail)
            &&& #[trigger] queued_event(m1, m2, TimingEvent::RoundEnded)
            &&& #[trigger] queued_event(m2, f, TimingEvent::PhaseEnded { phase: Phase::Upkeep })
            &&& e1 == e0.push(Event::PhaseEnded { phase: Phase::Upkeep })
        }
}

/// Step 4.6, Upkeep phase ends and the round ends.
pub fn end_upkeep_phase(state: &mut GameState, events: &mut Vec<Event>)
    requires
        old(state).wf(),
    ensures
        final(state).wf(),
        upkeep_closed(*old(state), *final(state), old(events)@, final(events)@),
{
    events.push(Event::PhaseEnded { phase: Phase::Upkeep });
    state.continuations.push(Continuation::RoundEndTail);
    let ghost m1 = *state;
    queue_event(state, &TimingEvent::RoundEnded);
    let ghost m2 = *state;
    queue_event(state, &TimingEvent::PhaseEnded { phase: Phase::Upkeep });
    assert(queued_event(m1, m2, TimingEvent::RoundEnded));
}

/// The clues held by the investigators of `invs` standing at `loc`.
pub open spec fn clues_at(invs: Seq<Investigator>, loc: LocationId) -> int
    decreases invs.len(),
{
    if invs.len() == 0 {
        0
    } else {
        clues_at(invs.drop_last(), loc) + if invs.last().current_location == Some(loc) {
            invs.last().clues as int
        } else {
            0
        }
    }
}

/// The location whose investigators may, as a group, advance the current
/// act at the end of the round, if the current act offers that and the
/// location is in play.
pub open spec fn contributor_location(s: GameState) -> Option<LocationId> {
    if s.act_index < s.act_deck@.len() {
        match s.act_deck@[s.act_index as int].round_end_advance {
            Some(code) => if has_location_code(s.locations@, code@) {
                Some(s.locations@[first_location_with_code(s.locations@, code@)].id)
            } else {
                None
            },
            None => None,
        }
    } else {
        None
    }
}

/// The round-end advance on offer: the contributor location and the clue
/// threshold, when the investigators there can afford it.
pub open spec fn advance_offer(s: GameState) -> Option<(LocationId, u8)> {
    match contributor_location(s) {
        Some(loc) => {
            let t = s.act_deck@[s.act_index as int].clue_threshold;
            if clues_at(s.investigators@, loc) >= t {
                Some((loc, t))
            } else {
                None
            }
        },
        None => None,
    }
}

/// The clues held by the investigators standing at `loc`.
pub fn clues_held(state: &GameState, loc: LocationId) -> (r: u128)
    ensures
        r == clues_at(state.investigators@, loc),
{
    let mut sum: u128 = 0;
    let mut i: usize = 0;
    while i < state.investigators.len()
        invariant
            i <= state.investigators@.len(),
            sum == clues_at(state.investigators@.take(i as int), loc),
            sum <= 255 * i,
        decreases state.investigators@.len() - i,
    {
        proof {
            assert(state.investigators@.take(i + 1).drop_last() =~= state.investigators@.take(i as int));
            assert(state.investigators@.take(i + 1).last() == state.investigators@[i as int]);
        }
        if state.investigators[i].current_location == Some(loc) {
            sum = sum + state.investigators[i].clues as u128;
        }
        i += 1;
    }
    proof {
        assert(state.investigators@.take(i as int) =~= state.investigators@);
    }
    sum
}

/// The round-end advance on offer, if any.
pub fn round_end_advance_window(state: &GameState) -> (r: Option<(LocationId, u8)>)
    requires
        state.wf(),
    ensures
        r == advance_offer(*state),
{
    if state.act_index >= state.act_deck.len() {
        return None;
    }
    let act = &state.act_deck[state.act_index];
    let code = match &act.round_end_advance {
        Some(c) => c,
        None => {
            return None;
        },
    };
    let loc = match state.location_id_by_code(code.as_str()) {
        Some(l) => l,
        None => {
            return None;
        },
    };
    if clues_held(state, loc) < act.clue_threshold as u128 {
        return None;
    }
    Some((loc, act.clue_threshold))
}

/// The prompt of the act's round-end group clue spend.
pub open spec fn advance_prompt(r: EngineOutcome) -> bool {
    r matches EngineOutcome::AwaitingInput { request } && request.kind == PromptKind::ActRoundEndAdvance
        && request.options@.len() == 0 && request.target == Some(OptionTarget::Act)
}

/// The round's tail, once the round-end forced abilities have resolved:
/// round-scoped skill substitutions expire, then the act's round-end clue
/// spend is offered when affordable (suspending), else the next round's
/// Mythos phase is queued.
pub open spec fn tail_result(s: GameState, f: GameState, r: EngineOutcome) -> bool {
    &&& f == (GameState { skill_substitutions: f.skill_substitutions, continuations: f.continuations, ..s })
    &&& f.skill_substitutions@.len() == 0
    &&& match advance_offer(s) {
        Some((loc, t)) => {
            &&& f.continuations@ == s.continuations@.push(
                Continuation::ActRoundEndAdvance { contributor_location: loc, threshold: t },
            )
            &&& advance_prompt(r)
        },
        None => f.continuations@ == s.continuations@.push(Continuation::NextPhase) && r is Done,
    }
}

/// The round's tail (step 4.6, after the round-end forced abilities).
pub fn round_end_tail(state: &mut GameState) -> (r: EngineOutcome)
    requires
        old(state).wf(),
    ensures
        final(state).wf(),
        tail_result(*old(state), *final(state), r),
{
    let offer = round_end_advance_window(state);
    state.skill_substitutions = Vec::new();
    match offer {
        Some((loc, t)) => {
            state.continuations.push(
                Continuation::ActRoundEndAdvance { contributor_location: loc, threshold: t },
            );
            EngineOutcome::AwaitingInput {
                request: InputRequest {
                    kind: PromptKind::ActRoundEndAdvance,
                    options: Vec::new(),
                    target: Some(OptionTarget::Act),
                },
            }
        },
        None => {
            state.continuations.push(Continuation::NextPhase);
            EngineOutcome::Done
        },
    }
}

/// What queueing the forced abilities of one cell does: two or more
/// simultaneous hits open an ordered run for the lead; zero or one queue
/// inline.
pub open spec fn cell_queued(s: GameState, f: GameState, point: ForcedTriggerPoint, bucket: EventTiming) -> bool {
    let hits = forced_hits_of(s, point, bucket);
    if hits.len() >= 2 {
        &&& f == (GameState { continuations: f.continuations, ..s })
        &&& f.continuations@.len() == s.continuations@.len() + 1
        &&& f.continuations@.drop_last() == s.continuations@
        &&& f.continuations@.last() matches Continuation::ForcedRun { candidates } && candidates@ == hits
    } else {
        queued_forced(s, f, point, bucket)
    }
}

/// Queue the forced abilities of `bucket` at `point`.
pub fn queue_cell(state: &mut GameState, point: &ForcedTriggerPoint, bucket: EventTiming)
    requires
        old(state).wf(),
    ensures
        final(state).wf(),
        cell_queued(*old(state), *final(state), *point, bucket),
{
    let hits = collect_forced_hits(state, point, bucket);
    if hits.len() >= 2 {
        let ghost s0 = *state;
        state.continuations.push(Continuation::ForcedRun { candidates: hits });
        proof {
            assert(state.continuations@.drop_last() =~= s0.continuations@);
        }
    } else {
        queue_forced_triggers(state, point, bucket);
    }
}

/// The cell a walk step dispatches.
pub open spec fn cell_of(step: EmitStep) -> EventTiming {
    match step {
        EmitStep::When => EventTiming::When,
        EmitStep::At => EventTiming::At,
        EmitStep::After => EventTiming::After,
    }
}

/// What one step of a timing point's `when`/`at`/`after` walk does: the
/// frame moves on to the next cell (or is popped after the last one), and
/// the current cell's forced abilities are queued above it.
pub open spec fn walk_result(s: GameState, f: GameState, event: TimingEvent, step: EmitStep) -> bool {
    exists|mid: GameState|
        {
            &&& mid == (GameState { continuations: mid.continuations, ..s })
            &&& mid.continuations@ == match step {
                EmitStep::When => s.continuations@.drop_last().push(
                    Continuation::EmitEvent { event, step: EmitStep::At },
                ),
                EmitStep::At => s.continuations@.drop_last().push(
                    Continuation::EmitEvent { event, step: EmitStep::After },
                ),
                EmitStep::After => s.continuations@.drop_last(),
            }
            &&& #[trigger] walk_cell(mid, f, event, step)
        }
}

/// The forced abilities of `event`'s current cell, queued from `mid` to `f`.
pub open spec fn walk_cell(mid: GameState, f: GameState, event: TimingEvent, step: EmitStep) -> bool {
    match forced_point_of(event) {
        Some(p) => cell_queued(mid, f, p, cell_of(step)),
        None => f == mid,
    }
}

/// Step the timing-point walk on top of the stack.
pub fn step_emit_event(state: &mut GameState)
    requires
        old(state).wf(),
        old(state).continuations@.len() > 0,
        old(state).continuations@.last() is EmitEvent,
    ensures
        final(state).wf(),
        match old(state).continuations@.last() {
            Continuation::EmitEvent { event, step } => walk_result(*old(state), *final(state), event, step),
            _ => true,
        },
{
    let frame = state.continuations.pop().unwrap();
    let Continuation::EmitEvent { event, step } = frame else {
        return;
    };
    let point = event.forced_point();
    let bucket = match step {
        EmitStep::When => {
            state.continuations.push(Continuation::EmitEvent { event, step: EmitStep::At });
            EventTiming::When
        },
        EmitStep::At => {
            state.continuations.push(Continuation::EmitEvent { event, step: EmitStep::After });
            EventTiming::At
        },
        EmitStep::After => EventTiming::After,
    };
    let ghost mid = *state;
    match point {
        Some(p) => {
            queue_cell(state, &p, bucket);
        },
        None => {},
    }
    proof {
        assert(walk_cell(mid, *state, event, step));
    }
}

/// Whether `c` is an open (not yet ending) turn frame of `who`.
pub open spec fn open_turn_of(c: Continuation, who: InvestigatorId) -> bool {
    c == (Continuation::InvestigatorTurn { investigator: who, ending: false })
}

/// Step 2.2.2, the active investigator `a` ends their turn: their remaining
/// actions drain (announced when any were left), the end is announced,
/// their turn frame is marked ending (pushed ending when they have no open
/// turn on top), and the forced "at the end of your turn" abilities are
/// queued above it. The rotation runs once those resolve.
pub open spec fn turn_ended(s: GameState, f: GameState, e0: Seq<Event>, e1: Seq<Event>, a: InvestigatorId) -> bool {
    let k = crate::state::investigator_index(s.investigators@, a);
    let inv = s.investigators@[k];
    let drained = e0 + if inv.actions_remaining != 0 {
        seq![Event::ActionsRemainingChanged { investigator: a, new_count: 0 }]
    } else {
        Seq::empty()
    };
    exists|mid: GameState|
        {
            &&& mid == (GameState { investigators: mid.investigators, continuations: mid.continuations, ..s })
            &&& mid.investigators@ == s.investigators@.update(k, Investigator { actions_remaining: 0, ..inv })
            &&& mid.continuations@ == if s.continuations@.len() > 0 && open_turn_of(s.continuations@.last(), a) {
                s.continuations@.drop_last().push(Continuation::InvestigatorTurn { investigator: a, ending: true })
            } else {
                s.continuations@.push(Continuation::InvestigatorTurn { investigator: a, ending: true })
            }
            &&& #[trigger] queued_event(mid, f, TimingEvent::EndOfTurn { investigator: a })
            &&& e1 == drained.push(Event::TurnEnded { investigator: a })
        }
}

/// Step 2.2.2 for the active investigator: drain their actions, announce
/// the turn's end, mark their turn frame ending, and queue their "at the end
/// of your turn" forced abilities above it. Refused outside the
/// Investigation phase and when nobody is active.
pub fn end_turn_step(state: &mut GameState, events: &mut Vec<Event>) -> (r: EngineOutcome)
    requires
        old(state).wf(),
        old(state).active_investigator matches Some(a) ==> has_investigator(old(state).investigators@, a),
    ensures
        final(state).wf(),
        old(state).phase != Phase::Investigation ==> *final(state) == *old(state) && final(events)@
            == old(events)@ && r == (EngineOutcome::Rejected { reason: Reject::NotInvestigationPhase }),
        old(state).phase == Phase::Investigation && old(state).active_investigator is None
            ==> *final(state) == *old(state) && final(events)@ == old(events)@ && r == (
        EngineOutcome::Rejected { reason: Reject::NoActiveInvestigator }),
        old(state).phase == Phase::Investigation ==> match old(state).active_investigator {
            Some(a) => turn_ended(*old(state), *final(state), old(events)@, final(events)@, a) && r is Done,
            None => true,
        },
{
    if state.phase != Phase::Investigation {
        return EngineOutcome::Rejected { reason: Reject::NotInvestigationPhase };
    }
    let Some(a) = state.active_investigator else {
        return EngineOutcome::Rejected { reason: Reject::NoActiveInvestigator };
    };
    let k = state.find_investigator(a).unwrap();
    let ghost s0 = *state;
    let ghost e0 = events@;
    if state.investigators[k].actions_remaining != 0 {
        events.push(Event::ActionsRemainingChanged { investigator: a, new_count: 0 });
    }
    state.investigators[k].actions_remaining = 0;
    events.push(Event::TurnEnded { investigator: a });
    let n = state.continuations.len();
    let top_open = n > 0 && match &state.continuations[n - 1] {
        Continuation::InvestigatorTurn { investigator, ending } => *investigator == a && !*ending,
        _ => false,
    };
    if top_open {
        state.continuations.pop();
    }
    state.continuations.push(Continuation::InvestigatorTurn { investigator: a, ending: true });
    let ghost mid = *state;
    proof {
        assert(state.investigators@ =~= s0.investigators@.update(
            k as int,
            Investigator { actions_remaining: 0, ..s0.investigators@[k as int] },
        ));
        if top_open {
            assert(open_turn_of(s0.continuations@.last(), a));
        } else {
            assert(!(s0.continuations@.len() > 0 && open_turn_of(s0.continuations@.last(), a)));
        }
        assert(events@ == (e0 + if s0.investigators@[k as int].actions_remaining != 0 {
            seq![Event::ActionsRemainingChanged { investigator: a, new_count: 0 }]
        } else {
            Seq::empty()
        }).push(Event::TurnEnded { investigator: a }));
    }
    queue_event(state, &TimingEvent::EndOfTurn { investigator: a });
    EngineOutcome::Done
}

/// The rest of step 2.2.2 once `a`'s turn has ended: the next `Active`
/// investigator after them takes their turn (return to 2.2), or, with
/// nobody left, the cursor clears and the Investigation phase ends (2.3).
pub open spec fn rotated(s: GameState, f: GameState, e0: Seq<Event>, e1: Seq<Event>, a: InvestigatorId) -> bool {
    match next_active_after_of(s, a) {
        Some(n) => turn_begun(s, f, e0, e1, n),
        None => phase_closed(GameState { active_investigator: None, ..s }, f, e0, e1, Phase::Investigation),
    }
}

/// Rotate past `a` once their turn has ended.
pub fn resume_end_turn(state: &mut GameState, events: &mut Vec<Event>, a: InvestigatorId)
    requires
        old(state).wf(),
    ensures
        final(state).wf(),
        rotated(*old(state), *final(state), old(events)@, final(events)@, a),
{
    match next_active_investigator_after(state, a) {
        Some(n) => begin_investigator_turn(state, events, n),
        None => {
            state.active_investigator = None;
            end_investigation_phase(state, events);
        },
    }
}

/// How many of `owe` clues are still owed after the first `k` investigators
/// of `invs` at `loc` paid what they could, in order.
pub open spec fn owed_after(invs: Seq<Investigator>, loc: LocationId, owe: int, k: int) -> int
    decreases k,
{
    if k <= 0 {
        owe
    } else {
        let prev = owed_after(invs, loc, owe, k - 1);
        let i = invs[k - 1];
        if i.current_location == Some(loc) {
            prev - if i.clues < prev {
                i.clues as int
            } else {
                prev
            }
        } else {
            prev
        }
    }
}

/// The clues investigator `k` of `invs` pays toward `owe`.
pub open spec fn paid_by(invs: Seq<Investigator>, loc: LocationId, owe: int, k: int) -> int {
    let prev = owed_after(invs, loc, owe, k);
    if invs[k].current_location == Some(loc) {
        if invs[k].clues < prev {
            invs[k].clues as int
        } else {
            prev
        }
    } else {
        0
    }
}

/// `invs` after the investigators at `loc` spend `owe` clues as a group,
/// each in order paying what they can until the spend is covered.
pub open spec fn spent(invs: Seq<Investigator>, loc: LocationId, owe: int) -> Seq<Investigator> {
    Seq::new(
        invs.len(),
        |k: int| Investigator { clues: (invs[k].clues - paid_by(invs, loc, owe, k)) as u8, ..invs[k] },
    )
}

/// The investigators at `loc` spend `owe` clues as a group.
fn spend_clues_at(state: &mut GameState, loc: LocationId, owe: u8)
    requires
        old(state).wf(),
    ensures
        final(state).wf(),
        *final(state) == (GameState { investigators: final(state).investigators, ..*old(state) }),
        final(state).investigators@ == spent(old(state).investigators@, loc, owe as int),
{
    let ghost s0 = *state;
    let mut left: u8 = owe;
    let mut i: usize = 0;
    while i < state.investigators.len()
        invariant
            state.wf(),
            *state == (GameState { investigators: state.investigators, ..s0 }),
            state.investigators@.len() == s0.investigators@.len(),
            i <= s0.investigators@.len(),
            left == owed_after(s0.investigators@, loc, owe as int, i as int),
            0 <= left <= owe,
            forall|k: int| 0 <= k < i ==> state.investigators@[k] == spent(s0.investigators@, loc, owe as int)[k],
            forall|k: int| i <= k < s0.investigators@.len() ==> state.investigators@[k] == s0.investigators@[k],
        decreases s0.investigators@.len() - i,
    {
        if state.investigators[i].current_location == Some(loc) {
            let have = state.investigators[i].clues;
            let pay = if have < left {
                have
            } else {
                left
            };
            state.investigators[i].clues = have - pay;
            left = left - pay;
        }
        proof {
            assert forall|k: int| 0 <= k < state.investigators@.len() implies #[trigger] state.investigators@[k].id
                == s0.investigators@[k].id by {
                if k < i {
                    assert(state.investigators@[k] == spent(s0.investigators@, loc, owe as int)[k]);
                }
            }
            assert(state.investigators@[i as int] == spent(s0.investigators@, loc, owe as int)[i as int]);
        }
        i += 1;
    }
    proof {
        assert(state.investigators@ =~= spent(s0.investigators@, loc, owe as int));
    }
}

/// What confirming the round-end clue spend does: the investigators at
/// `loc` spend `t` clues as a group (announced), the current act advances
/// (announced, its forced abilities queued above the next phase), and the
/// next round's Mythos phase is queued.
pub open spec fn advanced_by_group(s: GameState, f: GameState, e0: Seq<Event>, e1: Seq<Event>, loc: LocationId, t: u8) -> bool {
    exists|mid: GameState|
        {
            &&& mid == (GameState {
                investigators: mid.investigators,
                act_index: mid.act_index,
                continuations: mid.continuations,
                ..s
            })
            &&& mid.investigators@ == spent(s.investigators@, loc, t as int)
            &&& mid.continuations@ == s.continuations@.drop_last().push(Continuation::NextPhase)
            &&& #[trigger] act_moved_on(s, mid, f, e0, e1, t)
        }
}

/// The act half of a confirmed round-end spend, from `mid` to `f`: the
/// current act (if any) advances, announced, with its forced abilities
/// queued.
pub open spec fn act_moved_on(s: GameState, mid: GameState, f: GameState, e0: Seq<Event>, e1: Seq<Event>, t: u8) -> bool {
    if s.act_index < s.act_deck@.len() {
        let code = s.act_deck@[s.act_index as int].code;
        &&& mid.act_index == s.act_index + 1
        &&& e1 == e0.push(Event::CluesSpent { amount: t }).push(Event::ActAdvanced { code })
        &&& queued_event(mid, f, TimingEvent::ActAdvanced { code })
    } else {
        &&& mid.act_index == s.act_index
        &&& e1 == e0.push(Event::CluesSpent { amount: t })
        &&& f == mid
    }
}

/// What answering the round-end clue spend does (see [`resume_act_round_end_advance`]).
pub open spec fn round_end_advance_resumed(s: GameState, f: GameState, e0: Seq<Event>, e1: Seq<Event>, response: InputResponse, r: EngineOutcome) -> bool {
    match (s.continuations@.last(), response) {
        (Continuation::ActRoundEndAdvance { .. }, InputResponse::Skip) => {
            &&& f == (GameState { continuations: f.continuations, ..s })
            &&& f.continuations@ == s.continuations@.drop_last().push(Continuation::NextPhase)
            &&& e1 == e0
            &&& r is Done
        },
        (Continuation::ActRoundEndAdvance { contributor_location, threshold }, InputResponse::Confirm) =>
            if clues_at(s.investigators@, contributor_location) < threshold {
            f == s && e1 == e0 && r == (
            EngineOutcome::Rejected { reason: Reject::NotEnoughClues })
        } else {
            advanced_by_group(s, f, e0, e1, contributor_location, threshold)
                && r is Done
        },
        (Continuation::ActRoundEndAdvance { .. }, _) => f == s && e1
            == e0 && r == (EngineOutcome::Rejected { reason: Reject::WrongResponseKind }),
        _ => true,
    }
}

/// Resume the act's round-end clue spend: `Confirm` spends the threshold
/// from the investigators at the contributor location and advances the act
/// (refused, state untouched, when they no longer hold enough); `Skip`
/// declines. Either way the round closes and the next round's Mythos phase
/// is queued. Another kind of answer is refused with the state untouched.
pub fn resume_act_round_end_advance(state: &mut GameState, events: &mut Vec<Event>, response: &InputResponse)
    -> (r: EngineOutcome)
    requires
        old(state).wf(),
        old(state).continuations@.len() > 0,
        old(state).continuations@.last() is ActRoundEndAdvance,
    ensures
        final(state).wf(),
        round_end_advance_resumed(*old(state), *final(state), old(events)@, final(events)@, *response, r),
{
    let n = state.continuations.len();
    let (loc, t) = match &state.continuations[n - 1] {
        Continuation::ActRoundEndAdvance { contributor_location, threshold } => (*contributor_location, *threshold),
        _ => {
            return EngineOutcome::Done;
        },
    };
    match response {
        InputResponse::Skip => {
            state.continuations.pop();
            state.continuations.push(Continuation::NextPhase);
            EngineOutcome::Done
        },
        InputResponse::Confirm => {
            if clues_held(state, loc) < t as u128 {
                return EngineOutcome::Rejected { reason: Reject::NotEnoughClues };
            }
            let ghost s0 = *state;
            spend_clues_at(state, loc, t);
            events.push(Event::CluesSpent { amount: t });
            state.continuations.pop();
            state.continuations.push(Continuation::NextPhase);
            if state.act_index < state.act_deck.len() {
                let code = state.act_deck[state.act_index].code.clone();
                let code2 = code.clone();
                state.act_index = state.act_index + 1;
                events.push(Event::ActAdvanced { code });
                let ghost mid = *state;
                queue_event(state, &TimingEvent::ActAdvanced { code: code2 });
                assert(act_moved_on(s0, mid, *state, old(events)@, events@, t));
            } else {
                assert(act_moved_on(s0, *state, *state, old(events)@, events@, t));
            }
            EngineOutcome::Done
        },
        _ => EngineOutcome::Rejected { reason: Reject::WrongResponseKind },
    }
}

/// What discarding `indices` from the hand of the investigator at `k`
/// does: the named cards leave the hand for the discard pile in hand
/// order, each announced.
pub open spec fn hand_discarded(s: GameState, f: GameState, e0: Seq<Event>, e1: Seq<Event>, k: int, indices: Seq<u32>) -> bool {
    let inv = s.investigators@[k];
    let gone = picked(inv.hand@, indices);
    &&& f == (GameState { investigators: f.investigators, ..s })
    &&& f.investigators@ == s.investigators@.update(
        k,
        Investigator { hand: f.investigators@[k].hand, discard: f.investigators@[k].discard, ..inv },
    )
    &&& f.investigators@[k].hand@ == unpicked(inv.hand@, indices)
    &&& f.investigators@[k].discard@ == inv.discard@ + gone
    &&& e1 == e0 + gone.map_values(
        |c: CardCode| Event::CardDiscarded { investigator: inv.id, code: c, from: Zone::Hand },
    )
}

/// What answering the hand-size discard does (see [`resume_hand_size_discard`]).
pub open spec fn hand_size_discard_resumed(s: GameState, f: GameState, e0: Seq<Event>, e1: Seq<Event>, response: InputResponse, r: EngineOutcome) -> bool {
    match (s.continuations@.last(), response) {
        (Continuation::HandSizeDiscard { remaining }, InputResponse::DiscardCards { indices }) => {
            let k = investigator_index(s.investigators@, remaining@[0]);
            match discard_fault(indices@, s.investigators@[k].hand@.len()) {
                Some(why) => f == s && e1 == e0 && r == (
                EngineOutcome::Rejected { reason: why }),
                None => exists|mid: GameState, em: Seq<Event>|
                    {
                        &&& #[trigger] hand_discarded(s, mid, e0, em, k, indices@)
                        &&& if remaining@.len() == 1 {
                            &&& crate::dispatch::driven(r)
                            &&& exists|p: GameState, m: GameState, e4: Seq<Event>|
                                {
                                    &&& popped_from(mid, p)
                                    &&& #[trigger] upkeep_closed(p, m, em, e4)
                                    &&& drive_run(m, f, e4, e1, r)
                                }
                        } else {
                            &&& f == (GameState { continuations: f.continuations, ..mid })
                            &&& e1 == em
                            &&& f.continuations@.drop_last() == s.continuations@.drop_last()
                            &&& f.continuations@.last() matches Continuation::HandSizeDiscard { remaining: rest }
                                && rest@ == remaining@.drop_first()
                            &&& discard_prompt(r, remaining@[1])
                        }
                    },
            }
        },
        (Continuation::HandSizeDiscard { .. }, _) => f == s && e1
            == e0 && r == (EngineOutcome::Rejected { reason: Reject::WrongResponseKind }),
        _ => true,
    }
}

/// Resume step 4.5's hand-size discard for the investigator the frame
/// names first: the answer must list exactly the cards over the limit, each
/// once, each in the hand (refused otherwise, state untouched). The named
/// cards are discarded; the next over-limit investigator is prompted, or,
/// when none is left, the frame is popped, step 4.6 runs (the Upkeep phase
/// and the round end), and the stack is driven on into the next round's
/// Mythos phase. Another kind of answer is refused.
pub fn resume_hand_size_discard(state: &mut GameState, events: &mut Vec<Event>, response: &InputResponse)
    -> (r: EngineOutcome)
    requires
        old(state).wf(),
        old(state).continuations@.len() > 0,
        old(state).continuations@.last() matches Continuation::HandSizeDiscard { remaining } && remaining@.len()
            > 0 && has_investigator(old(state).investigators@, remaining@[0]),
    ensures
        final(state).wf(),
        hand_size_discard_resumed(*old(state), *final(state), old(events)@, final(events)@, *response, r),
{
    let indices = match response {
        InputResponse::DiscardCards { indices } => indices,
        _ => {
            return EngineOutcome::Rejected { reason: Reject::WrongResponseKind };
        },
    };
    let n = state.continuations.len();
    let current = match &state.continuations[n - 1] {
        Continuation::HandSizeDiscard { remaining } => remaining[0],
        _ => {
            return EngineOutcome::Done;
        },
    };
    let k = state.find_investigator(current).unwrap();
    if let Some(why) = check_discard(indices, state.investigators[k].hand.len()) {
        return EngineOutcome::Rejected { reason: why };
    }
    let ghost s0 = *state;
    discard_from_hand(state, events, k, indices);
    let ghost mid = *state;
    proof {
        assert(state.investigators@ =~= s0.investigators@.update(
            k as int,
            Investigator {
                hand: state.investigators@[k as int].hand,
                discard: state.investigators@[k as int].discard,
                ..s0.investigators@[k as int]
            },
        ));
        assert(hand_discarded(s0, mid, old(events)@, events@, k as int, indices@));
    }
    let frame = state.continuations.pop().unwrap();
    let mut rest = match frame {
        Continuation::HandSizeDiscard { remaining } => remaining,
        _ => Vec::new(),
    };
    rest.remove(0);
    if rest.len() == 0 {
        let ghost p = *state;
        let ghost em = events@;
        assert(popped_from(mid, p));
        end_upkeep_phase(state, events);
        assert(upkeep_closed(p, *state, em, events@));
        drive_frames(state, events)
    } else {
        let ghost popped = state.continuations@;
        let r = park_hand_size_discard(state, rest);
        r
    }
}

/// Open framework player window `kind` and drive on: the window auto-skips
/// and its continuation runs.
pub fn open_fast_window(state: &mut GameState, events: &mut Vec<Event>, kind: PhaseStep) -> (r: EngineOutcome)
    requires
        old(state).wf(),
    ensures
        final(state).wf(),
        r is Done ==> settled(*final(state)),
        exists|m: GameState, em: Seq<Event>|
            #[trigger] window_result(*old(state), m, old(events)@, em, kind) && drive_run(m, *final(state), em, final(events)@, r),
{
    let ghost s0 = *state;
    let ghost e0 = events@;
    queue_window(state, events, kind);
    let ghost m = *state;
    let ghost em = events@;
    assert(window_result(s0, m, e0, em, kind));
    drive_frames(state, events)
}

/// Begin the Investigation phase (step 2.1 and its window) and drive on to
/// the lead's turn. With nobody `Active` the phase parks: no turn, no
/// phase end.
pub fn investigation_phase(state: &mut GameState, events: &mut Vec<Event>) -> (r: EngineOutcome)
    requires
        old(state).wf(),
    ensures
        final(state).wf(),
        r is Done ==> settled(*final(state)),
        exists|m: GameState, em: Seq<Event>|
            #[trigger] investigation_begun(*old(state), m, old(events)@, em) && drive_run(m, *final(state), em, final(events)@, r),
{
    let ghost s0 = *state;
    let ghost e0 = events@;
    begin_investigation_phase(state, events);
    let ghost m = *state;
    let ghost em = events@;
    assert(investigation_begun(s0, m, e0, em));
    drive_frames(state, events)
}

/// Begin the Mythos phase (steps 1.1-1.4) and drive on; with nobody to
/// draw the phase ends at once and the Investigation phase begins.
pub fn mythos_phase(state: &mut GameState, events: &mut Vec<Event>) -> (r: EngineOutcome)
    requires
        old(state).wf(),
    ensures
        final(state).wf(),
        r is Done ==> settled(*final(state)),
        exists|m: GameState, em: Seq<Event>|
            #[trigger] mythos_begun(*old(state), m, old(events)@, em) && drive_run(m, *final(state), em, final(events)@, r),
{
    let ghost s0 = *state;
    let ghost e0 = events@;
    begin_mythos_phase(state, events);
    let ghost m = *state;
    let ghost em = events@;
    assert(mythos_begun(s0, m, e0, em));
    drive_frames(state, events)
}

/// End the Mythos phase (step 1.5) and drive on into the Investigation
/// phase.
pub fn mythos_phase_end(state: &mut GameState, events: &mut Vec<Event>) -> (r: EngineOutcome)
    requires
        old(state).wf(),
    ensures
        final(state).wf(),
        r is Done ==> settled(*final(state)),
        exists|m: GameState, em: Seq<Event>|
            #[trigger] phase_closed(*old(state), m, old(events)@, em, Phase::Mythos) && drive_run(m, *final(state), em, final(events)@, r),
{
    let ghost s0 = *state;
    let ghost e0 = events@;
    end_mythos_phase(state, events);
    let ghost m = *state;
    let ghost em = events@;
    assert(phase_closed(s0, m, e0, em, Phase::Mythos));
    drive_frames(state, events)
}

/// Transition to the next phase and drive the cascade on until it waits
/// on a player.
pub fn step_phase(state: &mut GameState, events: &mut Vec<Event>) -> (r: EngineOutcome)
    requires
        old(state).wf(),
    ensures
        final(state).wf(),
        r is Done ==> settled(*final(state)),
        exists|m: GameState, em: Seq<Event>, x: EngineOutcome|
            #[trigger] phase_stepped(*old(state), m, old(events)@, em, x) && then_driven(m, *final(state), em, final(events)@, x, r),
{
    let ghost s0 = *state;
    let ghost e0 = events@;
    let outcome = enter_next_phase(state, events);
    let ghost m = *state;
    let ghost em = events@;
    assert(phase_stepped(s0, m, e0, em, outcome));
    drive(state, events, outcome)
}

/// End the active investigator's turn (step 2.2.2) and drive on: the next
/// investigator's turn, or the end of the Investigation phase and the
/// rounds' cascade. Refused outside the Investigation phase and with
/// nobody active.
pub fn end_turn(state: &mut GameState, events: &mut Vec<Event>) -> (r: EngineOutcome)
    requires
        old(state).wf(),
        old(state).active_investigator matches Some(a) ==> has_investigator(old(state).investigators@, a),
    ensures
        final(state).wf(),
        old(state).phase != Phase::Investigation ==> *final(state) == *old(state) && final(events)@
            == old(events)@ && r == (EngineOutcome::Rejected { reason: Reject::NotInvestigationPhase }),
        old(state).phase == Phase::Investigation && old(state).active_investigator is None
            ==> *final(state) == *old(state) && final(events)@ == old(events)@ && r == (
        EngineOutcome::Rejected { reason: Reject::NoActiveInvestigator }),
        old(state).phase == Phase::Investigation ==> (old(state).active_investigator matches Some(a) ==> exists|
            mid: GameState,
            em: Seq<Event>,
        | #[trigger] turn_ended(*old(state), mid, old(events)@, em, a) && drive_run(mid, *final(state), em, final(events)@, r)),
        r is Done ==> settled(*final(state)),
        refusal_changes_nothing(*old(state), *final(state), old(events)@, final(events)@, r),
{
    let ghost s0 = *state;
    let ghost e0 = events@;
    let outcome = end_turn_step(state, events);
    let ghost mid = *state;
    let ghost em = events@;
    let r = drive(state, events, outcome);
    proof {
        if s0.phase == Phase::Investigation {
            if let Some(a) = s0.active_investigator {
                assert(turn_ended(s0, mid, e0, em, a));
            }
        }
    }
    r
}

/// Run steps 4.2-4.5 and drive on; parks at the hand-size discard when
/// anyone is over the limit.
pub fn upkeep_resume(state: &mut GameState, events: &mut Vec<Event>) -> (r: EngineOutcome)
    requires
        old(state).wf(),
    ensures
        final(state).wf(),
        r is Done ==> settled(*final(state)),
        exists|m: GameState, em: Seq<Event>, x: EngineOutcome|
            #[trigger] upkeep_resumed(*old(state), m, old(events)@, em, x) && then_driven(m, *final(state), em, final(events)@, x, r),
{
    let ghost s0 = *state;
    let ghost e0 = events@;
    let outcome = resume_upkeep(state, events);
    let ghost m = *state;
    let ghost em = events@;
    assert(upkeep_resumed(s0, m, e0, em, outcome));
    drive(state, events, outcome)
}

/// End the Upkeep phase and the round (step 4.6) and drive on; parks at the
/// act's round-end clue spend when it is on offer.
pub fn upkeep_phase_end(state: &mut GameState, events: &mut Vec<Event>) -> (r: EngineOutcome)
    requires
        old(state).wf(),
    ensures
        final(state).wf(),
        r is Done ==> settled(*final(state)),
        exists|m: GameState, em: Seq<Event>|
            #[trigger] upkeep_closed(*old(state), m, old(events)@, em) && drive_run(m, *final(state), em, final(events)@, r),
{
    let ghost s0 = *state;
    let ghost e0 = events@;
    end_upkeep_phase(state, events);
    let ghost m = *state;
    let ghost em = events@;
    assert(upkeep_closed(s0, m, e0, em));
    drive_frames(state, events)
}

/// The round's tail after the round-end forced abilities, then drive on.
pub fn upkeep_after_round_ended(state: &mut GameState, events: &mut Vec<Event>) -> (r: EngineOutcome)
    requires
        old(state).wf(),
    ensures
        final(state).wf(),
        r is Done ==> settled(*final(state)),
        exists|m: GameState, x: EngineOutcome|
            #[trigger] tail_result(*old(state), m, x) && then_driven(m, *final(state), old(events)@, final(events)@, x, r),
{
    let ghost s0 = *state;
    let ghost e0 = events@;
    let outcome = round_end_tail(state);
    let ghost m = *state;
    assert(tail_result(s0, m, outcome));
    drive(state, events, outcome)
}


/// What is still owed after the first `k` investigators have paid, and what
/// those first `k` hold at `loc` afterwards.
proof fn lemma_spend_prefix(invs: Seq<Investigator>, loc: LocationId, owe: int, k: int)
    requires
        0 <= owe,
        0 <= k <= invs.len(),
    ensures
        owed_after(invs, loc, owe, k) == if clues_at(invs.take(k), loc) >= owe {
            0
        } else {
            owe - clues_at(invs.take(k), loc)
        },
        clues_at(spent(invs, loc, owe).take(k), loc) == clues_at(invs.take(k), loc) - (owe - owed_after(
            invs,
            loc,
            owe,
            k,
        )),
    decreases k,
{
    let sp = spent(invs, loc, owe);
    if k == 0 {
        assert(invs.take(0) =~= Seq::<Investigator>::empty());
        assert(sp.take(0) =~= Seq::<Investigator>::empty());
    } else {
        lemma_spend_prefix(invs, loc, owe, k - 1);
        assert(invs.take(k).drop_last() =~= invs.take(k - 1));
        assert(sp.take(k).drop_last() =~= sp.take(k - 1));
        assert(invs.take(k).last() == invs[k - 1]);
        assert(sp.take(k).last() == sp[k - 1]);
    }
}

/// A group spend takes exactly what is owed from the investigators at the
/// location when they hold that much between them, takes nothing from
/// anyone elsewhere, and never adds a clue to anyone.
pub proof fn law_group_spend_takes_exactly_what_is_owed(invs: Seq<Investigator>, loc: LocationId, owe: int)
    requires
        0 <= owe <= clues_at(invs, loc),
    ensures
        spent(invs, loc, owe).len() == invs.len(),
        clues_at(spent(invs, loc, owe), loc) == clues_at(invs, loc) - owe,
        forall|k: int|
            0 <= k < invs.len() && invs[k].current_location != Some(loc) ==> #[trigger] spent(invs, loc, owe)[k]
                == invs[k],
        forall|k: int| 0 <= k < invs.len() ==> #[trigger] spent(invs, loc, owe)[k].clues <= invs[k].clues,
{
    let sp = spent(invs, loc, owe);
    lemma_spend_prefix(invs, loc, owe, invs.len() as int);
    assert(invs.take(invs.len() as int) =~= invs);
    assert(sp.take(invs.len() as int) =~= sp);
    assert forall|k: int|
        0 <= k < invs.len() && invs[k].current_location != Some(loc) implies #[trigger] sp[k] == invs[k] by {
        assert(paid_by(invs, loc, owe, k) == 0);
    }
    assert forall|k: int| 0 <= k < invs.len() implies #[trigger] sp[k].clues <= invs[k].clues by {
        lemma_spend_prefix(invs, loc, owe, k);
    }
}

} // verus!
