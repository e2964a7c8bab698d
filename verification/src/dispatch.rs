//! The drive loop and the two entry points: a player's action and an
//! engine-generated record. Each applies its handler, then drives the
//! continuation stack until the engine waits on a player, idles at the open
//! turn, or runs out of work.
use vstd::prelude::*;

use crate::cursor::{first_active_investigator, first_active_of};
use crate::deck::{shuffle_codes, shuffled};
use crate::elimination::drive_elimination;
use crate::encounter::{encounter_card_revealed, encounter_deck_shuffled, resume_spawn_engage};
use crate::hunters::{choice_fits, resume_hunter_choice};
use crate::outcome::{EngineOutcome, EngineRecord, Event, InputResponse, PlayerAction, Reject};
use crate::phases::{
    turn_ended, attack_step, enemy_closed, phase_closed, phase_stepped, rotated, tail_result,
    turn_begun, upkeep_closed, upkeep_resumed, walk_result, attack_pending_investigator, begin_investigator_turn, end_enemy_phase, end_mythos_phase,
    end_turn_step, end_upkeep_phase, enter_next_phase,
    resume_act_round_end_advance, resume_end_turn, resume_hand_size_discard, resume_upkeep,
    round_end_tail, step_emit_event,
};
use crate::queue::{
    drive_acknowledge_forced, drive_effect, drive_forced_run, resume_acknowledge_forced,
    resume_forced_run,
};
use crate::state::{
    has_enemy, has_investigator, investigator_index, Continuation, GameState, HunterChoice,
    Investigator, InvestigatorId, PhaseStep, Status,
};

verus! {

/// How many frames one drive may step before it gives up.
pub const DRIVE_LIMIT: u32 = 1_000_000;

/// Whether frame `c` waits on a player: the open turn, or a pending choice.
pub open spec fn awaits_player(c: Continuation) -> bool {
    match c {
        Continuation::InvestigatorTurn { ending, .. } => !ending,
        Continuation::HunterMove(_) => true,
        Continuation::SpawnEngage(_) => true,
        Continuation::HandSizeDiscard { .. } => true,
        Continuation::ActRoundEndAdvance { .. } => true,
        _ => false,
    }
}

/// Whether the stack has nothing left for the drive loop: it is empty or
/// its top waits on a player.
pub open spec fn settled(s: GameState) -> bool {
    s.continuations@.len() == 0 || (awaits_player(s.continuations@.last()) && !ending_cancels_top(s))
}

/// Whether the scenario's ending cancels frame `c`. A latched resolution
/// cancels opportunities, not resolutions: the prompts and windows still
/// open, the turns, and the round's progression are dropped, while what is
/// already resolving (an effect, a timing point's walk, a forced run and its
/// acknowledgement, an elimination) completes.
pub open spec fn cancelled_by_ending(c: Continuation) -> bool {
    match c {
        Continuation::Elimination { .. } => false,
        Continuation::AcknowledgeForced { .. } => false,
        Continuation::ForcedRun { .. } => false,
        Continuation::Effect { .. } => false,
        Continuation::EmitEvent { .. } => false,
        _ => true,
    }
}

/// Whether a scenario resolution has latched and the top frame is one it
/// cancels.
pub open spec fn ending_cancels_top(s: GameState) -> bool {
    &&& s.ending is Some
    &&& s.continuations@.len() > 0
    &&& cancelled_by_ending(s.continuations@.last())
}

/// Whether a scenario resolution has latched and the top frame is one it
/// cancels.
fn ending_cancels(state: &GameState) -> (b: bool)
    ensures
        b == ending_cancels_top(*state),
{
    let n = state.continuations.len();
    if state.ending.is_none() || n == 0 {
        return false;
    }
    match &state.continuations[n - 1] {
        Continuation::Elimination { .. } => false,
        Continuation::AcknowledgeForced { .. } => false,
        Continuation::ForcedRun { .. } => false,
        Continuation::Effect { .. } => false,
        Continuation::EmitEvent { .. } => false,
        _ => true,
    }
}

/// What the drive loop can end with: settled, suspended on a prompt, or
/// stopped at the step limit.
pub open spec fn driven(r: EngineOutcome) -> bool {
    r is Done || r is AwaitingInput || r == (EngineOutcome::Rejected { reason: Reject::DriveLimit })
}

/// A refusal (other than the step limit) leaves the game and its log as
/// they were.
pub open spec fn refusal_changes_nothing(
    s0: GameState,
    s1: GameState,
    e0: Seq<Event>,
    e1: Seq<Event>,
    r: EngineOutcome,
) -> bool {
    r matches EngineOutcome::Rejected { reason } && reason != Reject::DriveLimit ==> s1 == s0 && e1 == e0
}

/// Whether the top frame is a spawn-engagement tie that suspended a Mythos
/// draw chain, which carries on drawing once the tie is settled.
pub open spec fn resumes_draw_chain(s: GameState) -> bool {
    &&& s.continuations@.len() > 0
    &&& s.continuations@.last() matches Continuation::SpawnEngage(p)
    &&& s.phase == crate::state::Phase::Mythos
    &&& s.mythos_draw_pending == Some(p.investigator_to_draw)
}

/// What the continuation of framework window `kind` does once the window
/// has closed: after the draws the Mythos phase ends (1.5); after 2.1 the
/// lead's turn begins (nothing when nobody is `Active`); after 2.2 the open
/// turn carries on; before each attack the cursor's investigator is
/// attacked (3.3); after all attacks the Enemy phase ends (3.4); after 4.1
/// steps 4.2-4.5 run.
pub open spec fn window_ran(s: GameState, f: GameState, e0: Seq<Event>, e1: Seq<Event>, kind: PhaseStep, r: EngineOutcome) -> bool {
    match kind {
        PhaseStep::MythosAfterDraws => phase_closed(s, f, e0, e1, crate::state::Phase::Mythos) && r is Done,
        PhaseStep::InvestigationBegins => r is Done && match first_active_of(s) {
            Some(lead) => turn_begun(s, f, e0, e1, lead),
            None => f == s && e1 == e0,
        },
        PhaseStep::InvestigatorTurnBegins => f == s && e1 == e0 && r is Done,
        PhaseStep::BeforeInvestigatorAttacked => attack_step(s, f, e0, e1) && r is Done,
        PhaseStep::AfterAllInvestigatorsAttacked => enemy_closed(s, f, e0, e1) && r is Done,
        PhaseStep::UpkeepBegins => upkeep_resumed(s, f, e0, e1, r),
    }
}

/// Run the continuation of framework window `kind` once it has closed.
pub fn run_window(state: &mut GameState, events: &mut Vec<Event>, kind: PhaseStep) -> (r: EngineOutcome)
    requires
        old(state).wf(),
    ensures
        final(state).wf(),
        r is Done || r is AwaitingInput,
        window_ran(*old(state), *final(state), old(events)@, final(events)@, kind, r),
{
    match kind {
        PhaseStep::MythosAfterDraws => {
            end_mythos_phase(state, events);
            EngineOutcome::Done
        },
        PhaseStep::InvestigationBegins => {
            match first_active_investigator(state) {
                Some(lead) => begin_investigator_turn(state, events, lead),
                None => {},
            }
            EngineOutcome::Done
        },
        PhaseStep::InvestigatorTurnBegins => EngineOutcome::Done,
        PhaseStep::BeforeInvestigatorAttacked => {
            attack_pending_investigator(state, events);
            EngineOutcome::Done
        },
        PhaseStep::AfterAllInvestigatorsAttacked => {
            end_enemy_phase(state, events);
            EngineOutcome::Done
        },
        PhaseStep::UpkeepBegins => resume_upkeep(state, events),
    }
}

/// Whether the top frame is an elimination of a seated, no longer
/// `Active` investigator (the only kind the elimination steps accept).
fn elimination_ready(state: &GameState) -> (b: bool)
    requires
        state.wf(),
        state.continuations@.len() > 0,
    ensures
        b == (state.continuations@.last() matches Continuation::Elimination { investigator, .. }
            && has_investigator(state.investigators@, investigator)
            && state.investigators@[investigator_index(state.investigators@, investigator)].status
            != Status::Active),
{
    let n = state.continuations.len();
    match &state.continuations[n - 1] {
        Continuation::Elimination { investigator, .. } => match state.find_investigator(*investigator) {
            Some(k) => !matches!(state.investigators[k].status, Status::Active),
            None => false,
        },
        _ => false,
    }
}

/// `s` with its top frame popped.
pub open spec fn popped_from(s: GameState, p: GameState) -> bool {
    &&& p == (GameState { continuations: p.continuations, ..s })
    &&& p.continuations@ == s.continuations@.drop_last()
}

/// How a handler's outcome carries into the drive: `Done` carries on, any
/// other outcome stops it.
pub open spec fn carried(x: EngineOutcome) -> Option<EngineOutcome> {
    if x is Done {
        None
    } else {
        Some(x)
    }
}

/// Whether the elimination frame on top of `s` names a seated investigator
/// who is no longer `Active` (the only kind the elimination steps run for).
pub open spec fn elimination_ready_in(s: GameState) -> bool {
    s.continuations@.last() matches Continuation::Elimination { investigator, .. } && has_investigator(
        s.investigators@,
        investigator,
    ) && s.investigators@[investigator_index(s.investigators@, investigator)].status != Status::Active
}

/// One step of the drive loop on a non-empty stack, from `s` and log `e0`
/// to `f` and `e1`: what the top frame does, and `r`, which is `Some` when
/// the drive stops with that outcome and `None` when it carries on.
///
/// Once a scenario resolution has latched, a frame it cancels is popped
/// unrun. Otherwise a frame that waits on a player stops the drive with
/// `Done`, changing nothing; an acknowledgement or an ordered forced run with candidates
/// left prompts; an ending turn pops and rotates (2.2.2); an elimination
/// runs its steps (a stale one is dropped); a closed framework window pops
/// and runs its continuation; an effect resolves; a timing point walks one
/// cell; the phase, upkeep-end and round-tail frames pop and run
/// their steps; a reaction window advances its resolution.
#[verifier::opaque]
pub open spec fn stepped(s: GameState, f: GameState, e0: Seq<Event>, e1: Seq<Event>, r: Option<EngineOutcome>) -> bool {
    if ending_cancels_top(s) {
        popped_from(s, f) && e1 == e0 && r is None
    } else {
    match s.continuations@.last() {
        Continuation::InvestigatorTurn { investigator, ending } => if ending {
            r is None && exists|p: GameState| popped_from(s, p) && #[trigger] rotated(p, f, e0, e1, investigator)
        } else {
            f == s && e1 == e0 && r == Some(EngineOutcome::Done)
        },
        Continuation::HunterMove(_) | Continuation::SpawnEngage(_) | Continuation::HandSizeDiscard { .. }
        | Continuation::ActRoundEndAdvance { .. } => f == s && e1 == e0 && r == Some(EngineOutcome::Done),
        Continuation::Elimination { .. } => r is None && if elimination_ready_in(s) {
            crate::elimination::elimination_driven(s, f, e0, e1)
        } else {
            popped_from(s, f) && e1 == e0
        },
        Continuation::AcknowledgeForced { candidate } => {
            &&& f == s
            &&& e1 == e0
            &&& r matches Some(x) && crate::queue::ack_prompt(
                x,
                crate::queue::anchor_of(candidate, crate::queue::current_act_of(s), crate::queue::current_agenda_of(s)),
            )
        },
        Continuation::ForcedRun { candidates } => if candidates@.len() == 0 {
            popped_from(s, f) && e1 == e0 && r is None
        } else if candidates@.len() <= u32::MAX {
            &&& f == s
            &&& e1 == e0
            &&& r matches Some(EngineOutcome::AwaitingInput { request }) && request.kind == crate::outcome::PromptKind::ForcedOrder
                && request.options@ == crate::queue::run_options(
                candidates@,
                crate::queue::current_act_of(s),
                crate::queue::current_agenda_of(s),
            )
        } else {
            f == s && e1 == e0 && r == Some(EngineOutcome::Rejected { reason: Reject::DriveLimit })
        },
        Continuation::FastWindow { kind } => exists|p: GameState, x: EngineOutcome|
            popped_from(s, p) && #[trigger] window_ran(p, f, e0, e1, kind, x) && r == carried(x),
        Continuation::Effect { .. } => crate::queue::effect_driven(s, f, e0, e1) && r is None,
        Continuation::EmitEvent { event, step } => walk_result(s, f, event, step) && e1 == e0 && r is None,
        Continuation::NextPhase => exists|p: GameState, x: EngineOutcome|
            popped_from(s, p) && #[trigger] phase_stepped(p, f, e0, e1, x) && r == carried(x),
        Continuation::UpkeepEnd => r is None && exists|p: GameState|
            popped_from(s, p) && #[trigger] upkeep_closed(p, f, e0, e1),
        Continuation::RoundEndTail => e1 == e0 && exists|p: GameState, x: EngineOutcome|
            popped_from(s, p) && #[trigger] tail_result(p, f, x) && r == carried(x),
        Continuation::ReactionWindow { .. } => crate::reactions::window_advanced(s, f, e0, e1, r),
    }
    }
}

/// `st[0..=n]` and `lg[0..=n]` are the states and logs of `n` drive steps,
/// each from a non-empty stack, none of which stopped the drive.
pub open spec fn drive_trace(st: Seq<GameState>, lg: Seq<Seq<Event>>, n: int) -> bool
    decreases n,
{
    if n <= 0 {
        n == 0
    } else {
        &&& drive_trace(st, lg, n - 1)
        &&& st[n - 1].continuations@.len() > 0
        &&& stepped(st[n - 1], st[n], lg[n - 1], lg[n], None)
    }
}

/// What driving the stack from `s` and log `e0` ends in: after `n` steps
/// that carried on, either the stack is empty (`Done`), or step `n + 1`
/// stops the drive with `r`, or the step limit is reached after
/// `DRIVE_LIMIT` steps (refused with `DriveLimit`, the game as those steps
/// left it).
pub open spec fn drive_run(s: GameState, f: GameState, e0: Seq<Event>, e1: Seq<Event>, r: EngineOutcome) -> bool {
    exists|st: Seq<GameState>, lg: Seq<Seq<Event>>, n: int|
        {
            &&& #[trigger] drive_trace(st, lg, n)
            &&& 0 <= n <= DRIVE_LIMIT
            &&& st.len() > n && lg.len() > n
            &&& st[0] == s && lg[0] == e0
            &&& if n == DRIVE_LIMIT {
                f == st[n] && e1 == lg[n] && r == (EngineOutcome::Rejected { reason: Reject::DriveLimit })
            } else if st[n].continuations@.len() == 0 {
                f == st[n] && e1 == lg[n] && r is Done
            } else {
                stepped(st[n], f, lg[n], e1, Some(r))
            }
        }
}

/// A trace of `n` carrying steps that ends as `drive_run` describes is a
/// drive run.
proof fn lemma_drive_run_intro(
    s: GameState,
    f: GameState,
    e0: Seq<Event>,
    e1: Seq<Event>,
    r: EngineOutcome,
    st: Seq<GameState>,
    lg: Seq<Seq<Event>>,
    n: int,
)
    requires
        drive_trace(st, lg, n),
        0 <= n <= DRIVE_LIMIT,
        st.len() > n && lg.len() > n,
        st[0] == s && lg[0] == e0,
        if n == DRIVE_LIMIT {
            f == st[n] && e1 == lg[n] && r == (EngineOutcome::Rejected { reason: Reject::DriveLimit })
        } else if st[n].continuations@.len() == 0 {
            f == st[n] && e1 == lg[n] && r is Done
        } else {
            stepped(st[n], f, lg[n], e1, Some(r))
        },
    ensures
        drive_run(s, f, e0, e1, r),
{
}

/// The first step of a trace of `n > 0` steps carried on from a
/// non-empty stack.
proof fn lemma_drive_trace_first(st: Seq<GameState>, lg: Seq<Seq<Event>>, n: int)
    requires
        drive_trace(st, lg, n),
        n > 0,
    ensures
        st[0].continuations@.len() > 0,
        stepped(st[0], st[1], lg[0], lg[1], None),
    decreases n,
{
    if n > 1 {
        lemma_drive_trace_first(st, lg, n - 1);
    }
}

/// Driving a settled stack (empty, or waiting on a player) does nothing:
/// the drive stops at once with `Done`, leaving the game and its log as
/// they were.
pub proof fn law_settled_drive_is_idle(s: GameState, f: GameState, e0: Seq<Event>, e1: Seq<Event>, r: EngineOutcome)
    requires
        settled(s),
        drive_run(s, f, e0, e1, r),
    ensures
        f == s,
        e1 == e0,
        r is Done,
{
    reveal(stepped);
    let (st, lg, n) = choose|st: Seq<GameState>, lg: Seq<Seq<Event>>, n: int|
        {
            &&& #[trigger] drive_trace(st, lg, n)
            &&& 0 <= n <= DRIVE_LIMIT
            &&& st.len() > n && lg.len() > n
            &&& st[0] == s && lg[0] == e0
            &&& if n == DRIVE_LIMIT {
                f == st[n] && e1 == lg[n] && r == (EngineOutcome::Rejected { reason: Reject::DriveLimit })
            } else if st[n].continuations@.len() == 0 {
                f == st[n] && e1 == lg[n] && r is Done
            } else {
                stepped(st[n], f, lg[n], e1, Some(r))
            }
        };
    if n > 0 {
        lemma_drive_trace_first(st, lg, n);
        assert(false);
    }
}

/// A trace stays a trace when later entries are appended.
proof fn lemma_drive_trace_extend(st: Seq<GameState>, lg: Seq<Seq<Event>>, n: int, st2: Seq<GameState>, lg2: Seq<Seq<Event>>)
    requires
        drive_trace(st, lg, n),
        0 <= n < st.len(),
        n < lg.len(),
        st.len() <= st2.len(),
        lg.len() <= lg2.len(),
        forall|k: int| 0 <= k < st.len() ==> st2[k] == st[k],
        forall|k: int| 0 <= k < lg.len() ==> lg2[k] == lg[k],
    ensures
        drive_trace(st2, lg2, n),
    decreases n,
{
    if n > 0 {
        lemma_drive_trace_extend(st, lg, n - 1, st2, lg2);
    }
}

/// Advance the top frame one step. `Some` stops the drive with that
/// outcome; `None` carries on.
fn step_top(state: &mut GameState, events: &mut Vec<Event>) -> (r: Option<EngineOutcome>)
    requires
        old(state).wf(),
        old(state).continuations@.len() > 0,
    ensures
        final(state).wf(),
        r matches Some(EngineOutcome::Done) ==> settled(*final(state)),
        r matches Some(x) ==> driven(x),
        stepped(*old(state), *final(state), old(events)@, final(events)@, r),
{
    reveal(stepped);
    let ghost s0 = *state;
    let ghost e0 = events@;
    if ending_cancels(state) {
        state.continuations.pop();
        assert(popped_from(s0, *state));
        return None;
    }
    let n = state.continuations.len();
    let kind = match &state.continuations[n - 1] {
        Continuation::InvestigatorTurn { ending, .. } => if *ending {
            0u8
        } else {
            return Some(EngineOutcome::Done);
        },
        Continuation::HunterMove(_) => {
            return Some(EngineOutcome::Done);
        },
        Continuation::SpawnEngage(_) => {
            return Some(EngineOutcome::Done);
        },
        Continuation::HandSizeDiscard { .. } => {
            return Some(EngineOutcome::Done);
        },
        Continuation::ActRoundEndAdvance { .. } => {
            return Some(EngineOutcome::Done);
        },
        Continuation::Elimination { .. } => 1u8,
        Continuation::AcknowledgeForced { .. } => 2u8,
        Continuation::ForcedRun { .. } => 3u8,
        Continuation::FastWindow { .. } => 4u8,
        Continuation::Effect { .. } => 5u8,
        Continuation::EmitEvent { .. } => 6u8,
        Continuation::NextPhase => 7u8,
        Continuation::UpkeepEnd => 9u8,
        Continuation::RoundEndTail => 10u8,
        Continuation::ReactionWindow { .. } => 11u8,
    };
    if kind == 0 {
        let frame = state.continuations.pop().unwrap();
        let ghost p = *state;
        assert(popped_from(s0, p));
        if let Continuation::InvestigatorTurn { investigator, .. } = frame {
            resume_end_turn(state, events, investigator);
            assert(rotated(p, *state, e0, events@, investigator));
        }
        None
    } else if kind == 1 {
        if elimination_ready(state) {
            drive_elimination(state, events);
        } else {
            state.continuations.pop();
            assert(popped_from(s0, *state));
        }
        None
    } else if kind == 2 {
        Some(drive_acknowledge_forced(state))
    } else if kind == 3 {
        let r = drive_forced_run(state);
        match r {
            EngineOutcome::Done => {
                assert(popped_from(s0, *state));
                None
            },
            _ => Some(r),
        }
    } else if kind == 4 {
        let frame = state.continuations.pop().unwrap();
        let ghost p = *state;
        assert(popped_from(s0, p));
        match frame {
            Continuation::FastWindow { kind } => {
                let x = run_window(state, events, kind);
                assert(window_ran(p, *state, e0, events@, kind, x));
                match x {
                    EngineOutcome::Done => None,
                    other => Some(other),
                }
            },
            _ => None,
        }
    } else if kind == 5 {
        drive_effect(state, events);
        None
    } else if kind == 6 {
        step_emit_event(state);
        None
    } else if kind == 7 {
        state.continuations.pop();
        let ghost p = *state;
        assert(popped_from(s0, p));
        let x = enter_next_phase(state, events);
        assert(phase_stepped(p, *state, e0, events@, x));
        match x {
            EngineOutcome::Done => None,
            other => Some(other),
        }
    } else if kind == 9 {
        state.continuations.pop();
        let ghost p = *state;
        assert(popped_from(s0, p));
        end_upkeep_phase(state, events);
        assert(upkeep_closed(p, *state, e0, events@));
        None
    } else if kind == 11 {
        crate::reactions::advance_resolution(state, events)
    } else {
        state.continuations.pop();
        let ghost p = *state;
        assert(popped_from(s0, p));
        let x = round_end_tail(state);
        assert(tail_result(p, *state, x));
        match x {
            EngineOutcome::Done => None,
            other => Some(other),
        }
    }
}

/// Drive the continuation stack: step the top frame (see [`stepped`])
/// until one waits on a player (`AwaitingInput` when it has just prompted,
/// `Done` when its prompt is already out or it is the open turn), the stack
/// empties (`Done`), or `DRIVE_LIMIT` steps have all carried on (refused
/// with `DriveLimit`). The whole run is [`drive_run`].
pub fn drive_frames(state: &mut GameState, events: &mut Vec<Event>) -> (r: EngineOutcome)
    requires
        old(state).wf(),
    ensures
        final(state).wf(),
        r is Done ==> settled(*final(state)),
        driven(r),
        drive_run(*old(state), *final(state), old(events)@, final(events)@, r),
{
    let ghost s0 = *state;
    let ghost e0 = events@;
    let ghost mut st: Seq<GameState> = seq![*state];
    let ghost mut lg: Seq<Seq<Event>> = seq![events@];
    let mut fuel: u32 = 0;
    while fuel < DRIVE_LIMIT
        invariant
            state.wf(),
            fuel <= DRIVE_LIMIT,
            st.len() == fuel + 1,
            lg.len() == fuel + 1,
            s0 == *old(state),
            e0 == old(events)@,
            st[0] == s0,
            lg[0] == e0,
            st[fuel as int] == *state,
            lg[fuel as int] == events@,
            drive_trace(st, lg, fuel as int),
        decreases DRIVE_LIMIT - fuel,
    {
        if state.continuations.len() == 0 {
            proof {
                lemma_drive_run_intro(s0, *state, e0, events@, EngineOutcome::Done, st, lg, fuel as int);
            }
            return EngineOutcome::Done;
        }
        let ghost cur = *state;
        let ghost ecur = events@;
        match step_top(state, events) {
            Some(r) => {
                proof {
                    lemma_drive_run_intro(s0, *state, e0, events@, r, st, lg, fuel as int);
                }
                return r;
            },
            None => {},
        }
        proof {
            let st2 = st.push(*state);
            let lg2 = lg.push(events@);
            lemma_drive_trace_extend(st, lg, fuel as int, st2, lg2);
            assert(st2[fuel as int] == cur);
            assert(drive_trace(st2, lg2, fuel + 1));
            st = st2;
            lg = lg2;
        }
        fuel = fuel + 1;
    }
    proof {
        lemma_drive_run_intro(
            s0,
            *state,
            e0,
            events@,
            EngineOutcome::Rejected { reason: Reject::DriveLimit },
            st,
            lg,
            DRIVE_LIMIT as int,
        );
    }
    EngineOutcome::Rejected { reason: Reject::DriveLimit }
}

/// Carry a handler's `outcome` forward: a `Done` handler is followed by the
/// drive loop, and so is a prompt whose frame the scenario's ending has
/// cancelled (the prompt is dropped); any other suspension, and a refusal,
/// passes straight through.
pub fn drive(state: &mut GameState, events: &mut Vec<Event>, outcome: EngineOutcome) -> (r: EngineOutcome)
    requires
        old(state).wf(),
    ensures
        final(state).wf(),
        !carries_on(*old(state), outcome) ==> *final(state) == *old(state) && final(events)@ == old(events)@
            && r == outcome,
        carries_on(*old(state), outcome) && r is Done ==> settled(*final(state)),
        carries_on(*old(state), outcome) ==> driven(r),
        outcome is Done ==> drive_run(*old(state), *final(state), old(events)@, final(events)@, r),
        then_driven(*old(state), *final(state), old(events)@, final(events)@, outcome, r),
{
    match outcome {
        EngineOutcome::Done => drive_frames(state, events),
        EngineOutcome::AwaitingInput { request } => if ending_cancels(state) {
            drive_frames(state, events)
        } else {
            EngineOutcome::AwaitingInput { request }
        },
        other => other,
    }
}

/// Whether the pending choice on top of `s` can still be answered: its
/// enemy is in play (hunter and spawn ties), its investigator seated
/// (hand-size discard). Other frames need nothing.
pub open spec fn answerable_now(s: GameState) -> bool {
    match s.continuations@.last() {
        Continuation::HunterMove(c) => choice_fits(s, c),
        Continuation::SpawnEngage(p) => has_enemy(s.enemies@, p.enemy),
        Continuation::HandSizeDiscard { remaining } => remaining@.len() > 0 && has_investigator(
            s.investigators@,
            remaining@[0],
        ),
        _ => true,
    }
}

/// What the resume of the frame on top of `s` does with `response`, from
/// `s` and log `e0` to `mid` and `em`, with outcome `x`: each kind of
/// prompt has its own resume; a framework window closes on `Skip` (its
/// continuation runs) and offers no plays, so a pick is out of range.
pub open spec fn resumed(s: GameState, mid: GameState, e0: Seq<Event>, em: Seq<Event>, response: InputResponse, x: EngineOutcome) -> bool {
    match s.continuations@.last() {
        Continuation::HunterMove(_) => crate::hunters::hunter_choice_resumed(s, mid, e0, em, response, x),
        Continuation::SpawnEngage(_) => crate::encounter::spawn_engage_resumed(s, mid, e0, em, response, x),
        Continuation::HandSizeDiscard { .. } => crate::phases::hand_size_discard_resumed(s, mid, e0, em, response, x),
        Continuation::AcknowledgeForced { .. } => crate::queue::acknowledged(s, mid, response, x) && em == e0,
        Continuation::ForcedRun { .. } => crate::queue::forced_run_resumed(s, mid, response, x) && em == e0,
        Continuation::ActRoundEndAdvance { .. } => crate::phases::round_end_advance_resumed(s, mid, e0, em, response, x),
        Continuation::FastWindow { kind } => match response {
            InputResponse::Skip => exists|p: GameState| popped_from(s, p) && #[trigger] window_ran(p, mid, e0, em, kind, x),
            InputResponse::PickSingle(_) => mid == s && em == e0 && x == (EngineOutcome::Rejected { reason: Reject::OptionOutOfRange }),
            _ => mid == s && em == e0 && x == (EngineOutcome::Rejected { reason: Reject::WrongResponseKind }),
        },
        Continuation::ReactionWindow { .. } => crate::reactions::window_answered(s, mid, e0, em, response, x),
        _ => mid == s && em == e0 && x == (EngineOutcome::Rejected { reason: Reject::NoPromptOutstanding }),
    }
}

/// Whether a handler's outcome `x`, leaving `s`, is followed by the drive
/// loop: it finished, or it prompted from a frame the scenario's ending has
/// cancelled (the prompt is dropped).
pub open spec fn carries_on(s: GameState, x: EngineOutcome) -> bool {
    x is Done || (x is AwaitingInput && ending_cancels_top(s))
}

/// How a handler's outcome `x` from `mid` and `em` carries on: `Done` is
/// followed by the drive loop, and so is a prompt whose frame the
/// scenario's ending cancels; any other outcome is the result with nothing
/// more done.
pub open spec fn then_driven(mid: GameState, f: GameState, em: Seq<Event>, e1: Seq<Event>, x: EngineOutcome, r: EngineOutcome) -> bool {
    if carries_on(mid, x) {
        drive_run(mid, f, em, e1, r)
    } else {
        f == mid && e1 == em && r == x
    }
}

/// What answering the prompt on top of `s` does: its resume runs and
/// carries on as [`then_driven`] says.
pub open spec fn answered(s: GameState, f: GameState, e0: Seq<Event>, e1: Seq<Event>, response: InputResponse, r: EngineOutcome) -> bool {
    exists|mid: GameState, em: Seq<Event>, x: EngineOutcome|
        {
            &&& #[trigger] resumed(s, mid, e0, em, response, x)
            &&& then_driven(mid, f, em, e1, x, r)
        }
}

/// Whether the top frame's pending choice is still answerable: its enemy
/// is in play (hunter and spawn ties), its investigator seated (hand-size
/// discard). Other frames need nothing.
fn prompt_answerable(state: &GameState) -> (b: bool)
    requires
        state.wf(),
        state.continuations@.len() > 0,
    ensures
        b == answerable_now(*state),
{
    let n = state.continuations.len();
    match &state.continuations[n - 1] {
        Continuation::HunterMove(HunterChoice::Move { enemy, .. }) => state.find_enemy(*enemy).is_some(),
        Continuation::HunterMove(HunterChoice::Engage { enemy, .. }) => state.find_enemy(*enemy).is_some(),
        Continuation::SpawnEngage(p) => state.find_enemy(p.enemy).is_some(),
        Continuation::HandSizeDiscard { remaining } => remaining.len() > 0 && state.find_investigator(
            remaining[0],
        ).is_some(),
        _ => true,
    }
}

/// Whether a frame is one a player answers through `ResolveInput`.
pub open spec fn answerable_kind(c: Continuation) -> bool {
    match c {
        Continuation::HunterMove(_) => true,
        Continuation::SpawnEngage(_) => true,
        Continuation::HandSizeDiscard { .. } => true,
        Continuation::AcknowledgeForced { .. } => true,
        Continuation::ForcedRun { .. } => true,
        Continuation::ActRoundEndAdvance { .. } => true,
        Continuation::FastWindow { .. } => true,
        Continuation::ReactionWindow { .. } => true,
        _ => false,
    }
}

/// What answering with `response` does: with no answerable prompt on top
/// it is refused and nothing changes; otherwise see [`answered`].
pub open spec fn input_resolved(s: GameState, f: GameState, e0: Seq<Event>, e1: Seq<Event>, response: InputResponse, r: EngineOutcome) -> bool {
    if s.continuations@.len() == 0 || !answerable_kind(s.continuations@.last()) || !answerable_now(s) {
        f == s && e1 == e0 && r == (EngineOutcome::Rejected { reason: Reject::NoPromptOutstanding })
    } else {
        answered(s, f, e0, e1, response, r)
    }
}

/// Answer the prompt on top of the stack, then drive on. The top frame
/// decides which resume runs; with no prompt outstanding the answer is
/// refused and nothing changes. A framework window is closed by `Skip`,
/// running its continuation; it offers no plays, so a pick is out of
/// range.
pub fn resolve_input(state: &mut GameState, events: &mut Vec<Event>, response: &InputResponse) -> (r:
    EngineOutcome)
    requires
        old(state).wf(),
    ensures
        final(state).wf(),
        input_resolved(*old(state), *final(state), old(events)@, final(events)@, *response, r),
        old(state).continuations@.len() > 0 && old(state).continuations@.last() is FastWindow && !(
        *response is Skip) ==> *final(state) == *old(state) && final(events)@ == old(events)@ && r == (
        EngineOutcome::Rejected {
            reason: if *response is PickSingle {
                Reject::OptionOutOfRange
            } else {
                Reject::WrongResponseKind
            },
        }),
        r is Done ==> settled(*final(state)),
        !resumes_draw_chain(*old(state)) ==> refusal_changes_nothing(
            *old(state),
            *final(state),
            old(events)@,
            final(events)@,
            r,
        ),
{
    let n = state.continuations.len();
    if n == 0 {
        return EngineOutcome::Rejected { reason: Reject::NoPromptOutstanding };
    }
    let kind = match &state.continuations[n - 1] {
        Continuation::HunterMove(_) => 1u8,
        Continuation::SpawnEngage(_) => 2u8,
        Continuation::HandSizeDiscard { .. } => 3u8,
        Continuation::AcknowledgeForced { .. } => 4u8,
        Continuation::ForcedRun { .. } => 5u8,
        Continuation::ActRoundEndAdvance { .. } => 6u8,
        Continuation::FastWindow { .. } => 7u8,
        Continuation::ReactionWindow { .. } => 8u8,
        _ => {
            return EngineOutcome::Rejected { reason: Reject::NoPromptOutstanding };
        },
    };
    if !prompt_answerable(state) {
        return EngineOutcome::Rejected { reason: Reject::NoPromptOutstanding };
    }
    let ghost s0 = *state;
    let ghost e0 = events@;
    let outcome = if kind == 1 {
        resume_hunter_choice(state, events, response)
    } else if kind == 2 {
        resume_spawn_engage(state, events, response)
    } else if kind == 3 {
        resume_hand_size_discard(state, events, response)
    } else if kind == 4 {
        resume_acknowledge_forced(state, response)
    } else if kind == 5 {
        resume_forced_run(state, response)
    } else if kind == 6 {
        resume_act_round_end_advance(state, events, response)
    } else if kind == 8 {
        crate::reactions::resume_reaction_window(state, events, response)
    } else {
        match response {
            InputResponse::Skip => {
                let frame = state.continuations.pop().unwrap();
                let ghost p = *state;
                assert(popped_from(s0, p));
                match frame {
                    Continuation::FastWindow { kind } => {
                        let x = run_window(state, events, kind);
                        assert(window_ran(p, *state, e0, events@, kind, x));
                        x
                    },
                    _ => EngineOutcome::Done,
                }
            },
            InputResponse::PickSingle(_) => {
                assert(resumed(s0, *state, e0, events@, *response, EngineOutcome::Rejected { reason: Reject::OptionOutOfRange }));
                return EngineOutcome::Rejected { reason: Reject::OptionOutOfRange };
            },
            _ => {
                assert(resumed(s0, *state, e0, events@, *response, EngineOutcome::Rejected { reason: Reject::WrongResponseKind }));
                return EngineOutcome::Rejected { reason: Reject::WrongResponseKind };
            },
        }
    };
    assert(resumed(s0, *state, e0, events@, *response, outcome));
    drive(state, events, outcome)
}

/// What shuffling the deck of the investigator at `k` does: a
/// Fisher-Yates permutation from the state's generator, announced when the
/// deck holds two or more cards.
pub open spec fn deck_shuffle_result(s: GameState, f: GameState, e0: Seq<Event>, e1: Seq<Event>, k: int) -> bool {
    let inv = s.investigators@[k];
    let (deck, rng) = shuffled(inv.deck@, s.rng);
    &&& f == (GameState { investigators: f.investigators, rng: f.rng, ..s })
    &&& f.rng == rng
    &&& f.investigators@ == s.investigators@.update(k, Investigator { deck: f.investigators@[k].deck, ..inv })
    &&& f.investigators@[k].deck@ == deck
    &&& e1 == if inv.deck@.len() >= 2 {
        e0.push(Event::DeckShuffled { investigator: inv.id })
    } else {
        e0
    }
}

/// Shuffle `investigator`'s deck from the state's deterministic generator.
/// Refused for an investigator who is not seated.
pub fn deck_shuffled(state: &mut GameState, events: &mut Vec<Event>, investigator: InvestigatorId) -> (r:
    EngineOutcome)
    requires
        old(state).wf(),
    ensures
        final(state).wf(),
        !has_investigator(old(state).investigators@, investigator) ==> *final(state) == *old(state)
            && final(events)@ == old(events)@ && r == (EngineOutcome::Rejected { reason: Reject::NotAnInvestigator }),
        has_investigator(old(state).investigators@, investigator) ==> deck_shuffle_result(
            *old(state),
            *final(state),
            old(events)@,
            final(events)@,
            investigator_index(old(state).investigators@, investigator),
        ) && r is Done,
{
    let Some(k) = state.find_investigator(investigator) else {
        return EngineOutcome::Rejected { reason: Reject::NotAnInvestigator };
    };
    let ghost s0 = *state;
    let mut inv = state.investigators.remove(k);
    let n = inv.deck.len();
    shuffle_codes(&mut inv.deck, &mut state.rng);
    state.investigators.insert(k, inv);
    if n >= 2 {
        events.push(Event::DeckShuffled { investigator });
    }
    proof {
        assert(state.investigators@ =~= s0.investigators@.update(
            k as int,
            Investigator { deck: state.investigators@[k as int].deck, ..s0.investigators@[k as int] },
        ));
        assert forall|a: int, b: int|
            0 <= a < state.investigators@.len() && 0 <= b < state.investigators@.len() && a != b implies state.investigators@[a].id
            != state.investigators@[b].id by {
            assert(state.investigators@[a].id == s0.investigators@[a].id);
            assert(state.investigators@[b].id == s0.investigators@[b].id);
        }
    }
    EngineOutcome::Done
}

/// Apply a player's action, then drive on: an answer goes to the prompt on
/// top of the stack; ending the turn runs step 2.2.2 (refused when the
/// active investigator is not seated); a mulligan redraws during setup; an
/// encounter draw runs the due investigator's Mythos draw (step 1.4).
/// While setup mulligans are due, answers and turn ends are refused.
pub fn apply_player_action(state: &mut GameState, events: &mut Vec<Event>, action: &PlayerAction) -> (r:
    EngineOutcome)
    requires
        old(state).wf(),
    ensures
        final(state).wf(),
        (*action is EndTurn || *action is ResolveInput || *action is DrawEncounterCard) && old(state).mulligan_pending
            is Some ==> *final(state)
            == *old(state) && final(events)@ == old(events)@ && r == (EngineOutcome::Rejected {
            reason: Reject::MulliganPending,
        }),
        *action is EndTurn && old(state).mulligan_pending is None && old(state).phase != crate::state::Phase::Investigation ==> *final(state)
            == *old(state) && final(events)@ == old(events)@ && r == (EngineOutcome::Rejected {
            reason: Reject::NotInvestigationPhase,
        }),
        *action is EndTurn && old(state).mulligan_pending is None && old(state).phase == crate::state::Phase::Investigation
            && old(state).active_investigator is None ==> *final(state) == *old(state) && final(events)@
            == old(events)@ && r == (EngineOutcome::Rejected { reason: Reject::NoActiveInvestigator }),
        *action is EndTurn && old(state).mulligan_pending is None && old(state).phase == crate::state::Phase::Investigation ==> (
        old(state).active_investigator matches Some(a) ==> if has_investigator(old(state).investigators@, a) {
            exists|mid: GameState, em: Seq<Event>|
                #[trigger] turn_ended(*old(state), mid, old(events)@, em, a) && drive_run(
                    mid,
                    *final(state),
                    em,
                    final(events)@,
                    r,
                )
        } else {
            *final(state) == *old(state) && final(events)@ == old(events)@ && r == (EngineOutcome::Rejected {
                reason: Reject::NotAnInvestigator,
            })
        }),
        old(state).mulligan_pending is None ==> (*action matches PlayerAction::ResolveInput { response } ==> input_resolved(
            *old(state),
            *final(state),
            old(events)@,
            final(events)@,
            response,
            r,
        )),
        *action matches PlayerAction::Mulligan { investigator, indices_to_redraw } ==> exists|
            mid: GameState,
            em: Seq<Event>,
            x: EngineOutcome,
        |
            #[trigger] crate::setup::mulligan_result(*old(state), mid, old(events)@, em, investigator, indices_to_redraw@, x)
                && then_driven(mid, *final(state), em, final(events)@, x, r),
        old(state).mulligan_pending is None ==> (*action matches PlayerAction::DrawEncounterCard { investigator }
            ==> exists|mid: GameState, em: Seq<Event>, x: EngineOutcome|
            #[trigger] crate::encounter::encounter_drawn(*old(state), mid, old(events)@, em, investigator, x)
                && then_driven(mid, *final(state), em, final(events)@, x, r)),
        *action matches PlayerAction::StartScenario { roster } ==> exists|mid: GameState, em: Seq<Event>, x: EngineOutcome|
            #[trigger] crate::setup::scenario_begun(*old(state), mid, old(events)@, em, roster@, x) && then_driven(
                mid,
                *final(state),
                em,
                final(events)@,
                x,
                r,
            ),
        old(state).continuations@.len() == 0 ==> (*action matches PlayerAction::StartScenario { roster }
            ==> crate::setup::scenario_begun(*old(state), *final(state), old(events)@, final(events)@, roster@, r)),
        r is Done ==> settled(*final(state)),
        !(*action is ResolveInput && resumes_draw_chain(*old(state))) && !(*action is DrawEncounterCard)
            ==> refusal_changes_nothing(
            *old(state),
            *final(state),
            old(events)@,
            final(events)@,
            r,
        ),
{
    match action {
        PlayerAction::StartScenario { roster } => {
            let ghost s0 = *state;
            let ghost e0 = events@;
            let outcome = crate::setup::start_scenario(state, events, roster);
            let ghost mid = *state;
            let ghost em = events@;
            let r = drive(state, events, outcome);
            proof {
                assert(crate::setup::scenario_begun(s0, mid, e0, em, roster@, outcome));
                if s0.continuations@.len() == 0 && outcome is Done {
                    law_settled_drive_is_idle(mid, *state, em, events@, r);
                }
            }
            r
        },
        PlayerAction::Mulligan { investigator, indices_to_redraw } => {
            let ghost s0 = *state;
            let ghost e0 = events@;
            let outcome = crate::setup::mulligan(state, events, *investigator, indices_to_redraw);
            let ghost mid = *state;
            let ghost em = events@;
            let r = drive(state, events, outcome);
            assert(crate::setup::mulligan_result(s0, mid, e0, em, *investigator, indices_to_redraw@, outcome));
            r
        },
        PlayerAction::DrawEncounterCard { investigator } => {
            if state.mulligan_pending.is_some() {
                return EngineOutcome::Rejected { reason: Reject::MulliganPending };
            }
            let ghost s0 = *state;
            let ghost e0 = events@;
            let outcome = crate::encounter::draw_encounter_card(state, events, *investigator);
            let ghost mid = *state;
            let ghost em = events@;
            let r = drive(state, events, outcome);
            assert(crate::encounter::encounter_drawn(s0, mid, e0, em, *investigator, outcome));
            r
        },
        PlayerAction::ResolveInput { response } => {
            if state.mulligan_pending.is_some() {
                return EngineOutcome::Rejected { reason: Reject::MulliganPending };
            }
            resolve_input(state, events, response)
        },
        PlayerAction::EndTurn => {
            if state.mulligan_pending.is_some() {
                return EngineOutcome::Rejected { reason: Reject::MulliganPending };
            }
            if let Some(a) = state.active_investigator {
                if state.find_investigator(a).is_none() {
                    if state.phase == crate::state::Phase::Investigation {
                        return EngineOutcome::Rejected { reason: Reject::NotAnInvestigator };
                    }
                }
            }
            if state.phase != crate::state::Phase::Investigation {
                return EngineOutcome::Rejected { reason: Reject::NotInvestigationPhase };
            }
            let ghost s0 = *state;
            let ghost e0 = events@;
            let outcome = end_turn_step(state, events);
            let ghost mid = *state;
            let ghost em = events@;
            let r = drive(state, events, outcome);
            proof {
                if let Some(a) = s0.active_investigator {
                    if has_investigator(s0.investigators@, a) {
                        assert(turn_ended(s0, mid, e0, em, a));
                    }
                }
            }
            r
        },
    }
}

/// What an engine-generated record does before the drive: a deck shuffle
/// for a seated investigator (refused for anyone else), an encounter deck
/// shuffle, or the reveal and resolution of the top encounter card.
pub open spec fn handled(s: GameState, f: GameState, e0: Seq<Event>, e1: Seq<Event>, record: EngineRecord, x: EngineOutcome) -> bool {
    match record {
        EngineRecord::DeckShuffled { investigator } => if has_investigator(s.investigators@, investigator) {
            deck_shuffle_result(s, f, e0, e1, investigator_index(s.investigators@, investigator)) && x is Done
        } else {
            f == s && e1 == e0 && x == (EngineOutcome::Rejected { reason: Reject::NotAnInvestigator })
        },
        EngineRecord::EncounterDeckShuffled => crate::setup::encounter_shuffled(s, f, e0, e1) && x is Done,
        EngineRecord::EncounterCardRevealed { investigator } => crate::encounter::revealed_result(
            s,
            f,
            e0,
            e1,
            x,
            investigator,
        ),
    }
}

/// What applying `record` does: its handler runs, then the drive carries
/// on from a handler that finished.
pub open spec fn record_applied(s: GameState, f: GameState, e0: Seq<Event>, e1: Seq<Event>, record: EngineRecord, r: EngineOutcome) -> bool {
    exists|mid: GameState, em: Seq<Event>, x: EngineOutcome|
        #[trigger] handled(s, mid, e0, em, record, x) && then_driven(mid, f, em, e1, x, r)
}

/// Apply an engine-generated record, then drive on.
pub fn apply_engine_record(state: &mut GameState, events: &mut Vec<Event>, record: &EngineRecord) -> (r:
    EngineOutcome)
    requires
        old(state).wf(),
    ensures
        final(state).wf(),
        record_applied(*old(state), *final(state), old(events)@, final(events)@, *record, r),
        r is Done ==> settled(*final(state)),
{
    let ghost s0 = *state;
    let ghost e0 = events@;
    let outcome = match record {
        EngineRecord::DeckShuffled { investigator } => deck_shuffled(state, events, *investigator),
        EngineRecord::EncounterDeckShuffled => encounter_deck_shuffled(state, events),
        EngineRecord::EncounterCardRevealed { investigator } => encounter_card_revealed(
            state,
            events,
            *investigator,
        ),
    };
    assert(handled(s0, *state, e0, events@, *record, outcome));
    drive(state, events, outcome)
}

} // verus!
