//! The Upkeep phase's steps (Rules Reference p.25): resetting actions,
//! readying exhausted cards, drawing and gaining resources, and checking hand
//! size.
use vstd::prelude::*;

use crate::cursor::{active_investigators_in_turn_order, active_turn_order, is_active_id};
use crate::outcome::{EngineOutcome, Event, InputRequest, OptionTarget, PromptKind, Reject, Zone};
use crate::state::{has_investigator, CardCode, CardInPlay, Continuation, Enemy};
use crate::elimination::{harm_result, sat_add_u8, take_horror};
use crate::deck::{shuffle_codes, shuffled};
use crate::engagement::{reengage_at_location, reengage_target};
use crate::state::{enemy_ids_distinct, lemma_enemy_index};
use crate::cards::CardRegistry;
use crate::seqs::{lemma_filter_members, lemma_filter_no_duplicates, lemma_filter_step, lemma_take_full};
use crate::state::{
    investigator_ids_distinct, investigator_index, lemma_investigator_index, GameState,
    Investigator, InvestigatorId, Status,
};

verus! {

/// Actions an investigator takes each turn.
pub const ACTIONS_PER_TURN: u8 = 3;

/// Whether the investigator `inv` takes part in player-order steps: `Active`
/// and seated in turn order.
pub open spec fn in_player_order(s: GameState, inv: Investigator) -> bool {
    inv.status == Status::Active && s.turn_order@.contains(inv.id)
}

/// What resetting actions does to each investigator: those taking part get
/// their full actions back.
pub open spec fn reset_investigator(s: GameState, inv: Investigator) -> Investigator {
    if in_player_order(s, inv) {
        Investigator { actions_remaining: ACTIONS_PER_TURN, ..inv }
    } else {
        inv
    }
}

/// What resetting actions logs: in player order, one change per `Active`
/// investigator whose actions were not already full.
pub open spec fn reset_events(s: GameState) -> Seq<Event> {
    active_turn_order(s).filter(
        |id: InvestigatorId|
            s.investigators@[investigator_index(s.investigators@, id)].actions_remaining
                != ACTIONS_PER_TURN,
    ).map_values(
        |id: InvestigatorId| Event::ActionsRemainingChanged { investigator: id, new_count: ACTIONS_PER_TURN },
    )
}

/// An `Active` investigator's id is in the active turn order exactly when
/// it is in turn order.
proof fn lemma_active_member(s: GameState, j: int)
    requires
        investigator_ids_distinct(s.investigators@),
        0 <= j < s.investigators@.len(),
    ensures
        active_turn_order(s).contains(s.investigators@[j].id) == in_player_order(s, s.investigators@[j]),
{
    let id = s.investigators@[j].id;
    let p = |x: InvestigatorId| is_active_id(s.investigators@, x);
    lemma_investigator_index(s.investigators@, id, j);
    lemma_filter_members(s.turn_order@, p);
    if active_turn_order(s).contains(id) {
        let k = choose|k: int| 0 <= k < active_turn_order(s).len() && active_turn_order(s)[k] == id;
        assert(p(active_turn_order(s)[k]));
        assert(s.turn_order@.contains(active_turn_order(s)[k]));
    }
    if in_player_order(s, s.investigators@[j]) {
        assert(p(id));
        let k = choose|k: int| 0 <= k < s.turn_order@.len() && s.turn_order@[k] == id;
        s.turn_order@.lemma_filter_contains(p, k);
    }
}

/// What step 4.2 does (see [`reset_actions`]).
pub open spec fn actions_reset(s: GameState, f: GameState, e0: Seq<Event>, e1: Seq<Event>) -> bool {
    &&& f == (GameState { investigators: f.investigators, ..s })
    &&& f.investigators@ == s.investigators@.map_values(
        |inv: Investigator| reset_investigator(s, inv)
    )
    &&& e1 == e0 + reset_events(s)
}

/// Step 4.2, reset actions: each `Active` investigator in turn order gets
/// their full actions back, announced only where the count changes.
/// Eliminated investigators are skipped.
pub fn reset_actions(state: &mut GameState, events: &mut Vec<Event>)
    requires
        old(state).wf(),
    ensures
        final(state).wf(),
        actions_reset(*old(state), *final(state), old(events)@, final(events)@),
{
    let ghost s0 = *state;
    let ghost ev0 = events@;
    let ids = active_investigators_in_turn_order(state);
    let ghost p = |x: InvestigatorId| is_active_id(s0.investigators@, x);
    let ghost q = |id: InvestigatorId|
        s0.investigators@[investigator_index(s0.investigators@, id)].actions_remaining != ACTIONS_PER_TURN;
    let ghost mk = |id: InvestigatorId|
        Event::ActionsRemainingChanged { investigator: id, new_count: ACTIONS_PER_TURN };
    proof {
        lemma_filter_no_duplicates(s0.turn_order@, p);
        lemma_filter_members(s0.turn_order@, p);
    }
    let mut t: usize = 0;
    while t < ids.len()
        invariant
            s0.wf(),
            t <= ids@.len(),
            ids@ == active_turn_order(s0),
            ids@.no_duplicates(),
            forall|u: int| 0 <= u < ids@.len() ==> is_active_id(s0.investigators@, #[trigger] ids@[u]),
            q == (|id: InvestigatorId|
                s0.investigators@[investigator_index(s0.investigators@, id)].actions_remaining
                    != ACTIONS_PER_TURN),
            mk == (|id: InvestigatorId|
                Event::ActionsRemainingChanged { investigator: id, new_count: ACTIONS_PER_TURN }),
            *state == (GameState { investigators: state.investigators, ..s0 }),
            state.investigators@.len() == s0.investigators@.len(),
            forall|j: int|
                0 <= j < s0.investigators@.len() ==> #[trigger] state.investigators@[j].id
                    == s0.investigators@[j].id,
            investigator_ids_distinct(state.investigators@),
            forall|j: int|
                0 <= j < s0.investigators@.len() ==> #[trigger] state.investigators@[j] == if ids@.take(
                    t as int,
                ).contains(s0.investigators@[j].id) {
                    Investigator { actions_remaining: ACTIONS_PER_TURN, ..s0.investigators@[j] }
                } else {
                    s0.investigators@[j]
                },
            events@ == ev0 + ids@.take(t as int).filter(q).map_values(mk),
        decreases ids@.len() - t,
    {
        let id = ids[t];
        proof {
            assert(is_active_id(s0.investigators@, ids@[t as int]));
            let w = investigator_index(s0.investigators@, id);
            assert(state.investigators@[w].id == id);
        }
        let k = state.find_investigator(id).unwrap();
        proof {
            lemma_investigator_index(s0.investigators@, id, k as int);
            assert(!ids@.take(t as int).contains(id)) by {
                if ids@.take(t as int).contains(id) {
                    let u = choose|u: int| 0 <= u < t && ids@.take(t as int)[u] == id;
                    assert(ids@[u] == ids@[t as int]);
                }
            }
            assert(state.investigators@[k as int] == s0.investigators@[k as int]);
            lemma_filter_step(ids@, q, t as int);
        }
        if state.investigators[k].actions_remaining != ACTIONS_PER_TURN {
            state.investigators[k].actions_remaining = ACTIONS_PER_TURN;
            events.push(Event::ActionsRemainingChanged { investigator: id, new_count: ACTIONS_PER_TURN });
        }
        proof {
            let nt = ids@.take(t + 1);
            assert(nt =~= ids@.take(t as int).push(id));
            assert forall|x: InvestigatorId| nt.contains(x) == (ids@.take(t as int).contains(x) || x == id) by {
                if nt.contains(x) {
                    let u = choose|u: int| 0 <= u < nt.len() && nt[u] == x;
                    if u < t {
                        assert(ids@.take(t as int)[u] == x);
                    }
                }
                if ids@.take(t as int).contains(x) {
                    let u = choose|u: int| 0 <= u < t && ids@.take(t as int)[u] == x;
                    assert(nt[u] == x);
                }
                if x == id {
                    assert(nt[t as int] == x);
                }
            }
            assert forall|j: int| 0 <= j < s0.investigators@.len() implies #[trigger] state.investigators@[j]
                == if nt.contains(s0.investigators@[j].id) {
                Investigator { actions_remaining: ACTIONS_PER_TURN, ..s0.investigators@[j] }
            } else {
                s0.investigators@[j]
            } by {
                if j == k {
                } else {
                    assert(s0.investigators@[j].id != id);
                }
            }
            assert(events@ =~= ev0 + nt.filter(q).map_values(mk));
            assert forall|j: int| 0 <= j < s0.investigators@.len() implies #[trigger] state.investigators@[j].id
                == s0.investigators@[j].id by {
                assert(state.investigators@[j] == if nt.contains(s0.investigators@[j].id) {
                    Investigator { actions_remaining: ACTIONS_PER_TURN, ..s0.investigators@[j] }
                } else {
                    s0.investigators@[j]
                });
            }
            assert(investigator_ids_distinct(state.investigators@)) by {
                assert forall|a: int, b: int|
                    0 <= a < state.investigators@.len() && 0 <= b < state.investigators@.len() && a != b implies state.investigators@[a].id
                    != state.investigators@[b].id by {
                    assert(state.investigators@[a].id == s0.investigators@[a].id);
                    assert(state.investigators@[b].id == s0.investigators@[b].id);
                }
            }
        }
        t += 1;
    }
    proof {
        lemma_take_full(ids@);
        assert forall|j: int| 0 <= j < s0.investigators@.len() implies #[trigger] state.investigators@[j]
            == reset_investigator(s0, s0.investigators@[j]) by {
            lemma_active_member(s0, j);
        }
        assert(state.investigators@ =~= s0.investigators@.map_values(
            |inv: Investigator| reset_investigator(s0, inv),
        ));
        assert(investigator_ids_distinct(state.investigators@)) by {
            assert forall|a: int, b: int|
                0 <= a < state.investigators@.len() && 0 <= b < state.investigators@.len() && a != b implies state.investigators@[a].id
                != state.investigators@[b].id by {
                assert(state.investigators@[a] == reset_investigator(s0, s0.investigators@[a]));
                assert(state.investigators@[b] == reset_investigator(s0, s0.investigators@[b]));
            }
        }
    }
}

/// The most cards an investigator may keep in hand at Upkeep step 4.5.
pub const HAND_SIZE_LIMIT: usize = 8;

/// The `Active` investigators in player order whose hand is over the limit.
pub open spec fn over_cap_of(s: GameState) -> Seq<InvestigatorId> {
    active_turn_order(s).filter(
        |id: InvestigatorId|
            s.investigators@[investigator_index(s.investigators@, id)].hand@.len() > HAND_SIZE_LIMIT,
    )
}

/// The `Active` investigators, in player order, whose hand exceeds the
/// limit. Empty when nobody is over.
pub fn over_cap_investigators(state: &GameState) -> (r: Vec<InvestigatorId>)
    requires
        state.wf(),
    ensures
        r@ == over_cap_of(*state),
{
    let ids = active_investigators_in_turn_order(state);
    let ghost p = |x: InvestigatorId| is_active_id(state.investigators@, x);
    let ghost q = |id: InvestigatorId|
        state.investigators@[investigator_index(state.investigators@, id)].hand@.len() > HAND_SIZE_LIMIT;
    proof {
        lemma_filter_members(state.turn_order@, p);
    }
    let mut out: Vec<InvestigatorId> = Vec::new();
    let mut t: usize = 0;
    while t < ids.len()
        invariant
            state.wf(),
            t <= ids@.len(),
            ids@ == active_turn_order(*state),
            forall|u: int| 0 <= u < ids@.len() ==> is_active_id(state.investigators@, #[trigger] ids@[u]),
            q == (|id: InvestigatorId|
                state.investigators@[investigator_index(state.investigators@, id)].hand@.len()
                    > HAND_SIZE_LIMIT),
            out@ == ids@.take(t as int).filter(q),
        decreases ids@.len() - t,
    {
        proof {
            lemma_filter_step(ids@, q, t as int);
            assert(is_active_id(state.investigators@, ids@[t as int]));
        }
        let k = state.find_investigator(ids[t]).unwrap();
        if state.investigators[k].hand.len() > HAND_SIZE_LIMIT {
            out.push(ids[t]);
        }
        t += 1;
    }
    proof {
        lemma_take_full(ids@);
    }
    out
}

/// The prompt for the first investigator of `remaining` to discard down to
/// the limit.
pub open spec fn discard_prompt(r: EngineOutcome, next: InvestigatorId) -> bool {
    r matches EngineOutcome::AwaitingInput { request } && request.kind == PromptKind::HandSizeDiscard(next)
        && request.options@.len() == 0 && request.target == Some(OptionTarget::Investigator(next))
}

/// Park the step-4.5 discard on a frame listing who still owes it, and
/// prompt the first of them.
pub fn park_hand_size_discard(state: &mut GameState, remaining: Vec<InvestigatorId>) -> (r: EngineOutcome)
    requires
        remaining@.len() > 0,
    ensures
        *final(state) == (GameState { continuations: final(state).continuations, ..*old(state) }),
        final(state).continuations@.drop_last() == old(state).continuations@,
        final(state).continuations@.len() == old(state).continuations@.len() + 1,
        final(state).continuations@.last() matches Continuation::HandSizeDiscard { remaining: rem } && rem@
            == remaining@,
        discard_prompt(r, remaining@[0]),
{
    let next = remaining[0];
    let ghost s0 = *state;
    state.continuations.push(Continuation::HandSizeDiscard { remaining });
    proof {
        assert(state.continuations@.drop_last() =~= s0.continuations@);
    }
    EngineOutcome::AwaitingInput {
        request: InputRequest {
            kind: PromptKind::HandSizeDiscard(next),
            options: Vec::new(),
            target: Some(OptionTarget::Investigator(next)),
        },
    }
}

/// What step 4.5 does (see [`check_hand_size`]).
pub open spec fn hand_checked(s: GameState, f: GameState, r: EngineOutcome) -> bool {
    &&& over_cap_of(s).len() == 0 ==> f == s && r is Done
    &&& over_cap_of(s).len() > 0 ==> {
        &&& f == (GameState { continuations: f.continuations, ..s })
        &&& f.continuations@.drop_last() == s.continuations@
        &&& f.continuations@.len() == s.continuations@.len() + 1
        &&& f.continuations@.last() matches Continuation::HandSizeDiscard { remaining }
            && remaining@ == over_cap_of(s)
        &&& discard_prompt(r, over_cap_of(s)[0])
    }
}

/// Step 4.5, check hand size: with anyone over the limit, park on the first
/// of them (in player order); otherwise nothing happens.
pub fn check_hand_size(state: &mut GameState) -> (r: EngineOutcome)
    requires
        old(state).wf(),
    ensures
        hand_checked(*old(state), *final(state), r),
{
    let remaining = over_cap_investigators(state);
    if remaining.len() == 0 {
        return EngineOutcome::Done;
    }
    park_hand_size_discard(state, remaining)
}

/// Whether some entry of `idx` names the position `pos`.
pub open spec fn names(idx: Seq<u32>, pos: int) -> bool {
    exists|i: int| 0 <= i < idx.len() && idx[i] as int == pos
}

/// The first fault, in submission order, of discard indices `idx` into a
/// hand of `n` cards: an index already given, or one past the hand.
pub open spec fn index_fault(idx: Seq<u32>, n: nat) -> Option<Reject>
    decreases idx.len(),
{
    if idx.len() == 0 {
        None
    } else {
        match index_fault(idx.drop_last(), n) {
            Some(e) => Some(e),
            None => if names(idx.drop_last(), idx.last() as int) {
                Some(Reject::DuplicateIndex)
            } else if idx.last() >= n {
                Some(Reject::IndexOutOfBounds)
            } else {
                None
            },
        }
    }
}

/// Why the discard `idx` from a hand of `n` cards is refused, if it is: it
/// must name exactly the cards over the limit, each once, each in the hand.
pub open spec fn discard_fault(idx: Seq<u32>, n: nat) -> Option<Reject> {
    let owed = if n > HAND_SIZE_LIMIT { n - HAND_SIZE_LIMIT } else { 0 };
    if idx.len() != owed {
        Some(Reject::WrongDiscardCount)
    } else {
        index_fault(idx, n)
    }
}

/// The cards of `hand` at positions `idx` names, in hand order.
pub open spec fn picked(hand: Seq<CardCode>, idx: Seq<u32>) -> Seq<CardCode>
    decreases hand.len(),
{
    if hand.len() == 0 {
        Seq::empty()
    } else {
        let prev = picked(hand.drop_last(), idx);
        if names(idx, hand.len() - 1) {
            prev.push(hand.last())
        } else {
            prev
        }
    }
}

/// The cards of `hand` at positions `idx` does not name, in hand order.
pub open spec fn unpicked(hand: Seq<CardCode>, idx: Seq<u32>) -> Seq<CardCode>
    decreases hand.len(),
{
    if hand.len() == 0 {
        Seq::empty()
    } else {
        let prev = unpicked(hand.drop_last(), idx);
        if names(idx, hand.len() - 1) {
            prev
        } else {
            prev.push(hand.last())
        }
    }
}

/// Whether one of the first `upto` entries of `v` names the position `x`.
fn holds_index(v: &Vec<u32>, x: u64, upto: usize) -> (r: bool)
    requires
        upto <= v@.len(),
    ensures
        r == names(v@.take(upto as int), x as int),
{
    let mut i: usize = 0;
    while i < upto
        invariant
            i <= upto,
            upto <= v@.len(),
            forall|j: int| 0 <= j < i ==> v@[j] as int != x as int,
        decreases upto - i,
    {
        if v[i] as u64 == x {
            proof {
                assert(v@.take(upto as int)[i as int] as int == x as int);
            }
            return true;
        }
        i += 1;
    }
    proof {
        if names(v@.take(upto as int), x as int) {
            let j = choose|j: int| 0 <= j < upto && v@.take(upto as int)[j] as int == x as int;
            assert(v@[j] as int == x as int);
        }
    }
    false
}

/// Why the discard `indices` from a hand of `n` cards is refused, if it is.
pub fn check_discard(indices: &Vec<u32>, n: usize) -> (r: Option<Reject>)
    ensures
        r == discard_fault(indices@, n as nat),
{
    let owed = if n > HAND_SIZE_LIMIT {
        n - HAND_SIZE_LIMIT
    } else {
        0
    };
    if indices.len() != owed {
        return Some(Reject::WrongDiscardCount);
    }
    let mut t: usize = 0;
    while t < indices.len()
        invariant
            t <= indices@.len(),
            indices@.len() == (if n > HAND_SIZE_LIMIT { n - HAND_SIZE_LIMIT } else { 0 }),
            index_fault(indices@.take(t as int), n as nat) is None,
        decreases indices@.len() - t,
    {
        proof {
            assert(indices@.take(t + 1).drop_last() =~= indices@.take(t as int));
            assert(indices@.take(t + 1).last() == indices@[t as int]);
        }
        let x = indices[t];
        if holds_index(indices, x as u64, t) {
            proof {
                lemma_fault_persists(indices@, n as nat, t + 1);
            }
            return Some(Reject::DuplicateIndex);
        }
        if x as usize >= n {
            proof {
                lemma_fault_persists(indices@, n as nat, t + 1);
            }
            return Some(Reject::IndexOutOfBounds);
        }
        t += 1;
    }
    proof {
        assert(indices@.take(indices@.len() as int) =~= indices@);
    }
    None
}

/// The first fault of the indices `indices` into a hand of `n` cards, if
/// any: an index already given, or one past the hand.
pub fn check_indices(indices: &Vec<u32>, n: usize) -> (r: Option<Reject>)
    ensures
        r == index_fault(indices@, n as nat),
{
    let mut t: usize = 0;
    while t < indices.len()
        invariant
            t <= indices@.len(),
            index_fault(indices@.take(t as int), n as nat) is None,
        decreases indices@.len() - t,
    {
        proof {
            assert(indices@.take(t + 1).drop_last() =~= indices@.take(t as int));
            assert(indices@.take(t + 1).last() == indices@[t as int]);
        }
        let x = indices[t];
        if holds_index(indices, x as u64, t) {
            proof {
                lemma_fault_persists(indices@, n as nat, t + 1);
            }
            return Some(Reject::DuplicateIndex);
        }
        if x as usize >= n {
            proof {
                lemma_fault_persists(indices@, n as nat, t + 1);
            }
            return Some(Reject::IndexOutOfBounds);
        }
        t += 1;
    }
    proof {
        assert(indices@.take(indices@.len() as int) =~= indices@);
    }
    None
}

/// Split `hand` into the cards `indices` name and the rest, each in hand
/// order.
pub fn split_hand(hand: &Vec<CardCode>, indices: &Vec<u32>) -> (r: (Vec<CardCode>, Vec<CardCode>))
    ensures
        r.0@ == picked(hand@, indices@),
        r.1@ == unpicked(hand@, indices@),
{
    let mut kept: Vec<CardCode> = Vec::new();
    let mut gone: Vec<CardCode> = Vec::new();
    let mut p: usize = 0;
    while p < hand.len()
        invariant
            p <= hand@.len(),
            kept@ == unpicked(hand@.take(p as int), indices@),
            gone@ == picked(hand@.take(p as int), indices@),
        decreases hand@.len() - p,
    {
        proof {
            assert(hand@.take(p + 1).drop_last() =~= hand@.take(p as int));
            assert(hand@.take(p + 1).last() == hand@[p as int]);
        }
        let named = holds_index(indices, p as u64, indices.len());
        proof {
            assert(indices@.take(indices@.len() as int) =~= indices@);
        }
        if named {
            gone.push(hand[p].clone());
        } else {
            kept.push(hand[p].clone());
        }
        p += 1;
    }
    proof {
        lemma_take_full(hand@);
    }
    (gone, kept)
}

/// A fault in a prefix is the fault of the whole.
proof fn lemma_fault_persists(idx: Seq<u32>, n: nat, t: int)
    requires
        0 <= t <= idx.len(),
        index_fault(idx.take(t), n) is Some,
    ensures
        index_fault(idx, n) == index_fault(idx.take(t), n),
    decreases idx.len() - t,
{
    if t < idx.len() {
        assert(idx.take(t + 1).drop_last() =~= idx.take(t));
        lemma_fault_persists(idx, n, t + 1);
    } else {
        assert(idx.take(t) =~= idx);
    }
}

/// Discard from `current`'s hand the cards at `indices` (validated by the
/// caller): they go to the discard pile in hand order, each announced.
pub fn discard_from_hand(state: &mut GameState, events: &mut Vec<Event>, k: usize, indices: &Vec<u32>)
    requires
        old(state).wf(),
        k < old(state).investigators@.len(),
    ensures
        final(state).wf(),
        ({
            let inv = old(state).investigators@[k as int];
            let gone = picked(inv.hand@, indices@);
            &&& *final(state) == (GameState { investigators: final(state).investigators, ..*old(state) })
            &&& final(state).investigators@.len() == old(state).investigators@.len()
            &&& forall|j: int|
                0 <= j < old(state).investigators@.len() && j != k ==> final(state).investigators@[j]
                    == old(state).investigators@[j]
            &&& final(state).investigators@[k as int] == (Investigator {
                hand: final(state).investigators@[k as int].hand,
                discard: final(state).investigators@[k as int].discard,
                ..inv
            })
            &&& final(state).investigators@[k as int].hand@ == unpicked(inv.hand@, indices@)
            &&& final(state).investigators@[k as int].discard@ == inv.discard@ + gone
            &&& final(events)@ == old(events)@ + gone.map_values(
                |c: CardCode| Event::CardDiscarded { investigator: inv.id, code: c, from: Zone::Hand },
            )
        }),
{
    let ghost s0 = *state;
    let ghost ev0 = events@;
    let mut inv = state.investigators.remove(k);
    let ghost inv0 = inv;
    let id = inv.id;
    let mut hand: Vec<CardCode> = Vec::new();
    std::mem::swap(&mut hand, &mut inv.hand);
    let mut kept: Vec<CardCode> = Vec::new();
    let mut gone: Vec<CardCode> = Vec::new();
    let mut p: usize = 0;
    while p < hand.len()
        invariant
            p <= hand@.len(),
            hand@ == inv0.hand@,
            kept@ == unpicked(hand@.take(p as int), indices@),
            gone@ == picked(hand@.take(p as int), indices@),
            events@ == ev0 + gone@.map_values(
                |c: CardCode| Event::CardDiscarded { investigator: id, code: c, from: Zone::Hand },
            ),
            id == inv0.id,
        decreases hand@.len() - p,
    {
        proof {
            assert(hand@.take(p + 1).drop_last() =~= hand@.take(p as int));
            assert(hand@.take(p + 1).last() == hand@[p as int]);
        }
        let named = holds_index(indices, p as u64, indices.len());
        proof {
            assert(indices@.take(indices@.len() as int) =~= indices@);
        }
        if named {
            gone.push(hand[p].clone());
            events.push(Event::CardDiscarded { investigator: id, code: hand[p].clone(), from: Zone::Hand });
            proof {
                assert(events@ =~= ev0 + gone@.map_values(
                    |c: CardCode| Event::CardDiscarded { investigator: id, code: c, from: Zone::Hand },
                ));
            }
        } else {
            kept.push(hand[p].clone());
        }
        p += 1;
    }
    proof {
        lemma_take_full(hand@);
    }
    inv.hand = kept;
    inv.discard.append(&mut gone);
    state.investigators.insert(k, inv);
    proof {
        assert(state.investigators@ =~= s0.investigators@.update(k as int, inv));
        assert(investigator_ids_distinct(state.investigators@)) by {
            assert forall|a: int, b: int|
                0 <= a < state.investigators@.len() && 0 <= b < state.investigators@.len() && a != b implies state.investigators@[a].id
                != state.investigators@[b].id by {
                assert(state.investigators@[a].id == s0.investigators@[a].id);
                assert(state.investigators@[b].id == s0.investigators@[b].id);
            }
        }
    }
}

/// Make `id` the investigator whose turn it is. Actions are not refreshed
/// here (that is Upkeep step 4.2).
pub fn rotate_to_active(state: &mut GameState, id: InvestigatorId)
    ensures
        *final(state) == (GameState { active_investigator: Some(id), ..*old(state) }),
{
    state.active_investigator = Some(id);
}

/// The seated investigator `id` gains `amount` resources (saturating),
/// announced.
pub fn grant_resources(state: &mut GameState, events: &mut Vec<Event>, id: InvestigatorId, amount: u8)
    requires
        old(state).wf(),
        has_investigator(old(state).investigators@, id),
    ensures
        final(state).wf(),
        ({
            let k = investigator_index(old(state).investigators@, id);
            let inv = old(state).investigators@[k];
            &&& *final(state) == (GameState { investigators: final(state).investigators, ..*old(state) })
            &&& final(state).investigators@ == old(state).investigators@.update(
                k,
                Investigator { resources: sat_add_u8(inv.resources, amount), ..inv },
            )
            &&& final(events)@ == old(events)@.push(Event::ResourcesGained { investigator: id, amount })
        }),
{
    let ghost s0 = *state;
    let k = state.find_investigator(id).unwrap();
    let r = state.investigators[k].resources.saturating_add(amount);
    state.investigators[k].resources = r;
    events.push(Event::ResourcesGained { investigator: id, amount });
    proof {
        assert(state.investigators@ =~= s0.investigators@.update(
            k as int,
            Investigator { resources: sat_add_u8(s0.investigators@[k as int].resources, amount), ..s0.investigators@[k as int] },
        ));
        assert(investigator_ids_distinct(state.investigators@)) by {
            assert forall|a: int, b: int|
                0 <= a < state.investigators@.len() && 0 <= b < state.investigators@.len() && a != b implies state.investigators@[a].id
                != state.investigators@[b].id by {
                assert(state.investigators@[a].id == s0.investigators@[a].id);
                assert(state.investigators@[b].id == s0.investigators@[b].id);
            }
        }
    }
}

/// What drawing one card does for the seated investigator `id`: the top of
/// their deck goes to their hand. From an empty deck, the discard pile is
/// shuffled in as the new deck first (when there is one), the draw happens
/// if it can, and they take 1 horror.
pub open spec fn draw_one_result(s: GameState, f: GameState, e0: Seq<Event>, e1: Seq<Event>, id: InvestigatorId) -> bool {
    let k = investigator_index(s.investigators@, id);
    let inv = s.investigators@[k];
    if inv.deck@.len() > 0 {
        &&& f == (GameState { investigators: f.investigators, ..s })
        &&& f.investigators@.len() == s.investigators@.len()
        &&& forall|j: int| 0 <= j < s.investigators@.len() && j != k ==> f.investigators@[j] == s.investigators@[j]
        &&& f.investigators@[k] == (Investigator { deck: f.investigators@[k].deck, hand: f.investigators@[k].hand, ..inv })
        &&& f.investigators@[k].deck@ == inv.deck@.drop_first()
        &&& f.investigators@[k].hand@ == inv.hand@.push(inv.deck@[0])
        &&& e1 == e0.push(Event::CardsDrawn { investigator: id, count: 1 })
    } else {
        exists|mid: GameState, em: Seq<Event>|
            {
                &&& mid.wf()
                &&& has_investigator(mid.investigators@, id)
                &&& mid.investigators@.len() == s.investigators@.len()
                &&& forall|j: int| 0 <= j < s.investigators@.len() && j != k ==> mid.investigators@[j] == s.investigators@[j]
                &&& investigator_index(mid.investigators@, id) == k
                &&& if inv.discard@.len() == 0 {
                    &&& mid == (GameState { investigators: mid.investigators, ..s })
                    &&& mid.investigators@ == s.investigators@
                    &&& em == e0
                } else {
                    let (deck, rng) = shuffled(inv.discard@, s.rng);
                    &&& mid == (GameState { investigators: mid.investigators, rng, ..s })
                    &&& mid.investigators@[k] == (Investigator {
                        deck: mid.investigators@[k].deck,
                        hand: mid.investigators@[k].hand,
                        discard: mid.investigators@[k].discard,
                        ..inv
                    })
                    &&& mid.investigators@[k].deck@ == deck.drop_first()
                    &&& mid.investigators@[k].hand@ == inv.hand@.push(deck[0])
                    &&& mid.investigators@[k].discard@.len() == 0
                    &&& em == (if inv.discard@.len() >= 2 {
                        e0.push(Event::DeckShuffled { investigator: id })
                    } else {
                        e0
                    }).push(Event::CardsDrawn { investigator: id, count: 1 })
                }
                &&& harm_result(mid, f, em, e1, id, 1, true)
            }
    }
}

/// Draw one card for the seated investigator `id`, running out of deck per
/// the rules: shuffle the discard pile in, draw, and take 1 horror.
pub fn draw_one_with_deckout(state: &mut GameState, events: &mut Vec<Event>, id: InvestigatorId)
    requires
        old(state).wf(),
        has_investigator(old(state).investigators@, id),
    ensures
        final(state).wf(),
        draw_one_result(*old(state), *final(state), old(events)@, final(events)@, id),
{
    let ghost s0 = *state;
    let k = state.find_investigator(id).unwrap();
    let mut inv = state.investigators.remove(k);
    if inv.deck.len() > 0 {
        let top = inv.deck.remove(0);
        inv.hand.push(top);
        state.investigators.insert(k, inv);
        events.push(Event::CardsDrawn { investigator: id, count: 1 });
        proof {
            assert(state.investigators@ =~= s0.investigators@.update(k as int, inv));
            assert(investigator_ids_distinct(state.investigators@)) by {
                assert forall|a: int, b: int|
                    0 <= a < state.investigators@.len() && 0 <= b < state.investigators@.len() && a != b implies state.investigators@[a].id
                    != state.investigators@[b].id by {
                    assert(state.investigators@[a].id == s0.investigators@[a].id);
                    assert(state.investigators@[b].id == s0.investigators@[b].id);
                }
            }
        }
        return;
    }
    if inv.discard.len() > 0 {
        let n = inv.discard.len();
        let mut pile: Vec<CardCode> = Vec::new();
        std::mem::swap(&mut pile, &mut inv.discard);
        shuffle_codes(&mut pile, &mut state.rng);
        if n >= 2 {
            events.push(Event::DeckShuffled { investigator: id });
        }
        proof {
            crate::deck::law_shuffle_is_a_permutation(s0.investigators@[k as int].discard@, s0.rng);
        }
        let top = pile.remove(0);
        inv.deck = pile;
        inv.hand.push(top);
        events.push(Event::CardsDrawn { investigator: id, count: 1 });
    }
    state.investigators.insert(k, inv);
    proof {
        assert(state.investigators@ =~= s0.investigators@.update(k as int, inv));
        assert(investigator_ids_distinct(state.investigators@)) by {
            assert forall|a: int, b: int|
                0 <= a < state.investigators@.len() && 0 <= b < state.investigators@.len() && a != b implies state.investigators@[a].id
                != state.investigators@[b].id by {
                assert(state.investigators@[a].id == s0.investigators@[a].id);
                assert(state.investigators@[b].id == s0.investigators@[b].id);
            }
        }
        lemma_investigator_index(state.investigators@, id, k as int);
    }
    let ghost mid = *state;
    let ghost em = events@;
    take_horror(state, events, id, 1);
    proof {
        let inv0 = s0.investigators@[k as int];
        if inv0.discard@.len() == 0 {
            assert(mid.investigators@ =~= s0.investigators@);
        } else {
            assert(mid.investigators@[k as int] == (Investigator {
                deck: mid.investigators@[k as int].deck,
                hand: mid.investigators@[k as int].hand,
                discard: mid.investigators@[k as int].discard,
                ..inv0
            }));
        }
        assert(has_investigator(mid.investigators@, id));
    }
}

/// Drawing one card for each of `ids` in order, from (`s`, `e0`) to (`f`,
/// `e1`).
pub open spec fn draws_result(s: GameState, f: GameState, e0: Seq<Event>, e1: Seq<Event>, ids: Seq<InvestigatorId>) -> bool
    decreases ids.len(),
{
    if ids.len() == 0 {
        f == s && e1 == e0
    } else {
        exists|m: GameState, em: Seq<Event>|
            {
                &&& m.wf()
                &&& m.investigators@.len() == s.investigators@.len()
                &&& forall|j: int| 0 <= j < s.investigators@.len() ==> #[trigger] m.investigators@[j].id == s.investigators@[j].id
                &&& draws_result(s, m, e0, em, ids.drop_last())
                &&& draw_one_result(m, f, em, e1, ids.last())
            }
    }
}

/// Investigator ids stay where they were through a draw.
proof fn lemma_draw_keeps_ids(s: GameState, f: GameState, e0: Seq<Event>, e1: Seq<Event>, id: InvestigatorId)
    requires
        s.wf(),
        has_investigator(s.investigators@, id),
        draw_one_result(s, f, e0, e1, id),
    ensures
        f.investigators@.len() == s.investigators@.len(),
        forall|j: int| 0 <= j < s.investigators@.len() ==> #[trigger] f.investigators@[j].id == s.investigators@[j].id,
{
    let k = investigator_index(s.investigators@, id);
    let inv = s.investigators@[k];
    if inv.deck@.len() > 0 {
        assert forall|j: int| 0 <= j < s.investigators@.len() implies #[trigger] f.investigators@[j].id
            == s.investigators@[j].id by {
            if j != k {
            }
        }
    } else {
        let (mid, em) = choose|mid: GameState, em: Seq<Event>|
            {
                &&& mid.wf()
                &&& has_investigator(mid.investigators@, id)
                &&& mid.investigators@.len() == s.investigators@.len()
                &&& forall|j: int| 0 <= j < s.investigators@.len() && j != k ==> mid.investigators@[j] == s.investigators@[j]
                &&& investigator_index(mid.investigators@, id) == k
                &&& if inv.discard@.len() == 0 {
                    &&& mid == (GameState { investigators: mid.investigators, ..s })
                    &&& mid.investigators@ == s.investigators@
                    &&& em == e0
                } else {
                    let (deck, rng) = shuffled(inv.discard@, s.rng);
                    &&& mid == (GameState { investigators: mid.investigators, rng, ..s })
                    &&& mid.investigators@[k] == (Investigator {
                        deck: mid.investigators@[k].deck,
                        hand: mid.investigators@[k].hand,
                        discard: mid.investigators@[k].discard,
                        ..inv
                    })
                    &&& mid.investigators@[k].deck@ == deck.drop_first()
                    &&& mid.investigators@[k].hand@ == inv.hand@.push(deck[0])
                    &&& mid.investigators@[k].discard@.len() == 0
                    &&& em == (if inv.discard@.len() >= 2 {
                        e0.push(Event::DeckShuffled { investigator: id })
                    } else {
                        e0
                    }).push(Event::CardsDrawn { investigator: id, count: 1 })
                }
                &&& harm_result(mid, f, em, e1, id, 1, true)
            };
        crate::elimination::lemma_harm_keeps_ids(mid, f, em, e1, id, 1, true);
        assert forall|j: int| 0 <= j < s.investigators@.len() implies #[trigger] f.investigators@[j].id
            == s.investigators@[j].id by {
            assert(f.investigators@[j].id == mid.investigators@[j].id);
            if j != k {
                assert(mid.investigators@[j] == s.investigators@[j]);
            }
        }
    }
}

/// An investigator after the resource pass of step 4.4: one more resource
/// for each of `ids` they are.
pub open spec fn granted(inv: Investigator, ids: Seq<InvestigatorId>) -> Investigator {
    if ids.contains(inv.id) {
        Investigator { resources: sat_add_u8(inv.resources, 1), ..inv }
    } else {
        inv
    }
}

/// What step 4.4 does (see [`upkeep_draw_and_resource`]).
pub open spec fn drawn_and_granted(s: GameState, f: GameState, e0: Seq<Event>, e1: Seq<Event>) -> bool {
    &&& exists|mid: GameState, em: Seq<Event>|
        {
            &&& draws_result(s, mid, e0, em, active_turn_order(s))
            &&& f == (GameState { investigators: f.investigators, ..mid })
            &&& f.investigators@ == mid.investigators@.map_values(
                |inv: Investigator| granted(inv, active_turn_order(s)),
            )
            &&& e1 == em + active_turn_order(s).map_values(
                |id: InvestigatorId| Event::ResourcesGained { investigator: id, amount: 1 },
            )
        }
}

/// Step 4.4: in player order each `Active` investigator draws 1 card; once
/// those cards are drawn, each of them gains 1 resource. Eliminated
/// investigators are skipped.
pub fn upkeep_draw_and_resource(state: &mut GameState, events: &mut Vec<Event>)
    requires
        old(state).wf(),
    ensures
        final(state).wf(),
        drawn_and_granted(*old(state), *final(state), old(events)@, final(events)@),
{
    let ghost s0 = *state;
    let ghost ev0 = events@;
    let ids = active_investigators_in_turn_order(state);
    let ghost p = |x: InvestigatorId| is_active_id(s0.investigators@, x);
    proof {
        lemma_filter_no_duplicates(s0.turn_order@, p);
        lemma_filter_members(s0.turn_order@, p);
    }
    let mut t: usize = 0;
    while t < ids.len()
        invariant
            s0.wf(),
            state.wf(),
            t <= ids@.len(),
            ids@ == active_turn_order(s0),
            forall|u: int| 0 <= u < ids@.len() ==> is_active_id(s0.investigators@, #[trigger] ids@[u]),
            state.investigators@.len() == s0.investigators@.len(),
            forall|j: int| 0 <= j < s0.investigators@.len() ==> #[trigger] state.investigators@[j].id == s0.investigators@[j].id,
            draws_result(s0, *state, ev0, events@, ids@.take(t as int)),
        decreases ids@.len() - t,
    {
        let ghost m = *state;
        let ghost em = events@;
        let id = ids[t];
        proof {
            assert(is_active_id(s0.investigators@, ids@[t as int]));
            let w = investigator_index(s0.investigators@, id);
            assert(state.investigators@[w].id == id);
        }
        draw_one_with_deckout(state, events, id);
        proof {
            lemma_draw_keeps_ids(m, *state, em, events@, id);
            assert(ids@.take(t + 1).drop_last() =~= ids@.take(t as int));
            assert(ids@.take(t + 1).last() == id);
        }
        t += 1;
    }
    proof {
        lemma_take_full(ids@);
    }
    let ghost mid = *state;
    let ghost em = events@;
    let mut t: usize = 0;
    while t < ids.len()
        invariant
            mid.wf(),
            state.wf(),
            t <= ids@.len(),
            ids@ == active_turn_order(s0),
            ids@.no_duplicates(),
            forall|u: int| 0 <= u < ids@.len() ==> is_active_id(s0.investigators@, #[trigger] ids@[u]),
            mid.investigators@.len() == s0.investigators@.len(),
            forall|j: int| 0 <= j < s0.investigators@.len() ==> #[trigger] mid.investigators@[j].id == s0.investigators@[j].id,
            *state == (GameState { investigators: state.investigators, ..mid }),
            state.investigators@.len() == mid.investigators@.len(),
            forall|j: int| 0 <= j < mid.investigators@.len() ==> #[trigger] state.investigators@[j] == granted(
                mid.investigators@[j],
                ids@.take(t as int),
            ),
            events@ == em + ids@.take(t as int).map_values(
                |id: InvestigatorId| Event::ResourcesGained { investigator: id, amount: 1 },
            ),
        decreases ids@.len() - t,
    {
        let id = ids[t];
        let ghost before = *state;
        proof {
            assert(is_active_id(s0.investigators@, ids@[t as int]));
            let w = investigator_index(s0.investigators@, id);
            assert(state.investigators@[w] == granted(mid.investigators@[w], ids@.take(t as int)));
            assert(state.investigators@[w].id == id);
        }
        grant_resources(state, events, id, 1);
        proof {
            let k = investigator_index(before.investigators@, id);
            let nt = ids@.take(t + 1);
            assert(nt =~= ids@.take(t as int).push(id));
            assert(!ids@.take(t as int).contains(id)) by {
                if ids@.take(t as int).contains(id) {
                    let u = choose|u: int| 0 <= u < t && ids@.take(t as int)[u] == id;
                    assert(ids@[u] == ids@[t as int]);
                }
            }
            assert forall|x: InvestigatorId| nt.contains(x) == (ids@.take(t as int).contains(x) || x == id) by {
                if nt.contains(x) {
                    let u = choose|u: int| 0 <= u < nt.len() && nt[u] == x;
                    if u < t {
                        assert(ids@.take(t as int)[u] == x);
                    }
                }
                if ids@.take(t as int).contains(x) {
                    let u = choose|u: int| 0 <= u < t && ids@.take(t as int)[u] == x;
                    assert(nt[u] == x);
                }
                if x == id {
                    assert(nt[t as int] == x);
                }
            }
            assert forall|j: int| 0 <= j < mid.investigators@.len() implies #[trigger] state.investigators@[j]
                == granted(mid.investigators@[j], nt) by {
                assert(before.investigators@[j] == granted(mid.investigators@[j], ids@.take(t as int)));
                if j == k {
                } else {
                    assert(before.investigators@[j].id != id);
                }
            }
            assert(events@ =~= em + nt.map_values(
                |id: InvestigatorId| Event::ResourcesGained { investigator: id, amount: 1 },
            ));
        }
        t += 1;
    }
    proof {
        lemma_take_full(ids@);
        assert(state.investigators@ =~= mid.investigators@.map_values(
            |inv: Investigator| granted(inv, active_turn_order(s0)),
        ));
    }
}

/// `cards` with every card ready.
pub open spec fn readied_cards(cards: Seq<CardInPlay>) -> Seq<CardInPlay> {
    cards.map_values(|c: CardInPlay| CardInPlay { exhausted: false, ..c })
}

/// What readying `id`'s cards logs: one `CardReadied` per exhausted card,
/// in play-area order.
pub open spec fn card_ready_events(id: InvestigatorId, cards: Seq<CardInPlay>) -> Seq<Event> {
    cards.filter(|c: CardInPlay| c.exhausted).map_values(
        |c: CardInPlay| Event::CardReadied { investigator: id, instance_id: c.instance_id, code: c.code },
    )
}

/// What readying every investigator's cards logs, investigator by
/// investigator.
pub open spec fn all_card_ready_events(invs: Seq<Investigator>) -> Seq<Event>
    decreases invs.len(),
{
    if invs.len() == 0 {
        Seq::empty()
    } else {
        all_card_ready_events(invs.drop_last()) + card_ready_events(invs.last().id, invs.last().cards_in_play@)
    }
}

/// What readying the enemies logs: one `EnemyReadied` per exhausted enemy.
pub open spec fn enemy_ready_events(es: Seq<Enemy>) -> Seq<Event> {
    es.filter(|e: Enemy| e.exhausted).map_values(|e: Enemy| Event::EnemyReadied { enemy: e.id })
}

/// An enemy after step 4.3: ready, and, if it was exhausted and is
/// unengaged, engaged with whom the general engagement rule names.
pub open spec fn enemy_after_ready(
    invs: Seq<Investigator>,
    order: Seq<InvestigatorId>,
    reg: Option<CardRegistry>,
    e: Enemy,
) -> Enemy {
    let r = Enemy { exhausted: false, ..e };
    if e.exhausted && e.engaged_with is None {
        Enemy { engaged_with: reengage_target(invs, order, reg, r), ..r }
    } else {
        r
    }
}

/// What the engagement after readying logs, in enemy order.
pub open spec fn ready_engage_events(
    invs: Seq<Investigator>,
    order: Seq<InvestigatorId>,
    reg: Option<CardRegistry>,
    es: Seq<Enemy>,
) -> Seq<Event>
    decreases es.len(),
{
    if es.len() == 0 {
        Seq::empty()
    } else {
        let prev = ready_engage_events(invs, order, reg, es.drop_last());
        let e = es.last();
        if e.exhausted && e.engaged_with is None {
            match reengage_target(invs, order, reg, Enemy { exhausted: false, ..e }) {
                Some(t) => prev.push(Event::EnemyEngaged { enemy: e.id, investigator: t }),
                None => prev,
            }
        } else {
            prev
        }
    }
}

/// Ready every card of one investigator, logging each that was exhausted.
fn ready_cards_of(inv: &mut Investigator, events: &mut Vec<Event>)
    ensures
        *final(inv) == (Investigator { cards_in_play: final(inv).cards_in_play, ..*old(inv) }),
        final(inv).cards_in_play@ == readied_cards(old(inv).cards_in_play@),
        final(events)@ == old(events)@ + card_ready_events(old(inv).id, old(inv).cards_in_play@),
{
    let ghost i0 = *inv;
    let ghost ev0 = events@;
    let ghost p = |c: CardInPlay| c.exhausted;
    let ghost mk = |c: CardInPlay| Event::CardReadied { investigator: i0.id, instance_id: c.instance_id, code: c.code };
    let mut c: usize = 0;
    while c < inv.cards_in_play.len()
        invariant
            c <= inv.cards_in_play@.len(),
            inv.cards_in_play@.len() == i0.cards_in_play@.len(),
            *inv == (Investigator { cards_in_play: inv.cards_in_play, ..i0 }),
            forall|j: int| 0 <= j < c ==> #[trigger] inv.cards_in_play@[j] == (CardInPlay { exhausted: false, ..i0.cards_in_play@[j] }),
            forall|j: int| c <= j < i0.cards_in_play@.len() ==> #[trigger] inv.cards_in_play@[j] == i0.cards_in_play@[j],
            p == (|c: CardInPlay| c.exhausted),
            mk == (|c: CardInPlay| Event::CardReadied { investigator: i0.id, instance_id: c.instance_id, code: c.code }),
            events@ == ev0 + i0.cards_in_play@.take(c as int).filter(p).map_values(mk),
        decreases i0.cards_in_play@.len() - c,
    {
        proof {
            lemma_filter_step(i0.cards_in_play@, p, c as int);
        }
        if inv.cards_in_play[c].exhausted {
            let ev = Event::CardReadied {
                investigator: inv.id,
                instance_id: inv.cards_in_play[c].instance_id,
                code: inv.cards_in_play[c].code.clone(),
            };
            inv.cards_in_play[c].exhausted = false;
            events.push(ev);
        }
        proof {
            assert(events@ =~= ev0 + i0.cards_in_play@.take(c + 1).filter(p).map_values(mk));
        }
        c += 1;
    }
    proof {
        lemma_take_full(i0.cards_in_play@);
        assert(inv.cards_in_play@ =~= readied_cards(i0.cards_in_play@));
    }
}

/// What step 4.3 does (see [`ready_exhausted_cards`]).
pub open spec fn cards_readied(s: GameState, f: GameState, e0: Seq<Event>, e1: Seq<Event>) -> bool {
    &&& f == (GameState {
        investigators: f.investigators,
        enemies: f.enemies,
        ..s
    })
    &&& f.investigators@.len() == s.investigators@.len()
    &&& forall|j: int|
        0 <= j < s.investigators@.len() ==> #[trigger] f.investigators@[j] == (Investigator {
            cards_in_play: f.investigators@[j].cards_in_play,
            ..s.investigators@[j]
        }) && f.investigators@[j].cards_in_play@ == readied_cards(
            s.investigators@[j].cards_in_play@,
        )
    &&& f.enemies@ == s.enemies@.map_values(
        |e: Enemy| enemy_after_ready(f.investigators@, s.turn_order@, s.registry, e)
    )
    &&& e1 == e0 + all_card_ready_events(s.investigators@) + enemy_ready_events(
        s.enemies@
    ) + ready_engage_events(f.investigators@, s.turn_order@, s.registry, s.enemies@)
}

/// Step 4.3, ready exhausted cards: every investigator's cards in play
/// (investigator by investigator, in play-area order) and then every
/// enemy (in enemy order) ready, each readying announced. Then each enemy
/// that became ready while unengaged engages per the general engagement
/// rule (Rules Reference p.10: an enemy readied at an investigator's
/// location engages as soon as it is readied); one still engaged keeps its
/// engagement.
pub fn ready_exhausted_cards(state: &mut GameState, events: &mut Vec<Event>)
    requires
        old(state).wf(),
    ensures
        final(state).wf(),
        cards_readied(*old(state), *final(state), old(events)@, final(events)@),
{
    let ghost s0 = *state;
    let ghost ev0 = events@;
    let mut k: usize = 0;
    while k < state.investigators.len()
        invariant
            s0.wf(),
            k <= state.investigators@.len(),
            state.investigators@.len() == s0.investigators@.len(),
            *state == (GameState { investigators: state.investigators, ..s0 }),
            forall|j: int|
                0 <= j < k ==> #[trigger] state.investigators@[j] == (Investigator {
                    cards_in_play: state.investigators@[j].cards_in_play,
                    ..s0.investigators@[j]
                }) && state.investigators@[j].cards_in_play@ == readied_cards(s0.investigators@[j].cards_in_play@),
            forall|j: int| k <= j < s0.investigators@.len() ==> #[trigger] state.investigators@[j] == s0.investigators@[j],
            events@ == ev0 + all_card_ready_events(s0.investigators@.take(k as int)),
        decreases s0.investigators@.len() - k,
    {
        let mut inv = state.investigators.remove(k);
        ready_cards_of(&mut inv, events);
        state.investigators.insert(k, inv);
        proof {
            assert(s0.investigators@.take(k + 1).drop_last() =~= s0.investigators@.take(k as int));
            assert(s0.investigators@.take(k + 1).last() == s0.investigators@[k as int]);
            assert forall|j: int| 0 <= j < k + 1 implies #[trigger] state.investigators@[j] == (Investigator {
                cards_in_play: state.investigators@[j].cards_in_play,
                ..s0.investigators@[j]
            }) && state.investigators@[j].cards_in_play@ == readied_cards(s0.investigators@[j].cards_in_play@) by {
                if j == k {
                }
            }
        }
        k += 1;
    }
    proof {
        lemma_take_full(s0.investigators@);
        assert(investigator_ids_distinct(state.investigators@)) by {
            assert forall|a: int, b: int|
                0 <= a < state.investigators@.len() && 0 <= b < state.investigators@.len() && a != b implies state.investigators@[a].id
                != state.investigators@[b].id by {
                assert(state.investigators@[a].id == s0.investigators@[a].id);
                assert(state.investigators@[b].id == s0.investigators@[b].id);
            }
        }
    }
    let ghost s1 = *state;
    let ghost ev1 = events@;
    let ghost ep = |e: Enemy| e.exhausted;
    let ghost emk = |e: Enemy| Event::EnemyReadied { enemy: e.id };
    let mut newly: Vec<bool> = Vec::new();
    let mut j: usize = 0;
    while j < state.enemies.len()
        invariant
            s1.wf(),
            j <= state.enemies@.len(),
            state.enemies@.len() == s0.enemies@.len(),
            s1.enemies@ == s0.enemies@,
            *state == (GameState { enemies: state.enemies, ..s1 }),
            newly@.len() == j,
            forall|t: int| 0 <= t < j ==> #[trigger] newly@[t] == s0.enemies@[t].exhausted,
            forall|t: int| 0 <= t < j ==> #[trigger] state.enemies@[t] == (Enemy { exhausted: false, ..s0.enemies@[t] }),
            forall|t: int| j <= t < s0.enemies@.len() ==> #[trigger] state.enemies@[t] == s0.enemies@[t],
            ep == (|e: Enemy| e.exhausted),
            emk == (|e: Enemy| Event::EnemyReadied { enemy: e.id }),
            events@ == ev1 + s0.enemies@.take(j as int).filter(ep).map_values(emk),
        decreases s0.enemies@.len() - j,
    {
        proof {
            lemma_filter_step(s0.enemies@, ep, j as int);
        }
        let was = state.enemies[j].exhausted;
        if was {
            let eid = state.enemies[j].id;
            state.enemies[j].exhausted = false;
            events.push(Event::EnemyReadied { enemy: eid });
        }
        newly.push(was);
        proof {
            assert(events@ =~= ev1 + s0.enemies@.take(j + 1).filter(ep).map_values(emk));
        }
        j += 1;
    }
    proof {
        lemma_take_full(s0.enemies@);
        assert(enemy_ids_distinct(state.enemies@)) by {
            assert forall|a: int, b: int|
                0 <= a < state.enemies@.len() && 0 <= b < state.enemies@.len() && a != b implies state.enemies@[a].id
                != state.enemies@[b].id by {
                assert(state.enemies@[a].id == s0.enemies@[a].id);
                assert(state.enemies@[b].id == s0.enemies@[b].id);
            }
        }
        assert forall|t: int| 0 <= t < state.enemies@.len() implies state.enemies@[t].id.0 < state.next_enemy_id by {
            assert(state.enemies@[t].id == s0.enemies@[t].id);
        }
    }
    let ghost s2 = *state;
    let ghost ev2 = events@;
    let ghost fin_invs = s1.investigators@;
    let mut j: usize = 0;
    while j < newly.len()
        invariant
            state.wf(),
            j <= newly@.len(),
            newly@.len() == s0.enemies@.len(),
            state.enemies@.len() == s0.enemies@.len(),
            forall|t: int| 0 <= t < s0.enemies@.len() ==> #[trigger] newly@[t] == s0.enemies@[t].exhausted,
            forall|t: int| 0 <= t < s0.enemies@.len() ==> #[trigger] s2.enemies@[t] == (Enemy { exhausted: false, ..s0.enemies@[t] }),
            *state == (GameState { enemies: state.enemies, ..s2 }),
            fin_invs == s2.investigators@,
            forall|t: int|
                0 <= t < j ==> #[trigger] state.enemies@[t] == enemy_after_ready(fin_invs, s0.turn_order@, s0.registry, s0.enemies@[t]),
            forall|t: int| j <= t < s0.enemies@.len() ==> #[trigger] state.enemies@[t] == s2.enemies@[t],
            s2.turn_order@ == s0.turn_order@,
            s2.registry == s0.registry,
            events@ == ev2 + ready_engage_events(fin_invs, s0.turn_order@, s0.registry, s0.enemies@.take(j as int)),
        decreases newly@.len() - j,
    {
        proof {
            assert(s0.enemies@.take(j + 1).drop_last() =~= s0.enemies@.take(j as int));
            assert(s0.enemies@.take(j + 1).last() == s0.enemies@[j as int]);
        }
        if newly[j] && state.enemies[j].engaged_with.is_none() {
            let eid = state.enemies[j].id;
            proof {
                lemma_enemy_index(state.enemies@, eid, j as int);
            }
            reengage_at_location(state, events, eid);
        }
        proof {
            assert(events@ =~= ev2 + ready_engage_events(fin_invs, s0.turn_order@, s0.registry, s0.enemies@.take(j + 1)));
        }
        j += 1;
    }
    proof {
        lemma_take_full(s0.enemies@);
        assert(state.enemies@ =~= s0.enemies@.map_values(
            |e: Enemy| enemy_after_ready(state.investigators@, s0.turn_order@, s0.registry, e),
        ));
    }
}


/// Naming one more position `x` adds the card there to what is picked,
/// when it is in the hand and not already named.
proof fn lemma_picked_one_more(hand: Seq<CardCode>, idx: Seq<u32>, x: u32)
    ensures
        picked(hand, idx.push(x)).len() == picked(hand, idx).len() + if x < hand.len() && !names(idx, x as int) {
            1int
        } else {
            0int
        },
    decreases hand.len(),
{
    if hand.len() > 0 {
        let p = hand.len() - 1;
        lemma_picked_one_more(hand.drop_last(), idx, x);
        assert(names(idx.push(x), p) <==> names(idx, p) || x as int == p) by {
            if names(idx.push(x), p) {
                let i = choose|i: int| 0 <= i < idx.push(x).len() && idx.push(x)[i] as int == p;
                if i < idx.len() {
                    assert(idx[i] == idx.push(x)[i]);
                }
            }
            if names(idx, p) {
                let i = choose|i: int| 0 <= i < idx.len() && idx[i] as int == p;
                assert(idx.push(x)[i] == idx[i]);
            }
            if x as int == p {
                assert(idx.push(x)[idx.len() as int] == x);
            }
        }
    }
}

/// A fault-free list of positions picks exactly as many cards as it names.
proof fn lemma_picked_len(hand: Seq<CardCode>, idx: Seq<u32>)
    requires
        index_fault(idx, hand.len()) is None,
    ensures
        picked(hand, idx).len() == idx.len(),
    decreases idx.len(),
{
    if idx.len() == 0 {
        lemma_picked_none(hand, idx);
    } else {
        let t = idx.drop_last();
        lemma_picked_len(hand, t);
        assert(idx =~= t.push(idx.last()));
        lemma_picked_one_more(hand, t, idx.last());
    }
}

/// Naming no position picks nothing.
proof fn lemma_picked_none(hand: Seq<CardCode>, idx: Seq<u32>)
    requires
        idx.len() == 0,
    ensures
        picked(hand, idx).len() == 0,
    decreases hand.len(),
{
    if hand.len() > 0 {
        lemma_picked_none(hand.drop_last(), idx);
    }
}

/// Splitting a hand into picked and unpicked cards loses and invents none.
proof fn lemma_pick_splits(hand: Seq<CardCode>, idx: Seq<u32>)
    ensures
        picked(hand, idx).to_multiset().add(unpicked(hand, idx).to_multiset()) == hand.to_multiset(),
        picked(hand, idx).len() + unpicked(hand, idx).len() == hand.len(),
    decreases hand.len(),
{
    broadcast use vstd::seq_lib::group_to_multiset_ensures;
    if hand.len() == 0 {
        assert(picked(hand, idx).to_multiset().add(unpicked(hand, idx).to_multiset()) =~= hand.to_multiset());
    } else {
        let t = hand.drop_last();
        lemma_pick_splits(t, idx);
        assert(hand =~= t.push(hand.last()));
        assert(picked(hand, idx).to_multiset().add(unpicked(hand, idx).to_multiset()) =~= hand.to_multiset());
    }
}

/// An accepted hand-size discard leaves the hand at exactly the limit, and
/// every card of the old hand ends either still in hand or discarded.
pub proof fn law_hand_size_discard_leaves_the_limit(hand: Seq<CardCode>, idx: Seq<u32>)
    requires
        hand.len() > HAND_SIZE_LIMIT,
        discard_fault(idx, hand.len()) is None,
    ensures
        unpicked(hand, idx).len() == HAND_SIZE_LIMIT,
        picked(hand, idx).len() == hand.len() - HAND_SIZE_LIMIT,
        picked(hand, idx).to_multiset().add(unpicked(hand, idx).to_multiset()) == hand.to_multiset(),
{
    lemma_picked_len(hand, idx);
    lemma_pick_splits(hand, idx);
}

} // verus!
