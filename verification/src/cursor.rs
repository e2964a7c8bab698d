//! Turn-order cursors: who is active, who is next, who is where.
//!
//! Eliminated investigators (killed, insane, resigned, defeated by a card
//! ability) keep their seat but take no further part (Rules Reference p.10),
//! so every cursor here skips them.
use vstd::prelude::*;

use crate::seqs::{lemma_filter_first, lemma_filter_step, lemma_take_full};
use crate::state::{
    has_investigator, investigator_ids_distinct, investigator_index, Continuation, GameState,
    Investigator, InvestigatorId, LocationId, Status,
};

verus! {

/// Whether the investigator with `id` is seated and `Active`.
pub open spec fn is_active_id(invs: Seq<Investigator>, id: InvestigatorId) -> bool {
    has_investigator(invs, id) && invs[investigator_index(invs, id)].status == Status::Active
}

/// The location of the investigator with `id` (`None` when unseated or
/// between locations).
pub open spec fn location_of(invs: Seq<Investigator>, id: InvestigatorId) -> Option<LocationId> {
    if has_investigator(invs, id) {
        invs[investigator_index(invs, id)].current_location
    } else {
        None
    }
}

/// The `Active` investigators in turn order.
pub open spec fn active_turn_order(s: GameState) -> Seq<InvestigatorId> {
    s.turn_order@.filter(|id: InvestigatorId| is_active_id(s.investigators@, id))
}

/// The first `Active` investigator in turn order (the lead).
pub open spec fn first_active_of(s: GameState) -> Option<InvestigatorId> {
    if active_turn_order(s).len() > 0 {
        Some(active_turn_order(s)[0])
    } else {
        None
    }
}

/// The position of the first occurrence of `id` in turn order.
pub open spec fn turn_position(s: GameState, id: InvestigatorId) -> int {
    choose|i: int|
        0 <= i < s.turn_order@.len() && s.turn_order@[i] == id && forall|j: int|
            0 <= j < i ==> s.turn_order@[j] != id
}

/// The first `Active` investigator after `current` in turn order; `None`
/// when `current` is not in turn order or nobody after it is `Active`.
pub open spec fn next_active_after_of(s: GameState, current: InvestigatorId) -> Option<
    InvestigatorId,
> {
    if s.turn_order@.contains(current) {
        let rest = s.turn_order@.skip(turn_position(s, current) + 1).filter(
            |id: InvestigatorId| is_active_id(s.investigators@, id),
        );
        if rest.len() > 0 {
            Some(rest[0])
        } else {
            None
        }
    } else {
        None
    }
}

/// The `Active` investigators of `invs` at `loc`, in the order `order`.
pub open spec fn active_at_in(
    invs: Seq<Investigator>,
    order: Seq<InvestigatorId>,
    loc: LocationId,
) -> Seq<InvestigatorId> {
    order.filter(
        |id: InvestigatorId| is_active_id(invs, id) && location_of(invs, id) == Some(loc),
    )
}

/// The `Active` investigators at `loc`, in turn order.
pub open spec fn active_at_of(s: GameState, loc: LocationId) -> Seq<InvestigatorId> {
    active_at_in(s.investigators@, s.turn_order@, loc)
}

/// Whether the investigator with `id` is seated and `Active`.
pub fn is_active(state: &GameState, id: InvestigatorId) -> (r: bool)
    requires
        investigator_ids_distinct(state.investigators@),
    ensures
        r == is_active_id(state.investigators@, id),
{
    match state.find_investigator(id) {
        Some(i) => matches!(state.investigators[i].status, Status::Active),
        None => false,
    }
}

/// The location of the investigator with `id`.
pub fn investigator_location(state: &GameState, id: InvestigatorId) -> (r: Option<LocationId>)
    requires
        investigator_ids_distinct(state.investigators@),
    ensures
        r == location_of(state.investigators@, id),
{
    match state.find_investigator(id) {
        Some(i) => state.investigators[i].current_location,
        None => None,
    }
}

/// The `Active` investigators in turn order.
pub fn active_investigators_in_turn_order(state: &GameState) -> (r: Vec<InvestigatorId>)
    requires
        investigator_ids_distinct(state.investigators@),
    ensures
        r@ == active_turn_order(*state),
{
    let ghost p = |id: InvestigatorId| is_active_id(state.investigators@, id);
    let mut out: Vec<InvestigatorId> = Vec::new();
    let mut i: usize = 0;
    while i < state.turn_order.len()
        invariant
            i <= state.turn_order@.len(),
            investigator_ids_distinct(state.investigators@),
            p == (|id: InvestigatorId| is_active_id(state.investigators@, id)),
            out@ == state.turn_order@.take(i as int).filter(p),
        decreases state.turn_order@.len() - i,
    {
        let id = state.turn_order[i];
        proof {
            lemma_filter_step(state.turn_order@, p, i as int);
        }
        if is_active(state, id) {
            out.push(id);
        }
        i += 1;
    }
    proof {
        lemma_take_full(state.turn_order@);
    }
    out
}

/// The first `Active` investigator in turn order (the lead investigator).
pub fn first_active_investigator(state: &GameState) -> (r: Option<InvestigatorId>)
    requires
        investigator_ids_distinct(state.investigators@),
    ensures
        r == first_active_of(*state),
{
    let ghost p = |id: InvestigatorId| is_active_id(state.investigators@, id);
    let mut i: usize = 0;
    while i < state.turn_order.len()
        invariant
            i <= state.turn_order@.len(),
            investigator_ids_distinct(state.investigators@),
            p == (|id: InvestigatorId| is_active_id(state.investigators@, id)),
            state.turn_order@.take(i as int).filter(p).len() == 0,
        decreases state.turn_order@.len() - i,
    {
        let id = state.turn_order[i];
        proof {
            lemma_filter_step(state.turn_order@, p, i as int);
        }
        if is_active(state, id) {
            proof {
                lemma_filter_first(state.turn_order@, p, i as int);
            }
            return Some(id);
        }
        i += 1;
    }
    proof {
        lemma_take_full(state.turn_order@);
    }
    None
}

/// The first `Active` investigator after `current` in turn order. `current`
/// itself may be eliminated; the successor is found from its seat.
pub fn next_active_investigator_after(state: &GameState, current: InvestigatorId) -> (r: Option<
    InvestigatorId,
>)
    requires
        investigator_ids_distinct(state.investigators@),
    ensures
        r == next_active_after_of(*state, current),
{
    let mut pos: usize = 0;
    while pos < state.turn_order.len() && state.turn_order[pos] != current
        invariant
            pos <= state.turn_order@.len(),
            forall|j: int| 0 <= j < pos ==> state.turn_order@[j] != current,
        decreases state.turn_order@.len() - pos,
    {
        pos += 1;
    }
    if pos == state.turn_order.len() {
        assert(!state.turn_order@.contains(current));
        return None;
    }
    proof {
        let k = turn_position(*state, current);
        assert(state.turn_order@[pos as int] == current);
        assert(state.turn_order@.contains(current));
        assert(0 <= k < state.turn_order@.len() && state.turn_order@[k] == current && forall|
            j: int,
        | 0 <= j < k ==> state.turn_order@[j] != current);
        if k < pos {
        } else if k > pos {
            assert(state.turn_order@[pos as int] != current);
        }
        assert(k == pos);
    }
    let ghost rest = state.turn_order@.skip(pos + 1);
    let ghost p = |id: InvestigatorId| is_active_id(state.investigators@, id);
    let mut i: usize = pos + 1;
    while i < state.turn_order.len()
        invariant
            pos < i <= state.turn_order@.len(),
            investigator_ids_distinct(state.investigators@),
            rest == state.turn_order@.skip(pos + 1),
            turn_position(*state, current) == pos as int,
            state.turn_order@.contains(current),
            p == (|id: InvestigatorId| is_active_id(state.investigators@, id)),
            rest.take(i - pos - 1).filter(p).len() == 0,
        decreases state.turn_order@.len() - i,
    {
        let id = state.turn_order[i];
        proof {
            assert(rest[i - pos - 1] == id);
            lemma_filter_step(rest, p, i - pos - 1);
        }
        if is_active(state, id) {
            proof {
                lemma_filter_first(rest, p, i - pos - 1);
            }
            return Some(id);
        }
        i += 1;
    }
    proof {
        lemma_take_full(rest);
    }
    None
}

/// The `Active` investigators at `loc`, in turn order.
pub fn active_investigators_at(state: &GameState, loc: LocationId) -> (r: Vec<InvestigatorId>)
    requires
        investigator_ids_distinct(state.investigators@),
    ensures
        r@ == active_at_of(*state, loc),
{
    let ghost p = |id: InvestigatorId|
        is_active_id(state.investigators@, id) && location_of(state.investigators@, id) == Some(
            loc,
        );
    let mut out: Vec<InvestigatorId> = Vec::new();
    let mut i: usize = 0;
    while i < state.turn_order.len()
        invariant
            i <= state.turn_order@.len(),
            investigator_ids_distinct(state.investigators@),
            p == (|id: InvestigatorId|
                is_active_id(state.investigators@, id) && location_of(state.investigators@, id)
                    == Some(loc)),
            out@ == state.turn_order@.take(i as int).filter(p),
        decreases state.turn_order@.len() - i,
    {
        let id = state.turn_order[i];
        proof {
            lemma_filter_step(state.turn_order@, p, i as int);
        }
        if is_active(state, id) && investigator_location(state, id) == Some(loc) {
            out.push(id);
        }
        i += 1;
    }
    proof {
        lemma_take_full(state.turn_order@);
    }
    out
}

/// Whether `c` is `investigator`'s turn frame.
pub open spec fn is_turn_of(c: Continuation, investigator: InvestigatorId) -> bool {
    c matches Continuation::InvestigatorTurn { investigator: who, .. } && who == investigator
}

/// The index of the topmost turn frame belonging to `investigator`.
pub open spec fn turn_frame_of(s: Seq<Continuation>, investigator: InvestigatorId) -> int {
    choose|i: int|
        0 <= i < s.len() && is_turn_of(s[i], investigator) && forall|j: int|
            i < j < s.len() ==> !is_turn_of(#[trigger] s[j], investigator)
}

/// Whether `investigator` has a turn frame on the stack.
pub open spec fn has_turn_frame(s: Seq<Continuation>, investigator: InvestigatorId) -> bool {
    exists|i: int| 0 <= i < s.len() && is_turn_of(#[trigger] s[i], investigator)
}

/// The index of `investigator`'s topmost turn frame, if it is their turn.
pub fn find_turn_frame(state: &GameState, investigator: InvestigatorId) -> (r: Option<usize>)
    ensures
        match r {
            Some(i) => i < state.continuations@.len() && i == turn_frame_of(
                state.continuations@,
                investigator,
            ) && has_turn_frame(state.continuations@, investigator) && is_turn_of(
                state.continuations@[i as int],
                investigator,
            ),
            None => !has_turn_frame(state.continuations@, investigator),
        },
{
    let mut i: usize = state.continuations.len();
    while i > 0
        invariant
            i <= state.continuations@.len(),
            forall|j: int|
                i <= j < state.continuations@.len() ==> !is_turn_of(
                    #[trigger] state.continuations@[j],
                    investigator,
                ),
        decreases i,
    {
        i -= 1;
        let hit = match &state.continuations[i] {
            Continuation::InvestigatorTurn { investigator: who, .. } => *who == investigator,
            _ => false,
        };
        if hit {
            proof {
                let s = state.continuations@;
                let k = turn_frame_of(s, investigator);
                assert(is_turn_of(s[i as int], investigator));
                assert(has_turn_frame(s, investigator));
                assert(0 <= k < s.len() && is_turn_of(s[k], investigator) && forall|j: int|
                    k < j < s.len() ==> !is_turn_of(#[trigger] s[j], investigator));
                if k < i {
                    assert(!is_turn_of(s[i as int], investigator));
                } else if k > i {
                    assert(!is_turn_of(s[k], investigator));
                }
            }
            return Some(i);
        }
    }
    None
}


/// In a sequence where nothing before `i` passes, the filter keeps nothing
/// of that prefix.
proof fn lemma_filter_prefix_empty<A>(s: Seq<A>, p: spec_fn(A) -> bool, i: int)
    requires
        0 <= i <= s.len(),
        forall|j: int| 0 <= j < i ==> !p(#[trigger] s[j]),
    ensures
        s.take(i).filter(p).len() == 0,
    decreases i,
{
    if i > 0 {
        lemma_filter_prefix_empty(s, p, i - 1);
        lemma_filter_step(s, p, i - 1);
    }
}

/// The first element a filter keeps is the earliest one that passes, and
/// nothing before it passes; an empty filter means nothing passes.
proof fn lemma_filter_head<A>(s: Seq<A>, p: spec_fn(A) -> bool)
    ensures
        s.filter(p).len() > 0 ==> exists|i: int|
            0 <= i < s.len() && s[i] == s.filter(p)[0] && p(s[i]) && forall|j: int|
                0 <= j < i ==> !p(#[trigger] s[j]),
        s.filter(p).len() == 0 ==> forall|j: int| 0 <= j < s.len() ==> !p(#[trigger] s[j]),
{
    if exists|i: int| 0 <= i < s.len() && p(#[trigger] s[i]) {
        lemma_least_passing(s, p);
        let i = choose|i: int|
            0 <= i < s.len() && p(#[trigger] s[i]) && forall|j: int| 0 <= j < i ==> !p(#[trigger] s[j]);
        lemma_filter_prefix_empty(s, p, i);
        lemma_filter_first(s, p, i);
    } else {
        lemma_filter_prefix_empty(s, p, s.len() as int);
        lemma_take_full(s);
    }
}

/// If something passes, there is a least position that does.
proof fn lemma_least_passing<A>(s: Seq<A>, p: spec_fn(A) -> bool)
    requires
        exists|i: int| 0 <= i < s.len() && p(#[trigger] s[i]),
    ensures
        exists|i: int| 0 <= i < s.len() && p(#[trigger] s[i]) && forall|j: int| 0 <= j < i ==> !p(#[trigger] s[j]),
{
    let w = choose|i: int| 0 <= i < s.len() && p(#[trigger] s[i]);
    lemma_least_from(s, p, w);
}

/// From a passing position `w`, some position at or before it is the
/// least that passes.
proof fn lemma_least_from<A>(s: Seq<A>, p: spec_fn(A) -> bool, w: int)
    requires
        0 <= w < s.len(),
        p(s[w]),
    ensures
        exists|i: int| 0 <= i < s.len() && p(#[trigger] s[i]) && forall|j: int| 0 <= j < i ==> !p(#[trigger] s[j]),
    decreases w,
{
    if exists|j: int| 0 <= j < w && p(#[trigger] s[j]) {
        let j = choose|j: int| 0 <= j < w && p(#[trigger] s[j]);
        lemma_least_from(s, p, j);
    } else {
        assert(forall|j: int| 0 <= j < w ==> !p(#[trigger] s[j]));
    }
}

/// Turns pass along the turn order: the investigator after `current` is
/// `Active` and sits later in turn order, with nobody `Active` skipped in
/// between; when there is none, nobody after `current` is `Active`.
pub proof fn law_turns_pass_in_turn_order(s: GameState, current: InvestigatorId)
    requires
        s.turn_order@.no_duplicates(),
        s.turn_order@.contains(current),
    ensures
        next_active_after_of(s, current) matches Some(n) ==> {
            &&& is_active_id(s.investigators@, n)
            &&& s.turn_order@.contains(n)
            &&& turn_position(s, current) < turn_position(s, n)
            &&& forall|j: int|
                turn_position(s, current) < j < turn_position(s, n) ==> !is_active_id(
                    s.investigators@,
                    #[trigger] s.turn_order@[j],
                )
        },
        next_active_after_of(s, current) is None ==> forall|j: int|
            turn_position(s, current) < j < s.turn_order@.len() ==> !is_active_id(
                s.investigators@,
                #[trigger] s.turn_order@[j],
            ),
{
    let o = s.turn_order@;
    let pc = turn_position(s, current);
    assert(exists|i: int| 0 <= i < o.len() && o[i] == current);
    let w = choose|i: int| 0 <= i < o.len() && o[i] == current;
    assert(0 <= pc < o.len() && o[pc] == current) by {
        lemma_first_occurrence(o, current, w);
    }
    let act = |id: InvestigatorId| is_active_id(s.investigators@, id);
    let tail = o.skip(pc + 1);
    lemma_filter_head(tail, act);
    assert forall|j: int| 0 <= j < tail.len() implies #[trigger] tail[j] == o[pc + 1 + j] by {}
    if tail.filter(act).len() > 0 {
        let i = choose|i: int|
            0 <= i < tail.len() && tail[i] == tail.filter(act)[0] && act(tail[i]) && forall|j: int|
                0 <= j < i ==> !act(#[trigger] tail[j]);
        let n = tail[i];
        assert(o[pc + 1 + i] == n);
        assert(turn_position(s, n) == pc + 1 + i) by {
            assert(exists|k: int| 0 <= k < o.len() && o[k] == n);
            lemma_first_occurrence(o, n, pc + 1 + i);
        }
        assert forall|j: int| pc < j < pc + 1 + i implies !act(#[trigger] o[j]) by {
            assert(tail[j - pc - 1] == o[j]);
        }
    } else {
        assert forall|j: int| pc < j < o.len() implies !act(#[trigger] o[j]) by {
            assert(tail[j - pc - 1] == o[j]);
        }
    }
}

/// In a sequence without duplicates, the first occurrence of `id` is its
/// only one.
proof fn lemma_first_occurrence(o: Seq<InvestigatorId>, id: InvestigatorId, w: int)
    requires
        o.no_duplicates(),
        0 <= w < o.len(),
        o[w] == id,
    ensures
        (choose|i: int| 0 <= i < o.len() && o[i] == id && forall|j: int| 0 <= j < i ==> o[j] != id) == w,
{
    assert(0 <= w < o.len() && o[w] == id && forall|j: int| 0 <= j < w ==> o[j] != id);
}

} // verus!
