//! Scenario setup: seating the roster and opening the first round, which
//! skips the Mythos phase (Rules Reference p.24).
use vstd::prelude::*;

use crate::cards::{copy_names, metadata_of, CardKind, CardRegistry};
use crate::deck::{shuffle_codes, shuffle_encounter_deck, shuffled};
use crate::location_reveal::{reveal_location, revealed};
use crate::outcome::{EngineOutcome, Event, Reject, RosterEntry};
use crate::dispatch::refusal_changes_nothing;
use crate::phases::{begin_investigation_phase, investigation_begun};
use crate::cursor::{first_active_investigator, first_active_of, next_active_after_of, next_active_investigator_after};
use crate::state::{
    has_investigator, investigator_index, has_location, investigator_ids_distinct, location_index, GameState, Investigator,
    InvestigatorId, LocationId, Phase, Skills, Status,
};
use crate::upkeep::{actions_reset, check_indices, index_fault, picked, reset_actions, split_hand, unpicked};

verus! {

/// The number of cards in an opening hand.
pub const INITIAL_HAND_SIZE: usize = 5;

/// The resources an investigator starts the scenario with.
pub const STARTING_RESOURCES: u8 = 5;

/// Why roster entry `e` cannot be seated, if it cannot: no card data, an
/// unknown code, or a card that is not an investigator.
pub open spec fn entry_fault(reg: Option<CardRegistry>, e: RosterEntry) -> Option<Reject> {
    match reg {
        None => Some(Reject::NoRegistry),
        Some(g) => match metadata_of(g, e.investigator@) {
            None => Some(Reject::UnknownCard),
            Some(m) => if m.kind is Investigator {
                None
            } else {
                Some(Reject::NotAnInvestigator)
            },
        },
    }
}

/// Why the roster `r` cannot be seated: the fault of its first entry that
/// has one.
pub open spec fn roster_fault(reg: Option<CardRegistry>, r: Seq<RosterEntry>) -> Option<Reject>
    decreases r.len(),
{
    if r.len() == 0 {
        None
    } else {
        match roster_fault(reg, r.drop_last()) {
            Some(x) => Some(x),
            None => entry_fault(reg, r.last()),
        }
    }
}

/// The fault of the first unseatable roster entry, if any.
#[verifier::spinoff_prover]
#[verifier::rlimit(40)]
fn check_roster(reg: &Option<CardRegistry>, roster: &Vec<RosterEntry>) -> (r: Option<Reject>)
    ensures
        r == roster_fault(*reg, roster@),
{
    let mut i: usize = 0;
    while i < roster.len()
        invariant
            i <= roster@.len(),
            roster_fault(*reg, roster@.take(i as int)) is None,
        decreases roster@.len() - i,
    {
        proof {
            assert(roster@.take(i + 1).drop_last() =~= roster@.take(i as int));
            assert(roster@.take(i + 1).last() == roster@[i as int]);
        }
        let fault = match reg {
            None => Some(Reject::NoRegistry),
            Some(g) => match g.metadata_for(roster[i].investigator.as_str()) {
                None => Some(Reject::UnknownCard),
                Some(m) => match &m.kind {
                    CardKind::Investigator { .. } => None,
                    _ => Some(Reject::NotAnInvestigator),
                },
            },
        };
        if fault.is_some() {
            proof {
                lemma_fault_persists(*reg, roster@, i as int + 1);
            }
            return fault;
        }
        i += 1;
    }
    proof {
        assert(roster@.take(i as int) =~= roster@);
    }
    None
}

/// A fault of a prefix is the fault of the whole roster.
proof fn lemma_fault_persists(reg: Option<CardRegistry>, r: Seq<RosterEntry>, k: int)
    requires
        0 <= k <= r.len(),
        roster_fault(reg, r.take(k)) is Some,
    ensures
        roster_fault(reg, r) == roster_fault(reg, r.take(k)),
    decreases r.len() - k,
{
    if k < r.len() {
        assert(r.take(k + 1).drop_last() =~= r.take(k));
        lemma_fault_persists(reg, r, k + 1);
    } else {
        assert(r.take(k) =~= r);
    }
}

/// The largest of `top` and the ids of `invs`.
pub open spec fn max_inv_id(invs: Seq<Investigator>, top: u32) -> u32
    decreases invs.len(),
{
    if invs.len() == 0 {
        top
    } else {
        let t = max_inv_id(invs.drop_last(), top);
        if invs.last().id.0 > t {
            invs.last().id.0
        } else {
            t
        }
    }
}

/// The largest of `top` and the ids in `order`.
pub open spec fn max_turn_id(order: Seq<InvestigatorId>, top: u32) -> u32
    decreases order.len(),
{
    if order.len() == 0 {
        top
    } else {
        let t = max_turn_id(order.drop_last(), top);
        if order.last().0 > t {
            order.last().0
        } else {
            t
        }
    }
}

/// The largest id in use in `s` (0 when there is none): new seats are
/// numbered after it.
pub open spec fn top_id(s: GameState) -> u32 {
    max_turn_id(s.turn_order@, max_inv_id(s.investigators@, 0))
}

/// The largest id in use, among the seated investigators and the turn
/// order.
fn highest_id(state: &GameState) -> (r: u32)
    ensures
        r == top_id(*state),
        forall|k: int| 0 <= k < state.investigators@.len() ==> state.investigators@[k].id.0 <= r,
        forall|k: int| 0 <= k < state.turn_order@.len() ==> state.turn_order@[k].0 <= r,
{
    let mut top: u32 = 0;
    let mut i: usize = 0;
    while i < state.investigators.len()
        invariant
            i <= state.investigators@.len(),
            top == max_inv_id(state.investigators@.take(i as int), 0),
            forall|k: int| 0 <= k < i ==> state.investigators@[k].id.0 <= top,
        decreases state.investigators@.len() - i,
    {
        proof {
            assert(state.investigators@.take(i + 1).drop_last() =~= state.investigators@.take(i as int));
        }
        if state.investigators[i].id.0 > top {
            top = state.investigators[i].id.0;
        }
        i += 1;
    }
    proof {
        assert(state.investigators@.take(i as int) =~= state.investigators@);
    }
    let ghost t0 = top;
    let mut j: usize = 0;
    while j < state.turn_order.len()
        invariant
            j <= state.turn_order@.len(),
            top == max_turn_id(state.turn_order@.take(j as int), t0),
            forall|k: int| 0 <= k < state.investigators@.len() ==> state.investigators@[k].id.0 <= top,
            forall|k: int| 0 <= k < j ==> state.turn_order@[k].0 <= top,
        decreases state.turn_order@.len() - j,
    {
        proof {
            assert(state.turn_order@.take(j + 1).drop_last() =~= state.turn_order@.take(j as int));
        }
        if state.turn_order[j].0 > top {
            top = state.turn_order[j].0;
        }
        j += 1;
    }
    proof {
        assert(state.turn_order@.take(j as int) =~= state.turn_order@);
    }
    top
}

/// The investigator seated for a roster entry resolved to `skills`,
/// `health`, `sanity` and `name`, under `id` at `start`: undamaged, with
/// the starting resources, no actions yet, and the entry's deck.
pub open spec fn seated_investigator(
    id: InvestigatorId,
    name: Seq<char>,
    skills: Skills,
    health: u8,
    sanity: u8,
    deck: Seq<String>,
    start: Option<LocationId>,
    i: Investigator,
) -> bool {
    &&& i.id == id
    &&& i.name@ == name
    &&& i.current_location == start
    &&& i.skills == skills
    &&& i.max_health == health
    &&& i.damage == 0
    &&& i.max_sanity == sanity
    &&& i.horror == 0
    &&& i.clues == 0
    &&& i.resources == STARTING_RESOURCES
    &&& i.actions_remaining == 0
    &&& i.status == Status::Active
    &&& i.deck@ == deck
    &&& i.hand@.len() == 0
    &&& i.discard@.len() == 0
    &&& i.cards_in_play@.len() == 0
    &&& i.threat_area@.len() == 0
    &&& i.removed_from_game@.len() == 0
}

/// Whether `i` is what roster entry `e` seats under `id` at `start`.
#[verifier::opaque]
pub open spec fn seats(reg: CardRegistry, e: RosterEntry, id: InvestigatorId, start: Option<LocationId>, i: Investigator) -> bool {
    match metadata_of(reg, e.investigator@) {
        Some(m) => match m.kind {
            CardKind::Investigator { skills, health, sanity } => seated_investigator(
                id,
                m.name@,
                skills,
                health,
                sanity,
                e.deck@,
                start,
                i,
            ),
            _ => false,
        },
        None => false,
    }
}

/// The investigator a resolved roster entry seats.
fn seat_one(reg: &CardRegistry, e: &RosterEntry, id: InvestigatorId, start: Option<LocationId>) -> (r: Investigator)
    requires
        metadata_of(*reg, e.investigator@) matches Some(m) && m.kind is Investigator,
    ensures
        seats(*reg, *e, id, start, r),
        r.id == id,
{
    let m = reg.metadata_for(e.investigator.as_str()).unwrap();
    let (skills, health, sanity) = match &m.kind {
        CardKind::Investigator { skills, health, sanity } => (*skills, *health, *sanity),
        _ => (Skills { willpower: 0, intellect: 0, combat: 0, agility: 0 }, 0, 0),
    };
    let r = Investigator {
        id,
        name: m.name.clone(),
        current_location: start,
        skills,
        max_health: health,
        damage: 0,
        max_sanity: sanity,
        horror: 0,
        clues: 0,
        resources: STARTING_RESOURCES,
        actions_remaining: 0,
        status: Status::Active,
        deck: copy_names(&e.deck),
        hand: Vec::new(),
        discard: Vec::new(),
        cards_in_play: Vec::new(),
        threat_area: Vec::new(),
        removed_from_game: Vec::new(),
    };
    proof {
        reveal(seats);
    }
    r
}

/// Seating `roster` in `s`, numbered after `base`: entry `k` is seated as
/// investigator `base + k + 1` (see [`seats`]) after those already seated,
/// and joins the end of the turn order.
pub open spec fn roster_seated(s: GameState, f: GameState, roster: Seq<RosterEntry>, base: u32) -> bool {
    &&& f == (GameState { investigators: f.investigators, turn_order: f.turn_order, ..s })
    &&& f.investigators@.len() == s.investigators@.len() + roster.len()
    &&& forall|k: int| 0 <= k < s.investigators@.len() ==> f.investigators@[k] == s.investigators@[k]
    &&& forall|k: int|
        0 <= k < roster.len() ==> seats(
            s.registry.unwrap(),
            #[trigger] roster[k],
            InvestigatorId((base + k + 1) as u32),
            s.starting_location,
            f.investigators@[s.investigators@.len() + k],
        )
    &&& f.turn_order@ == s.turn_order@ + Seq::new(roster.len(), |k: int| InvestigatorId((base + k + 1) as u32))
}

/// Seat every roster entry, in order, under fresh ids above `base`, at the
/// starting location; each joins the turn order.
#[verifier::spinoff_prover]
#[verifier::rlimit(60)]
fn seat_roster(state: &mut GameState, roster: &Vec<RosterEntry>, base: u32)
    requires
        old(state).wf(),
        roster_fault(old(state).registry, roster@) is None,
        roster@.len() > 0 ==> old(state).registry is Some,
        base as int + roster@.len() <= u32::MAX,
        forall|k: int| 0 <= k < old(state).investigators@.len() ==> old(state).investigators@[k].id.0 <= base,
        forall|k: int| 0 <= k < old(state).turn_order@.len() ==> old(state).turn_order@[k].0 <= base,
    ensures
        final(state).wf(),
        roster_seated(*old(state), *final(state), roster@, base),
{
    let ghost s0 = *state;
    let n0 = state.investigators.len();
    let mut i: usize = 0;
    while i < roster.len()
        invariant
            state.wf(),
            *state == (GameState { investigators: state.investigators, turn_order: state.turn_order, ..s0 }),
            i <= roster@.len(),
            n0 == s0.investigators@.len(),
            roster_fault(s0.registry, roster@) is None,
            roster@.len() > 0 ==> s0.registry is Some,
            base as int + roster@.len() <= u32::MAX,
            state.investigators@.len() == n0 + i,
            forall|k: int| 0 <= k < state.investigators@.len() ==> #[trigger] state.investigators@[k].id.0 <= base + i,
            forall|k: int| 0 <= k < state.turn_order@.len() ==> #[trigger] state.turn_order@[k].0 <= base + i,
            forall|k: int| 0 <= k < n0 ==> state.investigators@[k] == s0.investigators@[k],
            forall|k: int| 0 <= k < i ==> seats(
                s0.registry.unwrap(),
                #[trigger] roster@[k],
                InvestigatorId((base + k + 1) as u32),
                s0.starting_location,
                state.investigators@[n0 + k],
            ),
            state.turn_order@ == s0.turn_order@ + Seq::new(i as nat, |k: int| InvestigatorId((base + k + 1) as u32)),
        decreases roster@.len() - i,
    {
        proof {
            lemma_entry_ok(s0.registry, roster@, i as int);
        }
        let id = InvestigatorId(base + i as u32 + 1);
        let seated = seat_one(state.registry.as_ref().unwrap(), &roster[i], id, state.starting_location);
        let ghost before = *state;
        state.investigators.push(seated);
        state.turn_order.push(id);
        proof {
            assert forall|a: int, b: int|
                0 <= a < state.investigators@.len() && 0 <= b < state.investigators@.len() && a != b implies state.investigators@[a].id
                != state.investigators@[b].id by {
                if a < n0 + i && b < n0 + i {
                    assert(before.investigators@[a] == state.investigators@[a]);
                    assert(before.investigators@[b] == state.investigators@[b]);
                } else if a < n0 + i {
                    assert(before.investigators@[a].id.0 <= base + i);
                } else if b < n0 + i {
                    assert(before.investigators@[b].id.0 <= base + i);
                }
            }
            assert(!before.turn_order@.contains(id)) by {
                if before.turn_order@.contains(id) {
                    let j = choose|j: int| 0 <= j < before.turn_order@.len() && before.turn_order@[j] == id;
                    assert(before.turn_order@[j].0 <= base + i);
                }
            }
            assert(state.turn_order@ =~= s0.turn_order@ + Seq::new((i + 1) as nat, |k: int| InvestigatorId((base + k + 1) as u32)));
            assert forall|k: int| 0 <= k < i + 1 implies seats(
                s0.registry.unwrap(),
                #[trigger] roster@[k],
                InvestigatorId((base + k + 1) as u32),
                s0.starting_location,
                state.investigators@[n0 + k],
            ) by {
                if k < i {
                    assert(state.investigators@[n0 + k] == before.investigators@[n0 + k]);
                }
            }
        }
        i += 1;
    }
}

/// A roster entry with no fault resolves to an investigator card.
proof fn lemma_entry_ok(reg: Option<CardRegistry>, r: Seq<RosterEntry>, k: int)
    requires
        0 <= k < r.len(),
        roster_fault(reg, r) is None,
        r.len() > 0 ==> reg is Some,
    ensures
        entry_fault(reg, r[k]) is None,
    decreases r.len(),
{
    if k < r.len() - 1 {
        assert(r.drop_last()[k] == r[k]);
        lemma_entry_ok(reg, r.drop_last(), k);
    }
}

/// How many cards an opening hand takes from a deck of `n`.
pub open spec fn opening_count(n: nat) -> nat {
    if n < INITIAL_HAND_SIZE {
        n
    } else {
        INITIAL_HAND_SIZE as nat
    }
}

/// What dealing the opening hand of the investigator at `k` does: their deck
/// is shuffled from the state's generator (announced when it holds two or
/// more cards), then up to five cards are drawn from its top (announced
/// when any are).
pub open spec fn opening_hand(s: GameState, f: GameState, e0: Seq<Event>, e1: Seq<Event>, k: int) -> bool {
    let inv = s.investigators@[k];
    let (deck, rng) = shuffled(inv.deck@, s.rng);
    let n = opening_count(deck.len());
    let em = if inv.deck@.len() >= 2 {
        e0.push(Event::DeckShuffled { investigator: inv.id })
    } else {
        e0
    };
    &&& f == (GameState { investigators: f.investigators, rng: f.rng, ..s })
    &&& f.rng == rng
    &&& f.investigators@ == s.investigators@.update(
        k,
        Investigator { deck: f.investigators@[k].deck, hand: f.investigators@[k].hand, ..inv },
    )
    &&& f.investigators@[k].deck@ == deck.skip(n as int)
    &&& f.investigators@[k].hand@ == inv.hand@ + deck.take(n as int)
    &&& e1 == if n > 0 {
        em.push(Event::CardsDrawn { investigator: inv.id, count: n as u8 })
    } else {
        em
    }
}

/// Shuffle the deck of the investigator at `k` and deal their opening
/// hand.
fn deal_opening_hand(state: &mut GameState, events: &mut Vec<Event>, k: usize)
    requires
        old(state).wf(),
        k < old(state).investigators@.len(),
    ensures
        final(state).wf(),
        opening_hand(*old(state), *final(state), old(events)@, final(events)@, k as int),
{
    let ghost s0 = *state;
    let mut inv = state.investigators.remove(k);
    let id = inv.id;
    let n0 = inv.deck.len();
    shuffle_codes(&mut inv.deck, &mut state.rng);
    if n0 >= 2 {
        events.push(Event::DeckShuffled { investigator: id });
    }
    let ghost d = inv.deck@;
    let ghost h0 = inv.hand@;
    let ghost inv0 = inv;
    let n = if inv.deck.len() < INITIAL_HAND_SIZE {
        inv.deck.len()
    } else {
        INITIAL_HAND_SIZE
    };
    let mut j: usize = 0;
    while j < n
        invariant
            j <= n,
            n == opening_count(d.len()),
            inv.deck@ == d.skip(j as int),
            inv.hand@ == h0 + d.take(j as int),
            inv == (Investigator { deck: inv.deck, hand: inv.hand, ..inv0 }),
        decreases n - j,
    {
        let top = inv.deck.remove(0);
        inv.hand.push(top);
        proof {
            assert(inv.deck@ =~= d.skip(j + 1));
            assert(inv.hand@ =~= h0 + d.take(j + 1));
        }
        j += 1;
    }
    state.investigators.insert(k, inv);
    if n > 0 {
        events.push(Event::CardsDrawn { investigator: id, count: n as u8 });
    }
    proof {
        assert(state.investigators@ =~= s0.investigators@.update(k as int, inv));
        assert forall|a: int, b: int|
            0 <= a < state.investigators@.len() && 0 <= b < state.investigators@.len() && a != b implies state.investigators@[a].id
            != state.investigators@[b].id by {
            assert(state.investigators@[a].id == s0.investigators@[a].id);
            assert(state.investigators@[b].id == s0.investigators@[b].id);
        }
    }
}

/// Whether the states `st` and logs `lg` are the first `n` openings in
/// seat order: the step from `st[k]` to `st[k + 1]` deals the opening hand of
/// the investigator at `k`.
pub open spec fn hands_dealt(st: Seq<GameState>, lg: Seq<Seq<Event>>, n: nat) -> bool
    decreases n,
{
    &&& st.len() > n
    &&& lg.len() > n
    &&& n > 0 ==> {
        &&& hands_dealt(st, lg, (n - 1) as nat)
        &&& opening_hand(st[n - 1], st[n as int], lg[n - 1], lg[n as int], n - 1)
    }
}

/// A run of openings stays one when its states and logs are extended.
proof fn lemma_hands_dealt_extend(
    st: Seq<GameState>,
    lg: Seq<Seq<Event>>,
    st2: Seq<GameState>,
    lg2: Seq<Seq<Event>>,
    n: nat,
)
    requires
        hands_dealt(st, lg, n),
        st2.len() > n,
        lg2.len() > n,
        forall|i: int| 0 <= i <= n ==> st2[i] == st[i] && lg2[i] == lg[i],
    ensures
        hands_dealt(st2, lg2, n),
    decreases n,
{
    if n > 0 {
        lemma_hands_dealt_extend(st, lg, st2, lg2, (n - 1) as nat);
        assert(st2[n - 1] == st[n - 1] && lg2[n - 1] == lg[n - 1]);
        assert(st2[n as int] == st[n as int] && lg2[n as int] == lg[n as int]);
    }
}

/// Deal every seated investigator's opening hand, in seat order.
fn deal_opening_hands(state: &mut GameState, events: &mut Vec<Event>)
    requires
        old(state).wf(),
    ensures
        final(state).wf(),
        exists|st: Seq<GameState>, lg: Seq<Seq<Event>>|
            {
                &&& hands_dealt(st, lg, old(state).investigators@.len())
                &&& st[0] == *old(state)
                &&& lg[0] == old(events)@
                &&& st[old(state).investigators@.len() as int] == *final(state)
                &&& lg[old(state).investigators@.len() as int] == final(events)@
            },
        *final(state) == (GameState { investigators: final(state).investigators, rng: final(state).rng, ..*old(state) }),
        final(state).investigators@.len() == old(state).investigators@.len(),
        forall|k: int| 0 <= k < old(state).investigators@.len() ==> (#[trigger] final(state).investigators@[k]).id
            == old(state).investigators@[k].id,
{
    let ghost s0 = *state;
    let ghost e0 = events@;
    let ghost mut st: Seq<GameState> = seq![s0];
    let ghost mut lg: Seq<Seq<Event>> = seq![e0];
    let mut k: usize = 0;
    while k < state.investigators.len()
        invariant
            state.wf(),
            *state == (GameState { investigators: state.investigators, rng: state.rng, ..s0 }),
            state.investigators@.len() == s0.investigators@.len(),
            forall|j: int| 0 <= j < s0.investigators@.len() ==> (#[trigger] state.investigators@[j]).id
                == s0.investigators@[j].id,
            k <= state.investigators@.len(),
            st.len() == k + 1,
            lg.len() == k + 1,
            hands_dealt(st, lg, k as nat),
            st[0] == s0,
            lg[0] == e0,
            st[k as int] == *state,
            lg[k as int] == events@,
        decreases state.investigators@.len() - k,
    {
        let ghost before = *state;
        let ghost ev_before = events@;
        deal_opening_hand(state, events, k);
        proof {
            let st2 = st.push(*state);
            let lg2 = lg.push(events@);
            lemma_hands_dealt_extend(st, lg, st2, lg2, k as nat);
            assert(st2[k as int] == before && lg2[k as int] == ev_before);
            assert(hands_dealt(st2, lg2, (k + 1) as nat));
            st = st2;
            lg = lg2;
            assert forall|j: int| 0 <= j < s0.investigators@.len() implies (#[trigger] state.investigators@[j]).id
                == s0.investigators@[j].id by {
                assert(state.investigators@[j].id == before.investigators@[j].id);
            }
        }
        k += 1;
    }
}

/// The starting location, if any, is revealed.
pub open spec fn start_revealed(s: GameState, f: GameState, e0: Seq<Event>, e1: Seq<Event>) -> bool {
    match s.starting_location {
        Some(loc) => revealed(s, f, e0, e1, loc),
        None => f == s && e1 == e0,
    }
}

/// Round 1 opens directly in the Investigation phase, announced.
pub open spec fn round_one_opened(s: GameState, f: GameState, e0: Seq<Event>, e1: Seq<Event>) -> bool {
    &&& f == (GameState { round: 1, phase: Phase::Investigation, ..s })
    &&& e1 == e0.push(Event::ScenarioStarted)
}

/// Every seated investigator's opening hand is dealt, in seat order.
pub open spec fn opening_hands_dealt(s: GameState, f: GameState, e0: Seq<Event>, e1: Seq<Event>) -> bool {
    exists|st: Seq<GameState>, lg: Seq<Seq<Event>>|
        {
            &&& #[trigger] hands_dealt(st, lg, s.investigators@.len())
            &&& st[0] == s
            &&& lg[0] == e0
            &&& st[s.investigators@.len() as int] == f
            &&& lg[s.investigators@.len() as int] == e1
        }
}

/// The encounter deck is shuffled from the state's generator, announced
/// when it holds two or more cards.
pub open spec fn encounter_shuffled(s: GameState, f: GameState, e0: Seq<Event>, e1: Seq<Event>) -> bool {
    &&& f == (GameState { encounter_deck: f.encounter_deck, rng: f.rng, ..s })
    &&& (f.encounter_deck@, f.rng) == shuffled(s.encounter_deck@, s.rng)
    &&& e1 == if s.encounter_deck@.len() >= 2 {
        e0.push(Event::EncounterDeckShuffled)
    } else {
        e0
    }
}

/// What a successful start does, in order: `roster` is seated after the
/// ids in use (`base`), the starting location is revealed, round 1 opens in
/// the Investigation phase, opening hands are dealt, the encounter deck is
/// shuffled, the first round's actions are granted, and the mulligan cursor
/// is seeded with the first `Active` investigator in turn order.
pub open spec fn scenario_started(s: GameState, f: GameState, e0: Seq<Event>, e1: Seq<Event>, roster: Seq<RosterEntry>, base: u32) -> bool {
    exists|m1: GameState, m2: GameState, ea: Seq<Event>, m3: GameState, eb: Seq<Event>, m4: GameState, ec: Seq<Event>, m5: GameState, ed: Seq<Event>, m6: GameState|
        #![trigger roster_seated(s, m1, roster, base), start_revealed(m1, m2, e0, ea), round_one_opened(m2, m3, ea, eb), opening_hands_dealt(m3, m4, eb, ec), encounter_shuffled(m4, m5, ec, ed), actions_reset(m5, m6, ed, e1)]
        {
            &&& roster_seated(s, m1, roster, base)
            &&& start_revealed(m1, m2, e0, ea)
            &&& round_one_opened(m2, m3, ea, eb)
            &&& opening_hands_dealt(m3, m4, eb, ec)
            &&& encounter_shuffled(m4, m5, ec, ed)
            &&& actions_reset(m5, m6, ed, e1)
            &&& f == (GameState { mulligan_pending: first_active_of(m6), ..m6 })
        }
}

/// The start's steps, from the given intermediate states, make a start.
proof fn lemma_scenario_started_intro(
    s: GameState,
    f: GameState,
    e0: Seq<Event>,
    e1: Seq<Event>,
    roster: Seq<RosterEntry>,
    base: u32,
    m1: GameState,
    m2: GameState,
    ea: Seq<Event>,
    m3: GameState,
    eb: Seq<Event>,
    m4: GameState,
    ec: Seq<Event>,
    m5: GameState,
    ed: Seq<Event>,
    m6: GameState,
)
    requires
        roster_seated(s, m1, roster, base),
        start_revealed(m1, m2, e0, ea),
        round_one_opened(m2, m3, ea, eb),
        opening_hands_dealt(m3, m4, eb, ec),
        encounter_shuffled(m4, m5, ec, ed),
        actions_reset(m5, m6, ed, e1),
        f == (GameState { mulligan_pending: first_active_of(m6), ..m6 }),
    ensures
        scenario_started(s, f, e0, e1, roster, base),
{
}

/// What a refusal to start leaves: nothing changed, and why.
pub open spec fn start_fault(s: GameState, roster: Seq<RosterEntry>) -> Option<Reject> {
    if s.round != 0 {
        Some(Reject::AlreadyStarted)
    } else if roster_fault(s.registry, roster) is Some {
        roster_fault(s.registry, roster)
    } else if s.investigators@.len() == 0 && roster.len() == 0 {
        Some(Reject::NoInvestigators)
    } else {
        None
    }
}

/// Begin the scenario: seat the roster (every entry is checked first, and a
/// refusal changes nothing), reveal the starting location, open round 1
/// directly in the Investigation phase (the first round skips the Mythos
/// phase), shuffle and deal each investigator's opening hand, shuffle the
/// encounter deck, grant the first round's actions, and seed the mulligan
/// cursor; setup then waits for each investigator's mulligan. Refused, with
/// nothing changed, exactly on a scenario already under way, an unseatable
/// roster entry, nobody to seat, or when the new seats' ids would overflow.
pub fn start_scenario(state: &mut GameState, events: &mut Vec<Event>, roster: &Vec<RosterEntry>) -> (r:
    EngineOutcome)
    requires
        old(state).wf(),
    ensures
        final(state).wf(),
        start_fault(*old(state), roster@) matches Some(why) ==> *final(state) == *old(state)
            && final(events)@ == old(events)@ && r == (EngineOutcome::Rejected { reason: why }),
        start_fault(*old(state), roster@) is None && roster@.len() > u32::MAX - top_id(*old(state))
            ==> *final(state) == *old(state) && final(events)@ == old(events)@ && r == (EngineOutcome::Rejected {
            reason: Reject::IdsExhausted,
        }),
        scenario_begun(*old(state), *final(state), old(events)@, final(events)@, roster@, r),
        refusal_changes_nothing(*old(state), *final(state), old(events)@, final(events)@, r),
        start_fault(*old(state), roster@) is None && roster@.len() <= u32::MAX - top_id(*old(state)) ==> {
            &&& r is Done
            &&& scenario_started(*old(state), *final(state), old(events)@, final(events)@, roster@, top_id(*old(state)))
            &&& final(state).round == 1
            &&& final(state).phase == Phase::Investigation
            &&& final(state).investigators@.len() == old(state).investigators@.len() + roster@.len()
            &&& final(state).continuations == old(state).continuations
            &&& final(state).encounter_deck@.to_multiset() == old(state).encounter_deck@.to_multiset()
        },
{
    if state.round != 0 {
        return EngineOutcome::Rejected { reason: Reject::AlreadyStarted };
    }
    if let Some(why) = check_roster(&state.registry, roster) {
        return EngineOutcome::Rejected { reason: why };
    }
    if state.investigators.len() == 0 && roster.len() == 0 {
        return EngineOutcome::Rejected { reason: Reject::NoInvestigators };
    }
    let base = highest_id(state);
    if roster.len() as u64 > 0xffff_ffffu64 - base as u64 {
        return EngineOutcome::Rejected { reason: Reject::IdsExhausted };
    }
    proof {
        if roster@.len() > 0 {
            assert(roster@.take(1).drop_last() =~= Seq::<RosterEntry>::empty());
            lemma_first_entry_needs_registry(state.registry, roster@);
        }
    }
    let ghost s0 = *state;
    let ghost e0 = events@;
    seat_roster(state, roster, base);
    let ghost seated = *state;
    if let Some(loc) = state.starting_location {
        reveal_location(state, events, loc);
        proof {
            assert forall|a: int| 0 <= a < state.locations@.len() implies #[trigger] state.locations@[a].id == seated.locations@[a].id by {
                if has_location(seated.locations@, loc) {
                    let i = location_index(seated.locations@, loc);
                    if a == i {
                    }
                }
            }
        }
    }
    let ghost m2 = *state;
    let ghost ea = events@;
    assert(start_revealed(seated, m2, e0, ea));
    state.round = 1;
    state.phase = Phase::Investigation;
    events.push(Event::ScenarioStarted);
    let ghost m3 = *state;
    let ghost eb = events@;
    deal_opening_hands(state, events);
    let ghost m4 = *state;
    let ghost ec = events@;
    let ghost before_shuffle = state.encounter_deck@;
    let ghost rng_before = state.rng;
    let deck_len: usize = state.encounter_deck.len();
    assert(before_shuffle.len() == deck_len as int);
    shuffle_encounter_deck(state, events);
    let ghost m5 = *state;
    let ghost ed = events@;
    proof {
        crate::deck::law_shuffle_is_a_permutation(before_shuffle, rng_before);
    }
    reset_actions(state, events);
    let ghost m6 = *state;
    state.mulligan_pending = first_active_investigator(state);
    proof {
        lemma_scenario_started_intro(s0, *state, e0, events@, roster@, base, seated, m2, ea, m3, eb, m4, ec, m5, ed, m6);
    }
    EngineOutcome::Done
}

/// Without card data, a non-empty roster has a fault.
proof fn lemma_first_entry_needs_registry(reg: Option<CardRegistry>, r: Seq<RosterEntry>)
    requires
        r.len() > 0,
        roster_fault(reg, r) is None,
    ensures
        reg is Some,
    decreases r.len(),
{
    if r.len() > 1 {
        lemma_first_entry_needs_registry(reg, r.drop_last());
    }
}

/// What starting the scenario with `roster` does: refused with nothing
/// changed on a start fault, or when the new seats' ids would overflow;
/// otherwise the start runs (see [`scenario_started`]). The first
/// Investigation phase begins once every mulligan is done (see
/// [`mulligan`]).
pub open spec fn scenario_begun(s: GameState, f: GameState, e0: Seq<Event>, e1: Seq<Event>, roster: Seq<RosterEntry>, r: EngineOutcome) -> bool {
    match start_fault(s, roster) {
        Some(why) => f == s && e1 == e0 && r == (EngineOutcome::Rejected { reason: why }),
        None => if roster.len() > u32::MAX - top_id(s) {
            f == s && e1 == e0 && r == (EngineOutcome::Rejected { reason: Reject::IdsExhausted })
        } else {
            scenario_started(s, f, e0, e1, roster, top_id(s)) && r is Done
        },
    }
}



/// The number of cards a mulligan setting `aside` cards aside draws from a
/// deck of `deck` cards: as many as were set aside, as far as the deck goes.
pub open spec fn redraw_count(aside: nat, deck: nat) -> nat {
    if aside < deck {
        aside
    } else {
        deck
    }
}

/// The announcement of `n` cards drawn by `id` (none when `n` is 0).
pub open spec fn drawn_events(id: InvestigatorId, n: nat) -> Seq<Event> {
    if n > 0 {
        seq![Event::CardsDrawn { investigator: id, count: if n > 255 { 255u8 } else { n as u8 } }]
    } else {
        Seq::empty()
    }
}

/// What the mulligan of the investigator at `k` redrawing the cards at
/// `idx` does: those cards are set aside, as many cards are drawn from the
/// top of their deck (as far as it goes), and the set-aside cards are
/// shuffled back into the deck. Redrawing nothing changes nothing.
pub open spec fn mulliganed(s: GameState, f: GameState, e0: Seq<Event>, e1: Seq<Event>, k: int, idx: Seq<u32>) -> bool {
    let inv = s.investigators@[k];
    let aside = picked(inv.hand@, idx);
    let n = redraw_count(aside.len(), inv.deck@.len());
    let back = inv.deck@.skip(n as int) + aside;
    let (deck, rng) = if aside.len() > 0 {
        shuffled(back, s.rng)
    } else {
        (back, s.rng)
    };
    &&& f == (GameState { investigators: f.investigators, rng: f.rng, ..s })
    &&& f.rng == rng
    &&& f.investigators@ == s.investigators@.update(
        k,
        Investigator { hand: f.investigators@[k].hand, deck: f.investigators@[k].deck, ..inv },
    )
    &&& f.investigators@[k].hand@ == unpicked(inv.hand@, idx) + inv.deck@.take(n as int)
    &&& f.investigators@[k].deck@ == deck
    &&& e1 == e0 + drawn_events(inv.id, n) + if aside.len() > 0 && back.len() >= 2 {
        seq![Event::DeckShuffled { investigator: inv.id }]
    } else {
        Seq::<Event>::empty()
    }
}

/// Redraw the cards at `indices` (valid, distinct positions) of the hand of
/// the investigator at `k`.
fn redraw_hand(state: &mut GameState, events: &mut Vec<Event>, k: usize, indices: &Vec<u32>)
    requires
        old(state).wf(),
        k < old(state).investigators@.len(),
    ensures
        final(state).wf(),
        mulliganed(*old(state), *final(state), old(events)@, final(events)@, k as int, indices@),
{
    let ghost s0 = *state;
    let ghost e0 = events@;
    let mut inv = state.investigators.remove(k);
    let ghost inv0 = inv;
    let id = inv.id;
    let (gone, kept) = split_hand(&inv.hand, indices);
    let a = gone.len();
    let n = if a < inv.deck.len() {
        a
    } else {
        inv.deck.len()
    };
    let ghost d = inv.deck@;
    let mut hand = kept;
    let ghost kept0 = hand@;
    let mut j: usize = 0;
    while j < n
        invariant
            j <= n,
            n <= d.len(),
            inv.deck@ == d.skip(j as int),
            hand@ == kept0 + d.take(j as int),
            inv == (Investigator { deck: inv.deck, hand: inv.hand, ..inv0 }),
        decreases n - j,
    {
        let top = inv.deck.remove(0);
        hand.push(top);
        proof {
            assert(inv.deck@ =~= d.skip(j + 1));
            assert(hand@ =~= kept0 + d.take(j + 1));
        }
        j += 1;
    }
    inv.hand = hand;
    if n > 0 {
        let count: u8 = if n > 255 {
            255
        } else {
            n as u8
        };
        events.push(Event::CardsDrawn { investigator: id, count });
    }
    let ghost e_drawn = events@;
    let mut gone = gone;
    let ghost aside = gone@;
    inv.deck.append(&mut gone);
    let ghost back = inv.deck@;
    if a > 0 {
        let len = inv.deck.len();
        shuffle_codes(&mut inv.deck, &mut state.rng);
        if len >= 2 {
            events.push(Event::DeckShuffled { investigator: id });
        }
    }
    state.investigators.insert(k, inv);
    proof {
        assert(back =~= d.skip(n as int) + aside);
        assert(e_drawn =~= e0 + drawn_events(id, n as nat));
        if a > 0 && back.len() >= 2 {
            assert(events@ =~= e0 + drawn_events(id, n as nat) + seq![Event::DeckShuffled { investigator: id }]);
        } else {
            assert(events@ =~= e0 + drawn_events(id, n as nat) + Seq::<Event>::empty());
        }
        assert(state.investigators@ =~= s0.investigators@.update(k as int, inv));
        assert forall|x: int, y: int|
            0 <= x < state.investigators@.len() && 0 <= y < state.investigators@.len() && x != y implies state.investigators@[x].id
            != state.investigators@[y].id by {
            assert(state.investigators@[x].id == s0.investigators@[x].id);
            assert(state.investigators@[y].id == s0.investigators@[y].id);
        }
    }
}

/// What the setup mulligan of `who` with `idx` does: refused, with nothing
/// changed, when no mulligan is due, when it is someone else's, when `who`
/// is not seated, or on a duplicate or out-of-hand index. Otherwise the
/// cards are redrawn (see [`mulliganed`]) and the cursor moves to the next
/// `Active` investigator in turn order; once nobody is left, setup ends and
/// the Investigation phase begins (step 2.1).
pub open spec fn mulligan_result(s: GameState, f: GameState, e0: Seq<Event>, e1: Seq<Event>, who: InvestigatorId, idx: Seq<u32>, r: EngineOutcome) -> bool {
    let unchanged = |why: Reject| f == s && e1 == e0 && r == (EngineOutcome::Rejected { reason: why });
    match s.mulligan_pending {
        None => unchanged(Reject::NoMulliganPending),
        Some(x) => if x != who {
            unchanged(Reject::OutOfOrder)
        } else if !has_investigator(s.investigators@, who) {
            unchanged(Reject::NotAnInvestigator)
        } else {
            let k = investigator_index(s.investigators@, who);
            match index_fault(idx, s.investigators@[k].hand@.len()) {
                Some(why) => unchanged(why),
                None => r is Done && exists|m: GameState, em: Seq<Event>|
                    {
                        &&& #[trigger] mulliganed(s, m, e0, em, k, idx)
                        &&& if next_active_after_of(m, who) is Some {
                            f == (GameState { mulligan_pending: next_active_after_of(m, who), ..m }) && e1 == em
                        } else {
                            investigation_begun(GameState { mulligan_pending: None, ..m }, f, em, e1)
                        }
                    },
            }
        },
    }
}

/// The setup mulligan of `who`, redrawing the cards of their opening hand
/// at `indices` (Rules Reference p.27); the last one ends setup and begins
/// the first Investigation phase.
pub fn mulligan(state: &mut GameState, events: &mut Vec<Event>, who: InvestigatorId, indices: &Vec<u32>) -> (r: EngineOutcome)
    requires
        old(state).wf(),
    ensures
        final(state).wf(),
        mulligan_result(*old(state), *final(state), old(events)@, final(events)@, who, indices@, r),
{
    match state.mulligan_pending {
        None => {
            return EngineOutcome::Rejected { reason: Reject::NoMulliganPending };
        },
        Some(x) => if x != who {
            return EngineOutcome::Rejected { reason: Reject::OutOfOrder };
        },
    }
    let Some(k) = state.find_investigator(who) else {
        return EngineOutcome::Rejected { reason: Reject::NotAnInvestigator };
    };
    if let Some(why) = check_indices(indices, state.investigators[k].hand.len()) {
        return EngineOutcome::Rejected { reason: why };
    }
    let ghost s0 = *state;
    let ghost e0 = events@;
    redraw_hand(state, events, k, indices);
    let ghost m = *state;
    let ghost em = events@;
    let next = next_active_investigator_after(state, who);
    state.mulligan_pending = next;
    if next.is_none() {
        begin_investigation_phase(state, events);
    }
    assert(mulliganed(s0, m, e0, em, k as int, indices@));
    EngineOutcome::Done
}

} // verus!
