//! Whether a card in hand may be played now (Rules Reference p.11 timing,
//! p.5 actions, p.22 costs), and the Fast plays open to the investigators.
use vstd::prelude::*;

use crate::cards::{
    effect_can_change_state, effect_changes_state, kind_type, metadata_of, Ability, CardMetadata,
    CardType, Trigger, TriggerKind,
};
use crate::outcome::Reject;
use crate::reactions::{cost_can_be_paid, cost_payable};
use crate::state::{
    has_investigator, investigator_ids_distinct, investigator_index, Continuation, GameState,
    InvestigatorId, Phase, Status,
};

verus! {

/// What a playable card is: its printed abilities, whether it is Fast, and
/// its type.
pub struct PlayCheck {
    pub abilities: Vec<Ability>,
    pub is_fast: bool,
    pub card_type: CardType,
}

/// One Fast card an investigator may play now, by its position in hand.
#[derive(Clone, Copy, Debug, PartialEq, Eq, Structural)]
pub struct FastPlay {
    pub investigator: InvestigatorId,
    pub hand_index: u8,
}

/// Whether `a` is a reaction ability.
pub open spec fn is_reaction(a: Ability) -> bool {
    match a.trigger {
        Trigger::OnEvent { kind, .. } => kind == TriggerKind::Reaction,
        _ => false,
    }
}

/// Whether some ability of `abs` is a reaction (a reaction event's play
/// instruction).
pub open spec fn has_reaction(abs: Seq<Ability>) -> bool {
    exists|i: int| 0 <= i < abs.len() && is_reaction(#[trigger] abs[i])
}

/// Whether some play effect of `abs` can change the game state.
pub open spec fn play_changes_state(abs: Seq<Ability>) -> bool {
    exists|i: int| 0 <= i < abs.len() && (#[trigger] abs[i]).trigger is OnPlay && effect_changes_state(abs[i].effect)
}

/// Whether the top frame is a window in which any investigator may act at
/// Fast speed.
pub open spec fn permissive_window(s: GameState) -> bool {
    s.continuations@.len() > 0 && (s.continuations@.last() is FastWindow || s.continuations@.last() is ReactionWindow)
}

/// Whether a card of type `t` (Fast or not, restricted to its owner's turn
/// or not) may be played by `id` now: outside a Fast window only on `id`'s
/// own Investigation turn; a Fast event in any Fast window; a Fast asset in
/// one only while its owner is the active investigator.
pub open spec fn timing_allows(s: GameState, id: InvestigatorId, fast: bool, t: CardType, only_turn: bool) -> bool {
    let own_turn = s.phase == Phase::Investigation && s.active_investigator == Some(id);
    let owner_active = s.active_investigator == Some(id);
    if !fast || only_turn {
        own_turn
    } else if t == CardType::Event {
        own_turn || permissive_window(s)
    } else {
        own_turn || (owner_active && permissive_window(s))
    }
}

/// The card at `hand_index` in `id`'s hand (meaningful when it exists).
pub open spec fn card_at(s: GameState, id: InvestigatorId, hand_index: u8) -> Seq<char> {
    s.investigators@[investigator_index(s.investigators@, id)].hand@[hand_index as int]@
}

/// Why `id` may not play the card at `hand_index` now, if they may not.
pub open spec fn play_fault(s: GameState, id: InvestigatorId, hand_index: u8) -> Option<Reject> {
    let invs = s.investigators@;
    if !has_investigator(invs, id) {
        Some(Reject::InvestigatorNotInState)
    } else {
        let inv = invs[investigator_index(invs, id)];
        if inv.status != Status::Active {
            Some(Reject::NotActive)
        } else if hand_index >= inv.hand@.len() {
            Some(Reject::HandIndexOutOfBounds)
        } else {
            match s.registry {
                None => Some(Reject::NoRegistry),
                Some(reg) => match metadata_of(reg, inv.hand@[hand_index as int]@) {
                    None => Some(Reject::UnknownCard),
                    Some(m) => {
                        let t = kind_type(m.kind);
                        if t != CardType::Asset && t != CardType::Event {
                            Some(Reject::NotPlayableFromHand)
                        } else if t == CardType::Event && has_reaction(m.abilities@) {
                            Some(Reject::ReactionEventOnly)
                        } else if t == CardType::Event && !play_changes_state(m.abilities@) {
                            Some(Reject::NoStateChange)
                        } else if !timing_allows(s, id, m.fast, t, m.only_during_turn) {
                            Some(Reject::NotPlayableNow)
                        } else if !m.fast && inv.actions_remaining < 1 {
                            Some(Reject::NoActionLeft)
                        } else if !cost_payable(s, id, inv.hand@[hand_index as int]@) {
                            Some(Reject::CannotAfford)
                        } else {
                            None
                        }
                    },
                },
            }
        }
    }
}

/// The printed data of the card at `hand_index` in `id`'s hand.
pub open spec fn card_data(s: GameState, id: InvestigatorId, hand_index: u8) -> CardMetadata {
    metadata_of(s.registry.unwrap(), card_at(s, id, hand_index)).unwrap()
}

/// Whether some ability of `abs` is a reaction.
fn any_reaction(abs: &Vec<Ability>) -> (r: bool)
    ensures
        r == has_reaction(abs@),
{
    let mut i: usize = 0;
    while i < abs.len()
        invariant
            i <= abs@.len(),
            forall|j: int| 0 <= j < i ==> !is_reaction(#[trigger] abs@[j]),
        decreases abs@.len() - i,
    {
        if let Trigger::OnEvent { kind, .. } = &abs[i].trigger {
            if *kind == TriggerKind::Reaction {
                return true;
            }
        }
        i += 1;
    }
    false
}

/// Whether some play effect of `abs` can change the game state.
fn any_play_effect(abs: &Vec<Ability>) -> (r: bool)
    ensures
        r == play_changes_state(abs@),
{
    let mut i: usize = 0;
    while i < abs.len()
        invariant
            i <= abs@.len(),
            forall|j: int| 0 <= j < i ==> !((#[trigger] abs@[j]).trigger is OnPlay && effect_changes_state(abs@[j].effect)),
        decreases abs@.len() - i,
    {
        if matches!(abs[i].trigger, Trigger::OnPlay) && effect_can_change_state(&abs[i].effect) {
            return true;
        }
        i += 1;
    }
    false
}

/// Whether the top frame is a window admitting Fast play.
fn in_permissive_window(state: &GameState) -> (r: bool)
    ensures
        r == permissive_window(*state),
{
    let n = state.continuations.len();
    if n == 0 {
        return false;
    }
    match &state.continuations[n - 1] {
        Continuation::FastWindow { .. } => true,
        Continuation::ReactionWindow { .. } => true,
        _ => false,
    }
}

/// Whether `id` may play, now, a card of type `t` with the given Fast and
/// "only during your turn" printing.
fn timing_permits(state: &GameState, id: InvestigatorId, fast: bool, t: CardType, only_turn: bool) -> (r: bool)
    ensures
        r == timing_allows(*state, id, fast, t, only_turn),
{
    let own_turn = matches!(state.phase, Phase::Investigation) && state.active_investigator == Some(id);
    let owner_active = state.active_investigator == Some(id);
    if !fast || only_turn {
        own_turn
    } else if t == CardType::Event {
        own_turn || in_permissive_window(state)
    } else {
        own_turn || (owner_active && in_permissive_window(state))
    }
}

/// Whether `id` may play the card at `hand_index` of their hand now: they
/// are seated and `Active`, the card exists and is an asset or an event (not
/// a reaction event, which is played only in its reaction window, and not
/// an event whose effect cannot change the game state), its timing allows
/// it, a non-Fast play has an action to spend, and its cost can be paid.
/// The first check that fails is the answer.
pub fn check_play_card(state: &GameState, id: InvestigatorId, hand_index: u8) -> (r: Result<PlayCheck, Reject>)
    requires
        investigator_ids_distinct(state.investigators@),
    ensures
        match r {
            Ok(p) => {
                &&& play_fault(*state, id, hand_index) is None
                &&& p.abilities@ == card_data(*state, id, hand_index).abilities@
                &&& p.is_fast == card_data(*state, id, hand_index).fast
                &&& p.card_type == kind_type(card_data(*state, id, hand_index).kind)
            },
            Err(why) => play_fault(*state, id, hand_index) == Some(why),
        },
{
    let Some(k) = state.find_investigator(id) else {
        return Err(Reject::InvestigatorNotInState);
    };
    let inv = &state.investigators[k];
    if !matches!(inv.status, Status::Active) {
        return Err(Reject::NotActive);
    }
    let idx = hand_index as usize;
    if idx >= inv.hand.len() {
        return Err(Reject::HandIndexOutOfBounds);
    }
    let code = &inv.hand[idx];
    let Some(reg) = &state.registry else {
        return Err(Reject::NoRegistry);
    };
    let Some(m) = reg.metadata_for(code.as_str()) else {
        return Err(Reject::UnknownCard);
    };
    let t = m.card_type();
    if t != CardType::Asset && t != CardType::Event {
        return Err(Reject::NotPlayableFromHand);
    }
    if t == CardType::Event && any_reaction(&m.abilities) {
        return Err(Reject::ReactionEventOnly);
    }
    if t == CardType::Event && !any_play_effect(&m.abilities) {
        return Err(Reject::NoStateChange);
    }
    if !timing_permits(state, id, m.fast, t, m.only_during_turn) {
        return Err(Reject::NotPlayableNow);
    }
    if !m.fast && inv.actions_remaining < 1 {
        return Err(Reject::NoActionLeft);
    }
    if !cost_can_be_paid(state, id, code) {
        return Err(Reject::CannotAfford);
    }
    Ok(PlayCheck { abilities: crate::cards::copy_abilities(&m.abilities), is_fast: m.fast, card_type: t })
}

/// Whether the card at `hand_index` of `id`'s hand is a Fast card `id` may
/// play now.
pub open spec fn fast_playable(s: GameState, id: InvestigatorId, hand_index: u8) -> bool {
    play_fault(s, id, hand_index) is None && card_data(s, id, hand_index).fast
}

/// The Fast plays among the first `n` cards of the hand of `id`.
pub open spec fn hand_fast_plays(s: GameState, id: InvestigatorId, n: int) -> Seq<FastPlay>
    decreases n,
{
    if n <= 0 {
        Seq::empty()
    } else {
        let prev = hand_fast_plays(s, id, n - 1);
        if fast_playable(s, id, (n - 1) as u8) {
            prev.push(FastPlay { investigator: id, hand_index: (n - 1) as u8 })
        } else {
            prev
        }
    }
}

/// How many cards of a hand of `len` are addressable by a `u8` index.
pub open spec fn addressable(len: nat) -> int {
    if len > 256 {
        256
    } else {
        len as int
    }
}

/// The Fast plays open to the first `n` seated investigators, in seating
/// order, each by hand position.
pub open spec fn fast_plays_upto(s: GameState, n: int) -> Seq<FastPlay>
    decreases n,
{
    if n <= 0 {
        Seq::empty()
    } else {
        let inv = s.investigators@[n - 1];
        fast_plays_upto(s, n - 1) + hand_fast_plays(s, inv.id, addressable(inv.hand@.len()))
    }
}

/// Every Fast card in hand that its holder may play now, investigator by
/// investigator in seating order and by hand position. Activated abilities
/// are not offered here.
pub fn enumerate_fast_plays(state: &GameState) -> (r: Vec<FastPlay>)
    requires
        investigator_ids_distinct(state.investigators@),
    ensures
        r@ == fast_plays_upto(*state, state.investigators@.len() as int),
{
    let mut out: Vec<FastPlay> = Vec::new();
    let mut i: usize = 0;
    while i < state.investigators.len()
        invariant
            i <= state.investigators@.len(),
            investigator_ids_distinct(state.investigators@),
            out@ == fast_plays_upto(*state, i as int),
        decreases state.investigators@.len() - i,
    {
        let id = state.investigators[i].id;
        let n = state.investigators[i].hand.len();
        let limit: usize = if n > 256 {
            256
        } else {
            n
        };
        let ghost before = out@;
        let mut h: usize = 0;
        while h < limit
            invariant
                i < state.investigators@.len(),
                id == state.investigators@[i as int].id,
                limit == addressable(state.investigators@[i as int].hand@.len()),
                h <= limit,
                limit <= 256,
                investigator_ids_distinct(state.investigators@),
                out@ == before + hand_fast_plays(*state, id, h as int),
            decreases limit - h,
        {
            let fits = match check_play_card(state, id, h as u8) {
                Ok(p) => p.is_fast,
                Err(_) => false,
            };
            if fits {
                out.push(FastPlay { investigator: id, hand_index: h as u8 });
            }
            proof {
                assert(out@ =~= before + hand_fast_plays(*state, id, h + 1));
            }
            h += 1;
        }
        proof {
            assert(out@ =~= fast_plays_upto(*state, i + 1));
        }
        i += 1;
    }
    out
}

/// Whether anyone may play a Fast card now.
pub fn any_fast_play_eligible(state: &GameState) -> (r: bool)
    requires
        investigator_ids_distinct(state.investigators@),
    ensures
        r == (fast_plays_upto(*state, state.investigators@.len() as int).len() > 0),
{
    enumerate_fast_plays(state).len() > 0
}

} // verus!
