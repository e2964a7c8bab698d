//! Reaction windows: which optional triggered abilities and Fast reaction
//! events may answer a timing point (Rules Reference p.2: an ability is
//! initiated only if its effect can change the game state and its cost can
//! be paid), and the window the players answer them in.
use vstd::prelude::*;

use crate::cards::{
    abilities_of, effect_can_change_state, effect_changes_state, kind_type, metadata_of, Ability,
    CardRegistry, CardType, Effect, EventPattern, EventTiming, Trigger, TriggerKind,
};
use crate::cursor::{investigator_location, location_of};
use crate::emit::TimingEvent;
use crate::outcome::{EngineOutcome, Event, InputRequest, InputResponse, LapseReason, PromptKind, Reject};
use crate::forced_triggers::source_abilities;
use crate::queue::{effect_frame, current_act_code, current_act_of, current_agenda_code, current_agenda_of, build_resolution_options, run_options};
use crate::state::{
    has_enemy, has_investigator, has_location, investigator_ids_distinct, investigator_index, uses_in,
    uses_in_round,
    CandidateSource, CardCode, CardInPlay, CardInstanceId, Continuation, GameState, Investigator,
    InvestigatorId, ResolutionCandidate, UsageCounter,
};

verus! {

/// Whether a printed `pattern` of an ability controlled by `controller`
/// pairs with the timing point `e`. The pairing does not depend on the
/// timing cell; the scans filter on the cell.
pub open spec fn trigger_match(e: TimingEvent, p: EventPattern, controller: InvestigatorId) -> bool {
    match (e, p) {
        (TimingEvent::EnemyDefeated { by, .. }, EventPattern::EnemyDefeated { by_controller, .. }) => {
            by_controller ==> by == Some(controller)
        },
        (TimingEvent::EnemyAttacks { .. }, EventPattern::EnemyAttacks) => true,
        (TimingEvent::RoundEnded, EventPattern::RoundEnded) => true,
        (TimingEvent::EnemyAttackDamagedSelf { .. }, EventPattern::EnemyAttackDamagedSelf) => true,
        (
            TimingEvent::SkillTestResolved { investigator, kind, outcome },
            EventPattern::SkillTestResolved { kind: wanted_kind, outcome: wanted_outcome },
        ) => investigator == controller && outcome == wanted_outcome && match wanted_kind {
            Some(k) => k == kind,
            None => true,
        },
        (TimingEvent::WouldDiscoverClues { investigator, .. }, EventPattern::DiscoverClues) => investigator
            == controller,
        (TimingEvent::EnteredPlay { controller: owner, .. }, EventPattern::EnteredPlay) => owner == controller,
        _ => false,
    }
}

/// Whether `pattern`, on an ability controlled by `controller`, answers
/// the timing point `event`.
pub fn trigger_matches(event: &TimingEvent, pattern: &EventPattern, controller: InvestigatorId) -> (r:
    bool)
    ensures
        r == trigger_match(*event, *pattern, controller),
{
    match (event, pattern) {
        (TimingEvent::EnemyDefeated { by, .. }, EventPattern::EnemyDefeated { by_controller, .. }) => {
            !*by_controller || *by == Some(controller)
        },
        (TimingEvent::EnemyAttacks { .. }, EventPattern::EnemyAttacks) => true,
        (TimingEvent::RoundEnded, EventPattern::RoundEnded) => true,
        (TimingEvent::EnemyAttackDamagedSelf { .. }, EventPattern::EnemyAttackDamagedSelf) => true,
        (
            TimingEvent::SkillTestResolved { investigator, kind, outcome },
            EventPattern::SkillTestResolved { kind: wanted_kind, outcome: wanted_outcome },
        ) => *investigator == controller && *outcome == *wanted_outcome && match wanted_kind {
            Some(k) => *k == *kind,
            None => true,
        },
        (TimingEvent::WouldDiscoverClues { investigator, .. }, EventPattern::DiscoverClues) => *investigator
            == controller,
        (TimingEvent::EnteredPlay { controller: owner, .. }, EventPattern::EnteredPlay) => *owner == controller,
        _ => false,
    }
}

/// Whether `a` is a reaction of the cell `bucket` answering `e` for
/// `controller`.
pub open spec fn reaction_match(a: Ability, e: TimingEvent, bucket: EventTiming, controller: InvestigatorId) -> bool {
    match a.trigger {
        Trigger::OnEvent { pattern, timing, kind } => kind == TriggerKind::Reaction && timing == bucket
            && trigger_match(e, pattern, controller),
        _ => false,
    }
}

/// Whether `a` is a reaction of the cell `bucket` answering `e` for
/// `controller`.
fn is_reaction_to(a: &Ability, e: &TimingEvent, bucket: EventTiming, controller: InvestigatorId) -> (r: bool)
    ensures
        r == reaction_match(*a, *e, bucket, controller),
{
    match &a.trigger {
        Trigger::OnEvent { pattern, timing, kind } => *kind == TriggerKind::Reaction && *timing == bucket
            && trigger_matches(e, pattern, controller),
        _ => false,
    }
}

/// Whether the ability `a` at `address` of card instance `inst` may still
/// be initiated this round under its "limit N per round".
pub open spec fn usage_left(s: GameState, a: Ability, inst: CardInstanceId, address: int) -> bool {
    match a.usage_limit {
        Some(max) => uses_in_round(s.ability_usage@, inst, address, s.round) < max,
        None => true,
    }
}

/// The in-play reactions among the first `n` abilities of `abs` printed on
/// the card instance `card`.
pub open spec fn instance_reactions_upto(
    s: GameState,
    abs: Seq<Ability>,
    card: CardInPlay,
    controller: InvestigatorId,
    e: TimingEvent,
    bucket: EventTiming,
    n: int,
) -> Seq<ResolutionCandidate>
    decreases n,
{
    if n <= 0 {
        Seq::empty()
    } else {
        let prev = instance_reactions_upto(s, abs, card, controller, e, bucket, n - 1);
        let a = abs[n - 1];
        if reaction_match(a, e, bucket, controller) && usage_left(s, a, card.instance_id, n - 1)
            && effect_changes_state(a.effect) {
            prev.push(
                ResolutionCandidate {
                    code: card.code,
                    controller,
                    address: (n - 1) as usize,
                    source: CandidateSource::InPlay(card.instance_id),
                },
            )
        } else {
            prev
        }
    }
}

/// Whether the card instance `card` is the one `e` binds to: the soak and
/// entered-play conditions answer only for their own card.
pub open spec fn instance_bound(e: TimingEvent, card: CardInPlay) -> bool {
    match e {
        TimingEvent::EnemyAttackDamagedSelf { asset, .. } => card.instance_id == asset,
        TimingEvent::EnteredPlay { instance, .. } => card.instance_id == instance,
        _ => true,
    }
}

/// The in-play reactions the cards `cards` offer `controller`.
pub open spec fn cards_reactions(
    s: GameState,
    cards: Seq<CardInPlay>,
    controller: InvestigatorId,
    e: TimingEvent,
    bucket: EventTiming,
) -> Seq<ResolutionCandidate>
    decreases cards.len(),
{
    if cards.len() == 0 {
        Seq::empty()
    } else {
        let prev = cards_reactions(s, cards.drop_last(), controller, e, bucket);
        let card = cards.last();
        if instance_bound(e, card) {
            let abs = abilities_of(s.registry, card.code@);
            prev + instance_reactions_upto(s, abs, card, controller, e, bucket, abs.len() as int)
        } else {
            prev
        }
    }
}

/// Whether investigators `a` and `b` both stand at one location.
pub open spec fn same_location(invs: Seq<Investigator>, a: InvestigatorId, b: InvestigatorId) -> bool {
    location_of(invs, a) is Some && location_of(invs, a) == location_of(invs, b)
}

/// Whether `id` may answer `e` from where they stand: an attack is answered
/// from the attacked investigator's location, a clue discovery only by the
/// discoverer at the discovery location.
pub open spec fn in_scope(s: GameState, e: TimingEvent, id: InvestigatorId) -> bool {
    match e {
        TimingEvent::EnemyAttacks { investigator, .. } => same_location(s.investigators@, id, investigator),
        TimingEvent::WouldDiscoverClues { investigator, location, .. } => id == investigator && location_of(
            s.investigators@,
            id,
        ) == Some(location),
        _ => true,
    }
}

/// The in-play reactions the seated investigators of `order` offer, in
/// that order: each one's play area, then threat area.
pub open spec fn order_reactions(s: GameState, order: Seq<InvestigatorId>, e: TimingEvent, bucket: EventTiming) -> Seq<
    ResolutionCandidate,
>
    decreases order.len(),
{
    if order.len() == 0 {
        Seq::empty()
    } else {
        let prev = order_reactions(s, order.drop_last(), e, bucket);
        let id = order.last();
        if has_investigator(s.investigators@, id) && in_scope(s, e, id) {
            let inv = s.investigators@[investigator_index(s.investigators@, id)];
            prev + cards_reactions(s, inv.cards_in_play@, id, e, bucket) + cards_reactions(
                s,
                inv.threat_area@,
                id,
                e,
                bucket,
            )
        } else {
            prev
        }
    }
}

/// Whether an investigator is someone other than `a`.
pub open spec fn other_than(a: InvestigatorId) -> spec_fn(InvestigatorId) -> bool {
    |id: InvestigatorId| id != a
}

/// The order investigators answer a window in: the active investigator
/// first, then the rest of the turn order.
pub open spec fn window_order(s: GameState) -> Seq<InvestigatorId> {
    match s.active_investigator {
        Some(a) => seq![a] + s.turn_order@.filter(other_than(a)),
        None => s.turn_order@,
    }
}

/// The reactions among the first `n` abilities of `abs` printed on the
/// board card `code`, controlled by `lead`.
pub open spec fn board_reactions_upto(
    abs: Seq<Ability>,
    code: CardCode,
    lead: InvestigatorId,
    e: TimingEvent,
    bucket: EventTiming,
    n: int,
) -> Seq<ResolutionCandidate>
    decreases n,
{
    if n <= 0 {
        Seq::empty()
    } else {
        let prev = board_reactions_upto(abs, code, lead, e, bucket, n - 1);
        let a = abs[n - 1];
        if reaction_match(a, e, bucket, lead) && effect_changes_state(a.effect) {
            prev.push(
                ResolutionCandidate { code, controller: lead, address: (n - 1) as usize, source: CandidateSource::Board },
            )
        } else {
            prev
        }
    }
}

/// The reactions the board card `code` offers, controlled by `lead`.
pub open spec fn board_card_reactions(
    reg: Option<CardRegistry>,
    code: CardCode,
    lead: InvestigatorId,
    e: TimingEvent,
    bucket: EventTiming,
) -> Seq<ResolutionCandidate> {
    let abs = abilities_of(reg, code@);
    board_reactions_upto(abs, code, lead, e, bucket, abs.len() as int)
}

/// The reactions the current act and then the current agenda offer,
/// controlled by the lead investigator; none without a turn order.
pub open spec fn board_reactions(s: GameState, e: TimingEvent, bucket: EventTiming) -> Seq<ResolutionCandidate> {
    if s.turn_order@.len() == 0 {
        Seq::empty()
    } else {
        let lead = s.turn_order@[0];
        let act = if s.act_index < s.act_deck@.len() {
            board_card_reactions(s.registry, s.act_deck@[s.act_index as int].code, lead, e, bucket)
        } else {
            Seq::empty()
        };
        let agenda = if s.agenda_index < s.agenda_deck@.len() {
            board_card_reactions(s.registry, s.agenda_deck@[s.agenda_index as int].code, lead, e, bucket)
        } else {
            Seq::empty()
        };
        act + agenda
    }
}

/// The resources the investigator with `id` holds (none when unseated).
pub open spec fn resources_of(invs: Seq<Investigator>, id: InvestigatorId) -> u8 {
    if has_investigator(invs, id) {
        invs[investigator_index(invs, id)].resources
    } else {
        0
    }
}

/// Whether `id` can pay the printed resource cost of `code` (a card
/// without a fixed cost cannot be paid for; with no card data there is
/// nothing to pay).
pub open spec fn cost_payable(s: GameState, id: InvestigatorId, code: Seq<char>) -> bool {
    match s.registry {
        Some(reg) => match metadata_of(reg, code) {
            Some(m) => match m.cost {
                Some(c) => resources_of(s.investigators@, id) >= c,
                None => false,
            },
            None => true,
        },
        None => true,
    }
}

/// The first of the first `n` abilities of `abs` through which the Fast
/// event `code` in `id`'s hand answers `e`, if any.
pub open spec fn first_hand_reaction(
    s: GameState,
    abs: Seq<Ability>,
    id: InvestigatorId,
    e: TimingEvent,
    bucket: EventTiming,
    n: int,
) -> Option<int>
    decreases n,
{
    if n <= 0 {
        None
    } else {
        match first_hand_reaction(s, abs, id, e, bucket, n - 1) {
            Some(k) => Some(k),
            None => if reaction_match(abs[n - 1], e, bucket, id) && effect_changes_state(abs[n - 1].effect) {
                Some(n - 1)
            } else {
                None
            },
        }
    }
}

/// The play the card `code` in `id`'s hand offers in answer to `e`: a
/// Fast event with a matching reaction whose cost `id` can pay.
pub open spec fn hand_play(s: GameState, id: InvestigatorId, code: CardCode, e: TimingEvent, bucket: EventTiming) -> Option<
    ResolutionCandidate,
> {
    match s.registry {
        Some(reg) => match metadata_of(reg, code@) {
            Some(m) => if m.fast && kind_type(m.kind) == CardType::Event && cost_payable(s, id, code@) {
                match first_hand_reaction(s, m.abilities@, id, e, bucket, m.abilities@.len() as int) {
                    Some(k) => Some(
                        ResolutionCandidate { code, controller: id, address: k as usize, source: CandidateSource::Hand },
                    ),
                    None => None,
                }
            } else {
                None
            },
            None => None,
        },
        None => None,
    }
}

/// The plays the cards `hand` (held by `id`) offer, one per card at most.
pub open spec fn hand_reactions(
    s: GameState,
    hand: Seq<CardCode>,
    id: InvestigatorId,
    e: TimingEvent,
    bucket: EventTiming,
) -> Seq<ResolutionCandidate>
    decreases hand.len(),
{
    if hand.len() == 0 {
        Seq::empty()
    } else {
        let prev = hand_reactions(s, hand.drop_last(), id, e, bucket);
        match hand_play(s, id, hand.last(), e, bucket) {
            Some(c) => prev.push(c),
            None => prev,
        }
    }
}

/// Whether `id`'s hand may answer `e`: an attack only from the attacked
/// investigator's location.
pub open spec fn hand_in_scope(s: GameState, e: TimingEvent, id: InvestigatorId) -> bool {
    match e {
        TimingEvent::EnemyAttacks { investigator, .. } => same_location(s.investigators@, id, investigator),
        _ => true,
    }
}

/// The hand plays the seated investigators of `order` offer, in that order.
pub open spec fn order_hand_reactions(s: GameState, order: Seq<InvestigatorId>, e: TimingEvent, bucket: EventTiming) -> Seq<
    ResolutionCandidate,
>
    decreases order.len(),
{
    if order.len() == 0 {
        Seq::empty()
    } else {
        let prev = order_hand_reactions(s, order.drop_last(), e, bucket);
        let id = order.last();
        if has_investigator(s.investigators@, id) && hand_in_scope(s, e, id) {
            prev + hand_reactions(
                s,
                s.investigators@[investigator_index(s.investigators@, id)].hand@,
                id,
                e,
                bucket,
            )
        } else {
            prev
        }
    }
}

/// Every option a reaction window at `e`'s cell `bucket` offers: in-play
/// reactions in window order, then the board's, then hand plays in window
/// order.
pub open spec fn reactions_at(s: GameState, e: TimingEvent, bucket: EventTiming) -> Seq<ResolutionCandidate> {
    order_reactions(s, window_order(s), e, bucket) + board_reactions(s, e, bucket) + order_hand_reactions(
        s,
        window_order(s),
        e,
        bucket,
    )
}

/// Append the in-play reactions the abilities `abs` of `card` offer.
fn push_instance_reactions(
    state: &GameState,
    abs: &Vec<Ability>,
    card: &CardInPlay,
    controller: InvestigatorId,
    e: &TimingEvent,
    bucket: EventTiming,
    out: &mut Vec<ResolutionCandidate>,
)
    ensures
        final(out)@ == old(out)@ + instance_reactions_upto(
            *state,
            abs@,
            *card,
            controller,
            *e,
            bucket,
            abs@.len() as int,
        ),
{
    let ghost start = out@;
    let mut k: usize = 0;
    while k < abs.len()
        invariant
            k <= abs@.len(),
            out@ == start + instance_reactions_upto(*state, abs@, *card, controller, *e, bucket, k as int),
        decreases abs@.len() - k,
    {
        let a = &abs[k];
        let mut fits = is_reaction_to(a, e, bucket, controller);
        if fits {
            match a.usage_limit {
                Some(max) => {
                    fits = uses_in(&state.ability_usage, card.instance_id, k, state.round) < max;
                },
                None => {},
            }
        }
        if fits {
            fits = effect_can_change_state(&a.effect);
        }
        if fits {
            out.push(
                ResolutionCandidate {
                    code: card.code.clone(),
                    controller,
                    address: k,
                    source: CandidateSource::InPlay(card.instance_id),
                },
            );
        }
        proof {
            assert(out@ =~= start + instance_reactions_upto(*state, abs@, *card, controller, *e, bucket, k + 1));
        }
        k += 1;
    }
}

/// Whether `card` is the instance `e` binds to.
fn bound_to(e: &TimingEvent, card: &CardInPlay) -> (r: bool)
    ensures
        r == instance_bound(*e, *card),
{
    match e {
        TimingEvent::EnemyAttackDamagedSelf { asset, .. } => card.instance_id == *asset,
        TimingEvent::EnteredPlay { instance, .. } => card.instance_id == *instance,
        _ => true,
    }
}

/// Append the in-play reactions the cards `cards` offer `controller`.
#[verifier::spinoff_prover]
fn push_cards_reactions(
    state: &GameState,
    cards: &Vec<CardInPlay>,
    controller: InvestigatorId,
    e: &TimingEvent,
    bucket: EventTiming,
    out: &mut Vec<ResolutionCandidate>,
)
    ensures
        final(out)@ == old(out)@ + cards_reactions(*state, cards@, controller, *e, bucket),
{
    let ghost start = out@;
    let mut c: usize = 0;
    while c < cards.len()
        invariant
            c <= cards@.len(),
            out@ == start + cards_reactions(*state, cards@.take(c as int), controller, *e, bucket),
        decreases cards@.len() - c,
    {
        proof {
            assert(cards@.take(c + 1).drop_last() =~= cards@.take(c as int));
            assert(cards@.take(c + 1).last() == cards@[c as int]);
        }
        let card = &cards[c];
        if bound_to(e, card) {
            match &state.registry {
                Some(reg) => match reg.metadata_for(card.code.as_str()) {
                    Some(m) => {
                        push_instance_reactions(state, &m.abilities, card, controller, e, bucket, out);
                        proof {
                            assert(out@ =~= start + cards_reactions(*state, cards@.take(c + 1), controller, *e, bucket));
                        }
                    },
                    None => {
                        proof {
                            assert(instance_reactions_upto(*state, Seq::<Ability>::empty(), *card, controller, *e, bucket, 0)
                                =~= Seq::<ResolutionCandidate>::empty());
                            assert(out@ =~= start + cards_reactions(*state, cards@.take(c + 1), controller, *e, bucket));
                        }
                    },
                },
                None => {
                    proof {
                        assert(out@ =~= start + cards_reactions(*state, cards@.take(c + 1), controller, *e, bucket));
                    }
                },
            }
        }
        c += 1;
    }
    proof {
        assert(cards@.take(cards@.len() as int) =~= cards@);
    }
}

/// Whether investigators `a` and `b` both stand at one location.
fn share_location(state: &GameState, a: InvestigatorId, b: InvestigatorId) -> (r: bool)
    requires
        investigator_ids_distinct(state.investigators@),
    ensures
        r == same_location(state.investigators@, a, b),
{
    match investigator_location(state, a) {
        Some(la) => investigator_location(state, b) == Some(la),
        None => false,
    }
}

/// Whether `id` may answer `e` from where they stand.
fn answers_from_scope(state: &GameState, e: &TimingEvent, id: InvestigatorId) -> (r: bool)
    requires
        investigator_ids_distinct(state.investigators@),
    ensures
        r == in_scope(*state, *e, id),
{
    match e {
        TimingEvent::EnemyAttacks { investigator, .. } => share_location(state, id, *investigator),
        TimingEvent::WouldDiscoverClues { investigator, location, .. } => id == *investigator
            && investigator_location(state, id) == Some(*location),
        _ => true,
    }
}

/// The investigators in window order: the active investigator first, then
/// the rest of the turn order.
pub fn window_order_of(state: &GameState) -> (r: Vec<InvestigatorId>)
    ensures
        r@ == window_order(*state),
{
    let mut order: Vec<InvestigatorId> = Vec::new();
    match state.active_investigator {
        Some(a) => {
            order.push(a);
            let mut i: usize = 0;
            while i < state.turn_order.len()
                invariant
                    i <= state.turn_order@.len(),
                    order@ == seq![a] + state.turn_order@.take(i as int).filter(other_than(a)),
                decreases state.turn_order@.len() - i,
            {
                proof {
                    crate::seqs::lemma_filter_step(state.turn_order@, other_than(a), i as int);
                }
                let ghost before = order@;
                let t = state.turn_order[i];
                if t != a {
                    order.push(t);
                    proof {
                        assert(other_than(a)(t));
                        assert(order@ =~= before.push(t));
                    }
                } else {
                    proof {
                        assert(!other_than(a)(t));
                    }
                }
                proof {
                    assert(order@ =~= seq![a] + state.turn_order@.take(i + 1).filter(other_than(a)));
                }
                i += 1;
            }
            proof {
                crate::seqs::lemma_take_full(state.turn_order@);
            }
        },
        None => {
            let mut i: usize = 0;
            while i < state.turn_order.len()
                invariant
                    i <= state.turn_order@.len(),
                    order@ == state.turn_order@.take(i as int),
                decreases state.turn_order@.len() - i,
            {
                order.push(state.turn_order[i]);
                proof {
                    assert(order@ =~= state.turn_order@.take(i + 1));
                }
                i += 1;
            }
            proof {
                crate::seqs::lemma_take_full(state.turn_order@);
            }
        },
    }
    order
}

/// Append the in-play reactions the seated investigators of `order` offer.
#[verifier::spinoff_prover]
fn push_order_reactions(
    state: &GameState,
    order: &Vec<InvestigatorId>,
    e: &TimingEvent,
    bucket: EventTiming,
    out: &mut Vec<ResolutionCandidate>,
)
    requires
        investigator_ids_distinct(state.investigators@),
    ensures
        final(out)@ == old(out)@ + order_reactions(*state, order@, *e, bucket),
{
    let ghost start = out@;
    let mut i: usize = 0;
    while i < order.len()
        invariant
            i <= order@.len(),
            investigator_ids_distinct(state.investigators@),
            out@ == start + order_reactions(*state, order@.take(i as int), *e, bucket),
        decreases order@.len() - i,
    {
        proof {
            assert(order@.take(i + 1).drop_last() =~= order@.take(i as int));
            assert(order@.take(i + 1).last() == order@[i as int]);
        }
        let id = order[i];
        match state.find_investigator(id) {
            Some(k) => {
                if answers_from_scope(state, e, id) {
                    let ghost mid0 = out@;
                    push_cards_reactions(state, &state.investigators[k].cards_in_play, id, e, bucket, out);
                    push_cards_reactions(state, &state.investigators[k].threat_area, id, e, bucket, out);
                    proof {
                        assert(out@ =~= start + order_reactions(*state, order@.take(i + 1), *e, bucket));
                    }
                }
            },
            None => {},
        }
        i += 1;
    }
    proof {
        assert(order@.take(order@.len() as int) =~= order@);
    }
}

/// Append the reactions the abilities `abs` of the board card `code` offer,
/// controlled by `lead`.
fn push_board_reactions(
    abs: &Vec<Ability>,
    code: &CardCode,
    lead: InvestigatorId,
    e: &TimingEvent,
    bucket: EventTiming,
    out: &mut Vec<ResolutionCandidate>,
)
    ensures
        final(out)@ == old(out)@ + board_reactions_upto(abs@, *code, lead, *e, bucket, abs@.len() as int),
{
    let ghost start = out@;
    let mut k: usize = 0;
    while k < abs.len()
        invariant
            k <= abs@.len(),
            out@ == start + board_reactions_upto(abs@, *code, lead, *e, bucket, k as int),
        decreases abs@.len() - k,
    {
        if is_reaction_to(&abs[k], e, bucket, lead) && effect_can_change_state(&abs[k].effect) {
            out.push(ResolutionCandidate { code: code.clone(), controller: lead, address: k, source: CandidateSource::Board });
        }
        proof {
            assert(out@ =~= start + board_reactions_upto(abs@, *code, lead, *e, bucket, k + 1));
        }
        k += 1;
    }
}

/// Append the reactions the board card `code` offers, controlled by `lead`.
fn push_board_card_reactions(
    reg: &Option<CardRegistry>,
    code: &CardCode,
    lead: InvestigatorId,
    e: &TimingEvent,
    bucket: EventTiming,
    out: &mut Vec<ResolutionCandidate>,
)
    ensures
        final(out)@ == old(out)@ + board_card_reactions(*reg, *code, lead, *e, bucket),
{
    match reg {
        Some(g) => match g.metadata_for(code.as_str()) {
            Some(m) => push_board_reactions(&m.abilities, code, lead, e, bucket, out),
            None => {
                proof {
                    assert(out@ =~= old(out)@ + board_card_reactions(*reg, *code, lead, *e, bucket));
                }
            },
        },
        None => {
            proof {
                assert(out@ =~= old(out)@ + board_card_reactions(*reg, *code, lead, *e, bucket));
            }
        },
    }
}

/// The reactions the current act and agenda offer at `e`'s cell `bucket`,
/// controlled by the lead investigator.
pub fn scan_act_agenda_reactions(state: &GameState, e: &TimingEvent, bucket: EventTiming) -> (r: Vec<
    ResolutionCandidate,
>)
    ensures
        r@ == board_reactions(*state, *e, bucket),
{
    let mut hits: Vec<ResolutionCandidate> = Vec::new();
    if state.turn_order.len() == 0 {
        return hits;
    }
    let lead = state.turn_order[0];
    if state.act_index < state.act_deck.len() {
        push_board_card_reactions(&state.registry, &state.act_deck[state.act_index].code, lead, e, bucket, &mut hits);
    }
    let ghost after_act = hits@;
    if state.agenda_index < state.agenda_deck.len() {
        push_board_card_reactions(
            &state.registry,
            &state.agenda_deck[state.agenda_index].code,
            lead,
            e,
            bucket,
            &mut hits,
        );
    }
    proof {
        assert(hits@ =~= board_reactions(*state, *e, bucket));
    }
    hits
}

/// Every in-play and board reaction that answers `e` in the cell `bucket`,
/// in resolution order: the in-play ones in window order, then the board's.
pub fn scan_pending_triggers(state: &GameState, e: &TimingEvent, bucket: EventTiming) -> (r: Vec<
    ResolutionCandidate,
>)
    requires
        investigator_ids_distinct(state.investigators@),
    ensures
        r@ == order_reactions(*state, window_order(*state), *e, bucket) + board_reactions(*state, *e, bucket),
{
    let order = window_order_of(state);
    let mut pending: Vec<ResolutionCandidate> = Vec::new();
    push_order_reactions(state, &order, e, bucket, &mut pending);
    let mut board = scan_act_agenda_reactions(state, e, bucket);
    pending.append(&mut board);
    proof {
        assert(pending@ =~= order_reactions(*state, window_order(*state), *e, bucket) + board_reactions(*state, *e, bucket));
    }
    pending
}

/// The resources the investigator with `id` holds (none when unseated).
fn resources_held(state: &GameState, id: InvestigatorId) -> (r: u8)
    requires
        investigator_ids_distinct(state.investigators@),
    ensures
        r == resources_of(state.investigators@, id),
{
    match state.find_investigator(id) {
        Some(k) => state.investigators[k].resources,
        None => 0,
    }
}

/// Whether `id` can pay the printed resource cost of `code`.
pub fn cost_can_be_paid(state: &GameState, id: InvestigatorId, code: &CardCode) -> (r: bool)
    requires
        investigator_ids_distinct(state.investigators@),
    ensures
        r == cost_payable(*state, id, code@),
{
    match &state.registry {
        Some(reg) => match reg.metadata_for(code.as_str()) {
            Some(m) => match m.cost {
                Some(c) => resources_held(state, id) >= c,
                None => false,
            },
            None => true,
        },
        None => true,
    }
}

/// The first ability of `abs` through which a Fast event in `id`'s hand
/// answers `e`, if any.
fn first_hand_reaction_of(
    state: &GameState,
    abs: &Vec<Ability>,
    id: InvestigatorId,
    e: &TimingEvent,
    bucket: EventTiming,
) -> (r: Option<usize>)
    ensures
        match first_hand_reaction(*state, abs@, id, *e, bucket, abs@.len() as int) {
            Some(k) => r == Some(k as usize),
            None => r is None,
        },
{
    let mut k: usize = 0;
    while k < abs.len()
        invariant
            k <= abs@.len(),
            first_hand_reaction(*state, abs@, id, *e, bucket, k as int) is None,
        decreases abs@.len() - k,
    {
        if is_reaction_to(&abs[k], e, bucket, id) && effect_can_change_state(&abs[k].effect) {
            proof {
                lemma_first_hand_reaction_stays(*state, abs@, id, *e, bucket, k as int + 1, abs@.len() as int);
            }
            return Some(k);
        }
        k += 1;
    }
    None
}

/// Once found among the first `n` abilities, the first hand reaction stays
/// the same among more of them.
proof fn lemma_first_hand_reaction_stays(
    s: GameState,
    abs: Seq<Ability>,
    id: InvestigatorId,
    e: TimingEvent,
    bucket: EventTiming,
    n: int,
    m: int,
)
    requires
        0 <= n <= m,
        first_hand_reaction(s, abs, id, e, bucket, n) is Some,
    ensures
        first_hand_reaction(s, abs, id, e, bucket, m) == first_hand_reaction(s, abs, id, e, bucket, n),
    decreases m - n,
{
    if m > n {
        lemma_first_hand_reaction_stays(s, abs, id, e, bucket, n, m - 1);
    }
}

/// The play the card `code` in `id`'s hand offers in answer to `e`.
fn hand_play_for(
    state: &GameState,
    id: InvestigatorId,
    code: &CardCode,
    e: &TimingEvent,
    bucket: EventTiming,
) -> (r: Option<ResolutionCandidate>)
    requires
        investigator_ids_distinct(state.investigators@),
    ensures
        r == hand_play(*state, id, *code, *e, bucket),
{
    let payable = cost_can_be_paid(state, id, code);
    match &state.registry {
        Some(reg) => match reg.metadata_for(code.as_str()) {
            Some(m) => {
                if m.fast && matches!(m.card_type(), CardType::Event) && payable {
                    match first_hand_reaction_of(state, &m.abilities, id, e, bucket) {
                        Some(k) => Some(
                            ResolutionCandidate { code: code.clone(), controller: id, address: k, source: CandidateSource::Hand },
                        ),
                        None => None,
                    }
                } else {
                    None
                }
            },
            None => None,
        },
        None => None,
    }
}

/// Append the plays the cards `hand` (held by `id`) offer.
fn push_hand_reactions(
    state: &GameState,
    hand: &Vec<CardCode>,
    id: InvestigatorId,
    e: &TimingEvent,
    bucket: EventTiming,
    out: &mut Vec<ResolutionCandidate>,
)
    requires
        investigator_ids_distinct(state.investigators@),
    ensures
        final(out)@ == old(out)@ + hand_reactions(*state, hand@, id, *e, bucket),
{
    let ghost start = out@;
    let mut i: usize = 0;
    while i < hand.len()
        invariant
            i <= hand@.len(),
            investigator_ids_distinct(state.investigators@),
            out@ == start + hand_reactions(*state, hand@.take(i as int), id, *e, bucket),
        decreases hand@.len() - i,
    {
        proof {
            assert(hand@.take(i + 1).drop_last() =~= hand@.take(i as int));
            assert(hand@.take(i + 1).last() == hand@[i as int]);
        }
        match hand_play_for(state, id, &hand[i], e, bucket) {
            Some(c) => out.push(c),
            None => {},
        }
        proof {
            assert(out@ =~= start + hand_reactions(*state, hand@.take(i + 1), id, *e, bucket));
        }
        i += 1;
    }
    proof {
        assert(hand@.take(hand@.len() as int) =~= hand@);
    }
}

/// Whether `id`'s hand may answer `e` from where they stand.
fn hand_answers_from_scope(state: &GameState, e: &TimingEvent, id: InvestigatorId) -> (r: bool)
    requires
        investigator_ids_distinct(state.investigators@),
    ensures
        r == hand_in_scope(*state, *e, id),
{
    match e {
        TimingEvent::EnemyAttacks { investigator, .. } => share_location(state, id, *investigator),
        _ => true,
    }
}

/// Every Fast reaction event in a window-eligible hand that answers `e` in
/// the cell `bucket`, one option per card, in window order.
#[verifier::spinoff_prover]
pub fn scan_hand_fast_events(state: &GameState, e: &TimingEvent, bucket: EventTiming) -> (r: Vec<
    ResolutionCandidate,
>)
    requires
        investigator_ids_distinct(state.investigators@),
    ensures
        r@ == order_hand_reactions(*state, window_order(*state), *e, bucket),
{
    let order = window_order_of(state);
    let mut plays: Vec<ResolutionCandidate> = Vec::new();
    let mut i: usize = 0;
    while i < order.len()
        invariant
            i <= order@.len(),
            order@ == window_order(*state),
            investigator_ids_distinct(state.investigators@),
            plays@ == order_hand_reactions(*state, order@.take(i as int), *e, bucket),
        decreases order@.len() - i,
    {
        proof {
            assert(order@.take(i + 1).drop_last() =~= order@.take(i as int));
            assert(order@.take(i + 1).last() == order@[i as int]);
        }
        let id = order[i];
        match state.find_investigator(id) {
            Some(k) => {
                if hand_answers_from_scope(state, e, id) {
                    push_hand_reactions(state, &state.investigators[k].hand, id, e, bucket, &mut plays);
                }
            },
            None => {},
        }
        proof {
            assert(plays@ =~= order_hand_reactions(*state, order@.take(i + 1), *e, bucket));
        }
        i += 1;
    }
    proof {
        assert(order@.take(order@.len() as int) =~= order@);
    }
    plays
}

/// Every option a reaction window at `e`'s cell `bucket` offers.
pub fn scan_reactions_at(state: &GameState, e: &TimingEvent, bucket: EventTiming) -> (r: Vec<
    ResolutionCandidate,
>)
    requires
        investigator_ids_distinct(state.investigators@),
    ensures
        r@ == reactions_at(*state, *e, bucket),
{
    let mut candidates = scan_pending_triggers(state, e, bucket);
    let mut hand = scan_hand_fast_events(state, e, bucket);
    candidates.append(&mut hand);
    candidates
}

/// Whether candidates `a` and `b` name the same option.
pub open spec fn same_option(a: ResolutionCandidate, b: ResolutionCandidate) -> bool {
    &&& a.code@ == b.code@
    &&& a.controller == b.controller
    &&& a.address == b.address
    &&& a.source == b.source
}

/// The position of the first option of `fresh` from `k` on naming the same
/// option as `c` (`fresh.len()` when there is none).
pub open spec fn find_from(fresh: Seq<ResolutionCandidate>, c: ResolutionCandidate, k: int) -> int
    decreases fresh.len() - k,
{
    if k < 0 || k >= fresh.len() {
        fresh.len() as int
    } else if same_option(fresh[k], c) {
        k
    } else {
        find_from(fresh, c, k + 1)
    }
}

/// The options of `stored` a fresh scan `fresh` still produces, in stored
/// order; each fresh option answers for one stored option.
pub open spec fn survivors(stored: Seq<ResolutionCandidate>, fresh: Seq<ResolutionCandidate>) -> Seq<
    ResolutionCandidate,
>
    decreases stored.len(),
{
    if stored.len() == 0 {
        Seq::empty()
    } else {
        let c = stored[0];
        let j = find_from(fresh, c, 0);
        if j < fresh.len() {
            seq![c] + survivors(stored.drop_first(), fresh.remove(j))
        } else {
            survivors(stored.drop_first(), fresh)
        }
    }
}

/// The options of `stored` a fresh scan `fresh` no longer produces.
pub open spec fn lapsed(stored: Seq<ResolutionCandidate>, fresh: Seq<ResolutionCandidate>) -> Seq<
    ResolutionCandidate,
>
    decreases stored.len(),
{
    if stored.len() == 0 {
        Seq::empty()
    } else {
        let c = stored[0];
        let j = find_from(fresh, c, 0);
        if j < fresh.len() {
            lapsed(stored.drop_first(), fresh.remove(j))
        } else {
            seq![c] + lapsed(stored.drop_first(), fresh)
        }
    }
}

/// Whether the card a candidate names is still where a scan finds it: a
/// hand play in its controller's hand, an in-play reaction among its
/// controller's cards, a board reaction as the current act or agenda, a
/// location's or an enemy's ability with the location or enemy in play.
pub open spec fn source_present(s: GameState, c: ResolutionCandidate) -> bool {
    let invs = s.investigators@;
    match c.source {
        CandidateSource::Hand => has_investigator(invs, c.controller) && exists|h: int|
            0 <= h < invs[investigator_index(invs, c.controller)].hand@.len() && (#[trigger] invs[investigator_index(
                invs,
                c.controller,
            )].hand@[h])@ == c.code@,
        CandidateSource::InPlay(inst) => has_investigator(invs, c.controller) && (holds_instance(
            invs[investigator_index(invs, c.controller)].cards_in_play@,
            inst,
        ) || holds_instance(invs[investigator_index(invs, c.controller)].threat_area@, inst)),
        CandidateSource::Board => current_act_of(s) == Some(c.code@) || current_agenda_of(s) == Some(c.code@),
        CandidateSource::Location(l) => has_location(s.locations@, l),
        CandidateSource::Enemy(e) => has_enemy(s.enemies@, e),
    }
}

/// Whether `cards` holds the instance `inst`.
pub open spec fn holds_instance(cards: Seq<CardInPlay>, inst: CardInstanceId) -> bool {
    exists|j: int| 0 <= j < cards.len() && (#[trigger] cards[j]).instance_id == inst
}

/// A likely reason the option `c` was withdrawn, probing the most specific
/// first: its card is gone, its cost cannot be paid, or its effect can (or
/// can no longer) change the game state.
pub open spec fn lapse_reason(s: GameState, c: ResolutionCandidate) -> LapseReason {
    let abs = source_abilities(s, c.source, c.code@);
    if !source_present(s, c) {
        LapseReason::SourceGone
    } else if c.source is Hand && !cost_payable(s, c.controller, c.code@) {
        LapseReason::CostUnpayable
    } else if c.address < abs.len() && effect_changes_state(abs[c.address as int].effect) {
        LapseReason::NoLongerEligible
    } else {
        LapseReason::NoStateChange
    }
}

/// The log entries announcing the withdrawn options `gone`.
pub open spec fn lapse_events(s: GameState, gone: Seq<ResolutionCandidate>) -> Seq<Event> {
    gone.map_values(
        |c: ResolutionCandidate|
            Event::ReactionOptionLapsed { investigator: c.controller, code: c.code, reason: lapse_reason(s, c) },
    )
}

/// Whether two candidates name the same option.
fn same_option_exec(a: &ResolutionCandidate, b: &ResolutionCandidate) -> (r: bool)
    ensures
        r == same_option(*a, *b),
{
    a.code == b.code && a.controller == b.controller && a.address == b.address && a.source == b.source
}

/// The position of the first option of `fresh` naming the same option as
/// `c` (`fresh.len()` when there is none).
fn find_option(fresh: &Vec<ResolutionCandidate>, c: &ResolutionCandidate) -> (r: usize)
    ensures
        r as int == find_from(fresh@, *c, 0),
{
    let mut k: usize = 0;
    while k < fresh.len()
        invariant
            k <= fresh@.len(),
            find_from(fresh@, *c, 0) == find_from(fresh@, *c, k as int),
        decreases fresh@.len() - k,
    {
        if same_option_exec(&fresh[k], c) {
            return k;
        }
        k += 1;
    }
    k
}

/// The options of `stored` a fresh scan still produces, and the log
/// entries for those it no longer does.
fn split_survivors(
    state: &GameState,
    stored: &Vec<ResolutionCandidate>,
    fresh: Vec<ResolutionCandidate>,
    events: &mut Vec<Event>,
) -> (r: Vec<ResolutionCandidate>)
    requires
        state.wf(),
    ensures
        r@ == survivors(stored@, fresh@),
        final(events)@ == old(events)@ + lapse_events(*state, lapsed(stored@, fresh@)),
{
    let ghost fresh0 = fresh@;
    let ghost e0 = events@;
    let mut fresh = fresh;
    let mut kept: Vec<ResolutionCandidate> = Vec::new();
    let mut i: usize = 0;
    proof {
        assert(stored@.skip(0) =~= stored@);
        assert(kept@ + survivors(stored@, fresh0) =~= survivors(stored@, fresh0));
        assert(events@ + lapse_events(*state, lapsed(stored@, fresh0)) =~= e0 + lapse_events(*state, lapsed(stored@, fresh0)));
    }
    while i < stored.len()
        invariant
            i <= stored@.len(),
            state.wf(),
            kept@ + survivors(stored@.skip(i as int), fresh@) == survivors(stored@, fresh0),
            events@ + lapse_events(*state, lapsed(stored@.skip(i as int), fresh@)) == e0 + lapse_events(*state, lapsed(stored@, fresh0),
            ),
        decreases stored@.len() - i,
    {
        let ghost rest = stored@.skip(i as int);
        proof {
            assert(rest[0] == stored@[i as int]);
            assert(rest.drop_first() =~= stored@.skip(i + 1));
        }
        let c = &stored[i];
        let j = find_option(&fresh, c);
        if j < fresh.len() {
            fresh.remove(j);
            kept.push(crate::queue::clone_candidate(c));
            proof {
                assert(kept@ + survivors(stored@.skip(i + 1), fresh@) =~= survivors(stored@, fresh0));
            }
        } else {
            let reason = lapse_reason_of(state, c);
            events.push(Event::ReactionOptionLapsed { investigator: c.controller, code: c.code.clone(), reason });
            proof {
                let g = lapsed(stored@.skip(i + 1), fresh@);
                assert(lapse_events(*state, seq![*c] + g) =~= seq![
                    Event::ReactionOptionLapsed { investigator: c.controller, code: c.code, reason }
                ] + lapse_events(*state, g));
                assert(events@ + lapse_events(*state, g) =~= e0 + lapse_events(*state, lapsed(stored@, fresh0)));
            }
        }
        i += 1;
    }
    proof {
        assert(stored@.skip(stored@.len() as int) =~= Seq::<ResolutionCandidate>::empty());
        assert(kept@ =~= survivors(stored@, fresh0));
        assert(events@ =~= e0 + lapse_events(*state, lapsed(stored@, fresh0)));
    }
    kept
}

/// What driving the reaction window on top of `s` does (to `f`, logging
/// from `e0` to `e1`): the options a fresh scan of its cell no longer
/// produces are withdrawn and announced; a window left empty closes (`None`,
/// the drive carries on); otherwise the players are prompted with the
/// remaining options.
pub open spec fn window_advanced(
    s: GameState,
    f: GameState,
    e0: Seq<Event>,
    e1: Seq<Event>,
    r: Option<EngineOutcome>,
) -> bool {
    match s.continuations@.last() {
        Continuation::ReactionWindow { event, bucket, candidates } => {
            let fresh = reactions_at(s, event, bucket);
            let kept = survivors(candidates@, fresh);
            &&& e1 == e0 + lapse_events(s, lapsed(candidates@, fresh))
            &&& f == (GameState { continuations: f.continuations, ..s })
            &&& if kept.len() == 0 {
                f.continuations@ == s.continuations@.drop_last() && r is None
            } else {
                &&& f.continuations@.len() == s.continuations@.len()
                &&& f.continuations@.drop_last() == s.continuations@.drop_last()
                &&& f.continuations@.last() matches Continuation::ReactionWindow { event: ev, bucket: b, candidates: c }
                    && ev == event && b == bucket && c@ == kept
                &&& if kept.len() <= u32::MAX {
                    r matches Some(EngineOutcome::AwaitingInput { request }) && request.kind == PromptKind::ReactionWindow
                        && request.target is None && request.options@ == run_options(
                        kept,
                        current_act_of(s),
                        current_agenda_of(s),
                    )
                } else {
                    r == Some(EngineOutcome::Rejected { reason: Reject::DriveLimit })
                }
            }
        },
        _ => true,
    }
}

/// Drive the reaction window on top of the stack: withdraw (and announce)
/// the options that can no longer be initiated, close the window when none
/// remain, and otherwise prompt for one of the rest or a skip.
pub fn advance_resolution(state: &mut GameState, events: &mut Vec<Event>) -> (r: Option<EngineOutcome>)
    requires
        old(state).wf(),
        old(state).continuations@.len() > 0,
        old(state).continuations@.last() is ReactionWindow,
    ensures
        final(state).wf(),
        window_advanced(*old(state), *final(state), old(events)@, final(events)@, r),
{
    let n = state.continuations.len();
    let kept = match &state.continuations[n - 1] {
        Continuation::ReactionWindow { event, bucket, candidates } => {
            let fresh = scan_reactions_at(state, event, *bucket);
            split_survivors(state, candidates, fresh, events)
        },
        _ => {
            return None;
        },
    };
    let ghost s0 = *state;
    if kept.len() == 0 {
        state.continuations.pop();
        return None;
    }
    let options = if kept.len() <= 0xFFFF_FFFF {
        Some(build_resolution_options(&kept, current_act_code(state), current_agenda_code(state)))
    } else {
        None
    };
    let frame = state.continuations.pop().unwrap();
    if let Continuation::ReactionWindow { event, bucket, .. } = frame {
        state.continuations.push(Continuation::ReactionWindow { event, bucket, candidates: kept });
    }
    proof {
        assert(state.continuations@.drop_last() =~= s0.continuations@.drop_last());
    }
    match options {
        Some(options) => Some(
            EngineOutcome::AwaitingInput {
                request: InputRequest { kind: PromptKind::ReactionWindow, options, target: None },
            },
        ),
        None => Some(EngineOutcome::Rejected { reason: Reject::DriveLimit }),
    }
}

/// The position of the first card of `hand` printed with `code`
/// (`hand.len()` when there is none).
pub open spec fn card_position(hand: Seq<CardCode>, code: Seq<char>, k: int) -> int
    decreases hand.len() - k,
{
    if k < 0 || k >= hand.len() {
        hand.len() as int
    } else if hand[k]@ == code {
        k
    } else {
        card_position(hand, code, k + 1)
    }
}

/// The printed cost and abilities of `code` in the installed corpus.
pub open spec fn printed_cost(s: GameState, code: Seq<char>) -> Option<u8> {
    match s.registry {
        Some(reg) => match metadata_of(reg, code) {
            Some(m) => m.cost,
            None => None,
        },
        None => None,
    }
}

/// Whether the hand candidate `c` can be played now: its controller is
/// seated, holds a copy of the card, and can pay its printed cost, and the
/// ability it names is printed on the card.
pub open spec fn hand_playable(s: GameState, c: ResolutionCandidate) -> bool {
    let invs = s.investigators@;
    &&& has_investigator(invs, c.controller)
    &&& card_position(invs[investigator_index(invs, c.controller)].hand@, c.code@, 0)
        < invs[investigator_index(invs, c.controller)].hand@.len()
    &&& printed_cost(s, c.code@) matches Some(cost) && invs[investigator_index(invs, c.controller)].resources
        >= cost
    &&& c.address < abilities_of(s.registry, c.code@).len()
}

/// The usage counters after the candidate `c` (sourced in play, with a
/// limited ability) is initiated.
pub open spec fn usage_after(s: GameState, c: ResolutionCandidate) -> Seq<UsageCounter> {
    let abs = abilities_of(s.registry, c.code@);
    match c.source {
        CandidateSource::InPlay(inst) => if c.address < abs.len() && abs[c.address as int].usage_limit is Some {
            let used = uses_in_round(s.ability_usage@, inst, c.address as int, s.round);
            s.ability_usage@.push(
                UsageCounter {
                    instance: inst,
                    address: c.address,
                    round: s.round,
                    count: if used < 255 {
                        (used + 1) as u8
                    } else {
                        255
                    },
                },
            )
        } else {
            s.ability_usage@
        },
        _ => s.ability_usage@,
    }
}

/// What firing the in-play or board option `c` leaves: the window holds
/// `rest`, and the ability's effect is queued above it (nothing, when the
/// address names no printed ability); a limited ability's use is counted.
pub open spec fn fired_in_place(s: GameState, f: GameState, c: ResolutionCandidate, rest: Seq<ResolutionCandidate>) -> bool {
    let n = s.continuations@.len();
    &&& f == (GameState { continuations: f.continuations, ability_usage: f.ability_usage, ..s })
    &&& f.ability_usage@ == usage_after(s, c)
    &&& f.continuations@.len() == n + 1
    &&& f.continuations@.take(n - 1) == s.continuations@.drop_last()
    &&& f.continuations@[n - 1] matches Continuation::ReactionWindow { event, bucket, candidates }
        && s.continuations@.last() matches Continuation::ReactionWindow { event: e0, bucket: b0, .. }
        && event == e0 && bucket == b0 && candidates@ == rest
    &&& f.continuations@.last() == if c.address < source_abilities(s, c.source, c.code@).len() {
        effect_frame(s, c)
    } else {
        Continuation::Effect { effect: Effect::Nothing, controller: c.controller, source: None }
    }
}

/// What playing the hand option `c` leaves: its cost is paid, the card
/// leaves the hand for the discard pile, announced, the window holds
/// `rest`, and the event's effect is queued above it.
pub open spec fn played_from_hand(
    s: GameState,
    f: GameState,
    e0: Seq<Event>,
    e1: Seq<Event>,
    c: ResolutionCandidate,
    rest: Seq<ResolutionCandidate>,
) -> bool {
    let n = s.continuations@.len();
    let k = investigator_index(s.investigators@, c.controller);
    let inv = s.investigators@[k];
    let h = card_position(inv.hand@, c.code@, 0);
    let cost = printed_cost(s, c.code@).unwrap();
    &&& f == (GameState { continuations: f.continuations, investigators: f.investigators, ..s })
    &&& f.investigators@ == s.investigators@.update(
        k,
        Investigator {
            hand: f.investigators@[k].hand,
            discard: f.investigators@[k].discard,
            resources: (inv.resources - cost) as u8,
            ..inv
        },
    )
    &&& f.investigators@[k].hand@ == inv.hand@.remove(h)
    &&& f.investigators@[k].discard@ == inv.discard@.push(inv.hand@[h])
    &&& e1 == e0.push(Event::CardPlayed { investigator: c.controller, code: inv.hand@[h] })
    &&& f.continuations@.len() == n + 1
    &&& f.continuations@.take(n - 1) == s.continuations@.drop_last()
    &&& f.continuations@[n - 1] matches Continuation::ReactionWindow { event, bucket, candidates }
        && s.continuations@.last() matches Continuation::ReactionWindow { event: ev0, bucket: b0, .. }
        && event == ev0 && bucket == b0 && candidates@ == rest
    &&& f.continuations@.last() == (Continuation::Effect {
        effect: abilities_of(s.registry, c.code@)[c.address as int].effect,
        controller: c.controller,
        source: None,
    })
}

/// The answer to the reaction window on top of `s` (giving `f`, logging
/// from `e0` to `e1`, answering `r`).
pub open spec fn window_answered(
    s: GameState,
    f: GameState,
    e0: Seq<Event>,
    e1: Seq<Event>,
    response: InputResponse,
    r: EngineOutcome,
) -> bool {
    match (s.continuations@.last(), response) {
        (Continuation::ReactionWindow { .. }, InputResponse::Skip) => {
            &&& f == (GameState { continuations: f.continuations, ..s })
            &&& f.continuations@ == s.continuations@.drop_last()
            &&& e1 == e0
            &&& r is Done
        },
        (Continuation::ReactionWindow { event, bucket, candidates }, InputResponse::PickSingle(i)) => {
            if i >= candidates@.len() {
                f == s && e1 == e0 && r == (EngineOutcome::Rejected { reason: Reject::OptionOutOfRange })
            } else {
                let c = candidates@[i as int];
                let fresh = reactions_at(s, event, bucket);
                if find_from(fresh, c, 0) >= fresh.len() || (c.source is Hand && !hand_playable(s, c)) {
                    f == s && e1 == e0 && r == (EngineOutcome::Rejected { reason: Reject::NoLongerInitiable })
                } else if c.source is Hand {
                    played_from_hand(s, f, e0, e1, c, candidates@.remove(i as int)) && r is Done
                } else {
                    fired_in_place(s, f, c, candidates@.remove(i as int)) && e1 == e0 && r is Done
                }
            }
        },
        (Continuation::ReactionWindow { .. }, _) => f == s && e1 == e0 && r == (EngineOutcome::Rejected {
            reason: Reject::WrongResponseKind,
        }),
        _ => true,
    }
}

/// The position of the first card of `hand` printed with `code`
/// (`hand.len()` when there is none).
fn find_card(hand: &Vec<CardCode>, code: &CardCode) -> (r: usize)
    ensures
        r as int == card_position(hand@, code@, 0),
{
    let mut k: usize = 0;
    while k < hand.len()
        invariant
            k <= hand@.len(),
            card_position(hand@, code@, 0) == card_position(hand@, code@, k as int),
        decreases hand@.len() - k,
    {
        if hand[k] == *code {
            return k;
        }
        k += 1;
    }
    k
}

/// The printed cost of `code` in the installed corpus.
fn printed_cost_of(state: &GameState, code: &CardCode) -> (r: Option<u8>)
    ensures
        r == printed_cost(*state, code@),
{
    match &state.registry {
        Some(reg) => match reg.metadata_for(code.as_str()) {
            Some(m) => m.cost,
            None => None,
        },
        None => None,
    }
}

/// The number of abilities printed on `code` in the installed corpus.
fn printed_ability_count(state: &GameState, code: &CardCode) -> (r: usize)
    ensures
        r == abilities_of(state.registry, code@).len(),
{
    match &state.registry {
        Some(reg) => match reg.metadata_for(code.as_str()) {
            Some(m) => m.abilities.len(),
            None => 0,
        },
        None => 0,
    }
}

/// The effect of the ability at `address` printed on `code`.
fn printed_effect(state: &GameState, code: &CardCode, address: usize) -> (r: Effect)
    requires
        address < abilities_of(state.registry, code@).len(),
    ensures
        r == abilities_of(state.registry, code@)[address as int].effect,
{
    match &state.registry {
        Some(reg) => match reg.metadata_for(code.as_str()) {
            Some(m) => m.abilities[address].effect,
            None => Effect::Nothing,
        },
        None => Effect::Nothing,
    }
}

/// Whether the ability at `address` printed on `code` has a usage limit.
fn printed_limit(state: &GameState, code: &CardCode, address: usize) -> (r: bool)
    ensures
        r == (address < abilities_of(state.registry, code@).len() && abilities_of(state.registry, code@)[
            address as int].usage_limit is Some),
{
    match &state.registry {
        Some(reg) => match reg.metadata_for(code.as_str()) {
            Some(m) => address < m.abilities.len() && m.abilities[address].usage_limit.is_some(),
            None => false,
        },
        None => false,
    }
}

/// Take option `i` out of the reaction window on top of the stack.
fn take_option(state: &mut GameState, i: usize) -> (c: ResolutionCandidate)
    requires
        old(state).continuations@.len() > 0,
        old(state).continuations@.last() matches Continuation::ReactionWindow { candidates, .. } && i
            < candidates@.len(),
    ensures
        *final(state) == (GameState { continuations: final(state).continuations, ..*old(state) }),
        final(state).continuations@.len() == old(state).continuations@.len(),
        final(state).continuations@.drop_last() == old(state).continuations@.drop_last(),
        old(state).continuations@.last() matches Continuation::ReactionWindow { event, bucket, candidates }
            && final(state).continuations@.last() matches Continuation::ReactionWindow {
            event: ev,
            bucket: b,
            candidates: rest,
        } && ev == event && b == bucket && rest@ == candidates@.remove(i as int) && c == candidates@[i as int],
{
    let ghost s0 = *state;
    let frame = state.continuations.pop().unwrap();
    match frame {
        Continuation::ReactionWindow { event, bucket, mut candidates } => {
            let c = candidates.remove(i);
            state.continuations.push(Continuation::ReactionWindow { event, bucket, candidates });
            proof {
                assert(state.continuations@.drop_last() =~= s0.continuations@.drop_last());
            }
            c
        },
        _ => {
            proof {
                assert(false);
            }
            ResolutionCandidate { code: CardCode::new(), controller: InvestigatorId(0), address: 0, source: CandidateSource::Board }
        },
    }
}

/// Fire the in-play or board option `i` of the reaction window on top of
/// the stack: it leaves the window, a limited ability's use is counted, and
/// its effect is queued above the window.
fn fire_in_place(state: &mut GameState, i: usize)
    requires
        old(state).wf(),
        old(state).continuations@.len() > 0,
        old(state).continuations@.last() matches Continuation::ReactionWindow { candidates, .. } && i
            < candidates@.len(),
    ensures
        final(state).wf(),
        old(state).continuations@.last() matches Continuation::ReactionWindow { candidates, .. }
            && fired_in_place(*old(state), *final(state), candidates@[i as int], candidates@.remove(i as int)),
{
    let ghost s0 = *state;
    let c = take_option(state, i);
    let ghost s1 = *state;
    let frame = match &state.registry {
        Some(reg) => match crate::queue::candidate_effect(state, reg, &c) {
            Some(e) => Continuation::Effect { effect: e, controller: c.controller, source: crate::queue::source_instance(c.source) },
            None => Continuation::Effect { effect: Effect::Nothing, controller: c.controller, source: None },
        },
        None => Continuation::Effect { effect: Effect::Nothing, controller: c.controller, source: None },
    };
    proof {
        assert(source_abilities(s1, c.source, c.code@) == source_abilities(s0, c.source, c.code@));
    }
    if let CandidateSource::InPlay(inst) = c.source {
        if printed_limit(state, &c.code, c.address) {
            let used = uses_in(&state.ability_usage, inst, c.address, state.round);
            let count = if used < 255 {
                used + 1
            } else {
                255
            };
            state.ability_usage.push(UsageCounter { instance: inst, address: c.address, round: state.round, count });
        }
    }
    state.continuations.push(frame);
    proof {
        assert(state.continuations@.take(s0.continuations@.len() - 1) =~= s0.continuations@.drop_last());
        assert(state.ability_usage@ =~= usage_after(s0, c));
    }
}

/// Play the hand option `i` of the reaction window on top of the stack:
/// its controller pays the cost, the card moves from hand to the discard
/// pile, announced, and its effect is queued above the window. Refused,
/// with nothing changed, when the card can no longer be played.
fn play_fast_event(state: &mut GameState, events: &mut Vec<Event>, i: usize) -> (r: EngineOutcome)
    requires
        old(state).wf(),
        old(state).continuations@.len() > 0,
        old(state).continuations@.last() matches Continuation::ReactionWindow { candidates, .. } && i
            < candidates@.len(),
    ensures
        final(state).wf(),
        old(state).continuations@.last() matches Continuation::ReactionWindow { candidates, .. } && if hand_playable(
            *old(state),
            candidates@[i as int],
        ) {
            played_from_hand(
                *old(state),
                *final(state),
                old(events)@,
                final(events)@,
                candidates@[i as int],
                candidates@.remove(i as int),
            ) && r is Done
        } else {
            *final(state) == *old(state) && final(events)@ == old(events)@ && r == (EngineOutcome::Rejected {
                reason: Reject::NoLongerInitiable,
            })
        },
{
    let n = state.continuations.len();
    let (k, h, cost) = match &state.continuations[n - 1] {
        Continuation::ReactionWindow { candidates, .. } => {
            let c = &candidates[i];
            let Some(k) = state.find_investigator(c.controller) else {
                return EngineOutcome::Rejected { reason: Reject::NoLongerInitiable };
            };
            let h = find_card(&state.investigators[k].hand, &c.code);
            if h >= state.investigators[k].hand.len() {
                return EngineOutcome::Rejected { reason: Reject::NoLongerInitiable };
            }
            let Some(cost) = printed_cost_of(state, &c.code) else {
                return EngineOutcome::Rejected { reason: Reject::NoLongerInitiable };
            };
            if state.investigators[k].resources < cost {
                return EngineOutcome::Rejected { reason: Reject::NoLongerInitiable };
            }
            if c.address >= printed_ability_count(state, &c.code) {
                return EngineOutcome::Rejected { reason: Reject::NoLongerInitiable };
            }
            (k, h, cost)
        },
        _ => {
            return EngineOutcome::Done;
        },
    };
    let ghost s0 = *state;
    let c = take_option(state, i);
    let effect = printed_effect(state, &c.code, c.address);
    let ghost s1 = *state;
    let mut inv = state.investigators.remove(k);
    let code = inv.hand.remove(h);
    inv.discard.push(code.clone());
    inv.resources = inv.resources - cost;
    state.investigators.insert(k, inv);
    events.push(Event::CardPlayed { investigator: c.controller, code });
    state.continuations.push(Continuation::Effect { effect, controller: c.controller, source: None });
    proof {
        assert(state.continuations@.take(s0.continuations@.len() - 1) =~= s0.continuations@.drop_last());
        assert(state.investigators@ =~= s0.investigators@.update(
            k as int,
            Investigator {
                hand: state.investigators@[k as int].hand,
                discard: state.investigators@[k as int].discard,
                resources: (s0.investigators@[k as int].resources - cost) as u8,
                ..s0.investigators@[k as int]
            },
        ));
        assert(investigator_ids_distinct(state.investigators@)) by {
            assert forall|a: int, b: int|
                0 <= a < state.investigators@.len() && 0 <= b < state.investigators@.len() && a != b implies state.investigators@[a].id
                != state.investigators@[b].id by {
                assert(state.investigators@[a].id == s0.investigators@[a].id);
                assert(state.investigators@[b].id == s0.investigators@[b].id);
            }
        }
    }
    EngineOutcome::Done
}

/// Answer the reaction window on top of the stack: `Skip` closes it; a
/// pick initiates that option (an in-play or board reaction fires, a Fast
/// event is played) and leaves the rest in the window; a pick out of range,
/// one that can no longer be initiated, or another kind of answer is refused
/// and nothing changes.
pub fn resume_reaction_window(state: &mut GameState, events: &mut Vec<Event>, response: &InputResponse) -> (r:
    EngineOutcome)
    requires
        old(state).wf(),
        old(state).continuations@.len() > 0,
        old(state).continuations@.last() is ReactionWindow,
    ensures
        final(state).wf(),
        window_answered(*old(state), *final(state), old(events)@, final(events)@, *response, r),
{
    let n = state.continuations.len();
    let i = match response {
        InputResponse::Skip => {
            state.continuations.pop();
            return EngineOutcome::Done;
        },
        InputResponse::PickSingle(i) => *i,
        _ => {
            return EngineOutcome::Rejected { reason: Reject::WrongResponseKind };
        },
    };
    let (offerable, from_hand) = match &state.continuations[n - 1] {
        Continuation::ReactionWindow { event, bucket, candidates } => {
            if i as usize >= candidates.len() {
                return EngineOutcome::Rejected { reason: Reject::OptionOutOfRange };
            }
            let c = &candidates[i as usize];
            let fresh = scan_reactions_at(state, event, *bucket);
            (find_option(&fresh, c) < fresh.len(), c.source == CandidateSource::Hand)
        },
        _ => {
            return EngineOutcome::Done;
        },
    };
    if !offerable {
        return EngineOutcome::Rejected { reason: Reject::NoLongerInitiable };
    }
    if from_hand {
        play_fast_event(state, events, i as usize)
    } else {
        fire_in_place(state, i as usize);
        EngineOutcome::Done
    }
}

/// Whether `cards` holds the instance `inst`.
fn holds(cards: &Vec<CardInPlay>, inst: CardInstanceId) -> (r: bool)
    ensures
        r == holds_instance(cards@, inst),
{
    let mut j: usize = 0;
    while j < cards.len()
        invariant
            j <= cards@.len(),
            forall|k: int| 0 <= k < j ==> (#[trigger] cards@[k]).instance_id != inst,
        decreases cards@.len() - j,
    {
        if cards[j].instance_id == inst {
            return true;
        }
        j += 1;
    }
    false
}

/// Whether the card a candidate names is still where a scan finds it.
pub fn candidate_source_present(state: &GameState, c: &ResolutionCandidate) -> (r: bool)
    requires
        state.wf(),
    ensures
        r == source_present(*state, *c),
{
    match c.source {
        CandidateSource::Hand => match state.find_investigator(c.controller) {
            Some(k) => {
                let hand = &state.investigators[k].hand;
                let h = find_card(hand, &c.code);
                proof {
                    lemma_card_position(hand@, c.code@, 0);
                }
                h < hand.len()
            },
            None => false,
        },
        CandidateSource::InPlay(inst) => match state.find_investigator(c.controller) {
            Some(k) => holds(&state.investigators[k].cards_in_play, inst) || holds(&state.investigators[k].threat_area, inst),
            None => false,
        },
        CandidateSource::Board => {
            let act = current_act_code(state);
            let agenda = current_agenda_code(state);
            let on_act = match act {
                Some(a) => *a == c.code,
                None => false,
            };
            let on_agenda = match agenda {
                Some(a) => *a == c.code,
                None => false,
            };
            on_act || on_agenda
        },
        CandidateSource::Location(l) => state.find_location(l).is_some(),
        CandidateSource::Enemy(e) => state.find_enemy(e).is_some(),
    }
}

/// A card with `code` is at the position `card_position` finds exactly when
/// the hand holds one from `k` on.
proof fn lemma_card_position(hand: Seq<CardCode>, code: Seq<char>, k: int)
    requires
        0 <= k <= hand.len(),
    ensures
        card_position(hand, code, k) < hand.len() <==> exists|h: int| k <= h < hand.len() && (#[trigger] hand[h])@ == code,
        card_position(hand, code, k) < hand.len() ==> k <= card_position(hand, code, k) && hand[card_position(
            hand,
            code,
            k,
        )]@ == code,
    decreases hand.len() - k,
{
    if k < hand.len() {
        lemma_card_position(hand, code, k + 1);
        if exists|h: int| k <= h < hand.len() && (#[trigger] hand[h])@ == code {
            let h = choose|h: int| k <= h < hand.len() && (#[trigger] hand[h])@ == code;
            if h > k && hand[k]@ != code {
                assert(k + 1 <= h);
            }
        }
    }
}

/// A likely reason the option `c` was withdrawn.
fn lapse_reason_of(state: &GameState, c: &ResolutionCandidate) -> (r: LapseReason)
    requires
        state.wf(),
    ensures
        r == lapse_reason(*state, *c),
{
    if !candidate_source_present(state, c) {
        return LapseReason::SourceGone;
    }
    if c.source == CandidateSource::Hand && !cost_can_be_paid(state, c.controller, &c.code) {
        return LapseReason::CostUnpayable;
    }
    let changes = match &state.registry {
        Some(reg) => match crate::queue::candidate_effect(state, reg, c) {
            Some(e) => effect_can_change_state(&e),
            None => false,
        },
        None => false,
    };
    if changes {
        LapseReason::NoLongerEligible
    } else {
        LapseReason::NoStateChange
    }
}

/// Whether some option of `fresh` names the same option as `c`.
pub open spec fn offered_in(fresh: Seq<ResolutionCandidate>, c: ResolutionCandidate) -> bool {
    exists|j: int| 0 <= j < fresh.len() && same_option(#[trigger] fresh[j], c)
}

/// `find_from` finds a match exactly when there is one from `k` on, and
/// what it finds is one.
proof fn lemma_find_from(fresh: Seq<ResolutionCandidate>, c: ResolutionCandidate, k: int)
    requires
        0 <= k <= fresh.len(),
    ensures
        find_from(fresh, c, k) < fresh.len() <==> exists|j: int| k <= j < fresh.len() && same_option(#[trigger] fresh[j], c),
        find_from(fresh, c, k) < fresh.len() ==> k <= find_from(fresh, c, k) && same_option(fresh[find_from(fresh, c, k)], c),
    decreases fresh.len() - k,
{
    if k < fresh.len() {
        lemma_find_from(fresh, c, k + 1);
        if exists|j: int| k <= j < fresh.len() && same_option(#[trigger] fresh[j], c) {
            let j = choose|j: int| k <= j < fresh.len() && same_option(#[trigger] fresh[j], c);
            if j > k && !same_option(fresh[k], c) {
                assert(k + 1 <= j);
            }
        }
    }
}

/// Withdrawal splits the stored options: each is kept or lapses, none is
/// added, and each kept one is matched by a distinct fresh option.
proof fn lemma_split(stored: Seq<ResolutionCandidate>, fresh: Seq<ResolutionCandidate>)
    ensures
        survivors(stored, fresh).len() + lapsed(stored, fresh).len() == stored.len(),
        survivors(stored, fresh).len() <= fresh.len(),
        forall|k: int| 0 <= k < survivors(stored, fresh).len() ==> stored.contains(#[trigger] survivors(stored, fresh)[k]),
        forall|k: int| 0 <= k < survivors(stored, fresh).len() ==> offered_in(fresh, #[trigger] survivors(stored, fresh)[k]),
    decreases stored.len(),
{
    if stored.len() > 0 {
        let c = stored[0];
        let j = find_from(fresh, c, 0);
        lemma_find_from(fresh, c, 0);
        let rest = stored.drop_first();
        if j < fresh.len() {
            let f2 = fresh.remove(j);
            lemma_split(rest, f2);
            let sv = survivors(stored, fresh);
            assert(sv == seq![c] + survivors(rest, f2));
            assert forall|k: int| 0 <= k < sv.len() implies stored.contains(#[trigger] sv[k]) by {
                if k == 0 {
                    assert(stored[0] == c);
                } else {
                    assert(sv[k] == survivors(rest, f2)[k - 1]);
                    assert(rest.contains(sv[k]));
                    let w = choose|w: int| 0 <= w < rest.len() && rest[w] == sv[k];
                    assert(stored[w + 1] == rest[w]);
                }
            }
            assert forall|k: int| 0 <= k < sv.len() implies offered_in(fresh, #[trigger] sv[k]) by {
                if k == 0 {
                    assert(same_option(fresh[j], c));
                } else {
                    assert(sv[k] == survivors(rest, f2)[k - 1]);
                    assert(offered_in(f2, sv[k]));
                    let w = choose|w: int| 0 <= w < f2.len() && same_option(#[trigger] f2[w], sv[k]);
                    if w < j {
                        assert(f2[w] == fresh[w]);
                    } else {
                        assert(f2[w] == fresh[w + 1]);
                    }
                }
            }
        } else {
            lemma_split(rest, fresh);
            let sv = survivors(stored, fresh);
            assert(sv == survivors(rest, fresh));
            assert forall|k: int| 0 <= k < sv.len() implies stored.contains(#[trigger] sv[k]) by {
                assert(rest.contains(sv[k]));
                let w = choose|w: int| 0 <= w < rest.len() && rest[w] == sv[k];
                assert(stored[w + 1] == rest[w]);
            }
        }
    }
}

/// A reaction window offers only what can be initiated now: once driven,
/// every option it still holds was already in it (nothing is added), each
/// is offered by a fresh scan of its cell on the board as it stands (each
/// by a distinct scanned option), every other option is withdrawn with one
/// announcement each, and the board itself is untouched.
pub proof fn law_window_offers_only_current_options(
    s: GameState,
    f: GameState,
    e0: Seq<Event>,
    e1: Seq<Event>,
    r: Option<EngineOutcome>,
)
    requires
        s.continuations@.len() > 0,
        s.continuations@.last() is ReactionWindow,
        window_advanced(s, f, e0, e1, r),
    ensures
        f == (GameState { continuations: f.continuations, ..s }),
        match s.continuations@.last() {
            Continuation::ReactionWindow { event, bucket, candidates } => {
                let fresh = reactions_at(s, event, bucket);
                let kept = survivors(candidates@, fresh);
                &&& kept.len() <= fresh.len()
                &&& forall|k: int| 0 <= k < kept.len() ==> candidates@.contains(#[trigger] kept[k])
                &&& forall|k: int| 0 <= k < kept.len() ==> offered_in(fresh, #[trigger] kept[k])
                &&& e1.len() == e0.len() + candidates@.len() - kept.len()
                &&& (kept.len() == 0 <==> r is None)
            },
            _ => true,
        },
{
    match s.continuations@.last() {
        Continuation::ReactionWindow { event, bucket, candidates } => {
            lemma_split(candidates@, reactions_at(s, event, bucket));
        },
        _ => {},
    }
}

/// A limited ability is not offered once its limit is reached: with `max`
/// initiations already counted this round for the ability at `address` of
/// `card`, no scan offers that ability of that card again this round.
pub proof fn law_usage_limit_is_respected(
    s: GameState,
    abs: Seq<Ability>,
    card: CardInPlay,
    controller: InvestigatorId,
    e: TimingEvent,
    bucket: EventTiming,
    n: int,
    address: int,
)
    requires
        abs.len() <= usize::MAX,
        n <= abs.len(),
        0 <= address < abs.len(),
        abs[address].usage_limit matches Some(max) && uses_in_round(s.ability_usage@, card.instance_id, address, s.round)
            >= max,
    ensures
        forall|k: int|
            0 <= k < instance_reactions_upto(s, abs, card, controller, e, bucket, n).len() ==> (#[trigger] instance_reactions_upto(
                s,
                abs,
                card,
                controller,
                e,
                bucket,
                n,
            )[k]).address != address,
    decreases n,
{
    if n > 0 {
        law_usage_limit_is_respected(s, abs, card, controller, e, bucket, n - 1, address);
        let prev = instance_reactions_upto(s, abs, card, controller, e, bucket, n - 1);
        let cur = instance_reactions_upto(s, abs, card, controller, e, bucket, n);
        if n - 1 == address {
            assert(!usage_left(s, abs[n - 1], card.instance_id, n - 1));
            assert(cur == prev);
        }
        assert forall|k: int| 0 <= k < cur.len() implies (#[trigger] cur[k]).address != address by {
            if k < prev.len() {
                assert(cur[k] == prev[k]);
            } else {
                assert(cur[k].address == (n - 1) as usize);
            }
        }
    }
}

} // verus!
