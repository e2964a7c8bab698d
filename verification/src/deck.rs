//! The shared encounter deck: the deterministic shuffle, the discard
//! reshuffle, and drawing from the top (index 0).
use vstd::prelude::*;

use crate::outcome::Event;
use crate::state::{CardCode, GameState};

verus! {

/// The generator's non-zero stand-in for a zero state.
pub const RNG_ZERO_SEED: u64 = 0x9E37_79B9_7F4A_7C15;

/// One xorshift64 step.
pub open spec fn xorshift(x: u64) -> u64 {
    let a = x ^ (x << 13u64);
    let b = a ^ (a >> 7u64);
    b ^ (b << 17u64)
}

/// The generator state after one draw from `x` (a zero state is replaced
/// by a fixed non-zero seed first, so the sequence never sticks at zero).
pub open spec fn rng_step(x: u64) -> u64 {
    xorshift(if x == 0 { RNG_ZERO_SEED } else { x })
}

/// `s` with the entries at `i` and `j` exchanged.
pub open spec fn swapped<A>(s: Seq<A>, i: int, j: int) -> Seq<A> {
    s.update(i, s[j]).update(j, s[i])
}

/// The Fisher-Yates passes for positions `i` down to 1 over `deck` from
/// generator state `rng`: position `i` trades places with a position drawn
/// uniformly below or at it. Returns the deck and the generator state after.
pub open spec fn fisher_yates<A>(deck: Seq<A>, rng: u64, i: nat) -> (Seq<A>, u64)
    decreases i,
{
    if i == 0 {
        (deck, rng)
    } else {
        let r = rng_step(rng);
        let j = (r % ((i + 1) as u64)) as int;
        fisher_yates(swapped(deck, i as int, j), r, (i - 1) as nat)
    }
}

/// The deck and generator state after shuffling `deck` from `rng`: fewer
/// than two cards are left as they are.
pub open spec fn shuffled<A>(deck: Seq<A>, rng: u64) -> (Seq<A>, u64) {
    if deck.len() < 2 {
        (deck, rng)
    } else {
        fisher_yates(deck, rng, (deck.len() - 1) as nat)
    }
}

/// Exchanging two entries keeps the multiset of entries.
pub proof fn lemma_swap_keeps_multiset<A>(s: Seq<A>, i: int, j: int)
    requires
        0 <= i < s.len(),
        0 <= j < s.len(),
    ensures
        swapped(s, i, j).to_multiset() == s.to_multiset(),
        swapped(s, i, j).len() == s.len(),
{
    broadcast use vstd::seq_lib::group_to_multiset_ensures;

    if i != j {
        let s1 = s.update(i, s[j]);
        let s2 = s1.update(j, s[i]);
        assert(s1.remove(i) =~= s.remove(i));
        assert(s1.to_multiset().remove(s[j]) =~= s.to_multiset().remove(s[i]));
        assert(s1.to_multiset().count(s[j]) > 0) by {
            assert(s1.contains(s[j])) by {
                assert(s1[i] == s[j]);
            }
        }
        assert(s1.to_multiset() =~= s.to_multiset().remove(s[i]).insert(s[j]));
        assert(s2.remove(j) =~= s1.remove(j));
        assert(s2.to_multiset().remove(s[i]) =~= s1.to_multiset().remove(s1[j]));
        assert(s2.to_multiset().count(s[i]) > 0) by {
            assert(s2.contains(s[i])) by {
                assert(s2[j] == s[i]);
            }
        }
        assert(s2.to_multiset() =~= s1.to_multiset().remove(s[j]).insert(s[i]));
        assert(s.to_multiset().count(s[i]) > 0) by {
            assert(s.contains(s[i]));
        }
        assert(s2.to_multiset() =~= s.to_multiset());
    } else {
        assert(swapped(s, i, j) =~= s);
    }
}

/// Fisher-Yates passes keep the multiset of cards and the deck's length.
pub proof fn lemma_fisher_yates_keeps_multiset<A>(deck: Seq<A>, rng: u64, i: nat)
    requires
        i < deck.len(),
        deck.len() <= u64::MAX,
    ensures
        fisher_yates(deck, rng, i).0.to_multiset() == deck.to_multiset(),
        fisher_yates(deck, rng, i).0.len() == deck.len(),
    decreases i,
{
    if i > 0 {
        let r = rng_step(rng);
        let j = (r % ((i + 1) as u64)) as int;
        assert(((i + 1) as u64) as int == i + 1);
        assert(0 <= j < i + 1);
        lemma_swap_keeps_multiset(deck, i as int, j);
        lemma_fisher_yates_keeps_multiset(swapped(deck, i as int, j), r, (i - 1) as nat);
    }
}

/// Shuffling keeps exactly the cards that were in the deck: the result is
/// a permutation of the input.
pub proof fn law_shuffle_is_a_permutation<A>(deck: Seq<A>, rng: u64)
    requires
        deck.len() <= u64::MAX,
    ensures
        shuffled(deck, rng).0.to_multiset() == deck.to_multiset(),
        shuffled(deck, rng).0.len() == deck.len(),
{
    if deck.len() >= 2 {
        lemma_fisher_yates_keeps_multiset(deck, rng, (deck.len() - 1) as nat);
    }
}

/// Advance the generator and draw an index below `bound`.
pub fn next_index(rng: &mut u64, bound: usize) -> (r: usize)
    requires
        bound > 0,
    ensures
        *final(rng) == rng_step(*old(rng)),
        r == (rng_step(*old(rng)) % (bound as u64)),
        r < bound,
{
    let x: u64 = if *rng == 0 { RNG_ZERO_SEED } else { *rng };
    let a = x ^ (x << 13u64);
    let b = a ^ (a >> 7u64);
    let c = b ^ (b << 17u64);
    *rng = c;
    let r = (c % (bound as u64)) as usize;
    r
}

/// Fisher-Yates shuffle of `deck` from the generator state `rng`.
pub fn shuffle_codes(deck: &mut Vec<CardCode>, rng: &mut u64)
    ensures
        (final(deck)@, *final(rng)) == shuffled(old(deck)@, *old(rng)),
{
    let n = deck.len();
    if n < 2 {
        return;
    }
    let ghost d0 = deck@;
    let ghost r0 = *rng;
    let mut i: usize = n - 1;
    while i >= 1
        invariant
            i < n,
            n == d0.len(),
            n >= 2,
            deck@.len() == n,
            fisher_yates(deck@, *rng, i as nat) == fisher_yates(d0, r0, (n - 1) as nat),
        decreases i,
    {
        let j = next_index(rng, i + 1);
        let a = deck[i].clone();
        let b = deck[j].clone();
        let ghost before = deck@;
        deck.set(i, b);
        deck.set(j, a);
        proof {
            assert(deck@ =~= swapped(before, i as int, j as int));
        }
        i -= 1;
    }
}

/// Fisher-Yates shuffle of the shared encounter deck from the state's
/// deterministic generator. Announces `EncounterDeckShuffled` when the deck
/// holds two or more cards (fewer have nothing to permute, and nothing
/// changes).
pub fn shuffle_encounter_deck(state: &mut GameState, events: &mut Vec<Event>)
    ensures
        *final(state) == (GameState {
            encounter_deck: final(state).encounter_deck,
            rng: final(state).rng,
            ..*old(state)
        }),
        (final(state).encounter_deck@, final(state).rng) == shuffled(
            old(state).encounter_deck@,
            old(state).rng,
        ),
        final(events)@ == if old(state).encounter_deck@.len() >= 2 {
            old(events)@.push(Event::EncounterDeckShuffled)
        } else {
            old(events)@
        },
{
    let n = state.encounter_deck.len();
    if n < 2 {
        return;
    }
    shuffle_codes(&mut state.encounter_deck, &mut state.rng);
    events.push(Event::EncounterDeckShuffled);
}

/// Move the whole encounter discard pile under the encounter deck and
/// shuffle the resulting deck.
pub fn reshuffle_encounter_discard(state: &mut GameState, events: &mut Vec<Event>)
    ensures
        *final(state) == (GameState {
            encounter_deck: final(state).encounter_deck,
            encounter_discard: final(state).encounter_discard,
            rng: final(state).rng,
            ..*old(state)
        }),
        final(state).encounter_discard@.len() == 0,
        (final(state).encounter_deck@, final(state).rng) == shuffled(
            old(state).encounter_deck@ + old(state).encounter_discard@,
            old(state).rng,
        ),
        final(events)@ == if old(state).encounter_deck@.len() + old(state).encounter_discard@.len() >= 2 {
            old(events)@.push(Event::EncounterDeckShuffled)
        } else {
            old(events)@
        },
{
    let mut discard: Vec<CardCode> = Vec::new();
    std::mem::swap(&mut discard, &mut state.encounter_discard);
    state.encounter_deck.append(&mut discard);
    shuffle_encounter_deck(state, events);
}

/// What drawing the top encounter card does: with cards in the deck, the
/// top card (index 0) leaves it; with an empty deck and a non-empty discard,
/// the discard is shuffled in as the new deck first; with both empty,
/// nothing happens and nothing is drawn.
pub open spec fn draw_result(s: GameState, f: GameState, e0: Seq<Event>, e1: Seq<Event>, r: Option<CardCode>) -> bool {
    if s.encounter_deck@.len() > 0 {
        &&& r == Some(s.encounter_deck@[0])
        &&& f == (GameState { encounter_deck: f.encounter_deck, ..s })
        &&& f.encounter_deck@ == s.encounter_deck@.drop_first()
        &&& e1 == e0
    } else if s.encounter_discard@.len() == 0 {
        &&& r is None
        &&& f == s
        &&& e1 == e0
    } else {
        let (deck, rng) = shuffled(s.encounter_discard@, s.rng);
        &&& r == Some(deck[0])
        &&& f == (GameState {
            encounter_deck: f.encounter_deck,
            encounter_discard: f.encounter_discard,
            rng,
            ..s
        })
        &&& f.encounter_deck@ == deck.drop_first()
        &&& f.encounter_discard@.len() == 0
        &&& e1 == if s.encounter_discard@.len() >= 2 {
            e0.push(Event::EncounterDeckShuffled)
        } else {
            e0
        }
    }
}

/// Draw the top card of the encounter deck, reshuffling the discard pile in
/// first when the deck is empty. `None` when both are empty.
pub fn draw_encounter_top(state: &mut GameState, events: &mut Vec<Event>) -> (r: Option<CardCode>)
    ensures
        draw_result(*old(state), *final(state), old(events)@, final(events)@, r),
{
    if state.encounter_deck.len() == 0 {
        if state.encounter_discard.len() == 0 {
            return None;
        }
        reshuffle_encounter_discard(state, events);
        proof {
            assert(old(state).encounter_deck@ + old(state).encounter_discard@ =~= old(
                state,
            ).encounter_discard@);
            law_shuffle_is_a_permutation(old(state).encounter_discard@, old(state).rng);
        }
    }
    let top = state.encounter_deck.remove(0);
    Some(top)
}


/// Drawing from the encounter deck loses no card and invents none: the
/// cards of deck and discard afterwards, with the drawn card, are those of
/// deck and discard before; nothing is drawn only when both were empty.
pub proof fn law_encounter_draw_keeps_every_card(
    s: GameState,
    f: GameState,
    e0: Seq<Event>,
    e1: Seq<Event>,
    r: Option<CardCode>,
)
    requires
        s.encounter_discard@.len() <= u64::MAX,
        draw_result(s, f, e0, e1, r),
    ensures
        r is None <==> s.encounter_deck@.len() + s.encounter_discard@.len() == 0,
        r matches Some(c) ==> (f.encounter_deck@ + f.encounter_discard@).to_multiset().insert(c)
            == (s.encounter_deck@ + s.encounter_discard@).to_multiset(),
{
    broadcast use vstd::seq_lib::group_to_multiset_ensures;
    if s.encounter_deck@.len() > 0 {
        let d = s.encounter_deck@;
        assert(d =~= seq![d[0]] + d.drop_first());
        vstd::seq_lib::lemma_multiset_commutative(seq![d[0]], d.drop_first());
        vstd::seq_lib::lemma_multiset_commutative(d, s.encounter_discard@);
        vstd::seq_lib::lemma_multiset_commutative(d.drop_first(), s.encounter_discard@);
        assert(seq![d[0]].to_multiset() =~= vstd::multiset::Multiset::empty().insert(d[0])) by {
            assert(seq![d[0]] =~= Seq::<CardCode>::empty().push(d[0]));
        }
    } else if s.encounter_discard@.len() > 0 {
        let (deck, rng) = shuffled(s.encounter_discard@, s.rng);
        law_shuffle_is_a_permutation(s.encounter_discard@, s.rng);
        assert(deck =~= seq![deck[0]] + deck.drop_first());
        vstd::seq_lib::lemma_multiset_commutative(seq![deck[0]], deck.drop_first());
        assert(seq![deck[0]].to_multiset() =~= vstd::multiset::Multiset::empty().insert(deck[0])) by {
            assert(seq![deck[0]] =~= Seq::<CardCode>::empty().push(deck[0]));
        }
        assert(f.encounter_deck@ + f.encounter_discard@ =~= deck.drop_first());
        assert(s.encounter_deck@ + s.encounter_discard@ =~= s.encounter_discard@);
    }
}

} // verus!
