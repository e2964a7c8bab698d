//! Location reveal-on-entry (Rules Reference p.14): the first time an
//! investigator enters a location it is revealed and its printed clues are
//! placed. Enemy movement does not reveal.
use vstd::prelude::*;

use crate::outcome::Event;
use crate::state::{
    has_location, location_ids_distinct, location_index, ClueValue, GameState, Location,
    LocationId,
};

verus! {

/// The investigator count a per-investigator value scales by: the seated
/// investigators (eliminated ones keep their seat), capped at 255.
pub open spec fn investigator_count(s: GameState) -> int {
    if s.investigators@.len() > 255 {
        255
    } else {
        s.investigators@.len() as int
    }
}

/// `a * b`, capped at 255.
pub open spec fn capped_product(a: int, b: int) -> u8 {
    if a * b > 255 {
        255
    } else {
        (a * b) as u8
    }
}

/// The clues a location printed with `v` places when revealed with `count`
/// investigators in the game.
pub open spec fn clues_on_reveal(v: ClueValue, count: int) -> u8 {
    match v {
        ClueValue::Fixed(n) => n,
        ClueValue::PerInvestigator(n) => capped_product(n as int, count),
    }
}

/// The seated-investigator count, capped at 255.
pub fn investigator_count_u8(state: &GameState) -> (r: u8)
    ensures
        r == investigator_count(*state),
{
    let n = state.investigators.len();
    if n > 255 {
        255
    } else {
        n as u8
    }
}

/// `a * b`, capped at 255.
pub fn capped_mul(a: u8, b: u8) -> (r: u8)
    ensures
        r == capped_product(a as int, b as int),
{
    assert((a as int) * (b as int) <= 255 * 255) by (nonlinear_arith)
        requires
            a <= 255,
            b <= 255,
    ;
    let p: u16 = (a as u16) * (b as u16);
    if p > 255 {
        255
    } else {
        p as u8
    }
}

/// What revealing `id` does to `o` (giving `f`) and to the log (`e0` to
/// `e1`): an unrevealed location in play turns face up with its clues on
/// reveal, announced; anything else is left as it was.
pub open spec fn revealed(o: GameState, f: GameState, e0: Seq<Event>, e1: Seq<Event>, id: LocationId) -> bool {
    let count = investigator_count(o);
    if has_location(o.locations@, id) && !o.locations@[location_index(o.locations@, id)].revealed {
        let i = location_index(o.locations@, id);
        let loc = o.locations@[i];
        let clues = clues_on_reveal(loc.printed_clues, count);
        &&& f == GameState { locations: f.locations, ..o }
        &&& f.locations@ == o.locations@.update(i, Location { revealed: true, clues, ..loc })
        &&& e1 == e0.push(Event::LocationRevealed { location: id, clues })
    } else {
        &&& f == o
        &&& e1 == e0
    }
}

/// Reveal `location_id` if it is in play and unrevealed, placing its printed
/// clues (`PerInvestigator(n)` places n per seated investigator) and logging
/// `LocationRevealed`. No-op if the location is absent or already revealed.
pub fn reveal_location(state: &mut GameState, events: &mut Vec<Event>, location_id: LocationId)
    requires
        location_ids_distinct(old(state).locations@),
    ensures
        revealed(*old(state), *final(state), old(events)@, final(events)@, location_id),
{
    let count = investigator_count_u8(state);
    let Some(i) = state.find_location(location_id) else {
        return;
    };
    if state.locations[i].revealed {
        return;
    }
    let clues = match state.locations[i].printed_clues {
        ClueValue::PerInvestigator(n) => capped_mul(n, count),
        ClueValue::Fixed(n) => n,
    };
    let ghost o = *old(state);
    state.locations[i].revealed = true;
    state.locations[i].clues = clues;
    events.push(Event::LocationRevealed { location: location_id, clues });
    proof {
        let loc = o.locations@[i as int];
        assert(state.locations@ =~= o.locations@.update(
            i as int,
            Location { revealed: true, clues, ..loc },
        ));
    }
}


/// Revealing is done once: revealing a location a second time changes
/// nothing and logs nothing.
pub proof fn law_reveal_is_idempotent(
    s: GameState,
    f: GameState,
    f2: GameState,
    e0: Seq<Event>,
    e1: Seq<Event>,
    e2: Seq<Event>,
    id: LocationId,
)
    requires
        location_ids_distinct(s.locations@),
        revealed(s, f, e0, e1, id),
        revealed(f, f2, e1, e2, id),
    ensures
        f2 == f,
        e2 == e1,
{
    if has_location(s.locations@, id) && !s.locations@[location_index(s.locations@, id)].revealed {
        let i = location_index(s.locations@, id);
        assert(location_ids_distinct(f.locations@)) by {
            assert forall|a: int, b: int|
                0 <= a < f.locations@.len() && 0 <= b < f.locations@.len() && a != b implies f.locations@[a].id
                != f.locations@[b].id by {
                assert(f.locations@[a].id == s.locations@[a].id);
                assert(f.locations@[b].id == s.locations@[b].id);
            }
        }
        crate::state::lemma_location_index(f.locations@, id, i);
    }
}


/// Revealing places the printed clues, scaled by the table: an unrevealed
/// location printed `PerInvestigator(n)` turns face up holding `n` times the
/// number of seated investigators (capped at 255), and that many clues are
/// announced; one printed `Fixed(n)` holds `n`.
pub proof fn law_reveal_places_the_printed_clues(
    o: GameState,
    f: GameState,
    e0: Seq<Event>,
    e1: Seq<Event>,
    id: LocationId,
)
    requires
        has_location(o.locations@, id),
        !o.locations@[location_index(o.locations@, id)].revealed,
        revealed(o, f, e0, e1, id),
    ensures
        ({
            let i = location_index(o.locations@, id);
            let want: int = match o.locations@[i].printed_clues {
                ClueValue::Fixed(n) => n as int,
                ClueValue::PerInvestigator(n) => if n * o.investigators@.len() >= 255 {
                    255
                } else {
                    n * o.investigators@.len()
                },
            };
            &&& f.locations@[i].revealed
            &&& f.locations@[i].clues as int == want
            &&& e1 == e0.push(Event::LocationRevealed { location: id, clues: want as u8 })
        }),
{
    let i = location_index(o.locations@, id);
    let len = o.investigators@.len() as int;
    match o.locations@[i].printed_clues {
        ClueValue::Fixed(n) => {},
        ClueValue::PerInvestigator(n) => {
            if len > 255 {
                assert(n * len >= n * 255) by (nonlinear_arith)
                    requires
                        len > 255,
                        n >= 0,
                ;
                if n >= 1 {
                    assert(n * 255 >= 255) by (nonlinear_arith)
                        requires
                            n >= 1,
                    ;
                } else {
                    assert(n * len == 0 && n * 255 == 0) by (nonlinear_arith)
                        requires
                            n == 0,
                    ;
                }
            }
        },
    }
}

} // verus!
