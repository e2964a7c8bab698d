//! The set-aside zone (Rules Reference, "Set Aside"): bringing a set-aside
//! card into play. A location brings its printed connections with it; they
//! live in the scenario's layout and are wired on entry, the only moment both
//! ends of a connection have ids.
use vstd::prelude::*;

use crate::cards::{metadata_of, CardKind, CardMetadata, CardRegistry};
use crate::cursor::{first_active_investigator, first_active_of};
use crate::encounter::{aside_enemy_spawn, first_code_index, holds_code, position_of, spawn_aside_enemy_at};
use crate::outcome::{EngineOutcome, Event, Reject};
use crate::state::{
    first_location_with_code, has_location_code, location_ids_distinct, location_index,
    CardCode, CardInPlay, CardInstanceId, ClueValue, GameState, InvestigatorId, Location,
    LocationId,
};

verus! {

/// The location entry `p` of `layout` pairs with `code`, if it names it.
pub open spec fn paired_code(pair: (CardCode, CardCode), code: Seq<char>) -> Option<Seq<char>> {
    if pair.0@ == code {
        Some(pair.1@)
    } else if pair.1@ == code {
        Some(pair.0@)
    } else {
        None
    }
}

/// The in-play location a layout pair links the location `id` (printed
/// `code`) to: the first in play with the paired code, when that is
/// another location.
pub open spec fn link_of(
    locs: Seq<Location>,
    pair: (CardCode, CardCode),
    id: LocationId,
    code: Seq<char>,
) -> Option<LocationId> {
    match paired_code(pair, code) {
        Some(o) => if has_location_code(locs, o) && locs[first_location_with_code(locs, o)].id != id
            && crate::state::has_location(locs, locs[first_location_with_code(locs, o)].id) {
            Some(locs[first_location_with_code(locs, o)].id)
        } else {
            None
        },
        None => None,
    }
}

/// The locations the first `p` layout pairs link `id` to, in layout order.
pub open spec fn links_upto(
    locs: Seq<Location>,
    lay: Seq<(CardCode, CardCode)>,
    id: LocationId,
    code: Seq<char>,
    p: int,
) -> Seq<LocationId>
    decreases p,
{
    if p <= 0 {
        Seq::empty()
    } else {
        let prev = links_upto(locs, lay, id, code, p - 1);
        match link_of(locs, lay[p - 1], id, code) {
            Some(n) => prev.push(n),
            None => prev,
        }
    }
}

/// `after` is `before` with `id` connected both ways to every location in
/// `links`: nothing but connections changes, and a location is connected
/// to `n` exactly when it was before or the links join them.
pub open spec fn wired(before: Seq<Location>, after: Seq<Location>, id: LocationId, links: Seq<LocationId>) -> bool {
    &&& after.len() == before.len()
    &&& forall|j: int|
        0 <= j < before.len() ==> #[trigger] after[j] == (Location {
            connections: after[j].connections,
            ..before[j]
        })
    &&& forall|j: int, n: LocationId|
        0 <= j < before.len() ==> (#[trigger] after[j].connections@.contains(n) <==> (
        before[j].connections@.contains(n) || (before[j].id == id && links.contains(n)) || (links.contains(
            before[j].id,
        ) && n == id)))
}

/// Connect the location at `ia` to the one at `ib`, both ways, without
/// duplicating a connection already there.
fn connect(state: &mut GameState, ia: usize, ib: usize)
    requires
        old(state).wf(),
        ia < old(state).locations@.len(),
        ib < old(state).locations@.len(),
        ia != ib,
    ensures
        final(state).wf(),
        *final(state) == (GameState { locations: final(state).locations, ..*old(state) }),
        final(state).locations@.len() == old(state).locations@.len(),
        forall|j: int|
            0 <= j < old(state).locations@.len() ==> #[trigger] final(state).locations@[j] == (Location {
                connections: final(state).locations@[j].connections,
                ..old(state).locations@[j]
            }),
        forall|j: int, n: LocationId|
            0 <= j < old(state).locations@.len() ==> (#[trigger] final(state).locations@[j].connections@.contains(
                n,
            ) <==> (old(state).locations@[j].connections@.contains(n) || (j == ia && n
                == old(state).locations@[ib as int].id) || (j == ib && n == old(
                state,
            ).locations@[ia as int].id))),
{
    let a = state.locations[ia].id;
    let b = state.locations[ib].id;
    if !contains_location(&state.locations[ia].connections, b) {
        state.locations[ia].connections.push(b);
    }
    if !contains_location(&state.locations[ib].connections, a) {
        state.locations[ib].connections.push(a);
    }
    proof {
        let s0 = *old(state);
        assert forall|j: int| 0 <= j < s0.locations@.len() implies #[trigger] state.locations@[j].id
            == s0.locations@[j].id by {}
        assert(location_ids_distinct(state.locations@)) by {
            assert forall|x: int, y: int|
                0 <= x < state.locations@.len() && 0 <= y < state.locations@.len() && x != y implies state.locations@[x].id
                != state.locations@[y].id by {
                assert(state.locations@[x].id == s0.locations@[x].id);
                assert(state.locations@[y].id == s0.locations@[y].id);
            }
        }
        assert forall|t: int| 0 <= t < state.locations@.len() implies state.locations@[t].id.0
            < state.next_location_id by {
            assert(state.locations@[t].id == s0.locations@[t].id);
        }
        assert forall|j: int, n: LocationId|
            0 <= j < s0.locations@.len() implies (#[trigger] state.locations@[j].connections@.contains(n)
            <==> (s0.locations@[j].connections@.contains(n) || (j == ia && n == s0.locations@[ib as int].id)
            || (j == ib && n == s0.locations@[ia as int].id))) by {
            if j == ia || j == ib {
                if state.locations@[j].connections@.contains(n) {
                    let t = choose|t: int|
                        0 <= t < state.locations@[j].connections@.len()
                            && state.locations@[j].connections@[t] == n;
                    if t < s0.locations@[j].connections@.len() {
                        assert(s0.locations@[j].connections@[t] == n);
                    }
                }
                if s0.locations@[j].connections@.contains(n) {
                    let t = choose|t: int|
                        0 <= t < s0.locations@[j].connections@.len() && s0.locations@[j].connections@[t]
                            == n;
                    assert(state.locations@[j].connections@[t] == n);
                }
                if j == ia && n == s0.locations@[ib as int].id {
                    if !s0.locations@[j].connections@.contains(n) {
                        assert(state.locations@[j].connections@.last() == n);
                    }
                }
                if j == ib && n == s0.locations@[ia as int].id {
                    if !s0.locations@[j].connections@.contains(n) {
                        assert(state.locations@[j].connections@.last() == n);
                    }
                }
            }
        }
    }
}

/// Whether `v` holds `id`.
pub fn contains_location(v: &Vec<LocationId>, id: LocationId) -> (r: bool)
    ensures
        r == v@.contains(id),
{
    let mut i: usize = 0;
    while i < v.len()
        invariant
            i <= v@.len(),
            forall|j: int| 0 <= j < i ==> v@[j] != id,
        decreases v@.len() - i,
    {
        if v[i] == id {
            return true;
        }
        i += 1;
    }
    false
}

/// A pushed sequence holds what it held and the pushed value.
proof fn lemma_push_contains<A>(s: Seq<A>, v: A, x: A)
    ensures
        s.push(v).contains(x) <==> (s.contains(x) || x == v),
{
    if s.push(v).contains(x) {
        let i = choose|i: int| 0 <= i < s.push(v).len() && s.push(v)[i] == x;
        if i < s.len() {
            assert(s[i] == x);
        }
    }
    if s.contains(x) {
        let i = choose|i: int| 0 <= i < s.len() && s[i] == x;
        assert(s.push(v)[i] == x);
    }
    if x == v {
        assert(s.push(v)[s.len() as int] == x);
    }
}

/// Every linked location is in play and is another location.
proof fn lemma_links_in_play(
    locs: Seq<Location>,
    lay: Seq<(CardCode, CardCode)>,
    id: LocationId,
    code: Seq<char>,
    p: int,
)
    ensures
        forall|t: int|
            0 <= t < links_upto(locs, lay, id, code, p).len() ==> #[trigger] links_upto(locs, lay, id, code, p)[t]
                != id && crate::state::has_location(locs, links_upto(locs, lay, id, code, p)[t]),
    decreases p,
{
    if p > 0 {
        lemma_links_in_play(locs, lay, id, code, p - 1);
        let prev = links_upto(locs, lay, id, code, p - 1);
        match link_of(locs, lay[p - 1], id, code) {
            Some(n) => {
                assert forall|t: int| 0 <= t < prev.push(n).len() implies #[trigger] prev.push(n)[t] != id
                    && crate::state::has_location(locs, prev.push(n)[t]) by {
                    if t < prev.len() {
                        assert(prev.push(n)[t] == prev[t]);
                    }
                }
            },
            None => {},
        }
    }
}

/// The location the layout pair at `p` links `id` (printed `code`) to.
fn pair_link(state: &GameState, p: usize, id: LocationId, code: &CardCode) -> (r: Option<LocationId>)
    requires
        location_ids_distinct(state.locations@),
        p < state.layout@.len(),
    ensures
        r == link_of(state.locations@, state.layout@[p as int], id, code@),
{
    let other: Option<&CardCode> = if state.layout[p].0 == *code {
        Some(&state.layout[p].1)
    } else if state.layout[p].1 == *code {
        Some(&state.layout[p].0)
    } else {
        None
    };
    proof {
        assert(other.is_some() == (paired_code(state.layout@[p as int], code@) is Some));
        if other.is_some() {
            assert(other->0@ == paired_code(state.layout@[p as int], code@)->0);
        }
    }
    match other {
        Some(o) => match state.location_id_by_code(o.as_str()) {
            Some(nid) => if nid != id && state.find_location(nid).is_some() {
                Some(nid)
            } else {
                None
            },
            None => None,
        },
        None => None,
    }
}

/// The locations the scenario layout links `id` (printed `code`) to.
fn layout_links(state: &GameState, id: LocationId, code: &CardCode) -> (r: Vec<LocationId>)
    requires
        location_ids_distinct(state.locations@),
    ensures
        r@ == links_upto(state.locations@, state.layout@, id, code@, state.layout@.len() as int),
{
    let mut out: Vec<LocationId> = Vec::new();
    let mut p: usize = 0;
    while p < state.layout.len()
        invariant
            p <= state.layout@.len(),
            location_ids_distinct(state.locations@),
            out@ == links_upto(state.locations@, state.layout@, id, code@, p as int),
        decreases state.layout@.len() - p,
    {
        if let Some(n) = pair_link(state, p, id, code) {
            out.push(n);
        }
        p += 1;
    }
    out
}

/// Wire the location at `k` to every in-play location the scenario layout
/// pairs it with, both ways.
fn wire_layout_connections(state: &mut GameState, k: usize)
    requires
        old(state).wf(),
        k < old(state).locations@.len(),
    ensures
        final(state).wf(),
        *final(state) == (GameState { locations: final(state).locations, ..*old(state) }),
        wired(
            old(state).locations@,
            final(state).locations@,
            old(state).locations@[k as int].id,
            links_upto(
                old(state).locations@,
                old(state).layout@,
                old(state).locations@[k as int].id,
                old(state).locations@[k as int].code@,
                old(state).layout@.len() as int,
            ),
        ),
{
    let ghost s0 = *state;
    let id = state.locations[k].id;
    let code = state.locations[k].code.clone();
    let links = layout_links(state, id, &code);
    proof {
        lemma_links_in_play(s0.locations@, s0.layout@, id, code@, s0.layout@.len() as int);
    }
    let mut t: usize = 0;
    while t < links.len()
        invariant
            state.wf(),
            s0.wf(),
            k < s0.locations@.len(),
            id == s0.locations@[k as int].id,
            t <= links@.len(),
            forall|u: int| 0 <= u < links@.len() ==> links@[u] != id && crate::state::has_location(s0.locations@, #[trigger] links@[u]),
            *state == (GameState { locations: state.locations, ..s0 }),
            wired(s0.locations@, state.locations@, id, links@.take(t as int)),
        decreases links@.len() - t,
    {
        let ghost cur = state.locations@;
        let n = links[t];
        proof {
            assert forall|j: int| 0 <= j < s0.locations@.len() implies #[trigger] cur[j].id
                == s0.locations@[j].id by {
                assert(cur[j] == (Location { connections: cur[j].connections, ..s0.locations@[j] }));
            }
            let w = choose|w: int| 0 <= w < s0.locations@.len() && s0.locations@[w].id == n;
            assert(cur[w].id == n);
        }
        let ib = state.find_location(n).unwrap();
        proof {
            assert(cur[k as int].id == id);
        }
        connect(state, k, ib);
        proof {
            let before = s0.locations@;
            let after = state.locations@;
            let l1 = links@.take(t + 1);
            let l0 = links@.take(t as int);
            assert(l1 =~= l0.push(n));
            assert forall|j: int| 0 <= j < before.len() implies #[trigger] after[j] == (Location {
                connections: after[j].connections,
                ..before[j]
            }) by {
                assert(cur[j] == (Location { connections: cur[j].connections, ..before[j] }));
            }
            assert forall|j: int, x: LocationId|
                0 <= j < before.len() implies (#[trigger] after[j].connections@.contains(x) <==> (
                before[j].connections@.contains(x) || (before[j].id == id && l1.contains(x)) || (l1.contains(
                    before[j].id,
                ) && x == id))) by {
                assert(cur[j] == (Location { connections: cur[j].connections, ..before[j] }));
                lemma_push_contains(l0, n, x);
                lemma_push_contains(l0, n, before[j].id);
                if before[j].id == id {
                    crate::state::lemma_location_index(before, id, j);
                    crate::state::lemma_location_index(before, id, k as int);
                }
                if before[j].id == n {
                    crate::state::lemma_location_index(cur, n, j);
                }
            }
        }
        t += 1;
    }
    proof {
        assert(links@.take(links@.len() as int) =~= links@);
    }
}

/// The investigator a set-aside enemy's engagement tie is carried for: the
/// lead, or nobody in particular when nobody is left.
pub open spec fn lead_or_nobody(s: GameState) -> InvestigatorId {
    match first_active_of(s) {
        Some(l) => l,
        None => InvestigatorId(0),
    }
}

/// A location entering play from set aside: the code at `idx` leaves the
/// zone, and the location enters unrevealed and clueless under the next
/// location id, wired to its layout neighbours.
#[verifier::opaque]
pub open spec fn location_entry(
    s: GameState,
    f: GameState,
    e0: Seq<Event>,
    e1: Seq<Event>,
    r: EngineOutcome,
    idx: int,
    clues: ClueValue,
) -> bool {
    let card = s.set_aside_cards@[idx];
    let id = LocationId(s.next_location_id);
    let fresh = f.locations@.last();
    &&& f == (GameState {
        set_aside_cards: f.set_aside_cards,
        locations: f.locations,
        next_location_id: f.next_location_id,
        ..s
    })
    &&& f.set_aside_cards@ == s.set_aside_cards@.remove(idx)
    &&& f.next_location_id == s.next_location_id + 1
    &&& f.locations@.len() == s.locations@.len() + 1
    &&& fresh.id == id && fresh.code == card && !fresh.revealed && fresh.clues == 0 && fresh.printed_clues
        == clues && fresh.attachments@.len() == 0 && fresh.cards_at_location@.len() == 0
    &&& exists|placed: Seq<Location>|
        {
            &&& placed.drop_last() == s.locations@
            &&& placed.len() == s.locations@.len() + 1
            &&& placed.last() == (Location { connections: placed.last().connections, ..fresh })
            &&& placed.last().connections@.len() == 0
            &&& wired(placed, f.locations@, id, links_upto(placed, s.layout@, id, card@, s.layout@.len() as int))
        }
    &&& e1 == e0
    &&& r is Done
}

/// An asset entering play from set aside at the location `target`: the code
/// at `idx` leaves the zone and enters that location's play zone under the
/// next card instance id, controlled by no one.
#[verifier::opaque]
pub open spec fn asset_entry(
    s: GameState,
    f: GameState,
    e0: Seq<Event>,
    e1: Seq<Event>,
    r: EngineOutcome,
    idx: int,
    target: LocationId,
) -> bool {
    let card = s.set_aside_cards@[idx];
    let li = location_index(s.locations@, target);
    let loc = s.locations@[li];
    &&& f == (GameState {
        set_aside_cards: f.set_aside_cards,
        locations: f.locations,
        next_instance_id: f.next_instance_id,
        ..s
    })
    &&& f.set_aside_cards@ == s.set_aside_cards@.remove(idx)
    &&& f.next_instance_id == s.next_instance_id + 1
    &&& f.locations@.len() == s.locations@.len()
    &&& forall|j: int| 0 <= j < s.locations@.len() && j != li ==> f.locations@[j] == s.locations@[j]
    &&& f.locations@[li] == (Location { cards_at_location: f.locations@[li].cards_at_location, ..loc })
    &&& f.locations@[li].cards_at_location@ == loc.cards_at_location@.push(
        CardInPlay { code: card, instance_id: CardInstanceId(s.next_instance_id), exhausted: false },
    )
    &&& e1 == e0.push(Event::CardEnteredPlay { code: card, location: target })
    &&& r is Done
}

/// The in-play location printed `at`, if one is.
#[verifier::opaque]
pub open spec fn entry_target(s: GameState, at: Option<Seq<char>>) -> Option<LocationId> {
    if at is Some && has_location_code(s.locations@, at->0) {
        Some(s.locations@[first_location_with_code(s.locations@, at->0)].id)
    } else {
        None
    }
}

/// A refusal: nothing changes and `r` carries `why`.
pub open spec fn entry_refused(
    s: GameState,
    f: GameState,
    e0: Seq<Event>,
    e1: Seq<Event>,
    r: EngineOutcome,
    why: Reject,
) -> bool {
    f == s && e1 == e0 && r == (EngineOutcome::Rejected { reason: why })
}

/// A set-aside location with `clues` entering play: refused when given a
/// target or when the location ids are used up.
pub open spec fn location_kind_entry(
    s: GameState,
    f: GameState,
    e0: Seq<Event>,
    e1: Seq<Event>,
    r: EngineOutcome,
    idx: int,
    clues: ClueValue,
    at: Option<Seq<char>>,
) -> bool {
    if at is Some {
        entry_refused(s, f, e0, e1, r, Reject::LocationTakesNoTarget)
    } else if s.next_location_id == u32::MAX {
        entry_refused(s, f, e0, e1, r, Reject::DriveLimit)
    } else {
        location_entry(s, f, e0, e1, r, idx, clues)
    }
}

/// A set-aside enemy printed `m` spawning at the location printed `at`:
/// refused when no target is given or it is not in play.
pub open spec fn enemy_kind_entry(
    s: GameState,
    f: GameState,
    e0: Seq<Event>,
    e1: Seq<Event>,
    r: EngineOutcome,
    idx: int,
    m: CardMetadata,
    at: Option<Seq<char>>,
) -> bool {
    if at is None {
        entry_refused(s, f, e0, e1, r, Reject::NeedsLocation)
    } else if entry_target(s, at) is None {
        entry_refused(s, f, e0, e1, r, Reject::LocationNotInPlay)
    } else {
        aside_enemy_spawn(false, s, f, e0, e1, r, idx, m, m.kind->0, entry_target(s, at)->0, lead_or_nobody(s))
    }
}

/// A set-aside asset put into play at the location printed `at`: refused
/// when no target is given, it is not in play, or the instance ids are used
/// up.
pub open spec fn asset_kind_entry(
    s: GameState,
    f: GameState,
    e0: Seq<Event>,
    e1: Seq<Event>,
    r: EngineOutcome,
    idx: int,
    at: Option<Seq<char>>,
) -> bool {
    if at is None {
        entry_refused(s, f, e0, e1, r, Reject::NeedsLocation)
    } else if entry_target(s, at) is None {
        entry_refused(s, f, e0, e1, r, Reject::LocationNotInPlay)
    } else if s.next_instance_id == u32::MAX {
        entry_refused(s, f, e0, e1, r, Reject::DriveLimit)
    } else {
        asset_entry(s, f, e0, e1, r, idx, entry_target(s, at)->0)
    }
}

/// What entering play does for the set-aside card at `idx`, whose printed
/// data is `m` (at the location printed `at`, for an enemy or an asset): by
/// its type, and refused, changing nothing, for a card of any other type.
pub open spec fn kind_entry(
    s: GameState,
    f: GameState,
    e0: Seq<Event>,
    e1: Seq<Event>,
    r: EngineOutcome,
    idx: int,
    m: CardMetadata,
    at: Option<Seq<char>>,
) -> bool {
    match m.kind {
        CardKind::Location { clues } => location_kind_entry(s, f, e0, e1, r, idx, clues, at),
        CardKind::Enemy(_) => enemy_kind_entry(s, f, e0, e1, r, idx, m, at),
        CardKind::Asset => asset_kind_entry(s, f, e0, e1, r, idx, at),
        _ => entry_refused(s, f, e0, e1, r, Reject::UnsupportedCardKind),
    }
}

/// What bringing the set-aside card `code` into play (at the location
/// printed `at`, for an enemy or an asset) does. Refused, changing nothing,
/// when the code is not set aside, there is no card data or none for it, or
/// [`kind_entry`] refuses. Otherwise the code leaves the zone and the card
/// enters play by its type.
pub open spec fn entry_result(
    s: GameState,
    f: GameState,
    e0: Seq<Event>,
    e1: Seq<Event>,
    r: EngineOutcome,
    code: Seq<char>,
    at: Option<Seq<char>>,
) -> bool {
    let refused = |why: Reject| f == s && e1 == e0 && r == (EngineOutcome::Rejected { reason: why });
    if !holds_code(s.set_aside_cards@, code) {
        refused(Reject::NotSetAside)
    } else if s.registry is None {
        refused(Reject::NoRegistry)
    } else if metadata_of(s.registry->0, code) is None {
        refused(Reject::UnknownCard)
    } else {
        kind_entry(
            s,
            f,
            e0,
            e1,
            r,
            first_code_index(s.set_aside_cards@, code),
            metadata_of(s.registry->0, code)->0,
            at,
        )
    }
}

/// A set-aside location enters play (see [`location_entry`]).
fn enter_location(state: &mut GameState, pos: usize, clues: ClueValue) -> (r: EngineOutcome)
    requires
        old(state).wf(),
        pos < old(state).set_aside_cards@.len(),
        old(state).next_location_id < u32::MAX,
    ensures
        final(state).wf(),
        location_entry(*old(state), *final(state), Seq::empty(), Seq::empty(), r, pos as int, clues),
{
    reveal(location_entry);
    let ghost s0 = *state;
    let card = state.set_aside_cards.remove(pos);
    let id = LocationId(state.next_location_id);
    state.next_location_id = state.next_location_id + 1;
    state.locations.push(
        Location {
            id,
            code: card,
            revealed: false,
            clues: 0,
            printed_clues: clues,
            connections: Vec::new(),
            attachments: Vec::new(),
            cards_at_location: Vec::new(),
        },
    );
    let k = state.locations.len() - 1;
    proof {
        assert(state.locations@.drop_last() =~= s0.locations@);
        assert(location_ids_distinct(state.locations@)) by {
            assert forall|a: int, b: int|
                0 <= a < state.locations@.len() && 0 <= b < state.locations@.len() && a != b implies state.locations@[a].id
                != state.locations@[b].id by {
                if a < s0.locations@.len() {
                    assert(state.locations@[a] == s0.locations@[a]);
                }
                if b < s0.locations@.len() {
                    assert(state.locations@[b] == s0.locations@[b]);
                }
            }
        }
        assert forall|t: int| 0 <= t < state.locations@.len() implies state.locations@[t].id.0
            < state.next_location_id by {
            if t < s0.locations@.len() {
                assert(state.locations@[t] == s0.locations@[t]);
            }
        }
    }
    let ghost placed = state.locations@;
    wire_layout_connections(state, k);
    proof {
        assert(state.locations@.last() == (Location {
            connections: state.locations@.last().connections,
            ..placed.last()
        }));
    }
    EngineOutcome::Done
}

/// A set-aside asset enters play at the location at `li` (see
/// [`asset_entry`]).
fn enter_asset(state: &mut GameState, events: &mut Vec<Event>, pos: usize, location: LocationId) -> (r: EngineOutcome)
    requires
        old(state).wf(),
        pos < old(state).set_aside_cards@.len(),
        crate::state::has_location(old(state).locations@, location),
        old(state).next_instance_id < u32::MAX,
    ensures
        final(state).wf(),
        asset_entry(*old(state), *final(state), old(events)@, final(events)@, r, pos as int, location),
{
    reveal(asset_entry);
    let ghost s0 = *state;
    let li = state.find_location(location).unwrap();
    let card = state.set_aside_cards.remove(pos);
    let instance = CardInstanceId(state.next_instance_id);
    state.next_instance_id = state.next_instance_id + 1;
    let entered = CardInPlay { code: card.clone(), instance_id: instance, exhausted: false };
    state.locations[li].cards_at_location.push(entered);
    events.push(Event::CardEnteredPlay { code: card, location });
    proof {
        assert(location_ids_distinct(state.locations@)) by {
            assert forall|a: int, b: int|
                0 <= a < state.locations@.len() && 0 <= b < state.locations@.len() && a != b implies state.locations@[a].id
                != state.locations@[b].id by {
                assert(state.locations@[a].id == s0.locations@[a].id);
                assert(state.locations@[b].id == s0.locations@[b].id);
            }
        }
        assert forall|t: int| 0 <= t < state.locations@.len() implies state.locations@[t].id.0
            < state.next_location_id by {
            assert(state.locations@[t].id == s0.locations@[t].id);
        }
    }
    EngineOutcome::Done
}

/// Bring the set-aside card `code` into play, by its printed type: a
/// location enters as its own place (it takes no target) and is wired to its
/// layout neighbours; an enemy spawns at the location printed `at`; an
/// asset is put into play at that location under no one's control. Every
/// check comes before any change: a refusal changes nothing.
#[verifier::spinoff_prover]
#[verifier::rlimit(100)]
pub fn put_set_aside_card_into_play(
    state: &mut GameState,
    events: &mut Vec<Event>,
    code: &str,
    at: Option<&str>,
) -> (r: EngineOutcome)
    requires
        old(state).wf(),
    ensures
        final(state).wf(),
        entry_result(
            *old(state),
            *final(state),
            old(events)@,
            final(events)@,
            r,
            code@,
            match at {
                Some(a) => Some(a@),
                None => None,
            },
        ),
{
    let Some(pos) = position_of(&state.set_aside_cards, code) else {
        return EngineOutcome::Rejected { reason: Reject::NotSetAside };
    };
    let metadata = match &state.registry {
        None => {
            return EngineOutcome::Rejected { reason: Reject::NoRegistry };
        },
        Some(reg) => match reg.metadata_for(code) {
            None => {
                return EngineOutcome::Rejected { reason: Reject::UnknownCard };
            },
            Some(m) => m.copy(),
        },
    };
    enter_by_kind(
        state,
        events,
        pos,
        &metadata,
        at,
        Ghost(metadata_of(state.registry->0, code@)->0),
    )
}

/// The set-aside card at `pos`, whose printed data is `metadata`, enters
/// play by its type (see [`kind_entry`]).
fn enter_by_kind(
    state: &mut GameState,
    events: &mut Vec<Event>,
    pos: usize,
    metadata: &CardMetadata,
    at: Option<&str>,
    Ghost(printed): Ghost<CardMetadata>,
) -> (r: EngineOutcome)
    requires
        old(state).wf(),
        pos < old(state).set_aside_cards@.len(),
        printed.kind == metadata.kind,
        printed.traits@ == metadata.traits@,
        printed.surge == metadata.surge,
        true,
    ensures
        final(state).wf(),
        kind_entry(
            *old(state),
            *final(state),
            old(events)@,
            final(events)@,
            r,
            pos as int,
            printed,
            match at {
                Some(a) => Some(a@),
                None => None,
            },
        ),
{
    match &metadata.kind {
        CardKind::Location { .. } => enter_location_card(state, events, pos, metadata, at, Ghost(printed)),
        CardKind::Enemy(_) => enter_enemy_card(state, events, pos, metadata, at, Ghost(printed)),
        CardKind::Asset => enter_asset_card(state, events, pos, metadata, at, Ghost(printed)),
        _ => EngineOutcome::Rejected { reason: Reject::UnsupportedCardKind },
    }
}

/// A set-aside location enters play as its own place; it takes no target.
fn enter_location_card(
    state: &mut GameState,
    events: &mut Vec<Event>,
    pos: usize,
    metadata: &CardMetadata,
    at: Option<&str>,
    Ghost(printed): Ghost<CardMetadata>,
) -> (r: EngineOutcome)
    requires
        old(state).wf(),
        pos < old(state).set_aside_cards@.len(),
        printed.kind == metadata.kind,
        printed.traits@ == metadata.traits@,
        printed.surge == metadata.surge,
        metadata.kind is Location,
    ensures
        final(state).wf(),
        location_kind_entry(
            *old(state),
            *final(state),
            old(events)@,
            final(events)@,
            r,
            pos as int,
            metadata.kind->clues,
            match at {
                Some(a) => Some(a@),
                None => None,
            },
        ),
{
    if at.is_some() {
        return EngineOutcome::Rejected { reason: Reject::LocationTakesNoTarget };
    }
    if state.next_location_id == u32::MAX {
        return EngineOutcome::Rejected { reason: Reject::DriveLimit };
    }
    match &metadata.kind {
        CardKind::Location { clues } => {
            let r = enter_location(state, pos, *clues);
            proof {
                reveal(location_entry);
            }
            r
        },
        _ => EngineOutcome::Rejected { reason: Reject::UnsupportedCardKind },
    }
}

/// The in-play location printed `at`, if one is (see [`entry_target`]).
fn target_of(state: &GameState, at: Option<&str>) -> (r: Option<LocationId>)
    ensures
        r == entry_target(
            *state,
            match at {
                Some(a) => Some(a@),
                None => None,
            },
        ),
        r matches Some(l) ==> crate::state::has_location(state.locations@, l),
{
    reveal(entry_target);
    match at {
        None => None,
        Some(code) => state.location_id_by_code(code),
    }
}

/// A set-aside enemy spawns at the location printed `at`.
fn enter_enemy_card(
    state: &mut GameState,
    events: &mut Vec<Event>,
    pos: usize,
    metadata: &CardMetadata,
    at: Option<&str>,
    Ghost(printed): Ghost<CardMetadata>,
) -> (r: EngineOutcome)
    requires
        old(state).wf(),
        pos < old(state).set_aside_cards@.len(),
        printed.kind == metadata.kind,
        printed.traits@ == metadata.traits@,
        printed.surge == metadata.surge,
        metadata.kind is Enemy,
    ensures
        final(state).wf(),
        enemy_kind_entry(
            *old(state),
            *final(state),
            old(events)@,
            final(events)@,
            r,
            pos as int,
            printed,
            match at {
                Some(a) => Some(a@),
                None => None,
            },
        ),
{
    if at.is_none() {
        return EngineOutcome::Rejected { reason: Reject::NeedsLocation };
    }
    let Some(location) = target_of(state, at) else {
        return EngineOutcome::Rejected { reason: Reject::LocationNotInPlay };
    };
    let lead = match first_active_investigator(state) {
        Some(l) => l,
        None => InvestigatorId(0),
    };
    spawn_aside_enemy_at(state, events, false, pos, location, lead, metadata, Ghost(printed))
}

/// A set-aside asset is put into play at the location printed `at`, under
/// no one's control.
fn enter_asset_card(
    state: &mut GameState,
    events: &mut Vec<Event>,
    pos: usize,
    metadata: &CardMetadata,
    at: Option<&str>,
    Ghost(printed): Ghost<CardMetadata>,
) -> (r: EngineOutcome)
    requires
        old(state).wf(),
        pos < old(state).set_aside_cards@.len(),
        printed.kind == metadata.kind,
        printed.traits@ == metadata.traits@,
        printed.surge == metadata.surge,
        metadata.kind is Asset,
    ensures
        final(state).wf(),
        asset_kind_entry(
            *old(state),
            *final(state),
            old(events)@,
            final(events)@,
            r,
            pos as int,
            match at {
                Some(a) => Some(a@),
                None => None,
            },
        ),
{
    if at.is_none() {
        return EngineOutcome::Rejected { reason: Reject::NeedsLocation };
    }
    let Some(location) = target_of(state, at) else {
        return EngineOutcome::Rejected { reason: Reject::LocationNotInPlay };
    };
    if state.next_instance_id == u32::MAX {
        return EngineOutcome::Rejected { reason: Reject::DriveLimit };
    }
    enter_asset(state, events, pos, location)
}

} // verus!
