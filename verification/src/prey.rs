//! Prey resolution (Rules Reference p.12 / p.17): narrowing a candidate set
//! of investigators by an enemy's prey instruction.
use vstd::prelude::*;

use crate::cards::{abilities_of, Ability, CardRegistry, Effect, Stat};
use crate::seqs::{lemma_filter_step, lemma_take_full};
use crate::state::{
    has_investigator, investigator_ids_distinct, investigator_index, skill_value, CardInPlay,
    GameState, Investigator, InvestigatorId, Prey, PreyDirection, PreyMeasure, SkillKind,
};

verus! {

/// The outcome of narrowing a candidate set by a prey instruction.
pub enum PreyResolution {
    /// Exactly one investigator best meets the instruction.
    One(InvestigatorId),
    /// Two or more tie; the lead investigator decides (in input order).
    Tie(Vec<InvestigatorId>),
    /// No candidates at all.
    Nobody,
}

/// `v` clamped to the `i8` range.
pub open spec fn clamp8(v: int) -> int {
    if v > 127 {
        127
    } else if v < -128 {
        -128
    } else {
        v
    }
}

/// The stat a prey skill measure reads.
pub open spec fn skill_stat(k: SkillKind) -> Stat {
    match k {
        SkillKind::Willpower => Stat::Willpower,
        SkillKind::Intellect => Stat::Intellect,
        SkillKind::Combat => Stat::Combat,
        SkillKind::Agility => Stat::Agility,
    }
}

/// Folding one ability into a running modifier to `stat`: a constant
/// `ModifyStat` of that stat adds its amount (clamped to `i8`).
pub open spec fn fold_ability(acc: int, a: Ability, stat: Stat) -> int {
    if a.trigger is Constant {
        match a.effect {
            Effect::ModifyStat { stat: s, amount } => if s == stat {
                clamp8(acc + amount)
            } else {
                acc
            },
            _ => acc,
        }
    } else {
        acc
    }
}

/// The running modifier to `stat` after folding every ability in `abs`.
pub open spec fn fold_abilities(acc: int, abs: Seq<Ability>, stat: Stat) -> int
    decreases abs.len(),
{
    if abs.len() == 0 {
        acc
    } else {
        fold_ability(fold_abilities(acc, abs.drop_last(), stat), abs.last(), stat)
    }
}

/// The running modifier to `stat` after folding every ability of every card
/// in `cards`.
pub open spec fn fold_cards(acc: int, reg: Option<CardRegistry>, cards: Seq<CardInPlay>, stat: Stat)
    -> int
    decreases cards.len(),
{
    if cards.len() == 0 {
        acc
    } else {
        fold_abilities(
            fold_cards(acc, reg, cards.drop_last(), stat),
            abilities_of(reg, cards.last().code@),
            stat,
        )
    }
}

/// The always-on modifier to `stat` that `inv`'s cards in play grant.
pub open spec fn stat_modifier(reg: Option<CardRegistry>, inv: Investigator, stat: Stat) -> int {
    fold_cards(0, reg, inv.cards_in_play@, stat)
}

/// The value `inv` scores for `measure`: the base value plus the always-on
/// modifiers to that stat, floored at zero.
pub open spec fn measure_of(reg: Option<CardRegistry>, inv: Investigator, measure: PreyMeasure) -> int {
    let (base, stat) = match measure {
        PreyMeasure::Skill(k) => (skill_value(inv.skills, k) as int, skill_stat(k)),
        PreyMeasure::RemainingHealth => (inv.max_health - inv.damage, Stat::MaxHealth),
    };
    let v = base + stat_modifier(reg, inv, stat);
    if v < 0 {
        0
    } else {
        v
    }
}

/// The score of the seated investigator `id` among `invs`.
pub open spec fn score_in(
    invs: Seq<Investigator>,
    reg: Option<CardRegistry>,
    id: InvestigatorId,
    measure: PreyMeasure,
) -> int {
    measure_of(reg, invs[investigator_index(invs, id)], measure)
}

/// The score of the seated investigator `id`.
pub open spec fn score_of(s: GameState, id: InvestigatorId, measure: PreyMeasure) -> int {
    score_in(s.investigators@, s.registry, id, measure)
}

/// The most extreme score among the seated candidates of `c` (`None` when
/// none is seated).
pub open spec fn extreme_in(
    invs: Seq<Investigator>,
    reg: Option<CardRegistry>,
    c: Seq<InvestigatorId>,
    dir: PreyDirection,
    m: PreyMeasure,
) -> Option<int>
    decreases c.len(),
{
    if c.len() == 0 {
        None
    } else {
        let rest = extreme_in(invs, reg, c.drop_last(), dir, m);
        let id = c.last();
        if !has_investigator(invs, id) {
            rest
        } else {
            let v = score_in(invs, reg, id, m);
            match rest {
                None => Some(v),
                Some(e) => Some(
                    match dir {
                        PreyDirection::Highest => if e >= v {
                            e
                        } else {
                            v
                        },
                        PreyDirection::Lowest => if e <= v {
                            e
                        } else {
                            v
                        },
                    },
                ),
            }
        }
    }
}

/// The most extreme score among the seated candidates of `c`.
pub open spec fn extreme_of(s: GameState, c: Seq<InvestigatorId>, dir: PreyDirection, m: PreyMeasure)
    -> Option<int> {
    extreme_in(s.investigators@, s.registry, c, dir, m)
}

/// The candidates that best meet `prey` among `invs`, in input order.
pub open spec fn best_in(
    invs: Seq<Investigator>,
    reg: Option<CardRegistry>,
    prey: Prey,
    c: Seq<InvestigatorId>,
) -> Seq<InvestigatorId> {
    match prey {
        Prey::Default => c,
        Prey::Ranked { direction, measure } => c.filter(
            |id: InvestigatorId|
                has_investigator(invs, id) && extreme_in(invs, reg, c, direction, measure) == Some(
                    score_in(invs, reg, id, measure),
                ),
        ),
    }
}

/// The candidates that best meet `prey`, in input order.
pub open spec fn best_of(s: GameState, prey: Prey, c: Seq<InvestigatorId>) -> Seq<InvestigatorId> {
    best_in(s.investigators@, s.registry, prey, c)
}

/// Whether `r` is the resolution of the best set `best`: none, one, or a tie.
pub open spec fn resolves_to(r: PreyResolution, best: Seq<InvestigatorId>) -> bool {
    match r {
        PreyResolution::Nobody => best.len() == 0,
        PreyResolution::One(id) => best.len() == 1 && best[0] == id,
        PreyResolution::Tie(v) => best.len() >= 2 && v@ == best,
    }
}

/// The modifier to `stat` after folding `abs` into `acc`.
fn fold_ability_modifiers(acc: i8, abs: &Vec<Ability>, stat: Stat) -> (r: i8)
    ensures
        r == fold_abilities(acc as int, abs@, stat),
{
    let mut m = acc;
    let mut k: usize = 0;
    while k < abs.len()
        invariant
            k <= abs@.len(),
            m == fold_abilities(acc as int, abs@.take(k as int), stat),
        decreases abs@.len() - k,
    {
        proof {
            assert(abs@.take(k + 1).drop_last() =~= abs@.take(k as int));
        }
        if let crate::cards::Trigger::Constant = abs[k].trigger {
            if let Effect::ModifyStat { stat: s, amount } = abs[k].effect {
                if s == stat {
                    let t: i16 = m as i16 + amount as i16;
                    m = if t > 127 {
                        127
                    } else if t < -128 {
                        -128
                    } else {
                        t as i8
                    };
                }
            }
        }
        k += 1;
    }
    proof {
        lemma_take_full(abs@);
    }
    m
}

/// The always-on modifier to `stat` from `cards` under the corpus `reg`.
pub fn unconditional_constant_stat_modifier(
    reg: Option<&CardRegistry>,
    cards: &Vec<CardInPlay>,
    stat: Stat,
) -> (r: i8)
    ensures
        r == fold_cards(
            0,
            match reg {
                Some(x) => Some(*x),
                None => None,
            },
            cards@,
            stat,
        ),
{
    let ghost greg = match reg {
        Some(x) => Some(*x),
        None => None::<CardRegistry>,
    };
    let mut m: i8 = 0;
    let mut c: usize = 0;
    while c < cards.len()
        invariant
            c <= cards@.len(),
            greg == match reg {
                Some(x) => Some(*x),
                None => None::<CardRegistry>,
            },
            m == fold_cards(0, greg, cards@.take(c as int), stat),
        decreases cards@.len() - c,
    {
        proof {
            assert(cards@.take(c + 1).drop_last() =~= cards@.take(c as int));
            assert(cards@.take(c + 1).last() == cards@[c as int]);
        }
        match reg {
            Some(r) => match r.metadata_for(cards[c].code.as_str()) {
                Some(meta) => {
                    m = fold_ability_modifiers(m, &meta.abilities, stat);
                },
                None => {
                    proof {
                        assert(fold_abilities(m as int, Seq::<Ability>::empty(), stat) == m);
                    }
                },
            },
            None => {
                proof {
                    assert(fold_abilities(m as int, Seq::<Ability>::empty(), stat) == m);
                }
            },
        }
        c += 1;
    }
    proof {
        lemma_take_full(cards@);
    }
    m
}

/// The modified value `inv` scores for a comparative prey `measure`.
pub fn measure_value(registry: Option<&CardRegistry>, inv: &Investigator, measure: PreyMeasure)
    -> (r: i32)
    ensures
        r == measure_of(
            match registry {
                Some(x) => Some(*x),
                None => None,
            },
            *inv,
            measure,
        ),
{
    let (base, stat): (i32, Stat) = match measure {
        PreyMeasure::Skill(kind) => (inv.skills.value(kind) as i32, skill_to_stat(kind)),
        PreyMeasure::RemainingHealth => (
            inv.max_health as i32 - inv.damage as i32,
            Stat::MaxHealth,
        ),
    };
    let modifier = unconditional_constant_stat_modifier(registry, &inv.cards_in_play, stat);
    let v = base + modifier as i32;
    if v < 0 {
        0
    } else {
        v
    }
}

/// Map a prey skill measure to its stat for the modifier lookup.
pub fn skill_to_stat(kind: SkillKind) -> (r: Stat)
    ensures
        r == skill_stat(kind),
{
    match kind {
        SkillKind::Willpower => Stat::Willpower,
        SkillKind::Intellect => Stat::Intellect,
        SkillKind::Combat => Stat::Combat,
        SkillKind::Agility => Stat::Agility,
    }
}

/// Narrow `candidates` by `prey`. `Default` keeps every candidate; `Ranked`
/// keeps the seated candidates with the most extreme measure, in input
/// order. One best candidate resolves to `One`, two or more to `Tie`, none
/// to `None`.
pub fn resolve_prey(state: &GameState, prey: Prey, candidates: &Vec<InvestigatorId>) -> (r:
    PreyResolution)
    requires
        investigator_ids_distinct(state.investigators@),
    ensures
        resolves_to(r, best_of(*state, prey, candidates@)),
{
    if candidates.len() == 0 {
        proof {
            match prey {
                Prey::Default => {},
                Prey::Ranked { direction, measure } => {
                    let p = |id: InvestigatorId|
                        has_investigator(state.investigators@, id) && extreme_in(state.investigators@, state.registry, candidates@,
                            direction,
                            measure,
                        ) == Some(score_in(state.investigators@, state.registry, id, measure));
                    assert(candidates@ =~= candidates@.take(0));
                    reveal(Seq::filter);
                },
            }
        }
        return PreyResolution::Nobody;
    }
    let best: Vec<InvestigatorId> = match prey {
        Prey::Default => {
            let mut v: Vec<InvestigatorId> = Vec::new();
            let mut i: usize = 0;
            while i < candidates.len()
                invariant
                    i <= candidates@.len(),
                    v@ == candidates@.take(i as int),
                decreases candidates@.len() - i,
            {
                v.push(candidates[i]);
                proof {
                    assert(candidates@.take(i + 1) =~= candidates@.take(i as int).push(
                        candidates@[i as int],
                    ));
                }
                i += 1;
            }
            proof {
                lemma_take_full(candidates@);
            }
            v
        },
        Prey::Ranked { direction, measure } => {
            let reg = state.registry.as_ref();
            // Pass one: the extreme score among the seated candidates.
            let mut extreme: Option<i32> = None;
            let mut i: usize = 0;
            while i < candidates.len()
                invariant
                    i <= candidates@.len(),
                    investigator_ids_distinct(state.investigators@),
                    reg == match state.registry {
                        Some(x) => Some(&x),
                        None => None,
                    },
                    match extreme {
                        Some(e) => extreme_in(state.investigators@, state.registry, candidates@.take(i as int), direction, measure)
                            == Some(e as int),
                        None => extreme_in(state.investigators@, state.registry, candidates@.take(i as int), direction, measure)
                            is None,
                    },
                decreases candidates@.len() - i,
            {
                proof {
                    assert(candidates@.take(i + 1).drop_last() =~= candidates@.take(i as int));
                    assert(candidates@.take(i + 1).last() == candidates@[i as int]);
                }
                if let Some(k) = state.find_investigator(candidates[i]) {
                    let v = measure_value(reg, &state.investigators[k], measure);
                    extreme = match extreme {
                        None => Some(v),
                        Some(e) => Some(
                            match direction {
                                PreyDirection::Highest => if e >= v {
                                    e
                                } else {
                                    v
                                },
                                PreyDirection::Lowest => if e <= v {
                                    e
                                } else {
                                    v
                                },
                            },
                        ),
                    };
                }
                i += 1;
            }
            proof {
                lemma_take_full(candidates@);
            }
            // Pass two: keep the seated candidates scoring the extreme.
            let ghost p = |id: InvestigatorId|
                has_investigator(state.investigators@, id) && extreme_in(state.investigators@, state.registry, candidates@,
                    direction,
                    measure,
                ) == Some(score_in(state.investigators@, state.registry, id, measure));
            let mut v: Vec<InvestigatorId> = Vec::new();
            let mut j: usize = 0;
            while j < candidates.len()
                invariant
                    j <= candidates@.len(),
                    investigator_ids_distinct(state.investigators@),
                    reg == match state.registry {
                        Some(x) => Some(&x),
                        None => None,
                    },
                    match extreme {
                        Some(e) => extreme_in(state.investigators@, state.registry, candidates@, direction, measure) == Some(
                            e as int,
                        ),
                        None => extreme_in(state.investigators@, state.registry, candidates@, direction, measure) is None,
                    },
                    p == (|id: InvestigatorId|
                        has_investigator(state.investigators@, id) && extreme_in(state.investigators@, state.registry, candidates@,
                            direction,
                            measure,
                        ) == Some(score_in(state.investigators@, state.registry, id, measure))),
                    v@ == candidates@.take(j as int).filter(p),
                decreases candidates@.len() - j,
            {
                proof {
                    lemma_filter_step(candidates@, p, j as int);
                }
                if let Some(k) = state.find_investigator(candidates[j]) {
                    let s = measure_value(reg, &state.investigators[k], measure);
                    if extreme == Some(s) {
                        v.push(candidates[j]);
                    }
                }
                j += 1;
            }
            proof {
                lemma_take_full(candidates@);
            }
            v
        },
    };
    if best.len() == 0 {
        PreyResolution::Nobody
    } else if best.len() == 1 {
        PreyResolution::One(best[0])
    } else {
        PreyResolution::Tie(best)
    }
}


/// The extreme score is held by a seated candidate, bounds the score of
/// every seated candidate in its direction, and exists exactly when some
/// candidate is seated.
proof fn lemma_extreme_in(
    invs: Seq<Investigator>,
    reg: Option<CardRegistry>,
    c: Seq<InvestigatorId>,
    dir: PreyDirection,
    m: PreyMeasure,
)
    ensures
        extreme_in(invs, reg, c, dir, m) is Some <==> exists|i: int|
            0 <= i < c.len() && has_investigator(invs, #[trigger] c[i]),
        extreme_in(invs, reg, c, dir, m) matches Some(e) ==> exists|i: int|
            0 <= i < c.len() && has_investigator(invs, #[trigger] c[i]) && score_in(invs, reg, c[i], m) == e,
        extreme_in(invs, reg, c, dir, m) matches Some(e) ==> forall|i: int|
            0 <= i < c.len() && has_investigator(invs, #[trigger] c[i]) ==> match dir {
                PreyDirection::Highest => score_in(invs, reg, c[i], m) <= e,
                PreyDirection::Lowest => score_in(invs, reg, c[i], m) >= e,
            },
    decreases c.len(),
{
    if c.len() > 0 {
        let t = c.drop_last();
        lemma_extreme_in(invs, reg, t, dir, m);
        assert forall|i: int| 0 <= i < t.len() implies #[trigger] t[i] == c[i] by {}
        if extreme_in(invs, reg, t, dir, m) is Some {
            let w = choose|i: int| 0 <= i < t.len() && has_investigator(invs, #[trigger] t[i])
                && score_in(invs, reg, t[i], m) == extreme_in(invs, reg, t, dir, m).unwrap();
            assert(c[w] == t[w]);
        }
        if has_investigator(invs, c.last()) {
            assert(c[c.len() - 1] == c.last());
        }
        assert forall|i: int| 0 <= i < c.len() && has_investigator(invs, #[trigger] c[i]) implies i
            == c.len() - 1 || (0 <= i < t.len() && has_investigator(invs, t[i])) by {}
    }
}

/// Prey narrows, never invents: every investigator it keeps is one of the
/// candidates; it keeps someone whenever a candidate qualifies (any
/// candidate under `Default`, a seated one under `Ranked`); and under
/// `Ranked` each one kept scores at least as well, in the instruction's
/// direction, as every seated candidate.
pub proof fn law_prey_keeps_the_most_extreme(s: GameState, prey: Prey, c: Seq<InvestigatorId>)
    ensures
        forall|k: int| 0 <= k < best_of(s, prey, c).len() ==> c.contains(#[trigger] best_of(s, prey, c)[k]),
        prey is Default ==> best_of(s, prey, c) == c,
        (exists|i: int| 0 <= i < c.len() && has_investigator(s.investigators@, #[trigger] c[i]))
            ==> best_of(s, prey, c).len() > 0,
        prey matches Prey::Ranked { direction, measure } ==> forall|k: int, i: int|
            0 <= k < best_of(s, prey, c).len() && 0 <= i < c.len() && has_investigator(
                s.investigators@,
                #[trigger] c[i],
            ) ==> match direction {
                PreyDirection::Highest => score_of(s, c[i], measure) <= score_of(
                    s,
                    #[trigger] best_of(s, prey, c)[k],
                    measure,
                ),
                PreyDirection::Lowest => score_of(s, c[i], measure) >= score_of(
                    s,
                    best_of(s, prey, c)[k],
                    measure,
                ),
            },
{
    let invs = s.investigators@;
    let reg = s.registry;
    match prey {
        Prey::Default => {
            assert forall|k: int| 0 <= k < c.len() implies c.contains(#[trigger] c[k]) by {}
            if exists|i: int| 0 <= i < c.len() && has_investigator(invs, #[trigger] c[i]) {
                let i = choose|i: int| 0 <= i < c.len() && has_investigator(invs, #[trigger] c[i]);
                assert(c.len() > 0);
            }
        },
        Prey::Ranked { direction, measure } => {
            let p = |id: InvestigatorId|
                has_investigator(invs, id) && extreme_in(invs, reg, c, direction, measure) == Some(
                    score_in(invs, reg, id, measure),
                );
            assert(best_of(s, prey, c) == c.filter(p));
            crate::seqs::lemma_filter_members(c, p);
            lemma_extreme_in(invs, reg, c, direction, measure);
            if exists|i: int| 0 <= i < c.len() && has_investigator(invs, #[trigger] c[i]) {
                let e = extreme_in(invs, reg, c, direction, measure).unwrap();
                let w = choose|i: int| 0 <= i < c.len() && has_investigator(invs, #[trigger] c[i])
                    && score_in(invs, reg, c[i], measure) == e;
                assert(p(c[w]));
                c.lemma_filter_contains(p, w);
            }
            assert forall|k: int, i: int|
                0 <= k < c.filter(p).len() && 0 <= i < c.len() && has_investigator(invs, #[trigger] c[i])
                    implies match direction {
                PreyDirection::Highest => score_of(s, c[i], measure) <= score_of(
                    s,
                    #[trigger] c.filter(p)[k],
                    measure,
                ),
                PreyDirection::Lowest => score_of(s, c[i], measure) >= score_of(s, c.filter(p)[k], measure),
            } by {
                assert(p(c.filter(p)[k]));
            }
        },
    }
}


/// With no card data, no card modifies a stat.
proof fn lemma_no_registry_no_modifier(cards: Seq<CardInPlay>, stat: Stat)
    ensures
        fold_cards(0, None, cards, stat) == 0,
    decreases cards.len(),
{
    if cards.len() > 0 {
        lemma_no_registry_no_modifier(cards.drop_last(), stat);
        assert(abilities_of(None, cards.last().code@) =~= Seq::<Ability>::empty());
    }
}

/// With no cards in play, no card modifies a stat.
proof fn lemma_no_cards_no_modifier(reg: Option<CardRegistry>, inv: Investigator, stat: Stat)
    requires
        inv.cards_in_play@.len() == 0,
    ensures
        stat_modifier(reg, inv, stat) == 0,
{
}

/// A prey measure reads the investigator's own printed values: when no card
/// modifies them (no card data, or no cards in play), the willpower,
/// intellect, combat and agility measures are exactly those skills, and the
/// remaining-health measure is health minus damage, floored at zero.
pub proof fn law_prey_measures_read_the_named_value(reg: Option<CardRegistry>, inv: Investigator)
    requires
        reg is None || inv.cards_in_play@.len() == 0,
    ensures
        measure_of(reg, inv, PreyMeasure::Skill(SkillKind::Willpower)) == inv.skills.willpower,
        measure_of(reg, inv, PreyMeasure::Skill(SkillKind::Intellect)) == inv.skills.intellect,
        measure_of(reg, inv, PreyMeasure::Skill(SkillKind::Combat)) == inv.skills.combat,
        measure_of(reg, inv, PreyMeasure::Skill(SkillKind::Agility)) == inv.skills.agility,
        measure_of(reg, inv, PreyMeasure::RemainingHealth) == (if inv.damage >= inv.max_health {
            0
        } else {
            inv.max_health - inv.damage
        }),
{
    assert forall|stat: Stat| #[trigger] stat_modifier(reg, inv, stat) == 0 by {
        if reg is None {
            lemma_no_registry_no_modifier(inv.cards_in_play@, stat);
        } else {
            lemma_no_cards_no_modifier(reg, inv, stat);
        }
    }
}

} // verus!
