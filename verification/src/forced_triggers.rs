//! Forced-trigger dispatch: the mandatory abilities printed on locations,
//! acts, agendas, enemies and in-play cards, collected at a framework timing
//! point and queued beneath the [`queue_event`](crate::emit::queue_event)
//! chokepoint. Multiple simultaneous hits come out in a fixed deterministic
//! order: board cards first, then each investigator's cards in seat order.
use vstd::prelude::*;

use crate::cards::{
    abilities_of, effect_can_change_state, effect_changes_state, is_weakness, metadata_of,
    phase_as_dsl, Ability, CardRegistry, DslPhase, Effect, EventPattern, EventTiming,
    SkillTestKind, TestOutcome, Trigger, TriggerKind,
};
use crate::movement::location_side_abilities;
use crate::seqs::{lemma_filter_step, lemma_take_full};
use crate::state::{
    enemy_ids_distinct, enemy_index, has_enemy, has_location, location_ids_distinct,
    location_index, CandidateSource, CardCode, CardInPlay, Continuation, EnemyId, GameState,
    Investigator, InvestigatorId, LocationId, Phase, ResolutionCandidate, Status,
};

verus! {

/// A framework timing point at which forced abilities may fire, with the
/// binding context the fired effect needs.
pub enum ForcedTriggerPoint {
    /// An investigator entered a location: the location's own abilities.
    EnteredLocation { investigator: InvestigatorId, location: LocationId },
    /// A phase began: the current act and agenda.
    PhaseStarted { phase: Phase },
    /// A phase ended: the current act and agenda.
    PhaseEnded { phase: Phase },
    /// An act advanced: the leaving act's card.
    ActAdvanced { code: CardCode },
    /// An agenda advanced: the leaving agenda's card.
    AgendaAdvanced { code: CardCode },
    /// An enemy was defeated: the current act.
    EnemyDefeated { code: CardCode },
    /// An enemy attacked: the attacking enemy's own card.
    EnemyAttacks { enemy: EnemyId, investigator: InvestigatorId },
    /// The round ended: act, agenda, and every active investigator's cards.
    RoundEnded,
    /// An investigator's turn ended: that investigator's cards.
    EndOfTurn { investigator: InvestigatorId },
    /// A skill test resolved: the tester's cards, then the attachments of
    /// the location under test.
    SkillTestResolved { investigator: InvestigatorId, kind: SkillTestKind, outcome: TestOutcome },
    /// The game ended: every active investigator's cards.
    GameEnd,
    /// The game ended for one eliminated investigator: their weaknesses.
    EliminationGameEnd { investigator: InvestigatorId },
    /// An investigator left a location: the location's attachments.
    LeftLocation { investigator: InvestigatorId, location: LocationId },
}

/// Which printed triggering condition a scan is looking for.
pub enum Want {
    EnteredLocation,
    PhaseStarted(DslPhase),
    PhaseEnded(DslPhase),
    ActAdvanced,
    AgendaAdvanced,
    /// An enemy with this code was defeated (matches an unnarrowed pattern
    /// or one narrowed to this code).
    EnemyDefeated(CardCode),
    EnemyAttacks,
    RoundEnded,
    EndOfTurn,
    SkillTestResolved(SkillTestKind, TestOutcome),
    GameEnd,
    LeftLocation,
}

/// Whether the printed pattern `p` is what `w` looks for.
pub open spec fn wants(w: Want, p: EventPattern) -> bool {
    match (w, p) {
        (Want::EnteredLocation, EventPattern::EnteredLocation) => true,
        (Want::PhaseStarted(a), EventPattern::PhaseStarted { phase }) => a == phase,
        (Want::PhaseEnded(a), EventPattern::PhaseEnded { phase }) => a == phase,
        (Want::ActAdvanced, EventPattern::ActAdvanced) => true,
        (Want::AgendaAdvanced, EventPattern::AgendaAdvanced) => true,
        (Want::EnemyDefeated(c), EventPattern::EnemyDefeated { code, .. }) => match code {
            Some(n) => n@ == c@,
            None => true,
        },
        (Want::EnemyAttacks, EventPattern::EnemyAttacks) => true,
        (Want::RoundEnded, EventPattern::RoundEnded) => true,
        (Want::EndOfTurn, EventPattern::EndOfTurn) => true,
        (Want::SkillTestResolved(k, o), EventPattern::SkillTestResolved { kind, outcome }) => o
            == outcome && match kind {
            Some(n) => n == k,
            None => true,
        },
        (Want::GameEnd, EventPattern::GameEnd) => true,
        (Want::LeftLocation, EventPattern::LeftLocation) => true,
        _ => false,
    }
}

/// Whether `p` is what `w` looks for.
pub fn pattern_wanted(w: &Want, p: &EventPattern) -> (r: bool)
    ensures
        r == wants(*w, *p),
{
    match (w, p) {
        (Want::EnteredLocation, EventPattern::EnteredLocation) => true,
        (Want::PhaseStarted(a), EventPattern::PhaseStarted { phase }) => *a == *phase,
        (Want::PhaseEnded(a), EventPattern::PhaseEnded { phase }) => *a == *phase,
        (Want::ActAdvanced, EventPattern::ActAdvanced) => true,
        (Want::AgendaAdvanced, EventPattern::AgendaAdvanced) => true,
        (Want::EnemyDefeated(c), EventPattern::EnemyDefeated { code, .. }) => match code {
            Some(n) => *n == *c,
            None => true,
        },
        (Want::EnemyAttacks, EventPattern::EnemyAttacks) => true,
        (Want::RoundEnded, EventPattern::RoundEnded) => true,
        (Want::EndOfTurn, EventPattern::EndOfTurn) => true,
        (Want::SkillTestResolved(k, o), EventPattern::SkillTestResolved { kind, outcome }) => *o
            == *outcome && match kind {
            Some(n) => *n == *k,
            None => true,
        },
        (Want::GameEnd, EventPattern::GameEnd) => true,
        (Want::LeftLocation, EventPattern::LeftLocation) => true,
        _ => false,
    }
}

/// Whether `a` is a forced ability of the cell `bucket` keyed to what `w`
/// looks for.
pub open spec fn forced_match(a: Ability, bucket: EventTiming, w: Want) -> bool {
    match a.trigger {
        Trigger::OnEvent { pattern, timing, kind } => kind == TriggerKind::Forced && timing
            == bucket && wants(w, pattern),
        _ => false,
    }
}

/// The candidates the first `n` abilities of `abs` (printed on `code`)
/// produce.
pub open spec fn matching_upto(
    abs: Seq<Ability>,
    code: CardCode,
    controller: InvestigatorId,
    source: CandidateSource,
    bucket: EventTiming,
    w: Want,
    n: int,
) -> Seq<ResolutionCandidate>
    decreases n,
{
    if n <= 0 {
        Seq::empty()
    } else {
        let prev = matching_upto(abs, code, controller, source, bucket, w, n - 1);
        if forced_match(abs[n - 1], bucket, w) {
            prev.push(ResolutionCandidate { code, controller, address: (n - 1) as usize, source })
        } else {
            prev
        }
    }
}

/// The candidates every ability of `abs` produces.
pub open spec fn matching(
    abs: Seq<Ability>,
    code: CardCode,
    controller: InvestigatorId,
    source: CandidateSource,
    bucket: EventTiming,
    w: Want,
) -> Seq<ResolutionCandidate> {
    matching_upto(abs, code, controller, source, bucket, w, abs.len() as int)
}

/// The candidates the cards in `cards` produce for `controller`; with
/// `weak_only`, only weaknesses are scanned.
pub open spec fn cards_hits(
    reg: Option<CardRegistry>,
    cards: Seq<CardInPlay>,
    controller: InvestigatorId,
    bucket: EventTiming,
    w: Want,
    weak_only: bool,
) -> Seq<ResolutionCandidate>
    decreases cards.len(),
{
    if cards.len() == 0 {
        Seq::empty()
    } else {
        let prev = cards_hits(reg, cards.drop_last(), controller, bucket, w, weak_only);
        let c = cards.last();
        if !weak_only || is_weakness(reg, c.code@) {
            prev + matching(
                abilities_of(reg, c.code@),
                c.code,
                controller,
                CandidateSource::InPlay(c.instance_id),
                bucket,
                w,
            )
        } else {
            prev
        }
    }
}

/// The candidates the cards an investigator controls produce: threat
/// area, then play area.
pub open spec fn controlled_hits(
    reg: Option<CardRegistry>,
    inv: Investigator,
    controller: InvestigatorId,
    bucket: EventTiming,
    w: Want,
    weak_only: bool,
) -> Seq<ResolutionCandidate> {
    cards_hits(reg, inv.threat_area@, controller, bucket, w, weak_only) + cards_hits(
        reg,
        inv.cards_in_play@,
        controller,
        bucket,
        w,
        weak_only,
    )
}

/// The candidates every `Active` investigator of `invs` produces.
pub open spec fn active_investigators_hits(
    reg: Option<CardRegistry>,
    invs: Seq<Investigator>,
    bucket: EventTiming,
    w: Want,
) -> Seq<ResolutionCandidate>
    decreases invs.len(),
{
    if invs.len() == 0 {
        Seq::empty()
    } else {
        let prev = active_investigators_hits(reg, invs.drop_last(), bucket, w);
        let inv = invs.last();
        if inv.status == Status::Active {
            prev + controlled_hits(reg, inv, inv.id, bucket, w, false)
        } else {
            prev
        }
    }
}

/// The candidates the current act and agenda produce, bound to `lead`.
pub open spec fn board_hits(s: GameState, lead: InvestigatorId, bucket: EventTiming, w: Want) -> Seq<
    ResolutionCandidate,
> {
    let act_hits = if s.act_index < s.act_deck@.len() {
        let code = s.act_deck@[s.act_index as int].code;
        matching(abilities_of(s.registry, code@), code, lead, CandidateSource::Board, bucket, w)
    } else {
        Seq::empty()
    };
    let agenda_hits = if s.agenda_index < s.agenda_deck@.len() {
        let code = s.agenda_deck@[s.agenda_index as int].code;
        matching(abilities_of(s.registry, code@), code, lead, CandidateSource::Board, bucket, w)
    } else {
        Seq::empty()
    };
    act_hits + agenda_hits
}

/// The candidates the current act alone produces, bound to `lead`.
pub open spec fn act_hits(s: GameState, lead: InvestigatorId, bucket: EventTiming, w: Want) -> Seq<
    ResolutionCandidate,
> {
    if s.act_index < s.act_deck@.len() {
        let code = s.act_deck@[s.act_index as int].code;
        matching(abilities_of(s.registry, code@), code, lead, CandidateSource::Board, bucket, w)
    } else {
        Seq::empty()
    }
}

/// The abilities a candidate from `source` printed on `code` resolves
/// against: a location's in-effect side, or the printed abilities.
pub open spec fn source_abilities(s: GameState, source: CandidateSource, code: Seq<char>) -> Seq<
    Ability,
> {
    match source {
        CandidateSource::Location(l) => if has_location(s.locations@, l) {
            location_side_abilities(s.registry, s.locations@[location_index(s.locations@, l)])
        } else {
            Seq::empty()
        },
        _ => abilities_of(s.registry, code),
    }
}

/// Whether the candidate's ability has the potential to change the game
/// state (Rules Reference p.2: a forced ability without it does not
/// initiate).
pub open spec fn initiable(s: GameState, c: ResolutionCandidate) -> bool {
    let abs = source_abilities(s, c.source, c.code@);
    0 <= c.address < abs.len() && effect_changes_state(abs[c.address as int].effect)
}

/// Every forced candidate `point` produces in the cell `bucket`, before the
/// initiation gate.
#[verifier::opaque]
pub open spec fn raw_hits(s: GameState, point: ForcedTriggerPoint, bucket: EventTiming) -> Seq<
    ResolutionCandidate,
> {
    let lead = s.turn_order@[0];
    let has_lead = s.turn_order@.len() > 0;
    match point {
        ForcedTriggerPoint::EnteredLocation { investigator, location } => if has_location(
            s.locations@,
            location,
        ) {
            let loc = s.locations@[location_index(s.locations@, location)];
            matching(
                location_side_abilities(s.registry, loc),
                loc.code,
                investigator,
                CandidateSource::Location(location),
                bucket,
                Want::EnteredLocation,
            )
        } else {
            Seq::empty()
        },
        ForcedTriggerPoint::PhaseStarted { phase } => if has_lead {
            board_hits(s, lead, bucket, Want::PhaseStarted(phase_as_dsl(phase)))
        } else {
            Seq::empty()
        },
        ForcedTriggerPoint::PhaseEnded { phase } => if has_lead {
            board_hits(s, lead, bucket, Want::PhaseEnded(phase_as_dsl(phase)))
        } else {
            Seq::empty()
        },
        ForcedTriggerPoint::ActAdvanced { code } => if has_lead {
            matching(
                abilities_of(s.registry, code@),
                code,
                lead,
                CandidateSource::Board,
                bucket,
                Want::ActAdvanced,
            )
        } else {
            Seq::empty()
        },
        ForcedTriggerPoint::AgendaAdvanced { code } => if has_lead {
            matching(
                abilities_of(s.registry, code@),
                code,
                lead,
                CandidateSource::Board,
                bucket,
                Want::AgendaAdvanced,
            )
        } else {
            Seq::empty()
        },
        ForcedTriggerPoint::EnemyDefeated { code } => if has_lead {
            act_hits(s, lead, bucket, Want::EnemyDefeated(code))
        } else {
            Seq::empty()
        },
        ForcedTriggerPoint::EnemyAttacks { enemy, investigator } => if has_enemy(
            s.enemies@,
            enemy,
        ) {
            let e = s.enemies@[enemy_index(s.enemies@, enemy)];
            matching(
                abilities_of(s.registry, e.code@),
                e.code,
                investigator,
                CandidateSource::Enemy(enemy),
                bucket,
                Want::EnemyAttacks,
            )
        } else {
            Seq::empty()
        },
        ForcedTriggerPoint::RoundEnded => if has_lead {
            board_hits(s, lead, bucket, Want::RoundEnded) + active_investigators_hits(
                s.registry,
                s.investigators@,
                bucket,
                Want::RoundEnded,
            )
        } else {
            Seq::empty()
        },
        ForcedTriggerPoint::EndOfTurn { investigator } => investigator_hits(
            s,
            investigator,
            bucket,
            Want::EndOfTurn,
            false,
        ),
        ForcedTriggerPoint::SkillTestResolved { investigator, kind, outcome } => investigator_hits(
            s,
            investigator,
            bucket,
            Want::SkillTestResolved(kind, outcome),
            false,
        ) + match s.skill_test_location {
            Some(loc) => if has_location(s.locations@, loc) {
                cards_hits(
                    s.registry,
                    s.locations@[location_index(s.locations@, loc)].attachments@,
                    investigator,
                    bucket,
                    Want::SkillTestResolved(kind, outcome),
                    false,
                )
            } else {
                Seq::empty()
            },
            None => Seq::empty(),
        },
        ForcedTriggerPoint::GameEnd => active_investigators_hits(
            s.registry,
            s.investigators@,
            bucket,
            Want::GameEnd,
        ),
        ForcedTriggerPoint::EliminationGameEnd { investigator } => investigator_hits(
            s,
            investigator,
            bucket,
            Want::GameEnd,
            true,
        ),
        ForcedTriggerPoint::LeftLocation { investigator, location } => if has_location(
            s.locations@,
            location,
        ) {
            cards_hits(
                s.registry,
                s.locations@[location_index(s.locations@, location)].attachments@,
                investigator,
                bucket,
                Want::LeftLocation,
                false,
            )
        } else {
            Seq::empty()
        },
    }
}

/// The candidates one investigator's controlled cards produce.
pub open spec fn investigator_hits(
    s: GameState,
    investigator: InvestigatorId,
    bucket: EventTiming,
    w: Want,
    weak_only: bool,
) -> Seq<ResolutionCandidate> {
    if crate::state::has_investigator(s.investigators@, investigator) {
        let inv = s.investigators@[crate::state::investigator_index(s.investigators@, investigator)];
        controlled_hits(s.registry, inv, investigator, bucket, w, weak_only)
    } else {
        Seq::empty()
    }
}

/// The forced abilities that fire at `point` in the cell `bucket`: none
/// without card data; otherwise every matching candidate whose effect has
/// the potential to change the game state.
pub open spec fn forced_hits_of(s: GameState, point: ForcedTriggerPoint, bucket: EventTiming) -> Seq<
    ResolutionCandidate,
> {
    if s.registry is None {
        Seq::empty()
    } else {
        raw_hits(s, point, bucket).filter(|c: ResolutionCandidate| initiable(s, c))
    }
}

/// Append the candidates `abilities` (printed on `code`) produce.
fn push_matching(
    abilities: &Vec<Ability>,
    code: &CardCode,
    controller: InvestigatorId,
    source: CandidateSource,
    out: &mut Vec<ResolutionCandidate>,
    bucket: EventTiming,
    want: &Want,
)
    ensures
        final(out)@ == old(out)@ + matching(abilities@, *code, controller, source, bucket, *want),
{
    let ghost start = out@;
    let mut k: usize = 0;
    while k < abilities.len()
        invariant
            k <= abilities@.len(),
            out@ == start + matching_upto(
                abilities@,
                *code,
                controller,
                source,
                bucket,
                *want,
                k as int,
            ),
        decreases abilities@.len() - k,
    {
        let hit = match &abilities[k].trigger {
            Trigger::OnEvent { pattern, timing, kind } => *kind == TriggerKind::Forced && *timing
                == bucket && pattern_wanted(want, pattern),
            _ => false,
        };
        if hit {
            out.push(ResolutionCandidate { code: code.clone(), controller, address: k, source });
        }
        k += 1;
    }
}

/// Append the candidates the cards in `cards` produce for `controller`.
#[verifier::spinoff_prover]
#[verifier::rlimit(30)]
fn push_cards_matching(
    reg: &CardRegistry,
    cards: &Vec<CardInPlay>,
    controller: InvestigatorId,
    out: &mut Vec<ResolutionCandidate>,
    bucket: EventTiming,
    want: &Want,
    weak_only: bool,
)
    ensures
        final(out)@ == old(out)@ + cards_hits(
            Some(*reg),
            cards@,
            controller,
            bucket,
            *want,
            weak_only,
        ),
{
    let ghost start = out@;
    let mut c: usize = 0;
    while c < cards.len()
        invariant
            c <= cards@.len(),
            out@ == start + cards_hits(
                Some(*reg),
                cards@.take(c as int),
                controller,
                bucket,
                *want,
                weak_only,
            ),
        decreases cards@.len() - c,
    {
        proof {
            assert(cards@.take(c + 1).drop_last() =~= cards@.take(c as int));
            assert(cards@.take(c + 1).last() == cards@[c as int]);
        }
        let card = &cards[c];
        let scan = !weak_only || reg.weakness(card.code.as_str());
        if scan {
            match reg.metadata_for(card.code.as_str()) {
                Some(m) => {
                    let ghost before = out@;
                    push_matching(
                        &m.abilities,
                        &card.code,
                        controller,
                        CandidateSource::InPlay(card.instance_id),
                        out,
                        bucket,
                        want,
                    );
                    proof {
                        assert(out@ =~= start + cards_hits(
                            Some(*reg),
                            cards@.take(c + 1),
                            controller,
                            bucket,
                            *want,
                            weak_only,
                        ));
                    }
                },
                None => {
                    proof {
                        assert(matching(
                            Seq::<Ability>::empty(),
                            card.code,
                            controller,
                            CandidateSource::InPlay(card.instance_id),
                            bucket,
                            *want,
                        ) =~= Seq::<ResolutionCandidate>::empty());
                        assert(out@ =~= start + cards_hits(
                            Some(*reg),
                            cards@.take(c + 1),
                            controller,
                            bucket,
                            *want,
                            weak_only,
                        ));
                    }
                },
            }
        }
        c += 1;
    }
    proof {
        lemma_take_full(cards@);
    }
}

/// Append the candidates the cards `inv` controls produce.
fn push_controlled_matching(
    reg: &CardRegistry,
    inv: &Investigator,
    controller: InvestigatorId,
    out: &mut Vec<ResolutionCandidate>,
    bucket: EventTiming,
    want: &Want,
    weak_only: bool,
)
    ensures
        final(out)@ == old(out)@ + controlled_hits(
            Some(*reg),
            *inv,
            controller,
            bucket,
            *want,
            weak_only,
        ),
{
    let ghost start = out@;
    push_cards_matching(reg, &inv.threat_area, controller, out, bucket, want, weak_only);
    push_cards_matching(reg, &inv.cards_in_play, controller, out, bucket, want, weak_only);
    proof {
        assert(out@ =~= start + controlled_hits(
            Some(*reg),
            *inv,
            controller,
            bucket,
            *want,
            weak_only,
        ));
    }
}

/// One more investigator folds its controlled cards' candidates in when
/// `Active`.
proof fn lemma_active_hits_step(
    reg: Option<CardRegistry>,
    invs: Seq<Investigator>,
    i: int,
    bucket: EventTiming,
    w: Want,
)
    requires
        0 <= i < invs.len(),
    ensures
        active_investigators_hits(reg, invs.take(i + 1), bucket, w) == active_investigators_hits(
            reg,
            invs.take(i),
            bucket,
            w,
        ) + (if invs[i].status == Status::Active {
            controlled_hits(reg, invs[i], invs[i].id, bucket, w, false)
        } else {
            Seq::empty()
        }),
{
    let cur = invs.take(i + 1);
    assert(cur.drop_last() =~= invs.take(i));
    assert(cur.last() == invs[i]);
    if invs[i].status != Status::Active {
        assert(active_investigators_hits(reg, invs.take(i), bucket, w) + Seq::empty()
            =~= active_investigators_hits(reg, invs.take(i), bucket, w));
    }
}

/// Append the candidates every `Active` investigator of `invs` produces.
#[verifier::rlimit(60)]
fn push_active_investigators_matching(
    reg: &CardRegistry,
    invs: &Vec<Investigator>,
    out: &mut Vec<ResolutionCandidate>,
    bucket: EventTiming,
    want: &Want,
)
    ensures
        final(out)@ == old(out)@ + active_investigators_hits(Some(*reg), invs@, bucket, *want),
{
    let ghost start = out@;
    let mut i: usize = 0;
    while i < invs.len()
        invariant
            i <= invs@.len(),
            out@ == start + active_investigators_hits(
                Some(*reg),
                invs@.take(i as int),
                bucket,
                *want,
            ),
        decreases invs@.len() - i,
    {
        proof {
            lemma_active_hits_step(Some(*reg), invs@, i as int, bucket, *want);
        }
        if matches!(invs[i].status, Status::Active) {
            push_controlled_matching(reg, &invs[i], invs[i].id, out, bucket, want, false);
        }
        proof {
            assert(out@ =~= start + active_investigators_hits(
                Some(*reg),
                invs@.take(i + 1),
                bucket,
                *want,
            ));
        }
        i += 1;
    }
    proof {
        lemma_take_full(invs@);
    }
}

/// Append the candidates a location's in-effect side produces.
fn push_location_side_matching(
    reg: &CardRegistry,
    loc: &crate::state::Location,
    controller: InvestigatorId,
    out: &mut Vec<ResolutionCandidate>,
    bucket: EventTiming,
    want: &Want,
)
    ensures
        final(out)@ == old(out)@ + matching(
            location_side_abilities(Some(*reg), *loc),
            loc.code,
            controller,
            CandidateSource::Location(loc.id),
            bucket,
            *want,
        ),
{
    match reg.metadata_for(loc.code.as_str()) {
        Some(m) => {
            if loc.revealed {
                push_matching(
                    &m.abilities,
                    &loc.code,
                    controller,
                    CandidateSource::Location(loc.id),
                    out,
                    bucket,
                    want,
                );
            } else {
                push_matching(
                    &m.back_abilities,
                    &loc.code,
                    controller,
                    CandidateSource::Location(loc.id),
                    out,
                    bucket,
                    want,
                );
            }
        },
        None => {
            proof {
                assert(out@ =~= out@ + Seq::<ResolutionCandidate>::empty());
            }
        },
    }
}

/// Append the candidates the printed abilities of `code` produce.
fn push_code_matching(
    reg: &CardRegistry,
    code: &CardCode,
    controller: InvestigatorId,
    source: CandidateSource,
    out: &mut Vec<ResolutionCandidate>,
    bucket: EventTiming,
    want: &Want,
)
    ensures
        final(out)@ == old(out)@ + matching(
            abilities_of(Some(*reg), code@),
            *code,
            controller,
            source,
            bucket,
            *want,
        ),
{
    match reg.metadata_for(code.as_str()) {
        Some(m) => {
            push_matching(&m.abilities, code, controller, source, out, bucket, want);
        },
        None => {
            proof {
                assert(out@ =~= out@ + Seq::<ResolutionCandidate>::empty());
            }
        },
    }
}

/// Scan the current act, bound to `lead`.
fn push_act_matching(
    state: &GameState,
    reg: &CardRegistry,
    lead: InvestigatorId,
    out: &mut Vec<ResolutionCandidate>,
    bucket: EventTiming,
    want: &Want,
)
    requires
        state.registry == Some(*reg),
    ensures
        final(out)@ == old(out)@ + act_hits(*state, lead, bucket, *want),
{
    if state.act_index < state.act_deck.len() {
        push_code_matching(
            reg,
            &state.act_deck[state.act_index].code,
            lead,
            CandidateSource::Board,
            out,
            bucket,
            want,
        );
    } else {
        proof {
            assert(out@ =~= out@ + Seq::<ResolutionCandidate>::empty());
        }
    }
}

/// Scan the current act and the current agenda, bound to the lead
/// investigator (the first of turn order). Nothing without a lead.
#[verifier::spinoff_prover]
fn push_scenario_structure_matching(
    state: &GameState,
    reg: &CardRegistry,
    lead: InvestigatorId,
    out: &mut Vec<ResolutionCandidate>,
    bucket: EventTiming,
    want: &Want,
)
    requires
        state.registry == Some(*reg),
    ensures
        final(out)@ == old(out)@ + board_hits(*state, lead, bucket, *want),
{
    let ghost start = out@;
    push_act_matching(state, reg, lead, out, bucket, want);
    if state.agenda_index < state.agenda_deck.len() {
        push_code_matching(
            reg,
            &state.agenda_deck[state.agenda_index].code,
            lead,
            CandidateSource::Board,
            out,
            bucket,
            want,
        );
    }
    proof {
        assert(out@ =~= start + board_hits(*state, lead, bucket, *want));
    }
}

/// Map the engine's phase to the card language's.
pub fn dsl_phase(phase: Phase) -> (r: DslPhase)
    ensures
        r == phase_as_dsl(phase),
{
    match phase {
        Phase::Mythos => DslPhase::Mythos,
        Phase::Investigation => DslPhase::Investigation,
        Phase::Enemy => DslPhase::Enemy,
        Phase::Upkeep => DslPhase::Upkeep,
    }
}

/// Whether the candidate's ability can initiate (its effect has the
/// potential to change the game state).
fn candidate_initiable(state: &GameState, reg: &CardRegistry, c: &ResolutionCandidate) -> (r: bool)
    requires
        state.registry == Some(*reg),
        location_ids_distinct(state.locations@),
    ensures
        r == initiable(*state, *c),
{
    let meta = reg.metadata_for(c.code.as_str());
    match c.source {
        CandidateSource::Location(l) => {
            let Some(i) = state.find_location(l) else {
                return false;
            };
            let loc = &state.locations[i];
            match reg.metadata_for(loc.code.as_str()) {
                Some(m) => {
                    let abs = if loc.revealed {
                        &m.abilities
                    } else {
                        &m.back_abilities
                    };
                    c.address < abs.len() && effect_can_change_state(&abs[c.address].effect)
                },
                None => false,
            }
        },
        _ => match meta {
            Some(m) => c.address < m.abilities.len() && effect_can_change_state(
                &m.abilities[c.address].effect,
            ),
            None => false,
        },
    }
}

/// Every candidate that matches `point` in the cell `bucket`, in the fixed
/// scan order, before the potential-to-change filter.
#[verifier::spinoff_prover]
#[verifier::rlimit(50)]
fn collect_raw_hits(
    state: &GameState,
    reg: &CardRegistry,
    point: &ForcedTriggerPoint,
    bucket: EventTiming,
) -> (hits: Vec<ResolutionCandidate>)
    requires
        state.wf(),
        state.registry == Some(*reg),
    ensures
        hits@ == raw_hits(*state, *point, bucket),
{
    let mut hits: Vec<ResolutionCandidate> = Vec::new();
    let lead = if state.turn_order.len() > 0 {
        Some(state.turn_order[0])
    } else {
        None
    };
    match point {
        ForcedTriggerPoint::EnteredLocation { investigator, location } => {
            if let Some(i) = state.find_location(*location) {
                push_location_side_matching(
                    reg,
                    &state.locations[i],
                    *investigator,
                    &mut hits,
                    bucket,
                    &Want::EnteredLocation,
                );
            }
            proof {
                reveal(raw_hits);
                assert(hits@ =~= raw_hits(*state, *point, bucket));
            }
        },
        ForcedTriggerPoint::PhaseStarted { phase } => {
            if let Some(l) = lead {
                push_scenario_structure_matching(
                    state,
                    reg,
                    l,
                    &mut hits,
                    bucket,
                    &Want::PhaseStarted(dsl_phase(*phase)),
                );
            }
            proof {
                reveal(raw_hits);
                assert(hits@ =~= raw_hits(*state, *point, bucket));
            }
        },
        ForcedTriggerPoint::PhaseEnded { phase } => {
            if let Some(l) = lead {
                push_scenario_structure_matching(
                    state,
                    reg,
                    l,
                    &mut hits,
                    bucket,
                    &Want::PhaseEnded(dsl_phase(*phase)),
                );
            }
            proof {
                reveal(raw_hits);
                assert(hits@ =~= raw_hits(*state, *point, bucket));
            }
        },
        ForcedTriggerPoint::ActAdvanced { code } => {
            if let Some(l) = lead {
                push_code_matching(
                    reg,
                    code,
                    l,
                    CandidateSource::Board,
                    &mut hits,
                    bucket,
                    &Want::ActAdvanced,
                );
            }
            proof {
                reveal(raw_hits);
                assert(hits@ =~= raw_hits(*state, *point, bucket));
            }
        },
        ForcedTriggerPoint::AgendaAdvanced { code } => {
            if let Some(l) = lead {
                push_code_matching(
                    reg,
                    code,
                    l,
                    CandidateSource::Board,
                    &mut hits,
                    bucket,
                    &Want::AgendaAdvanced,
                );
            }
            proof {
                reveal(raw_hits);
                assert(hits@ =~= raw_hits(*state, *point, bucket));
            }
        },
        ForcedTriggerPoint::EnemyDefeated { code } => {
            if let Some(l) = lead {
                push_act_matching(
                    state,
                    reg,
                    l,
                    &mut hits,
                    bucket,
                    &Want::EnemyDefeated(code.clone()),
                );
            }
            proof {
                reveal(raw_hits);
                assert(hits@ =~= raw_hits(*state, *point, bucket));
            }
        },
        ForcedTriggerPoint::EnemyAttacks { enemy, investigator } => {
            if let Some(e) = state.find_enemy(*enemy) {
                push_code_matching(
                    reg,
                    &state.enemies[e].code,
                    *investigator,
                    CandidateSource::Enemy(*enemy),
                    &mut hits,
                    bucket,
                    &Want::EnemyAttacks,
                );
            }
            proof {
                reveal(raw_hits);
                assert(hits@ =~= raw_hits(*state, *point, bucket));
            }
        },
        ForcedTriggerPoint::RoundEnded => {
            if let Some(l) = lead {
                push_scenario_structure_matching(
                    state,
                    reg,
                    l,
                    &mut hits,
                    bucket,
                    &Want::RoundEnded,
                );
                push_active_investigators_matching(
                    reg,
                    &state.investigators,
                    &mut hits,
                    bucket,
                    &Want::RoundEnded,
                );
            }
            proof {
                reveal(raw_hits);
                assert(hits@ =~= raw_hits(*state, *point, bucket));
            }
        },
        ForcedTriggerPoint::EndOfTurn { investigator } => {
            if let Some(i) = state.find_investigator(*investigator) {
                push_controlled_matching(
                    reg,
                    &state.investigators[i],
                    *investigator,
                    &mut hits,
                    bucket,
                    &Want::EndOfTurn,
                    false,
                );
            }
            proof {
                reveal(raw_hits);
                assert(hits@ =~= raw_hits(*state, *point, bucket));
            }
        },
        ForcedTriggerPoint::SkillTestResolved { investigator, kind, outcome } => {
            if let Some(i) = state.find_investigator(*investigator) {
                push_controlled_matching(
                    reg,
                    &state.investigators[i],
                    *investigator,
                    &mut hits,
                    bucket,
                    &Want::SkillTestResolved(*kind, *outcome),
                    false,
                );
            }
            if let Some(loc) = state.skill_test_location {
                if let Some(i) = state.find_location(loc) {
                    push_cards_matching(
                        reg,
                        &state.locations[i].attachments,
                        *investigator,
                        &mut hits,
                        bucket,
                        &Want::SkillTestResolved(*kind, *outcome),
                        false,
                    );
                }
            }
            proof {
                reveal(raw_hits);
                assert(hits@ =~= raw_hits(*state, *point, bucket));
            }
        },
        ForcedTriggerPoint::GameEnd => {
            push_active_investigators_matching(
                reg,
                &state.investigators,
                &mut hits,
                bucket,
                &Want::GameEnd,
            );
            proof {
                reveal(raw_hits);
                assert(hits@ =~= raw_hits(*state, *point, bucket));
            }
        },
        ForcedTriggerPoint::EliminationGameEnd { investigator } => {
            if let Some(i) = state.find_investigator(*investigator) {
                push_controlled_matching(
                    reg,
                    &state.investigators[i],
                    *investigator,
                    &mut hits,
                    bucket,
                    &Want::GameEnd,
                    true,
                );
            }
            proof {
                reveal(raw_hits);
                assert(hits@ =~= raw_hits(*state, *point, bucket));
            }
        },
        ForcedTriggerPoint::LeftLocation { investigator, location } => {
            if let Some(i) = state.find_location(*location) {
                push_cards_matching(
                    reg,
                    &state.locations[i].attachments,
                    *investigator,
                    &mut hits,
                    bucket,
                    &Want::LeftLocation,
                    false,
                );
            }
            proof {
                reveal(raw_hits);
                assert(hits@ =~= raw_hits(*state, *point, bucket));
            }
        },
    }
    hits
}

/// Every forced ability that fires at `point` in the cell `bucket`, in the
/// fixed scan order; only abilities with the potential to change the game
/// state are kept. Empty with no card data.
pub fn collect_forced_hits(state: &GameState, point: &ForcedTriggerPoint, bucket: EventTiming) -> (r:
    Vec<ResolutionCandidate>)
    requires
        state.wf(),
    ensures
        r@ == forced_hits_of(*state, *point, bucket),
{
    let Some(reg) = &state.registry else {
        return Vec::new();
    };
    let hits = collect_raw_hits(state, reg, point, bucket);
    // Rules Reference p.2: a forced ability without the potential to change
    // the game state does not initiate.
    let ghost p = |c: ResolutionCandidate| initiable(*state, c);
    let mut kept: Vec<ResolutionCandidate> = Vec::new();
    let mut k: usize = 0;
    while k < hits.len()
        invariant
            k <= hits@.len(),
            state.wf(),
            state.registry == Some(*reg),
            p == (|c: ResolutionCandidate| initiable(*state, c)),
            kept@ == hits@.take(k as int).filter(p),
        decreases hits@.len() - k,
    {
        proof {
            lemma_filter_step(hits@, p, k as int);
        }
        if candidate_initiable(state, reg, &hits[k]) {
            let c = ResolutionCandidate {
                code: hits[k].code.clone(),
                controller: hits[k].controller,
                address: hits[k].address,
                source: hits[k].source,
            };
            proof {
                assert(c == hits@[k as int]);
            }
            kept.push(c);
        }
        k += 1;
    }
    proof {
        lemma_take_full(hits@);
    }
    kept
}

} // verus!
