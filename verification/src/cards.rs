//! Card data: the printed metadata and abilities the dispatch handlers read.
//!
//! A [`CardRegistry`] is the installed card corpus. The game state carries
//! it as `GameState::registry`; `None` means no card data is installed, and
//! every reader then behaves as it does with an empty corpus.
use vstd::prelude::*;

use crate::state::{CardCode, ClueValue, Phase, Prey, SkillKind, Skills};

verus! {

/// A constant restriction a card can print.
#[derive(Clone, Copy, Debug, PartialEq, Eq, Structural)]
pub enum Restriction {
    /// "Non-Elite enemies cannot move into attached location." (Barricade).
    EnemyMovementBlocked,
    /// "You cannot move into the Parlor." (the Parlor's unrevealed side).
    InvestigatorMovementBlocked,
}

/// The timing cell a triggered ability resolves in.
#[derive(Clone, Copy, Debug, PartialEq, Eq, Structural)]
pub enum EventTiming {
    When,
    At,
    After,
}

/// Whether a triggered ability is mandatory or optional.
#[derive(Clone, Copy, Debug, PartialEq, Eq, Structural)]
pub enum TriggerKind {
    Forced,
    Reaction,
}

/// The phase named by a printed "phase begins/ends" trigger.
#[derive(Clone, Copy, Debug, PartialEq, Eq, Structural)]
pub enum DslPhase {
    Mythos,
    Investigation,
    Enemy,
    Upkeep,
}

/// A skill test's kind.
#[derive(Clone, Copy, Debug, PartialEq, Eq, Structural)]
pub enum SkillTestKind {
    Investigate,
    Fight,
    Evade,
    Plain,
}

/// A skill test's outcome.
#[derive(Clone, Copy, Debug, PartialEq, Eq, Structural)]
pub enum TestOutcome {
    Success,
    Failure,
}

/// A stat a constant ability can modify.
#[derive(Clone, Copy, Debug, PartialEq, Eq, Structural)]
pub enum Stat {
    Willpower,
    Intellect,
    Combat,
    Agility,
    MaxHealth,
    MaxSanity,
}

/// The triggering condition a printed triggered ability keys off.
pub enum EventPattern {
    EnteredLocation,
    PhaseStarted { phase: DslPhase },
    PhaseEnded { phase: DslPhase },
    ActAdvanced,
    AgendaAdvanced,
    /// `code` narrows the trigger to one enemy's printed code;
    /// `by_controller` to defeats credited to the ability's controller.
    EnemyDefeated { by_controller: bool, code: Option<CardCode> },
    EnemyAttacks,
    RoundEnded,
    EndOfTurn,
    /// `kind` narrows the trigger to one test kind.
    SkillTestResolved { kind: Option<SkillTestKind>, outcome: TestOutcome },
    GameEnd,
    LeftLocation,
    /// "...you discover clues" (scoped to the discovering investigator).
    DiscoverClues,
    /// "after this card enters play" (scoped to its controller).
    EnteredPlay,
    /// "when an enemy attack deals damage to this card".
    EnemyAttackDamagedSelf,
}

/// When an ability applies or fires.
pub enum Trigger {
    /// Always on while the card is in play.
    Constant,
    /// Resolves when the card is drawn from the encounter deck.
    Revelation,
    /// A triggered ability.
    OnEvent { pattern: EventPattern, timing: EventTiming, kind: TriggerKind },
    /// An action ability the controller activates.
    Activated,
    /// An event's effect when played.
    OnPlay,
}

/// What an ability does.
#[derive(Clone, Copy, Debug, PartialEq, Eq, Structural)]
pub enum Effect {
    /// A constant restriction.
    Restrict(Restriction),
    /// A constant modifier to one of the controller's stats.
    ModifyStat { stat: Stat, amount: i8 },
    /// Deal damage to the controller.
    DealDamage(u8),
    /// Deal horror to the controller.
    DealHorror(u8),
    /// The controller gains resources.
    GainResources(u8),
    /// Place doom on the current agenda.
    PlaceDoom(u8),
    /// Nothing (an ability with no potential to change the game state).
    Nothing,
}

/// Whether `e` has the potential to change the game state (Rules Reference
/// p.2: an ability without it does not initiate).
pub open spec fn effect_changes_state(e: Effect) -> bool {
    match e {
        Effect::DealDamage(n) => n > 0,
        Effect::DealHorror(n) => n > 0,
        Effect::GainResources(n) => n > 0,
        Effect::PlaceDoom(n) => n > 0,
        Effect::Nothing => false,
        Effect::Restrict(_) => true,
        Effect::ModifyStat { amount, .. } => amount != 0,
    }
}

/// Whether `e` has the potential to change the game state.
pub fn effect_can_change_state(e: &Effect) -> (r: bool)
    ensures
        r == effect_changes_state(*e),
{
    match e {
        Effect::DealDamage(n) => *n > 0,
        Effect::DealHorror(n) => *n > 0,
        Effect::GainResources(n) => *n > 0,
        Effect::PlaceDoom(n) => *n > 0,
        Effect::Nothing => false,
        Effect::Restrict(_) => true,
        Effect::ModifyStat { amount, .. } => *amount != 0,
    }
}

/// One printed ability.
pub struct Ability {
    pub trigger: Trigger,
    pub effect: Effect,
    /// "Limit N per round": at most this many initiations per round, counted
    /// per card instance.
    pub usage_limit: Option<u8>,
}

/// How an enemy's health is printed.
#[derive(Clone, Copy, Debug, PartialEq, Eq, Structural)]
pub enum HealthValue {
    Fixed(u8),
    PerInvestigator(u8),
}

/// The printed stats of an enemy card.
pub struct EnemyStats {
    pub health: Option<HealthValue>,
    pub fight: u8,
    pub evade: u8,
    pub damage: u8,
    pub horror: u8,
    pub hunter: bool,
    pub retaliate: bool,
    pub prey: Prey,
    pub victory: Option<u8>,
    /// The code of the location a "Spawn -" instruction names.
    pub spawn: Option<CardCode>,
}

/// A card's printed type, with the type-specific printed data.
pub enum CardKind {
    Investigator { skills: Skills, health: u8, sanity: u8 },
    Location { clues: ClueValue },
    Enemy(EnemyStats),
    Treachery,
    Asset,
    Event,
    Skill,
}

/// A card's printed type.
#[derive(Clone, Copy, Debug, PartialEq, Eq, Structural)]
pub enum CardType {
    Investigator,
    Location,
    Enemy,
    Treachery,
    Asset,
    Event,
    Skill,
}

/// The printed type of a card of kind `k`.
pub open spec fn kind_type(k: CardKind) -> CardType {
    match k {
        CardKind::Investigator { .. } => CardType::Investigator,
        CardKind::Location { .. } => CardType::Location,
        CardKind::Enemy(_) => CardType::Enemy,
        CardKind::Treachery => CardType::Treachery,
        CardKind::Asset => CardType::Asset,
        CardKind::Event => CardType::Event,
        CardKind::Skill => CardType::Skill,
    }
}

/// One card's printed data.
pub struct CardMetadata {
    pub code: CardCode,
    pub name: String,
    pub kind: CardKind,
    pub traits: Vec<String>,
    pub weakness: bool,
    pub surge: bool,
    pub peril: bool,
    /// The abilities in effect while the card is face up (a location's
    /// revealed side).
    pub abilities: Vec<Ability>,
    /// A location's unrevealed side.
    pub back_abilities: Vec<Ability>,
    /// The Fast keyword: played without spending an action.
    pub fast: bool,
    /// The printed resource cost (`None` for a card without a fixed cost).
    pub cost: Option<u8>,
    /// "Play only during your turn."
    pub only_during_turn: bool,
}

impl CardMetadata {
    /// The printed type.
    pub fn card_type(&self) -> (r: CardType)
        ensures
            r == kind_type(self.kind),
    {
        match &self.kind {
            CardKind::Investigator { .. } => CardType::Investigator,
            CardKind::Location { .. } => CardType::Location,
            CardKind::Enemy(_) => CardType::Enemy,
            CardKind::Treachery => CardType::Treachery,
            CardKind::Asset => CardType::Asset,
            CardKind::Event => CardType::Event,
            CardKind::Skill => CardType::Skill,
        }
    }
}

/// The installed card corpus.
pub struct CardRegistry {
    pub cards: Vec<CardMetadata>,
}

/// Whether the corpus `cards` knows `code`.
pub open spec fn knows_code(cards: Seq<CardMetadata>, code: Seq<char>) -> bool {
    exists|i: int| 0 <= i < cards.len() && cards[i].code@ == code
}

/// The index of the first entry of `cards` printed with `code`.
pub open spec fn first_card_with_code(cards: Seq<CardMetadata>, code: Seq<char>) -> int {
    choose|i: int|
        0 <= i < cards.len() && cards[i].code@ == code && forall|j: int|
            0 <= j < i ==> cards[j].code@ != code
}

/// The metadata the corpus holds for `code`, if any.
pub open spec fn metadata_of(reg: CardRegistry, code: Seq<char>) -> Option<CardMetadata> {
    if knows_code(reg.cards@, code) {
        Some(reg.cards@[first_card_with_code(reg.cards@, code)])
    } else {
        None
    }
}

/// Whether the first index `i` of a card with `code` is the one
/// [`first_card_with_code`] names.
proof fn lemma_first_card(cards: Seq<CardMetadata>, code: Seq<char>, i: int)
    requires
        0 <= i < cards.len(),
        cards[i].code@ == code,
        forall|j: int| 0 <= j < i ==> cards[j].code@ != code,
    ensures
        knows_code(cards, code),
        first_card_with_code(cards, code) == i,
{
    let k = first_card_with_code(cards, code);
    assert(0 <= k < cards.len() && cards[k].code@ == code && forall|j: int|
        0 <= j < k ==> cards[j].code@ != code);
    if k < i {
        assert(cards[k].code@ != code);
    } else if k > i {
        assert(cards[i].code@ != code);
    }
}

impl CardRegistry {
    /// The metadata for `code`, if the corpus knows it.
    pub fn metadata_for(&self, code: &str) -> (r: Option<&CardMetadata>)
        ensures
            match r {
                Some(m) => metadata_of(*self, code@) == Some(*m),
                None => metadata_of(*self, code@).is_none(),
            },
    {
        let wanted = code.to_owned();
        let mut i: usize = 0;
        while i < self.cards.len()
            invariant
                i <= self.cards@.len(),
                wanted@ == code@,
                forall|j: int| 0 <= j < i ==> self.cards@[j].code@ != code@,
            decreases self.cards@.len() - i,
        {
            if self.cards[i].code == wanted {
                proof {
                    lemma_first_card(self.cards@, code@, i as int);
                }
                return Some(&self.cards[i]);
            }
            i += 1;
        }
        None
    }

    /// Whether the card printed with `code` is a weakness in this corpus.
    pub fn weakness(&self, code: &str) -> (r: bool)
        ensures
            r == is_weakness(Some(*self), code@),
    {
        match self.metadata_for(code) {
            Some(m) => m.weakness,
            None => false,
        }
    }
}

/// The printed abilities of `code` in `reg` (empty when unknown).
pub open spec fn abilities_of(reg: Option<CardRegistry>, code: Seq<char>) -> Seq<Ability> {
    match reg {
        Some(r) => match metadata_of(r, code) {
            Some(m) => m.abilities@,
            None => Seq::empty(),
        },
        None => Seq::empty(),
    }
}

/// Whether the card printed with `code` is a weakness in `reg`.
pub open spec fn is_weakness(reg: Option<CardRegistry>, code: Seq<char>) -> bool {
    match reg {
        Some(r) => match metadata_of(r, code) {
            Some(m) => m.weakness,
            None => false,
        },
        None => false,
    }
}

/// Whether the card printed with `code` is a weakness in the installed
/// corpus (`false` with no corpus, or an unknown code).
pub fn card_is_weakness(reg: &Option<CardRegistry>, code: &str) -> (r: bool)
    ensures
        r == is_weakness(*reg, code@),
{
    match reg {
        Some(r) => match r.metadata_for(code) {
            Some(m) => m.weakness,
            None => false,
        },
        None => false,
    }
}

/// The engine phase as the card language names it.
pub open spec fn phase_as_dsl(p: Phase) -> DslPhase {
    match p {
        Phase::Mythos => DslPhase::Mythos,
        Phase::Investigation => DslPhase::Investigation,
        Phase::Enemy => DslPhase::Enemy,
        Phase::Upkeep => DslPhase::Upkeep,
    }
}

/// The stat a prey skill measure reads.
pub open spec fn stat_of_skill(k: SkillKind) -> Stat {
    match k {
        SkillKind::Willpower => Stat::Willpower,
        SkillKind::Intellect => Stat::Intellect,
        SkillKind::Combat => Stat::Combat,
        SkillKind::Agility => Stat::Agility,
    }
}

/// A copy of an optional card code.
pub fn copy_code_opt(c: &Option<CardCode>) -> (r: Option<CardCode>)
    ensures
        r == *c,
{
    match c {
        Some(x) => Some(x.clone()),
        None => None,
    }
}

impl EventPattern {
    /// A copy of this pattern.
    pub fn copy(&self) -> (r: EventPattern)
        ensures
            r == *self,
    {
        match self {
            EventPattern::EnteredLocation => EventPattern::EnteredLocation,
            EventPattern::PhaseStarted { phase } => EventPattern::PhaseStarted { phase: *phase },
            EventPattern::PhaseEnded { phase } => EventPattern::PhaseEnded { phase: *phase },
            EventPattern::ActAdvanced => EventPattern::ActAdvanced,
            EventPattern::AgendaAdvanced => EventPattern::AgendaAdvanced,
            EventPattern::EnemyDefeated { by_controller, code } => EventPattern::EnemyDefeated {
                by_controller: *by_controller,
                code: copy_code_opt(code),
            },
            EventPattern::EnemyAttacks => EventPattern::EnemyAttacks,
            EventPattern::RoundEnded => EventPattern::RoundEnded,
            EventPattern::EndOfTurn => EventPattern::EndOfTurn,
            EventPattern::SkillTestResolved { kind, outcome } => EventPattern::SkillTestResolved {
                kind: *kind,
                outcome: *outcome,
            },
            EventPattern::GameEnd => EventPattern::GameEnd,
            EventPattern::LeftLocation => EventPattern::LeftLocation,
            EventPattern::DiscoverClues => EventPattern::DiscoverClues,
            EventPattern::EnteredPlay => EventPattern::EnteredPlay,
            EventPattern::EnemyAttackDamagedSelf => EventPattern::EnemyAttackDamagedSelf,
        }
    }
}

impl Ability {
    /// A copy of this ability.
    pub fn copy(&self) -> (r: Ability)
        ensures
            r == *self,
    {
        let trigger = match &self.trigger {
            Trigger::Constant => Trigger::Constant,
            Trigger::Revelation => Trigger::Revelation,
            Trigger::OnEvent { pattern, timing, kind } => Trigger::OnEvent {
                pattern: pattern.copy(),
                timing: *timing,
                kind: *kind,
            },
            Trigger::Activated => Trigger::Activated,
            Trigger::OnPlay => Trigger::OnPlay,
        };
        Ability { trigger, effect: self.effect, usage_limit: self.usage_limit }
    }
}

/// A copy of a list of abilities.
pub fn copy_abilities(v: &Vec<Ability>) -> (r: Vec<Ability>)
    ensures
        r@ == v@,
{
    let mut out: Vec<Ability> = Vec::new();
    let mut i: usize = 0;
    while i < v.len()
        invariant
            i <= v@.len(),
            out@ == v@.take(i as int),
        decreases v@.len() - i,
    {
        out.push(v[i].copy());
        proof {
            assert(out@ =~= v@.take(i + 1));
        }
        i += 1;
    }
    proof {
        assert(out@ =~= v@);
    }
    out
}

/// A copy of a list of names.
pub fn copy_names(v: &Vec<String>) -> (r: Vec<String>)
    ensures
        r@ == v@,
{
    let mut out: Vec<String> = Vec::new();
    let mut i: usize = 0;
    while i < v.len()
        invariant
            i <= v@.len(),
            out@ == v@.take(i as int),
        decreases v@.len() - i,
    {
        out.push(v[i].clone());
        proof {
            assert(out@ =~= v@.take(i + 1));
        }
        i += 1;
    }
    proof {
        assert(out@ =~= v@);
    }
    out
}

impl CardKind {
    /// A copy of this kind.
    pub fn copy(&self) -> (r: CardKind)
        ensures
            r == *self,
    {
        match self {
            CardKind::Investigator { skills, health, sanity } => CardKind::Investigator {
                skills: *skills,
                health: *health,
                sanity: *sanity,
            },
            CardKind::Location { clues } => CardKind::Location { clues: *clues },
            CardKind::Enemy(st) => CardKind::Enemy(
                EnemyStats {
                    health: st.health,
                    fight: st.fight,
                    evade: st.evade,
                    damage: st.damage,
                    horror: st.horror,
                    hunter: st.hunter,
                    retaliate: st.retaliate,
                    prey: st.prey,
                    victory: st.victory,
                    spawn: copy_code_opt(&st.spawn),
                },
            ),
            CardKind::Treachery => CardKind::Treachery,
            CardKind::Asset => CardKind::Asset,
            CardKind::Event => CardKind::Event,
            CardKind::Skill => CardKind::Skill,
        }
    }
}

impl CardMetadata {
    /// A copy of this card's printed data.
    pub fn copy(&self) -> (r: CardMetadata)
        ensures
            r.code == self.code,
            r.name == self.name,
            r.kind == self.kind,
            r.traits@ == self.traits@,
            r.weakness == self.weakness,
            r.surge == self.surge,
            r.peril == self.peril,
            r.abilities@ == self.abilities@,
            r.back_abilities@ == self.back_abilities@,
            r.fast == self.fast,
            r.cost == self.cost,
            r.only_during_turn == self.only_during_turn,
    {
        CardMetadata {
            code: self.code.clone(),
            name: self.name.clone(),
            kind: self.kind.copy(),
            traits: copy_names(&self.traits),
            weakness: self.weakness,
            surge: self.surge,
            peril: self.peril,
            abilities: copy_abilities(&self.abilities),
            back_abilities: copy_abilities(&self.back_abilities),
            fast: self.fast,
            cost: self.cost,
            only_during_turn: self.only_during_turn,
        }
    }
}

} // verus!
