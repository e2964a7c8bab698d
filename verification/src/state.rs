//! The game state the dispatch handlers read and mutate: investigators,
//! locations, enemies, the encounter deck, the act/agenda decks and the
//! continuation stack.
//!
//! Keyed collections are vectors whose entries carry their own id, kept in
//! ascending id order (see [`GameState::wf`]): a new seat, enemy or location
//! gets an id above every id in use, so a walk over a collection visits it
//! by ascending id. Where the rules fix another order (players by turn
//! order) the engine orders explicitly.
use vstd::prelude::*;

use crate::cards::{CardRegistry, Effect, EventTiming};
use crate::emit::TimingEvent;

verus! {

/// A seated investigator.
#[derive(Clone, Copy, Debug, PartialEq, Eq, Structural)]
pub struct InvestigatorId(pub u32);

/// A location in play.
#[derive(Clone, Copy, Debug, PartialEq, Eq, Structural)]
pub struct LocationId(pub u32);

/// An enemy in play.
#[derive(Clone, Copy, Debug, PartialEq, Eq, Structural)]
pub struct EnemyId(pub u32);

/// One physical card that has entered play.
#[derive(Clone, Copy, Debug, PartialEq, Eq, Structural)]
pub struct CardInstanceId(pub u32);

/// A printed card code such as `"01116"`.
pub type CardCode = String;

/// The four phases of a round (Rules Reference p.24).
#[derive(Clone, Copy, Debug, PartialEq, Eq, Structural)]
pub enum Phase {
    Mythos,
    Investigation,
    Enemy,
    Upkeep,
}

/// The phase that follows `p` in the round cycle.
pub open spec fn phase_after(p: Phase) -> Phase {
    match p {
        Phase::Mythos => Phase::Investigation,
        Phase::Investigation => Phase::Enemy,
        Phase::Enemy => Phase::Upkeep,
        Phase::Upkeep => Phase::Mythos,
    }
}

impl Phase {
    /// The phase that follows this one in the round cycle.
    pub fn next(self) -> (r: Phase)
        ensures
            r == phase_after(self),
    {
        match self {
            Phase::Mythos => Phase::Investigation,
            Phase::Investigation => Phase::Enemy,
            Phase::Enemy => Phase::Upkeep,
            Phase::Upkeep => Phase::Mythos,
        }
    }
}

/// Whether an investigator is still in the game, and if not, why.
#[derive(Clone, Copy, Debug, PartialEq, Eq, Structural)]
pub enum Status {
    Active,
    Killed,
    Insane,
    Resigned,
    DefeatedByCardAbility,
}

/// Why an investigator was defeated.
#[derive(Clone, Copy, Debug, PartialEq, Eq, Structural)]
pub enum DefeatCause {
    Damage,
    Horror,
    Resigned,
    CardAbility,
}

/// The status a defeat of cause `c` leaves behind.
pub open spec fn status_for_cause(c: DefeatCause) -> Status {
    match c {
        DefeatCause::Damage => Status::Killed,
        DefeatCause::Horror => Status::Insane,
        DefeatCause::Resigned => Status::Resigned,
        DefeatCause::CardAbility => Status::DefeatedByCardAbility,
    }
}

/// An investigator's four skills.
#[derive(Clone, Copy, Debug, PartialEq, Eq, Structural)]
pub struct Skills {
    pub willpower: u8,
    pub intellect: u8,
    pub combat: u8,
    pub agility: u8,
}

/// One of the four skills.
#[derive(Clone, Copy, Debug, PartialEq, Eq, Structural)]
pub enum SkillKind {
    Willpower,
    Intellect,
    Combat,
    Agility,
}

/// The value of skill `k` in `s`.
pub open spec fn skill_value(s: Skills, k: SkillKind) -> u8 {
    match k {
        SkillKind::Willpower => s.willpower,
        SkillKind::Intellect => s.intellect,
        SkillKind::Combat => s.combat,
        SkillKind::Agility => s.agility,
    }
}

impl Skills {
    /// The value of skill `kind`.
    pub fn value(&self, kind: SkillKind) -> (r: u8)
        ensures
            r == skill_value(*self, kind),
    {
        match kind {
            SkillKind::Willpower => self.willpower,
            SkillKind::Intellect => self.intellect,
            SkillKind::Combat => self.combat,
            SkillKind::Agility => self.agility,
        }
    }
}

/// How often one ability of one card instance has been initiated in a round.
#[derive(Clone, Copy, Debug, PartialEq, Eq, Structural)]
pub struct UsageCounter {
    pub instance: CardInstanceId,
    /// Index of the ability in the card's printed ability list.
    pub address: usize,
    pub round: u32,
    pub count: u8,
}

/// How often the ability at `address` of card instance `instance` has been
/// initiated in round `round`, by the latest counter for them.
pub open spec fn uses_in_round(usage: Seq<UsageCounter>, instance: CardInstanceId, address: int, round: u32) -> int
    decreases usage.len(),
{
    if usage.len() == 0 {
        0
    } else if usage.last().instance == instance && usage.last().address == address {
        if usage.last().round == round {
            usage.last().count as int
        } else {
            0
        }
    } else {
        uses_in_round(usage.drop_last(), instance, address, round)
    }
}

/// How often the ability at `address` of `instance` has been initiated in
/// `round`.
pub fn uses_in(usage: &Vec<UsageCounter>, instance: CardInstanceId, address: usize, round: u32) -> (r: u8)
    ensures
        r as int == uses_in_round(usage@, instance, address as int, round),
{
    let mut i: usize = usage.len();
    proof {
        assert(usage@.take(i as int) =~= usage@);
    }
    while i > 0
        invariant
            i <= usage@.len(),
            uses_in_round(usage@, instance, address as int, round) == uses_in_round(
                usage@.take(i as int),
                instance,
                address as int,
                round,
            ),
        decreases i,
    {
        let c = usage[i - 1];
        proof {
            assert(usage@.take(i as int).drop_last() =~= usage@.take(i - 1));
        }
        if c.instance == instance && c.address == address {
            if c.round == round {
                return c.count;
            }
            return 0;
        }
        i -= 1;
    }
    0
}

/// A card that has entered play (in an investigator's play area, a threat
/// area, attached to a location, or at a location).
pub struct CardInPlay {
    pub code: CardCode,
    pub instance_id: CardInstanceId,
    pub exhausted: bool,
}

impl CardInPlay {
    /// A ready card entering play.
    pub fn enter_play(code: CardCode, instance_id: CardInstanceId) -> (r: CardInPlay)
        ensures
            r.code == code,
            r.instance_id == instance_id,
            !r.exhausted,
    {
        CardInPlay { code, instance_id, exhausted: false }
    }
}

/// A seated investigator and everything they own or control.
pub struct Investigator {
    pub id: InvestigatorId,
    pub name: String,
    pub current_location: Option<LocationId>,
    pub skills: Skills,
    pub max_health: u8,
    pub damage: u8,
    pub max_sanity: u8,
    pub horror: u8,
    pub clues: u8,
    pub resources: u8,
    pub actions_remaining: u8,
    pub status: Status,
    pub deck: Vec<CardCode>,
    pub hand: Vec<CardCode>,
    pub discard: Vec<CardCode>,
    pub cards_in_play: Vec<CardInPlay>,
    pub threat_area: Vec<CardInPlay>,
    pub removed_from_game: Vec<CardCode>,
}

/// How many clues a location places when it is revealed.
#[derive(Clone, Copy, Debug, PartialEq, Eq, Structural)]
pub enum ClueValue {
    Fixed(u8),
    PerInvestigator(u8),
}

/// A location in play.
pub struct Location {
    pub id: LocationId,
    pub code: CardCode,
    pub revealed: bool,
    pub clues: u8,
    pub printed_clues: ClueValue,
    pub connections: Vec<LocationId>,
    pub attachments: Vec<CardInPlay>,
    pub cards_at_location: Vec<CardInPlay>,
}

impl Location {
    /// A revealed location with `clues` clues and no connections.
    pub fn new(id: LocationId, code: CardCode, clues: u8) -> (r: Location)
        ensures
            r.id == id,
            r.code == code,
            r.revealed,
            r.clues == clues,
            r.printed_clues == ClueValue::Fixed(clues),
            r.connections@.len() == 0,
            r.attachments@.len() == 0,
            r.cards_at_location@.len() == 0,
    {
        Location {
            id,
            code,
            revealed: true,
            clues,
            printed_clues: ClueValue::Fixed(clues),
            connections: Vec::new(),
            attachments: Vec::new(),
            cards_at_location: Vec::new(),
        }
    }
}

/// Which way a ranked prey instruction picks.
#[derive(Clone, Copy, Debug, PartialEq, Eq, Structural)]
pub enum PreyDirection {
    Highest,
    Lowest,
}

/// What a ranked prey instruction compares.
#[derive(Clone, Copy, Debug, PartialEq, Eq, Structural)]
pub enum PreyMeasure {
    Skill(SkillKind),
    RemainingHealth,
}

/// An enemy's prey instruction (Rules Reference p.17).
#[derive(Clone, Copy, Debug, PartialEq, Eq, Structural)]
pub enum Prey {
    /// Every candidate is equally eligible.
    Default,
    /// The candidates with the highest or lowest measure.
    Ranked { direction: PreyDirection, measure: PreyMeasure },
}

/// An enemy in play.
pub struct Enemy {
    pub id: EnemyId,
    pub code: CardCode,
    pub fight: u8,
    pub evade: u8,
    pub max_health: u8,
    pub damage: u8,
    pub attack_damage: u8,
    pub attack_horror: u8,
    pub current_location: Option<LocationId>,
    pub exhausted: bool,
    pub traits: Vec<String>,
    pub engaged_with: Option<InvestigatorId>,
    pub hunter: bool,
    pub prey: Prey,
    pub retaliate: bool,
    pub victory: Option<u8>,
}

/// An act card in the act deck.
pub struct Act {
    pub code: CardCode,
    pub clue_threshold: u8,
    /// The code of the location whose investigators may, as a group, spend
    /// the clue threshold at the end of the round to advance this act.
    pub round_end_advance: Option<CardCode>,
}

/// An agenda card in the agenda deck.
pub struct Agenda {
    pub code: CardCode,
    pub doom_threshold: u8,
}

/// How a scenario ended.
#[derive(Clone, Copy, Debug, PartialEq, Eq, Structural)]
pub enum ScenarioEnding {
    /// No resolution point was reached (every investigator was eliminated).
    NoResolution,
    /// A numbered resolution.
    Resolution(u8),
}

/// The step an in-progress elimination is at.
#[derive(Clone, Copy, Debug, PartialEq, Eq, Structural)]
pub enum EliminationStep {
    /// Step 0: fire the weaknesses' "when the game ends" abilities.
    FireWeaknessGameEnd,
    /// Steps 1-6.
    RunSteps,
}

/// Where a resolution candidate's ability is printed.
#[derive(Clone, Copy, Debug, PartialEq, Eq, Structural)]
pub enum CandidateSource {
    /// A Fast event in its controller's hand.
    Hand,
    /// A card instance in play (play area, threat area or attachment).
    InPlay(CardInstanceId),
    /// A location's own printed ability.
    Location(LocationId),
    /// A board card: the current act or agenda.
    Board,
    /// An enemy's own printed ability.
    Enemy(EnemyId),
}

/// One ability offered (or owed) at a timing point.
pub struct ResolutionCandidate {
    pub code: CardCode,
    pub controller: InvestigatorId,
    /// Index of the ability in the card's printed ability list.
    pub address: usize,
    pub source: CandidateSource,
}

impl ResolutionCandidate {
    /// A candidate for the ability at `address` on `code`.
    pub fn new(code: CardCode, controller: InvestigatorId, address: usize, source: CandidateSource)
        -> (r: ResolutionCandidate)
        ensures
            r.code == code,
            r.controller == controller,
            r.address == address,
            r.source == source,
    {
        ResolutionCandidate { code, controller, address, source }
    }
}

/// A lead-investigator choice a hunter's movement is waiting on.
pub enum HunterChoice {
    /// Several shortest-path first steps tie.
    Move { enemy: EnemyId, candidates: Vec<LocationId> },
    /// Several co-located investigators tie under the enemy's prey.
    Engage { enemy: EnemyId, candidates: Vec<InvestigatorId> },
}

/// A spawned enemy whose engagement is waiting on the lead's pick.
pub struct SpawnEngagePending {
    pub enemy: EnemyId,
    pub investigator_to_draw: InvestigatorId,
    pub candidates: Vec<InvestigatorId>,
    pub surge: bool,
    pub chain_count: usize,
}

/// A framework player window (Rules Reference Appendix II).
#[derive(Clone, Copy, Debug, PartialEq, Eq, Structural)]
pub enum PhaseStep {
    MythosAfterDraws,
    InvestigationBegins,
    InvestigatorTurnBegins,
    BeforeInvestigatorAttacked,
    AfterAllInvestigatorsAttacked,
    UpkeepBegins,
}

/// The `when`/`at`/`after` cursor of a multi-cell timing point.
#[derive(Clone, Copy, Debug, PartialEq, Eq, Structural)]
pub enum EmitStep {
    When,
    At,
    After,
}

/// A unit of pending work on the continuation stack. The top frame is what
/// resolves next.
pub enum Continuation {
    /// An investigator's turn. `ending` is set once the turn is over and the
    /// rotation to the next investigator is owed.
    InvestigatorTurn { investigator: InvestigatorId, ending: bool },
    /// An investigator's elimination, mid-sequence.
    Elimination { investigator: InvestigatorId, step: EliminationStep },
    /// A hunter's movement or engagement awaiting the lead's pick.
    HunterMove(HunterChoice),
    /// An engagement-on-spawn awaiting the lead's pick.
    SpawnEngage(SpawnEngagePending),
    /// Upkeep step 4.5: the listed investigators still owe a discard.
    HandSizeDiscard { remaining: Vec<InvestigatorId> },
    /// The one-option confirmation before a lone forced ability resolves.
    AcknowledgeForced { candidate: ResolutionCandidate },
    /// Two or more simultaneous forced abilities, awaiting the lead's order.
    ForcedRun { candidates: Vec<ResolutionCandidate> },
    /// An open reaction window at `event`'s cell `bucket`, offering its
    /// remaining optional reactions and Fast plays.
    ReactionWindow { event: TimingEvent, bucket: EventTiming, candidates: Vec<ResolutionCandidate> },
    /// A framework player window that could not be skipped.
    FastWindow { kind: PhaseStep },
    /// A queued ability effect.
    Effect { effect: Effect, controller: InvestigatorId, source: Option<CardInstanceId> },
    /// A multi-cell timing point walking its `when`/`at`/`after` cells.
    EmitEvent { event: TimingEvent, step: EmitStep },
    /// The end-of-round group clue spend offered by the current act.
    ActRoundEndAdvance { contributor_location: LocationId, threshold: u8 },
    /// The current phase has ended; the next one begins once everything
    /// above has resolved.
    NextPhase,
    /// Upkeep steps 4.2-4.5 are done; step 4.6 runs next.
    UpkeepEnd,
    /// The round-end forced abilities have resolved; the round's tail runs
    /// next.
    RoundEndTail,
}

/// Whether `c` is a turn frame.
pub open spec fn is_turn_frame(c: Continuation) -> bool {
    c is InvestigatorTurn
}

/// The whole game state.
pub struct GameState {
    pub phase: Phase,
    pub round: u32,
    pub investigators: Vec<Investigator>,
    pub turn_order: Vec<InvestigatorId>,
    pub locations: Vec<Location>,
    pub enemies: Vec<Enemy>,
    /// Index 0 is the top of the deck.
    pub encounter_deck: Vec<CardCode>,
    pub encounter_discard: Vec<CardCode>,
    pub set_aside_cards: Vec<CardCode>,
    pub set_aside_enemies: Vec<CardCode>,
    pub next_enemy_id: u32,
    pub next_location_id: u32,
    pub next_instance_id: u32,
    pub continuations: Vec<Continuation>,
    pub ending: Option<ScenarioEnding>,
    pub active_investigator: Option<InvestigatorId>,
    pub mythos_draw_pending: Option<InvestigatorId>,
    pub enemy_attack_pending: Option<InvestigatorId>,
    pub rng: u64,
    pub act_deck: Vec<Act>,
    pub act_index: usize,
    pub agenda_deck: Vec<Agenda>,
    pub agenda_index: usize,
    pub doom: u8,
    pub registry: Option<CardRegistry>,
    pub interactive_acknowledge: bool,
    pub starting_location: Option<LocationId>,
    /// The scenario's printed connections, as pairs of location codes.
    pub layout: Vec<(CardCode, CardCode)>,
    /// Skill substitutions that last until the end of the round.
    pub skill_substitutions: Vec<InvestigatorId>,
    /// Initiations of limited abilities, one counter per card instance and
    /// ability.
    pub ability_usage: Vec<UsageCounter>,
    /// The location under test by the skill test in flight, if any: the
    /// forced abilities attached to it answer that test's resolution.
    pub skill_test_location: Option<LocationId>,
    /// The investigator whose setup mulligan is due, if any; setup ends,
    /// and the first Investigation phase begins, once nobody is left.
    pub mulligan_pending: Option<InvestigatorId>,
}

/// Investigator ids are pairwise distinct.
pub open spec fn investigator_ids_distinct(s: Seq<Investigator>) -> bool {
    forall|i: int, j: int| 0 <= i < s.len() && 0 <= j < s.len() && i != j ==> s[i].id != s[j].id
}

/// Location ids are pairwise distinct.
pub open spec fn location_ids_distinct(s: Seq<Location>) -> bool {
    forall|i: int, j: int| 0 <= i < s.len() && 0 <= j < s.len() && i != j ==> s[i].id != s[j].id
}

/// Enemy ids are pairwise distinct.
pub open spec fn enemy_ids_distinct(s: Seq<Enemy>) -> bool {
    forall|i: int, j: int| 0 <= i < s.len() && 0 <= j < s.len() && i != j ==> s[i].id != s[j].id
}

/// The seated investigators are kept in ascending id order.
pub open spec fn investigators_ascending(s: Seq<Investigator>) -> bool {
    forall|i: int, j: int| 0 <= i < j < s.len() ==> s[i].id.0 < s[j].id.0
}

/// The locations in play are kept in ascending id order.
pub open spec fn locations_ascending(s: Seq<Location>) -> bool {
    forall|i: int, j: int| 0 <= i < j < s.len() ==> s[i].id.0 < s[j].id.0
}

/// The enemies in play are kept in ascending id order.
pub open spec fn enemies_ascending(s: Seq<Enemy>) -> bool {
    forall|i: int, j: int| 0 <= i < j < s.len() ==> s[i].id.0 < s[j].id.0
}

/// Whether an investigator with `id` is seated.
pub open spec fn has_investigator(s: Seq<Investigator>, id: InvestigatorId) -> bool {
    exists|i: int| 0 <= i < s.len() && s[i].id == id
}

/// The index of the investigator with `id` (meaningful when seated).
pub open spec fn investigator_index(s: Seq<Investigator>, id: InvestigatorId) -> int {
    choose|i: int| 0 <= i < s.len() && s[i].id == id
}

/// Whether a location with `id` is in play.
pub open spec fn has_location(s: Seq<Location>, id: LocationId) -> bool {
    exists|i: int| 0 <= i < s.len() && s[i].id == id
}

/// The index of the location with `id` (meaningful when in play).
pub open spec fn location_index(s: Seq<Location>, id: LocationId) -> int {
    choose|i: int| 0 <= i < s.len() && s[i].id == id
}

/// Whether an enemy with `id` is in play.
pub open spec fn has_enemy(s: Seq<Enemy>, id: EnemyId) -> bool {
    exists|i: int| 0 <= i < s.len() && s[i].id == id
}

/// The index of the enemy with `id` (meaningful when in play).
pub open spec fn enemy_index(s: Seq<Enemy>, id: EnemyId) -> int {
    choose|i: int| 0 <= i < s.len() && s[i].id == id
}

/// Whether the location with code `code` is in play.
pub open spec fn has_location_code(s: Seq<Location>, code: Seq<char>) -> bool {
    exists|i: int| 0 <= i < s.len() && s[i].code@ == code
}

/// The index of the first location with code `code`.
pub open spec fn first_location_with_code(s: Seq<Location>, code: Seq<char>) -> int {
    choose|i: int|
        0 <= i < s.len() && s[i].code@ == code && forall|j: int| 0 <= j < i ==> s[j].code@ != code
}

/// The seated investigator at `i` is the one [`investigator_index`] names.
pub proof fn lemma_investigator_index(s: Seq<Investigator>, id: InvestigatorId, i: int)
    requires
        investigator_ids_distinct(s),
        0 <= i < s.len(),
        s[i].id == id,
    ensures
        has_investigator(s, id),
        investigator_index(s, id) == i,
{
    assert(has_investigator(s, id));
}

/// The location at `i` is the one [`location_index`] names.
pub proof fn lemma_location_index(s: Seq<Location>, id: LocationId, i: int)
    requires
        location_ids_distinct(s),
        0 <= i < s.len(),
        s[i].id == id,
    ensures
        has_location(s, id),
        location_index(s, id) == i,
{
    assert(has_location(s, id));
}

/// The enemy at `i` is the one [`enemy_index`] names.
pub proof fn lemma_enemy_index(s: Seq<Enemy>, id: EnemyId, i: int)
    requires
        enemy_ids_distinct(s),
        0 <= i < s.len(),
        s[i].id == id,
    ensures
        has_enemy(s, id),
        enemy_index(s, id) == i,
{
    assert(has_enemy(s, id));
}

impl GameState {
    /// Well-formedness: keyed collections hold distinct keys in ascending
    /// order, the id counters are ahead of every id they minted, and each
    /// investigator is seated in turn order at most once.
    pub open spec fn wf(&self) -> bool {
        &&& investigator_ids_distinct(self.investigators@)
        &&& location_ids_distinct(self.locations@)
        &&& enemy_ids_distinct(self.enemies@)
        &&& forall|i: int| 0 <= i < self.enemies@.len() ==> self.enemies@[i].id.0 < self.next_enemy_id
        &&& forall|i: int|
            0 <= i < self.locations@.len() ==> self.locations@[i].id.0 < self.next_location_id
        &&& self.turn_order@.no_duplicates()
        &&& investigators_ascending(self.investigators@)
        &&& locations_ascending(self.locations@)
        &&& enemies_ascending(self.enemies@)
    }

    /// An empty table: no investigators, no board, round 0 of the Mythos phase.
    pub fn new() -> (r: GameState)
        ensures
            r.wf(),
            r.round == 0,
            r.phase == Phase::Mythos,
            r.investigators@.len() == 0,
            r.locations@.len() == 0,
            r.enemies@.len() == 0,
            r.turn_order@.len() == 0,
            r.continuations@.len() == 0,
            r.encounter_deck@.len() == 0,
            r.encounter_discard@.len() == 0,
            r.set_aside_cards@.len() == 0,
            r.set_aside_enemies@.len() == 0,
            r.ending.is_none(),
            r.registry.is_none(),
            r.next_enemy_id == 1,
            r.next_location_id == 1,
            r.next_instance_id == 1,
    {
        GameState {
            phase: Phase::Mythos,
            round: 0,
            investigators: Vec::new(),
            turn_order: Vec::new(),
            locations: Vec::new(),
            enemies: Vec::new(),
            encounter_deck: Vec::new(),
            encounter_discard: Vec::new(),
            set_aside_cards: Vec::new(),
            set_aside_enemies: Vec::new(),
            next_enemy_id: 1,
            next_location_id: 1,
            next_instance_id: 1,
            continuations: Vec::new(),
            ending: None,
            active_investigator: None,
            mythos_draw_pending: None,
            enemy_attack_pending: None,
            rng: 0,
            act_deck: Vec::new(),
            act_index: 0,
            agenda_deck: Vec::new(),
            agenda_index: 0,
            doom: 0,
            registry: None,
            interactive_acknowledge: false,
            starting_location: None,
            layout: Vec::new(),
            skill_substitutions: Vec::new(),
            ability_usage: Vec::new(),
            skill_test_location: None,
            mulligan_pending: None,
        }
    }

    /// The index of the investigator with `id`, if seated.
    pub fn find_investigator(&self, id: InvestigatorId) -> (r: Option<usize>)
        requires
            investigator_ids_distinct(self.investigators@),
        ensures
            match r {
                Some(i) => i < self.investigators@.len() && self.investigators@[i as int].id == id
                    && i == investigator_index(self.investigators@, id) && has_investigator(
                    self.investigators@,
                    id,
                ),
                None => !has_investigator(self.investigators@, id),
            },
    {
        let mut i: usize = 0;
        while i < self.investigators.len()
            invariant
                i <= self.investigators@.len(),
                investigator_ids_distinct(self.investigators@),
                forall|j: int| 0 <= j < i ==> self.investigators@[j].id != id,
            decreases self.investigators@.len() - i,
        {
            if self.investigators[i].id == id {
                proof {
                    lemma_investigator_index(self.investigators@, id, i as int);
                }
                return Some(i);
            }
            i += 1;
        }
        None
    }

    /// The index of the location with `id`, if in play.
    pub fn find_location(&self, id: LocationId) -> (r: Option<usize>)
        requires
            location_ids_distinct(self.locations@),
        ensures
            match r {
                Some(i) => i < self.locations@.len() && self.locations@[i as int].id == id && i
                    == location_index(self.locations@, id) && has_location(self.locations@, id),
                None => !has_location(self.locations@, id),
            },
    {
        let mut i: usize = 0;
        while i < self.locations.len()
            invariant
                i <= self.locations@.len(),
                location_ids_distinct(self.locations@),
                forall|j: int| 0 <= j < i ==> self.locations@[j].id != id,
            decreases self.locations@.len() - i,
        {
            if self.locations[i].id == id {
                proof {
                    lemma_location_index(self.locations@, id, i as int);
                }
                return Some(i);
            }
            i += 1;
        }
        None
    }

    /// The index of the enemy with `id`, if in play.
    pub fn find_enemy(&self, id: EnemyId) -> (r: Option<usize>)
        requires
            enemy_ids_distinct(self.enemies@),
        ensures
            match r {
                Some(i) => i < self.enemies@.len() && self.enemies@[i as int].id == id && i
                    == enemy_index(self.enemies@, id) && has_enemy(self.enemies@, id),
                None => !has_enemy(self.enemies@, id),
            },
    {
        let mut i: usize = 0;
        while i < self.enemies.len()
            invariant
                i <= self.enemies@.len(),
                enemy_ids_distinct(self.enemies@),
                forall|j: int| 0 <= j < i ==> self.enemies@[j].id != id,
            decreases self.enemies@.len() - i,
        {
            if self.enemies[i].id == id {
                proof {
                    lemma_enemy_index(self.enemies@, id, i as int);
                }
                return Some(i);
            }
            i += 1;
        }
        None
    }

    /// The id of the first location whose printed code is `code`, if any is
    /// in play.
    pub fn location_id_by_code(&self, code: &str) -> (r: Option<LocationId>)
        ensures
            match r {
                Some(id) => has_location_code(self.locations@, code@) && id == self.locations@[
                    first_location_with_code(self.locations@, code@)].id && has_location(
                    self.locations@,
                    id,
                ),
                None => !has_location_code(self.locations@, code@),
            },
    {
        let wanted = code.to_owned();
        let mut i: usize = 0;
        while i < self.locations.len()
            invariant
                i <= self.locations@.len(),
                wanted@ == code@,
                forall|j: int| 0 <= j < i ==> self.locations@[j].code@ != code@,
            decreases self.locations@.len() - i,
        {
            if self.locations[i].code == wanted {
                proof {
                    let k = first_location_with_code(self.locations@, code@);
                    assert(0 <= i < self.locations@.len() && self.locations@[i as int].code@
                        == code@ && forall|j: int| 0 <= j < i ==> self.locations@[j].code@
                        != code@);
                    assert(0 <= k < self.locations@.len() && self.locations@[k].code@ == code@
                        && forall|j: int| 0 <= j < k ==> self.locations@[j].code@ != code@);
                    assert(k == i) by {
                        if k < i {
                        } else if k > i {
                            assert(self.locations@[i as int].code@ != code@);
                        }
                    }
                }
                return Some(self.locations[i].id);
            }
            i += 1;
        }
        None
    }
}

} // verus!
