//! What a handler returns, what it logs, and what a player answers.
use vstd::prelude::*;

use crate::cards::CardType;
use crate::state::{
    CardCode, CardInstanceId, DefeatCause, EnemyId, InvestigatorId, LocationId, Phase, PhaseStep,
};

verus! {

/// Where a prompt or one of its options is anchored on the board.
pub enum OptionTarget {
    Global,
    Act,
    Agenda,
    Location(LocationId),
    CardInstance(CardInstanceId),
    HandCardByCode { investigator: InvestigatorId, code: CardCode },
    Enemy(EnemyId),
    Investigator(InvestigatorId),
    TurnControl(InvestigatorId),
}

/// One option of a prompt; `id` is its index in the option list.
pub struct ChoiceOption {
    pub id: u32,
    pub target: Option<OptionTarget>,
}

/// What a prompt asks for.
#[derive(Clone, Copy, Debug, PartialEq, Eq, Structural)]
pub enum PromptKind {
    /// The open turn's action menu.
    TurnMenu,
    /// A hunter's destination among tied first steps.
    HunterMove(EnemyId),
    /// Whom a hunter engages among tied investigators.
    HunterEngage(EnemyId),
    /// Whom a spawned enemy engages among tied investigators.
    SpawnEngage(EnemyId),
    /// Which cards an over-cap investigator discards.
    HandSizeDiscard(InvestigatorId),
    /// Confirmation before a lone forced ability resolves.
    AcknowledgeForced,
    /// The order of two or more simultaneous forced abilities.
    ForcedOrder,
    /// A skippable player window.
    FastWindow,
    /// The act's end-of-round group clue spend.
    ActRoundEndAdvance,
    /// The options of an open reaction window (skippable).
    ReactionWindow,
}

/// A prompt the engine is waiting on.
pub struct InputRequest {
    pub kind: PromptKind,
    pub options: Vec<ChoiceOption>,
    pub target: Option<OptionTarget>,
}

/// Why a handler refused to act. A refused handler leaves the state as it
/// found it unless its documentation says otherwise.
#[derive(Clone, Copy, Debug, PartialEq, Eq, Structural)]
pub enum Reject {
    NoRegistry,
    UnknownCard,
    NotSetAside,
    NotAnEnemy,
    LocationNotInPlay,
    NoSpawnLocation,
    LocationTakesNoTarget,
    NeedsLocation,
    UnsupportedCardKind,
    InvalidEncounterCardType,
    EncounterDeckEmpty,
    WrongPhase,
    NotInvestigationPhase,
    NoDrawPending,
    OutOfOrder,
    NoActiveInvestigator,
    WrongResponseKind,
    OptionOutOfRange,
    WrongDiscardCount,
    DuplicateIndex,
    IndexOutOfBounds,
    NoPromptOutstanding,
    NotEnoughClues,
    AlreadyStarted,
    NoInvestigators,
    NotAnInvestigator,
    DriveLimit,
    NoLongerInitiable,
    InvestigatorNotInState,
    NotActive,
    HandIndexOutOfBounds,
    NotPlayableFromHand,
    ReactionEventOnly,
    NoStateChange,
    NotPlayableNow,
    NoActionLeft,
    CannotAfford,
    NoMulliganPending,
    MulliganPending,
    IdsExhausted,
    SourceUnreachable,
    NoSuchAbility,
    UntrackableLimit,
    NotActivatableNow,
    LimitReached,
}

/// The text that accounts for the refusal `r`.
pub open spec fn reject_text(r: Reject) -> Seq<char> {
    match r {
        Reject::NoRegistry => "no card registry installed"@,
        Reject::UnknownCard => "unknown card code"@,
        Reject::NotSetAside => "the card is not set aside"@,
        Reject::NotAnEnemy => "the card is not an enemy"@,
        Reject::LocationNotInPlay => "spawn location not in play"@,
        Reject::NoSpawnLocation => "drawing investigator has no location"@,
        Reject::LocationTakesNoTarget => "a location cannot be put into play at a location"@,
        Reject::NeedsLocation => "this card needs a location to enter play at"@,
        Reject::UnsupportedCardKind => "this kind of card cannot be put into play from set aside"@,
        Reject::InvalidEncounterCardType => "invalid encounter card type"@,
        Reject::EncounterDeckEmpty => "encounter deck and discard both empty"@,
        Reject::WrongPhase => "only valid during Mythos phase"@,
        Reject::NotInvestigationPhase => "only valid during the Investigation phase"@,
        Reject::NoDrawPending => "no draw pending"@,
        Reject::OutOfOrder => "out of order"@,
        Reject::NoActiveInvestigator => "no active investigator"@,
        Reject::WrongResponseKind => "wrong response kind for this prompt"@,
        Reject::OptionOutOfRange => "option out of range"@,
        Reject::WrongDiscardCount => "wrong number of cards discarded"@,
        Reject::DuplicateIndex => "duplicate hand index"@,
        Reject::IndexOutOfBounds => "hand index out of bounds"@,
        Reject::NoPromptOutstanding => "no prompt outstanding"@,
        Reject::NotEnoughClues => "not enough clues"@,
        Reject::AlreadyStarted => "scenario already started"@,
        Reject::NoInvestigators => "no investigators"@,
        Reject::NotAnInvestigator => "not an investigator"@,
        Reject::DriveLimit => "step limit reached"@,
        Reject::NoLongerInitiable => "that option can no longer be initiated"@,
        Reject::InvestigatorNotInState => "investigator is not in state"@,
        Reject::NotActive => "investigator is not Active"@,
        Reject::HandIndexOutOfBounds => "hand_index out of bounds"@,
        Reject::NotPlayableFromHand => "this kind of card cannot be played from hand"@,
        Reject::ReactionEventOnly => "a reaction event is played only in its reaction window"@,
        Reject::NoStateChange => "its effect cannot change the game state"@,
        Reject::NotPlayableNow => "card not playable in this timing window"@,
        Reject::NoActionLeft => "this needs an action the investigator no longer has"@,
        Reject::CannotAfford => "cannot pay the card's resource cost"@,
        Reject::NoMulliganPending => "no mulligan is due"@,
        Reject::MulliganPending => "setup mulligans are still due"@,
        Reject::IdsExhausted => "no investigator ids are left to seat the roster"@,
        Reject::SourceUnreachable => "the investigator cannot reach that ability's card"@,
        Reject::NoSuchAbility => "no activated ability at that index"@,
        Reject::UntrackableLimit => "a limited ability needs a card instance to count its uses"@,
        Reject::NotActivatableNow => "an action ability is activated only on its controller's own turn"@,
        Reject::LimitReached => "the ability's limit is used up this round"@,
    }
}

impl Reject {
    /// A human-readable account of the refusal.
    pub fn message(&self) -> (r: &'static str)
        ensures
            r@ == reject_text(*self),
    {
        match self {
            Reject::NoRegistry => "no card registry installed",
            Reject::UnknownCard => "unknown card code",
            Reject::NotSetAside => "the card is not set aside",
            Reject::NotAnEnemy => "the card is not an enemy",
            Reject::LocationNotInPlay => "spawn location not in play",
            Reject::NoSpawnLocation => "drawing investigator has no location",
            Reject::LocationTakesNoTarget => "a location cannot be put into play at a location",
            Reject::NeedsLocation => "this card needs a location to enter play at",
            Reject::UnsupportedCardKind => "this kind of card cannot be put into play from set aside",
            Reject::InvalidEncounterCardType => "invalid encounter card type",
            Reject::EncounterDeckEmpty => "encounter deck and discard both empty",
            Reject::WrongPhase => "only valid during Mythos phase",
            Reject::NotInvestigationPhase => "only valid during the Investigation phase",
            Reject::NoDrawPending => "no draw pending",
            Reject::OutOfOrder => "out of order",
            Reject::NoActiveInvestigator => "no active investigator",
            Reject::WrongResponseKind => "wrong response kind for this prompt",
            Reject::OptionOutOfRange => "option out of range",
            Reject::WrongDiscardCount => "wrong number of cards discarded",
            Reject::DuplicateIndex => "duplicate hand index",
            Reject::IndexOutOfBounds => "hand index out of bounds",
            Reject::NoPromptOutstanding => "no prompt outstanding",
            Reject::NotEnoughClues => "not enough clues",
            Reject::AlreadyStarted => "scenario already started",
            Reject::NoInvestigators => "no investigators",
            Reject::NotAnInvestigator => "not an investigator",
            Reject::DriveLimit => "step limit reached",
            Reject::NoLongerInitiable => "that option can no longer be initiated",
            Reject::InvestigatorNotInState => "investigator is not in state",
            Reject::NotActive => "investigator is not Active",
            Reject::HandIndexOutOfBounds => "hand_index out of bounds",
            Reject::NotPlayableFromHand => "this kind of card cannot be played from hand",
            Reject::ReactionEventOnly => "a reaction event is played only in its reaction window",
            Reject::NoStateChange => "its effect cannot change the game state",
            Reject::NotPlayableNow => "card not playable in this timing window",
            Reject::NoActionLeft => "this needs an action the investigator no longer has",
            Reject::CannotAfford => "cannot pay the card's resource cost",
            Reject::NoMulliganPending => "no mulligan is due",
            Reject::MulliganPending => "setup mulligans are still due",
            Reject::IdsExhausted => "no investigator ids are left to seat the roster",
            Reject::SourceUnreachable => "the investigator cannot reach that ability's card",
            Reject::NoSuchAbility => "no activated ability at that index",
            Reject::UntrackableLimit => "a limited ability needs a card instance to count its uses",
            Reject::NotActivatableNow => "an action ability is activated only on its controller's own turn",
            Reject::LimitReached => "the ability's limit is used up this round",
        }
    }
}

/// What a handler did.
pub enum EngineOutcome {
    /// Finished (or queued its work for the drive loop).
    Done,
    /// Suspended on a prompt.
    AwaitingInput { request: InputRequest },
    /// Refused.
    Rejected { reason: Reject },
}

/// A player's answer to a prompt.
pub enum InputResponse {
    PickSingle(u32),
    PickMultiple(Vec<u32>),
    Confirm,
    Skip,
    DiscardCards { indices: Vec<u32> },
}

/// One investigator to seat at the start of a scenario: the investigator
/// card's code and the player's deck.
pub struct RosterEntry {
    pub investigator: CardCode,
    pub deck: Vec<CardCode>,
}

/// A player's action.
pub enum PlayerAction {
    /// Begin the scenario, seating the roster.
    StartScenario { roster: Vec<RosterEntry> },
    /// An answer to the prompt on top.
    ResolveInput { response: InputResponse },
    /// The active investigator ends their turn.
    EndTurn,
    /// The investigator whose setup mulligan is due redraws the cards of
    /// their opening hand at `indices_to_redraw` (none to keep it).
    Mulligan { investigator: InvestigatorId, indices_to_redraw: Vec<u32> },
    /// The investigator whose Mythos encounter draw (step 1.4) is due draws.
    DrawEncounterCard { investigator: InvestigatorId },
}

/// An engine-generated record.
pub enum EngineRecord {
    DeckShuffled { investigator: InvestigatorId },
    EncounterDeckShuffled,
    EncounterCardRevealed { investigator: InvestigatorId },
}

/// The zone a card was discarded from.
#[derive(Clone, Copy, Debug, PartialEq, Eq, Structural)]
pub enum Zone {
    Hand,
    InPlay,
    ThreatArea,
}

/// A likely reason an offered reaction option was withdrawn.
#[derive(Clone, Copy, Debug, PartialEq, Eq, Structural)]
pub enum LapseReason {
    /// Its card is no longer where the scan found it.
    SourceGone,
    /// Its cost can no longer be paid.
    CostUnpayable,
    /// Its effect can still change the game state, but a scan no longer
    /// offers it.
    NoLongerEligible,
    /// Its effect can no longer change the game state.
    NoStateChange,
}

/// One entry of the event log.
pub enum Event {
    ScenarioStarted,
    PhaseStarted { phase: Phase },
    PhaseEnded { phase: Phase },
    TurnEnded { investigator: InvestigatorId },
    ActionsRemainingChanged { investigator: InvestigatorId, new_count: u8 },
    InvestigatorDefeated { investigator: InvestigatorId, cause: DefeatCause },
    AllInvestigatorsDefeated,
    LocationRevealed { location: LocationId, clues: u8 },
    LocationCluesChanged { location: LocationId, new_count: u8 },
    EnemyDisengaged { enemy: EnemyId, investigator: InvestigatorId },
    EnemyEngaged { enemy: EnemyId, investigator: InvestigatorId },
    EnemyMoved { enemy: EnemyId, to: LocationId },
    EnemySpawned {
        enemy: EnemyId,
        code: CardCode,
        location: LocationId,
        engaged_with: Option<InvestigatorId>,
    },
    EnemyReadied { enemy: EnemyId },
    EnemyExhausted { enemy: EnemyId },
    EnemyAttacked { enemy: EnemyId, investigator: InvestigatorId },
    CardRevealed { investigator: InvestigatorId, code: CardCode, card_type: CardType },
    CardReadied { investigator: InvestigatorId, instance_id: CardInstanceId, code: CardCode },
    CardDiscarded { investigator: InvestigatorId, code: CardCode, from: Zone },
    CardsDrawn { investigator: InvestigatorId, count: u8 },
    DamageTaken { investigator: InvestigatorId, amount: u8 },
    HorrorTaken { investigator: InvestigatorId, amount: u8 },
    ResourcesGained { investigator: InvestigatorId, amount: u8 },
    DoomPlaced { new_count: u8 },
    EncounterDeckShuffled,
    DeckShuffled { investigator: InvestigatorId },
    CluesSpent { amount: u8 },
    ActAdvanced { code: CardCode },
    CardEnteredPlay { code: CardCode, location: LocationId },
    WindowOpened { kind: PhaseStep },
    WindowClosed { kind: PhaseStep },
    /// An offered reaction option can no longer be initiated and was
    /// withdrawn from its window.
    ReactionOptionLapsed { investigator: InvestigatorId, code: CardCode, reason: LapseReason },
    /// A card was played from hand.
    CardPlayed { investigator: InvestigatorId, code: CardCode },
}

} // verus!
