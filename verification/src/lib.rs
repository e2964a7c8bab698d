//! The rules engine's per-action dispatch handlers: phases, encounters,
//! hunters, elimination, forced triggers and timing points, over a game
//! state whose every mutation is verified against its contract.
pub mod cards;
pub mod emit;
pub mod forced_triggers;
pub mod outcome;
pub mod state;
pub mod cursor;
pub mod seqs;
pub mod location_reveal;
pub mod movement;
pub mod prey;
pub mod engagement;
pub mod elimination;
pub mod queue;
pub mod deck;
pub mod encounter;
pub mod set_aside;
pub mod upkeep;
pub mod combat;
pub mod hunters;
pub mod phases;
pub mod dispatch;
pub mod setup;
pub mod reactions;
pub mod plays;
pub mod activation;
