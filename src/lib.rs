//! A single tamagotchi battle: registration, pairing into matches, move intake
//! with deadlines, combat resolution and bracket progression to one winner.
//!
//! Everything here is pure state and logic. The host side (message transport,
//! the identity service, the random source and the scheduler of deferred
//! checks) hands its results in as plain values.

mod types;
mod combat;
mod pairing;
mod battle;
mod progression;

pub use types::{ActorId, TamagotchiId, PairId, Move, BattleState, Player, Pair, TmgInfo, BattleError, BattleEvent};
pub use combat::{lemma_defence_absorbs, value_in_range, attack_damage, resolve_exchange, power_from_seed, color_for_index, HEALTH, MAX_POWER, MAX_RANGE, MIN_RANGE, MIN_SWING, MAX_SWING};
pub use pairing::{shuffle, make_pairs, lemma_pairing_shape, lemma_pairs_members};
pub use battle::{Battle, lemma_resolved_once, lemma_idle_deadline, lemma_round_step, lemma_first_round, MAX_PARTICIPANTS, MAX_STEPS_IN_ROUND, TIME_FOR_MOVE};
pub use progression::{next_round_size, rounds_needed, pow2, halve_times, lemma_round_halves, lemma_rounds_is_ceil_log2, lemma_halving_reaches_one, is_round_trace, lemma_trace_rounds};
