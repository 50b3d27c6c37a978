use vstd::prelude::*;

verus! {

/// Identity of an actor (a program or a user account) on the host: 256 bits,
/// as four little-endian words.
#[derive(Clone, Copy, Debug, PartialEq, Eq, Structural)]
pub struct ActorId {
    pub w0: u64,
    pub w1: u64,
    pub w2: u64,
    pub w3: u64,
}

impl ActorId {
    pub open spec fn zero_spec() -> ActorId {
        ActorId { w0: 0, w1: 0, w2: 0, w3: 0 }
    }

    /// The all-zero identity, which no actor has.
    pub fn zero() -> (r: ActorId)
        ensures
            r == ActorId::zero_spec(),
    {
        ActorId { w0: 0, w1: 0, w2: 0, w3: 0 }
    }
}

/// A tamagotchi is itself an actor; its id is the participant identity.
pub type TamagotchiId = ActorId;

/// Index of a pair within the current round.
pub type PairId = u8;

/// One side's choice in an exchange.
#[derive(Clone, Copy, Debug, PartialEq, Eq, Structural)]
pub enum Move {
    Attack,
    Defence,
}

/// Lifecycle of a battle.
#[derive(Clone, Copy, Debug, PartialEq, Eq, Structural)]
pub enum BattleState {
    Registration,
    GameIsOn,
    WaitNextRound,
    GameIsOver,
}

/// What the identity service answers about a tamagotchi.
#[derive(Clone, Debug)]
pub struct TmgInfo {
    pub owner: ActorId,
    pub name: String,
    pub date_of_birth: u64,
}

/// A registered participant.
#[derive(Clone, Debug)]
pub struct Player {
    pub owner: ActorId,
    pub name: String,
    pub date_of_birth: u64,
    pub tmg_id: TamagotchiId,
    pub defence: u16,
    pub power: u16,
    pub health: u16,
    pub color: String,
    pub victories: u32,
}

/// One match of a round. A bye is a pair with a single participant that is
/// over from the start, with that participant as winner.
#[derive(Clone, Copy, Debug, PartialEq, Eq, Structural)]
pub struct Pair {
    pub owner_a: ActorId,
    pub owner_b: ActorId,
    pub tmg_a: TamagotchiId,
    pub tmg_b: TamagotchiId,
    pub bye: bool,
    pub move_a: Option<Move>,
    pub move_b: Option<Move>,
    pub rounds: u8,
    pub game_is_over: bool,
    pub winner: ActorId,
    pub move_deadline: u64,
}

/// Why an operation was refused. A refused operation changes nothing.
#[derive(Clone, Copy, Debug, PartialEq, Eq, Structural)]
pub enum BattleError {
    Unauthorized,
    InvalidPhase,
    CapacityExceeded,
    NotEnoughPlayers,
    UnknownPair,
    NotAParticipant,
    MoveAlreadySubmitted,
    IdentityUnavailable,
    RandomnessUnavailable,
}

/// What an accepted operation reports.
#[derive(Clone, Copy, Debug, PartialEq, Eq, Structural)]
pub enum BattleEvent {
    RegistrationStarted,
    Registered { tmg_id: TamagotchiId },
    MoveMade,
    BattleStarted,
    RoundResult { pair_id: PairId, health_a: u16, health_b: u16, move_a: Move, move_b: Move },
    NewRound,
    AdminAdded,
    NothingToDo,
}

} // verus!
