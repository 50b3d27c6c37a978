use vstd::prelude::*;
use crate::types::{ActorId, BattleError, BattleEvent, BattleState, Move, Pair, PairId, Player, TamagotchiId, TmgInfo};
use crate::progression::next_round_size;
use crate::combat::{color_for_index, color_spec, exchange_spec, power_from_seed, resolve_exchange, HEALTH, MAX_POWER, MAX_RANGE, MIN_RANGE};
use crate::pairing::{permutes, ids_of, in_pair, lemma_pairing_shape, lemma_permuted_ids_distinct, lemma_pairs_members, make_pairs, pairs_spec, same_members, shuffle, shuffled};

verus! {

/// Most participants one battle takes.
pub const MAX_PARTICIPANTS: usize = 50;
/// A pair ends after this many exchanges at the latest.
pub const MAX_STEPS_IN_ROUND: u8 = 5;
/// Time each side has for a move, counted from the start of the exchange.
pub const TIME_FOR_MOVE: u64 = 20;

/// The battle aggregate: admins, registry, the entrants and pairs of the round
/// in progress, phase, and the winner once the battle is over.
pub struct Battle {
    pub admins: Vec<ActorId>,
    pub players: Vec<Player>,
    /// Entrants of the current round, tamagotchi and owner, in pairing order.
    pub current_players: Vec<(TamagotchiId, ActorId)>,
    pub state: BattleState,
    pub current_winner: ActorId,
    /// Pairs of the current round; a pair's id is its index.
    pub pairs: Vec<Pair>,
    /// Audit trail: each participant with the id of every pair it was put in,
    /// round after round, in the order the pairs were formed.
    pub players_to_pairs: Vec<(TamagotchiId, PairId)>,
    pub completed_games: u8,
}

/// Power in its range, defence what power leaves, health at most the start.
pub open spec fn stats_in_bounds(pl: Player) -> bool {
    &&& MIN_RANGE <= pl.power < MAX_RANGE
    &&& pl.defence == MAX_POWER - pl.power
    &&& pl.health <= HEALTH
}

/// Whether some participant has tamagotchi `id`.
pub open spec fn registered(players: Seq<Player>, id: TamagotchiId) -> bool {
    exists|i: int| 0 <= i < players.len() && (#[trigger] players[i]).tmg_id == id
}

/// Index of the participant with tamagotchi `id`.
pub open spec fn player_index(players: Seq<Player>, id: TamagotchiId) -> int {
    choose|i: int| 0 <= i < players.len() && (#[trigger] players[i]).tmg_id == id
}

/// Deadline of an exchange that starts at `now`, saturating at the end of time.
pub open spec fn deadline_after(now: u64) -> u64 {
    if now as int + TIME_FOR_MOVE as int <= u64::MAX as int {
        (now + TIME_FOR_MOVE) as u64
    } else {
        u64::MAX
    }
}

/// Whether the exchange that left healths `ha` and `hb` ends the pair.
pub open spec fn pair_finished(p: Pair, ha: int, hb: int) -> bool {
    ha == 0 || hb == 0 || p.rounds >= MAX_STEPS_IN_ROUND
}

/// Winner of a finished pair: the healthier side; a tie goes by the random byte.
pub open spec fn decide_winner(p: Pair, ha: int, hb: int, random: int) -> TamagotchiId {
    if ha > hb {
        p.tmg_a
    } else if hb > ha {
        p.tmg_b
    } else if random % 2 == 0 {
        p.tmg_a
    } else {
        p.tmg_b
    }
}

/// The pair after an exchange: slots cleared for the next exchange, one more
/// exchange counted, a fresh deadline, and the winner once it is over.
pub open spec fn pair_after(p: Pair, ha: int, hb: int, random: int, now: u64) -> Pair {
    Pair {
        move_a: None,
        move_b: None,
        rounds: (p.rounds + 1) as u8,
        game_is_over: pair_finished(p, ha, hb),
        winner: if pair_finished(p, ha, hb) { decide_winner(p, ha, hb, random) } else { p.winner },
        move_deadline: deadline_after(now),
        ..p
    }
}

/// `pl` with health `h`.
pub open spec fn with_health(pl: Player, h: int) -> Player {
    Player { health: h as u16, ..pl }
}

/// Every participant back at full health, as each round starts.
pub open spec fn healed(players: Seq<Player>) -> Seq<Player> {
    players.map_values(|pl: Player| with_health(pl, HEALTH as int))
}

/// `pl` with one more victory, saturating.
pub open spec fn credited(pl: Player) -> Player {
    Player { victories: if pl.victories < u32::MAX { (pl.victories + 1) as u32 } else { pl.victories }, ..pl }
}

/// The registry after an exchange of pair `p`: new healths for both sides and
/// one more victory for the winner if the pair is over.
pub open spec fn players_after(players: Seq<Player>, p: Pair, ha: int, hb: int, random: int) -> Seq<Player> {
    let ia = player_index(players, p.tmg_a);
    let ib = player_index(players, p.tmg_b);
    let s1 = players.update(ia, with_health(players[ia], ha));
    let s2 = s1.update(ib, with_health(s1[ib], hb));
    if pair_finished(p, ha, hb) {
        let iw = player_index(s2, decide_winner(p, ha, hb, random));
        s2.update(iw, credited(s2[iw]))
    } else {
        s2
    }
}

/// Whether every pair of the round is over.
pub open spec fn all_over(pairs: Seq<Pair>) -> bool {
    forall|i: int| 0 <= i < pairs.len() ==> (#[trigger] pairs[i]).game_is_over
}

/// The entrant that pair `p` sends to the next round.
pub open spec fn winner_entry(p: Pair) -> (TamagotchiId, ActorId) {
    (p.winner, if p.winner == p.tmg_a { p.owner_a } else { p.owner_b })
}

/// Entrants of the next round, one per pair, in pair order.
pub open spec fn winners_of(pairs: Seq<Pair>) -> Seq<(TamagotchiId, ActorId)> {
    pairs.map_values(|p: Pair| winner_entry(p))
}

/// The entrant a participant makes: tamagotchi and owner.
pub open spec fn entry_of(pl: Player) -> (TamagotchiId, ActorId) {
    (pl.tmg_id, pl.owner)
}

/// Entrants of the first round, in registration order.
pub open spec fn entries_of(players: Seq<Player>) -> Seq<(TamagotchiId, ActorId)> {
    players.map_values(|pl: Player| entry_of(pl))
}

impl Battle {
    /// The battle is consistent: some admin, distinct participants within
    /// capacity and with stats in bounds, every member of a pair registered,
    /// nobody in two pairs, nobody at zero health in a pair still on, and the
    /// entrants in play matching the phase: a round of `n` has `ceil(n / 2)`
    /// pairs, between rounds they are the last round's winners, and at the end
    /// a single one is left.
    pub open spec fn wf(&self) -> bool {
        &&& self.admins@.len() > 0
        &&& self.players@.len() <= MAX_PARTICIPANTS
        &&& forall|i: int, j: int| 0 <= i < self.players@.len() && 0 <= j < self.players@.len() && i != j
            ==> (#[trigger] self.players@[i]).tmg_id != (#[trigger] self.players@[j]).tmg_id
        &&& forall|k: int| 0 <= k < self.players@.len() ==> stats_in_bounds(#[trigger] self.players@[k])
        &&& forall|k: int| 0 <= k < self.pairs@.len() ==> {
            &&& registered(self.players@, (#[trigger] self.pairs@[k]).tmg_a)
            &&& registered(self.players@, self.pairs@[k].tmg_b)
            &&& (self.pairs@[k].winner == self.pairs@[k].tmg_a || self.pairs@[k].winner == self.pairs@[k].tmg_b)
            &&& (!self.pairs@[k].game_is_over ==> 1 <= self.pairs@[k].rounds <= MAX_STEPS_IN_ROUND)
        }
        &&& forall|i: int, j: int, id: TamagotchiId|
            0 <= i < self.pairs@.len() && 0 <= j < self.pairs@.len() && i != j
            && #[trigger] in_pair(self.pairs@[i], id) ==> !#[trigger] in_pair(self.pairs@[j], id)
        &&& self.state == BattleState::GameIsOn ==> self.current_players@.len() >= 2
            && self.pairs@.len() == next_round_size(self.current_players@.len())
        &&& self.state == BattleState::WaitNextRound ==> self.current_players@ == winners_of(self.pairs@)
            && self.pairs@.len() >= 2
        &&& self.state == BattleState::GameIsOver ==> self.current_players@.len() == 1
        &&& self.state == BattleState::GameIsOn ==> forall|k: int, i: int|
            0 <= k < self.pairs@.len() && 0 <= i < self.players@.len() && !self.pairs@[k].game_is_over
            && #[trigger] in_pair(self.pairs@[k], (#[trigger] self.players@[i]).tmg_id) ==> self.players@[i].health > 0
    }

    pub open spec fn is_admin(&self, a: ActorId) -> bool {
        self.admins@.contains(a)
    }

    /// A fresh battle in registration, with `admin` as its only admin.
    pub fn new(admin: ActorId) -> (r: Battle)
        ensures
            r.wf(),
            r.admins@ == seq![admin],
            r.players@.len() == 0,
            r.pairs@.len() == 0,
            r.current_players@.len() == 0,
            r.players_to_pairs@.len() == 0,
            r.state == BattleState::Registration,
            r.current_winner == ActorId::zero_spec(),
            r.completed_games == 0,
    {
        let mut admins: Vec<ActorId> = Vec::new();
        admins.push(admin);
        Battle {
            admins,
            players: Vec::new(),
            current_players: Vec::new(),
            players_to_pairs: Vec::new(),
            state: BattleState::Registration,
            current_winner: ActorId::zero(),
            pairs: Vec::new(),
            completed_games: 0,
        }
    }

    /// Whether `a` is an admin.
    pub fn check_admin(&self, a: ActorId) -> (r: bool)
        ensures
            r == self.is_admin(a),
    {
        let mut i: usize = 0;
        while i < self.admins.len()
            invariant
                i <= self.admins@.len(),
                forall|k: int| 0 <= k < i ==> self.admins@[k] != a,
            decreases self.admins@.len() - i,
        {
            if self.admins[i] == a {
                return true;
            }
            i = i + 1;
        }
        false
    }

    /// Index of the participant with tamagotchi `id`, if registered.
    pub fn find_player(&self, id: TamagotchiId) -> (r: Option<usize>)
        requires
            self.wf(),
        ensures
            r.is_some() <==> registered(self.players@, id),
            r matches Some(i) ==> i < self.players@.len() && i == player_index(self.players@, id),
    {
        let mut i: usize = 0;
        while i < self.players.len()
            invariant
                self.wf(),
                i <= self.players@.len(),
                forall|k: int| 0 <= k < i ==> (#[trigger] self.players@[k]).tmg_id != id,
            decreases self.players@.len() - i,
        {
            if self.players[i].tmg_id == id {
                proof {
                    let j = player_index(self.players@, id);
                    assert(self.players@[j].tmg_id == id);
                    assert(self.players@[i as int].tmg_id == id);
                    assert(j == i as int);
                }
                return Some(i);
            }
            i = i + 1;
        }
        None
    }

    /// Admin only: adds `new_admin` unless it is one already.
    pub fn add_admin(&mut self, caller: ActorId, new_admin: ActorId) -> (r: Result<BattleEvent, BattleError>)
        requires
            old(self).wf(),
        ensures
            final(self).wf(),
            !old(self).is_admin(caller) ==> r == Err::<BattleEvent, BattleError>(BattleError::Unauthorized)
                && *final(self) == *old(self),
            old(self).is_admin(caller) ==> r == Ok::<BattleEvent, BattleError>(BattleEvent::AdminAdded)
                && final(self).admins@ == (if old(self).admins@.contains(new_admin) { old(self).admins@ }
                    else { old(self).admins@.push(new_admin) })
                && final(self).players == old(self).players
                && final(self).pairs == old(self).pairs
                && final(self).state == old(self).state
                && final(self).current_players == old(self).current_players
                && final(self).current_winner == old(self).current_winner
                && final(self).completed_games == old(self).completed_games
                && final(self).players_to_pairs == old(self).players_to_pairs,
    {
        if !self.check_admin(caller) {
            return Err(BattleError::Unauthorized);
        }
        if !self.check_admin(new_admin) {
            self.admins.push(new_admin);
        }
        Ok(BattleEvent::AdminAdded)
    }

    /// Admin only, in registration or after a finished battle: clears the
    /// registry and the rounds and opens registration.
    pub fn start_registration(&mut self, caller: ActorId) -> (r: Result<BattleEvent, BattleError>)
        requires
            old(self).wf(),
        ensures
            final(self).wf(),
            !old(self).is_admin(caller) ==> r == Err::<BattleEvent, BattleError>(BattleError::Unauthorized)
                && *final(self) == *old(self),
            old(self).is_admin(caller) && old(self).state != BattleState::Registration
                && old(self).state != BattleState::GameIsOver
                ==> r == Err::<BattleEvent, BattleError>(BattleError::InvalidPhase) && *final(self) == *old(self),
            old(self).is_admin(caller) && (old(self).state == BattleState::Registration
                || old(self).state == BattleState::GameIsOver) ==> {
                &&& r == Ok::<BattleEvent, BattleError>(BattleEvent::RegistrationStarted)
                &&& final(self).state == BattleState::Registration
                &&& final(self).admins == old(self).admins
                &&& final(self).players@.len() == 0
                &&& final(self).pairs@.len() == 0
                &&& final(self).current_players@.len() == 0
                &&& final(self).players_to_pairs@.len() == 0
                &&& final(self).completed_games == 0
                &&& final(self).current_winner == ActorId::zero_spec()
            },
    {
        if !self.check_admin(caller) {
            return Err(BattleError::Unauthorized);
        }
        if self.state != BattleState::Registration && self.state != BattleState::GameIsOver {
            return Err(BattleError::InvalidPhase);
        }
        self.players = Vec::new();
        self.current_players = Vec::new();
        self.players_to_pairs = Vec::new();
        self.pairs = Vec::new();
        self.completed_games = 0;
        self.current_winner = ActorId::zero();
        self.state = BattleState::Registration;
        Ok(BattleEvent::RegistrationStarted)
    }
}

impl Battle {
    /// Whether a registration of `tmg_id` may go ahead, checked before the
    /// identity service is asked so that nothing waits on a doomed request.
    pub fn check_registration(&self, tmg_id: TamagotchiId) -> (r: Result<(), BattleError>)
        requires
            self.wf(),
        ensures
            self.state != BattleState::Registration ==> r == Err::<(), BattleError>(BattleError::InvalidPhase),
            self.state == BattleState::Registration && !registered(self.players@, tmg_id)
                && self.players@.len() >= MAX_PARTICIPANTS
                ==> r == Err::<(), BattleError>(BattleError::CapacityExceeded),
            self.state == BattleState::Registration && (registered(self.players@, tmg_id)
                || self.players@.len() < MAX_PARTICIPANTS) ==> r == Ok::<(), BattleError>(()),
    {
        if self.state != BattleState::Registration {
            return Err(BattleError::InvalidPhase);
        }
        if self.find_player(tmg_id).is_some() {
            return Ok(());
        }
        if self.players.len() >= MAX_PARTICIPANTS {
            return Err(BattleError::CapacityExceeded);
        }
        Ok(())
    }

    /// Completes a registration of `tmg_id` with the identity service's answer
    /// (`None` when it failed or was malformed) and a random `power_seed` for
    /// the stats. A tamagotchi already registered keeps its record.
    pub fn register(&mut self, tmg_id: TamagotchiId, info: Option<TmgInfo>, power_seed: u16) -> (r: Result<BattleEvent, BattleError>)
        requires
            old(self).wf(),
        ensures
            final(self).wf(),
            r is Err ==> *final(self) == *old(self),
            old(self).state != BattleState::Registration
                ==> r == Err::<BattleEvent, BattleError>(BattleError::InvalidPhase),
            old(self).state == BattleState::Registration && info is None
                ==> r == Err::<BattleEvent, BattleError>(BattleError::IdentityUnavailable),
            old(self).state == BattleState::Registration && info is Some && registered(old(self).players@, tmg_id)
                ==> r == Ok::<BattleEvent, BattleError>(BattleEvent::Registered { tmg_id })
                    && *final(self) == *old(self),
            old(self).state == BattleState::Registration && info is Some && !registered(old(self).players@, tmg_id)
                && old(self).players@.len() >= MAX_PARTICIPANTS
                ==> r == Err::<BattleEvent, BattleError>(BattleError::CapacityExceeded),
            old(self).state == BattleState::Registration && info is Some && !registered(old(self).players@, tmg_id)
                && old(self).players@.len() < MAX_PARTICIPANTS ==> {
                let n = old(self).players@.len();
                let pl = final(self).players@[n as int];
                let inf = info->Some_0;
                &&& r == Ok::<BattleEvent, BattleError>(BattleEvent::Registered { tmg_id })
                &&& final(self).players@.len() == n + 1
                &&& final(self).players@.subrange(0, n as int) == old(self).players@
                &&& pl.tmg_id == tmg_id
                &&& pl.owner == inf.owner
                &&& pl.name == inf.name
                &&& pl.date_of_birth == inf.date_of_birth
                &&& pl.health == HEALTH
                &&& pl.power as int == MIN_RANGE as int + (power_seed as int) % ((MAX_RANGE - MIN_RANGE) as int)
                &&& pl.defence == MAX_POWER - pl.power
                &&& pl.color@ == color_spec(n as int)
                &&& pl.victories == 0
                &&& final(self).admins == old(self).admins
                &&& final(self).state == old(self).state
                &&& final(self).pairs == old(self).pairs
                &&& final(self).current_players == old(self).current_players
                &&& final(self).completed_games == old(self).completed_games
                &&& final(self).current_winner == old(self).current_winner
            },
    {
        if self.state != BattleState::Registration {
            return Err(BattleError::InvalidPhase);
        }
        let info = match info {
            Some(info) => info,
            None => {
                return Err(BattleError::IdentityUnavailable);
            },
        };
        if self.find_player(tmg_id).is_some() {
            return Ok(BattleEvent::Registered { tmg_id });
        }
        if self.players.len() >= MAX_PARTICIPANTS {
            return Err(BattleError::CapacityExceeded);
        }
        let power = power_from_seed(power_seed);
        let color = color_for_index(self.players.len());
        let player = Player {
            owner: info.owner,
            name: info.name,
            date_of_birth: info.date_of_birth,
            tmg_id,
            defence: MAX_POWER - power,
            power,
            health: HEALTH,
            color,
            victories: 0,
        };
        let ghost before = self.players@;
        self.players.push(player);
        proof {
            assert(self.players@.subrange(0, before.len() as int) =~= before);
            assert forall|k: int| 0 <= k < self.pairs@.len() implies registered(self.players@, (#[trigger] self.pairs@[k]).tmg_a)
                && registered(self.players@, self.pairs@[k].tmg_b) by {
                let ia = choose|i: int| 0 <= i < before.len() && (#[trigger] before[i]).tmg_id == self.pairs@[k].tmg_a;
                let ib = choose|i: int| 0 <= i < before.len() && (#[trigger] before[i]).tmg_id == self.pairs@[k].tmg_b;
                assert(self.players@[ia] == before[ia]);
                assert(self.players@[ib] == before[ib]);
            }
        }
        Ok(BattleEvent::Registered { tmg_id })
    }
}

impl Battle {
    /// Shuffles `entrants` by `seeds`, pairs them with a fresh deadline and
    /// starts the round. Every participant starts the round at full health:
    /// combat only lowers health, so without this a winner of a double
    /// knock-out (both sides at zero, decided by the random byte) would enter
    /// its next pair already eliminated, and an exchange of two defences would
    /// end that pair at once.
    fn open_round(&mut self, entrants: Vec<(TamagotchiId, ActorId)>, seeds: &Vec<u8>, now: u64)
        requires
            old(self).wf(),
            forall|k: int| 0 <= k < entrants@.len() ==> registered(old(self).players@, #[trigger] entrants@[k].0),
            ids_of(entrants@).no_duplicates(),
            entrants@.len() >= 2,
        ensures
            final(self).wf(),
            final(self).state == BattleState::GameIsOn,
            same_members(entrants@, final(self).current_players@),
            final(self).current_players@ == shuffled(entrants@, seeds@, entrants@.len()),
            ids_of(final(self).current_players@).no_duplicates(),
            final(self).pairs@ == pairs_spec(final(self).current_players@, deadline_after(now)),
            final(self).players_to_pairs@ == old(self).players_to_pairs@ + pair_log(final(self).pairs@),
            final(self).admins == old(self).admins,
            final(self).players@ == healed(old(self).players@),
            final(self).completed_games == old(self).completed_games,
            final(self).current_winner == old(self).current_winner,
    {
        let ghost pre = *self;
        let mut i: usize = 0;
        while i < self.players.len()
            invariant
                self.admins == pre.admins,
                self.pairs == pre.pairs,
                self.state == pre.state,
                self.completed_games == pre.completed_games,
                self.current_winner == pre.current_winner,
                self.players_to_pairs == pre.players_to_pairs,
                self.players@.len() == pre.players@.len(),
                i <= self.players@.len(),
                forall|k: int| 0 <= k < i ==> #[trigger] self.players@[k] == with_health(pre.players@[k], HEALTH as int),
                forall|k: int| i <= k < self.players@.len() ==> #[trigger] self.players@[k] == pre.players@[k],
            decreases self.players@.len() - i,
        {
            self.players[i].health = HEALTH;
            i = i + 1;
        }
        assert(self.players@ =~= healed(pre.players@));
        proof {
            assert forall|id: TamagotchiId| registered(pre.players@, id) implies registered(self.players@, id) by {
                let j = choose|j: int| 0 <= j < pre.players@.len() && (#[trigger] pre.players@[j]).tmg_id == id;
                assert(self.players@[j].tmg_id == id);
            }
            assert forall|a: int, b: int| 0 <= a < self.players@.len() && 0 <= b < self.players@.len() && a != b
                implies (#[trigger] self.players@[a]).tmg_id != (#[trigger] self.players@[b]).tmg_id by {
                assert(pre.players@[a].tmg_id != pre.players@[b].tmg_id);
            }
            assert forall|k: int| 0 <= k < self.players@.len() implies stats_in_bounds(#[trigger] self.players@[k]) by {
                assert(stats_in_bounds(pre.players@[k]));
            }
        }
        let mut order = entrants;
        let ghost orig = order@;
        shuffle(&mut order, seeds);
        let deadline: u64 = if now <= u64::MAX - TIME_FOR_MOVE { now + TIME_FOR_MOVE } else { u64::MAX };
        let pairs = make_pairs(&order, deadline);
        proof {
            let players = self.players@;
            assert forall|k: int| 0 <= k < entrants@.len() implies registered(players, #[trigger] entrants@[k].0) by {
                assert(registered(pre.players@, entrants@[k].0));
            }
            assert forall|k: int| 0 <= k < order@.len() implies registered(players, #[trigger] order@[k].0) by {
                assert(orig.contains(order@[k]));
                let m = choose|m: int| 0 <= m < orig.len() && orig[m] == order@[k];
                assert(registered(players, orig[m].0));
            }
            lemma_pairs_members(order@, deadline, |id: TamagotchiId| registered(players, id));
            let perm = choose|perm: Seq<int>| permutes(orig, order@, perm);
            lemma_permuted_ids_distinct(orig, order@, perm);
            lemma_pairing_shape(order@, deadline);
        }
        let mut log = log_of(&pairs);
        self.players_to_pairs.append(&mut log);
        self.pairs = pairs;
        self.current_players = order;
        self.state = BattleState::GameIsOn;
    }

    /// Admin only, in registration with two participants or more: pairs the
    /// participants for the first round and starts the battle, everyone at
    /// full health (see `open_round`).
    pub fn start_battle(&mut self, caller: ActorId, seeds: &Vec<u8>, now: u64) -> (r: Result<BattleEvent, BattleError>)
        requires
            old(self).wf(),
        ensures
            final(self).wf(),
            r is Err ==> *final(self) == *old(self),
            !old(self).is_admin(caller) ==> r == Err::<BattleEvent, BattleError>(BattleError::Unauthorized),
            old(self).is_admin(caller) && old(self).state != BattleState::Registration
                ==> r == Err::<BattleEvent, BattleError>(BattleError::InvalidPhase),
            old(self).is_admin(caller) && old(self).state == BattleState::Registration && old(self).players@.len() < 2
                ==> r == Err::<BattleEvent, BattleError>(BattleError::NotEnoughPlayers),
            old(self).is_admin(caller) && old(self).state == BattleState::Registration && old(self).players@.len() >= 2
                ==> {
                &&& r == Ok::<BattleEvent, BattleError>(BattleEvent::BattleStarted)
                &&& final(self).state == BattleState::GameIsOn
                &&& same_members(entries_of(old(self).players@), final(self).current_players@)
                &&& final(self).current_players@ == shuffled(entries_of(old(self).players@), seeds@, old(self).players@.len())
                &&& ids_of(final(self).current_players@).no_duplicates()
                &&& final(self).pairs@ == pairs_spec(final(self).current_players@, deadline_after(now))
                &&& final(self).players_to_pairs@ == old(self).players_to_pairs@ + pair_log(final(self).pairs@)
                &&& final(self).admins == old(self).admins
                &&& final(self).players@ == healed(old(self).players@)
                &&& final(self).completed_games == old(self).completed_games
            },
    {
        if !self.check_admin(caller) {
            return Err(BattleError::Unauthorized);
        }
        if self.state != BattleState::Registration {
            return Err(BattleError::InvalidPhase);
        }
        if self.players.len() < 2 {
            return Err(BattleError::NotEnoughPlayers);
        }
        let mut entrants: Vec<(TamagotchiId, ActorId)> = Vec::new();
        let mut i: usize = 0;
        while i < self.players.len()
            invariant
                i <= self.players@.len(),
                entrants@ == entries_of(self.players@).subrange(0, i as int),
            decreases self.players@.len() - i,
        {
            entrants.push((self.players[i].tmg_id, self.players[i].owner));
            i = i + 1;
            assert(entrants@ =~= entries_of(self.players@).subrange(0, i as int));
        }
        assert(entrants@ =~= entries_of(self.players@));
        assert forall|k: int| 0 <= k < entrants@.len() implies registered(self.players@, #[trigger] entrants@[k].0) by {
            assert(self.players@[k].tmg_id == entrants@[k].0);
        }
        assert forall|p: int, q: int| 0 <= p < ids_of(entrants@).len() && 0 <= q < ids_of(entrants@).len() && p != q
            implies ids_of(entrants@)[p] != ids_of(entrants@)[q] by {
            assert(self.players@[p].tmg_id != self.players@[q].tmg_id);
        }
        self.open_round(entrants, seeds, now);
        Ok(BattleEvent::BattleStarted)
    }

    /// The winner of each pair of the round, with its owner, in pair order.
    fn collect_winners(&self) -> (r: Vec<(TamagotchiId, ActorId)>)
        ensures
            r@ == winners_of(self.pairs@),
    {
        let mut entrants: Vec<(TamagotchiId, ActorId)> = Vec::new();
        let mut i: usize = 0;
        while i < self.pairs.len()
            invariant
                i <= self.pairs@.len(),
                entrants@ == winners_of(self.pairs@).subrange(0, i as int),
            decreases self.pairs@.len() - i,
        {
            let p = self.pairs[i];
            let owner = if p.winner == p.tmg_a { p.owner_a } else { p.owner_b };
            entrants.push((p.winner, owner));
            i = i + 1;
            assert(entrants@ =~= winners_of(self.pairs@).subrange(0, i as int));
        }
        assert(entrants@ =~= winners_of(self.pairs@));
        entrants
    }

    /// In the pause between rounds: the winners of the last round's pairs,
    /// byes included, are paired anew and the next round starts with everyone
    /// back at full health (see `open_round`), so that health spent in one
    /// round does not decide the next.
    pub fn start_new_round(&mut self, seeds: &Vec<u8>, now: u64) -> (r: Result<BattleEvent, BattleError>)
        requires
            old(self).wf(),
        ensures
            final(self).wf(),
            old(self).state != BattleState::WaitNextRound
                ==> r == Err::<BattleEvent, BattleError>(BattleError::InvalidPhase) && *final(self) == *old(self),
            old(self).state == BattleState::WaitNextRound ==> {
                &&& r == Ok::<BattleEvent, BattleError>(BattleEvent::NewRound)
                &&& final(self).state == BattleState::GameIsOn
                &&& same_members(winners_of(old(self).pairs@), final(self).current_players@)
                &&& final(self).current_players@ == shuffled(winners_of(old(self).pairs@), seeds@, old(self).pairs@.len())
                &&& ids_of(final(self).current_players@).no_duplicates()
                &&& final(self).pairs@ == pairs_spec(final(self).current_players@, deadline_after(now))
                &&& final(self).players_to_pairs@ == old(self).players_to_pairs@ + pair_log(final(self).pairs@)
                &&& final(self).admins == old(self).admins
                &&& final(self).players@ == healed(old(self).players@)
                &&& final(self).completed_games == old(self).completed_games
            },
    {
        if self.state != BattleState::WaitNextRound {
            return Err(BattleError::InvalidPhase);
        }
        let entrants = self.collect_winners();
        assert forall|k: int| 0 <= k < entrants@.len() implies registered(self.players@, #[trigger] entrants@[k].0) by {
            assert(entrants@[k].0 == self.pairs@[k].winner);
        }
        assert forall|p: int, q: int| 0 <= p < ids_of(entrants@).len() && 0 <= q < ids_of(entrants@).len() && p != q
            implies ids_of(entrants@)[p] != ids_of(entrants@)[q] by {
            let w = self.pairs@[p].winner;
            assert(ids_of(entrants@)[p] == w);
            assert(ids_of(entrants@)[q] == self.pairs@[q].winner);
            assert(in_pair(self.pairs@[p], w));
            assert(in_pair(self.pairs@[q], self.pairs@[q].winner));
        }
        self.open_round(entrants, seeds, now);
        Ok(BattleEvent::NewRound)
    }
}

/// One more completed round, saturating.
pub open spec fn bumped(n: u8) -> u8 {
    if n < u8::MAX { (n + 1) as u8 } else { n }
}

/// Healths of the two sides of pair `p` after an exchange of `ma` and `mb`.
pub open spec fn exchange_of(players: Seq<Player>, p: Pair, ma: Move, mb: Move, random: int) -> (int, int) {
    exchange_spec(ma, mb, players[player_index(players, p.tmg_a)], players[player_index(players, p.tmg_b)], random)
}

/// `post` is `pre` after pair `pid` played an exchange of `ma` against `mb`:
/// healths, pair and victories as the combat rules say, and the round closed
/// when this was its last open pair (the battle is over when that round had a
/// single pair; its winner is then the one entrant left).
pub open spec fn resolved(pre: Battle, post: Battle, pid: int, ma: Move, mb: Move, random: int, now: u64) -> bool {
    let p = pre.pairs@[pid];
    let h = exchange_of(pre.players@, p, ma, mb, random);
    &&& post.pairs@ == pre.pairs@.update(pid, pair_after(p, h.0, h.1, random, now))
    &&& post.players@ == players_after(pre.players@, p, h.0, h.1, random)
    &&& post.admins == pre.admins
    &&& post.players_to_pairs == pre.players_to_pairs
    &&& if all_over(post.pairs@) {
        &&& post.current_players@ == winners_of(post.pairs@)
        &&& post.completed_games == bumped(pre.completed_games)
        &&& if post.pairs@.len() == 1 {
            post.state == BattleState::GameIsOver && post.current_winner == post.pairs@[0].winner
        } else {
            post.state == BattleState::WaitNextRound && post.current_winner == pre.current_winner
        }
    } else {
        &&& post.current_players == pre.current_players
        &&& post.state == pre.state
        &&& post.completed_games == pre.completed_games
        &&& post.current_winner == pre.current_winner
    }
}

/// The pair with `caller`'s move recorded in the first free slot that is theirs.
pub open spec fn with_move(p: Pair, caller: ActorId, m: Move) -> Pair {
    if caller == p.owner_a && p.move_a is None {
        Pair { move_a: Some(m), ..p }
    } else {
        Pair { move_b: Some(m), ..p }
    }
}

/// Whether `caller` owns a side of `p` that has not moved yet.
pub open spec fn has_free_slot(p: Pair, caller: ActorId) -> bool {
    (caller == p.owner_a && p.move_a is None) || (caller == p.owner_b && p.move_b is None)
}

/// The report of an exchange that left healths `h`.
pub open spec fn result_event(pid: int, h: (int, int), ma: Move, mb: Move) -> BattleEvent {
    BattleEvent::RoundResult { pair_id: pid as u8, health_a: h.0 as u16, health_b: h.1 as u16, move_a: ma, move_b: mb }
}

/// An exchange resolves a pair once: both slots are empty again, one more
/// exchange is counted and a fresh deadline set; a pair it ends stays ended
/// with one of its two members as winner.
pub proof fn lemma_resolved_once(pre: Battle, post: Battle, pid: int, ma: Move, mb: Move, random: int, now: u64)
    requires
        pre.wf(),
        0 <= pid < pre.pairs@.len(),
        !pre.pairs@[pid].game_is_over,
        resolved(pre, post, pid, ma, mb, random, now),
    ensures
        post.pairs@[pid].move_a is None,
        post.pairs@[pid].move_b is None,
        post.pairs@[pid].rounds == pre.pairs@[pid].rounds + 1,
        post.pairs@[pid].move_deadline == deadline_after(now),
        post.pairs@[pid].game_is_over ==> post.pairs@[pid].winner == pre.pairs@[pid].tmg_a
            || post.pairs@[pid].winner == pre.pairs@[pid].tmg_b,
        forall|k: int| 0 <= k < pre.pairs@.len() && k != pid ==> post.pairs@[k] == pre.pairs@[k],
{
    assert(pre.pairs@[pid].rounds <= MAX_STEPS_IN_ROUND);
}

/// Each round halves the field: when an exchange closes the round, the
/// entrants left are one per pair, `ceil(n / 2)` of the round's `n`, and the
/// battle is over exactly when a single one is left. With
/// `lemma_halving_reaches_one` and `lemma_rounds_is_ceil_log2` a battle of
/// `n >= 2` thus ends after `ceil(log2(n))` rounds with one winner.
pub proof fn lemma_round_step(pre: Battle, post: Battle, pid: int, ma: Move, mb: Move, random: int, now: u64)
    requires
        pre.wf(),
        post.wf(),
        pre.state == BattleState::GameIsOn,
        0 <= pid < pre.pairs@.len(),
        resolved(pre, post, pid, ma, mb, random, now),
        post.state != BattleState::GameIsOn,
    ensures
        post.current_players@.len() == next_round_size(pre.current_players@.len()),
        post.state == BattleState::GameIsOver <==> post.current_players@.len() == 1,
        post.state == BattleState::GameIsOver ==> post.current_players@[0].0 == post.current_winner,
        post.state == BattleState::WaitNextRound ==> post.current_players@.len() >= 2,
{
    if post.state == BattleState::GameIsOver {
        assert(post.current_players@[0] == winner_entry(post.pairs@[0]));
    }
}

/// A deadline that passes with no move on either side: both defend, nobody
/// is hurt, and the pair ends only when its exchange cap is reached; otherwise
/// it goes on to its next exchange with empty slots and a fresh deadline.
pub proof fn lemma_idle_deadline(pre: Battle, post: Battle, pid: int, random: int, now: u64)
    requires
        pre.wf(),
        pre.state == BattleState::GameIsOn,
        0 <= pid < pre.pairs@.len(),
        !pre.pairs@[pid].game_is_over,
        resolved(pre, post, pid, Move::Defence, Move::Defence, random, now),
    ensures
        ({
            let p = pre.pairs@[pid];
            let ia = player_index(pre.players@, p.tmg_a);
            let ib = player_index(pre.players@, p.tmg_b);
            &&& exchange_of(pre.players@, p, Move::Defence, Move::Defence, random)
                == (pre.players@[ia].health as int, pre.players@[ib].health as int)
            &&& post.pairs@[pid].game_is_over == (p.rounds >= MAX_STEPS_IN_ROUND)
            &&& post.pairs@[pid].rounds == p.rounds + 1
            &&& post.pairs@[pid].move_a is None
            &&& post.pairs@[pid].move_b is None
            &&& post.pairs@[pid].move_deadline == deadline_after(now)
        }),
{
    let p = pre.pairs@[pid];
    let ia = player_index(pre.players@, p.tmg_a);
    let ib = player_index(pre.players@, p.tmg_b);
    assert(registered(pre.players@, p.tmg_a));
    assert(registered(pre.players@, p.tmg_b));
    assert(pre.players@[ia].tmg_id == p.tmg_a);
    assert(pre.players@[ib].tmg_id == p.tmg_b);
    assert(in_pair(pre.pairs@[pid], pre.players@[ia].tmg_id));
    assert(in_pair(pre.pairs@[pid], pre.players@[ib].tmg_id));
    assert(pre.pairs@[pid].rounds <= MAX_STEPS_IN_ROUND);
}

/// The audit-trail entries of a round's pairs: each member with its pair's
/// id, a bye's single member once.
pub open spec fn pair_log(pairs: Seq<Pair>) -> Seq<(TamagotchiId, PairId)>
    decreases pairs.len(),
{
    if pairs.len() == 0 {
        seq![]
    } else {
        let k = pairs.len() - 1;
        let p = pairs[k];
        let entries = if p.bye { seq![(p.tmg_a, k as u8)] } else { seq![(p.tmg_a, k as u8), (p.tmg_b, k as u8)] };
        pair_log(pairs.subrange(0, k)) + entries
    }
}

/// The audit-trail entries of a round's pairs, ids by position.
fn log_of(pairs: &Vec<Pair>) -> (r: Vec<(TamagotchiId, PairId)>)
    ensures
        r@ == pair_log(pairs@),
{
    let mut r: Vec<(TamagotchiId, PairId)> = Vec::new();
    let mut k: usize = 0;
    while k < pairs.len()
        invariant
            k <= pairs@.len(),
            r@ == pair_log(pairs@.subrange(0, k as int)),
        decreases pairs@.len() - k,
    {
        let p = pairs[k];
        r.push((p.tmg_a, k as PairId));
        if !p.bye {
            r.push((p.tmg_b, k as PairId));
        }
        proof {
            let sub = pairs@.subrange(0, k as int + 1);
            assert(sub.subrange(0, k as int) =~= pairs@.subrange(0, k as int));
            assert(sub[k as int] == p);
            assert(r@ =~= pair_log(sub));
        }
        k = k + 1;
    }
    assert(pairs@.subrange(0, pairs@.len() as int) =~= pairs@);
    r
}

/// Whether tamagotchi `id` plays in some pair of `pairs`.
pub open spec fn paired(pairs: Seq<Pair>, id: TamagotchiId) -> bool {
    exists|k: int| 0 <= k < pairs.len() && #[trigger] in_pair(pairs[k], id)
}

/// The first round pairs every participant exactly once: `ceil(n / 2)` pairs
/// for `n` participants, every participant in a pair, every member of a pair
/// a participant, the two sides of a real pair distinct, and nobody in two
/// pairs.
pub proof fn lemma_first_round(pre: Battle, post: Battle, now: u64)
    requires
        pre.wf(),
        post.wf(),
        same_members(entries_of(pre.players@), post.current_players@),
        ids_of(post.current_players@).no_duplicates(),
        post.pairs@ == pairs_spec(post.current_players@, deadline_after(now)),
    ensures
        post.pairs@.len() == next_round_size(pre.players@.len()),
        forall|i: int| 0 <= i < pre.players@.len() ==> paired(post.pairs@, (#[trigger] pre.players@[i]).tmg_id),
        forall|k: int, id: TamagotchiId| 0 <= k < post.pairs@.len() && #[trigger] in_pair(post.pairs@[k], id)
            ==> registered(pre.players@, id),
        forall|k: int| 0 <= k < post.pairs@.len() && !(#[trigger] post.pairs@[k]).bye
            ==> post.pairs@[k].tmg_a != post.pairs@[k].tmg_b,
        forall|i: int, j: int, id: TamagotchiId| 0 <= i < post.pairs@.len() && 0 <= j < post.pairs@.len() && i != j
            && #[trigger] in_pair(post.pairs@[i], id) ==> !#[trigger] in_pair(post.pairs@[j], id),
{
    let order = post.current_players@;
    let d = deadline_after(now);
    let entries = entries_of(pre.players@);
    lemma_pairing_shape(order, d);
    assert forall|i: int| 0 <= i < pre.players@.len() implies paired(post.pairs@, (#[trigger] pre.players@[i]).tmg_id) by {
        assert(entries[i] == entry_of(pre.players@[i]));
        assert(order.contains(entries[i]));
        let m = choose|m: int| 0 <= m < order.len() && order[m] == entries[i];
        assert(in_pair(pairs_spec(order, d)[m / 2], order[m].0));
    }
    assert forall|k: int, id: TamagotchiId| 0 <= k < post.pairs@.len() && #[trigger] in_pair(post.pairs@[k], id)
        implies registered(pre.players@, id) by {
        let m = choose|m: int| 0 <= m < order.len() && (#[trigger] order[m]).0 == id;
        assert(entries.contains(order[m]));
        let j = choose|j: int| 0 <= j < entries.len() && entries[j] == order[m];
        assert(pre.players@[j].tmg_id == id);
    }
}

impl Battle {
    /// How long after `now` the deadline check of pair `pair_id` is due:
    /// `None` when the pair needs none (no running round, unknown pair, or
    /// pair over), zero when its deadline has passed.
    pub fn check_delay(&self, pair_id: PairId, now: u64) -> (r: Option<u64>)
        ensures
            (self.state != BattleState::GameIsOn || pair_id >= self.pairs@.len()
                || self.pairs@[pair_id as int].game_is_over) ==> r is None,
            (self.state == BattleState::GameIsOn && pair_id < self.pairs@.len()
                && !self.pairs@[pair_id as int].game_is_over) ==> r == Some(
                if now < self.pairs@[pair_id as int].move_deadline {
                    (self.pairs@[pair_id as int].move_deadline - now) as u64
                } else {
                    0u64
                }),
    {
        let pid = pair_id as usize;
        if self.state != BattleState::GameIsOn || pid >= self.pairs.len() || self.pairs[pid].game_is_over {
            return None;
        }
        let deadline = self.pairs[pid].move_deadline;
        if now < deadline { Some(deadline - now) } else { Some(0) }
    }
}

impl Battle {
    /// The record of tamagotchi `id`, if registered.
    pub fn get_player(&self, id: TamagotchiId) -> (r: Option<&Player>)
        requires
            self.wf(),
        ensures
            r.is_some() <==> registered(self.players@, id),
            r matches Some(pl) ==> *pl == self.players@[player_index(self.players@, id)] && pl.tmg_id == id,
    {
        match self.find_player(id) {
            Some(i) => Some(&self.players[i]),
            None => None,
        }
    }

    /// Plays one exchange of pair `pid` and closes the round if it was the
    /// last open pair.
    fn resolve_pair(&mut self, pid: usize, ma: Move, mb: Move, random: u8, now: u64) -> (r: (u16, u16))
        requires
            old(self).wf(),
            pid < old(self).pairs@.len(),
            !old(self).pairs@[pid as int].game_is_over,
            old(self).state == BattleState::GameIsOn,
        ensures
            final(self).wf(),
            resolved(*old(self), *final(self), pid as int, ma, mb, random as int, now),
            (r.0 as int, r.1 as int) == exchange_of(old(self).players@, old(self).pairs@[pid as int], ma, mb, random as int),
    {
        let ghost pre = *self;
        let p = self.pairs[pid];
        proof {
            assert(registered(self.players@, self.pairs@[pid as int].tmg_a));
            assert(registered(self.players@, self.pairs@[pid as int].tmg_b));
        }
        let ia = match self.find_player(p.tmg_a) { Some(i) => i, None => { return (0, 0); } };
        let ib = match self.find_player(p.tmg_b) { Some(i) => i, None => { return (0, 0); } };
        let (ha, hb) = resolve_exchange(ma, mb, &self.players[ia], &self.players[ib], random);
        self.players[ia].health = ha;
        self.players[ib].health = hb;
        let finished = ha == 0 || hb == 0 || p.rounds >= MAX_STEPS_IN_ROUND;
        let mut winner = p.winner;
        proof {
            assert forall|k: int| 0 <= k < self.players@.len() implies (#[trigger] self.players@[k]).tmg_id == pre.players@[k].tmg_id by {}
            assert forall|id: TamagotchiId| registered(pre.players@, id) implies registered(self.players@, id) by {
                let j = choose|j: int| 0 <= j < pre.players@.len() && (#[trigger] pre.players@[j]).tmg_id == id;
                assert(self.players@[j].tmg_id == id);
            }
            assert forall|i: int, j: int| 0 <= i < self.players@.len() && 0 <= j < self.players@.len() && i != j
                implies (#[trigger] self.players@[i]).tmg_id != (#[trigger] self.players@[j]).tmg_id by {
                assert(pre.players@[i].tmg_id != pre.players@[j].tmg_id);
            }
            assert forall|k: int| 0 <= k < self.pairs@.len() implies registered(self.players@, (#[trigger] self.pairs@[k]).tmg_a)
                && registered(self.players@, self.pairs@[k].tmg_b) by {
                assert(registered(pre.players@, pre.pairs@[k].tmg_a));
                assert(registered(pre.players@, pre.pairs@[k].tmg_b));
            }
        }
        if finished {
            winner = if ha > hb {
                p.tmg_a
            } else if hb > ha {
                p.tmg_b
            } else if random % 2 == 0 {
                p.tmg_a
            } else {
                p.tmg_b
            };
            let iw = if winner == p.tmg_a { ia } else { ib };
            proof {
                assert(self.players@[iw as int].tmg_id == winner);
                let j = player_index(self.players@, winner);
                assert(self.players@[j].tmg_id == winner);
                assert(j == iw as int);
            }
            if self.players[iw].victories < u32::MAX {
                self.players[iw].victories = self.players[iw].victories + 1;
            }
        }
        let deadline: u64 = if now <= u64::MAX - TIME_FOR_MOVE { now + TIME_FOR_MOVE } else { u64::MAX };
        let np = Pair {
            move_a: None,
            move_b: None,
            rounds: p.rounds + 1,
            game_is_over: finished,
            winner,
            move_deadline: deadline,
            ..p
        };
        self.pairs.set(pid, np);
        proof {
            let h = exchange_of(pre.players@, p, ma, mb, random as int);
            assert(h == (ha as int, hb as int));
            assert(self.pairs@ == pre.pairs@.update(pid as int, pair_after(p, h.0, h.1, random as int, now)));
            assert(self.players@ =~= players_after(pre.players@, p, h.0, h.1, random as int));
            assert forall|k: int| 0 <= k < self.players@.len() implies (#[trigger] self.players@[k]).tmg_id == pre.players@[k].tmg_id by {}
            assert forall|id: TamagotchiId| registered(pre.players@, id) implies registered(self.players@, id) by {
                let j = choose|j: int| 0 <= j < pre.players@.len() && (#[trigger] pre.players@[j]).tmg_id == id;
                assert(self.players@[j].tmg_id == id);
            }
            assert forall|i: int, j: int| 0 <= i < self.players@.len() && 0 <= j < self.players@.len() && i != j
                implies (#[trigger] self.players@[i]).tmg_id != (#[trigger] self.players@[j]).tmg_id by {
                assert(pre.players@[i].tmg_id != pre.players@[j].tmg_id);
            }
            assert forall|k: int| 0 <= k < self.pairs@.len() implies registered(self.players@, (#[trigger] self.pairs@[k]).tmg_a)
                && registered(self.players@, self.pairs@[k].tmg_b) by {
                assert(registered(pre.players@, pre.pairs@[k].tmg_a));
                assert(registered(pre.players@, pre.pairs@[k].tmg_b));
            }
            assert forall|k: int, id: TamagotchiId| 0 <= k < self.pairs@.len()
                implies in_pair(self.pairs@[k], id) == in_pair(pre.pairs@[k], id) by {}
            assert forall|i: int, j: int, id: TamagotchiId|
                0 <= i < self.pairs@.len() && 0 <= j < self.pairs@.len() && i != j
                && #[trigger] in_pair(self.pairs@[i], id) implies !#[trigger] in_pair(self.pairs@[j], id) by {
                assert(in_pair(self.pairs@[i], id) == in_pair(pre.pairs@[i], id));
                assert(in_pair(self.pairs@[j], id) == in_pair(pre.pairs@[j], id));
                assert(in_pair(pre.pairs@[i], id));
                assert(!in_pair(pre.pairs@[j], id));
            }
            assert forall|k: int, i: int|
                0 <= k < self.pairs@.len() && 0 <= i < self.players@.len() && !self.pairs@[k].game_is_over
                && #[trigger] in_pair(self.pairs@[k], (#[trigger] self.players@[i]).tmg_id)
                implies self.players@[i].health > 0 by {
                let id = self.players@[i].tmg_id;
                assert(self.players@[ia as int].tmg_id == p.tmg_a);
                assert(self.players@[ib as int].tmg_id == p.tmg_b);
                assert(in_pair(pre.pairs@[k], id));
                if k == pid as int {
                    assert(!finished);
                    if i != ia as int && i != ib as int {
                        assert(id != p.tmg_a && id != p.tmg_b);
                    }
                } else {
                    assert(!in_pair(pre.pairs@[pid as int], id));
                    assert(i != ia as int && i != ib as int);
                    assert(self.players@[i].health == pre.players@[i].health);
                    assert(in_pair(pre.pairs@[k], pre.players@[i].tmg_id));
                }
            }
        }
        self.close_round_if_done();
        (ha, hb)
    }

    /// When every pair of the round is over, counts the round, keeps the pairs'
    /// winners as the entrants still in play, and either ends the battle (a
    /// single winner left) or waits for the next round.
    fn close_round_if_done(&mut self)
        requires
            old(self).wf(),
            old(self).state == BattleState::GameIsOn,
        ensures
            final(self).wf(),
            final(self).pairs == old(self).pairs,
            final(self).players == old(self).players,
            final(self).admins == old(self).admins,
            final(self).players_to_pairs == old(self).players_to_pairs,
            if all_over(old(self).pairs@) {
                &&& final(self).current_players@ == winners_of(old(self).pairs@)
                &&& final(self).completed_games == bumped(old(self).completed_games)
                &&& if old(self).pairs@.len() == 1 {
                    final(self).state == BattleState::GameIsOver && final(self).current_winner == old(self).pairs@[0].winner
                } else {
                    final(self).state == BattleState::WaitNextRound && final(self).current_winner == old(self).current_winner
                }
            } else {
                &&& final(self).current_players == old(self).current_players
                &&& final(self).state == old(self).state
                &&& final(self).completed_games == old(self).completed_games
                &&& final(self).current_winner == old(self).current_winner
            },
    {
        let mut i: usize = 0;
        while i < self.pairs.len()
            invariant
                *self == *old(self),
                self.wf(),
                i <= self.pairs@.len(),
                forall|k: int| 0 <= k < i ==> (#[trigger] self.pairs@[k]).game_is_over,
            decreases self.pairs@.len() - i,
        {
            if !self.pairs[i].game_is_over {
                return;
            }
            i = i + 1;
        }
        self.current_players = self.collect_winners();
        if self.completed_games < u8::MAX {
            self.completed_games = self.completed_games + 1;
        }
        if self.pairs.len() == 1 {
            self.current_winner = self.pairs[0].winner;
            self.state = BattleState::GameIsOver;
        } else {
            self.state = BattleState::WaitNextRound;
        }
    }

    /// `caller` submits move `m` in pair `pair_id`. When both sides have moved
    /// the exchange is played at once with the random byte `random`, at time
    /// `now`; without a random byte the move is refused and may be sent again.
    pub fn make_move(&mut self, caller: ActorId, pair_id: PairId, m: Move, random: Option<u8>, now: u64) -> (r: Result<BattleEvent, BattleError>)
        requires
            old(self).wf(),
        ensures
            final(self).wf(),
            r is Err ==> *final(self) == *old(self),
            old(self).state != BattleState::GameIsOn ==> r == Err::<BattleEvent, BattleError>(BattleError::InvalidPhase),
            old(self).state == BattleState::GameIsOn && pair_id >= old(self).pairs@.len()
                ==> r == Err::<BattleEvent, BattleError>(BattleError::UnknownPair),
            old(self).state == BattleState::GameIsOn && pair_id < old(self).pairs@.len() ==> {
                let p = old(self).pairs@[pair_id as int];
                let q = with_move(p, caller, m);
                &&& caller != p.owner_a && caller != p.owner_b
                    ==> r == Err::<BattleEvent, BattleError>(BattleError::NotAParticipant)
                &&& p.game_is_over && (caller == p.owner_a || caller == p.owner_b)
                    ==> r == Err::<BattleEvent, BattleError>(BattleError::InvalidPhase)
                &&& !p.game_is_over && (caller == p.owner_a || caller == p.owner_b) && !has_free_slot(p, caller)
                    ==> r == Err::<BattleEvent, BattleError>(BattleError::MoveAlreadySubmitted)
                &&& !p.game_is_over && has_free_slot(p, caller) && (q.move_a is None || q.move_b is None) ==> {
                    &&& r == Ok::<BattleEvent, BattleError>(BattleEvent::MoveMade)
                    &&& final(self).pairs@ == old(self).pairs@.update(pair_id as int, q)
                    &&& final(self).players == old(self).players
                    &&& final(self).state == old(self).state
                    &&& final(self).admins == old(self).admins
                    &&& final(self).completed_games == old(self).completed_games
                    &&& final(self).players_to_pairs == old(self).players_to_pairs
                    &&& final(self).current_players == old(self).current_players
                    &&& final(self).current_winner == old(self).current_winner
                }
                &&& !p.game_is_over && has_free_slot(p, caller) && q.move_a is Some && q.move_b is Some
                    && random is None ==> r == Err::<BattleEvent, BattleError>(BattleError::RandomnessUnavailable)
                &&& !p.game_is_over && has_free_slot(p, caller) && q.move_a is Some && q.move_b is Some
                    && random is Some ==> {
                    let ma = q.move_a->Some_0;
                    let mb = q.move_b->Some_0;
                    let rb = random->Some_0 as int;
                    &&& r == Ok::<BattleEvent, BattleError>(result_event(pair_id as int,
                        exchange_of(old(self).players@, p, ma, mb, rb), ma, mb))
                    &&& resolved(*old(self), *final(self), pair_id as int, ma, mb, rb, now)
                }
            },
    {
        if self.state != BattleState::GameIsOn {
            return Err(BattleError::InvalidPhase);
        }
        let pid = pair_id as usize;
        if pid >= self.pairs.len() {
            return Err(BattleError::UnknownPair);
        }
        let p = self.pairs[pid];
        if caller != p.owner_a && caller != p.owner_b {
            return Err(BattleError::NotAParticipant);
        }
        if p.game_is_over {
            return Err(BattleError::InvalidPhase);
        }
        let q = if caller == p.owner_a && p.move_a.is_none() {
            Pair { move_a: Some(m), ..p }
        } else if caller == p.owner_b && p.move_b.is_none() {
            Pair { move_b: Some(m), ..p }
        } else {
            return Err(BattleError::MoveAlreadySubmitted);
        };
        match (q.move_a, q.move_b) {
            (Some(ma), Some(mb)) => {
                let random = match random {
                    Some(x) => x,
                    None => {
                        return Err(BattleError::RandomnessUnavailable);
                    },
                };
                let (ha, hb) = self.resolve_pair(pid, ma, mb, random, now);
                Ok(BattleEvent::RoundResult { pair_id, health_a: ha, health_b: hb, move_a: ma, move_b: mb })
            },
            _ => {
                let ghost pre = *self;
                self.pairs.set(pid, q);
                proof {
                    assert forall|k: int| 0 <= k < self.pairs@.len() implies registered(self.players@, (#[trigger] self.pairs@[k]).tmg_a)
                        && registered(self.players@, self.pairs@[k].tmg_b) by {
                        assert(registered(pre.players@, pre.pairs@[k].tmg_a));
                    }
                    assert forall|i: int, j: int, id: TamagotchiId|
                        0 <= i < self.pairs@.len() && 0 <= j < self.pairs@.len() && i != j
                        && #[trigger] in_pair(self.pairs@[i], id) implies !#[trigger] in_pair(self.pairs@[j], id) by {
                        assert(in_pair(self.pairs@[i], id) == in_pair(pre.pairs@[i], id));
                        assert(in_pair(self.pairs@[j], id) == in_pair(pre.pairs@[j], id));
                        assert(in_pair(pre.pairs@[i], id));
                        assert(!in_pair(pre.pairs@[j], id));
                    }
                    assert forall|k: int, i: int|
                        0 <= k < self.pairs@.len() && 0 <= i < self.players@.len() && !self.pairs@[k].game_is_over
                        && #[trigger] in_pair(self.pairs@[k], (#[trigger] self.players@[i]).tmg_id)
                        implies self.players@[i].health > 0 by {
                        assert(in_pair(pre.pairs@[k], pre.players@[i].tmg_id));
                    }
                }
                Ok(BattleEvent::MoveMade)
            },
        }
    }

    /// The deferred check of pair `pair_id` at time `now`: once the deadline has
    /// passed, a side that has not moved defends and the exchange is played.
    /// Before the deadline, on a pair that is over or no longer exists (its
    /// round was replaced), or outside a running round it changes nothing; without a random byte the check fails and changes
    /// nothing.
    pub fn check_if_move_made(&mut self, pair_id: PairId, random: Option<u8>, now: u64) -> (r: Result<BattleEvent, BattleError>)
        requires
            old(self).wf(),
        ensures
            final(self).wf(),
            pair_id >= old(self).pairs@.len() ==> r == Ok::<BattleEvent, BattleError>(BattleEvent::NothingToDo)
                && *final(self) == *old(self),
            pair_id < old(self).pairs@.len() ==> {
                let p = old(self).pairs@[pair_id as int];
                let ma = if p.move_a is Some { p.move_a->Some_0 } else { Move::Defence };
                let mb = if p.move_b is Some { p.move_b->Some_0 } else { Move::Defence };
                &&& (old(self).state != BattleState::GameIsOn || p.game_is_over || now < p.move_deadline)
                    ==> r == Ok::<BattleEvent, BattleError>(BattleEvent::NothingToDo) && *final(self) == *old(self)
                &&& (old(self).state == BattleState::GameIsOn && !p.game_is_over && now >= p.move_deadline
                    && random is None) ==> r == Err::<BattleEvent, BattleError>(BattleError::RandomnessUnavailable)
                    && *final(self) == *old(self)
                &&& (old(self).state == BattleState::GameIsOn && !p.game_is_over && now >= p.move_deadline
                    && random is Some) ==> {
                    let rb = random->Some_0 as int;
                    &&& r == Ok::<BattleEvent, BattleError>(result_event(pair_id as int,
                        exchange_of(old(self).players@, p, ma, mb, rb), ma, mb))
                    &&& resolved(*old(self), *final(self), pair_id as int, ma, mb, rb, now)
                }
            },
    {
        let pid = pair_id as usize;
        if pid >= self.pairs.len() {
            return Ok(BattleEvent::NothingToDo);
        }
        let p = self.pairs[pid];
        if self.state != BattleState::GameIsOn || p.game_is_over || now < p.move_deadline {
            return Ok(BattleEvent::NothingToDo);
        }
        let ma = match p.move_a { Some(x) => x, None => Move::Defence };
        let mb = match p.move_b { Some(x) => x, None => Move::Defence };
        let random = match random {
            Some(x) => x,
            None => {
                return Err(BattleError::RandomnessUnavailable);
            },
        };
        let (ha, hb) = self.resolve_pair(pid, ma, mb, random, now);
        Ok(BattleEvent::RoundResult { pair_id, health_a: ha, health_b: hb, move_a: ma, move_b: mb })
    }
}

} // verus!
