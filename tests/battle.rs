use tamagotchi_battle::{
    attack_damage, color_for_index, value_in_range, make_pairs, power_from_seed, resolve_exchange, shuffle, ActorId, Battle,
    BattleError, BattleEvent, BattleState, Move, Player, TmgInfo, HEALTH, MAX_PARTICIPANTS, MAX_POWER,
    MAX_STEPS_IN_ROUND, TIME_FOR_MOVE,
};

fn actor(id: u64) -> ActorId {
    ActorId { w0: id, w1: 0, w2: 0, w3: 0 }
}

fn info(owner: u64, name: &str) -> Option<TmgInfo> {
    Some(TmgInfo { owner: actor(owner), name: name.to_string(), date_of_birth: 7 })
}

const ADMIN: u64 = 100;

/// Registers tamagotchi `tmg` owned by `tmg + 10` with the given power seed.
fn register(b: &mut Battle, tmg: u64, seed: u16) {
    let r = b.register(actor(tmg), info(tmg + 10, "pet"), seed);
    assert_eq!(r, Ok(BattleEvent::Registered { tmg_id: actor(tmg) }));
}

fn battle_with(ids: &[u64]) -> Battle {
    let mut b = Battle::new(actor(ADMIN));
    for id in ids {
        register(&mut b, *id, 1000);
    }
    b
}

/// Seeds under which the shuffle keeps the order: position `i` swaps with itself.
fn keep_order(n: usize) -> Vec<u8> {
    (0..n).map(|i| i as u8).collect()
}

fn player(b: &Battle, id: u64) -> Player {
    b.get_player(actor(id)).expect("registered").clone()
}

#[test]
fn registration_stores_starting_health() {
    let mut b = Battle::new(actor(ADMIN));
    let r = b.register(actor(1), info(11, "Rex"), 1234);
    assert_eq!(r, Ok(BattleEvent::Registered { tmg_id: actor(1) }));
    assert_eq!(b.players.len(), 1);
    let p = player(&b, 1);
    assert_eq!(p.tmg_id, actor(1));
    assert_eq!(p.owner, actor(11));
    assert_eq!(p.name, "Rex");
    assert_eq!(p.date_of_birth, 7);
    assert_eq!(p.health, HEALTH);
    assert_eq!(p.health, 2500);
    assert_eq!(p.power, 4234);
    assert_eq!(p.defence, MAX_POWER - 4234);
    assert_eq!(p.color, "Green");
    assert_eq!(p.victories, 0);
}

#[test]
fn registering_twice_keeps_the_record() {
    let mut b = Battle::new(actor(ADMIN));
    register(&mut b, 1, 10);
    let first = player(&b, 1);
    let r = b.register(actor(1), info(99, "other"), 3999);
    assert_eq!(r, Ok(BattleEvent::Registered { tmg_id: actor(1) }));
    assert_eq!(b.players.len(), 1);
    let again = player(&b, 1);
    assert_eq!(again.power, first.power);
    assert_eq!(again.owner, actor(11));
    assert_eq!(again.name, "pet");
}

#[test]
fn registration_colors_follow_index() {
    let b = battle_with(&[1, 2, 3, 4, 5, 6, 7]);
    let colors: Vec<String> = b.players.iter().map(|p| p.color.clone()).collect();
    assert_eq!(colors, vec!["Green", "Red", "Blue", "Purple", "Orange", "Yellow", "Green"]);
    assert_eq!(color_for_index(10), "Orange");
}

#[test]
fn registration_capacity() {
    let ids: Vec<u64> = (1..=MAX_PARTICIPANTS as u64).collect();
    let mut b = battle_with(&ids);
    assert_eq!(b.players.len(), 50);
    assert_eq!(b.check_registration(actor(999)), Err(BattleError::CapacityExceeded));
    assert_eq!(b.register(actor(999), info(1, "late"), 0), Err(BattleError::CapacityExceeded));
    assert_eq!(b.players.len(), 50);
    assert_eq!(b.check_registration(actor(3)), Ok(()));
    assert_eq!(b.register(actor(3), info(13, "pet"), 0), Ok(BattleEvent::Registered { tmg_id: actor(3) }));
}

#[test]
fn registration_identity_unavailable() {
    let mut b = Battle::new(actor(ADMIN));
    assert_eq!(b.register(actor(1), None, 0), Err(BattleError::IdentityUnavailable));
    assert!(b.players.is_empty());
}

#[test]
fn registration_outside_its_phase() {
    let mut b = battle_with(&[1, 2]);
    assert_eq!(b.start_battle(actor(ADMIN), &keep_order(2), 0), Ok(BattleEvent::BattleStarted));
    assert_eq!(b.check_registration(actor(3)), Err(BattleError::InvalidPhase));
    assert_eq!(b.register(actor(3), info(13, "pet"), 0), Err(BattleError::InvalidPhase));
    assert_eq!(b.start_registration(actor(ADMIN)), Err(BattleError::InvalidPhase));
}

#[test]
fn admin_only_operations() {
    let mut b = battle_with(&[1, 2]);
    assert_eq!(b.start_registration(actor(5)), Err(BattleError::Unauthorized));
    assert_eq!(b.add_admin(actor(5), actor(6)), Err(BattleError::Unauthorized));
    assert_eq!(b.start_battle(actor(5), &keep_order(2), 0), Err(BattleError::Unauthorized));
    assert_eq!(b.add_admin(actor(ADMIN), actor(5)), Ok(BattleEvent::AdminAdded));
    assert_eq!(b.add_admin(actor(ADMIN), actor(5)), Ok(BattleEvent::AdminAdded));
    assert_eq!(b.admins, vec![actor(ADMIN), actor(5)]);
    assert_eq!(b.start_registration(actor(5)), Ok(BattleEvent::RegistrationStarted));
    assert!(b.players.is_empty());
}

#[test]
fn start_needs_two_players() {
    let mut b = battle_with(&[1]);
    assert_eq!(b.start_battle(actor(ADMIN), &keep_order(1), 0), Err(BattleError::NotEnoughPlayers));
    assert_eq!(b.state, BattleState::Registration);
}

#[test]
fn pairing_with_odd_count_has_one_bye() {
    let entrants: Vec<(ActorId, ActorId)> = (1..=5).map(|i| (actor(i), actor(i + 10))).collect();
    let pairs = make_pairs(&entrants, 40);
    assert_eq!(pairs.len(), 3);
    assert_eq!(pairs.iter().filter(|p| p.bye).count(), 1);
    assert!(pairs[2].bye && pairs[2].game_is_over && pairs[2].winner == actor(5));
    assert_eq!((pairs[0].tmg_a, pairs[0].tmg_b), (actor(1), actor(2)));
    assert_eq!((pairs[1].tmg_a, pairs[1].tmg_b), (actor(3), actor(4)));
    assert_eq!(pairs[1].move_deadline, 40);
    let even: Vec<(ActorId, ActorId)> = (1..=4).map(|i| (actor(i), actor(i))).collect();
    let pairs = make_pairs(&even, 0);
    assert_eq!(pairs.len(), 2);
    assert!(pairs.iter().all(|p| !p.bye && !p.game_is_over));
}

#[test]
fn shuffle_keeps_the_members() {
    let mut ids: Vec<ActorId> = (1..=6).map(actor).collect();
    shuffle(&mut ids, &vec![3, 9, 200, 17, 5, 250]);
    let mut sorted: Vec<u64> = ids.iter().map(|a| a.w0).collect();
    assert_eq!(sorted, vec![6, 4, 3, 2, 1, 5]);
    sorted.sort();
    assert_eq!(sorted, vec![1, 2, 3, 4, 5, 6]);
    let mut same: Vec<ActorId> = (1..=4).map(actor).collect();
    shuffle(&mut same, &keep_order(4));
    assert_eq!(same, (1..=4).map(actor).collect::<Vec<_>>());
    let mut short: Vec<ActorId> = (1..=4).map(actor).collect();
    shuffle(&mut short, &vec![0, 0]);
    assert_eq!(short.iter().map(|a| a.w0).collect::<Vec<_>>(), vec![2, 1, 3, 4]);
}

#[test]
fn damage_formula() {
    assert_eq!(attack_damage(4000, 6000, 0), 250);
    assert_eq!(attack_damage(6000, 6000, 10), 760);
    assert_eq!(attack_damage(3000, 7000, 0), 100);
    assert_eq!(attack_damage(6999, 0, 255), 1500);
    assert_eq!(power_from_seed(0), 3000);
    assert_eq!(value_in_range(200, 0), 0);
    assert_eq!(value_in_range(200, 7), 4);
    assert_eq!(power_from_seed(4001), 3001);
}

#[test]
fn defended_exchanges_hurt_nobody() {
    let b = battle_with(&[1, 2]);
    let (a, d) = (player(&b, 1), player(&b, 2));
    assert_eq!(resolve_exchange(Move::Attack, Move::Defence, &a, &d, 77), (2500, 2500));
    assert_eq!(resolve_exchange(Move::Defence, Move::Attack, &a, &d, 77), (2500, 2500));
    assert_eq!(resolve_exchange(Move::Defence, Move::Defence, &a, &d, 77), (2500, 2500));
    assert_eq!(resolve_exchange(Move::Attack, Move::Attack, &a, &d, 0), (2250, 2250));
}

#[test]
fn end_to_end_three_participants() {
    let mut b = Battle::new(actor(ADMIN));
    register(&mut b, 1, 1000);
    register(&mut b, 2, 1000);
    register(&mut b, 3, 3000);
    assert_eq!(b.start_battle(actor(ADMIN), &keep_order(3), 0), Ok(BattleEvent::BattleStarted));
    assert_eq!(b.state, BattleState::GameIsOn);
    assert_eq!(b.pairs.len(), 2);
    assert_eq!((b.pairs[0].tmg_a, b.pairs[0].tmg_b), (actor(1), actor(2)));
    assert!(b.pairs[1].bye && b.pairs[1].winner == actor(3));

    for step in 0..MAX_STEPS_IN_ROUND {
        assert_eq!(b.make_move(actor(11), 0, Move::Attack, Some(1), 0), Ok(BattleEvent::MoveMade));
        let r = b.make_move(actor(12), 0, Move::Defence, Some(1), 0);
        assert_eq!(
            r,
            Ok(BattleEvent::RoundResult {
                pair_id: 0,
                health_a: 2500,
                health_b: 2500,
                move_a: Move::Attack,
                move_b: Move::Defence
            })
        );
        assert_eq!(b.pairs[0].rounds, step + 2);
    }
    assert!(b.pairs[0].game_is_over);
    assert_eq!(b.pairs[0].winner, actor(2));
    assert_eq!(player(&b, 2).victories, 1);
    assert_eq!(b.state, BattleState::WaitNextRound);
    assert_eq!(b.completed_games, 1);
    assert_eq!(b.current_players, vec![(actor(2), actor(12)), (actor(3), actor(13))]);

    assert_eq!(b.start_new_round(&keep_order(2), 100), Ok(BattleEvent::NewRound));
    assert_eq!(b.pairs.len(), 1);
    assert_eq!((b.pairs[0].tmg_a, b.pairs[0].tmg_b), (actor(2), actor(3)));
    assert_eq!(b.pairs[0].move_deadline, 100 + TIME_FOR_MOVE);

    let expected = [(1750, 2000), (1000, 1500), (250, 1000), (0, 500)];
    for (ha, hb) in expected {
        assert_eq!(b.make_move(actor(13), 0, Move::Attack, Some(0), 100), Ok(BattleEvent::MoveMade));
        let r = b.make_move(actor(12), 0, Move::Attack, Some(0), 100);
        assert_eq!(
            r,
            Ok(BattleEvent::RoundResult {
                pair_id: 0,
                health_a: ha,
                health_b: hb,
                move_a: Move::Attack,
                move_b: Move::Attack
            })
        );
    }
    assert_eq!(b.state, BattleState::GameIsOver);
    assert_eq!(b.current_winner, actor(3));
    assert_eq!(b.current_players, vec![(actor(3), actor(13))]);
    assert_eq!(b.players_to_pairs, vec![(actor(1), 0), (actor(2), 0), (actor(3), 1), (actor(2), 0), (actor(3), 0)]);
    assert_eq!(player(&b, 2).health, 0);
    assert_eq!(b.completed_games, 2);
    assert_eq!(b.make_move(actor(13), 0, Move::Attack, Some(0), 100), Err(BattleError::InvalidPhase));
    assert_eq!(b.start_registration(actor(ADMIN)), Ok(BattleEvent::RegistrationStarted));
}

#[test]
fn move_in_a_foreign_pair_is_refused() {
    let mut b = battle_with(&[1, 2, 3, 4]);
    b.start_battle(actor(ADMIN), &keep_order(4), 0).unwrap();
    let before = b.pairs.clone();
    assert_eq!(b.make_move(actor(13), 0, Move::Attack, Some(0), 0), Err(BattleError::NotAParticipant));
    assert_eq!(b.pairs, before);
    assert_eq!(b.make_move(actor(13), 9, Move::Attack, Some(0), 0), Err(BattleError::UnknownPair));
    assert_eq!(b.make_move(actor(13), 1, Move::Attack, Some(0), 0), Ok(BattleEvent::MoveMade));
    assert_eq!(b.make_move(actor(13), 1, Move::Defence, Some(0), 0), Err(BattleError::MoveAlreadySubmitted));
    assert_eq!(b.pairs[1].move_a, Some(Move::Attack));
}

#[test]
fn deadline_without_moves_defends_both() {
    let mut b = battle_with(&[1, 2]);
    b.start_battle(actor(ADMIN), &keep_order(2), 0).unwrap();
    assert_eq!(b.check_if_move_made(0, Some(0), TIME_FOR_MOVE - 1), Ok(BattleEvent::NothingToDo));
    assert_eq!(b.pairs[0].rounds, 1);
    let r = b.check_if_move_made(0, Some(0), TIME_FOR_MOVE);
    assert_eq!(
        r,
        Ok(BattleEvent::RoundResult {
            pair_id: 0,
            health_a: 2500,
            health_b: 2500,
            move_a: Move::Defence,
            move_b: Move::Defence
        })
    );
    assert!(!b.pairs[0].game_is_over);
    assert_eq!(b.pairs[0].rounds, 2);
    assert_eq!(b.pairs[0].move_deadline, 2 * TIME_FOR_MOVE);
    assert_eq!(b.pairs[0].move_a, None);
    assert_eq!(b.check_if_move_made(3, Some(0), 1000), Ok(BattleEvent::NothingToDo));
}

#[test]
fn missing_randomness_leaves_the_round_open() {
    let mut b = battle_with(&[1, 2]);
    b.start_battle(actor(ADMIN), &keep_order(2), 0).unwrap();
    assert_eq!(b.make_move(actor(11), 0, Move::Attack, None, 0), Ok(BattleEvent::MoveMade));
    assert_eq!(b.make_move(actor(12), 0, Move::Attack, None, 0), Err(BattleError::RandomnessUnavailable));
    assert_eq!(b.pairs[0].move_b, None);
    assert_eq!(b.check_if_move_made(0, None, 100), Err(BattleError::RandomnessUnavailable));
    assert_eq!(b.pairs[0].rounds, 1);
    assert!(b.make_move(actor(12), 0, Move::Attack, Some(0), 0).is_ok());
    assert_eq!(b.pairs[0].rounds, 2);
}

#[test]
fn deadline_defaults_the_missing_side() {
    let mut b = battle_with(&[1, 2]);
    b.start_battle(actor(ADMIN), &keep_order(2), 0).unwrap();
    b.make_move(actor(11), 0, Move::Attack, Some(0), 0).unwrap();
    let r = b.check_if_move_made(0, Some(0), 50);
    assert_eq!(
        r,
        Ok(BattleEvent::RoundResult {
            pair_id: 0,
            health_a: 2500,
            health_b: 2500,
            move_a: Move::Attack,
            move_b: Move::Defence
        })
    );
}

#[test]
fn trigger_after_the_end_is_a_no_op() {
    let mut b = battle_with(&[1, 2]);
    b.start_battle(actor(ADMIN), &keep_order(2), 0).unwrap();
    let mut now = 0;
    for _ in 0..MAX_STEPS_IN_ROUND {
        now += TIME_FOR_MOVE;
        b.check_if_move_made(0, Some(0), now).unwrap();
    }
    assert!(b.pairs[0].game_is_over);
    assert_eq!(b.pairs[0].winner, actor(1));
    assert_eq!(b.state, BattleState::GameIsOver);
    assert_eq!(b.current_winner, actor(1));
    let before = b.pairs.clone();
    assert_eq!(b.check_if_move_made(0, Some(0), now + 1000), Ok(BattleEvent::NothingToDo));
    assert_eq!(b.pairs, before);
    assert_eq!(b.completed_games, 1);
}

/// Plays a battle of `n` participants by timeouts alone; returns the rounds played.
fn rounds_for(n: u64) -> u32 {
    let ids: Vec<u64> = (1..=n).collect();
    let mut b = battle_with(&ids);
    b.start_battle(actor(ADMIN), &vec![9; n as usize], 0).unwrap();
    let mut now = 0;
    let mut rounds = 0;
    while b.state != BattleState::GameIsOver {
        if b.state == BattleState::WaitNextRound {
            b.start_new_round(&vec![3; b.pairs.len()], now).unwrap();
        }
        rounds += 1;
        assert_eq!(b.pairs.iter().filter(|p| p.bye).count() as usize, b.current_players.len() % 2);
        for _ in 0..MAX_STEPS_IN_ROUND {
            now += TIME_FOR_MOVE;
            for pid in 0..b.pairs.len() {
                b.check_if_move_made(pid as u8, Some(0), now).unwrap();
            }
        }
    }
    assert_eq!(b.completed_games as u32, rounds);
    rounds
}

#[test]
fn rounds_are_ceil_log2() {
    assert_eq!(rounds_for(2), 1);
    assert_eq!(rounds_for(3), 2);
    assert_eq!(rounds_for(5), 3);
    assert_eq!(rounds_for(8), 3);
    assert_eq!(rounds_for(9), 4);
    assert_eq!(rounds_for(50), 6);
}

#[test]
fn four_players_take_two_rounds() {
    let mut b = battle_with(&[1, 2, 3, 4]);
    b.start_battle(actor(ADMIN), &vec![5, 7, 1, 2], 0).unwrap();
    let mut now = 0;
    let mut rounds = 0;
    while b.state != BattleState::GameIsOver {
        if b.state == BattleState::WaitNextRound {
            b.start_new_round(&vec![1, 1], now).unwrap();
        }
        rounds += 1;
        for _ in 0..MAX_STEPS_IN_ROUND {
            now += TIME_FOR_MOVE;
            for pid in 0..b.pairs.len() {
                b.check_if_move_made(pid as u8, Some(1), now).unwrap();
            }
        }
    }
    assert_eq!(rounds, 2);
    assert_eq!(b.completed_games, 2);
    assert!(b.players.iter().any(|p| p.tmg_id == b.current_winner));
}

#[test]
fn next_round_starts_at_full_health() {
    let mut b = battle_with(&[1, 2, 3]);
    b.start_battle(actor(ADMIN), &keep_order(3), 0).unwrap();
    for _ in 0..MAX_STEPS_IN_ROUND {
        b.make_move(actor(11), 0, Move::Attack, Some(0), 0).unwrap();
        b.make_move(actor(12), 0, Move::Attack, Some(0), 0).unwrap();
    }
    assert!(b.pairs[0].game_is_over);
    assert_eq!(player(&b, 1).health, 2500 - 5 * 250);
    assert_eq!(b.pairs[0].winner, actor(1));
    b.start_new_round(&keep_order(2), 10).unwrap();
    assert_eq!(player(&b, 1).health, HEALTH);
    assert_eq!(player(&b, 2).health, HEALTH);
    assert_eq!(b.check_delay(0, 15), Some(15));
    assert_eq!(b.check_delay(0, 99), Some(0));
    assert_eq!(b.check_delay(1, 15), None);
}

#[test]
fn stranger_in_a_bye_is_not_a_participant() {
    let mut b = battle_with(&[1, 2, 3]);
    b.start_battle(actor(ADMIN), &keep_order(3), 0).unwrap();
    assert!(b.pairs[1].bye);
    assert_eq!(b.make_move(actor(11), 1, Move::Attack, Some(0), 0), Err(BattleError::NotAParticipant));
    assert_eq!(b.make_move(actor(13), 1, Move::Attack, Some(0), 0), Err(BattleError::InvalidPhase));
}

#[test]
fn pair_ends_after_its_fifth_exchange() {
    let mut b = battle_with(&[1, 2, 3, 4]);
    b.start_battle(actor(ADMIN), &keep_order(4), 0).unwrap();
    for exchange in 1..=MAX_STEPS_IN_ROUND {
        assert_eq!(b.pairs[0].rounds, exchange);
        assert!(!b.pairs[0].game_is_over);
        b.check_if_move_made(0, Some(0), exchange as u64 * TIME_FOR_MOVE).unwrap();
    }
    assert!(b.pairs[0].game_is_over);
    assert_eq!(b.pairs[0].rounds, MAX_STEPS_IN_ROUND + 1);
}

#[test]
fn new_battle_is_empty() {
    let b = Battle::new(actor(ADMIN));
    assert!(b.players_to_pairs.is_empty());
    assert_eq!(b.current_winner, ActorId::zero());
    assert_eq!(b.state, BattleState::Registration);
    assert!(b.check_admin(actor(ADMIN)));
    assert!(!b.check_admin(actor(1)));
}

#[test]
fn check_delay_outside_a_round() {
    let b = battle_with(&[1, 2]);
    assert_eq!(b.check_delay(0, 0), None);
}
