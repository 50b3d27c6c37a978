use vstd::prelude::*;
use crate::types::{Move, Player};

verus! {

/// Upper bound of power plus defence; defence is what power leaves of it.
pub const MAX_POWER: u16 = 10_000;
/// Power is drawn in `[MIN_RANGE, MAX_RANGE)`.
pub const MAX_RANGE: u16 = 7_000;
pub const MIN_RANGE: u16 = 3_000;
/// Health of every participant on registration.
pub const HEALTH: u16 = 2_500;
/// Damage of one hit is clamped to `[MIN_SWING, MAX_SWING]`.
pub const MIN_SWING: u16 = 100;
pub const MAX_SWING: u16 = 1_500;
/// A hit carries a quarter of the attacker's power ...
pub const POWER_DIVISOR: u16 = 4;
/// ... less an eighth of the target's defence.
pub const DEFENCE_DIVISOR: u16 = 8;
/// Palette of cosmetic colours, picked by registration index.
pub const NUM_COLORS: usize = 6;

/// Damage of one hit before clamping: power share plus the random byte, less
/// the defence share, never below zero.
pub open spec fn raw_damage(power: int, defence: int, random: int) -> int {
    let hit = power / (POWER_DIVISOR as int) + random;
    let shield = defence / (DEFENCE_DIVISOR as int);
    if hit > shield { hit - shield } else { 0 }
}

pub open spec fn clamp(x: int, lo: int, hi: int) -> int {
    if x < lo { lo } else if x > hi { hi } else { x }
}

pub open spec fn damage_spec(power: int, defence: int, random: int) -> int {
    clamp(raw_damage(power, defence, random), MIN_SWING as int, MAX_SWING as int)
}

pub open spec fn health_after(health: int, damage: int) -> int {
    if health > damage { health - damage } else { 0 }
}

/// Healths of both sides after one exchange. Only an exchange of two attacks
/// hurts: a defended attack is absorbed whole, and two defences stall.
pub open spec fn exchange_spec(
    move_a: Move,
    move_b: Move,
    a: Player,
    b: Player,
    random: int,
) -> (int, int) {
    if move_a == Move::Attack && move_b == Move::Attack {
        (
            health_after(a.health as int, damage_spec(b.power as int, a.defence as int, random)),
            health_after(b.health as int, damage_spec(a.power as int, b.defence as int, random)),
        )
    } else {
        (a.health as int, b.health as int)
    }
}

/// A defended attack hurts neither side, and two defences change nothing;
/// the outcome of every exchange is fixed by the moves, stats and random byte.
pub proof fn lemma_defence_absorbs(a: Player, b: Player, random: int)
    ensures
        exchange_spec(Move::Attack, Move::Defence, a, b, random) == (a.health as int, b.health as int),
        exchange_spec(Move::Defence, Move::Attack, a, b, random) == (a.health as int, b.health as int),
        exchange_spec(Move::Defence, Move::Defence, a, b, random) == (a.health as int, b.health as int),
{
}

/// Damage that a hit of `power` deals to a target with `defence`.
pub fn attack_damage(power: u16, defence: u16, random: u8) -> (r: u16)
    ensures
        r as int == damage_spec(power as int, defence as int, random as int),
        MIN_SWING <= r <= MAX_SWING,
{
    let hit: u32 = (power / POWER_DIVISOR) as u32 + random as u32;
    let shield: u32 = (defence / DEFENCE_DIVISOR) as u32;
    let base: u32 = if hit > shield { hit - shield } else { 0 };
    if base < MIN_SWING as u32 {
        MIN_SWING
    } else if base > MAX_SWING as u32 {
        MAX_SWING
    } else {
        base as u16
    }
}

/// Resolves one exchange between `a` and `b`; returns their new healths.
pub fn resolve_exchange(move_a: Move, move_b: Move, a: &Player, b: &Player, random: u8) -> (r: (u16, u16))
    ensures
        (r.0 as int, r.1 as int) == exchange_spec(move_a, move_b, *a, *b, random as int),
        r.0 <= a.health,
        r.1 <= b.health,
        move_a == Move::Defence ==> r.0 == a.health,
        move_b == Move::Defence ==> r.1 == b.health,
        move_a == Move::Defence || move_b == Move::Defence ==> r == (a.health, b.health),
{
    match (move_a, move_b) {
        (Move::Attack, Move::Attack) => {
            let to_a = attack_damage(b.power, a.defence, random);
            let to_b = attack_damage(a.power, b.defence, random);
            let ha = if a.health > to_a { a.health - to_a } else { 0 };
            let hb = if b.health > to_b { b.health - to_b } else { 0 };
            (ha, hb)
        },
        _ => (a.health, b.health),
    }
}

/// A random byte brought into `[0, range)`; an empty range gives zero.
pub fn value_in_range(random: u8, range: u8) -> (r: u8)
    ensures
        range == 0 ==> r == 0,
        range > 0 ==> r == random % range,
        range > 0 ==> r < range,
{
    if range == 0 {
        0
    } else {
        random % range
    }
}

/// Power drawn from a random `seed`: always in `[MIN_RANGE, MAX_RANGE)`.
pub fn power_from_seed(seed: u16) -> (r: u16)
    ensures
        r as int == MIN_RANGE as int + (seed as int) % ((MAX_RANGE - MIN_RANGE) as int),
        MIN_RANGE <= r < MAX_RANGE,
{
    MIN_RANGE + seed % (MAX_RANGE - MIN_RANGE)
}

pub open spec fn color_spec(index: int) -> Seq<char> {
    let k = index % (NUM_COLORS as int);
    if k == 0 {
        "Green"@
    } else if k == 1 {
        "Red"@
    } else if k == 2 {
        "Blue"@
    } else if k == 3 {
        "Purple"@
    } else if k == 4 {
        "Orange"@
    } else {
        "Yellow"@
    }
}

/// Cosmetic colour of the participant registered at `index`.
pub fn color_for_index(index: usize) -> (r: String)
    ensures
        r@ == color_spec(index as int),
{
    let k = index % NUM_COLORS;
    if k == 0 {
        "Green".to_owned()
    } else if k == 1 {
        "Red".to_owned()
    } else if k == 2 {
        "Blue".to_owned()
    } else if k == 3 {
        "Purple".to_owned()
    } else if k == 4 {
        "Orange".to_owned()
    } else {
        "Yellow".to_owned()
    }
}

} // verus!
