use vstd::prelude::*;

use crate::geometry::{
    clamp_spec, dist2, distance_squared, in_field, lemma_root_exists, root, root_up, scale, shift,
    shift_spec, steer, steer_spec, Pos, MAX_TICK_MS,
};
use crate::timer::{tick_spec, Timer};

verus! {

/// Player speed, in thousandths of a pixel per millisecond (350 px/s).
pub const PLAYER_SPEED: i64 = 350;
/// Speed at which chickens and movable collidables are pushed apart.
pub const CHICKEN_SPEED: i64 = 700;
/// Speed at which the pet catches up with the player.
pub const PET_FOLLOW_SPEED: i64 = 280;
/// Squared distance under which chickens shy away from each other.
pub const MINIMAL_DISTANCE: u128 = 100_000 * 100_000;
/// Squared distance under which two collidables overlap.
pub const COLLISION_DISTANCE: u128 = 70_000 * 70_000;
/// Squared distance under which the player picks up an egg.
pub const PICKUP_DISTANCE: u128 = 50_000 * 50_000;
/// Squared distance beyond which the pet starts following the player.
pub const PET_DISTANCE: u128 = 120_000 * 120_000;
/// Time between two eggs of one chicken, in milliseconds.
pub const CHICKEN_EGG_COOLDOWN: u64 = 10_000;
/// Shortest life of an egg, in milliseconds.
pub const EGG_DESPAWN_TIMER: u64 = 5_000;
/// Largest number of whole seconds added at random to an egg's life.
pub const MAX_EGG_JITTER_SECS: u64 = 5;

/// The direction keys held down during a tick.
#[derive(Clone, Copy, Debug, PartialEq, Eq, Structural)]
pub struct Input {
    pub up: bool,
    pub down: bool,
    pub left: bool,
    pub right: bool,
}

/// An entity that takes part in pairwise separation. Static ones
/// (`can_move == false`) are never displaced and block the player.
#[derive(Clone, Copy, Debug, PartialEq, Eq, Structural)]
pub struct Collidable {
    pub pos: Pos,
    pub can_move: bool,
}

/// The camera's place; `z` is its depth and is left alone when it follows.
#[derive(Clone, Copy, Debug, PartialEq, Eq, Structural)]
pub struct Camera {
    pub x: i64,
    pub y: i64,
    pub z: i64,
}

/// Movement along one axis: `d` for the key toward plus, `-d` for the key
/// toward minus, both for both.
pub open spec fn axis(plus: bool, minus: bool, d: int) -> int {
    (if plus { d } else { 0 }) - (if minus { d } else { 0 })
}

/// Where the input would take the player: each held key adds
/// `PLAYER_SPEED * dt` along its axis, so diagonals are faster.
pub open spec fn intended_spec(player: Pos, input: Input, dt: u64) -> Pos {
    let d = PLAYER_SPEED * dt;
    shift_spec(player, axis(input.right, input.left, d), axis(input.up, input.down, d))
}

/// Some static collidable lies strictly closer to `p` than the collision
/// distance.
pub open spec fn blocked_spec(p: Pos, cs: Seq<Collidable>) -> bool {
    exists|i: int|
        0 <= i < cs.len() && !cs[i].can_move && dist2(cs[i].pos, p) < COLLISION_DISTANCE
}

pub open spec fn collidables_wf(cs: Seq<Collidable>) -> bool {
    forall|i: int| 0 <= i < cs.len() ==> (#[trigger] cs[i]).pos.wf()
}

/// The player's position after a tick of input: the intended move in full,
/// or no move at all when it would end too close to a static collidable.
pub open spec fn handle_input_spec(player: Pos, input: Input, dt: u64, cs: Seq<Collidable>) -> Pos {
    let next = intended_spec(player, input, dt);
    if blocked_spec(next, cs) {
        player
    } else {
        next
    }
}

/// Moves the player by the held keys, unless the new place is blocked.
pub fn handle_input(player: Pos, input: Input, collidables: &Vec<Collidable>, dt: u64) -> (r: Pos)
    requires
        player.wf(),
        collidables_wf(collidables@),
        dt <= MAX_TICK_MS,
    ensures
        r == handle_input_spec(player, input, dt, collidables@),
        r.wf(),
{
    let d: i128 = PLAYER_SPEED as i128 * dt as i128;
    let mut mx: i128 = 0;
    let mut my: i128 = 0;
    if input.up {
        my = my + d;
    }
    if input.down {
        my = my - d;
    }
    if input.left {
        mx = mx - d;
    }
    if input.right {
        mx = mx + d;
    }
    let next = shift(player, mx, my);
    let mut allow_move = true;
    let mut i: usize = 0;
    while i < collidables.len()
        invariant
            next.wf(),
            collidables_wf(collidables@),
            i <= collidables.len(),
            allow_move <==> !(exists|j: int|
                0 <= j < i && !collidables@[j].can_move && dist2(collidables@[j].pos, next)
                    < COLLISION_DISTANCE),
        decreases collidables.len() - i,
    {
        let object = collidables[i];
        assert(object.pos.wf());
        if !object.can_move && distance_squared(object.pos, next) < COLLISION_DISTANCE {
            allow_move = false;
        }
        i = i + 1;
    }
    if allow_move {
        next
    } else {
        player
    }
}

/// The pet's position after a tick: when farther from the player than the
/// follow distance it walks `PET_FOLLOW_SPEED * dt` toward the player.
pub open spec fn pet_movement_spec(pet: Pos, player: Pos, dt: u64) -> Pos {
    if dist2(pet, player) > PET_DISTANCE {
        let v = steer_spec(player, pet, PET_FOLLOW_SPEED * dt);
        shift_spec(pet, v.0, v.1)
    } else {
        pet
    }
}

/// Moves the pet toward the player when it has fallen behind.
pub fn pet_movement(pet: Pos, player: Pos, dt: u64) -> (r: Pos)
    requires
        pet.wf(),
        player.wf(),
        dt <= MAX_TICK_MS,
    ensures
        r == pet_movement_spec(pet, player, dt),
        r.wf(),
{
    if distance_squared(pet, player) > PET_DISTANCE {
        let v = steer(player, pet, PET_FOLLOW_SPEED * dt as i64);
        shift(pet, v.0 as i128, v.1 as i128)
    } else {
        pet
    }
}

/// Puts the camera over the player, keeping its own depth.
pub fn camera_follow_player(camera: &mut Camera, player: Pos)
    ensures
        *final(camera) == (Camera { x: player.x, y: player.y, z: old(camera).z }),
{
    camera.x = player.x;
    camera.y = player.y;
}


/// A collectible egg; `id` tells eggs apart for their whole life.
#[derive(Clone, Copy, Debug, PartialEq, Eq, Structural)]
pub struct Egg {
    pub id: u64,
    pub pos: Pos,
    pub despawn: Timer,
}

/// The number of eggs picked up during the level.
#[derive(Clone, Copy, Debug, PartialEq, Eq, Structural)]
pub struct CollectedCoins(pub u64);

pub open spec fn eggs_wf(eggs: Seq<Egg>) -> bool {
    forall|i: int| 0 <= i < eggs.len() ==> (#[trigger] eggs[i]).pos.wf() && eggs[i].despawn.wf()
}

/// The player is strictly within pickup distance of `e`.
pub open spec fn picked_up(player: Pos, e: Egg) -> bool {
    dist2(player, e.pos) < PICKUP_DISTANCE
}

/// The eggs left, in their order, once the player has picked up every egg
/// within reach.
pub open spec fn eggs_kept(player: Pos, eggs: Seq<Egg>) -> Seq<Egg>
    decreases eggs.len(),
{
    if eggs.len() == 0 {
        Seq::empty()
    } else {
        let rest = eggs_kept(player, eggs.drop_last());
        if picked_up(player, eggs.last()) {
            rest
        } else {
            rest.push(eggs.last())
        }
    }
}

/// The number of eggs within the player's reach.
pub open spec fn eggs_picked(player: Pos, eggs: Seq<Egg>) -> nat {
    (eggs.len() - eggs_kept(player, eggs).len()) as nat
}

proof fn lemma_eggs_kept_len(player: Pos, eggs: Seq<Egg>)
    ensures
        eggs_kept(player, eggs).len() <= eggs.len(),
        forall|i: int| 0 <= i < eggs_kept(player, eggs).len() ==>
            eggs.contains(#[trigger] eggs_kept(player, eggs)[i])
                && !picked_up(player, eggs_kept(player, eggs)[i]),
    decreases eggs.len(),
{
    if eggs.len() > 0 {
        lemma_eggs_kept_len(player, eggs.drop_last());
        let rest = eggs_kept(player, eggs.drop_last());
        assert forall|i: int| 0 <= i < eggs_kept(player, eggs).len() implies
            eggs.contains(#[trigger] eggs_kept(player, eggs)[i])
                && !picked_up(player, eggs_kept(player, eggs)[i]) by {
            if i < rest.len() {
                let k = choose|k: int| 0 <= k < eggs.drop_last().len() && eggs.drop_last()[k] == rest[i];
                assert(eggs[k] == rest[i]);
            } else {
                assert(eggs[eggs.len() - 1] == eggs.last());
            }
        }
    }
}

/// Removes every egg within the player's reach and adds one coin for each.
pub fn player_pickups_eggs(player: Pos, eggs: &mut Vec<Egg>, coins: &mut CollectedCoins)
    requires
        player.wf(),
        eggs_wf(old(eggs)@),
        old(coins).0 + old(eggs)@.len() <= u64::MAX,
    ensures
        final(eggs)@ == eggs_kept(player, old(eggs)@),
        final(coins).0 == old(coins).0 + eggs_picked(player, old(eggs)@),
        eggs_wf(final(eggs)@),
{
    let mut kept: Vec<Egg> = Vec::new();
    let mut picked: u64 = 0;
    let mut i: usize = 0;
    proof {
        lemma_eggs_kept_len(player, eggs@);
    }
    while i < eggs.len()
        invariant
            player.wf(),
            eggs_wf(eggs@),
            i <= eggs.len(),
            kept@ == eggs_kept(player, eggs@.take(i as int)),
            picked == i - kept@.len(),
            kept@.len() <= i,
        decreases eggs.len() - i,
    {
        let egg = eggs[i];
        assert(eggs@.take(i as int + 1).drop_last() =~= eggs@.take(i as int));
        assert(eggs@.take(i as int + 1).last() == egg);
        assert(egg.pos.wf());
        if distance_squared(player, egg.pos) < PICKUP_DISTANCE {
            picked = picked + 1;
        } else {
            kept.push(egg);
        }
        i = i + 1;
    }
    assert(eggs@.take(i as int) =~= eggs@);
    proof {
        lemma_eggs_kept_len(player, eggs@);
        assert forall|j: int| 0 <= j < kept@.len() implies
            (#[trigger] kept@[j]).pos.wf() && kept@[j].despawn.wf() by {
            let k = choose|k: int| 0 <= k < eggs@.len() && eggs@[k] == kept@[j];
            assert(eggs@[k].pos.wf());
        }
    }
    *eggs = kept;
    coins.0 = coins.0 + picked;
}

/// Picking up twice in a row without anything moving: the second pickup
/// finds no egg within reach, leaves the eggs as they are and adds no coin.
/// Each egg is thus collected once, and counted once.
pub proof fn lemma_pickup_idempotent(player: Pos, eggs: Seq<Egg>)
    ensures
        eggs_kept(player, eggs_kept(player, eggs)) == eggs_kept(player, eggs),
        eggs_picked(player, eggs_kept(player, eggs)) == 0,
        forall|i: int| 0 <= i < eggs_kept(player, eggs).len() ==>
            !picked_up(player, #[trigger] eggs_kept(player, eggs)[i]),
{
    lemma_eggs_kept_len(player, eggs);
    lemma_kept_none_reachable(player, eggs_kept(player, eggs));
}

proof fn lemma_kept_none_reachable(player: Pos, eggs: Seq<Egg>)
    requires
        forall|i: int| 0 <= i < eggs.len() ==> !picked_up(player, #[trigger] eggs[i]),
    ensures
        eggs_kept(player, eggs) == eggs,
    decreases eggs.len(),
{
    if eggs.len() > 0 {
        lemma_kept_none_reachable(player, eggs.drop_last());
        assert(eggs.drop_last().push(eggs.last()) =~= eggs);
    }
}

/// The eggs left after every despawn timer has been ticked by `dt`: those
/// whose timer fired are gone, the others keep their place with their timer
/// advanced.
pub open spec fn despawn_spec(eggs: Seq<Egg>, dt: u64) -> Seq<Egg>
    decreases eggs.len(),
{
    if eggs.len() == 0 {
        Seq::empty()
    } else {
        let rest = despawn_spec(eggs.drop_last(), dt);
        let e = eggs.last();
        let (t, fired) = tick_spec(e.despawn, dt);
        if fired {
            rest
        } else {
            rest.push(Egg { despawn: t, ..e })
        }
    }
}

proof fn lemma_despawn_wf(eggs: Seq<Egg>, dt: u64)
    requires
        eggs_wf(eggs),
    ensures
        eggs_wf(despawn_spec(eggs, dt)),
        despawn_spec(eggs, dt).len() <= eggs.len(),
    decreases eggs.len(),
{
    if eggs.len() > 0 {
        assert(eggs_wf(eggs.drop_last()));
        lemma_despawn_wf(eggs.drop_last(), dt);
        assert(eggs[eggs.len() - 1] == eggs.last());
        crate::timer::lemma_tick_wf(eggs.last().despawn, dt);
        let rest = despawn_spec(eggs.drop_last(), dt);
        let r = despawn_spec(eggs, dt);
        assert forall|i: int| 0 <= i < r.len() implies (#[trigger] r[i]).pos.wf() && r[i].despawn.wf() by {
            if i < rest.len() {
                assert(r[i] == rest[i]);
            }
        }
    }
}

/// Ticks every egg's despawn timer and removes the eggs whose timer fired.
pub fn despawn_timers(eggs: &mut Vec<Egg>, dt: u64)
    requires
        eggs_wf(old(eggs)@),
    ensures
        final(eggs)@ == despawn_spec(old(eggs)@, dt),
        eggs_wf(final(eggs)@),
{
    let mut left: Vec<Egg> = Vec::new();
    let mut i: usize = 0;
    while i < eggs.len()
        invariant
            eggs_wf(eggs@),
            i <= eggs.len(),
            left@ == despawn_spec(eggs@.take(i as int), dt),
        decreases eggs.len() - i,
    {
        let mut egg = eggs[i];
        assert(eggs@.take(i as int + 1).drop_last() =~= eggs@.take(i as int));
        assert(eggs@.take(i as int + 1).last() == egg);
        assert(egg.despawn.wf());
        let fired = egg.despawn.tick(dt);
        if !fired {
            left.push(egg);
        }
        i = i + 1;
    }
    assert(eggs@.take(i as int) =~= eggs@);
    proof {
        lemma_despawn_wf(eggs@, dt);
    }
    *eggs = left;
}

/// A chicken and the timer until its next egg.
#[derive(Clone, Copy, Debug, PartialEq, Eq, Structural)]
pub struct Chicken {
    pub pos: Pos,
    pub egg_timer: Timer,
}

pub open spec fn chickens_wf(cs: Seq<Chicken>) -> bool {
    forall|i: int| 0 <= i < cs.len() ==> (#[trigger] cs[i]).pos.wf() && cs[i].egg_timer.wf()
}

/// The despawn timer of a new egg: the base life plus `jitter` seconds.
pub open spec fn egg_life(jitter: u64) -> u64 {
    (EGG_DESPAWN_TIMER + jitter * 1000) as u64
}

/// The eggs laid when the chickens' timers are ticked by `dt`: one per
/// chicken whose timer fired, in the chickens' order, at that chicken's
/// place, numbered upward from `first_id`, the `i`-th chicken's egg living
/// `egg_life(jitters[i])`.
pub open spec fn laid_spec(cs: Seq<Chicken>, dt: u64, jitters: Seq<u64>, first_id: u64) -> Seq<Egg>
    decreases cs.len(),
{
    if cs.len() == 0 {
        Seq::empty()
    } else {
        let rest = laid_spec(cs.drop_last(), dt, jitters, first_id);
        let c = cs.last();
        if tick_spec(c.egg_timer, dt).1 {
            rest.push(Egg {
                id: (first_id + rest.len()) as u64,
                pos: c.pos,
                despawn: Timer {
                    duration: egg_life(jitters[cs.len() - 1]),
                    elapsed: 0,
                    repeating: false,
                    finished: false,
                },
            })
        } else {
            rest
        }
    }
}

proof fn lemma_laid_len(cs: Seq<Chicken>, dt: u64, jitters: Seq<u64>, first_id: u64)
    ensures
        laid_spec(cs, dt, jitters, first_id).len() <= cs.len(),
    decreases cs.len(),
{
    if cs.len() > 0 {
        lemma_laid_len(cs.drop_last(), dt, jitters, first_id);
    }
}

proof fn lemma_laid_wf(cs: Seq<Chicken>, dt: u64, jitters: Seq<u64>, first_id: u64)
    requires
        chickens_wf(cs),
    ensures
        eggs_wf(laid_spec(cs, dt, jitters, first_id)),
    decreases cs.len(),
{
    if cs.len() > 0 {
        assert(chickens_wf(cs.drop_last()));
        lemma_laid_wf(cs.drop_last(), dt, jitters, first_id);
        assert(cs[cs.len() - 1] == cs.last());
        let rest = laid_spec(cs.drop_last(), dt, jitters, first_id);
        let r = laid_spec(cs, dt, jitters, first_id);
        assert forall|i: int| 0 <= i < r.len() implies (#[trigger] r[i]).pos.wf() && r[i].despawn.wf() by {
            if i < rest.len() {
                assert(r[i] == rest[i]);
            }
        }
    }
}

/// Ticks every chicken's egg timer by `dt`; each chicken whose timer fires
/// lays an egg where it stands, with `jitters[i]` extra seconds of life for
/// the `i`-th chicken. New eggs go after the existing ones and take fresh
/// ids from `next_id` upward.
pub fn chickens_lay_eggs(
    chickens: &mut Vec<Chicken>,
    eggs: &mut Vec<Egg>,
    next_id: &mut u64,
    jitters: &Vec<u64>,
    dt: u64,
)
    requires
        chickens_wf(old(chickens)@),
        eggs_wf(old(eggs)@),
        jitters@.len() == old(chickens)@.len(),
        forall|i: int| 0 <= i < jitters@.len() ==> #[trigger] jitters@[i] <= MAX_EGG_JITTER_SECS,
        *old(next_id) + old(chickens)@.len() <= u64::MAX,
    ensures
        final(chickens)@.len() == old(chickens)@.len(),
        forall|i: int| 0 <= i < old(chickens)@.len() ==> #[trigger] final(chickens)@[i] == (Chicken {
            egg_timer: tick_spec(old(chickens)@[i].egg_timer, dt).0,
            ..old(chickens)@[i]
        }),
        final(eggs)@ == old(eggs)@ + laid_spec(old(chickens)@, dt, jitters@, *old(next_id)),
        *final(next_id) == *old(next_id) + laid_spec(old(chickens)@, dt, jitters@, *old(next_id)).len(),
        chickens_wf(final(chickens)@),
        eggs_wf(final(eggs)@),
{
    let ghost cs0 = chickens@;
    let ghost eggs0 = eggs@;
    let ghost id0 = *next_id;
    let mut i: usize = 0;
    while i < chickens.len()
        invariant
            chickens@.len() == cs0.len(),
            jitters@.len() == cs0.len(),
            chickens_wf(cs0),
            forall|k: int| 0 <= k < jitters@.len() ==> #[trigger] jitters@[k] <= MAX_EGG_JITTER_SECS,
            id0 + cs0.len() <= u64::MAX,
            i <= chickens.len(),
            forall|k: int| 0 <= k < i ==> #[trigger] chickens@[k] == (Chicken {
                egg_timer: tick_spec(cs0[k].egg_timer, dt).0,
                ..cs0[k]
            }),
            forall|k: int| i <= k < cs0.len() ==> #[trigger] chickens@[k] == cs0[k],
            eggs@ == eggs0 + laid_spec(cs0.take(i as int), dt, jitters@, id0),
            *next_id == id0 + laid_spec(cs0.take(i as int), dt, jitters@, id0).len(),
        decreases cs0.len() - i,
    {
        proof {
            lemma_laid_len(cs0.take(i as int), dt, jitters@, id0);
        }
        let mut chicken = chickens[i];
        assert(cs0.take(i as int + 1).drop_last() =~= cs0.take(i as int));
        assert(cs0.take(i as int + 1).last() == cs0[i as int]);
        assert(chicken.egg_timer.wf());
        let fired = chicken.egg_timer.tick(dt);
        chickens.set(i, chicken);
        if fired {
            let jitter = jitters[i];
            let egg = Egg {
                id: *next_id,
                pos: chicken.pos,
                despawn: Timer::new(EGG_DESPAWN_TIMER + jitter * 1000, false),
            };
            eggs.push(egg);
            *next_id = *next_id + 1;
        }
        i = i + 1;
        assert(eggs@ =~= eggs0 + laid_spec(cs0.take(i as int), dt, jitters@, id0));
    }
    assert(cs0.take(i as int) =~= cs0);
    proof {
        lemma_laid_wf(cs0, dt, jitters@, id0);
        assert forall|k: int| 0 <= k < chickens@.len() implies
            (#[trigger] chickens@[k]).pos.wf() && chickens@[k].egg_timer.wf() by {
            crate::timer::lemma_tick_wf(cs0[k].egg_timer, dt);
        }
        let all = eggs@;
        let laid = laid_spec(cs0, dt, jitters@, id0);
        assert forall|k: int| 0 <= k < all.len() implies
            (#[trigger] all[k]).pos.wf() && all[k].despawn.wf() by {
            if k < eggs0.len() {
                assert(all[k] == eggs0[k]);
            } else {
                assert(all[k] == laid[k - eggs0.len()]);
            }
        }
    }
}

/// The sum of the pushes that `ps[i]` receives from the points `ps[j]`,
/// `j < n`, `j != i`, that lie strictly closer to it than `sqrt(thr)`: each
/// push has length `step` and points away from the other point.
pub open spec fn separation_spec(ps: Seq<Pos>, i: int, n: int, thr: int, step: int) -> (int, int)
    decreases n,
{
    if n <= 0 {
        (0, 0)
    } else {
        let r = separation_spec(ps, i, n - 1, thr, step);
        let j = n - 1;
        if j != i && dist2(ps[i], ps[j]) < thr {
            let v = steer_spec(ps[i], ps[j], step);
            (r.0 + v.0, r.1 + v.1)
        } else {
            r
        }
    }
}

pub open spec fn positions_wf(ps: Seq<Pos>) -> bool {
    forall|i: int| 0 <= i < ps.len() ==> (#[trigger] ps[i]).wf()
}

/// The push that `ps[i]` receives from all the other points of `ps`.
fn separation(ps: &Vec<Pos>, i: usize, thr: u128, step: i64) -> (r: (i128, i128))
    requires
        positions_wf(ps@),
        i < ps@.len(),
        0 <= step <= CHICKEN_SPEED * MAX_TICK_MS,
    ensures
        (r.0 as int, r.1 as int) == separation_spec(ps@, i as int, ps@.len() as int, thr as int, step as int),
        -(ps@.len() * step) <= r.0 <= ps@.len() * step,
        -(ps@.len() * step) <= r.1 <= ps@.len() * step,
{
    let mut sx: i128 = 0;
    let mut sy: i128 = 0;
    let mut j: usize = 0;
    let me = ps[i];
    assert(me.wf());
    while j < ps.len()
        invariant
            positions_wf(ps@),
            i < ps@.len(),
            me == ps@[i as int],
            0 <= step <= CHICKEN_SPEED * MAX_TICK_MS,
            j <= ps.len(),
            (sx as int, sy as int) == separation_spec(ps@, i as int, j as int, thr as int, step as int),
            -(j * step) <= sx <= j * step,
            -(j * step) <= sy <= j * step,
        decreases ps.len() - j,
    {
        assert((j + 1) * step == j * step + step) by (nonlinear_arith);
        assert(j * step <= 0x1_0000_0000_0000_0000 * 1_000_000_000_000) by (nonlinear_arith)
            requires j <= 0x1_0000_0000_0000_0000, 0 <= step <= 1_000_000_000_000;
        let other = ps[j];
        assert(other.wf());
        if j != i && distance_squared(me, other) < thr {
            let v = steer(me, other, step);
            sx = sx + v.0 as i128;
            sy = sy + v.1 as i128;
        }
        j = j + 1;
    }
    (sx, sy)
}

pub open spec fn collidable_positions(cs: Seq<Collidable>) -> Seq<Pos> {
    cs.map_values(|c: Collidable| c.pos)
}

/// The collidables after one separation step: each movable one is pushed
/// away, by `CHICKEN_SPEED * dt` per neighbour, from every other collidable
/// that overlapped it at the start of the step (all pushes measured on the
/// positions before the step, summed, and applied once); static ones stay.
pub open spec fn collision_spec(cs: Seq<Collidable>, dt: u64) -> Seq<Collidable> {
    Seq::new(cs.len(), |i: int| if cs[i].can_move {
        let v = separation_spec(collidable_positions(cs), i, cs.len() as int,
            COLLISION_DISTANCE as int, CHICKEN_SPEED * dt);
        Collidable { pos: shift_spec(cs[i].pos, v.0, v.1), can_move: true }
    } else {
        cs[i]
    })
}

/// Pushes overlapping collidables apart; static ones never move.
pub fn collision_system(collidables: &mut Vec<Collidable>, dt: u64)
    requires
        collidables_wf(old(collidables)@),
        dt <= MAX_TICK_MS,
    ensures
        final(collidables)@ == collision_spec(old(collidables)@, dt),
        collidables_wf(final(collidables)@),
{
    let ghost cs0 = collidables@;
    let mut ps: Vec<Pos> = Vec::new();
    let mut k: usize = 0;
    while k < collidables.len()
        invariant
            collidables@ == cs0,
            k <= cs0.len(),
            ps@ == collidable_positions(cs0).take(k as int),
        decreases cs0.len() - k,
    {
        ps.push(collidables[k].pos);
        k = k + 1;
        assert(ps@ =~= collidable_positions(cs0).take(k as int));
    }
    assert(ps@ =~= collidable_positions(cs0));
    assert(positions_wf(ps@)) by {
        assert forall|j: int| 0 <= j < ps@.len() implies (#[trigger] ps@[j]).wf() by {
            assert(cs0[j].pos.wf());
        }
    }
    let step: i64 = CHICKEN_SPEED * dt as i64;
    let mut i: usize = 0;
    while i < collidables.len()
        invariant
            collidables@.len() == cs0.len(),
            collidables_wf(cs0),
            ps@ == collidable_positions(cs0),
            positions_wf(ps@),
            step == CHICKEN_SPEED * dt,
            dt <= MAX_TICK_MS,
            i <= cs0.len(),
            forall|j: int| 0 <= j < i ==> #[trigger] collidables@[j] == collision_spec(cs0, dt)[j],
            forall|j: int| i <= j < cs0.len() ==> #[trigger] collidables@[j] == cs0[j],
        decreases cs0.len() - i,
    {
        let c = collidables[i];
        if c.can_move {
            let v = separation(&ps, i, COLLISION_DISTANCE, step);
            assert(ps@.len() * step <= 0x1_0000_0000_0000_0000 * 700_000_000_000) by (nonlinear_arith)
                requires ps@.len() <= 0x1_0000_0000_0000_0000, 0 <= step <= 700_000_000_000;
            assert(c.pos.wf());
            let moved = Collidable { pos: shift(c.pos, v.0, v.1), can_move: true };
            collidables.set(i, moved);
        }
        i = i + 1;
    }
    assert(collidables@ =~= collision_spec(cs0, dt));
}

/// The push a chicken at `c` gets from an object at `o`: `step` away from
/// it when closer than the minimal distance, none otherwise.
pub open spec fn away_spec(c: Pos, o: Pos, step: int) -> (int, int) {
    if dist2(c, o) < MINIMAL_DISTANCE {
        steer_spec(c, o, step)
    } else {
        (0, 0)
    }
}

/// The push a chicken at `c` gets from an object at `o`.
fn move_away_from_object(c: Pos, o: Pos, step: i64) -> (r: (i64, i64))
    requires
        c.wf(),
        o.wf(),
        0 <= step <= CHICKEN_SPEED * MAX_TICK_MS,
    ensures
        (r.0 as int, r.1 as int) == away_spec(c, o, step as int),
        -step <= r.0 <= step,
        -step <= r.1 <= step,
{
    if distance_squared(c, o) < MINIMAL_DISTANCE {
        steer(c, o, step)
    } else {
        (0, 0)
    }
}

pub open spec fn chicken_positions(cs: Seq<Chicken>) -> Seq<Pos> {
    cs.map_values(|c: Chicken| c.pos)
}

/// The chickens after one steering step, all measured on the positions
/// before the step: each chicken is pushed away, by `CHICKEN_SPEED * dt`
/// each, from every other chicken, from the player and from the pet that is
/// closer than the minimal distance, the pushes summed and applied once.
pub open spec fn chicken_movement_spec(cs: Seq<Chicken>, player: Pos, pet: Pos, dt: u64) -> Seq<Chicken> {
    let step = CHICKEN_SPEED * dt;
    Seq::new(cs.len(), |i: int| {
        let v = separation_spec(chicken_positions(cs), i, cs.len() as int, MINIMAL_DISTANCE as int, step);
        let a = away_spec(cs[i].pos, player, step);
        let b = away_spec(cs[i].pos, pet, step);
        Chicken { pos: shift_spec(cs[i].pos, v.0 + a.0 + b.0, v.1 + a.1 + b.1), ..cs[i] }
    })
}

/// Steers the chickens away from each other, from the player and from the
/// pet.
pub fn chicken_movement(chickens: &mut Vec<Chicken>, player: Pos, pet: Pos, dt: u64)
    requires
        chickens_wf(old(chickens)@),
        player.wf(),
        pet.wf(),
        dt <= MAX_TICK_MS,
    ensures
        final(chickens)@ == chicken_movement_spec(old(chickens)@, player, pet, dt),
        chickens_wf(final(chickens)@),
{
    let ghost cs0 = chickens@;
    let mut ps: Vec<Pos> = Vec::new();
    let mut k: usize = 0;
    while k < chickens.len()
        invariant
            chickens@ == cs0,
            k <= cs0.len(),
            ps@ == chicken_positions(cs0).take(k as int),
        decreases cs0.len() - k,
    {
        ps.push(chickens[k].pos);
        k = k + 1;
        assert(ps@ =~= chicken_positions(cs0).take(k as int));
    }
    assert(ps@ =~= chicken_positions(cs0));
    assert(positions_wf(ps@)) by {
        assert forall|j: int| 0 <= j < ps@.len() implies (#[trigger] ps@[j]).wf() by {
            assert(cs0[j].pos.wf());
        }
    }
    let step: i64 = CHICKEN_SPEED * dt as i64;
    let mut i: usize = 0;
    while i < chickens.len()
        invariant
            chickens@.len() == cs0.len(),
            chickens_wf(cs0),
            player.wf(),
            pet.wf(),
            ps@ == chicken_positions(cs0),
            positions_wf(ps@),
            step == CHICKEN_SPEED * dt,
            dt <= MAX_TICK_MS,
            i <= cs0.len(),
            forall|j: int| 0 <= j < i ==> #[trigger] chickens@[j] == chicken_movement_spec(cs0, player, pet, dt)[j],
            forall|j: int| i <= j < cs0.len() ==> #[trigger] chickens@[j] == cs0[j],
        decreases cs0.len() - i,
    {
        let c = chickens[i];
        assert(c.pos.wf());
        let v = separation(&ps, i, MINIMAL_DISTANCE, step);
        let a = move_away_from_object(c.pos, player, step);
        let b = move_away_from_object(c.pos, pet, step);
        assert(ps@.len() * step <= 0xFFFF_FFFF_FFFF_FFFF * 700_000_000_000) by (nonlinear_arith)
            requires ps@.len() <= 0xFFFF_FFFF_FFFF_FFFF, 0 <= step <= 700_000_000_000;
        let moved = Chicken {
            pos: shift(c.pos, v.0 + a.0 as i128 + b.0 as i128, v.1 + a.1 as i128 + b.1 as i128),
            ..c
        };
        chickens.set(i, moved);
        i = i + 1;
    }
    assert(chickens@ =~= chicken_movement_spec(cs0, player, pet, dt));
    assert forall|j: int| 0 <= j < chickens@.len() implies
        (#[trigger] chickens@[j]).pos.wf() && chickens@[j].egg_timer.wf() by {
        assert(cs0[j].egg_timer.wf());
    }
}

/// A separation step never moves a static collidable: any two collidables
/// that are both static keep their places.
pub proof fn lemma_static_collidables_stay(cs: Seq<Collidable>, dt: u64, i: int, j: int)
    requires
        0 <= i < cs.len(),
        0 <= j < cs.len(),
        !cs[i].can_move,
        !cs[j].can_move,
    ensures
        collision_spec(cs, dt)[i] == cs[i],
        collision_spec(cs, dt)[j] == cs[j],
{
}

/// When the place the input leads to is too close to a static collidable,
/// the player does not move at all.
pub proof fn lemma_blocked_move_rejected(player: Pos, input: Input, dt: u64, cs: Seq<Collidable>)
    requires
        blocked_spec(intended_spec(player, input, dt), cs),
    ensures
        handle_input_spec(player, input, dt, cs) == player,
{
}

/// One component of a step toward a target: it points the same way as `d`,
/// and its length `q` is `|d| * step / len` rounded down.
proof fn lemma_scale_toward(d: int, step: int, len: int)
    requires
        0 < len,
        0 <= step,
        -len <= d <= len,
    ensures
        ({
            let v = scale(d, step, len);
            let a = if d >= 0 { d } else { -d };
            let q = if d >= 0 { v } else { -v };
            &&& q >= 0
            &&& q * len <= a * step
            &&& a * step < (q + 1) * len
        }),
{
    let a = if d >= 0 { d } else { -d };
    let q = (a * step) / len;
    let r = (a * step) % len;
    assert(a * step >= 0) by (nonlinear_arith) requires a >= 0, step >= 0;
    vstd::arithmetic::div_mod::lemma_fundamental_div_mod(a * step, len);
    assert(0 <= r < len);
    assert(q >= 0) by (nonlinear_arith)
        requires a * step == len * q + r, r < len, a * step >= 0, len > 0;
    assert(q * len <= a * step && a * step < (q + 1) * len) by (nonlinear_arith)
        requires a * step == len * q + r, 0 <= r < len;
}

/// A stride shorter than twice the distance moves one coordinate of the gap
/// `d` toward zero without passing beyond `-d`: the gap does not grow, and
/// it shrinks once the component moved is not zero.
proof fn lemma_component_shrinks(d: int, step: int, len: int)
    requires
        0 < len,
        0 <= step < 2 * len,
        -len <= d <= len,
    ensures
        (d - scale(d, step, len)) * (d - scale(d, step, len)) <= d * d,
        scale(d, step, len) != 0 ==> (d - scale(d, step, len)) * (d - scale(d, step, len)) < d * d,
        (d >= 0 && d * step >= len) ==> scale(d, step, len) != 0,
        (d < 0 && (-d) * step >= len) ==> scale(d, step, len) != 0,
{
    lemma_scale_toward(d, step, len);
    let v = scale(d, step, len);
    let a = if d >= 0 { d } else { -d };
    let q = if d >= 0 { v } else { -v };
    assert(a * step <= a * (2 * len)) by (nonlinear_arith) requires a >= 0, step < 2 * len;
    if a == 0 {
        assert(a * step == 0) by (nonlinear_arith) requires a == 0;
        assert(q * len <= 0);
        assert(q == 0) by (nonlinear_arith) requires q * len <= 0, q >= 0, len > 0;
    } else {
        assert(a * step < a * (2 * len)) by (nonlinear_arith) requires a > 0, step < 2 * len;
        assert(q < 2 * a) by (nonlinear_arith)
            requires q * len <= a * step, a * step < a * (2 * len), len > 0;
    }
    assert((d - v) * (d - v) == (a - q) * (a - q)) by (nonlinear_arith)
        requires (d >= 0 && a == d && q == v) || (d < 0 && a == -d && q == -v);
    assert(a * a == d * d) by (nonlinear_arith) requires a == d || a == -d;
    assert((a - q) * (a - q) <= a * a) by (nonlinear_arith) requires 0 <= q <= 2 * a;
    assert((d - v) * (d - v) <= d * d);
    if v != 0 {
        assert(q >= 1);
        assert((a - q) * (a - q) < a * a) by (nonlinear_arith) requires 1 <= q < 2 * a;
        assert((d - v) * (d - v) < d * d);
    }
    if a * step >= len {
        assert(q >= 1) by (nonlinear_arith)
            requires a * step < (q + 1) * len, a * step >= len, len > 0, q >= 0;
    }
}

/// Bringing a point back inside the field never takes it farther from a
/// point of the field.
proof fn lemma_clamp_nearer(x: int, p: int)
    requires
        in_field(p),
    ensures
        (clamp_spec(x) - p) * (clamp_spec(x) - p) <= (x - p) * (x - p),
{
    let c = clamp_spec(x);
    assert((c - p) * (c - p) <= (x - p) * (x - p)) by (nonlinear_arith)
        requires (x - p >= c - p && c - p >= 0) || (x - p <= c - p && c - p <= 0);
}

/// Each tick that finds the pet beyond the follow distance brings it
/// strictly closer to where the player then stands, for any stride of at
/// least a millisecond that is shorter than twice the distance.
pub proof fn lemma_pet_closes_in(pet: Pos, player: Pos, dt: u64)
    requires
        pet.wf(),
        player.wf(),
        dist2(pet, player) > PET_DISTANCE,
        1 <= dt,
        (PET_FOLLOW_SPEED * dt) * (PET_FOLLOW_SPEED * dt) < 4 * dist2(pet, player),
    ensures
        dist2(pet_movement_spec(pet, player, dt), player) < dist2(pet, player),
{
    let dx = player.x - pet.x;
    let dy = player.y - pet.y;
    let n = dist2(player, pet);
    assert(n == dx * dx + dy * dy);
    assert(n == dist2(pet, player)) by (nonlinear_arith)
        requires n == dx * dx + dy * dy, dist2(pet, player) == (pet.x - player.x) * (pet.x - player.x)
            + (pet.y - player.y) * (pet.y - player.y), dx == player.x - pet.x, dy == player.y - pet.y;
    let step = PET_FOLLOW_SPEED * dt;
    assert(step >= 280);
    lemma_root_exists(n as nat);
    let r = root(n as nat);
    let len = root_up(n as nat);
    assert(r * r <= n < (r + 1) * (r + 1));
    if r * r == n {
        assert(len == r);
        assert(r > 0) by (nonlinear_arith) requires r * r == n, n > 0, r >= 0;
        assert((len - 1) * (len - 1) < n) by (nonlinear_arith) requires len * len == n, len > 0;
    } else {
        assert(len == r + 1);
    }
    assert(n <= len * len && (len - 1) * (len - 1) < n && len > 0);
    assert(dx * dx <= n && dy * dy <= n) by (nonlinear_arith) requires n == dx * dx + dy * dy;
    assert(-len <= dx <= len) by (nonlinear_arith) requires dx * dx <= len * len, len > 0;
    assert(-len <= dy <= len) by (nonlinear_arith) requires dy * dy <= len * len, len > 0;
    assert(step < 2 * len) by (nonlinear_arith)
        requires step * step < 4 * n, n <= len * len, len > 0, step >= 0;
    lemma_component_shrinks(dx, step, len);
    lemma_component_shrinks(dy, step, len);
    let vx = scale(dx, step, len);
    let vy = scale(dy, step, len);
    assert(steer_spec(player, pet, step) == (vx, vy));
    // the longer of the two components moves by at least one unit
    if dx * dx >= dy * dy {
        assert(len <= 2 * dx || len <= -2 * dx) by (nonlinear_arith)
            requires (len - 1) * (len - 1) < n, n == dx * dx + dy * dy, dx * dx >= dy * dy, len > 0;
        assert(dx >= 0 ==> dx * step >= len) by (nonlinear_arith)
            requires len <= 2 * dx || len <= -2 * dx, step >= 280, len > 0;
        assert(dx < 0 ==> (-dx) * step >= len) by (nonlinear_arith)
            requires len <= 2 * dx || len <= -2 * dx, step >= 280, len > 0;
    } else {
        assert(len <= 2 * dy || len <= -2 * dy) by (nonlinear_arith)
            requires (len - 1) * (len - 1) < n, n == dx * dx + dy * dy, dx * dx < dy * dy, len > 0;
        assert(dy >= 0 ==> dy * step >= len) by (nonlinear_arith)
            requires len <= 2 * dy || len <= -2 * dy, step >= 280, len > 0;
        assert(dy < 0 ==> (-dy) * step >= len) by (nonlinear_arith)
            requires len <= 2 * dy || len <= -2 * dy, step >= 280, len > 0;
    }
    assert((dx - vx) * (dx - vx) + (dy - vy) * (dy - vy) < n);
    let np = pet_movement_spec(pet, player, dt);
    lemma_clamp_nearer(pet.x + vx, player.x as int);
    lemma_clamp_nearer(pet.y + vy, player.y as int);
    assert(np.x == clamp_spec(pet.x + vx) && np.y == clamp_spec(pet.y + vy));
    assert((pet.x + vx - player.x) * (pet.x + vx - player.x) == (dx - vx) * (dx - vx)) by (nonlinear_arith)
        requires dx == player.x - pet.x;
    assert((pet.y + vy - player.y) * (pet.y + vy - player.y) == (dy - vy) * (dy - vy)) by (nonlinear_arith)
        requires dy == player.y - pet.y;
}

/// No two eggs share an id.
pub open spec fn ids_distinct(eggs: Seq<Egg>) -> bool {
    forall|i: int, j: int| 0 <= i < j < eggs.len() ==> (#[trigger] eggs[i]).id != (#[trigger] eggs[j]).id
}

/// Every egg's id is below `bound`.
pub open spec fn ids_below(eggs: Seq<Egg>, bound: u64) -> bool {
    forall|i: int| 0 <= i < eggs.len() ==> (#[trigger] eggs[i]).id < bound
}

/// The egg with index `k` of `eggs` is the one with index `i` of `sub`.
pub open spec fn same_egg(sub: Seq<Egg>, i: int, eggs: Seq<Egg>, k: int) -> bool {
    0 <= k < eggs.len() && sub[i].id == eggs[k].id
}

/// The egg with index `i` of `sub` is the egg with index `k` of `eggs`.
pub open spec fn is_at(sub: Seq<Egg>, i: int, eggs: Seq<Egg>, k: int) -> bool {
    0 <= k < eggs.len() && sub[i] == eggs[k]
}

/// The egg with index `i` of `sub` is an egg of `eggs` out of the player's
/// reach.
pub open spec fn kept_source(sub: Seq<Egg>, i: int, eggs: Seq<Egg>, player: Pos) -> bool {
    exists|k: int| is_at(sub, i, eggs, k) && !picked_up(player, eggs[k])
}

/// The egg with index `i` of `sub` has the id of an egg of `eggs` whose
/// despawn timer does not fire within `dt`.
pub open spec fn lasting_source(sub: Seq<Egg>, i: int, eggs: Seq<Egg>, dt: u64) -> bool {
    exists|k: int| same_egg(sub, i, eggs, k) && !tick_spec(eggs[k].despawn, dt).1
}

/// The egg with index `i` of `sub` has the id of an egg of `eggs` that is
/// out of the player's reach and whose despawn timer does not fire.
pub open spec fn surviving_source(sub: Seq<Egg>, i: int, eggs: Seq<Egg>, player: Pos, dt: u64) -> bool {
    exists|k: int| same_egg(sub, i, eggs, k) && !picked_up(player, eggs[k]) && !tick_spec(eggs[k].despawn, dt).1
}

proof fn lemma_kept_from(player: Pos, eggs: Seq<Egg>)
    ensures
        forall|i: int| 0 <= i < eggs_kept(player, eggs).len() ==>
            #[trigger] kept_source(eggs_kept(player, eggs), i, eggs, player),
        ids_distinct(eggs) ==> ids_distinct(eggs_kept(player, eggs)),
    decreases eggs.len(),
{
    if eggs.len() > 0 {
        let init = eggs.drop_last();
        lemma_kept_from(player, init);
        let rest = eggs_kept(player, init);
        let r = eggs_kept(player, eggs);
        let n = eggs.len() - 1;
        assert forall|i: int| 0 <= i < r.len() implies #[trigger] kept_source(r, i, eggs, player) by {
            if i < rest.len() {
                assert(kept_source(rest, i, init, player));
                let k = choose|k: int| is_at(rest, i, init, k) && !picked_up(player, init[k]);
                assert(is_at(r, i, eggs, k) && !picked_up(player, eggs[k]));
            } else {
                assert(is_at(r, i, eggs, n) && !picked_up(player, eggs[n]));
            }
        }
        if ids_distinct(eggs) {
            assert forall|i: int, j: int| 0 <= i < j < r.len() implies
                (#[trigger] r[i]).id != (#[trigger] r[j]).id by {
                assert(kept_source(rest, i, init, player));
                let ki = choose|k: int| is_at(rest, i, init, k) && !picked_up(player, init[k]);
                if j < rest.len() {
                } else {
                    assert(eggs[ki].id != eggs[n].id);
                }
            }
        }
    }
}

proof fn lemma_despawn_from(eggs: Seq<Egg>, dt: u64)
    ensures
        forall|i: int| 0 <= i < despawn_spec(eggs, dt).len() ==>
            #[trigger] lasting_source(despawn_spec(eggs, dt), i, eggs, dt),
        ids_distinct(eggs) ==> ids_distinct(despawn_spec(eggs, dt)),
    decreases eggs.len(),
{
    if eggs.len() > 0 {
        let init = eggs.drop_last();
        lemma_despawn_from(init, dt);
        let rest = despawn_spec(init, dt);
        let r = despawn_spec(eggs, dt);
        let n = eggs.len() - 1;
        assert forall|i: int| 0 <= i < r.len() implies #[trigger] lasting_source(r, i, eggs, dt) by {
            if i < rest.len() {
                assert(lasting_source(rest, i, init, dt));
                let k = choose|k: int| same_egg(rest, i, init, k) && !tick_spec(init[k].despawn, dt).1;
                assert(same_egg(r, i, eggs, k) && !tick_spec(eggs[k].despawn, dt).1);
            } else {
                assert(same_egg(r, i, eggs, n) && !tick_spec(eggs[n].despawn, dt).1);
            }
        }
        if ids_distinct(eggs) {
            assert forall|i: int, j: int| 0 <= i < j < r.len() implies
                (#[trigger] r[i]).id != (#[trigger] r[j]).id by {
                assert(lasting_source(rest, i, init, dt));
                let ki = choose|k: int| same_egg(rest, i, init, k) && !tick_spec(init[k].despawn, dt).1;
                if j < rest.len() {
                } else {
                    assert(eggs[ki].id != eggs[n].id);
                }
            }
        }
    }
}

proof fn lemma_laid_ids(cs: Seq<Chicken>, dt: u64, jitters: Seq<u64>, first_id: u64)
    requires
        first_id + cs.len() <= u64::MAX,
    ensures
        forall|i: int| 0 <= i < laid_spec(cs, dt, jitters, first_id).len() ==>
            (#[trigger] laid_spec(cs, dt, jitters, first_id)[i]).id == first_id + i,
        laid_spec(cs, dt, jitters, first_id).len() <= cs.len(),
    decreases cs.len(),
{
    if cs.len() > 0 {
        lemma_laid_ids(cs.drop_last(), dt, jitters, first_id);
    }
}

/// The eggs of the level after a tick, as `World::tick` leaves them.
pub open spec fn eggs_after_tick(
    eggs: Seq<Egg>,
    player: Pos,
    cs: Seq<Chicken>,
    dt: u64,
    jitters: Seq<u64>,
    next_id: u64,
) -> Seq<Egg> {
    despawn_spec(eggs_kept(player, eggs), dt) + laid_spec(cs, dt, jitters, next_id)
}

/// Across a tick egg ids stay unique and below the next id to hand out,
/// and an egg that the tick removed, because the player picked it up or its
/// despawn timer fired, is not among the eggs left: it can be neither
/// picked up nor despawned again.
pub proof fn lemma_removed_eggs_stay_gone(
    eggs: Seq<Egg>,
    player: Pos,
    cs: Seq<Chicken>,
    dt: u64,
    jitters: Seq<u64>,
    next_id: u64,
)
    requires
        ids_distinct(eggs),
        ids_below(eggs, next_id),
        next_id + cs.len() <= u64::MAX,
    ensures
        ({
            let after = eggs_after_tick(eggs, player, cs, dt, jitters, next_id);
            let next = next_id + laid_spec(cs, dt, jitters, next_id).len();
            &&& ids_distinct(after)
            &&& ids_below(after, next as u64)
            &&& forall|m: int, i: int|
                0 <= m < eggs.len() && 0 <= i < after.len()
                    && (picked_up(player, eggs[m]) || tick_spec(eggs[m].despawn, dt).1)
                    ==> (#[trigger] after[i]).id != (#[trigger] eggs[m]).id
        }),
{
    let kept = eggs_kept(player, eggs);
    let a = despawn_spec(kept, dt);
    let b = laid_spec(cs, dt, jitters, next_id);
    let after = a + b;
    lemma_kept_from(player, eggs);
    lemma_despawn_from(kept, dt);
    lemma_laid_ids(cs, dt, jitters, next_id);
    // every egg of `a` is an egg of `eggs` that was neither picked up nor expired
    assert forall|i: int| 0 <= i < a.len() implies #[trigger] surviving_source(a, i, eggs, player, dt) by {
        assert(lasting_source(a, i, kept, dt));
        let j = choose|j: int| same_egg(a, i, kept, j) && !tick_spec(kept[j].despawn, dt).1;
        assert(kept_source(kept, j, eggs, player));
        let k = choose|k: int| is_at(kept, j, eggs, k) && !picked_up(player, eggs[k]);
        assert(same_egg(a, i, eggs, k) && !picked_up(player, eggs[k]) && !tick_spec(eggs[k].despawn, dt).1);
    }
    assert forall|i: int, j: int| 0 <= i < j < after.len() implies
        (#[trigger] after[i]).id != (#[trigger] after[j]).id by {
        if j < a.len() {
            assert(after[i] == a[i] && after[j] == a[j]);
        } else if i < a.len() {
            assert(surviving_source(a, i, eggs, player, dt));
            let k = choose|k: int| same_egg(a, i, eggs, k) && !picked_up(player, eggs[k])
                && !tick_spec(eggs[k].despawn, dt).1;
            assert(after[j] == b[j - a.len()]);
            assert(eggs[k].id < next_id);
        } else {
            assert(after[i] == b[i - a.len()] && after[j] == b[j - a.len()]);
        }
    }
    let next = next_id + b.len();
    assert forall|i: int| 0 <= i < after.len() implies (#[trigger] after[i]).id < next as u64 by {
        if i < a.len() {
            assert(surviving_source(a, i, eggs, player, dt));
            let k = choose|k: int| same_egg(a, i, eggs, k) && !picked_up(player, eggs[k])
                && !tick_spec(eggs[k].despawn, dt).1;
            assert(after[i] == a[i]);
            assert(eggs[k].id < next_id);
        } else {
            assert(after[i] == b[i - a.len()]);
        }
    }
    assert forall|m: int, i: int|
        0 <= m < eggs.len() && 0 <= i < after.len()
            && (picked_up(player, eggs[m]) || tick_spec(eggs[m].despawn, dt).1)
            implies (#[trigger] after[i]).id != (#[trigger] eggs[m]).id by {
        if i < a.len() {
            assert(surviving_source(a, i, eggs, player, dt));
            let k = choose|k: int| same_egg(a, i, eggs, k) && !picked_up(player, eggs[k])
                && !tick_spec(eggs[k].despawn, dt).1;
            assert(after[i] == a[i]);
            assert(k != m);
        } else {
            assert(after[i] == b[i - a.len()]);
            assert(eggs[m].id < next_id);
        }
    }
}

} // verus!
