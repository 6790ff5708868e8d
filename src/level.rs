use vstd::prelude::*;

use rand::rngs::StdRng;
use rand::{Rng, SeedableRng};

use crate::geometry::{Pos, MAX_TICK_MS};
use crate::map::{get_vector_for_tile, tile_spec, MapDefinition};
use crate::timer::{tick_spec, Timer};
use crate::world::{
    camera_follow_player, chickens_lay_eggs, chickens_wf, collidables_wf, collision_spec,
    collision_system, despawn_spec, despawn_timers, eggs_kept, eggs_picked, eggs_wf,
    handle_input, handle_input_spec, ids_below, ids_distinct, laid_spec,
    lemma_removed_eggs_stay_gone, pet_movement, pet_movement_spec,
    player_pickups_eggs, Camera, Chicken, Collidable, CollectedCoins, Egg, Input,
    CHICKEN_EGG_COOLDOWN, MAX_EGG_JITTER_SECS,
};

verus! {

/// How long a level lasts, in milliseconds.
pub const LEVEL_DURATION: u64 = 150_000;
/// The depth at which the camera looks down on the field.
pub const CAMERA_DEPTH: i64 = 999_900;

/// The countdown of the current level.
#[derive(Clone, Copy, Debug, PartialEq, Eq, Structural)]
pub struct LevelTimer {
    pub timer: Timer,
}

/// Everything that lives during one level.
pub struct World {
    pub player: Pos,
    pub pet: Pos,
    pub camera: Camera,
    pub chickens: Vec<Chicken>,
    pub eggs: Vec<Egg>,
    pub collidables: Vec<Collidable>,
    pub coins: CollectedCoins,
    pub level_timer: LevelTimer,
    pub next_egg_id: u64,
    pub rng: StdRng,
}

/// The chickens of a map, each on its spawn tile with a fresh egg timer.
pub open spec fn spawned_chickens(spawns: Seq<(usize, usize)>) -> Seq<Chicken> {
    Seq::new(spawns.len(), |i: int| Chicken {
        pos: tile_spec(spawns[i].0 as int, spawns[i].1 as int),
        egg_timer: Timer { duration: CHICKEN_EGG_COOLDOWN, elapsed: 0, repeating: true, finished: false },
    })
}

/// The seconds left on the level timer, rounded down.
pub open spec fn seconds_left(t: Timer) -> int {
    (t.duration - t.elapsed) / 1000
}

/// Ticks the level timer and returns the whole seconds left.
pub fn update_time_system(level_timer: &mut LevelTimer, dt: u64) -> (secs: u64)
    requires
        old(level_timer).timer.wf(),
    ensures
        final(level_timer).timer == tick_spec(old(level_timer).timer, dt).0,
        final(level_timer).timer.wf(),
        secs == seconds_left(final(level_timer).timer),
{
    let _ = level_timer.timer.tick(dt);
    level_timer.timer.remaining() / 1000
}

/// rand's seedable standard generator, carried through the level unopened.
#[verifier::external_type_specification]
#[verifier::external_body]
pub struct ExStdRng(StdRng);

/// Relies on rand's `SeedableRng::seed_from_u64` for `StdRng`: a generator
/// whose draws are fixed by `seed`.
#[verifier::external_body]
fn seeded_rng(seed: u64) -> (r: StdRng) {
    StdRng::seed_from_u64(seed)
}

/// Relies on rand's `Rng::gen_range` on an inclusive range: a whole number
/// drawn uniformly from `0..=max` (an inclusive range starting at zero is
/// never empty, so `gen_range` does not panic on it).
#[verifier::external_body]
fn draw_egg_jitter(rng: &mut StdRng, max: u64) -> (r: u64)
    ensures
        r <= max,
{
    rng.gen_range(0..=max)
}

impl World {
    pub open spec fn wf(&self) -> bool {
        &&& self.player.wf()
        &&& self.pet.wf()
        &&& chickens_wf(self.chickens@)
        &&& eggs_wf(self.eggs@)
        &&& collidables_wf(self.collidables@)
        &&& self.level_timer.timer.wf()
        &&& ids_distinct(self.eggs@)
        &&& ids_below(self.eggs@, self.next_egg_id)
    }

    /// Room left in the counters for one more tick.
    pub open spec fn has_room(&self) -> bool {
        &&& self.next_egg_id + self.chickens@.len() <= u64::MAX
        &&& self.coins.0 + self.eggs@.len() <= u64::MAX
    }

    /// Sets a level up from its map: the player on its spawn tile, the pet
    /// one tile right of and below it, every chicken on its own tile with a
    /// repeating egg timer, the camera over the origin, no eggs, no coins,
    /// and the level countdown started; the eggs' random lives are drawn
    /// from a generator seeded with `seed`.
    pub fn setup(map: &MapDefinition, seed: u64) -> (w: World)
        requires
            map.wf(),
        ensures
            w.wf(),
            w.player == tile_spec(map.player_spawn.0 as int, map.player_spawn.1 as int),
            w.pet == tile_spec(map.player_spawn.0 + 1, map.player_spawn.1 + 1),
            w.chickens@ == spawned_chickens(map.chicken_spawns@),
            w.eggs@.len() == 0,
            w.collidables@.len() == 0,
            w.coins.0 == 0,
            w.camera == (Camera { x: 0, y: 0, z: CAMERA_DEPTH }),
            w.level_timer.timer == (Timer { duration: LEVEL_DURATION, elapsed: 0, repeating: false, finished: false }),
            w.next_egg_id == 0,
    {
        let player = get_vector_for_tile(map.player_spawn.0, map.player_spawn.1);
        let pet = get_vector_for_tile(map.player_spawn.0 + 1, map.player_spawn.1 + 1);
        let mut chickens: Vec<Chicken> = Vec::new();
        let mut i: usize = 0;
        while i < map.chicken_spawns.len()
            invariant
                map.wf(),
                i <= map.chicken_spawns@.len(),
                chickens@ == spawned_chickens(map.chicken_spawns@).take(i as int),
            decreases map.chicken_spawns@.len() - i,
        {
            let spawn = map.chicken_spawns[i];
            assert(map.chicken_spawns@[i as int] == spawn);
            let pos = get_vector_for_tile(spawn.0, spawn.1);
            chickens.push(Chicken { pos, egg_timer: Timer::new(CHICKEN_EGG_COOLDOWN, true) });
            i = i + 1;
            assert(chickens@ =~= spawned_chickens(map.chicken_spawns@).take(i as int));
        }
        assert(chickens@ =~= spawned_chickens(map.chicken_spawns@));
        assert forall|k: int| 0 <= k < chickens@.len() implies
            (#[trigger] chickens@[k]).pos.wf() && chickens@[k].egg_timer.wf() by {
            let s = map.chicken_spawns@[k];
            assert(s.0 <= 7_812_500_000 && s.1 <= 7_812_500_000);
            assert(s.0 * 128_000 <= 7_812_500_000 * 128_000) by (nonlinear_arith)
                requires s.0 <= 7_812_500_000;
            assert(s.1 * 63_000 <= 7_812_500_000 * 63_000) by (nonlinear_arith)
                requires s.1 <= 7_812_500_000;
        }
        World {
            player,
            pet,
            camera: Camera { x: 0, y: 0, z: CAMERA_DEPTH },
            chickens,
            eggs: Vec::new(),
            collidables: Vec::new(),
            coins: CollectedCoins(0),
            level_timer: LevelTimer { timer: Timer::new(LEVEL_DURATION, false) },
            next_egg_id: 0,
            rng: seeded_rng(seed),
        }
    }

    /// One simulation step of `dt` milliseconds, in this order: the player
    /// moves by the held keys unless blocked; chickens whose timer fires lay
    /// an egg (with `jitters[i]` extra seconds of life for the `i`-th
    /// chicken); the player picks up the eggs in reach; despawn timers run
    /// out; the pet follows the player; overlapping collidables are pushed
    /// apart; the camera follows the player; the level timer runs. Eggs laid
    /// in this step join the level after the pickup and the despawn sweep,
    /// so neither touches them before the next step.
    pub fn tick(&mut self, input: Input, dt: u64, jitters: &Vec<u64>)
        requires
            old(self).wf(),
            old(self).has_room(),
            dt <= MAX_TICK_MS,
            jitters@.len() == old(self).chickens@.len(),
            forall|i: int| 0 <= i < jitters@.len() ==> #[trigger] jitters@[i] <= MAX_EGG_JITTER_SECS,
        ensures
            final(self).wf(),
            final(self).player == handle_input_spec(old(self).player, input, dt, old(self).collidables@),
            final(self).chickens@.len() == old(self).chickens@.len(),
            forall|i: int| 0 <= i < old(self).chickens@.len() ==> #[trigger] final(self).chickens@[i] == (Chicken {
                egg_timer: tick_spec(old(self).chickens@[i].egg_timer, dt).0,
                ..old(self).chickens@[i]
            }),
            final(self).eggs@ == despawn_spec(eggs_kept(final(self).player, old(self).eggs@), dt)
                + laid_spec(old(self).chickens@, dt, jitters@, old(self).next_egg_id),
            final(self).coins.0 == old(self).coins.0 + eggs_picked(final(self).player, old(self).eggs@),
            final(self).next_egg_id == old(self).next_egg_id
                + laid_spec(old(self).chickens@, dt, jitters@, old(self).next_egg_id).len(),
            final(self).pet == pet_movement_spec(old(self).pet, final(self).player, dt),
            final(self).collidables@ == collision_spec(old(self).collidables@, dt),
            final(self).camera == (Camera {
                x: final(self).player.x,
                y: final(self).player.y,
                z: old(self).camera.z,
            }),
            final(self).level_timer.timer == tick_spec(old(self).level_timer.timer, dt).0,
    {
        self.player = handle_input(self.player, input, &self.collidables, dt);
        let mut laid: Vec<Egg> = Vec::new();
        chickens_lay_eggs(&mut self.chickens, &mut laid, &mut self.next_egg_id, jitters, dt);
        assert(laid@ =~= laid_spec(old(self).chickens@, dt, jitters@, old(self).next_egg_id));
        player_pickups_eggs(self.player, &mut self.eggs, &mut self.coins);
        despawn_timers(&mut self.eggs, dt);
        self.eggs.append(&mut laid);
        proof {
            let all = self.eggs@;
            assert forall|k: int| 0 <= k < all.len() implies
                (#[trigger] all[k]).pos.wf() && all[k].despawn.wf() by {
                let a = despawn_spec(eggs_kept(self.player, old(self).eggs@), dt);
                if k < a.len() {
                    assert(all[k] == a[k]);
                } else {
                    let b = laid_spec(old(self).chickens@, dt, jitters@, old(self).next_egg_id);
                    assert(all[k] == b[k - a.len()]);
                }
            }
        }
        proof {
            lemma_removed_eggs_stay_gone(old(self).eggs@, self.player, old(self).chickens@, dt,
                jitters@, old(self).next_egg_id);
        }
        self.pet = pet_movement(self.pet, self.player, dt);
        collision_system(&mut self.collidables, dt);
        camera_follow_player(&mut self.camera, self.player);
        let _ = update_time_system(&mut self.level_timer, dt);
    }

    /// One simulation step in which each egg laid gets a random number of
    /// extra seconds of life, from `0` to `MAX_EGG_JITTER_SECS`.
    pub fn tick_random(&mut self, input: Input, dt: u64)
        requires
            old(self).wf(),
            old(self).has_room(),
            dt <= MAX_TICK_MS,
        ensures
            final(self).wf(),
            final(self).player == handle_input_spec(old(self).player, input, dt, old(self).collidables@),
            final(self).coins.0 == old(self).coins.0 + eggs_picked(final(self).player, old(self).eggs@),
            final(self).pet == pet_movement_spec(old(self).pet, final(self).player, dt),
            final(self).collidables@ == collision_spec(old(self).collidables@, dt),
            final(self).level_timer.timer == tick_spec(old(self).level_timer.timer, dt).0,
            final(self).camera == (Camera {
                x: final(self).player.x,
                y: final(self).player.y,
                z: old(self).camera.z,
            }),
            final(self).chickens@.len() == old(self).chickens@.len(),
            forall|i: int| 0 <= i < old(self).chickens@.len() ==> #[trigger] final(self).chickens@[i] == (Chicken {
                egg_timer: tick_spec(old(self).chickens@[i].egg_timer, dt).0,
                ..old(self).chickens@[i]
            }),
            exists|jitters: Seq<u64>| {
                &&& jitters.len() == old(self).chickens@.len()
                &&& forall|i: int| 0 <= i < jitters.len() ==> #[trigger] jitters[i] <= MAX_EGG_JITTER_SECS
                &&& final(self).eggs@ == despawn_spec(eggs_kept(final(self).player, old(self).eggs@), dt)
                    + laid_spec(old(self).chickens@, dt, jitters, old(self).next_egg_id)
                &&& final(self).next_egg_id == old(self).next_egg_id
                    + laid_spec(old(self).chickens@, dt, jitters, old(self).next_egg_id).len()
            },
    {
        let mut jitters: Vec<u64> = Vec::new();
        let mut i: usize = 0;
        while i < self.chickens.len()
            invariant
                self.player == old(self).player,
                self.pet == old(self).pet,
                self.camera == old(self).camera,
                self.chickens@ == old(self).chickens@,
                self.eggs@ == old(self).eggs@,
                self.collidables@ == old(self).collidables@,
                self.coins == old(self).coins,
                self.level_timer == old(self).level_timer,
                self.next_egg_id == old(self).next_egg_id,
                i <= self.chickens@.len(),
                jitters@.len() == i,
                forall|k: int| 0 <= k < i ==> #[trigger] jitters@[k] <= MAX_EGG_JITTER_SECS,
            decreases self.chickens@.len() - i,
        {
            jitters.push(draw_egg_jitter(&mut self.rng, MAX_EGG_JITTER_SECS));
            i = i + 1;
        }
        self.tick(input, dt, &jitters);
    }
}

/// The game around the levels: the simulation runs only while a level is
/// being played, and leaving it drops everything the level held.
pub struct Session {
    pub level: Option<World>,
}

impl Session {
    pub open spec fn wf(&self) -> bool {
        self.level is Some ==> self.level->Some_0.wf()
    }

    /// A session with no level being played.
    pub fn new() -> (s: Session)
        ensures
            s.wf(),
            s.level is None,
    {
        Session { level: None }
    }

    /// Enters play: a fresh level set up from `map`, its random draws
    /// seeded with `seed`.
    pub fn enter_play(&mut self, map: &MapDefinition, seed: u64)
        requires
            map.wf(),
        ensures
            final(self).wf(),
            final(self).level is Some,
            final(self).level->Some_0.coins.0 == 0,
            final(self).level->Some_0.eggs@.len() == 0,
            final(self).level->Some_0.chickens@ == spawned_chickens(map.chicken_spawns@),
            final(self).level->Some_0.player == tile_spec(map.player_spawn.0 as int, map.player_spawn.1 as int),
            final(self).level->Some_0.pet == tile_spec(map.player_spawn.0 + 1, map.player_spawn.1 + 1),
            final(self).level->Some_0.collidables@.len() == 0,
            final(self).level->Some_0.level_timer.timer == (Timer {
                duration: LEVEL_DURATION,
                elapsed: 0,
                repeating: false,
                finished: false,
            }),
    {
        self.level = Some(World::setup(map, seed));
    }

    /// Leaves play: every entity of the level, its score and its timer go.
    pub fn cleanup(&mut self)
        ensures
            final(self).wf(),
            final(self).level is None,
    {
        self.level = None;
    }

    /// Runs one step of the level being played, if any, and says whether a
    /// step ran. A step is also skipped when the egg ids or the coin count
    /// could no longer be represented.
    pub fn update(&mut self, input: Input, dt: u64) -> (ran: bool)
        requires
            old(self).wf(),
            dt <= MAX_TICK_MS,
        ensures
            final(self).wf(),
            ran <==> old(self).level is Some && old(self).level->Some_0.has_room(),
            !ran ==> final(self).level == old(self).level,
            final(self).level is Some <==> old(self).level is Some,
            ran ==> ({
                let w0 = old(self).level->Some_0;
                let w1 = final(self).level->Some_0;
                &&& w1.player == handle_input_spec(w0.player, input, dt, w0.collidables@)
                &&& w1.coins.0 == w0.coins.0 + eggs_picked(w1.player, w0.eggs@)
                &&& w1.pet == pet_movement_spec(w0.pet, w1.player, dt)
                &&& w1.collidables@ == collision_spec(w0.collidables@, dt)
                &&& w1.level_timer.timer == tick_spec(w0.level_timer.timer, dt).0
                &&& w1.camera == (Camera { x: w1.player.x, y: w1.player.y, z: w0.camera.z })
                &&& w1.chickens@.len() == w0.chickens@.len()
                &&& forall|i: int| 0 <= i < w0.chickens@.len() ==> #[trigger] w1.chickens@[i] == (Chicken {
                    egg_timer: tick_spec(w0.chickens@[i].egg_timer, dt).0,
                    ..w0.chickens@[i]
                })
                &&& exists|jitters: Seq<u64>| {
                    &&& jitters.len() == w0.chickens@.len()
                    &&& forall|i: int| 0 <= i < jitters.len() ==> #[trigger] jitters[i] <= MAX_EGG_JITTER_SECS
                    &&& w1.eggs@ == despawn_spec(eggs_kept(w1.player, w0.eggs@), dt)
                        + laid_spec(w0.chickens@, dt, jitters, w0.next_egg_id)
                    &&& w1.next_egg_id == w0.next_egg_id + laid_spec(w0.chickens@, dt, jitters, w0.next_egg_id).len()
                }
            }),
    {
        match self.level.take() {
            None => false,
            Some(mut world) => {
                let room = world.next_egg_id <= u64::MAX - world.chickens.len() as u64
                    && world.coins.0 <= u64::MAX - world.eggs.len() as u64;
                if room {
                    world.tick_random(input, dt);
                }
                self.level = Some(world);
                room
            }
        }
    }
}

} // verus!
