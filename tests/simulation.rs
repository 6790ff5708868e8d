use coop_keeper::geometry::{distance_squared, isqrt, steer, Pos};
use coop_keeper::level::{LevelTimer, Session, World, update_time_system};
use coop_keeper::map::{get_vector_for_tile, Border, MapDefinition, MapObject};
use coop_keeper::timer::Timer;
use coop_keeper::world::{
    camera_follow_player, chicken_movement, chickens_lay_eggs, collision_system, despawn_timers,
    handle_input, pet_movement, player_pickups_eggs, Camera, Chicken, Collidable, CollectedCoins,
    Egg, Input,
};

fn p(x: i64, y: i64) -> Pos {
    Pos { x, y }
}

fn no_keys() -> Input {
    Input { up: false, down: false, left: false, right: false }
}

fn right() -> Input {
    Input { up: false, down: false, left: false, right: true }
}

fn lone_chicken_map() -> MapDefinition {
    MapDefinition {
        width: 12,
        height: 8,
        player_spawn: (0, 0),
        chicken_spawns: vec![(10, 7)],
        map_objects: vec![],
    }
}

#[test]
fn chicken_lays_first_egg_at_tick_ten_and_second_at_tick_twenty() {
    let map = lone_chicken_map();
    let mut world = World::setup(&map, 7);
    let jitters = vec![3u64];
    for tick in 1..=20u64 {
        world.tick(no_keys(), 1000, &jitters);
        let expected = if tick < 10 { 0 } else if tick < 20 { 1 } else { 2 };
        assert_eq!(world.next_egg_id, expected, "tick {}", tick);
        if tick == 10 {
            assert_eq!(world.eggs.len(), 1);
            assert_eq!(world.eggs[0].pos, get_vector_for_tile(10, 7));
            assert_eq!(world.eggs[0].despawn.duration, 8000);
        }
    }
    // the first egg lived 8 s (ticks 11 to 18) and is gone; the second is new
    assert_eq!(world.eggs.len(), 1);
    assert_eq!(world.eggs[0].id, 1);
    assert_eq!(world.coins.0, 0);
}

#[test]
fn random_egg_life_is_between_five_and_ten_seconds() {
    let map = lone_chicken_map();
    let mut world = World::setup(&map, 7);
    for _ in 0..10 {
        world.tick_random(no_keys(), 1000);
    }
    assert_eq!(world.eggs.len(), 1);
    let life = world.eggs[0].despawn.duration;
    assert!(life >= 5000 && life <= 10000, "life {}", life);
    assert_eq!(life % 1000, 0);
}

#[test]
fn same_seed_gives_same_egg_lives() {
    let map = MapDefinition::new();
    let mut first = World::setup(&map, 42);
    let mut second = World::setup(&map, 42);
    for _ in 0..30 {
        first.tick_random(no_keys(), 1000);
        second.tick_random(no_keys(), 1000);
    }
    assert!(first.next_egg_id > 0);
    assert_eq!(first.eggs, second.eggs);
}

#[test]
fn movement_allowed_at_exact_collision_threshold() {
    // dt 100 ms to the right moves 35 px; the obstacle sits exactly 70 px
    // past the intended place
    let walls = vec![Collidable { pos: p(105_000, 0), can_move: false }];
    assert_eq!(handle_input(p(0, 0), right(), &walls, 100), p(35_000, 0));
}

#[test]
fn movement_blocked_just_inside_collision_threshold() {
    let walls = vec![
        Collidable { pos: p(900_000, 0), can_move: false },
        Collidable { pos: p(104_999, 0), can_move: false },
    ];
    assert_eq!(handle_input(p(0, 0), right(), &walls, 100), p(0, 0));
}

#[test]
fn movable_collidables_do_not_block_the_player() {
    let others = vec![Collidable { pos: p(35_000, 0), can_move: true }];
    assert_eq!(handle_input(p(0, 0), right(), &others, 100), p(35_000, 0));
}

#[test]
fn diagonal_input_adds_both_axes() {
    let input = Input { up: true, down: false, left: true, right: false };
    assert_eq!(handle_input(p(0, 0), input, &vec![], 10), p(-3_500, 3_500));
    let opposite = Input { up: true, down: true, left: false, right: false };
    assert_eq!(handle_input(p(7, 7), opposite, &vec![], 10), p(7, 7));
}

#[test]
fn chickens_at_the_same_spot_stay_put() {
    let timer = Timer::new(10_000, true);
    let mut chickens = vec![
        Chicken { pos: p(0, 0), egg_timer: timer },
        Chicken { pos: p(0, 0), egg_timer: timer },
    ];
    chicken_movement(&mut chickens, p(1_000_000, 0), p(-1_000_000, 0), 16);
    assert_eq!(chickens[0].pos, p(0, 0));
    assert_eq!(chickens[1].pos, p(0, 0));
}

#[test]
fn close_chickens_push_each_other_apart() {
    let timer = Timer::new(10_000, true);
    let mut chickens = vec![
        Chicken { pos: p(0, 0), egg_timer: timer },
        Chicken { pos: p(30_000, 0), egg_timer: timer },
    ];
    chicken_movement(&mut chickens, p(1_000_000, 0), p(-1_000_000, 0), 10);
    assert_eq!(chickens[0].pos, p(-7_000, 0));
    assert_eq!(chickens[1].pos, p(37_000, 0));
}

#[test]
fn chicken_flees_player_and_pet_together() {
    let timer = Timer::new(10_000, true);
    let mut chickens = vec![Chicken { pos: p(0, 0), egg_timer: timer }];
    chicken_movement(&mut chickens, p(30_000, 0), p(0, 40_000), 10);
    assert_eq!(chickens[0].pos, p(-7_000, -7_000));
}

#[test]
fn pet_closes_in_on_a_walking_player() {
    let mut pet = p(0, 0);
    let mut player = p(500_000, 0);
    for _ in 0..8 {
        player = handle_input(player, right(), &vec![], 16);
        let before = distance_squared(pet, player);
        pet = pet_movement(pet, player, 16);
        assert!(distance_squared(pet, player) < before);
    }
    assert_eq!(pet, p(8 * 4_480, 0));
}

#[test]
fn pet_rests_near_the_player() {
    assert_eq!(pet_movement(p(0, 0), p(120_000, 0), 16), p(0, 0));
    assert_eq!(pet_movement(p(0, 0), p(120_001, 0), 16), p(4_480, 0));
}

#[test]
fn static_collidables_never_move() {
    let mut cs = vec![
        Collidable { pos: p(0, 0), can_move: false },
        Collidable { pos: p(30_000, 0), can_move: false },
    ];
    collision_system(&mut cs, 50);
    assert_eq!(cs[0].pos, p(0, 0));
    assert_eq!(cs[1].pos, p(30_000, 0));
}

#[test]
fn movable_collidable_is_pushed_off_a_static_one() {
    let mut cs = vec![
        Collidable { pos: p(0, 0), can_move: false },
        Collidable { pos: p(30_000, 0), can_move: true },
        Collidable { pos: p(500_000, 0), can_move: true },
    ];
    collision_system(&mut cs, 10);
    assert_eq!(cs[0].pos, p(0, 0));
    assert_eq!(cs[1].pos, p(37_000, 0));
    assert_eq!(cs[2].pos, p(500_000, 0));
}

#[test]
fn pushes_from_several_neighbours_add_up() {
    let mut cs = vec![
        Collidable { pos: p(0, 0), can_move: true },
        Collidable { pos: p(30_000, 0), can_move: false },
        Collidable { pos: p(0, 30_000), can_move: false },
    ];
    collision_system(&mut cs, 10);
    assert_eq!(cs[0].pos, p(-7_000, -7_000));
}

fn egg(id: u64, x: i64) -> Egg {
    Egg { id, pos: p(x, 0), despawn: Timer::new(5_000, false) }
}

#[test]
fn pickup_counts_each_egg_once() {
    let mut eggs = vec![egg(0, 10_000), egg(1, 60_000), egg(2, -20_000), egg(3, 50_000)];
    let mut coins = CollectedCoins(4);
    player_pickups_eggs(p(0, 0), &mut eggs, &mut coins);
    assert_eq!(coins.0, 6);
    let ids: Vec<u64> = eggs.iter().map(|e| e.id).collect();
    assert_eq!(ids, vec![1, 3]);
    player_pickups_eggs(p(0, 0), &mut eggs, &mut coins);
    assert_eq!(coins.0, 6);
    assert_eq!(eggs.len(), 2);
}

#[test]
fn despawn_removes_only_expired_eggs() {
    let mut eggs = vec![
        Egg { id: 0, pos: p(0, 0), despawn: Timer::new(5_000, false) },
        Egg { id: 1, pos: p(0, 0), despawn: Timer::new(9_000, false) },
    ];
    despawn_timers(&mut eggs, 6_000);
    assert_eq!(eggs.len(), 1);
    assert_eq!(eggs[0].id, 1);
    assert_eq!(eggs[0].despawn.elapsed, 6_000);
    despawn_timers(&mut eggs, 3_000);
    assert!(eggs.is_empty());
}

#[test]
fn laying_numbers_eggs_in_chicken_order() {
    let mut chickens = vec![
        Chicken { pos: p(1, 1), egg_timer: Timer::new(1_000, true) },
        Chicken { pos: p(2, 2), egg_timer: Timer::new(5_000, true) },
        Chicken { pos: p(3, 3), egg_timer: Timer::new(500, true) },
    ];
    let mut eggs = vec![egg(7, 0)];
    let mut next_id = 8u64;
    chickens_lay_eggs(&mut chickens, &mut eggs, &mut next_id, &vec![0, 5, 2], 1_000);
    assert_eq!(next_id, 10);
    assert_eq!(eggs.len(), 3);
    assert_eq!((eggs[1].id, eggs[1].pos, eggs[1].despawn.duration), (8, p(1, 1), 5_000));
    assert_eq!((eggs[2].id, eggs[2].pos, eggs[2].despawn.duration), (9, p(3, 3), 7_000));
    assert_eq!(chickens[0].egg_timer.elapsed, 0);
    assert_eq!(chickens[1].egg_timer.elapsed, 1_000);
}

#[test]
fn repeating_timer_fires_every_duration() {
    let mut t = Timer::new(10_000, true);
    assert!(!t.tick(9_999));
    assert!(t.tick(1));
    assert_eq!(t.elapsed, 0);
    assert!(!t.tick(9_999));
    assert!(t.tick(1));
    assert!(t.tick(10_000));
}

#[test]
fn one_shot_timer_fires_once() {
    let mut t = Timer::new(5_000, false);
    assert!(t.tick(6_000));
    assert_eq!(t.elapsed, 5_000);
    assert!(t.finished);
    assert!(!t.tick(6_000));
    assert!(!t.tick(0));
    assert_eq!(t.remaining(), 0);
}

#[test]
fn integer_square_roots() {
    assert_eq!(isqrt(0), 0);
    assert_eq!(isqrt(24), 4);
    assert_eq!(isqrt(25), 5);
    assert_eq!(isqrt(10_000_000_000), 100_000);
    assert_eq!(isqrt(10_000_000_001), 100_000);
}

#[test]
fn steering_is_scaled_to_the_step() {
    assert_eq!(steer(p(3_000, 4_000), p(0, 0), 700), (420, 560));
    assert_eq!(steer(p(0, 0), p(3_000, 4_000), 700), (-420, -560));
    assert_eq!(steer(p(5, 5), p(5, 5), 700), (0, 0));
    assert_eq!(distance_squared(p(3_000, 4_000), p(0, 0)), 25_000_000);
}

#[test]
fn camera_keeps_its_depth() {
    let mut camera = Camera { x: 1, y: 2, z: 999 };
    camera_follow_player(&mut camera, p(40, -50));
    assert_eq!(camera, Camera { x: 40, y: -50, z: 999 });
}

#[test]
fn level_timer_reports_whole_seconds_left() {
    let mut level = LevelTimer { timer: Timer::new(150_000, false) };
    assert_eq!(update_time_system(&mut level, 1_500), 148);
    assert_eq!(update_time_system(&mut level, 200_000), 0);
    assert!(level.timer.finished);
}

#[test]
fn farm_map_layout() {
    let map = MapDefinition::new();
    assert_eq!((map.width, map.height), (12, 8));
    assert_eq!(map.player_spawn, (4, 3));
    assert_eq!(map.chicken_spawns, vec![(3, 2), (2, 2), (3, 3), (4, 4), (5, 5)]);
    assert_eq!(map.object_at(3, 0), Some(MapObject::Hole));
    assert_eq!(map.object_at(4, 7), Some(MapObject::Plain));
    assert_eq!(map.object_at(12, 0), None);
    assert_eq!(map.object_at(0, 8), None);
    assert_eq!(map.border_at(0, 0), Some(Border::CornerBottomRight));
    assert_eq!(map.border_at(0, 7), Some(Border::CornerTopRight));
    assert_eq!(map.border_at(11, 0), Some(Border::CornerBottomLeft));
    assert_eq!(map.border_at(11, 7), Some(Border::CornerTopLeft));
    assert_eq!(map.border_at(0, 3), Some(Border::Vertical));
    assert_eq!(map.border_at(11, 3), Some(Border::Vertical));
    assert_eq!(map.border_at(5, 0), Some(Border::Horizontal));
    assert_eq!(map.border_at(5, 7), Some(Border::Horizontal));
    assert_eq!(map.border_at(5, 3), None);
}

#[test]
fn tiles_go_right_and_down() {
    assert_eq!(get_vector_for_tile(0, 0), p(0, 0));
    assert_eq!(get_vector_for_tile(4, 3), p(512_000, -189_000));
}

#[test]
fn setup_places_everyone() {
    let map = MapDefinition::new();
    let world = World::setup(&map, 7);
    assert_eq!(world.player, p(512_000, -189_000));
    assert_eq!(world.pet, p(640_000, -252_000));
    assert_eq!(world.chickens.len(), 5);
    assert_eq!(world.chickens[0].pos, p(384_000, -126_000));
    assert_eq!(world.chickens[0].egg_timer, Timer::new(10_000, true));
    assert!(world.eggs.is_empty());
    assert_eq!(world.coins.0, 0);
    assert_eq!(world.level_timer.timer, Timer::new(150_000, false));
}

#[test]
fn tick_moves_player_pet_and_camera() {
    let mut world = World::setup(&lone_chicken_map(), 7);
    world.pet = p(-500_000, 0);
    world.tick(right(), 100, &vec![0]);
    assert_eq!(world.player, p(35_000, 0));
    assert_eq!((world.camera.x, world.camera.y), (35_000, 0));
    assert_eq!(world.pet, p(-472_000, 0));
    assert_eq!(world.level_timer.timer.elapsed, 100);
}

#[test]
fn egg_laid_beside_the_player_waits_one_tick() {
    let map = MapDefinition {
        width: 12,
        height: 8,
        player_spawn: (0, 0),
        chicken_spawns: vec![(0, 0)],
        map_objects: vec![],
    };
    let mut world = World::setup(&map, 7);
    world.tick(no_keys(), 10_000, &vec![0]);
    assert_eq!(world.eggs.len(), 1);
    assert_eq!(world.coins.0, 0);
    world.tick(no_keys(), 1, &vec![0]);
    assert!(world.eggs.is_empty());
    assert_eq!(world.coins.0, 1);
}

#[test]
fn session_runs_only_during_play() {
    let mut session = Session::new();
    assert!(!session.update(no_keys(), 16));
    session.enter_play(&MapDefinition::new(), 7);
    assert!(session.update(no_keys(), 16));
    assert_eq!(session.level.as_ref().unwrap().level_timer.timer.elapsed, 16);
    session.cleanup();
    assert!(session.level.is_none());
    assert!(!session.update(no_keys(), 16));
}

#[test]
fn pet_with_a_long_stride_still_closes_in() {
    // 700 ms at 280 px/s is a 196 px stride, short of the 500 px gap
    let pet = pet_movement(p(0, 0), p(500_000, 0), 700);
    assert_eq!(pet, p(196_000, 0));
    assert!(distance_squared(pet, p(500_000, 0)) < distance_squared(p(0, 0), p(500_000, 0)));
}

#[test]
fn camera_starts_over_the_origin_at_its_depth() {
    let world = World::setup(&MapDefinition::new(), 7);
    assert_eq!(world.camera, Camera { x: 0, y: 0, z: 999_900 });
}

#[test]
fn pet_stride_just_under_twice_the_distance_still_closes_in() {
    let player = p(120_104, 1_967);
    let before = distance_squared(p(0, 0), player);
    let pet = pet_movement(p(0, 0), player, 858);
    assert!(distance_squared(pet, player) < before);
}

#[test]
fn diagonal_push_is_not_longer_than_the_step() {
    let (x, y) = steer(p(1, 1), p(0, 0), 700);
    assert_eq!((x, y), (350, 350));
    assert!(x * x + y * y <= 700 * 700);
}
