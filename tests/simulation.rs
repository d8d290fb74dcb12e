use rusty_invaders::arena::Arena;
use rusty_invaders::config::{PLAYER_MARGIN, ROCKET_SPAWN_OFFSET};
use rusty_invaders::entity::{DirectionX, DirectionY, HealthBar, Intent, Position};
use rusty_invaders::spawn::poll_timer;
use rusty_invaders::world::{SpawnRoll, World};

fn arena() -> Arena {
    Arena::from_pixels(1920, 1080).unwrap()
}

fn idle() -> Intent {
    Intent { x: DirectionX::Neutral, y: DirectionY::Neutral, fire: false }
}

#[test]
fn arena_from_pixels_uses_half_pixel_units() {
    let a = arena();
    assert_eq!(a.half_width, 1920);
    assert_eq!(a.half_height, 1080);
    assert!(Arena::from_pixels(100, 1080).is_none());
    assert!(Arena::from_pixels(1920, 100).is_none());
    assert!(Arena::from_pixels(320, 160).is_some());
    assert!(Arena::from_pixels(319, 160).is_none());
}

#[test]
fn new_world_has_player_left_of_centre() {
    let w = World::new(arena(), true);
    let p = w.player.unwrap();
    assert_eq!(p.pos, Position::new(-960, 0));
    assert_eq!(p.health.current_health, 8);
    assert_eq!(p.health.max_health, 8);
    assert_eq!(p.health.scale(), (120, 800));
    assert!(w.rockets.is_empty());
    assert!(w.projectiles.is_empty());
    assert_eq!(w.enemies_destroyed, 0);
}

#[test]
fn enemy_shot_close_to_player_costs_one_health() {
    let mut w = World::new(arena(), true);
    // ten pixels from the player
    w.create_projectile(Position::new(-960 + 20, 0), false);
    w.resolve_collisions();
    let p = w.player.expect("the player survives one hit");
    assert_eq!(p.health.current_health, 7);
    assert_eq!(p.health.scale(), (15 * 7, 100 * 8));
    assert!(w.projectiles.is_empty());
}

#[test]
fn rocket_dies_on_third_hit_and_is_counted_once() {
    let mut w = World::new(arena(), true);
    let id = w.create_rocket(Position::new(0, 0), false);
    for round in 0..3u32 {
        w.create_projectile(Position::new(20, 0), true);
        w.resolve_collisions();
        if round < 2 {
            assert_eq!(w.rockets.len(), 1);
            assert_eq!(w.rockets[0].id, id);
            assert_eq!(w.rockets[0].health.current_health, 2 - round);
            assert_eq!(w.enemies_destroyed, 0);
        }
        assert!(w.projectiles.is_empty());
    }
    assert!(w.rockets.is_empty());
    assert_eq!(w.owner_of(id + 2), None);
    assert_eq!(w.enemies_destroyed, 1);
}

#[test]
fn rocket_leaving_left_edge_is_removed_without_damage_or_count() {
    let mut w = World::new(arena(), true);
    // it leaves after ceil((0 + 1920) / 7) = 275 steps
    w.create_rocket(Position::new(0, 900), false);
    for _ in 0..274 {
        w.movement();
    }
    assert_eq!(w.rockets.len(), 1);
    assert_eq!(w.rockets[0].pos.x, -1918);
    assert_eq!(w.rockets[0].health.current_health, 3);
    w.movement();
    assert!(w.rockets.is_empty());
    assert_eq!(w.enemies_destroyed, 0);
    assert_eq!(w.player.unwrap().health.current_health, 8);
}

#[test]
fn opposite_shots_cancel_each_other() {
    let mut w = World::new(arena(), true);
    w.create_projectile(Position::new(0, 0), true);
    w.create_projectile(Position::new(30, 0), false);
    w.resolve_collisions();
    assert!(w.projectiles.is_empty());
    assert_eq!(w.player.unwrap().health.current_health, 8);
    assert_eq!(w.enemies_destroyed, 0);
}

#[test]
fn opposite_shots_pass_when_cancellation_is_off() {
    let mut w = World::new(arena(), false);
    w.create_projectile(Position::new(0, 0), true);
    w.create_projectile(Position::new(30, 0), false);
    w.resolve_collisions();
    assert_eq!(w.projectiles.len(), 2);
}

#[test]
fn shots_of_one_side_do_not_cancel() {
    let mut w = World::new(arena(), true);
    w.create_projectile(Position::new(0, 0), true);
    w.create_projectile(Position::new(10, 0), true);
    w.resolve_collisions();
    assert_eq!(w.projectiles.len(), 2);
}

#[test]
fn shot_distance_is_strict() {
    let mut w = World::new(arena(), true);
    // exactly 35 pixels away: no hit
    w.create_projectile(Position::new(-960 + 70, 0), false);
    w.resolve_collisions();
    assert_eq!(w.player.unwrap().health.current_health, 8);
    assert_eq!(w.projectiles.len(), 1);
}

#[test]
fn one_shot_hits_only_the_first_rocket() {
    let mut w = World::new(arena(), true);
    let first = w.create_rocket(Position::new(0, 0), false);
    let second = w.create_rocket(Position::new(10, 0), false);
    w.create_projectile(Position::new(5, 0), true);
    w.resolve_collisions();
    assert_eq!(w.rockets[0].id, first);
    assert_eq!(w.rockets[0].health.current_health, 2);
    assert_eq!(w.rockets[1].id, second);
    assert_eq!(w.rockets[1].health.current_health, 3);
}

#[test]
fn ramming_rocket_is_destroyed_and_costs_player_health() {
    let mut w = World::new(arena(), true);
    // 99 pixels from the player
    w.create_rocket(Position::new(-960 + 198, 0), false);
    w.resolve_collisions();
    assert!(w.rockets.is_empty());
    assert_eq!(w.player.unwrap().health.current_health, 7);
    assert_eq!(w.enemies_destroyed, 0);
}

#[test]
fn player_destroyed_at_zero_health() {
    let mut w = World::new(arena(), true);
    for _ in 0..10 {
        w.create_projectile(Position::new(-960, 0), false);
    }
    w.resolve_collisions();
    assert!(w.player.is_none());
    // the shots after the eighth still strike the player and are spent
    assert!(w.projectiles.is_empty());
}

#[test]
fn destroy_twice_is_destroy_once() {
    let mut w = World::new(arena(), true);
    let r = w.create_rocket(Position::new(0, 0), false);
    let p = w.create_projectile(Position::new(100, 100), true);
    w.destroy(r);
    assert!(w.rockets.is_empty());
    assert_eq!(w.projectiles.len(), 1);
    w.destroy(r);
    assert!(w.rockets.is_empty());
    assert_eq!(w.projectiles.len(), 1);
    w.destroy(p);
    w.destroy(p);
    assert!(w.projectiles.is_empty());
    assert!(w.player.is_some());
    w.destroy(0);
    assert!(w.player.is_none());
    w.destroy(0);
    assert!(w.player.is_none());
}

#[test]
fn player_stays_inside_its_box() {
    let mut w = World::new(arena(), true);
    let up = Intent { x: DirectionX::Left, y: DirectionY::Up, fire: false };
    for _ in 0..200 {
        w.keyboard_input(up);
        w.movement();
        let p = w.player.unwrap();
        assert!(p.pos.y <= 1080 - PLAYER_MARGIN);
        assert!(p.pos.x >= -1920 + PLAYER_MARGIN);
    }
    let p = w.player.unwrap();
    assert_eq!(p.pos.y, 920);
    assert_eq!(p.pos.x, -1760);
    assert_eq!(p.direction_x, DirectionX::Neutral);
    assert_eq!(p.direction_y, DirectionY::Neutral);
    let down = Intent { x: DirectionX::Right, y: DirectionY::Down, fire: false };
    for _ in 0..400 {
        w.keyboard_input(down);
        w.movement();
    }
    let p = w.player.unwrap();
    assert_eq!(p.pos.y, -920);
    assert_eq!(p.pos.x, 1760);
}

#[test]
fn one_player_move_is_one_step() {
    let mut w = World::new(arena(), true);
    w.keyboard_input(Intent { x: DirectionX::Right, y: DirectionY::Down, fire: false });
    w.movement();
    assert_eq!(w.player.unwrap().pos, Position::new(-940, -20));
}

#[test]
fn player_shot_leaves_past_right_edge() {
    let mut w = World::new(arena(), true);
    w.create_projectile(Position::new(1880, 0), true);
    w.movement();
    assert_eq!(w.projectiles[0].pos.x, 1900);
    w.movement();
    assert_eq!(w.projectiles[0].pos.x, 1920);
    w.movement();
    assert!(w.projectiles.is_empty());
}

#[test]
fn rocket_shot_flies_left() {
    let mut w = World::new(arena(), true);
    w.create_projectile(Position::new(-1905, 500), false);
    w.movement();
    assert_eq!(w.projectiles[0].pos, Position::new(-1915, 500));
    w.movement();
    assert!(w.projectiles.is_empty());
}

#[test]
fn timer_fires_and_keeps_remainder() {
    let mut t: u64 = 300;
    assert!(poll_timer(&mut t, 100, 350));
    assert_eq!(t, 50);
    assert!(!poll_timer(&mut t, 100, 350));
    assert_eq!(t, 150);
    assert!(poll_timer(&mut t, 1000, 350));
    assert_eq!(t, 100);
}

#[test]
fn fire_request_waits_for_fire_timer() {
    let mut w = World::new(arena(), true);
    let roll = SpawnRoll { y_offset: 0, armed_die: 0 };
    w.step(100, Intent { x: DirectionX::Neutral, y: DirectionY::Neutral, fire: true }, roll);
    assert!(w.projectiles.is_empty());
    assert!(w.player.unwrap().is_shooting);
    w.step(250, idle(), roll);
    assert_eq!(w.projectiles.len(), 1);
    let shot = w.projectiles[0];
    assert!(shot.is_player_projectile);
    assert_eq!(shot.pos, Position::new(-960, 0));
    assert!(!w.player.unwrap().is_shooting);
    w.step(350, idle(), roll);
    assert_eq!(w.projectiles.len(), 1);
}

#[test]
fn spawn_timer_brings_rocket_at_drawn_height() {
    let mut w = World::new(arena(), true);
    w.step(1999, idle(), SpawnRoll { y_offset: 400, armed_die: 3 });
    assert!(w.rockets.is_empty());
    w.step(1, idle(), SpawnRoll { y_offset: 400, armed_die: 3 });
    assert_eq!(w.rockets.len(), 1);
    let r = w.rockets[0];
    assert_eq!(r.pos, Position::new(1920 + ROCKET_SPAWN_OFFSET, 400));
    assert!(r.is_shooting);
    assert_eq!(r.health, HealthBar { id: r.id + 2, max_health: 3, current_health: 3 });
    assert_eq!(w.owner_of(r.id + 2), Some(r.id));
    w.step(2000, idle(), SpawnRoll { y_offset: -400, armed_die: 2 });
    assert_eq!(w.rockets.len(), 2);
    assert!(!w.rockets[1].is_shooting);
}

#[test]
fn armed_rockets_fire_on_volley_timer() {
    let mut w = World::new(arena(), true);
    w.create_rocket(Position::new(1000, 300), true);
    w.create_rocket(Position::new(1000, -300), false);
    let roll = SpawnRoll { y_offset: 0, armed_die: 0 };
    w.step(1000, idle(), roll);
    assert!(w.projectiles.is_empty());
    w.step(1000, idle(), roll);
    w.step(1000, idle(), roll);
    w.step(500, idle(), roll);
    assert_eq!(w.projectiles.len(), 1);
    let shot = w.projectiles[0];
    assert!(!shot.is_player_projectile);
    assert_eq!(shot.pos.y, 300);
}

#[test]
fn random_ticks_spawn_rockets_across_the_drawn_range() {
    let a = arena();
    let mut w = World::new(a, true);
    let mut heights = Vec::new();
    let mut faces = Vec::new();
    for _ in 0..200 {
        let roll = w.draw_roll();
        assert!(roll.y_offset >= -810 && roll.y_offset < 810);
        assert!(roll.armed_die >= 0 && roll.armed_die < 5);
        heights.push(roll.y_offset);
        faces.push(roll.armed_die);
    }
    assert!(heights.iter().any(|&y| y != heights[0]));
    assert!(faces.iter().any(|&f| f != faces[0]));
    w.tick(2000, idle());
    assert_eq!(w.rockets.len(), 1);
    assert!(w.rockets[0].pos.y >= -810 && w.rockets[0].pos.y < 810);
}

#[test]
fn identifiers_are_fresh() {
    let mut w = World::new(arena(), true);
    let a = w.create_rocket(Position::new(0, 0), false);
    let b = w.create_projectile(Position::new(0, 0), true);
    let c = w.create_rocket(Position::new(0, 0), false);
    let d = w.create_projectile(Position::new(0, 0), true);
    assert_eq!(w.player.unwrap().id, 0);
    assert_eq!(w.player.unwrap().health.id, 2);
    assert_eq!((a, w.rockets[0].health.id), (4, 6));
    assert_eq!((c, w.rockets[1].health.id), (8, 10));
    assert_eq!((b, d), (1, 3));
    assert!(w.has_room());
}

#[test]
fn destroying_a_health_bar_id_leaves_its_ship() {
    let mut w = World::new(arena(), true);
    let r = w.create_rocket(Position::new(0, 0), false);
    w.destroy(r + 2);
    assert_eq!(w.rockets.len(), 1);
    assert_eq!(w.owner_of(r + 2), Some(r));
    w.destroy(2);
    assert!(w.player.is_some());
    assert_eq!(w.owner_of(2), Some(0));
}

#[test]
fn volley_shots_get_consecutive_identifiers() {
    let mut w = World::new(arena(), true);
    w.create_rocket(Position::new(1000, 300), true);
    w.create_rocket(Position::new(1000, 0), false);
    w.create_rocket(Position::new(1000, -300), true);
    let next = w.next_id;
    let shot = w.next_shot_id;
    // the spawn timer fires too, after the volley
    w.step(3500, idle(), SpawnRoll { y_offset: 0, armed_die: 0 });
    assert_eq!(w.projectiles.len(), 2);
    assert_eq!(w.projectiles[0].id, shot);
    assert_eq!(w.projectiles[0].pos.y, 300);
    assert_eq!(w.projectiles[1].id, shot + 2);
    assert_eq!(w.projectiles[1].pos.y, -300);
    assert_eq!(w.next_shot_id, shot + 4);
    assert_eq!(w.rockets.len(), 4);
    assert_eq!(w.rockets[3].id, next);
    assert_eq!(w.rockets[3].health.id, next + 2);
    assert_eq!(w.next_id, next + 4);
}

#[test]
fn ramming_on_last_health_destroys_player_and_every_rocket_in_contact() {
    let mut w = World::new(arena(), true);
    for _ in 0..7 {
        w.create_projectile(Position::new(-960, 0), false);
    }
    w.resolve_collisions();
    assert_eq!(w.player.unwrap().health.current_health, 1);
    w.create_rocket(Position::new(-960, 10), false);
    w.create_rocket(Position::new(-960, -10), false);
    w.create_rocket(Position::new(0, 0), false);
    w.resolve_collisions();
    assert!(w.player.is_none());
    assert_eq!(w.rockets.len(), 1);
    assert_eq!(w.rockets[0].pos, Position::new(0, 0));
    assert_eq!(w.enemies_destroyed, 0);
}

#[test]
fn player_shot_between_two_rocket_shots_removes_all_three() {
    let mut w = World::new(arena(), true);
    w.create_projectile(Position::new(0, 0), true);
    w.create_projectile(Position::new(-20, 0), false);
    w.create_projectile(Position::new(20, 0), false);
    w.create_projectile(Position::new(500, 500), false);
    w.resolve_collisions();
    assert_eq!(w.projectiles.len(), 1);
    assert_eq!(w.projectiles[0].pos, Position::new(500, 500));
}

#[test]
fn chain_of_opposite_shots_all_go() {
    let mut w = World::new(arena(), true);
    w.create_projectile(Position::new(0, 0), false);
    w.create_projectile(Position::new(60, 0), true);
    w.create_projectile(Position::new(120, 0), false);
    w.create_projectile(Position::new(180, 0), false);
    w.resolve_collisions();
    // the last one is 60 units from a rocket shot only
    assert_eq!(w.projectiles.len(), 1);
    assert_eq!(w.projectiles[0].pos, Position::new(180, 0));
}

#[test]
fn second_shot_at_a_rocket_killed_in_the_pass_is_spent_and_counted_once() {
    let mut w = World::new(arena(), true);
    w.create_rocket(Position::new(0, 0), false);
    w.create_projectile(Position::new(10, 0), true);
    w.create_projectile(Position::new(10, 0), true);
    w.resolve_collisions();
    assert_eq!(w.rockets[0].health.current_health, 1);
    assert_eq!(w.enemies_destroyed, 0);
    w.create_projectile(Position::new(10, 0), true);
    w.create_projectile(Position::new(-10, 0), true);
    w.resolve_collisions();
    assert!(w.rockets.is_empty());
    assert!(w.projectiles.is_empty());
    assert_eq!(w.enemies_destroyed, 1);
}

#[test]
fn shots_at_a_player_killed_in_the_pass_are_spent() {
    let mut w = World::new(arena(), true);
    for _ in 0..7 {
        w.create_projectile(Position::new(-960, 0), false);
    }
    w.resolve_collisions();
    w.create_projectile(Position::new(-950, 0), false);
    w.create_projectile(Position::new(-970, 0), false);
    w.create_projectile(Position::new(0, 500), true);
    w.resolve_collisions();
    assert!(w.player.is_none());
    assert_eq!(w.projectiles.len(), 1);
    assert!(w.projectiles[0].is_player_projectile);
}
