//! Scenario tests for the simulation engine, all in fixed-point units:
//! one world unit is 10_000 coordinate units, one second is 10_000 time
//! units.

use pixel_mobs_guns::game::{
    Engine, CONTACT_DAMAGE, DT_LIMIT, ENEMY_BULLET_HIT_DIST2, PLAYER_ENEMY_HIT_DIST2,
    START_HEALTH,
};
use pixel_mobs_guns::geom::COORD_LIMIT;
use pixel_mobs_guns::vec2::Vec2;

fn dist2(a: Vec2, b: Vec2) -> i128 {
    let dx = a.x as i128 - b.x as i128;
    let dy = a.y as i128 - b.y as i128;
    dx * dx + dy * dy
}

#[test]
fn fresh_engine_state() {
    let eng = Engine::new();
    assert_eq!(eng.player_position(), Vec2::new(0, 0));
    assert_eq!(eng.player_health(), START_HEALTH);
    assert_eq!(eng.enemy_count(), 0);
    assert_eq!(eng.bullet_count(), 0);
}

#[test]
fn bullet_moves_exactly() {
    // One world unit per second for one second: 10_000 units of motion.
    let mut eng = Engine::new();
    eng.spawn_bullet(Vec2::new(0, 0), Vec2::new(10_000, 0));
    eng.update(10_000);
    assert_eq!(eng.bullet_count(), 1);
    assert_eq!(eng.bullet_at(0).position, Vec2::new(10_000, 0));
    assert_eq!(eng.bullet_at(0).velocity, Vec2::new(10_000, 0));
}

#[test]
fn bullet_motion_scales_with_dt() {
    let mut eng = Engine::new();
    eng.spawn_bullet(Vec2::new(100, -200), Vec2::new(10_000, -20_000));
    eng.update(5_000);
    assert_eq!(eng.bullet_at(0).position, Vec2::new(5_100, -10_200));
}

#[test]
fn bullet_motion_rounds_toward_zero() {
    // 3 units/s for 0.0003 s is 0.9 of a unit along each axis: rounded to 0
    // moving right, and to 0 moving left (not toward minus infinity).
    let mut eng = Engine::new();
    eng.spawn_bullet(Vec2::new(0, 0), Vec2::new(3, -3));
    eng.update(3_000);
    assert_eq!(eng.bullet_at(0).position, Vec2::new(0, 0));
}

#[test]
fn bullet_saturates_at_world_bound() {
    let mut eng = Engine::new();
    eng.spawn_bullet(Vec2::new(COORD_LIMIT, 0), Vec2::new(10_000, 0));
    eng.update(10_000);
    assert_eq!(eng.bullet_at(0).position, Vec2::new(COORD_LIMIT, 0));
}

#[test]
fn delta_time_is_capped() {
    let mut a = Engine::new();
    a.spawn_bullet(Vec2::new(0, 0), Vec2::new(10_000, 0));
    a.update(u64::MAX);
    let mut b = Engine::new();
    b.spawn_bullet(Vec2::new(0, 0), Vec2::new(10_000, 0));
    b.update(DT_LIMIT);
    assert_eq!(a.bullet_at(0).position, b.bullet_at(0).position);
    assert_eq!(a.bullet_at(0).position, Vec2::new(864_000_000, 0));
}

#[test]
fn homing_moves_toward_player_exact_value() {
    // Enemy two world units to the right of the player: steering length
    // 20_001, speed capped at 10_000, displacement
    // 20_000 * 10_000 * 10_000 / (20_001 * 10_000) rounded down = 9_999.
    let mut eng = Engine::new();
    eng.spawn_enemy(Vec2::new(20_000, 0), 0);
    eng.update(10_000);
    assert_eq!(eng.enemy_count(), 1);
    assert_eq!(eng.enemy_at(0).position, Vec2::new(10_001, 0));
}

#[test]
fn homing_reaches_player_when_speed_matches_distance() {
    // At 200 units the steering length is 201, within the speed band, so
    // one full second of homing lands the enemy exactly on the player.
    let mut eng = Engine::new();
    eng.spawn_enemy(Vec2::new(200, 0), 0);
    eng.update(10_000);
    assert_eq!(eng.enemy_at(0).position, Vec2::new(0, 0));
    // Contact at distance zero: one frame of damage was dealt.
    assert_eq!(eng.player_health(), START_HEALTH - CONTACT_DAMAGE);
}

#[test]
fn homing_floor_speed_can_overshoot() {
    // At 50 units the steering length is 51, below the floor speed of 100:
    // displacement 50 * 100 * 10_000 / (51 * 10_000) = 98, past the player.
    let mut eng = Engine::new();
    eng.spawn_enemy(Vec2::new(50, 0), 0);
    eng.update(10_000);
    assert_eq!(eng.enemy_at(0).position, Vec2::new(-48, 0));
}

#[test]
fn homing_converges_to_contact() {
    // A stationary player and a fixed 0.1 s delta: the squared distance
    // falls strictly every frame until contact.
    let mut eng = Engine::new();
    eng.spawn_enemy(Vec2::new(20_000, 20_000), 0);
    let player = eng.player_position();
    let mut d2 = dist2(eng.enemy_at(0).position, player);
    let mut reached = false;
    for _frame in 0..400 {
        eng.update(1_000);
        let nd2 = dist2(eng.enemy_at(0).position, player);
        if d2 >= PLAYER_ENEMY_HIT_DIST2 as i128 {
            assert!(nd2 < d2, "homing stalled at squared distance {d2}");
        }
        d2 = nd2;
        if d2 < PLAYER_ENEMY_HIT_DIST2 as i128 {
            reached = true;
            break;
        }
    }
    assert!(reached, "enemy never reached the contact threshold");
}

#[test]
fn contact_damage_once_per_enemy_per_frame() {
    let mut eng = Engine::new();
    eng.spawn_enemy(Vec2::new(0, 0), 0);
    eng.update(0);
    assert_eq!(eng.player_health(), START_HEALTH - CONTACT_DAMAGE);
    // The enemy stays in contact: the next frame costs the same again.
    eng.update(0);
    assert_eq!(eng.player_health(), START_HEALTH - 2 * CONTACT_DAMAGE);
}

#[test]
fn contact_damage_counts_every_qualifying_enemy() {
    let mut eng = Engine::new();
    eng.spawn_enemy(Vec2::new(0, 0), 0);
    eng.spawn_enemy(Vec2::new(500, 0), 0);
    eng.spawn_enemy(Vec2::new(50_000, 0), 0); // far outside the threshold
    eng.update(0);
    assert_eq!(eng.player_health(), START_HEALTH - 2 * CONTACT_DAMAGE);
}

#[test]
fn contact_damage_is_order_independent() {
    let spots = [Vec2::new(0, 0), Vec2::new(400, 300), Vec2::new(50_000, 0), Vec2::new(-600, 0)];
    let mut forward = Engine::new();
    for s in spots.iter() {
        forward.spawn_enemy(*s, 0);
    }
    forward.update(0);
    let mut backward = Engine::new();
    for s in spots.iter().rev() {
        backward.spawn_enemy(*s, 0);
    }
    backward.update(0);
    assert_eq!(forward.player_health(), backward.player_health());
    assert_eq!(forward.player_health(), START_HEALTH - 3 * CONTACT_DAMAGE);
}

#[test]
fn health_reaches_zero_and_goes_below() {
    let mut eng = Engine::new();
    for _ in 0..20 {
        eng.spawn_enemy(Vec2::new(0, 0), 0);
    }
    eng.update(0);
    assert_eq!(eng.player_health(), 0);
    let mut eng2 = Engine::new();
    for _ in 0..21 {
        eng2.spawn_enemy(Vec2::new(0, 0), 0);
    }
    eng2.update(0);
    assert_eq!(eng2.player_health(), -(CONTACT_DAMAGE));
}

#[test]
fn bullet_kills_enemy_at_same_position() {
    // Enemy and bullet coincide far away from the player: one frame with a
    // zero delta removes the enemy and leaves the bullet untouched.
    let mut eng = Engine::new();
    eng.spawn_enemy(Vec2::new(30_000, 0), 0);
    eng.spawn_bullet(Vec2::new(30_000, 0), Vec2::new(0, 0));
    eng.update(0);
    assert_eq!(eng.enemy_count(), 0);
    assert_eq!(eng.bullet_count(), 1);
    assert_eq!(eng.bullet_at(0).position, Vec2::new(30_000, 0));
    assert_eq!(eng.bullet_at(0).velocity, Vec2::new(0, 0));
    assert_eq!(eng.player_health(), START_HEALTH);
}

#[test]
fn one_bullet_kills_several_enemies() {
    // Bullets are never consumed: both enemies within reach of the same
    // bullet die in the same frame.
    let mut eng = Engine::new();
    eng.spawn_enemy(Vec2::new(30_000, 0), 0);
    eng.spawn_enemy(Vec2::new(30_500, 0), 0);
    eng.spawn_bullet(Vec2::new(30_250, 0), Vec2::new(0, 0));
    eng.update(0);
    assert_eq!(eng.enemy_count(), 0);
    assert_eq!(eng.bullet_count(), 1);
}

#[test]
fn enemy_just_outside_kill_radius_survives() {
    // The kill threshold is squared distance 1_010_000: 1005 units away is
    // past it, 1004 units is within.
    assert_eq!(ENEMY_BULLET_HIT_DIST2, 1_010_000);
    let mut eng = Engine::new();
    eng.spawn_enemy(Vec2::new(30_000, 1_005), 0);
    eng.spawn_enemy(Vec2::new(30_000, -1_004), 0);
    eng.spawn_bullet(Vec2::new(30_000, 0), Vec2::new(0, 0));
    eng.update(0);
    assert_eq!(eng.enemy_count(), 1);
    assert_eq!(eng.enemy_at(0).position, Vec2::new(30_000, 1_005));
}

#[test]
fn survivors_keep_their_order() {
    // Enemies [a, b, c] where only b is touched by a bullet: the next
    // frame holds [a, c] in that order.
    let a = Vec2::new(50_000, 0);
    let b = Vec2::new(50_000, 50_000);
    let c = Vec2::new(0, 50_000);
    let mut eng = Engine::new();
    eng.spawn_enemy(a, 1);
    eng.spawn_enemy(b, 2);
    eng.spawn_enemy(c, 3);
    eng.spawn_bullet(b, Vec2::new(0, 0));
    eng.update(0);
    assert_eq!(eng.enemy_count(), 2);
    assert_eq!(eng.enemy_at(0).position, a);
    assert_eq!(eng.enemy_at(0).health, 1);
    assert_eq!(eng.enemy_at(1).position, c);
    assert_eq!(eng.enemy_at(1).health, 3);
}

#[test]
fn no_entities_no_damage() {
    let mut eng = Engine::new();
    eng.move_player(Vec2::new(123, -456));
    eng.update(10_000);
    assert_eq!(eng.player_health(), START_HEALTH);
    assert_eq!(eng.player_position(), Vec2::new(123, -456));
    assert_eq!(eng.enemy_count(), 0);
    assert_eq!(eng.bullet_count(), 0);
}

#[test]
fn zero_delta_moves_nothing_but_still_collides() {
    let mut eng = Engine::new();
    eng.spawn_enemy(Vec2::new(40_000, -7), 0);
    eng.spawn_bullet(Vec2::new(-3, 9), Vec2::new(10_000, 10_000));
    eng.update(0);
    assert_eq!(eng.enemy_at(0).position, Vec2::new(40_000, -7));
    assert_eq!(eng.bullet_at(0).position, Vec2::new(-3, 9));
    // Collision logic still ran on the standing positions: the bullet is
    // close enough to nothing, the enemy far from the player.
    assert_eq!(eng.enemy_count(), 1);
    assert_eq!(eng.player_health(), START_HEALTH);
    // A contact pair shows the logic does execute at zero delta.
    let mut contact = Engine::new();
    contact.spawn_enemy(Vec2::new(100, 100), 0);
    contact.update(0);
    assert_eq!(contact.player_health(), START_HEALTH - CONTACT_DAMAGE);
}

#[test]
fn player_moves_by_displacement() {
    let mut eng = Engine::new();
    eng.move_player(Vec2::new(5, 7));
    eng.move_player(Vec2::new(-2, 3));
    assert_eq!(eng.player_position(), Vec2::new(3, 10));
    assert_eq!(eng.player_health(), START_HEALTH);
}

#[test]
fn player_position_saturates_at_world_bound() {
    let mut eng = Engine::new();
    eng.move_player(Vec2::new(i64::MAX, i64::MIN));
    assert_eq!(eng.player_position(), Vec2::new(COORD_LIMIT, -COORD_LIMIT));
}

#[test]
fn spawn_points_saturate_at_world_bound() {
    let mut eng = Engine::new();
    eng.spawn_enemy(Vec2::new(i64::MAX, 5), -17);
    assert_eq!(eng.enemy_at(0).position, Vec2::new(COORD_LIMIT, 5));
    assert_eq!(eng.enemy_at(0).health, -17);
    eng.spawn_bullet(Vec2::new(3, i64::MIN), Vec2::new(4, 4));
    assert_eq!(eng.bullet_at(0).position, Vec2::new(3, -COORD_LIMIT));
}

#[test]
fn enemy_health_is_carried_but_never_used() {
    // The collision rules ignore enemy health entirely: a dead-on-paper
    // enemy still deals contact damage and still dies only to a bullet.
    let mut eng = Engine::new();
    eng.spawn_enemy(Vec2::new(0, 0), -1_000);
    eng.update(0);
    assert_eq!(eng.player_health(), START_HEALTH - CONTACT_DAMAGE);
    assert_eq!(eng.enemy_count(), 1);
    assert_eq!(eng.enemy_at(0).health, -1_000);
}

#[test]
fn player_enemy_threshold_value() {
    // The threshold is the sum of the squared radii, not the square of the
    // summed radii: 500^2 + 1000^2, not 1500^2.
    assert_eq!(PLAYER_ENEMY_HIT_DIST2, 1_250_000);
    let mut inside = Engine::new();
    inside.spawn_enemy(Vec2::new(1_118, 0), 0);
    inside.update(0);
    assert_eq!(inside.player_health(), START_HEALTH - CONTACT_DAMAGE);
    let mut outside = Engine::new();
    outside.spawn_enemy(Vec2::new(1_119, 0), 0);
    outside.update(0);
    assert_eq!(outside.player_health(), START_HEALTH);
}
