//! The simulation engine: one player, homing enemies, player-fired bullets.
//!
//! Everything is fixed-point: one world unit is `SCALE` coordinate units and
//! one second is `SCALE` time units.  The per-frame `update` runs four stages
//! in order: bullet integration, enemy homing, player-enemy contact damage,
//! and enemy removal by bullet contact.

use vstd::prelude::*;
use crate::vec2::Vec2;
use crate::geom::{
    coord_ok, dist2, dist2_exec, isqrt, lemma_mul_le, sqrt_floor, vec_ok, COORD_LIMIT,
    SQRT_SEARCH_LIMIT,
};

verus! {

/// Fixed-point scale: coordinate units per world unit, and time units per
/// second.  A speed of one world unit per second moves a point by one
/// coordinate unit per time unit.
pub const SCALE: i64 = 10_000;

/// Player collision radius: 0.05 world units.
pub const PLAYER_RADIUS: i64 = 500;

/// Enemy collision radius: 0.1 world units.
pub const ENEMY_RADIUS: i64 = 1_000;

/// Bullet collision radius: 0.01 world units.
pub const BULLET_RADIUS: i64 = 100;

/// Squared-distance threshold for player-enemy contact.  Deliberately the
/// sum of the squared radii, not the square of the summed radii.
pub const PLAYER_ENEMY_HIT_DIST2: i64 = PLAYER_RADIUS * PLAYER_RADIUS + ENEMY_RADIUS
    * ENEMY_RADIUS;

/// Squared-distance threshold for enemy-bullet contact, in the same form.
pub const ENEMY_BULLET_HIT_DIST2: i64 = ENEMY_RADIUS * ENEMY_RADIUS + BULLET_RADIUS
    * BULLET_RADIUS;

/// Health the player starts with: 100 points, fixed-point like coordinates.
pub const START_HEALTH: i64 = 1_000_000;

/// Health lost per frame for each enemy in contact: 5 points.
pub const CONTACT_DAMAGE: i64 = 50_000;

/// Additive term on the homing steering length, so that the steering
/// direction is defined even when enemy and player coincide: 0.0001 world
/// units.
pub const HOMING_EPS: i64 = 1;

/// Floor of the homing speed: 0.01 world units per second.
pub const HOMING_MIN_SPEED: i64 = 100;

/// Ceiling of the homing speed: 1 world unit per second.
pub const HOMING_MAX_SPEED: i64 = 10_000;

/// Longest time delta a single update integrates: one day.  A larger
/// `delta_time` is taken as this value.
pub const DT_LIMIT: u64 = 864_000_000;

/// The player avatar: a position and a health score.
#[derive(Clone, Copy, PartialEq, Eq, Structural, Debug)]
pub struct Player {
    pub position: Vec2,
    pub health: i64,
}

/// A homing enemy.  The health field is carried for the data model but the
/// collision rules never read it: enemies die by bullet contact alone.
#[derive(Clone, Copy, PartialEq, Eq, Structural, Debug)]
pub struct Enemy {
    pub position: Vec2,
    pub health: i64,
}

/// A bullet: constant velocity, never removed by the engine.
#[derive(Clone, Copy, PartialEq, Eq, Structural, Debug)]
pub struct Bullet {
    pub position: Vec2,
    pub velocity: Vec2,
}

/// Clamps a coordinate into the world bounds.
pub open spec fn clamp_coord(x: int) -> int {
    if x < -(COORD_LIMIT as int) {
        -(COORD_LIMIT as int)
    } else if x > COORD_LIMIT as int {
        COORD_LIMIT as int
    } else {
        x
    }
}

/// Clamps both coordinates of a vector into the world bounds.
pub open spec fn clamp_vec(v: Vec2) -> Vec2 {
    Vec2 { x: clamp_coord(v.x as int) as i64, y: clamp_coord(v.y as int) as i64 }
}

/// The time delta a single update integrates: `delta_time`, capped at
/// `DT_LIMIT`.
pub open spec fn eff_dt(dt: int) -> int {
    if dt > DT_LIMIT as int {
        DT_LIMIT as int
    } else {
        dt
    }
}

/// `v * dt / SCALE`, rounded toward zero: the displacement along one axis of
/// a point moving at `v` coordinate units per second for `dt` time units.
pub open spec fn scaled_disp(v: int, dt: int) -> int {
    if v >= 0 {
        (v * dt) / (SCALE as int)
    } else {
        -(((-v) * dt) / (SCALE as int))
    }
}

/// One frame of bullet motion: the position advances by `velocity * dt`,
/// saturating at the world bounds; the velocity never changes.
pub open spec fn bullet_step(b: Bullet, dt: int) -> Bullet {
    Bullet {
        position: Vec2 {
            x: clamp_coord(b.position.x + scaled_disp(b.velocity.x as int, dt)) as i64,
            y: clamp_coord(b.position.y + scaled_disp(b.velocity.y as int, dt)) as i64,
        },
        velocity: b.velocity,
    }
}

/// The homing steering length: the enemy-to-player distance rounded down,
/// plus `HOMING_EPS` so it is never zero.
pub open spec fn homing_len(e: Vec2, p: Vec2) -> int {
    sqrt_floor(dist2(p, e)) + HOMING_EPS
}

/// The homing speed: the steering length, clamped between
/// `HOMING_MIN_SPEED` and `HOMING_MAX_SPEED` (distance-clamped homing).
pub open spec fn homing_speed(len: int) -> int {
    if len < HOMING_MIN_SPEED as int {
        HOMING_MIN_SPEED as int
    } else if len > HOMING_MAX_SPEED as int {
        HOMING_MAX_SPEED as int
    } else {
        len
    }
}

/// `d * speed * dt / (len * SCALE)`, rounded toward zero: the displacement
/// along one axis of an enemy steering along `d` with the given speed.
pub open spec fn homing_disp(d: int, speed: int, len: int, dt: int) -> int {
    if d >= 0 {
        (d * speed * dt) / (len * (SCALE as int))
    } else {
        -(((-d) * speed * dt) / (len * (SCALE as int)))
    }
}

/// One frame of enemy homing: the enemy moves toward the player's current
/// position along the steering vector, at the distance-clamped speed,
/// saturating at the world bounds.  Health is untouched.
pub open spec fn homing_step(e: Enemy, p: Vec2, dt: int) -> Enemy {
    let dx = p.x - e.position.x;
    let dy = p.y - e.position.y;
    let len = homing_len(e.position, p);
    let sp = homing_speed(len);
    Enemy {
        position: Vec2 {
            x: clamp_coord(e.position.x + homing_disp(dx, sp, len, dt)) as i64,
            y: clamp_coord(e.position.y + homing_disp(dy, sp, len, dt)) as i64,
        },
        health: e.health,
    }
}

/// All bullets after one frame of motion, in order.
pub open spec fn stepped_bullets(bs: Seq<Bullet>, dt: int) -> Seq<Bullet> {
    Seq::new(bs.len(), |i: int| bullet_step(bs[i], dt))
}

/// All enemies after one frame of homing toward `p`, in order.
pub open spec fn homed_enemies(es: Seq<Enemy>, p: Vec2, dt: int) -> Seq<Enemy> {
    Seq::new(es.len(), |i: int| homing_step(es[i], p, dt))
}

/// The enemy is close enough to the player to inflict contact damage.
pub open spec fn touches_player(e: Enemy, p: Vec2) -> bool {
    dist2(e.position, p) < PLAYER_ENEMY_HIT_DIST2 as int
}

/// How many of the enemies inflict contact damage this frame.
pub open spec fn hit_count(es: Seq<Enemy>, p: Vec2) -> int
    decreases es.len(),
{
    if es.len() == 0 {
        0
    } else {
        hit_count(es.drop_last(), p) + if touches_player(es.last(), p) {
            1int
        } else {
            0int
        }
    }
}

/// Some bullet is close enough to the enemy to destroy it.
pub open spec fn hit_by_bullet(e: Enemy, bs: Seq<Bullet>) -> bool {
    exists|j: int|
        0 <= j < bs.len() && dist2(e.position, (#[trigger] bs[j]).position) < ENEMY_BULLET_HIT_DIST2
            as int
}

/// The enemies no bullet touches, in their original relative order.
pub open spec fn surviving_enemies(es: Seq<Enemy>, bs: Seq<Bullet>) -> Seq<Enemy>
    decreases es.len(),
{
    if es.len() == 0 {
        es
    } else {
        let rest = surviving_enemies(es.drop_last(), bs);
        if hit_by_bullet(es.last(), bs) {
            rest
        } else {
            rest.push(es.last())
        }
    }
}

/// Health after losing `d`: plain subtraction, saturating at the bottom of
/// the representable range.
pub open spec fn sat_health(h: int) -> int {
    if h < i64::MIN {
        i64::MIN as int
    } else {
        h
    }
}

/// The simulation engine: all gameplay state, advanced by `update`.
pub struct Engine {
    player: Player,
    enemies: Vec<Enemy>,
    bullets: Vec<Bullet>,
}

/// The mathematical content of an `Engine`: the player and the ordered
/// enemy and bullet collections.
pub struct EngineView {
    pub player: Player,
    pub enemies: Seq<Enemy>,
    pub bullets: Seq<Bullet>,
}

impl View for Engine {
    type V = EngineView;

    closed spec fn view(&self) -> EngineView {
        EngineView { player: self.player, enemies: self.enemies@, bullets: self.bullets@ }
    }
}

impl Engine {
    /// Every position and velocity the engine holds is inside the world
    /// bounds.  Constructors establish this and every method keeps it.
    pub open spec fn wf(self) -> bool {
        &&& vec_ok(self@.player.position)
        &&& forall|i: int|
            0 <= i < self@.enemies.len() ==> vec_ok((#[trigger] self@.enemies[i]).position)
        &&& forall|i: int|
            0 <= i < self@.bullets.len() ==> vec_ok((#[trigger] self@.bullets[i]).position)
                && vec_ok(self@.bullets[i].velocity)
    }

    /// A fresh engine: the player at the origin with full health, no
    /// enemies, no bullets.
    pub fn new() -> (r: Engine)
        ensures
            r.wf(),
            r@.player.position == (Vec2 { x: 0, y: 0 }),
            r@.player.health == START_HEALTH,
            r@.enemies == Seq::<Enemy>::empty(),
            r@.bullets == Seq::<Bullet>::empty(),
    {
        let e = Engine {
            player: Player { position: Vec2 { x: 0, y: 0 }, health: START_HEALTH },
            enemies: Vec::new(),
            bullets: Vec::new(),
        };
        proof {
            assert(e@.enemies =~= Seq::<Enemy>::empty());
            assert(e@.bullets =~= Seq::<Bullet>::empty());
        }
        e
    }

    /// Appends an enemy at the given position (saturated into the world
    /// bounds) with the given health.  Nothing else changes.
    pub fn spawn_enemy(&mut self, position: Vec2, health: i64)
        requires
            old(self).wf(),
        ensures
            final(self).wf(),
            final(self)@.enemies == old(self)@.enemies.push(
                Enemy { position: clamp_vec(position), health: health },
            ),
            final(self)@.player == old(self)@.player,
            final(self)@.bullets == old(self)@.bullets,
    {
        let p = clamp_vec_exec(position);
        self.enemies.push(Enemy { position: p, health });
        proof {
            assert forall|i: int|
                0 <= i < self@.enemies.len() implies vec_ok(
                (#[trigger] self@.enemies[i]).position,
            ) by {
                if i < old(self)@.enemies.len() {
                    assert(self@.enemies[i] == old(self)@.enemies[i]);
                }
            }
            assert(self@.bullets == old(self)@.bullets);
            assert(self@.player == old(self)@.player);
        }
    }

    /// Appends a bullet with the given position and velocity, each
    /// saturated into the world bounds.  The velocity is stored as handed
    /// in: the engine neither normalizes nor validates it.
    pub fn spawn_bullet(&mut self, position: Vec2, velocity: Vec2)
        requires
            old(self).wf(),
        ensures
            final(self).wf(),
            final(self)@.bullets == old(self)@.bullets.push(
                Bullet { position: clamp_vec(position), velocity: clamp_vec(velocity) },
            ),
            final(self)@.player == old(self)@.player,
            final(self)@.enemies == old(self)@.enemies,
    {
        let p = clamp_vec_exec(position);
        let v = clamp_vec_exec(velocity);
        self.bullets.push(Bullet { position: p, velocity: v });
        proof {
            assert forall|i: int|
                0 <= i < self@.bullets.len() implies vec_ok(
                (#[trigger] self@.bullets[i]).position,
            ) && vec_ok(self@.bullets[i].velocity) by {
                if i < old(self)@.bullets.len() {
                    assert(self@.bullets[i] == old(self)@.bullets[i]);
                }
            }
            assert(self@.enemies == old(self)@.enemies);
            assert(self@.player == old(self)@.player);
        }
    }

    /// Adds a displacement to the player's position, saturating at the
    /// world bounds.  Health and the collections are untouched.
    pub fn move_player(&mut self, delta: Vec2)
        requires
            old(self).wf(),
        ensures
            final(self).wf(),
            final(self)@.player.position.x as int == clamp_coord(
                old(self)@.player.position.x + delta.x,
            ),
            final(self)@.player.position.y as int == clamp_coord(
                old(self)@.player.position.y + delta.y,
            ),
            final(self)@.player.health == old(self)@.player.health,
            final(self)@.enemies == old(self)@.enemies,
            final(self)@.bullets == old(self)@.bullets,
    {
        let nx = clamp_i128((self.player.position.x as i128) + (delta.x as i128));
        let ny = clamp_i128((self.player.position.y as i128) + (delta.y as i128));
        self.player.position = Vec2 { x: nx, y: ny };
        proof {
            assert(self@.enemies == old(self)@.enemies);
            assert(self@.bullets == old(self)@.bullets);
        }
    }

    /// The player's current position.
    pub fn player_position(&self) -> (r: Vec2)
        ensures
            r == self@.player.position,
    {
        self.player.position
    }

    /// The player's current health.  The engine only ever lowers it; game
    /// over handling is the caller's business.
    pub fn player_health(&self) -> (r: i64)
        ensures
            r == self@.player.health,
    {
        self.player.health
    }

    /// How many enemies are alive.
    pub fn enemy_count(&self) -> (r: usize)
        ensures
            r == self@.enemies.len(),
    {
        self.enemies.len()
    }

    /// The enemy at a position of the collection.
    pub fn enemy_at(&self, i: usize) -> (r: Enemy)
        requires
            i < self@.enemies.len(),
        ensures
            r == self@.enemies[i as int],
    {
        self.enemies[i]
    }

    /// How many bullets are in flight.
    pub fn bullet_count(&self) -> (r: usize)
        ensures
            r == self@.bullets.len(),
    {
        self.bullets.len()
    }

    /// The bullet at a position of the collection.
    pub fn bullet_at(&self, i: usize) -> (r: Bullet)
        requires
            i < self@.bullets.len(),
        ensures
            r == self@.bullets[i as int],
    {
        self.bullets[i]
    }

    /// One frame of simulation, in this exact order: every bullet advances
    /// by its velocity; every enemy homes toward the player's current
    /// position; each enemy in contact with the player costs
    /// `CONTACT_DAMAGE` health, once per enemy per frame, with no floor at
    /// zero; then every enemy touched by any bullet is dropped, the
    /// survivors keeping their relative order.  Bullets are never consumed:
    /// removal tests each enemy against the whole moved bullet collection.
    ///
    /// `delta_time` counts time units (`SCALE` per second) and is taken as
    /// `DT_LIMIT` when larger.
    pub fn update(&mut self, delta_time: u64)
        requires
            old(self).wf(),
        ensures
            final(self).wf(),
            final(self)@.player.position == old(self)@.player.position,
            final(self)@.bullets == stepped_bullets(
                old(self)@.bullets,
                eff_dt(delta_time as int),
            ),
            final(self)@.player.health as int == sat_health(
                old(self)@.player.health - CONTACT_DAMAGE * hit_count(
                    homed_enemies(
                        old(self)@.enemies,
                        old(self)@.player.position,
                        eff_dt(delta_time as int),
                    ),
                    old(self)@.player.position,
                ),
            ),
            final(self)@.enemies == surviving_enemies(
                homed_enemies(
                    old(self)@.enemies,
                    old(self)@.player.position,
                    eff_dt(delta_time as int),
                ),
                stepped_bullets(old(self)@.bullets, eff_dt(delta_time as int)),
            ),
    {
        let dt: u64 = if delta_time > DT_LIMIT {
            DT_LIMIT
        } else {
            delta_time
        };
        proof {
            assert(dt as int == eff_dt(delta_time as int));
        }
        // Stage 1: bullet integration.
        let n = self.bullets.len();
        let mut i: usize = 0;
        while i < n
            invariant
                old(self).wf(),
                n == old(self)@.bullets.len(),
                self.bullets.len() == n,
                i <= n,
                dt <= DT_LIMIT,
                self@.player == old(self)@.player,
                self@.enemies == old(self)@.enemies,
                forall|j: int|
                    0 <= j < i ==> #[trigger] self@.bullets[j] == bullet_step(
                        old(self)@.bullets[j],
                        dt as int,
                    ) && vec_ok(self@.bullets[j].position) && vec_ok(self@.bullets[j].velocity),
                forall|j: int| i <= j < n ==> #[trigger] self@.bullets[j] == old(self)@.bullets[j],
            decreases n - i,
        {
            let b = self.bullets[i];
            proof {
                assert(self@.bullets == self.bullets@);
                assert(b == old(self)@.bullets[i as int]);
            }
            let nb = step_bullet_exec(b, dt);
            self.bullets[i] = nb;
            i += 1;
        }
        proof {
            assert(self@.bullets =~= stepped_bullets(old(self)@.bullets, dt as int));
        }
        let ghost moved_bullets = self@.bullets;
        // Stage 2: enemy homing toward the player's current position.
        let pp = self.player.position;
        let m = self.enemies.len();
        let mut k: usize = 0;
        while k < m
            invariant
                old(self).wf(),
                m == old(self)@.enemies.len(),
                self.enemies.len() == m,
                k <= m,
                dt <= DT_LIMIT,
                pp == old(self)@.player.position,
                self@.player == old(self)@.player,
                self@.bullets == moved_bullets,
                forall|j: int|
                    0 <= j < k ==> #[trigger] self@.enemies[j] == homing_step(
                        old(self)@.enemies[j],
                        pp,
                        dt as int,
                    ) && vec_ok(self@.enemies[j].position),
                forall|j: int| k <= j < m ==> #[trigger] self@.enemies[j] == old(self)@.enemies[j],
            decreases m - k,
        {
            let e = self.enemies[k];
            proof {
                assert(self@.enemies == self.enemies@);
                assert(e == old(self)@.enemies[k as int]);
            }
            let ne = step_enemy_exec(e, pp, dt);
            self.enemies[k] = ne;
            k += 1;
        }
        proof {
            assert(self@.enemies =~= homed_enemies(
                old(self)@.enemies,
                old(self)@.player.position,
                dt as int,
            ));
        }
        let ghost moved = self@.enemies;
        let ghost health0 = self@.player.health as int;
        // Stage 3: player-enemy contact damage, once per qualifying enemy.
        let mut di: usize = 0;
        while di < m
            invariant
                m == moved.len(),
                self.enemies.len() == m,
                di <= m,
                pp == old(self)@.player.position,
                self@.enemies == moved,
                self@.bullets == moved_bullets,
                self@.player.position == old(self)@.player.position,
                vec_ok(pp),
                forall|j: int| 0 <= j < m ==> vec_ok((#[trigger] moved[j]).position),
                self@.player.health as int == sat_health(
                    health0 - CONTACT_DAMAGE * hit_count(moved.subrange(0, di as int), pp),
                ),
            decreases m - di,
        {
            let e = self.enemies[di];
            let d2 = dist2_exec(e.position, pp);
            proof {
                assert(moved.subrange(0, di as int + 1).drop_last() =~= moved.subrange(
                    0,
                    di as int,
                ));
                assert(moved.subrange(0, di as int + 1).last() == moved[di as int]);
                lemma_sat_chain(
                    health0 - CONTACT_DAMAGE * hit_count(moved.subrange(0, di as int), pp),
                    CONTACT_DAMAGE as int,
                );
            }
            if d2 < PLAYER_ENEMY_HIT_DIST2 as u128 {
                self.player.health = sat_sub_health(self.player.health, CONTACT_DAMAGE);
            }
            di += 1;
        }
        proof {
            assert(moved.subrange(0, m as int) =~= moved);
        }
        // Stage 4: drop every enemy some bullet touches; bullets are never
        // consumed, so each enemy is tested against the whole collection.
        let mut kept: Vec<Enemy> = Vec::new();
        let mut fi: usize = 0;
        while fi < m
            invariant
                m == moved.len(),
                self.enemies.len() == m,
                fi <= m,
                self@.enemies == moved,
                self@.bullets == moved_bullets,
                forall|j: int| 0 <= j < m ==> vec_ok((#[trigger] moved[j]).position),
                forall|j: int|
                    0 <= j < moved_bullets.len() ==> vec_ok(
                        (#[trigger] moved_bullets[j]).position,
                    ) && vec_ok(moved_bullets[j].velocity),
                kept@ == surviving_enemies(moved.subrange(0, fi as int), moved_bullets),
                forall|j: int| 0 <= j < kept@.len() ==> vec_ok((#[trigger] kept@[j]).position),
            decreases m - fi,
        {
            let e = self.enemies[fi];
            proof {
                assert(moved.subrange(0, fi as int + 1).drop_last() =~= moved.subrange(
                    0,
                    fi as int,
                ));
                assert(moved.subrange(0, fi as int + 1).last() == moved[fi as int]);
            }
            if !any_bullet_hits(&e, &self.bullets) {
                kept.push(e);
            }
            fi += 1;
        }
        proof {
            assert(moved.subrange(0, m as int) =~= moved);
        }
        self.enemies = kept;
    }
}

/// Saturates a wide intermediate coordinate into the world bounds.
fn clamp_i128(x: i128) -> (r: i64)
    requires
        -0x4000_0000_0000_0000_0000_0000_0000_0000 <= x
            < 0x4000_0000_0000_0000_0000_0000_0000_0000,
    ensures
        r as int == clamp_coord(x as int),
        coord_ok(r as int),
{
    if x < -(COORD_LIMIT as i128) {
        -COORD_LIMIT
    } else if x > COORD_LIMIT as i128 {
        COORD_LIMIT
    } else {
        x as i64
    }
}

/// Saturates both coordinates of a vector into the world bounds.
fn clamp_vec_exec(v: Vec2) -> (r: Vec2)
    ensures
        r == clamp_vec(v),
        vec_ok(r),
{
    Vec2 { x: clamp_i128(v.x as i128), y: clamp_i128(v.y as i128) }
}

/// One axis of bullet motion: `p + v * dt / SCALE`, saturated at the world
/// bounds.
fn move_coord(p: i64, v: i64, dt: u64) -> (r: i64)
    requires
        coord_ok(p as int),
        coord_ok(v as int),
        dt <= DT_LIMIT,
    ensures
        r as int == clamp_coord(p + scaled_disp(v as int, dt as int)),
        coord_ok(r as int),
{
    let vm: u128 = if v >= 0 {
        v as u128
    } else {
        (-(v as i128)) as u128
    };
    proof {
        lemma_mul_le(vm as int, COORD_LIMIT as int, dt as int, DT_LIMIT as int);
    }
    let m: u128 = (vm * (dt as u128)) / (SCALE as u128);
    let md: i128 = if v >= 0 {
        m as i128
    } else {
        -(m as i128)
    };
    clamp_i128((p as i128) + md)
}

/// One frame of motion of one bullet.
fn step_bullet_exec(b: Bullet, dt: u64) -> (r: Bullet)
    requires
        vec_ok(b.position),
        vec_ok(b.velocity),
        dt <= DT_LIMIT,
    ensures
        r == bullet_step(b, dt as int),
        vec_ok(r.position),
        r.velocity == b.velocity,
{
    let x = move_coord(b.position.x, b.velocity.x, dt);
    let y = move_coord(b.position.y, b.velocity.y, dt);
    Bullet { position: Vec2 { x, y }, velocity: b.velocity }
}

/// One axis of enemy homing: `ep + (pp - ep) * sp * dt / (len * SCALE)`,
/// saturated at the world bounds.
fn homing_coord(ep: i64, pp: i64, sp: u128, len: u128, dt: u64) -> (r: i64)
    requires
        coord_ok(ep as int),
        coord_ok(pp as int),
        1 <= len <= SQRT_SEARCH_LIMIT,
        sp <= HOMING_MAX_SPEED as u128,
        dt <= DT_LIMIT,
    ensures
        r as int == clamp_coord(ep + homing_disp(pp - ep, sp as int, len as int, dt as int)),
        coord_ok(r as int),
{
    let d: i128 = (pp as i128) - (ep as i128);
    let dm: u128 = if d >= 0 {
        d as u128
    } else {
        (-d) as u128
    };
    proof {
        lemma_mul_le(dm as int, 2_000_000_000_000_000_000, sp as int, HOMING_MAX_SPEED as int);
        lemma_mul_le(
            (dm * sp) as int,
            20_000_000_000_000_000_000_000,
            dt as int,
            DT_LIMIT as int,
        );
        lemma_mul_le(len as int, SQRT_SEARCH_LIMIT as int, SCALE as int, SCALE as int);
        lemma_mul_le(1, len as int, SCALE as int, SCALE as int);
    }
    let num: u128 = dm * sp * (dt as u128);
    let den: u128 = len * (SCALE as u128);
    let q: u128 = num / den;
    let disp: i128 = if d >= 0 {
        q as i128
    } else {
        -(q as i128)
    };
    clamp_i128((ep as i128) + disp)
}

/// One frame of homing of one enemy toward the player at `pp`.
fn step_enemy_exec(e: Enemy, pp: Vec2, dt: u64) -> (r: Enemy)
    requires
        vec_ok(e.position),
        vec_ok(pp),
        dt <= DT_LIMIT,
    ensures
        r == homing_step(e, pp, dt as int),
        vec_ok(r.position),
        r.health == e.health,
{
    let n: u128 = dist2_exec(pp, e.position);
    let rt: u128 = isqrt(n);
    let len: u128 = rt + 1;
    proof {
        assert(len as int == homing_len(e.position, pp));
    }
    let sp: u128 = if len < HOMING_MIN_SPEED as u128 {
        HOMING_MIN_SPEED as u128
    } else if len > HOMING_MAX_SPEED as u128 {
        HOMING_MAX_SPEED as u128
    } else {
        len
    };
    proof {
        assert(sp as int == homing_speed(len as int));
    }
    let x = homing_coord(e.position.x, pp.x, sp, len, dt);
    let y = homing_coord(e.position.y, pp.y, sp, len, dt);
    Enemy { position: Vec2 { x, y }, health: e.health }
}

/// Lowers a health score by `d`, saturating at the bottom of the range.
fn sat_sub_health(h: i64, d: i64) -> (r: i64)
    requires
        d >= 0,
    ensures
        r as int == sat_health(h - d),
{
    if h >= i64::MIN + d {
        h - d
    } else {
        i64::MIN
    }
}

/// Saturating twice is the same as saturating once at the end.
proof fn lemma_sat_chain(x: int, d: int)
    requires
        d >= 0,
    ensures
        sat_health(sat_health(x) - d) == sat_health(x - d),
{
}

/// Whether any bullet of the collection touches the enemy.
fn any_bullet_hits(e: &Enemy, bullets: &Vec<Bullet>) -> (r: bool)
    requires
        vec_ok(e.position),
        forall|i: int|
            0 <= i < bullets@.len() ==> vec_ok((#[trigger] bullets@[i]).position),
    ensures
        r == hit_by_bullet(*e, bullets@),
{
    let n = bullets.len();
    let mut j: usize = 0;
    while j < n
        invariant
            n == bullets@.len(),
            j <= n,
            vec_ok(e.position),
            forall|i: int|
                0 <= i < bullets@.len() ==> vec_ok((#[trigger] bullets@[i]).position),
            forall|k: int|
                0 <= k < j ==> dist2(e.position, (#[trigger] bullets@[k]).position)
                    >= ENEMY_BULLET_HIT_DIST2 as int,
        decreases n - j,
    {
        let d2 = dist2_exec(e.position, bullets[j].position);
        if d2 < ENEMY_BULLET_HIT_DIST2 as u128 {
            return true;
        }
        j += 1;
    }
    proof {
        if hit_by_bullet(*e, bullets@) {
            let jj = choose|jj: int|
                0 <= jj < bullets@.len() && dist2(e.position, (#[trigger] bullets@[jj]).position)
                    < ENEMY_BULLET_HIT_DIST2 as int;
            assert(dist2(e.position, bullets@[jj].position) >= ENEMY_BULLET_HIT_DIST2 as int);
        }
    }
    false
}

} // verus!
