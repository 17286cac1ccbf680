//! The laws of the simulation, stated over the step functions of
//! [`crate::game`] and proved once and for all.  `Engine::update` promises
//! exactly those step functions, so each law carries over to every frame.

use vstd::prelude::*;
use crate::vec2::Vec2;
use crate::geom::{
    coord_ok, dist2, lemma_dist2_nonneg, lemma_sqrt_floor_exists, lemma_square_monotone,
    sqrt_floor, vec_ok,
};
use crate::game::{
    bullet_step, hit_count, homed_enemies, homing_disp, homing_len, homing_speed, homing_step,
    sat_health, scaled_disp, stepped_bullets, surviving_enemies, touches_player, hit_by_bullet,
    Bullet, Enemy, CONTACT_DAMAGE, DT_LIMIT, HOMING_MAX_SPEED, HOMING_MIN_SPEED,
    PLAYER_ENEMY_HIT_DIST2, SCALE,
};
use vstd::arithmetic::div_mod::{
    lemma_div_by_multiple, lemma_div_is_ordered, lemma_div_pos_is_pos,
};

verus! {

/// Bullet motion is exact: as long as neither coordinate saturates at the
/// world bounds, one frame moves a bullet from `p` to exactly
/// `p + velocity * dt / SCALE` (rounded toward zero), and never changes its
/// velocity.
pub proof fn lemma_bullet_motion(b: Bullet, dt: u64)
    requires
        vec_ok(b.position),
        vec_ok(b.velocity),
        dt <= DT_LIMIT,
        coord_ok(b.position.x + scaled_disp(b.velocity.x as int, dt as int)),
        coord_ok(b.position.y + scaled_disp(b.velocity.y as int, dt as int)),
    ensures
        bullet_step(b, dt as int).position.x as int == b.position.x + scaled_disp(
            b.velocity.x as int,
            dt as int,
        ),
        bullet_step(b, dt as int).position.y as int == b.position.y + scaled_disp(
            b.velocity.y as int,
            dt as int,
        ),
        bullet_step(b, dt as int).velocity == b.velocity,
{
}

/// A zero time delta moves nothing: bullets and enemies keep their exact
/// positions (collision damage and removal still run on those positions,
/// as `Engine::update` states).
pub proof fn lemma_zero_dt(b: Bullet, e: Enemy, p: Vec2)
    requires
        vec_ok(b.position),
        vec_ok(e.position),
    ensures
        bullet_step(b, 0) == b,
        homing_step(e, p, 0) == e,
{
    vstd::arithmetic::div_mod::lemma_div_basics(SCALE as int);
    assert(b.velocity.x as int * 0 == 0);
    assert((-(b.velocity.x as int)) * 0 == 0);
    assert(b.velocity.y as int * 0 == 0);
    assert((-(b.velocity.y as int)) * 0 == 0);
    assert(bullet_step(b, 0).position.x as int == b.position.x as int);
    assert(bullet_step(b, 0).position.y as int == b.position.y as int);

    lemma_dist2_nonneg(p, e.position);
    lemma_sqrt_floor_exists(dist2(p, e.position));
    let len = crate::game::homing_len(e.position, p);
    let sp = crate::game::homing_speed(len);
    let den = len * (SCALE as int);
    assert(den > 0) by (nonlinear_arith)
        requires
            den == len * (SCALE as int),
            len >= 1,
            SCALE == 10_000,
    ;
    vstd::arithmetic::div_mod::lemma_div_basics(den);
    let dx = p.x - e.position.x;
    let dy = p.y - e.position.y;
    assert(dx * sp * 0 == 0);
    assert((-dx) * sp * 0 == 0);
    assert(dy * sp * 0 == 0);
    assert((-dy) * sp * 0 == 0);
    assert(homing_step(e, p, 0).position.x as int == e.position.x as int);
    assert(homing_step(e, p, 0).position.y as int == e.position.y as int);
}

/// With no enemies and no bullets a frame is inert: the stepped collections
/// stay empty, no contact damage accrues, and the player's health is
/// exactly what it was.
pub proof fn lemma_no_entities_no_damage(p: Vec2, h: i64, dt: int)
    ensures
        stepped_bullets(Seq::<Bullet>::empty(), dt) == Seq::<Bullet>::empty(),
        homed_enemies(Seq::<Enemy>::empty(), p, dt) == Seq::<Enemy>::empty(),
        hit_count(Seq::<Enemy>::empty(), p) == 0,
        surviving_enemies(Seq::<Enemy>::empty(), Seq::<Bullet>::empty()) == Seq::<Enemy>::empty(),
        sat_health(h - CONTACT_DAMAGE * hit_count(Seq::<Enemy>::empty(), p)) == h,
{
    assert(stepped_bullets(Seq::<Bullet>::empty(), dt) =~= Seq::<Bullet>::empty());
    assert(homed_enemies(Seq::<Enemy>::empty(), p, dt) =~= Seq::<Enemy>::empty());
}

/// Removal keeps the survivors' relative order: of three enemies where
/// exactly the middle one is touched by a bullet, the remaining collection
/// is the outer two, first one first.
pub proof fn lemma_survivor_order(a: Enemy, b: Enemy, c: Enemy, bs: Seq<Bullet>)
    requires
        !hit_by_bullet(a, bs),
        hit_by_bullet(b, bs),
        !hit_by_bullet(c, bs),
    ensures
        surviving_enemies(seq![a, b, c], bs) == seq![a, c],
{
    let s3 = seq![a, b, c];
    let s2 = seq![a, b];
    let s1 = seq![a];
    let s0 = Seq::<Enemy>::empty();
    assert(s3.drop_last() =~= s2);
    assert(s3.last() == c);
    assert(s2.drop_last() =~= s1);
    assert(s2.last() == b);
    assert(s1.drop_last() =~= s0);
    assert(s1.last() == a);
    assert(surviving_enemies(s0, bs) == s0);
    assert(surviving_enemies(s1, bs) == s0.push(a));
    assert(surviving_enemies(s2, bs) == s0.push(a));
    assert(surviving_enemies(s3, bs) == s0.push(a).push(c));
    assert(s0.push(a).push(c) =~= seq![a, c]);
}

/// Every survivor comes from the original collection and is touched by no
/// bullet; every untouched enemy of the original collection survives as
/// often as it occurs.  (Which positions they keep is the order lemma's
/// business.)
pub proof fn lemma_survivors_characterized(es: Seq<Enemy>, bs: Seq<Bullet>)
    ensures
        forall|k: int|
            0 <= k < surviving_enemies(es, bs).len() ==> es.contains(
                #[trigger] surviving_enemies(es, bs)[k],
            ) && !hit_by_bullet(surviving_enemies(es, bs)[k], bs),
    decreases es.len(),
{
    if es.len() > 0 {
        lemma_survivors_characterized(es.drop_last(), bs);
        let rest = surviving_enemies(es.drop_last(), bs);
        assert forall|k: int|
            0 <= k < surviving_enemies(es, bs).len() implies es.contains(
            #[trigger] surviving_enemies(es, bs)[k],
        ) && !hit_by_bullet(surviving_enemies(es, bs)[k], bs) by {
            if k < rest.len() {
                assert(es.drop_last().contains(rest[k]));
                let i = choose|i: int| 0 <= i < es.drop_last().len() && es.drop_last()[i] == rest[k];
                assert(es[i] == rest[k]);
            } else {
                assert(surviving_enemies(es, bs)[k] == es.last());
                assert(es[es.len() - 1] == es.last());
            }
        }
    }
}

/// Splitting one enemy out of the collection splits its contribution out of
/// the contact-damage count.
proof fn lemma_hit_count_remove(es: Seq<Enemy>, i: int, p: Vec2)
    requires
        0 <= i < es.len(),
    ensures
        hit_count(es, p) == hit_count(es.remove(i), p) + if touches_player(es[i], p) {
            1int
        } else {
            0int
        },
    decreases es.len(),
{
    if i == es.len() - 1 {
        assert(es.remove(i) =~= es.drop_last());
    } else {
        assert(es.remove(i).drop_last() =~= es.drop_last().remove(i));
        assert(es.remove(i).last() == es.last());
        lemma_hit_count_remove(es.drop_last(), i, p);
        assert(es.drop_last()[i] == es[i]);
    }
}

/// Contact damage is order-independent: any two collections holding the
/// same enemies the same number of times, in whatever order, yield the same
/// contact-damage count against the same player position.
pub proof fn lemma_damage_order_independent(es1: Seq<Enemy>, es2: Seq<Enemy>, p: Vec2)
    requires
        es1.to_multiset() == es2.to_multiset(),
    ensures
        hit_count(es1, p) == hit_count(es2, p),
    decreases es1.len(),
{
    broadcast use vstd::seq_lib::to_multiset_build;
    broadcast use vstd::seq_lib::to_multiset_remove;
    broadcast use vstd::seq_lib::to_multiset_len;
    broadcast use vstd::seq_lib::to_multiset_contains;
    broadcast use vstd::multiset::group_multiset_axioms;

    vstd::seq_lib::to_multiset_len(es1);
    vstd::seq_lib::to_multiset_len(es2);
    if es1.len() == 0 {
        assert(es2.len() == 0);
    } else {
        let a = es1.last();
        assert(es1.contains(a));
        assert(es2.to_multiset().count(a) > 0);
        assert(es2.contains(a));
        let i = choose|i: int| 0 <= i < es2.len() && es2[i] == a;
        assert(es1 =~= es1.drop_last().push(a));
        assert(es1.drop_last().push(a).to_multiset() == es1.drop_last().to_multiset().insert(a));
        assert(es1.drop_last().to_multiset() == es1.to_multiset().remove(a));
        assert(es2.remove(i).to_multiset() == es2.to_multiset().remove(a));
        lemma_damage_order_independent(es1.drop_last(), es2.remove(i), p);
        lemma_hit_count_remove(es2, i, p);
    }
}

/// One homing frame brings an enemy strictly closer to a stationary
/// player, as long as the enemy is still outside the contact threshold and
/// the time delta lies between `HOMING_MIN_SPEED` and `HOMING_MAX_SPEED`
/// time units (0.01 s to 1 s): the integration step neither stalls on
/// rounding nor overshoots past the player.
pub proof fn lemma_homing_step_approach(e: Enemy, p: Vec2, dt: u64)
    requires
        vec_ok(e.position),
        vec_ok(p),
        HOMING_MIN_SPEED as u64 <= dt <= HOMING_MAX_SPEED as u64,
        dist2(e.position, p) >= PLAYER_ENEMY_HIT_DIST2 as int,
    ensures
        dist2(homing_step(e, p, dt as int).position, p) < dist2(e.position, p),
        vec_ok(homing_step(e, p, dt as int).position),
{
    let ex = e.position.x as int;
    let ey = e.position.y as int;
    let px = p.x as int;
    let py = p.y as int;
    let dx = px - ex;
    let dy = py - ey;
    let av = if dx >= 0 { dx } else { -dx };
    let bv = if dy >= 0 { dy } else { -dy };
    assert(av * av == dx * dx) by (nonlinear_arith)
        requires
            av == dx || av == -dx,
    ;
    assert(bv * bv == dy * dy) by (nonlinear_arith)
        requires
            bv == dy || bv == -dy,
    ;
    let n = dist2(p, e.position);
    assert(n == dx * dx + dy * dy);
    assert(dist2(e.position, p) == n) by (nonlinear_arith)
        requires
            dist2(e.position, p) == (ex - px) * (ex - px) + (ey - py) * (ey - py),
            n == dx * dx + dy * dy,
            dx == px - ex,
            dy == py - ey,
    ;
    lemma_dist2_nonneg(p, e.position);
    lemma_sqrt_floor_exists(n);
    let r = sqrt_floor(n);
    assert(r >= 1118) by {
        if r < 1118 {
            lemma_square_monotone(r + 1, 1118);
        }
    };
    let len = r + 1;
    assert(len == homing_len(e.position, p));
    let sp = homing_speed(len);
    assert(100 <= sp && sp <= len && sp <= 10000);
    let den = len * (SCALE as int);
    assert(den > 0) by (nonlinear_arith)
        requires
            den == len * (SCALE as int),
            len >= 1,
            SCALE == 10_000,
    ;
    let dti = dt as int;
    let na = av * sp * dti;
    let nb = bv * sp * dti;
    let ma = na / den;
    let mb = nb / den;
    assert(homing_disp(dx, sp, len, dti) == if dx >= 0 { ma } else { -ma });
    assert(homing_disp(dy, sp, len, dti) == if dy >= 0 { mb } else { -mb });

    // The step never moves an enemy past the player on either axis.
    assert(na >= 0 && na <= av * den) by (nonlinear_arith)
        requires
            na == av * sp * dti,
            den == len * (SCALE as int),
            SCALE == 10_000,
            0 <= av,
            0 <= sp <= len,
            0 <= dti <= 10_000,
    ;
    assert(nb >= 0 && nb <= bv * den) by (nonlinear_arith)
        requires
            nb == bv * sp * dti,
            den == len * (SCALE as int),
            SCALE == 10_000,
            0 <= bv,
            0 <= sp <= len,
            0 <= dti <= 10_000,
    ;
    lemma_div_pos_is_pos(na, den);
    lemma_div_pos_is_pos(nb, den);
    lemma_div_is_ordered(na, av * den, den);
    lemma_div_is_ordered(nb, bv * den, den);
    lemma_div_by_multiple(av, den);
    lemma_div_by_multiple(bv, den);
    assert(0 <= ma <= av);
    assert(0 <= mb <= bv);

    // On the dominant axis the step advances by at least one unit.
    if av >= bv {
        assert(2 * av >= len) by (nonlinear_arith)
            requires
                0 <= bv <= av,
                1118 <= r,
                r * r <= n,
                n == av * av + bv * bv,
                len == r + 1,
        ;
        if len <= 10000 {
            assert(na >= den) by (nonlinear_arith)
                requires
                    na == av * sp * dti,
                    den == len * (SCALE as int),
                    SCALE == 10_000,
                    sp == len,
                    2 * av >= len,
                    len >= 1119,
                    dti >= 100,
            ;
        } else {
            assert(na >= den) by (nonlinear_arith)
                requires
                    na == av * sp * dti,
                    den == len * (SCALE as int),
                    SCALE == 10_000,
                    sp == 10_000,
                    2 * av >= len,
                    len > 10000,
                    dti >= 100,
            ;
        }
        lemma_div_is_ordered(den, na, den);
        lemma_div_by_multiple(1, den);
        assert(ma >= 1);
    } else {
        assert(2 * bv >= len) by (nonlinear_arith)
            requires
                0 <= av <= bv,
                1118 <= r,
                r * r <= n,
                n == av * av + bv * bv,
                len == r + 1,
        ;
        if len <= 10000 {
            assert(nb >= den) by (nonlinear_arith)
                requires
                    nb == bv * sp * dti,
                    den == len * (SCALE as int),
                    SCALE == 10_000,
                    sp == len,
                    2 * bv >= len,
                    len >= 1119,
                    dti >= 100,
            ;
        } else {
            assert(nb >= den) by (nonlinear_arith)
                requires
                    nb == bv * sp * dti,
                    den == len * (SCALE as int),
                    SCALE == 10_000,
                    sp == 10_000,
                    2 * bv >= len,
                    len > 10000,
                    dti >= 100,
            ;
        }
        lemma_div_is_ordered(den, nb, den);
        lemma_div_by_multiple(1, den);
        assert(mb >= 1);
    }

    // Neither coordinate leaves the segment between enemy and player, so
    // the world-bound saturation never engages.
    let hdx = homing_disp(dx, sp, len, dti);
    let hdy = homing_disp(dy, sp, len, dti);
    assert(coord_ok(ex + hdx));
    assert(coord_ok(ey + hdy));
    let e2 = homing_step(e, p, dti);
    assert(e2.position.x as int == ex + hdx);
    assert(e2.position.y as int == ey + hdy);

    // The new squared distance is (av - ma)^2 + (bv - mb)^2, strictly
    // below av^2 + bv^2.
    let ndx = (e2.position.x as int) - px;
    let ndy = (e2.position.y as int) - py;
    assert(dist2(e2.position, p) == ndx * ndx + ndy * ndy);
    assert(ndx * ndx == (av - ma) * (av - ma)) by (nonlinear_arith)
        requires
            ndx == -(av - ma) || ndx == av - ma,
    ;
    assert(ndy * ndy == (bv - mb) * (bv - mb)) by (nonlinear_arith)
        requires
            ndy == -(bv - mb) || ndy == bv - mb,
    ;
    if av >= bv {
        assert((av - ma) * (av - ma) < av * av) by (nonlinear_arith)
            requires
                1 <= ma <= av,
        ;
        assert((bv - mb) * (bv - mb) <= bv * bv) by (nonlinear_arith)
            requires
                0 <= mb <= bv,
        ;
    } else {
        assert((av - ma) * (av - ma) <= av * av) by (nonlinear_arith)
            requires
                0 <= ma <= av,
        ;
        assert((bv - mb) * (bv - mb) < bv * bv) by (nonlinear_arith)
            requires
                1 <= mb <= bv,
        ;
    }
    assert(dist2(e2.position, p) < n);
}

/// The enemy an unbroken run of `k` homing frames produces.
pub open spec fn homing_iterates(e: Enemy, p: Vec2, dt: int, k: nat) -> Enemy
    decreases k,
{
    if k == 0 {
        e
    } else {
        homing_step(homing_iterates(e, p, dt, (k - 1) as nat), p, dt)
    }
}

/// Iterating once more in front is iterating once more behind.
proof fn lemma_iterates_shift(e: Enemy, p: Vec2, dt: int, k: nat)
    ensures
        homing_iterates(e, p, dt, (k + 1) as nat) == homing_iterates(homing_step(e, p, dt), p, dt, k),
    decreases k,
{
    let e2 = homing_step(e, p, dt);
    if k == 0 {
        assert(homing_iterates(e, p, dt, 1) == homing_step(homing_iterates(e, p, dt, 0), p, dt));
        assert(homing_iterates(e2, p, dt, 0) == e2);
    } else {
        lemma_iterates_shift(e, p, dt, (k - 1) as nat);
        assert(homing_iterates(e, p, dt, (k + 1) as nat) == homing_step(
            homing_iterates(e, p, dt, k),
            p,
            dt,
        ));
        assert(homing_iterates(e2, p, dt, k) == homing_step(
            homing_iterates(e2, p, dt, (k - 1) as nat),
            p,
            dt,
        ));
    }
}

/// Homing converges: against a stationary player, repeated frames with a
/// fixed time delta between `HOMING_MIN_SPEED` and `HOMING_MAX_SPEED` time
/// units bring any enemy within the contact threshold after finitely many
/// steps, the squared distance falling strictly every frame until it gets
/// there (see `lemma_homing_step_approach`).
pub proof fn lemma_homing_convergence(e: Enemy, p: Vec2, dt: u64)
    requires
        vec_ok(e.position),
        vec_ok(p),
        HOMING_MIN_SPEED as u64 <= dt <= HOMING_MAX_SPEED as u64,
    ensures
        exists|k: nat|
            dist2(homing_iterates(e, p, dt as int, k).position, p) < PLAYER_ENEMY_HIT_DIST2 as int,
    decreases dist2(e.position, p),
{
    lemma_dist2_nonneg(e.position, p);
    if dist2(e.position, p) < PLAYER_ENEMY_HIT_DIST2 {
        assert(homing_iterates(e, p, dt as int, 0) == e);
        assert(dist2(homing_iterates(e, p, dt as int, 0).position, p) < PLAYER_ENEMY_HIT_DIST2
            as int);
    } else {
        lemma_homing_step_approach(e, p, dt);
        let e2 = homing_step(e, p, dt as int);
        lemma_dist2_nonneg(e2.position, p);
        lemma_homing_convergence(e2, p, dt);
        let k2 = choose|k: nat|
            dist2(homing_iterates(e2, p, dt as int, k).position, p) < PLAYER_ENEMY_HIT_DIST2
                as int;
        lemma_iterates_shift(e, p, dt as int, k2);
        assert(dist2(homing_iterates(e, p, dt as int, (k2 + 1) as nat).position, p)
            < PLAYER_ENEMY_HIT_DIST2 as int);
    }
}

} // verus!
