//! What the weights of the animation clips are for: how they follow the speed, the direction and
//! the height of a body.
//!
//! Each law speaks of the weights that a motion gets, and of the motion itself. Weights are rounded
//! down, so a law on a share holds up to a few billionths.

use vstd::prelude::*;
use vstd::arithmetic::div_mod::{
    lemma_div_basics, lemma_div_by_multiple, lemma_fundamental_div_mod,
    lemma_fundamental_div_mod_converse,
};
use crate::blend::{lemma_quotient, lemma_quotients_keep_order};
use crate::locomotion::{
    apply_locomotion_weights, compute_locomotion_weights, direction_8way_blend, gait, is_root, lemma_backward_share, lemma_clip_names_differ,
    lemma_floor_sum, lemma_gaits_share_the_weight, lemma_one_root, lemma_part, lemma_products,
    lemma_root_exists, lemma_speed_bounds, locomotion_gait_blend, root, named_weight, set_node_weight, size, step_for, times3,
    times4, upper_body_weight, weight, Clip, Direction, DirectionBlend, Gait, LocomotionConfig,
    LocomotionTargets, Motion, NodeStep, Side, FULL,
};

verus! {

/// Up to the dead zone a body idles. From there the walk takes over from the idle in proportion to
/// the speed, and from the speed of the walking clip the run takes over from the walk; from the
/// speed of the running clip on there is only the run. The three always add up to the full weight.
pub proof fn lemma_gaits_are_in_proportion(cfg: LocomotionConfig, speed: u64, g: Gait)
    requires
        call_ensures(locomotion_gait_blend, (&cfg, speed), g),
    ensures
        g.idle + g.walk + g.run == FULL,
        speed <= cfg.deadzone ==> g.idle == FULL,
        cfg.deadzone < speed < cfg.walk_ref ==> {
            &&& g.run == 0
            &&& g.walk * (cfg.walk_ref - cfg.deadzone) <= (speed - cfg.deadzone) * FULL < (g.walk
                + 1) * (cfg.walk_ref - cfg.deadzone)
        },
        cfg.deadzone < speed && cfg.walk_ref <= speed < cfg.run_ref ==> {
            &&& g.idle == 0
            &&& g.run * (cfg.run_ref - cfg.walk_ref) <= (speed - cfg.walk_ref) * FULL < (g.run + 1)
                * (cfg.run_ref - cfg.walk_ref)
        },
        cfg.deadzone < speed && cfg.walk_ref <= speed && cfg.run_ref <= speed ==> g.run == FULL,
{
    if cfg.deadzone < speed < cfg.walk_ref {
        lemma_quotient((speed - cfg.deadzone) * FULL, cfg.walk_ref - cfg.deadzone);
    } else if cfg.deadzone < speed && cfg.walk_ref <= speed < cfg.run_ref {
        lemma_quotient((speed - cfg.walk_ref) * FULL, cfg.run_ref - cfg.walk_ref);
    }
}

/// The weights follow the speed: a faster body never idles more and never runs less, and it walks
/// no less up to the speed of the walking clip, and no more from there on.
pub proof fn lemma_gaits_follow_the_speed(
    cfg: LocomotionConfig,
    slow: u64,
    fast: u64,
    a: Gait,
    b: Gait,
)
    requires
        call_ensures(locomotion_gait_blend, (&cfg, slow), a),
        call_ensures(locomotion_gait_blend, (&cfg, fast), b),
        cfg.deadzone < cfg.walk_ref < cfg.run_ref,
        slow <= fast,
    ensures
        a.idle >= b.idle,
        a.run <= b.run,
        fast <= cfg.walk_ref ==> a.walk <= b.walk,
        slow >= cfg.walk_ref ==> a.walk >= b.walk,
        slow == cfg.walk_ref ==> a.walk == FULL,
{
    lemma_gaits_share_the_weight(cfg, slow as int);
    lemma_gaits_share_the_weight(cfg, fast as int);
    let to_walk = cfg.walk_ref - cfg.deadzone;
    let to_run = cfg.run_ref - cfg.walk_ref;
    lemma_quotients_keep_order((slow - cfg.deadzone) * FULL, (fast - cfg.deadzone) * FULL, to_walk);
    lemma_quotients_keep_order((slow - cfg.walk_ref) * FULL, (fast - cfg.walk_ref) * FULL, to_run);
    if slow == cfg.walk_ref {
        lemma_div_basics(to_run);
    }
}

/// The two directions next to a heading lie side by side on the turn, and their shares give the
/// heading back.
pub proof fn lemma_directions_give_the_heading_back(heading: u64, blend: DirectionBlend)
    requires
        call_ensures(direction_8way_blend, (heading,), blend),
    ensures
        blend.lower < 8,
        blend.upper == (blend.lower + 1) % 8,
        blend.lower_weight + blend.upper_weight == FULL,
        blend.lower_weight > 0,
        blend.lower * FULL + blend.upper_weight == (heading as int) % (8 * FULL),
{
    lemma_turn(heading as int);
}

/// A heading on the turn: whole eighths, and what is left of one.
proof fn lemma_turn(heading: int)
    requires
        heading >= 0,
    ensures
        heading % (8 * FULL) == ((heading / (FULL as int)) % 8) * FULL + heading % (FULL as int),
{
    let e = heading / (FULL as int);
    let t = heading % (FULL as int);
    let lower = e % 8;
    lemma_fundamental_div_mod(heading, FULL as int);
    lemma_fundamental_div_mod(e, 8);
    let whole: int = 8 * FULL;
    assert(heading == (e / 8) * whole + (lower * FULL + t)) by (nonlinear_arith)
        requires
            heading == FULL * e + t,
            e == 8 * (e / 8) + lower,
            whole == 8 * FULL,
    ;
    lemma_fundamental_div_mod_converse(heading, 8 * FULL, e / 8, lower * FULL + t);
}

/// The whole part of a root is just that.
pub proof fn lemma_roots_are_tight(n: u128, r: u64)
    requires
        call_ensures(crate::locomotion::square_root, (n,), r),
    ensures
        r * r <= n < (r + 1) * (r + 1),
{
}

/// Whether `w` is the weight of a clip under a motion.
pub open spec fn plays(cfg: LocomotionConfig, m: Motion, clip: Clip, w: u64) -> bool {
    exists|targets: LocomotionTargets|
        call_ensures(compute_locomotion_weights, (&cfg, &m), targets) && #[trigger] call_ensures(
            LocomotionTargets::weight,
            (&targets, clip),
            w,
        )
}

/// Whether `w` is the weight of the idle pose on the upper body under a motion.
pub open spec fn poses_arms(cfg: LocomotionConfig, m: Motion, w: u64) -> bool {
    exists|targets: LocomotionTargets|
        call_ensures(compute_locomotion_weights, (&cfg, &m), targets) && #[trigger] call_ensures(
            LocomotionTargets::idle_upper_body,
            (&targets,),
            w,
        )
}

/// Whether the body is on the ground: it moves up or down no faster than a body there does.
pub open spec fn grounded(cfg: LocomotionConfig, m: Motion) -> bool {
    -cfg.airborne_vertical <= m.vertical <= cfg.airborne_vertical
}

/// Whether `r` is the speed over the ground, rounded down.
pub open spec fn moves_at(m: Motion, r: int) -> bool {
    0 <= r && r * r <= m.forward * m.forward + m.side * m.side < (r + 1) * (r + 1)
}

/// Whether `c` is how far the body crouches: not at all at its upright height, fully at its
/// crouched height, and in proportion between the two.
pub open spec fn crouches_by(m: Motion, c: int) -> bool {
    if m.upright_height <= m.crouch_height || m.height >= m.upright_height {
        c == 0
    } else if m.height <= m.crouch_height {
        c == FULL
    } else {
        c * (m.upright_height - m.crouch_height) <= (m.upright_height - m.height) * FULL < (c + 1)
            * (m.upright_height - m.crouch_height)
    }
}

/// Whether `v` is the share of the weight `s` that goes to the gait `w` and the part `f` of the
/// speed `r`, up to rounding.
pub open spec fn is_share(v: int, s: int, w: int, f: int, r: int, slack: int) -> bool {
    v * (FULL * r) <= s * w * f <= (v + slack) * (FULL * r)
}

proof fn lemma_plays(cfg: LocomotionConfig, m: Motion, clip: Clip, w: u64)
    requires
        plays(cfg, m, clip, w),
    ensures
        w == weight(cfg, m, clip),
{
}

proof fn lemma_poses(cfg: LocomotionConfig, m: Motion, w: u64)
    requires
        poses_arms(cfg, m, w),
    ensures
        w == upper_body_weight(cfg, m),
{
}

proof fn lemma_speed_is(m: Motion, r: int)
    requires
        moves_at(m, r),
    ensures
        r == m.speed(),
        size(m.forward as int) <= r,
        size(m.side as int) <= r,
{
    let n = m.forward * m.forward + m.side * m.side;
    lemma_root_exists(m.forward as int, m.side as int);
    assert(is_root(r, n));
    lemma_one_root(r, root(n), n);
    lemma_speed_bounds(m.forward as int, m.side as int, r);
}

proof fn lemma_crouch_is(m: Motion, c: int)
    requires
        crouches_by(m, c),
    ensures
        c == m.crouch(),
        0 <= c <= FULL,
{
    if !(m.upright_height <= m.crouch_height || m.height >= m.upright_height) && m.height
        > m.crouch_height {
        let d = m.upright_height - m.crouch_height;
        let x = (m.upright_height - m.height) * FULL;
        lemma_part(m.upright_height - m.height, d);
        lemma_quotient(x, d);
        let q = x / d;
        assert(c == q) by (nonlinear_arith)
            requires
                c * d <= x < (c + 1) * d,
                q * d <= x < (q + 1) * d,
                d > 0,
        ;
    }
}

proof fn lemma_share3(s: int, w: int, f: int, r: int)
    requires
        0 <= s <= FULL,
        0 <= w <= FULL,
        0 <= f <= r,
        0 < r,
    ensures
        is_share(times3(s, w, f * FULL / r), s, w, f, r, 2),
{
    let a = f * FULL / r;
    let v = times3(s, w, a);
    let p = s * w;
    let square: int = FULL * FULL;
    lemma_quotient(f * FULL, r);
    lemma_part(f, r);
    lemma_products(s, w, a, 0);
    lemma_quotient(p * a, square);
    assert(v * (square * r) <= p * a * r) by (nonlinear_arith)
        requires
            v * square <= p * a,
            r > 0,
    ;
    assert(p * a * r <= p * (f * FULL)) by (nonlinear_arith)
        requires
            a * r <= f * FULL,
            p >= 0,
    ;
    assert(p * (f * FULL) <= p * ((a + 1) * r)) by (nonlinear_arith)
        requires
            f * FULL < (a + 1) * r,
            p >= 0,
    ;
    assert(p * ((a + 1) * r) <= (v + 2) * (square * r)) by (nonlinear_arith)
        requires
            p * a < (v + 1) * square,
            p <= square,
            r > 0,
    ;
    let unit = FULL * r;
    assert(square * r == unit * FULL) by (nonlinear_arith)
        requires
            square == FULL * FULL,
            unit == FULL * r,
    ;
    assert(v * (square * r) == v * unit * FULL && (v + 2) * (square * r) == (v + 2) * unit * FULL)
        by (nonlinear_arith)
        requires
            square * r == unit * FULL,
    ;
    assert(p * (f * FULL) == p * f * FULL) by (nonlinear_arith);
}

proof fn lemma_share4(s: int, w: int, f: int, g: int, r: int)
    requires
        0 <= s <= FULL,
        0 <= w <= FULL,
        0 <= f <= r,
        0 <= g <= r,
        0 < r,
    ensures
        ({
            let v = times4(s, w, f * FULL / r, g * FULL / r);
            v * (FULL * r * r) <= s * w * f * g <= (v + 4) * (FULL * r * r)
        }),
{
    let b = f * FULL / r;
    let a = g * FULL / r;
    let v = times4(s, w, b, a);
    let p = s * w;
    let q = b * a;
    let cube: int = FULL * FULL * FULL;
    lemma_quotient(f * FULL, r);
    lemma_quotient(g * FULL, r);
    lemma_part(f, r);
    lemma_part(g, r);
    lemma_products(s, w, b, a);
    lemma_quotient(p * b * a, cube);
    assert(p * b * a == p * q) by (nonlinear_arith)
        requires
            q == b * a,
    ;
    let x = b * r;
    let y = a * r;
    let big: int = f * FULL;
    let other: int = g * FULL;
    assert(0 <= x && 0 <= y) by (nonlinear_arith)
        requires
            x == b * r,
            y == a * r,
            b >= 0,
            a >= 0,
            r > 0,
    ;
    assert(x * y <= big * other) by (nonlinear_arith)
        requires
            0 <= x <= big,
            0 <= y <= other,
    ;
    assert(big <= x + r && other <= y + r) by (nonlinear_arith)
        requires
            x == b * r,
            y == a * r,
            big < (b + 1) * r,
            other < (a + 1) * r,
    ;
    assert(big * other <= (x + r) * (y + r)) by (nonlinear_arith)
        requires
            0 <= big <= x + r,
            0 <= other <= y + r,
    ;
    let rr = r * r;
    assert(x * y == q * rr && (x + r) * (y + r) == (q + a + b + 1) * rr) by (nonlinear_arith)
        requires
            x == b * r,
            y == a * r,
            q == b * a,
            rr == r * r,
    ;
    assert(rr > 0) by (nonlinear_arith)
        requires
            rr == r * r,
            r > 0,
    ;
    assert((q + a + b + 1) * rr <= (q + 3 * FULL) * rr) by (nonlinear_arith)
        requires
            a <= FULL,
            b <= FULL,
            FULL >= 1,
            rr > 0,
    ;
    assert(v * cube * rr <= p * q * rr) by (nonlinear_arith)
        requires
            v * cube <= p * q,
            rr > 0,
    ;
    assert(p * (q * rr) <= p * (big * other)) by (nonlinear_arith)
        requires
            q * rr <= big * other,
            p >= 0,
    ;
    assert(p * (big * other) <= p * ((q + 3 * FULL) * rr)) by (nonlinear_arith)
        requires
            big * other <= (q + 3 * FULL) * rr,
            p >= 0,
    ;
    assert(p * ((q + 3 * FULL) * rr) <= (v + 4) * cube * rr) by (nonlinear_arith)
        requires
            p * q < (v + 1) * cube,
            0 <= p <= FULL * FULL,
            cube == FULL * FULL * FULL,
            rr > 0,
    ;
    assert(p * q * rr == p * (q * rr)) by (nonlinear_arith);
    let unit = FULL * r * r;
    let square: int = FULL * FULL;
    assert(p * (big * other) == s * w * f * g * square) by (nonlinear_arith)
        requires
            p == s * w,
            big == f * FULL,
            other == g * FULL,
            square == FULL * FULL,
    ;
    assert(cube * rr == unit * square) by (nonlinear_arith)
        requires
            cube == FULL * FULL * FULL,
            rr == r * r,
            unit == FULL * r * r,
            square == FULL * FULL,
    ;
    assert(v * cube * rr == v * unit * square && (v + 4) * cube * rr == (v + 4) * unit * square)
        by (nonlinear_arith)
        requires
            cube * rr == unit * square,
    ;
}

/// In the air only the jump plays.
pub proof fn lemma_bodies_in_the_air_jump(
    cfg: LocomotionConfig,
    m: Motion,
    clip: Clip,
    w: u64,
    arms: u64,
)
    requires
        plays(cfg, m, clip, w),
        poses_arms(cfg, m, arms),
        !grounded(cfg, m),
    ensures
        clip == Clip::Jump ==> w == FULL,
        clip != Clip::Jump ==> w == 0,
        arms == 0,
{
    lemma_plays(cfg, m, clip, w);
    lemma_poses(cfg, m, arms);
}

/// A body on the ground that moves no faster than the dead zone idles, as far upright or crouched
/// as its height says, and nothing else plays.
pub proof fn lemma_still_bodies_idle(
    cfg: LocomotionConfig,
    m: Motion,
    r: int,
    c: int,
    clip: Clip,
    w: u64,
    arms: u64,
)
    requires
        plays(cfg, m, clip, w),
        poses_arms(cfg, m, arms),
        grounded(cfg, m),
        moves_at(m, r),
        r <= cfg.deadzone,
        crouches_by(m, c),
    ensures
        clip == Clip::Idle ==> w == FULL - c,
        clip == Clip::IdleCrouching ==> w == c,
        clip != Clip::Idle && clip != Clip::IdleCrouching ==> w == 0,
        arms == c,
{
    lemma_plays(cfg, m, clip, w);
    lemma_poses(cfg, m, arms);
    lemma_speed_is(m, r);
    lemma_crouch_is(m, c);
}

/// A body that moves forward on the ground plays the walking and the running clip, each by its
/// gait, by how far the body stands and by how much of the speed goes forward; a body that does not
/// move forward plays neither.
pub proof fn lemma_forward_clips_follow_the_motion(
    cfg: LocomotionConfig,
    m: Motion,
    r: u64,
    c: int,
    g: Gait,
    walking: u64,
    running: u64,
)
    requires
        plays(cfg, m, Clip::Walking, walking),
        plays(cfg, m, Clip::Running, running),
        grounded(cfg, m),
        moves_at(m, r as int),
        r > cfg.deadzone,
        crouches_by(m, c),
        call_ensures(locomotion_gait_blend, (&cfg, r), g),
    ensures
        m.forward <= 0 ==> walking == 0 && running == 0,
        m.forward >= 0 ==> is_share(
            walking as int,
            FULL - c,
            g.walk as int,
            m.forward as int,
            r as int,
            2,
        ) && is_share(running as int, FULL - c, g.run as int, m.forward as int, r as int, 2),
{
    lemma_plays(cfg, m, Clip::Walking, walking);
    lemma_plays(cfg, m, Clip::Running, running);
    lemma_speed_is(m, r as int);
    lemma_crouch_is(m, c);
    if m.forward >= 0 {
        lemma_share3(FULL - c, g.walk as int, m.forward as int, r as int);
        lemma_share3(FULL - c, g.run as int, m.forward as int, r as int);
    }
    lemma_nothing(FULL - c, g);
    if m.forward == 0 {
        lemma_no_part(r as int);
    }
}

proof fn lemma_nothing(s: int, g: Gait)
    ensures
        times3(s, g.walk as int, 0) == 0,
        times3(s, g.run as int, 0) == 0,
{
    assert(s * g.walk * 0 == 0 && s * g.run * 0 == 0) by (nonlinear_arith);
}

proof fn lemma_no_part(r: int)
    requires
        r > 0,
    ensures
        0int * FULL / r == 0,
{
    lemma_div_basics(r);
}

/// A body that moves sideways on the ground plays the strafing clips of the side it moves to, each
/// by its gait, by how far the body stands and by how much of the speed goes sideways; the clips of
/// the other side do not play.
pub proof fn lemma_strafing_clips_follow_the_motion(
    cfg: LocomotionConfig,
    m: Motion,
    r: u64,
    c: int,
    g: Gait,
    side: Side,
    walking: u64,
    running: u64,
)
    requires
        plays(cfg, m, Clip::StrafeWalking(side), walking),
        plays(cfg, m, Clip::Strafe(side), running),
        grounded(cfg, m),
        moves_at(m, r as int),
        r > cfg.deadzone,
        crouches_by(m, c),
        call_ensures(locomotion_gait_blend, (&cfg, r), g),
    ensures
        side == Side::Left && m.side >= 0 ==> walking == 0 && running == 0,
        side == Side::Right && m.side <= 0 ==> walking == 0 && running == 0,
        side == Side::Left && m.side < 0 ==> is_share(
            walking as int,
            FULL - c,
            g.walk as int,
            -m.side,
            r as int,
            2,
        ) && is_share(running as int, FULL - c, g.run as int, -m.side, r as int, 2),
        side == Side::Right && m.side >= 0 ==> is_share(
            walking as int,
            FULL - c,
            g.walk as int,
            m.side as int,
            r as int,
            2,
        ) && is_share(running as int, FULL - c, g.run as int, m.side as int, r as int, 2),
{
    lemma_plays(cfg, m, Clip::StrafeWalking(side), walking);
    lemma_plays(cfg, m, Clip::Strafe(side), running);
    lemma_speed_is(m, r as int);
    lemma_crouch_is(m, c);
    let f = size(m.side as int);
    lemma_share3(FULL - c, g.walk as int, f, r as int);
    lemma_share3(FULL - c, g.run as int, f, r as int);
    lemma_nothing(FULL - c, g);
    lemma_no_part(r as int);
}

/// Whether two clips go together: straight backward, and backward to a side, in one gait.
pub open spec fn backward_pair(straight: Clip, slanted: Clip, side: Side) -> bool {
    ||| straight == Clip::WalkBackward && slanted == Clip::WalkBackwardTo(side)
    ||| straight == Clip::RunBackward && slanted == Clip::RunBackwardTo(side)
}

/// The weight of the gait that a backward clip belongs to.
pub open spec fn gait_of(g: Gait, straight: Clip) -> int {
    if straight == Clip::WalkBackward {
        g.walk as int
    } else {
        g.run as int
    }
}

/// A body that moves backward on the ground plays the backward clips of its gait: together by how
/// far the body stands and how much of the speed goes backward, and the one to the side that it
/// moves to by how much of the speed goes sideways. The one to the other side does not play, and a
/// body that does not move backward plays none of them.
pub proof fn lemma_backward_clips_follow_the_motion(
    cfg: LocomotionConfig,
    m: Motion,
    r: u64,
    c: int,
    g: Gait,
    straight: Clip,
    slanted: Clip,
    side: Side,
    v: u64,
    w: u64,
)
    requires
        backward_pair(straight, slanted, side),
        plays(cfg, m, straight, v),
        plays(cfg, m, slanted, w),
        grounded(cfg, m),
        moves_at(m, r as int),
        r > cfg.deadzone,
        crouches_by(m, c),
        call_ensures(locomotion_gait_blend, (&cfg, r), g),
    ensures
        m.forward >= 0 ==> v == 0 && w == 0,
        side == Side::Left && m.side >= 0 ==> w == 0,
        side == Side::Right && m.side <= 0 ==> w == 0,
        m.forward < 0 && (m.side < 0 ==> side == Side::Left) && (m.side > 0 ==> side
            == Side::Right) ==> {
            &&& is_share(v + w, FULL - c, gait_of(g, straight), -m.forward, r as int, 5)
            &&& w * (FULL * r * r) <= (FULL - c) * gait_of(g, straight) * (-m.forward) * size(
                m.side as int,
            ) <= (w + 4) * (FULL * r * r)
        },
{
    lemma_plays(cfg, m, straight, v);
    lemma_plays(cfg, m, slanted, w);
    lemma_speed_is(m, r as int);
    lemma_crouch_is(m, c);
    lemma_no_part(r as int);
    let s = FULL - c;
    let k = gait_of(g, straight);
    let a = m.aside();
    lemma_part(size(m.side as int), r as int);
    if m.forward >= 0 {
        assert(s * k * 0 == 0) by (nonlinear_arith);
        assert(0 * (FULL - a) == 0 && 0 * a == 0) by (nonlinear_arith);
        assert(s * k * 0 * (FULL - a) == 0 && s * k * 0 * a == 0);
    } else {
        let f = -m.forward;
        let b = m.back();
        lemma_part(f, r as int);
        if m.side == 0 {
            assert(s * k * b * 0 == 0) by (nonlinear_arith);
            assert(a == 0);
        }
        lemma_share4(s, k, f, size(m.side as int), r as int);
        lemma_share3(s, k, f, r as int);
        lemma_backward_share(s, k, 0, b, a);
        assert(s * 0 * b * (FULL - a) == 0 && s * 0 * b * a == 0) by (nonlinear_arith);
        assert(s * b * (k + 0) == s * k * b) by (nonlinear_arith);
        let t = times3(s, k, b);
        let toward = m.toward();
        if m.side == 0 && side == Side::Left {
            assert(times4(s, k, b, a) == 0);
        }
        assert(v == times4(s, k, b, FULL - a));
        assert(side == toward || m.side == 0 ==> w == times4(s, k, b, a));
        if side == toward || m.side == 0 {
            let unit = FULL * r;
            assert((v + w) * unit <= t * unit && (t + 2) * unit <= (v + w + 5) * unit)
                by (nonlinear_arith)
                requires
                    v + w <= t <= v + w + 3,
                    unit >= 0,
            ;
        }
    }
}

/// A body that moves on the ground idles as far as its gait does and as it stands, up to rounding:
/// the directions of the motion take the rest.
pub proof fn lemma_moving_bodies_idle_by_their_gait(
    cfg: LocomotionConfig,
    m: Motion,
    r: u64,
    c: int,
    g: Gait,
    w: u64,
)
    requires
        plays(cfg, m, Clip::Idle, w),
        grounded(cfg, m),
        moves_at(m, r as int),
        r > cfg.deadzone,
        crouches_by(m, c),
        call_ensures(locomotion_gait_blend, (&cfg, r), g),
    ensures
        w * FULL <= (FULL - c) * g.idle + FULL,
        (FULL - c) * g.idle < (w + 1) * FULL,
{
    lemma_plays(cfg, m, Clip::Idle, w);
    lemma_speed_is(m, r as int);
    lemma_crouch_is(m, c);
    let s = FULL - c;
    let f = size(m.forward as int);
    let h = size(m.side as int);
    let spare = m.spare();
    lemma_quotient(f * FULL, r as int);
    lemma_quotient(h * FULL, r as int);
    lemma_no_part(r as int);
    let p = f * FULL / (r as int);
    let q = h * FULL / (r as int);
    assert(f * f == m.forward * m.forward && h * h == m.side * m.side) by (nonlinear_arith)
        requires
            f == m.forward || f == -m.forward,
            h == m.side || h == -m.side,
    ;
    assert(f + h >= r) by (nonlinear_arith)
        requires
            r * r <= f * f + h * h,
            f >= 0,
            h >= 0,
    ;
    assert(p + q >= FULL - 1) by (nonlinear_arith)
        requires
            f * FULL < (p + 1) * r,
            h * FULL < (q + 1) * r,
            f + h >= r,
            r > 0,
    ;
    assert(m.ahead() + m.back() == p);
    assert(0 <= spare <= 1);
    let moving = g.walk + g.run;
    let inner = g.idle * FULL + moving * spare;
    lemma_quotient(s * inner, FULL * FULL);
    assert(0 <= moving * spare <= FULL) by (nonlinear_arith)
        requires
            0 <= moving <= FULL,
            0 <= spare <= 1,
    ;
    assert(s * inner == s * g.idle * FULL + s * (moving * spare)) by (nonlinear_arith)
        requires
            inner == g.idle * FULL + moving * spare,
    ;
    assert(0 <= s * (moving * spare) <= FULL * FULL) by (nonlinear_arith)
        requires
            0 <= moving * spare <= FULL,
            0 <= s <= FULL,
    ;
}

/// The eight directions of the clips that walk crouched, from forward to the left.
pub open spec fn around() -> Seq<Direction> {
    seq![
        Direction::Forward,
        Direction::ForwardLeft,
        Direction::Left,
        Direction::BackwardLeft,
        Direction::Backward,
        Direction::BackwardRight,
        Direction::Right,
        Direction::ForwardRight,
    ]
}

/// How near a heading is to the direction `k` of the turn: fully if it is that direction, and not
/// at all from the next direction on.
pub open spec fn nearness(heading: int, k: int) -> int {
    let h = heading % (8 * FULL);
    let off = size(h - k * FULL);
    let round = if off <= 4 * FULL {
        off
    } else {
        8 * FULL - off
    };
    if round >= FULL {
        0
    } else {
        FULL - round
    }
}

/// A crouched body that moves plays the two clips next to its heading, each by how near the heading
/// is; what it does not crouch, it does not play.
pub proof fn lemma_crouched_clips_follow_the_heading(
    cfg: LocomotionConfig,
    m: Motion,
    r: int,
    c: int,
    k: int,
    w: u64,
)
    requires
        0 <= k < 8,
        plays(cfg, m, Clip::WalkCrouching(around()[k]), w),
        grounded(cfg, m),
        moves_at(m, r),
        r > cfg.deadzone,
        crouches_by(m, c),
    ensures
        w * FULL <= c * nearness(m.heading as int, k) < (w + 1) * FULL,
{
    let direction = around()[k];
    lemma_plays(cfg, m, Clip::WalkCrouching(direction), w);
    lemma_speed_is(m, r);
    lemma_crouch_is(m, c);
    let near = nearness(m.heading as int, k);
    assert(direction.index() == k);
    lemma_quotient(c * near, FULL as int);
    let t = (m.heading as int) % (FULL as int);
    assert(w == c * near / (FULL as int)) by {
        let lower = (m.heading as int / (FULL as int)) % 8;
        let upper = (m.heading as int / (FULL as int) + 1) % 8;
        let h = (m.heading as int) % (8 * FULL);
        lemma_turn(m.heading as int);
        if k == lower {
            assert(near == FULL - t);
        } else if k == upper {
            assert(near == t);
        } else {
            assert(near == 0);
            assert(c * 0 == 0);
        }
    }
}

/// On the ground nothing jumps, and a body that moves does not play the crouched idle.
pub proof fn lemma_moving_bodies_neither_jump_nor_sit(
    cfg: LocomotionConfig,
    m: Motion,
    r: int,
    jump: u64,
    sit: u64,
)
    requires
        plays(cfg, m, Clip::Jump, jump),
        plays(cfg, m, Clip::IdleCrouching, sit),
        grounded(cfg, m),
        moves_at(m, r),
    ensures
        jump == 0,
        r > cfg.deadzone ==> sit == 0,
{
    lemma_plays(cfg, m, Clip::Jump, jump);
    lemma_plays(cfg, m, Clip::IdleCrouching, sit);
    lemma_speed_is(m, r);
}

/// The arms of a body that moves keep the idle pose as far as the body crouches, and, as far as it
/// stands, by how much of the speed goes backward in a gait.
pub proof fn lemma_arms_follow_the_motion(
    cfg: LocomotionConfig,
    m: Motion,
    r: u64,
    c: int,
    g: Gait,
    arms: u64,
)
    requires
        poses_arms(cfg, m, arms),
        grounded(cfg, m),
        moves_at(m, r as int),
        r > cfg.deadzone,
        crouches_by(m, c),
        call_ensures(locomotion_gait_blend, (&cfg, r), g),
    ensures
        m.forward >= 0 ==> arms == c,
        m.forward <= 0 ==> is_share(
            arms - c,
            FULL - c,
            g.walk + g.run,
            -m.forward,
            r as int,
            2,
        ),
{
    lemma_poses(cfg, m, arms);
    lemma_speed_is(m, r as int);
    lemma_crouch_is(m, c);
    let s = FULL - c;
    let k = g.walk + g.run;
    lemma_no_part(r as int);
    if m.forward <= 0 {
        let b = -m.forward * FULL / (r as int);
        lemma_share3(s, k, -m.forward, r as int);
        assert(s * b * k == s * k * b) by (nonlinear_arith);
    }
    assert(s * 0 * k == 0 && s * k * 0 == 0) by (nonlinear_arith);
}

/// A weight keeps its size in a product with full weights.
proof fn lemma_full_factors(w: int)
    requires
        w >= 0,
    ensures
        times3(FULL as int, w, FULL as int) == w,
        times4(FULL as int, w, FULL as int, FULL as int) == w,
{
    let square: int = FULL * FULL;
    let cube: int = FULL * FULL * FULL;
    assert(square > 0 && cube > 0) by (nonlinear_arith)
        requires
            square == FULL * FULL,
            cube == FULL * FULL * FULL,
            FULL > 0,
    ;
    lemma_div_by_multiple(w, square);
    lemma_div_by_multiple(w, cube);
    assert(FULL * w * FULL == w * square) by (nonlinear_arith)
        requires
            square == FULL * FULL,
    ;
    assert(FULL * w * FULL * FULL == w * cube) by (nonlinear_arith)
        requires
            cube == FULL * FULL * FULL,
    ;
}

/// A body that moves straight ahead, to one side or straight back plays just the clips of that
/// direction, in full by its gait.
pub proof fn lemma_straight_motion_plays_the_gait(
    cfg: LocomotionConfig,
    m: Motion,
    r: u64,
    g: Gait,
    walk: Clip,
    run: Clip,
    v: u64,
    w: u64,
)
    requires
        ({
            ||| m.forward == r && m.side == 0 && walk == Clip::Walking && run == Clip::Running
            ||| m.forward == -r && m.side == 0 && walk == Clip::WalkBackward && run
                == Clip::RunBackward
            ||| m.forward == 0 && m.side == -r && walk == Clip::StrafeWalking(Side::Left) && run
                == Clip::Strafe(Side::Left)
            ||| m.forward == 0 && m.side == r && walk == Clip::StrafeWalking(Side::Right) && run
                == Clip::Strafe(Side::Right)
        }),
        plays(cfg, m, walk, v),
        plays(cfg, m, run, w),
        grounded(cfg, m),
        r > cfg.deadzone,
        m.height >= m.upright_height,
        call_ensures(locomotion_gait_blend, (&cfg, r), g),
    ensures
        v == g.walk,
        w == g.run,
{
    assert(m.forward * m.forward + m.side * m.side == r * r && r * r < (r + 1) * (r + 1))
        by (nonlinear_arith)
        requires
            (m.side == 0 && (m.forward == r || m.forward == -r)) || (m.forward == 0 && (m.side == r
                || m.side == -r)),
            r >= 0,
    ;
    lemma_speed_is(m, r as int);
    lemma_plays(cfg, m, walk, v);
    lemma_plays(cfg, m, run, w);
    lemma_no_part(r as int);
    assert(r * FULL / (r as int) == FULL) by {
        lemma_div_by_multiple(FULL as int, r as int);
        assert(FULL * r == r * FULL) by (nonlinear_arith);
    }
    lemma_full_factors(g.walk as int);
    lemma_full_factors(g.run as int);
}

/// A node that plays gets its weight; one that does not is started, at its weight, once it has one.
pub proof fn lemma_nodes_start_once(playing: bool, w: u64, step: NodeStep)
    requires
        call_ensures(set_node_weight, (playing, w), step),
    ensures
        playing ==> step == NodeStep::SetWeight(w),
        !playing && w > 0 ==> step == NodeStep::Play(w),
        !playing && w == 0 ==> step == NodeStep::Leave,
{
}

/// What a side is called.
pub open spec fn side_word(side: Side) -> Seq<char> {
    match side {
        Side::Left => "left"@,
        Side::Right => "right"@,
    }
}

/// What a direction is called: ahead or back, and the side behind that.
pub open spec fn direction_words(direction: Direction) -> Seq<char> {
    match direction {
        Direction::Forward => "forward"@,
        Direction::ForwardLeft => "forward"@ + " "@ + side_word(Side::Left),
        Direction::Left => side_word(Side::Left),
        Direction::BackwardLeft => "backward"@ + " "@ + side_word(Side::Left),
        Direction::Backward => "backward"@,
        Direction::BackwardRight => "backward"@ + " "@ + side_word(Side::Right),
        Direction::Right => side_word(Side::Right),
        Direction::ForwardRight => "forward"@ + " "@ + side_word(Side::Right),
    }
}

/// A clip is called by its pack, by what the body does and by where it goes: each side by its word,
/// and each direction by its words.
pub proof fn lemma_clips_are_called_by_what_they_do(clip: Clip, name: &'static str)
    requires
        call_ensures(Clip::name, (clip,), name),
    ensures
        clip is Idle ==> name@ == "locomotion/idle"@,
        clip is Walking ==> name@ == "locomotion/walking"@,
        clip is Running ==> name@ == "locomotion/running"@,
        clip is Jump ==> name@ == "locomotion/jump"@,
        clip matches Clip::StrafeWalking(side) ==> name@ == "locomotion/"@ + side_word(side)
            + " strafe walking"@,
        clip matches Clip::Strafe(side) ==> name@ == "locomotion/"@ + side_word(side)
            + " strafe"@,
        clip is WalkBackward ==> name@ == "rifle-8-way/walk backward"@,
        clip is RunBackward ==> name@ == "rifle-8-way/run backward"@,
        clip matches Clip::WalkBackwardTo(side) ==> name@ == "rifle-8-way/walk backward "@
            + side_word(side),
        clip matches Clip::RunBackwardTo(side) ==> name@ == "rifle-8-way/run backward "@
            + side_word(side),
        clip is IdleCrouching ==> name@ == "rifle-8-way/idle crouching"@,
        clip matches Clip::WalkCrouching(direction) ==> name@ == "rifle-8-way/walk crouching "@
            + direction_words(direction),
{
    match clip {
        Clip::StrafeWalking(side) => {
            reveal_strlit("locomotion/");
            reveal_strlit(" strafe walking");
            reveal_strlit("left");
            reveal_strlit("right");
            if side == Side::Left {
                reveal_strlit("locomotion/left strafe walking");
            } else {
                reveal_strlit("locomotion/right strafe walking");
            }
            assert(name@ =~= "locomotion/"@ + side_word(side) + " strafe walking"@);
        },
        Clip::Strafe(side) => {
            reveal_strlit("locomotion/");
            reveal_strlit(" strafe");
            reveal_strlit("left");
            reveal_strlit("right");
            if side == Side::Left {
                reveal_strlit("locomotion/left strafe");
            } else {
                reveal_strlit("locomotion/right strafe");
            }
            assert(name@ =~= "locomotion/"@ + side_word(side) + " strafe"@);
        },
        Clip::WalkBackwardTo(side) => {
            reveal_strlit("rifle-8-way/walk backward ");
            reveal_strlit("left");
            reveal_strlit("right");
            if side == Side::Left {
                reveal_strlit("rifle-8-way/walk backward left");
            } else {
                reveal_strlit("rifle-8-way/walk backward right");
            }
            assert(name@ =~= "rifle-8-way/walk backward "@ + side_word(side));
        },
        Clip::RunBackwardTo(side) => {
            reveal_strlit("rifle-8-way/run backward ");
            reveal_strlit("left");
            reveal_strlit("right");
            if side == Side::Left {
                reveal_strlit("rifle-8-way/run backward left");
            } else {
                reveal_strlit("rifle-8-way/run backward right");
            }
            assert(name@ =~= "rifle-8-way/run backward "@ + side_word(side));
        },
        Clip::WalkCrouching(direction) => {
            reveal_strlit("rifle-8-way/walk crouching ");
            match direction {
                Direction::Forward => {
                    reveal_strlit("rifle-8-way/walk crouching forward");
                    reveal_strlit("forward");
                },
                Direction::ForwardLeft => {
                    reveal_strlit("rifle-8-way/walk crouching forward left");
                    reveal_strlit("forward");
                    reveal_strlit("left");
                    reveal_strlit(" ");
                },
                Direction::Left => {
                    reveal_strlit("rifle-8-way/walk crouching left");
                    reveal_strlit("left");
                },
                Direction::BackwardLeft => {
                    reveal_strlit("rifle-8-way/walk crouching backward left");
                    reveal_strlit("backward");
                    reveal_strlit("left");
                    reveal_strlit(" ");
                },
                Direction::Backward => {
                    reveal_strlit("rifle-8-way/walk crouching backward");
                    reveal_strlit("backward");
                },
                Direction::BackwardRight => {
                    reveal_strlit("rifle-8-way/walk crouching backward right");
                    reveal_strlit("backward");
                    reveal_strlit("right");
                    reveal_strlit(" ");
                },
                Direction::Right => {
                    reveal_strlit("rifle-8-way/walk crouching right");
                    reveal_strlit("right");
                },
                Direction::ForwardRight => {
                    reveal_strlit("rifle-8-way/walk crouching forward right");
                    reveal_strlit("forward");
                    reveal_strlit("right");
                    reveal_strlit(" ");
                },
            }
            assert(name@ =~= "rifle-8-way/walk crouching "@ + direction_words(direction));
        },
        _ => {},
    }
}

/// A node of the animation graph gets the weight of the clip that it is called by: it is given the
/// weight if it plays, and started at it if it does not and the weight is more than nothing. A node
/// that no clip is called by plays at no weight.
pub proof fn lemma_nodes_get_the_weight_of_their_clip(
    targets: LocomotionTargets,
    nodes: Vec<(String, bool)>,
    steps: Vec<NodeStep>,
    i: int,
    clip: Clip,
    name: &'static str,
    w: u64,
)
    requires
        call_ensures(apply_locomotion_weights, (&targets, &nodes), steps),
        call_ensures(LocomotionTargets::weight, (&targets, clip), w),
        call_ensures(Clip::name, (clip,), name),
        0 <= i < nodes@.len(),
    ensures
        steps@.len() == nodes@.len(),
        nodes@[i].0@ == name@ && nodes@[i].1 ==> steps@[i] == NodeStep::SetWeight(w),
        nodes@[i].0@ == name@ && !nodes@[i].1 && w > 0 ==> steps@[i] == NodeStep::Play(w),
        nodes@[i].0@ == name@ && !nodes@[i].1 && w == 0 ==> steps@[i] == NodeStep::Leave,
        (forall|c: Clip| #[trigger] c.named() != nodes@[i].0@) ==> steps@[i] == if nodes@[i].1 {
            NodeStep::SetWeight(0)
        } else {
            NodeStep::Leave
        },
{
    let text = nodes@[i].0@;
    assert(steps@[i] == step_for(nodes@[i].1, named_weight(targets, text) as u64));
    if text == name@ {
        assert(clip.named() == text);
        let c = choose|c: Clip| #[trigger] c.named() == text;
        lemma_clip_names_differ(c, clip);
        assert(named_weight(targets, text) == w);
    }
}

} // verus!
