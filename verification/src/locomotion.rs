//! Which animation clips move the body, and how strongly.
//!
//! Standing forward and sideways use the locomotion pack. Backward and crouched use the rifle
//! pack for the lower body, and the arms keep the idle pose by an extra node for the upper body.
//! Weights are in billionths, speeds in micrometres per second and lengths in micrometres.

use vstd::prelude::*;
use vstd::arithmetic::div_mod::lemma_fundamental_div_mod;
use crate::text::same_text;

verus! {

/// The full weight.
pub const FULL: u64 = 1_000_000_000;

/// Speeds that part the gaits.
#[derive(Clone, Copy, Debug, PartialEq, Eq, Structural)]
pub struct LocomotionConfig {
    /// Up to here the body stands still.
    pub deadzone: u64,
    /// The speed of the walking clip.
    pub walk_ref: u64,
    /// The speed of the running clip.
    pub run_ref: u64,
    /// Above this vertical speed the body is in the air.
    pub airborne_vertical: u64,
}

/// The weights of the gaits.
#[derive(Clone, Copy, Debug, PartialEq, Eq, Structural)]
pub struct Gait {
    pub idle: u64,
    pub walk: u64,
    pub run: u64,
}

/// How far `speed` lies between `low` and `high`.
pub open spec fn between(speed: int, low: int, high: int) -> int {
    (speed - low) * FULL / (high - low)
}

/// The blend of the gaits at a speed.
pub open spec fn gait(cfg: LocomotionConfig, speed: int) -> (int, int, int) {
    if speed <= cfg.deadzone {
        (FULL as int, 0, 0)
    } else if speed < cfg.walk_ref {
        let t = between(speed, cfg.deadzone as int, cfg.walk_ref as int);
        (FULL - t, t, 0)
    } else if speed < cfg.run_ref {
        let t = between(speed, cfg.walk_ref as int, cfg.run_ref as int);
        (0, FULL - t, t)
    } else {
        (0, 0, FULL as int)
    }
}

/// A part of the full weight.
pub proof fn lemma_part(part: int, whole: int)
    requires
        0 <= part <= whole,
        0 < whole,
    ensures
        0 <= part * FULL / whole <= FULL,
{
    let q = part * FULL / whole;
    let r = (part * FULL) % whole;
    lemma_fundamental_div_mod(part * FULL, whole);
    assert(0 <= q <= FULL) by (nonlinear_arith)
        requires
            part * FULL == whole * q + r,
            0 <= r < whole,
            0 <= part <= whole,
            FULL == 1_000_000_000,
    ;
}

fn part_of(part: u64, whole: u64) -> (weight: u64)
    requires
        part <= whole,
        0 < whole,
    ensures
        weight == part * FULL / (whole as int),
        weight <= FULL,
{
    proof {
        lemma_part(part as int, whole as int);
        assert(0 <= part * FULL <= 0xffff_ffff_ffff_ffff * 1_000_000_000) by (nonlinear_arith)
            requires
                0 <= part <= 0xffff_ffff_ffff_ffff,
                FULL == 1_000_000_000,
        ;
    }
    (part as u128 * FULL as u128 / whole as u128) as u64
}

/// The blend of the gaits at `speed`; the three weights add up to the full weight.
pub fn locomotion_gait_blend(cfg: &LocomotionConfig, speed: u64) -> (blend: Gait)
    ensures
        (blend.idle as int, blend.walk as int, blend.run as int) == gait(*cfg, speed as int),
        blend.idle + blend.walk + blend.run == FULL,
{
    if speed <= cfg.deadzone {
        return Gait { idle: FULL, walk: 0, run: 0 };
    }
    if speed < cfg.walk_ref {
        let t: u64 = part_of(speed - cfg.deadzone, cfg.walk_ref - cfg.deadzone);
        return Gait { idle: FULL - t, walk: t, run: 0 };
    }
    if speed < cfg.run_ref {
        let t: u64 = part_of(speed - cfg.walk_ref, cfg.run_ref - cfg.walk_ref);
        return Gait { idle: 0, walk: FULL - t, run: t };
    }
    Gait { idle: 0, walk: 0, run: FULL }
}

/// The gaits always share the full weight.
pub proof fn lemma_gaits_share_the_weight(cfg: LocomotionConfig, speed: int)
    ensures
        gait(cfg, speed).0 + gait(cfg, speed).1 + gait(cfg, speed).2 == FULL,
        0 <= gait(cfg, speed).0 <= FULL,
        0 <= gait(cfg, speed).1 <= FULL,
        0 <= gait(cfg, speed).2 <= FULL,
{
    if speed <= cfg.deadzone {
    } else if speed < cfg.walk_ref {
        lemma_part(speed - cfg.deadzone, cfg.walk_ref - cfg.deadzone);
    } else if speed < cfg.run_ref {
        lemma_part(speed - cfg.walk_ref, cfg.run_ref - cfg.walk_ref);
    }
}

/// The two directions that a heading lies between, and how far it is from the first.
pub open spec fn heading_between(heading: int) -> (int, int, int) {
    ((heading / (FULL as int)) % 8, (heading / (FULL as int) + 1) % 8, heading % (FULL as int))
}

/// A share of two directions that lie side by side.
#[derive(Clone, Copy, Debug, PartialEq, Eq, Structural)]
pub struct DirectionBlend {
    pub lower: u64,
    pub upper: u64,
    pub lower_weight: u64,
    pub upper_weight: u64,
}

/// The blend of the two directions next to a heading. The heading is in eighths of a turn, in
/// billionths, from forward to the left.
pub fn direction_8way_blend(heading: u64) -> (blend: DirectionBlend)
    ensures
        blend.lower == heading_between(heading as int).0,
        blend.upper == heading_between(heading as int).1,
        blend.upper_weight == heading_between(heading as int).2,
        blend.lower_weight + blend.upper_weight == FULL,
        blend.lower < 8,
        blend.upper < 8,
        blend.lower != blend.upper,
{
    let eighth: u64 = heading / FULL;
    let t: u64 = heading % FULL;
    let lower: u64 = eighth % 8;
    let upper: u64 = (lower + 1) % 8;
    DirectionBlend { lower, upper, lower_weight: FULL - t, upper_weight: t }
}

/// The whole part of a square root.
pub open spec fn is_root(r: int, n: int) -> bool {
    0 <= r && r * r <= n < (r + 1) * (r + 1)
}

/// The whole part of the square root of `n`.
pub open spec fn root(n: int) -> int {
    choose|r: int| is_root(r, n)
}

/// A number has one root.
pub proof fn lemma_one_root(a: int, b: int, n: int)
    requires
        is_root(a, n),
        is_root(b, n),
    ensures
        a == b,
{
    assert(a == b) by (nonlinear_arith)
        requires
            0 <= a,
            0 <= b,
            a * a < (b + 1) * (b + 1),
            b * b < (a + 1) * (a + 1),
    ;
}

/// The whole part of the square root of `n`.
pub fn square_root(n: u128) -> (r: u64)
    ensures
        is_root(r as int, n as int),
        r == root(n as int),
{
    let mut low: u128 = 0;
    let mut high: u128 = 0x1_0000_0000_0000_0000;
    while high - low > 1
        invariant
            low < high <= 0x1_0000_0000_0000_0000,
            low * low <= n,
            n < high * high,
        decreases high - low,
    {
        let mid: u128 = low + (high - low) / 2;
        assert(mid * mid <= 0xffff_ffff_ffff_ffff * 0xffff_ffff_ffff_ffff) by (nonlinear_arith)
            requires
                0 <= mid <= 0xffff_ffff_ffff_ffff,
        ;
        if mid * mid <= n {
            low = mid;
        } else {
            high = mid;
        }
    }
    assert(low < 0x1_0000_0000_0000_0000);
    assert(high == low + 1);
    let r: u64 = low as u64;
    proof {
        assert(is_root(r as int, n as int));
        lemma_one_root(r as int, root(n as int), n as int);
    }
    r
}

/// A side of the body.
#[derive(Clone, Copy, Debug, PartialEq, Eq, Structural)]
pub enum Side {
    Left,
    Right,
}

/// The eight directions, from forward to the left.
#[derive(Clone, Copy, Debug, PartialEq, Eq, Structural)]
pub enum Direction {
    Forward,
    ForwardLeft,
    Left,
    BackwardLeft,
    Backward,
    BackwardRight,
    Right,
    ForwardRight,
}

impl Direction {
    /// The place of the direction on the turn.
    pub open spec fn index(self) -> int {
        match self {
            Direction::Forward => 0,
            Direction::ForwardLeft => 1,
            Direction::Left => 2,
            Direction::BackwardLeft => 3,
            Direction::Backward => 4,
            Direction::BackwardRight => 5,
            Direction::Right => 6,
            Direction::ForwardRight => 7,
        }
    }

    fn place(self) -> (index: u64)
        ensures
            index == self.index(),
            index < 8,
    {
        match self {
            Direction::Forward => 0,
            Direction::ForwardLeft => 1,
            Direction::Left => 2,
            Direction::BackwardLeft => 3,
            Direction::Backward => 4,
            Direction::BackwardRight => 5,
            Direction::Right => 6,
            Direction::ForwardRight => 7,
        }
    }
}

/// The clips that move the body.
#[derive(Clone, Copy, Debug, PartialEq, Eq, Structural)]
pub enum Clip {
    Idle,
    Walking,
    Running,
    Jump,
    StrafeWalking(Side),
    Strafe(Side),
    WalkBackward,
    WalkBackwardTo(Side),
    RunBackward,
    RunBackwardTo(Side),
    IdleCrouching,
    WalkCrouching(Direction),
}

/// How a body moves. The heading is in eighths of a turn, in billionths.
#[derive(Clone, Copy, Debug, PartialEq, Eq, Structural)]
pub struct Motion {
    /// Speed forward.
    pub forward: i64,
    /// Speed to the right.
    pub side: i64,
    /// Speed upward.
    pub vertical: i64,
    pub heading: u64,
    pub height: u64,
    pub upright_height: u64,
    pub crouch_height: u64,
}

/// The size of a number.
pub open spec fn size(x: int) -> int {
    if x < 0 {
        -x
    } else {
        x
    }
}

impl Motion {
    /// The speed over the ground.
    pub open spec fn speed(self) -> int {
        root(self.forward * self.forward + self.side * self.side)
    }

    /// How far the body crouches.
    pub open spec fn crouch(self) -> int {
        if self.upright_height <= self.crouch_height || self.height >= self.upright_height {
            0
        } else if self.height <= self.crouch_height {
            FULL as int
        } else {
            (self.upright_height - self.height) * FULL / (self.upright_height - self.crouch_height)
        }
    }

    /// The part of the motion that goes forward.
    pub open spec fn ahead(self) -> int {
        if self.forward > 0 {
            self.forward * FULL / self.speed()
        } else {
            0
        }
    }

    /// The part of the motion that goes backward.
    pub open spec fn back(self) -> int {
        if self.forward < 0 {
            -self.forward * FULL / self.speed()
        } else {
            0
        }
    }

    /// The part of the motion that goes sideways.
    pub open spec fn aside(self) -> int {
        size(self.side as int) * FULL / self.speed()
    }

    /// The part of the motion that no direction takes.
    pub open spec fn spare(self) -> int {
        let taken = self.ahead() + self.back() + self.aside();
        if taken <= FULL {
            FULL - taken
        } else {
            0
        }
    }

    /// The side that a sideways motion goes to.
    pub open spec fn toward(self) -> Side {
        if self.side < 0 {
            Side::Left
        } else {
            Side::Right
        }
    }
}

/// A product of three weights.
pub open spec fn times3(a: int, b: int, c: int) -> int {
    a * b * c / (FULL * FULL)
}

/// A product of four weights.
pub open spec fn times4(a: int, b: int, c: int, d: int) -> int {
    a * b * c * d / (FULL * FULL * FULL)
}

/// The weight of a clip under a motion.
pub open spec fn weight(cfg: LocomotionConfig, m: Motion, clip: Clip) -> int {
    let crouching = m.crouch();
    let standing = FULL - crouching;
    let (idle, walk, run) = gait(cfg, m.speed());
    if size(m.vertical as int) > cfg.airborne_vertical {
        if clip is Jump {
            FULL as int
        } else {
            0
        }
    } else if m.speed() <= cfg.deadzone {
        match clip {
            Clip::Idle => standing,
            Clip::IdleCrouching => crouching,
            _ => 0,
        }
    } else {
        match clip {
            Clip::Idle => standing * (idle * FULL + (walk + run) * m.spare()) / (FULL * FULL),
            Clip::Walking => times3(standing, walk, m.ahead()),
            Clip::Running => times3(standing, run, m.ahead()),
            Clip::Jump => 0,
            Clip::StrafeWalking(side) => if side == m.toward() {
                times3(standing, walk, m.aside())
            } else {
                0
            },
            Clip::Strafe(side) => if side == m.toward() {
                times3(standing, run, m.aside())
            } else {
                0
            },
            Clip::WalkBackward => times4(standing, walk, m.back(), FULL - m.aside()),
            Clip::WalkBackwardTo(side) => if side == m.toward() {
                times4(standing, walk, m.back(), m.aside())
            } else {
                0
            },
            Clip::RunBackward => times4(standing, run, m.back(), FULL - m.aside()),
            Clip::RunBackwardTo(side) => if side == m.toward() {
                times4(standing, run, m.back(), m.aside())
            } else {
                0
            },
            Clip::IdleCrouching => 0,
            Clip::WalkCrouching(direction) => {
                let (lower, upper, t) = heading_between(m.heading as int);
                if direction.index() == lower {
                    crouching * (FULL - t) / (FULL as int)
                } else if direction.index() == upper {
                    crouching * t / (FULL as int)
                } else {
                    0
                }
            },
        }
    }
}

/// The weight of the idle pose on the upper body: as much as the rifle pack moves the lower one.
pub open spec fn upper_body_weight(cfg: LocomotionConfig, m: Motion) -> int {
    let crouching = m.crouch();
    let standing = FULL - crouching;
    let (idle, walk, run) = gait(cfg, m.speed());
    if size(m.vertical as int) > cfg.airborne_vertical {
        0
    } else if m.speed() <= cfg.deadzone {
        crouching
    } else {
        times3(standing, m.back(), walk + run) + crouching
    }
}

/// Products of weights stay within machine numbers, and a product is no more than its factors.
pub proof fn lemma_products(a: int, b: int, c: int, d: int)
    requires
        0 <= a <= FULL,
        0 <= b <= FULL,
        0 <= c <= FULL,
        0 <= d <= FULL,
    ensures
        0 <= a * b <= FULL * FULL,
        0 <= a * b * c <= FULL * FULL * FULL,
        0 <= a * b * c * d <= FULL * FULL * FULL * FULL,
        0 <= a * b / (FULL as int) <= FULL,
        0 <= times3(a, b, c) <= FULL,
        0 <= times4(a, b, c, d) <= FULL,
{
    let ab = a * b;
    let abc = ab * c;
    let abcd = abc * d;
    assert(0 <= ab <= FULL * FULL) by (nonlinear_arith)
        requires
            ab == a * b,
            0 <= a <= FULL,
            0 <= b <= FULL,
    ;
    assert(0 <= abc <= FULL * FULL * FULL) by (nonlinear_arith)
        requires
            abc == ab * c,
            0 <= ab <= FULL * FULL,
            0 <= c <= FULL,
    ;
    assert(0 <= abcd <= FULL * FULL * FULL * FULL) by (nonlinear_arith)
        requires
            abcd == abc * d,
            0 <= abc <= FULL * FULL * FULL,
            0 <= d <= FULL,
    ;
    let cube: int = FULL * FULL * FULL;
    assert(abcd / cube <= FULL) by {
        assert(cube == 1_000_000_000_000_000_000_000_000_000);
        assert(abcd <= 1_000_000_000_000_000_000_000_000_000_000_000_000);
    }
}

fn product2(a: u64, b: u64) -> (product: u64)
    requires
        a <= FULL,
        b <= FULL,
    ensures
        product == a * b / (FULL as int),
        product <= FULL,
{
    proof {
        lemma_products(a as int, b as int, 0, 0);
    }
    (a as u128 * b as u128 / FULL as u128) as u64
}

fn product3(a: u64, b: u64, c: u64) -> (product: u64)
    requires
        a <= FULL,
        b <= FULL,
        c <= FULL,
    ensures
        product == times3(a as int, b as int, c as int),
        product <= FULL,
{
    proof {
        lemma_products(a as int, b as int, c as int, 0);
    }
    (a as u128 * b as u128 * c as u128 / 1_000_000_000_000_000_000u128) as u64
}

fn product4(a: u64, b: u64, c: u64, d: u64) -> (product: u64)
    requires
        a <= FULL,
        b <= FULL,
        c <= FULL,
        d <= FULL,
    ensures
        product == times4(a as int, b as int, c as int, d as int),
        product <= FULL,
{
    proof {
        lemma_products(a as int, b as int, c as int, d as int);
    }
    (a as u128 * b as u128 * c as u128 * d as u128 / 1_000_000_000_000_000_000_000_000_000u128) as u64
}

/// The weights of all clips under one motion.
pub struct LocomotionTargets {
    airborne: bool,
    still: bool,
    standing: u64,
    crouching: u64,
    gait: Gait,
    ahead: u64,
    back: u64,
    aside: u64,
    spare: u64,
    toward: Side,
    blend: DirectionBlend,
}

impl LocomotionTargets {
    #[verifier::type_invariant]
    spec fn inv(self) -> bool {
        &&& self.standing + self.crouching == FULL
        &&& self.gait.idle + self.gait.walk + self.gait.run == FULL
        &&& self.ahead <= FULL
        &&& self.back <= FULL
        &&& self.aside <= FULL
        &&& self.spare <= FULL
        &&& self.blend.lower_weight + self.blend.upper_weight == FULL
    }

    /// The weight of a clip.
    pub closed spec fn weight_of(self, clip: Clip) -> int {
        if self.airborne {
            if clip is Jump {
                FULL as int
            } else {
                0
            }
        } else if self.still {
            match clip {
                Clip::Idle => self.standing as int,
                Clip::IdleCrouching => self.crouching as int,
                _ => 0,
            }
        } else {
            match clip {
                Clip::Idle => self.standing * (self.gait.idle * FULL + (self.gait.walk
                    + self.gait.run) * self.spare) / (FULL * FULL),
                Clip::Walking => times3(
                    self.standing as int,
                    self.gait.walk as int,
                    self.ahead as int,
                ),
                Clip::Running => times3(
                    self.standing as int,
                    self.gait.run as int,
                    self.ahead as int,
                ),
                Clip::Jump => 0,
                Clip::StrafeWalking(side) => if side == self.toward {
                    times3(self.standing as int, self.gait.walk as int, self.aside as int)
                } else {
                    0
                },
                Clip::Strafe(side) => if side == self.toward {
                    times3(self.standing as int, self.gait.run as int, self.aside as int)
                } else {
                    0
                },
                Clip::WalkBackward => times4(
                    self.standing as int,
                    self.gait.walk as int,
                    self.back as int,
                    FULL - self.aside,
                ),
                Clip::WalkBackwardTo(side) => if side == self.toward {
                    times4(
                        self.standing as int,
                        self.gait.walk as int,
                        self.back as int,
                        self.aside as int,
                    )
                } else {
                    0
                },
                Clip::RunBackward => times4(
                    self.standing as int,
                    self.gait.run as int,
                    self.back as int,
                    FULL - self.aside,
                ),
                Clip::RunBackwardTo(side) => if side == self.toward {
                    times4(
                        self.standing as int,
                        self.gait.run as int,
                        self.back as int,
                        self.aside as int,
                    )
                } else {
                    0
                },
                Clip::IdleCrouching => 0,
                Clip::WalkCrouching(direction) => if direction.index() == self.blend.lower {
                    self.crouching * self.blend.lower_weight / (FULL as int)
                } else if direction.index() == self.blend.upper {
                    self.crouching * self.blend.upper_weight / (FULL as int)
                } else {
                    0
                },
            }
        }
    }

    /// The weight of the idle pose on the upper body.
    pub closed spec fn upper_weight(self) -> int {
        if self.airborne {
            0
        } else if self.still {
            self.crouching as int
        } else {
            times3(self.standing as int, self.back as int, self.gait.walk + self.gait.run)
                + self.crouching
        }
    }

    /// The weight of a clip.
    pub fn weight(&self, clip: Clip) -> (w: u64)
        ensures
            w == self.weight_of(clip),
            w <= FULL,
    {
        proof {
            use_type_invariant(self);
        }
        let standing: u64 = self.standing;
        let walk: u64 = self.gait.walk;
        let run: u64 = self.gait.run;
        if self.airborne {
            return match clip {
                Clip::Jump => FULL,
                _ => 0,
            };
        }
        if self.still {
            return match clip {
                Clip::Idle => standing,
                Clip::IdleCrouching => self.crouching,
                _ => 0,
            };
        }
        match clip {
            Clip::Idle => idle_weight(standing, self.gait, self.spare),
            Clip::Walking => product3(standing, walk, self.ahead),
            Clip::Running => product3(standing, run, self.ahead),
            Clip::Jump => 0,
            Clip::StrafeWalking(side) => if side == self.toward {
                product3(standing, walk, self.aside)
            } else {
                0
            },
            Clip::Strafe(side) => if side == self.toward {
                product3(standing, run, self.aside)
            } else {
                0
            },
            Clip::WalkBackward => product4(standing, walk, self.back, FULL - self.aside),
            Clip::WalkBackwardTo(side) => if side == self.toward {
                product4(standing, walk, self.back, self.aside)
            } else {
                0
            },
            Clip::RunBackward => product4(standing, run, self.back, FULL - self.aside),
            Clip::RunBackwardTo(side) => if side == self.toward {
                product4(standing, run, self.back, self.aside)
            } else {
                0
            },
            Clip::IdleCrouching => 0,
            Clip::WalkCrouching(direction) => {
                let index: u64 = direction.place();
                if index == self.blend.lower {
                    product2(self.crouching, self.blend.lower_weight)
                } else if index == self.blend.upper {
                    product2(self.crouching, self.blend.upper_weight)
                } else {
                    0
                }
            },
        }
    }

    /// The weight of the idle pose on the upper body.
    pub fn idle_upper_body(&self) -> (w: u64)
        ensures
            w == self.upper_weight(),
    {
        proof {
            use_type_invariant(self);
        }
        if self.airborne {
            0
        } else if self.still {
            self.crouching
        } else {
            product3(self.standing, self.back, self.gait.walk + self.gait.run) + self.crouching
        }
    }
}

/// The weight of the idle clip in motion: the idle gait, and what no direction takes.
fn idle_weight(standing: u64, gait: Gait, spare: u64) -> (w: u64)
    requires
        standing <= FULL,
        gait.idle + gait.walk + gait.run == FULL,
        spare <= FULL,
    ensures
        w == standing * (gait.idle * FULL + (gait.walk + gait.run) * spare) / (FULL * FULL),
        w <= FULL,
{
    let moving: u64 = gait.walk + gait.run;
    proof {
        lemma_products(moving as int, spare as int, 0, 0);
        assert(moving * spare <= moving * FULL) by (nonlinear_arith)
            requires
                0 <= moving,
                0 <= spare <= FULL,
        ;
    }
    let inner: u128 = gait.idle as u128 * FULL as u128 + moving as u128 * spare as u128;
    proof {
        assert(inner <= FULL * FULL);
        assert(0 <= standing * inner <= FULL * FULL * FULL) by (nonlinear_arith)
            requires
                0 <= standing <= FULL,
                0 <= inner <= FULL * FULL,
        ;
    }
    (standing as u128 * inner / 1_000_000_000_000_000_000u128) as u64
}

proof fn lemma_within(a: int, b: int, r: int)
    requires
        0 <= r,
        a * a + b * b < (r + 1) * (r + 1),
    ensures
        size(a) <= r,
{
    assert(-r <= a <= r) by (nonlinear_arith)
        requires
            0 <= r,
            a * a + b * b < (r + 1) * (r + 1),
    ;
}

/// The size of a speed is at most the speed over the ground.
pub proof fn lemma_speed_bounds(f: int, s: int, r: int)
    requires
        is_root(r, f * f + s * s),
    ensures
        size(f) <= r,
        size(s) <= r,
{
    lemma_within(f, s, r);
    lemma_within(s, f, r);
}

fn magnitude(x: i64) -> (m: u64)
    ensures
        m == size(x as int),
{
    if x < 0 {
        (-(x as i128)) as u64
    } else {
        x as u64
    }
}

/// The speed over the ground of two speeds at a right angle.
fn ground_speed(forward: i64, side: i64) -> (speed: u64)
    ensures
        speed == root(forward * forward + side * side),
        is_root(speed as int, forward * forward + side * side),
{
    let f: u64 = magnitude(forward);
    let s: u64 = magnitude(side);
    proof {
        assert(f * f == forward * forward) by (nonlinear_arith)
            requires
                f == forward || f == -forward,
        ;
        assert(s * s == side * side) by (nonlinear_arith)
            requires
                s == side || s == -side,
        ;
        assert(0 <= f * f <= 0x8000_0000_0000_0000 * 0x8000_0000_0000_0000) by (nonlinear_arith)
            requires
                0 <= f <= 0x8000_0000_0000_0000,
        ;
        assert(0 <= s * s <= 0x8000_0000_0000_0000 * 0x8000_0000_0000_0000) by (nonlinear_arith)
            requires
                0 <= s <= 0x8000_0000_0000_0000,
        ;
    }
    square_root(f as u128 * f as u128 + s as u128 * s as u128)
}

/// The weights of the clips under a motion.
pub fn compute_locomotion_weights(cfg: &LocomotionConfig, m: &Motion) -> (targets:
    LocomotionTargets)
    ensures
        forall|clip: Clip| #[trigger] targets.weight_of(clip) == weight(*cfg, *m, clip),
        targets.upper_weight() == upper_body_weight(*cfg, *m),
{
    let speed: u64 = ground_speed(m.forward, m.side);
    let crouching: u64 = if m.upright_height <= m.crouch_height || m.height >= m.upright_height {
        0
    } else if m.height <= m.crouch_height {
        FULL
    } else {
        part_of(m.upright_height - m.height, m.upright_height - m.crouch_height)
    };
    let f: u64 = magnitude(m.forward);
    let s: u64 = magnitude(m.side);
    proof {
        lemma_speed_bounds(m.forward as int, m.side as int, speed as int);
    }
    let still = speed <= cfg.deadzone;
    let ahead: u64 = if !still && m.forward > 0 {
        part_of(f, speed)
    } else {
        0
    };
    let back: u64 = if !still && m.forward < 0 {
        part_of(f, speed)
    } else {
        0
    };
    let aside: u64 = if !still {
        part_of(s, speed)
    } else {
        0
    };
    let taken: u64 = ahead + back + aside;
    let spare: u64 = if taken <= FULL {
        FULL - taken
    } else {
        0
    };
    let toward = if m.side < 0 {
        Side::Left
    } else {
        Side::Right
    };
    LocomotionTargets {
        airborne: magnitude(m.vertical) > cfg.airborne_vertical,
        still,
        standing: FULL - crouching,
        crouching,
        gait: locomotion_gait_blend(cfg, speed),
        ahead,
        back,
        aside,
        spare,
        toward,
        blend: direction_8way_blend(m.heading),
    }
}

impl Clip {
    /// The name under which the animation graph knows the clip.
    pub open spec fn named(self) -> Seq<char> {
        match self {
            Clip::Idle => "locomotion/idle"@,
            Clip::Walking => "locomotion/walking"@,
            Clip::Running => "locomotion/running"@,
            Clip::Jump => "locomotion/jump"@,
            Clip::StrafeWalking(Side::Left) => "locomotion/left strafe walking"@,
            Clip::StrafeWalking(Side::Right) => "locomotion/right strafe walking"@,
            Clip::Strafe(Side::Left) => "locomotion/left strafe"@,
            Clip::Strafe(Side::Right) => "locomotion/right strafe"@,
            Clip::WalkBackward => "rifle-8-way/walk backward"@,
            Clip::WalkBackwardTo(Side::Left) => "rifle-8-way/walk backward left"@,
            Clip::WalkBackwardTo(Side::Right) => "rifle-8-way/walk backward right"@,
            Clip::RunBackward => "rifle-8-way/run backward"@,
            Clip::RunBackwardTo(Side::Left) => "rifle-8-way/run backward left"@,
            Clip::RunBackwardTo(Side::Right) => "rifle-8-way/run backward right"@,
            Clip::IdleCrouching => "rifle-8-way/idle crouching"@,
            Clip::WalkCrouching(Direction::Forward) => "rifle-8-way/walk crouching forward"@,
            Clip::WalkCrouching(Direction::ForwardLeft) => "rifle-8-way/walk crouching forward left"@,
            Clip::WalkCrouching(Direction::Left) => "rifle-8-way/walk crouching left"@,
            Clip::WalkCrouching(Direction::BackwardLeft) => "rifle-8-way/walk crouching backward left"@,
            Clip::WalkCrouching(Direction::Backward) => "rifle-8-way/walk crouching backward"@,
            Clip::WalkCrouching(Direction::BackwardRight) => "rifle-8-way/walk crouching backward right"@,
            Clip::WalkCrouching(Direction::Right) => "rifle-8-way/walk crouching right"@,
            Clip::WalkCrouching(Direction::ForwardRight) => "rifle-8-way/walk crouching forward right"@,
        }
    }

    /// The name under which the animation graph knows the clip.
    pub fn name(self) -> (name: &'static str)
        ensures
            name@ == self.named(),
    {
        match self {
            Clip::Idle => "locomotion/idle",
            Clip::Walking => "locomotion/walking",
            Clip::Running => "locomotion/running",
            Clip::Jump => "locomotion/jump",
            Clip::StrafeWalking(Side::Left) => "locomotion/left strafe walking",
            Clip::StrafeWalking(Side::Right) => "locomotion/right strafe walking",
            Clip::Strafe(Side::Left) => "locomotion/left strafe",
            Clip::Strafe(Side::Right) => "locomotion/right strafe",
            Clip::WalkBackward => "rifle-8-way/walk backward",
            Clip::WalkBackwardTo(Side::Left) => "rifle-8-way/walk backward left",
            Clip::WalkBackwardTo(Side::Right) => "rifle-8-way/walk backward right",
            Clip::RunBackward => "rifle-8-way/run backward",
            Clip::RunBackwardTo(Side::Left) => "rifle-8-way/run backward left",
            Clip::RunBackwardTo(Side::Right) => "rifle-8-way/run backward right",
            Clip::IdleCrouching => "rifle-8-way/idle crouching",
            Clip::WalkCrouching(Direction::Forward) => "rifle-8-way/walk crouching forward",
            Clip::WalkCrouching(Direction::ForwardLeft) => "rifle-8-way/walk crouching forward left",
            Clip::WalkCrouching(Direction::Left) => "rifle-8-way/walk crouching left",
            Clip::WalkCrouching(Direction::BackwardLeft) => "rifle-8-way/walk crouching backward left",
            Clip::WalkCrouching(Direction::Backward) => "rifle-8-way/walk crouching backward",
            Clip::WalkCrouching(Direction::BackwardRight) => "rifle-8-way/walk crouching backward right",
            Clip::WalkCrouching(Direction::Right) => "rifle-8-way/walk crouching right",
            Clip::WalkCrouching(Direction::ForwardRight) => "rifle-8-way/walk crouching forward right",
        }
    }

    /// All clips.
    pub open spec fn all_spec() -> Seq<Clip> {
        seq![
            Clip::Idle,
            Clip::Walking,
            Clip::Running,
            Clip::Jump,
            Clip::StrafeWalking(Side::Left),
            Clip::StrafeWalking(Side::Right),
            Clip::Strafe(Side::Left),
            Clip::Strafe(Side::Right),
            Clip::WalkBackward,
            Clip::WalkBackwardTo(Side::Left),
            Clip::WalkBackwardTo(Side::Right),
            Clip::RunBackward,
            Clip::RunBackwardTo(Side::Left),
            Clip::RunBackwardTo(Side::Right),
            Clip::IdleCrouching,
            Clip::WalkCrouching(Direction::Forward),
            Clip::WalkCrouching(Direction::ForwardLeft),
            Clip::WalkCrouching(Direction::Left),
            Clip::WalkCrouching(Direction::BackwardLeft),
            Clip::WalkCrouching(Direction::Backward),
            Clip::WalkCrouching(Direction::BackwardRight),
            Clip::WalkCrouching(Direction::Right),
            Clip::WalkCrouching(Direction::ForwardRight),
        ]
    }

    /// All clips.
    pub fn all() -> (clips: Vec<Clip>)
        ensures
            clips@ == Clip::all_spec(),
    {
        vec![
            Clip::Idle,
            Clip::Walking,
            Clip::Running,
            Clip::Jump,
            Clip::StrafeWalking(Side::Left),
            Clip::StrafeWalking(Side::Right),
            Clip::Strafe(Side::Left),
            Clip::Strafe(Side::Right),
            Clip::WalkBackward,
            Clip::WalkBackwardTo(Side::Left),
            Clip::WalkBackwardTo(Side::Right),
            Clip::RunBackward,
            Clip::RunBackwardTo(Side::Left),
            Clip::RunBackwardTo(Side::Right),
            Clip::IdleCrouching,
            Clip::WalkCrouching(Direction::Forward),
            Clip::WalkCrouching(Direction::ForwardLeft),
            Clip::WalkCrouching(Direction::Left),
            Clip::WalkCrouching(Direction::BackwardLeft),
            Clip::WalkCrouching(Direction::Backward),
            Clip::WalkCrouching(Direction::BackwardRight),
            Clip::WalkCrouching(Direction::Right),
            Clip::WalkCrouching(Direction::ForwardRight),
        ]
    }
}

/// The list of all clips leaves none out.
pub proof fn lemma_all_clips_are_listed(clip: Clip)
    ensures
        Clip::all_spec().contains(clip),
{
    let all = Clip::all_spec();
    let i = place_of(clip);
    assert(all[i] == clip);
}

/// The place of a clip in the list of all clips.
spec fn place_of(clip: Clip) -> int {
    match clip {
        Clip::Idle => 0,
        Clip::Walking => 1,
        Clip::Running => 2,
        Clip::Jump => 3,
        Clip::StrafeWalking(Side::Left) => 4,
        Clip::StrafeWalking(Side::Right) => 5,
        Clip::Strafe(Side::Left) => 6,
        Clip::Strafe(Side::Right) => 7,
        Clip::WalkBackward => 8,
        Clip::WalkBackwardTo(Side::Left) => 9,
        Clip::WalkBackwardTo(Side::Right) => 10,
        Clip::RunBackward => 11,
        Clip::RunBackwardTo(Side::Left) => 12,
        Clip::RunBackwardTo(Side::Right) => 13,
        Clip::IdleCrouching => 14,
        Clip::WalkCrouching(Direction::Forward) => 15,
        Clip::WalkCrouching(Direction::ForwardLeft) => 16,
        Clip::WalkCrouching(Direction::Left) => 17,
        Clip::WalkCrouching(Direction::BackwardLeft) => 18,
        Clip::WalkCrouching(Direction::Backward) => 19,
        Clip::WalkCrouching(Direction::BackwardRight) => 20,
        Clip::WalkCrouching(Direction::Right) => 21,
        Clip::WalkCrouching(Direction::ForwardRight) => 22,
    }
}

/// The place of the clip that a name can only belong to, by its length and some letters.
spec fn place_by_name(n: Seq<char>) -> int {
    if n.len() == 15 {
        if n[11] == 'i' {
            0
        } else {
            3
        }
    } else if n.len() == 18 {
        if n[11] == 'w' {
            1
        } else {
            2
        }
    } else if n.len() == 22 {
        6
    } else if n.len() == 23 {
        7
    } else if n.len() == 24 {
        11
    } else if n.len() == 25 {
        8
    } else if n.len() == 26 {
        14
    } else if n.len() == 29 {
        12
    } else if n.len() == 30 {
        if n[0] == 'l' {
            4
        } else if n[12] == 'w' {
            9
        } else {
            13
        }
    } else if n.len() == 31 {
        if n[0] == 'l' {
            5
        } else if n[17] == 'b' {
            10
        } else {
            17
        }
    } else if n.len() == 32 {
        21
    } else if n.len() == 34 {
        15
    } else if n.len() == 35 {
        19
    } else if n.len() == 39 {
        16
    } else if n.len() == 40 {
        if n[27] == 'b' {
            18
        } else {
            22
        }
    } else if n.len() == 41 {
        20
    } else {
        -1
    }
}

proof fn lemma_place_by_name(clip: Clip)
    ensures
        place_by_name(clip.named()) == place_of(clip),
{
    match clip {
        Clip::Idle => {
            reveal_strlit("locomotion/idle");
        },
        Clip::Walking => {
            reveal_strlit("locomotion/walking");
        },
        Clip::Running => {
            reveal_strlit("locomotion/running");
        },
        Clip::Jump => {
            reveal_strlit("locomotion/jump");
        },
        Clip::StrafeWalking(Side::Left) => {
            reveal_strlit("locomotion/left strafe walking");
        },
        Clip::StrafeWalking(Side::Right) => {
            reveal_strlit("locomotion/right strafe walking");
        },
        Clip::Strafe(Side::Left) => {
            reveal_strlit("locomotion/left strafe");
        },
        Clip::Strafe(Side::Right) => {
            reveal_strlit("locomotion/right strafe");
        },
        Clip::WalkBackward => {
            reveal_strlit("rifle-8-way/walk backward");
        },
        Clip::WalkBackwardTo(Side::Left) => {
            reveal_strlit("rifle-8-way/walk backward left");
        },
        Clip::WalkBackwardTo(Side::Right) => {
            reveal_strlit("rifle-8-way/walk backward right");
        },
        Clip::RunBackward => {
            reveal_strlit("rifle-8-way/run backward");
        },
        Clip::RunBackwardTo(Side::Left) => {
            reveal_strlit("rifle-8-way/run backward left");
        },
        Clip::RunBackwardTo(Side::Right) => {
            reveal_strlit("rifle-8-way/run backward right");
        },
        Clip::IdleCrouching => {
            reveal_strlit("rifle-8-way/idle crouching");
        },
        Clip::WalkCrouching(Direction::Forward) => {
            reveal_strlit("rifle-8-way/walk crouching forward");
        },
        Clip::WalkCrouching(Direction::ForwardLeft) => {
            reveal_strlit("rifle-8-way/walk crouching forward left");
        },
        Clip::WalkCrouching(Direction::Left) => {
            reveal_strlit("rifle-8-way/walk crouching left");
        },
        Clip::WalkCrouching(Direction::BackwardLeft) => {
            reveal_strlit("rifle-8-way/walk crouching backward left");
        },
        Clip::WalkCrouching(Direction::Backward) => {
            reveal_strlit("rifle-8-way/walk crouching backward");
        },
        Clip::WalkCrouching(Direction::BackwardRight) => {
            reveal_strlit("rifle-8-way/walk crouching backward right");
        },
        Clip::WalkCrouching(Direction::Right) => {
            reveal_strlit("rifle-8-way/walk crouching right");
        },
        Clip::WalkCrouching(Direction::ForwardRight) => {
            reveal_strlit("rifle-8-way/walk crouching forward right");
        },
    }
}

/// Every clip has a name of its own.
pub proof fn lemma_clip_names_differ(a: Clip, b: Clip)
    requires
        a.named() == b.named(),
    ensures
        a == b,
{
    lemma_place_by_name(a);
    lemma_place_by_name(b);
}

/// The clip of a name.
pub fn clip_named(name: &str) -> (clip: Option<Clip>)
    ensures
        match clip {
            Some(c) => c.named() == name@,
            None => forall|c: Clip| #[trigger] c.named() != name@,
        },
{
    let all = Clip::all();
    let mut i: usize = 0;
    while i < all.len()
        invariant
            i <= all@.len(),
            all@ == Clip::all_spec(),
            forall|j: int| 0 <= j < i ==> (#[trigger] all@[j]).named() != name@,
        decreases all@.len() - i,
    {
        if same_text(all[i].name(), name) {
            return Some(all[i]);
        }
        i += 1;
    }
    proof {
        assert forall|c: Clip| #[trigger] c.named() != name@ by {
            lemma_all_clips_are_listed(c);
            let j = all@.index_of(c);
            assert(all@[j] == c);
        }
    }
    None
}

/// The weight under a name: that of the clip of the name, nothing if there is none.
pub open spec fn named_weight(targets: LocomotionTargets, name: Seq<char>) -> int {
    if exists|c: Clip| #[trigger] c.named() == name {
        targets.weight_of(choose|c: Clip| #[trigger] c.named() == name)
    } else {
        0
    }
}

/// What to do with a node of the animation graph.
#[derive(Clone, Copy, Debug, PartialEq, Eq, Structural)]
pub enum NodeStep {
    /// The node does not play and need not.
    Leave,
    /// Start the node, over and over, at this weight.
    Play(u64),
    /// Give the node that plays this weight.
    SetWeight(u64),
}

/// What a weight asks of a node.
pub open spec fn step_for(playing: bool, w: u64) -> NodeStep {
    if playing {
        NodeStep::SetWeight(w)
    } else if w > 0 {
        NodeStep::Play(w)
    } else {
        NodeStep::Leave
    }
}

/// Fits a node to its weight; a node is started only once.
pub fn set_node_weight(playing: bool, w: u64) -> (step: NodeStep)
    ensures
        step == step_for(playing, w),
{
    if playing {
        NodeStep::SetWeight(w)
    } else if w > 0 {
        NodeStep::Play(w)
    } else {
        NodeStep::Leave
    }
}

/// Fits the nodes of the animation graph to the weights. A node is known by its name and whether
/// it plays.
pub fn apply_locomotion_weights(
    targets: &LocomotionTargets,
    nodes: &Vec<(String, bool)>,
) -> (steps: Vec<NodeStep>)
    ensures
        steps@.len() == nodes@.len(),
        forall|i: int|
            0 <= i < nodes@.len() ==> #[trigger] steps@[i] == step_for(
                nodes@[i].1,
                named_weight(*targets, nodes@[i].0@) as u64,
            ),
{
    let mut steps: Vec<NodeStep> = Vec::new();
    let mut i: usize = 0;
    while i < nodes.len()
        invariant
            i <= nodes@.len(),
            steps@.len() == i,
            forall|j: int|
                0 <= j < i ==> #[trigger] steps@[j] == step_for(
                    nodes@[j].1,
                    named_weight(*targets, nodes@[j].0@) as u64,
                ),
        decreases nodes@.len() - i,
    {
        let ghost name = nodes@[i as int].0@;
        let w: u64 = match clip_named(nodes[i].0.as_str()) {
            Some(c) => {
                proof {
                    lemma_clip_names_differ(c, choose|d: Clip| #[trigger] d.named() == name);
                }
                targets.weight(c)
            },
            None => 0,
        };
        assert(w == named_weight(*targets, name));
        steps.push(set_node_weight(nodes[i].1, w));
        i += 1;
    }
    steps
}

/// In the air only the jump plays.
pub proof fn lemma_only_the_jump_plays_in_the_air(cfg: LocomotionConfig, m: Motion, clip: Clip)
    requires
        size(m.vertical as int) > cfg.airborne_vertical,
    ensures
        weight(cfg, m, clip) == if clip is Jump {
            FULL as int
        } else {
            0
        },
        upper_body_weight(cfg, m) == 0,
{
}

/// What the clips of the rifle pack weigh together.
pub open spec fn rifle_weight(cfg: LocomotionConfig, m: Motion) -> int {
    weight(cfg, m, Clip::WalkBackward) + weight(cfg, m, Clip::WalkBackwardTo(Side::Left)) + weight(
        cfg,
        m,
        Clip::WalkBackwardTo(Side::Right),
    ) + weight(cfg, m, Clip::RunBackward) + weight(cfg, m, Clip::RunBackwardTo(Side::Left))
        + weight(cfg, m, Clip::RunBackwardTo(Side::Right)) + weight(cfg, m, Clip::IdleCrouching)
        + crouched_walk_weight(cfg, m)
}

/// What the clips that walk crouched weigh together.
pub open spec fn crouched_walk_weight(cfg: LocomotionConfig, m: Motion) -> int {
    weight(cfg, m, Clip::WalkCrouching(Direction::Forward)) + weight(
        cfg,
        m,
        Clip::WalkCrouching(Direction::ForwardLeft),
    ) + weight(cfg, m, Clip::WalkCrouching(Direction::Left)) + weight(
        cfg,
        m,
        Clip::WalkCrouching(Direction::BackwardLeft),
    ) + weight(cfg, m, Clip::WalkCrouching(Direction::Backward)) + weight(
        cfg,
        m,
        Clip::WalkCrouching(Direction::BackwardRight),
    ) + weight(cfg, m, Clip::WalkCrouching(Direction::Right)) + weight(
        cfg,
        m,
        Clip::WalkCrouching(Direction::ForwardRight),
    )
}

/// Rounding down two parts loses at most one against rounding down their sum.
pub proof fn lemma_floor_sum(a: int, b: int, d: int)
    requires
        d > 0,
    ensures
        a / d + b / d <= (a + b) / d <= a / d + b / d + 1,
{
    lemma_fundamental_div_mod(a, d);
    lemma_fundamental_div_mod(b, d);
    lemma_fundamental_div_mod(a + b, d);
    let x = a / d;
    let y = b / d;
    let z = (a + b) / d;
    assert(x + y <= z <= x + y + 1) by (nonlinear_arith)
        requires
            a == d * x + a % d,
            b == d * y + b % d,
            a + b == d * z + (a + b) % d,
            0 <= a % d < d,
            0 <= b % d < d,
            0 <= (a + b) % d < d,
            d > 0,
    ;
}

/// The four backward clips share what the back of the motion weighs, up to rounding.
pub proof fn lemma_backward_share(s: int, w: int, r: int, b: int, a: int)
    requires
        0 <= s <= FULL,
        0 <= w <= FULL,
        0 <= r <= FULL,
        0 <= b <= FULL,
        0 <= a <= FULL,
    ensures
        ({
            let shared = times4(s, w, b, FULL - a) + times4(s, w, b, a) + times4(s, r, b, FULL - a)
                + times4(s, r, b, a);
            shared <= times3(s, b, w + r) <= shared + 3
        }),
{
    let d: int = FULL * FULL * FULL;
    let x1 = s * w * b * (FULL - a);
    let x2 = s * w * b * a;
    let x3 = s * r * b * (FULL - a);
    let x4 = s * r * b * a;
    lemma_floor_sum(x1, x2, d);
    lemma_floor_sum(x3, x4, d);
    lemma_floor_sum(x1 + x2, x3 + x4, d);
    let total = s * b * (w + r);
    let sq: int = FULL * FULL;
    assert(x1 + x2 + (x3 + x4) == total * FULL) by (nonlinear_arith)
        requires
            x1 == s * w * b * (FULL - a),
            x2 == s * w * b * a,
            x3 == s * r * b * (FULL - a),
            x4 == s * r * b * a,
            total == s * b * (w + r),
    ;
    assert(total >= 0) by (nonlinear_arith)
        requires
            total == s * b * (w + r),
            s >= 0,
            b >= 0,
            w >= 0,
            r >= 0,
    ;
    assert((total * FULL) / d == total / sq) by {
        assert(d == sq * FULL);
        vstd::arithmetic::div_mod::lemma_div_multiples_vanish_quotient(FULL as int, total, sq);
        assert(FULL * total == total * FULL);
        assert(FULL * sq == d);
    }
}

/// The arms keep the idle pose as far as the rifle pack moves the legs: the weight of the upper
/// body is that of all clips of the rifle pack together, up to rounding.
pub proof fn lemma_upper_body_follows_the_rifle_pack(cfg: LocomotionConfig, m: Motion)
    ensures
        rifle_weight(cfg, m) <= upper_body_weight(cfg, m) <= rifle_weight(cfg, m) + 4,
{
    let c = m.crouch();
    assert(0 <= c <= FULL) by {
        if m.upright_height <= m.crouch_height || m.height >= m.upright_height {
        } else if m.height <= m.crouch_height {
        } else {
            lemma_part(m.upright_height - m.height, m.upright_height - m.crouch_height);
        }
    }
    if size(m.vertical as int) <= cfg.airborne_vertical && m.speed() > cfg.deadzone {
        lemma_root_exists(m.forward as int, m.side as int);
        lemma_speed_bounds(m.forward as int, m.side as int, m.speed());
        lemma_part(size(m.forward as int), m.speed());
        lemma_part(size(m.side as int), m.speed());
        lemma_gaits_share_the_weight(cfg, m.speed());
        let (idle, walk, run) = gait(cfg, m.speed());
        lemma_backward_share(FULL - c, walk, run, m.back(), m.aside());
        let t = heading_between(m.heading as int).2;
        lemma_floor_sum(c * (FULL - t), c * t, FULL as int);
        assert(c * (FULL - t) + c * t == c * FULL) by (nonlinear_arith);
        assert(c * FULL / (FULL as int) == c);
    }
}

/// Every sum of two squares has a root.
pub proof fn lemma_root_exists(f: int, s: int)
    ensures
        is_root(root(f * f + s * s), f * f + s * s),
{
    assert(f * f + s * s >= 0) by (nonlinear_arith);
    lemma_roots(f * f + s * s);
}

/// Every natural number has a root.
proof fn lemma_roots(n: int)
    requires
        n >= 0,
    ensures
        exists|r: int| is_root(r, n),
    decreases n,
{
    if n == 0 {
        assert(is_root(0, 0));
    } else {
        let before = n - 1;
        lemma_roots(before);
        let r = choose|r: int| is_root(r, before);
        if n < (r + 1) * (r + 1) {
            assert(is_root(r, n));
        } else {
            assert(n < (r + 2) * (r + 2)) by (nonlinear_arith)
                requires
                    n == (r + 1) * (r + 1),
                    r >= 0,
            ;
            assert(is_root(r + 1, n));
        }
    }
}

} // verus!
