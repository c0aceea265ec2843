//! Speeds and sizes of the first-person player.
//!
//! Speeds are in micrometres per second, lengths in micrometres, times in nanoseconds and ratios
//! in millionths.

use vstd::prelude::*;
use crate::blend::{clamped, lemma_quotient, lemma_quotients_keep_order};
use crate::controller::HeightChange;
use crate::controller::TopSpeed;

verus! {

/// The millionths of a whole.
pub const WHOLE: u32 = 1_000_000;

/// A second, in the product of a ratio and a time.
pub const RATIO_SECOND: u64 = 1_000_000_000_000_000;

/// A second.
pub const SECOND: u64 = 1_000_000_000;

/// The speeds that a player can keep up.
#[derive(Clone, Copy, Debug, PartialEq, Eq, Structural)]
pub struct SpeedLimits {
    pub walk_speed: u64,
    pub run_speed: u64,
    pub crouched_speed: u64,
}

/// The smaller of two numbers.
pub open spec fn smaller(a: int, b: int) -> int {
    if a <= b {
        a
    } else {
        b
    }
}

/// The larger of two numbers.
pub open spec fn larger(a: int, b: int) -> int {
    if a >= b {
        a
    } else {
        b
    }
}

impl SpeedLimits {
    /// The limit for a gait.
    pub open spec fn limit(&self, top: TopSpeed) -> u64 {
        match top {
            TopSpeed::Crouched => self.crouched_speed,
            TopSpeed::Run => self.run_speed,
            TopSpeed::Walk => self.walk_speed,
        }
    }

    /// The speed that the player goes for: what the input asks, within the limit.
    pub fn wish_speed(&self, asked: u64, top: TopSpeed) -> (speed: u64)
        ensures
            speed == smaller(asked as int, self.limit(top) as int),
    {
        let limit: u64 = match top {
            TopSpeed::Crouched => self.crouched_speed,
            TopSpeed::Run => self.run_speed,
            TopSpeed::Walk => self.walk_speed,
        };
        if asked <= limit {
            asked
        } else {
            limit
        }
    }
}

/// A speed within a cap.
pub fn capped(speed: u64, cap: u64) -> (limited: u64)
    ensures
        limited == smaller(speed as int, cap as int),
{
    if speed <= cap {
        speed
    } else {
        cap
    }
}

/// A rate of a speed, per second, over some time.
pub open spec fn portion(speed: int, rate: int, dt: int) -> int {
    speed * rate * dt / (RATIO_SECOND as int)
}

/// The speed along the ground that friction leaves.
pub open spec fn slowed(speed: int, friction: int, stop_speed: int, cutoff: int, dt: int) -> int {
    if speed > cutoff {
        larger(speed - portion(larger(speed, stop_speed), friction, dt), 0)
    } else {
        0
    }
}

fn portion_of(speed: u64, rate: u32, dt: u32) -> (part: u128)
    ensures
        part == portion(speed as int, rate as int, dt as int),
{
    proof {
        assert(speed * rate <= 0xffff_ffff_ffff_ffff * 0xffff_ffff) by (nonlinear_arith)
            requires
                0 <= speed <= 0xffff_ffff_ffff_ffff,
                0 <= rate <= 0xffff_ffff,
        ;
        assert(speed * rate * dt <= 0xffff_ffff_ffff_ffff * 0xffff_ffff * 0xffff_ffff)
            by (nonlinear_arith)
            requires
                0 <= speed * rate <= 0xffff_ffff_ffff_ffff * 0xffff_ffff,
                0 <= dt <= 0xffff_ffff,
        ;
        assert(0 <= speed * rate) by (nonlinear_arith)
            requires
                0 <= speed,
                0 <= rate,
        ;
    }
    let product: u128 = speed as u128 * rate as u128;
    let product: u128 = product * dt as u128;
    product / RATIO_SECOND as u128
}

/// Friction on the ground over a step. A player at or below `cutoff` stops; a faster one loses a
/// share of its speed, but at least the share of `stop_speed`.
pub fn after_friction(speed: u64, friction: u32, stop_speed: u64, cutoff: u64, dt: u32) -> (left:
    u64)
    ensures
        left == slowed(
            speed as int,
            friction as int,
            stop_speed as int,
            cutoff as int,
            dt as int,
        ),
        left <= speed,
{
    if speed <= cutoff {
        return 0;
    }
    let control: u64 = if speed >= stop_speed {
        speed
    } else {
        stop_speed
    };
    let drop: u128 = portion_of(control, friction, dt);
    proof {
        lemma_portion_positive(control as int, friction as int, dt as int);
    }
    if drop >= speed as u128 {
        0
    } else {
        speed - drop as u64
    }
}

proof fn lemma_portion_positive(speed: int, rate: int, dt: int)
    requires
        speed >= 0,
        rate >= 0,
        dt >= 0,
    ensures
        portion(speed, rate, dt) >= 0,
{
    assert(speed * rate * dt >= 0) by (nonlinear_arith)
        requires
            speed >= 0,
            rate >= 0,
            dt >= 0,
    ;
}

/// What acceleration adds to the speed in the direction that the player goes for.
pub open spec fn gain(wish: int, projection: int, acceleration: int, dt: int) -> int {
    if wish <= projection {
        0
    } else {
        smaller(portion(wish, acceleration, dt), wish - projection)
    }
}

/// What acceleration adds over a step. `projection` is the speed that the player already has in
/// the direction that it goes for.
pub fn acceleration(wish: u64, projection: i64, rate: u32, dt: u32) -> (added: u128)
    ensures
        added == gain(wish as int, projection as int, rate as int, dt as int),
{
    let missing: i128 = wish as i128 - projection as i128;
    if missing <= 0 {
        return 0;
    }
    let part: u128 = portion_of(wish, rate, dt);
    if part <= missing as u128 {
        part
    } else {
        missing as u128
    }
}

/// Acceleration does not overshoot: it never takes a player past the speed that it goes for, and
/// never slows it.
pub proof fn lemma_acceleration_does_not_overshoot(
    wish: int,
    projection: int,
    acceleration: int,
    dt: int,
)
    requires
        wish >= 0,
        acceleration >= 0,
        dt >= 0,
    ensures
        projection <= projection + gain(wish, projection, acceleration, dt) <= larger(
            wish,
            projection,
        ),
{
    lemma_portion_positive(wish, acceleration, dt);
}

/// Friction brings a player to a stop: whatever the speed, it is at the cutoff or below, or it
/// shrinks in every step that takes a share of it.
pub proof fn lemma_friction_slows(speed: int, friction: int, stop_speed: int, cutoff: int, dt: int)
    requires
        speed > 0,
        cutoff >= 0,
        speed <= cutoff || portion(larger(speed, stop_speed), friction, dt) > 0,
    ensures
        0 <= slowed(speed, friction, stop_speed, cutoff, dt) < speed,
{
}

/// The size of the player's capsule.
#[derive(Clone, Copy, Debug, PartialEq, Eq, Structural)]
pub struct FpsPlayerConfig {
    /// The upright height.
    pub height: u32,
    /// The radius as a part of the upright height.
    pub radius_ratio: u32,
    /// The crouched height as a part of the upright height.
    pub crouch_height_ratio: u32,
    /// The least radius, as a part of the upright height.
    pub min_radius_ratio: u32,
    /// The largest radius, as a part of the upright height.
    pub max_radius_ratio: u32,
}

/// A part of a length.
pub open spec fn part(length: int, ratio: int) -> int {
    length * ratio / (WHOLE as int)
}

fn part_of(length: u32, ratio: u32) -> (part_: u64)
    ensures
        part_ == part(length as int, ratio as int),
{
    assert(length * ratio <= 0xffff_ffff * 0xffff_ffff) by (nonlinear_arith)
        requires
            0 <= length <= 0xffff_ffff,
            0 <= ratio <= 0xffff_ffff,
    ;
    assert(length * ratio >= 0) by (nonlinear_arith)
        requires
            0 <= length,
            0 <= ratio,
    ;
    length as u64 * ratio as u64 / WHOLE as u64
}

impl FpsPlayerConfig {
    /// The bounds of the radius are in order.
    pub open spec fn wf(&self) -> bool {
        self.min_radius_ratio <= self.max_radius_ratio
    }

    /// The radius of the capsule.
    pub open spec fn radius_spec(&self) -> int {
        part(
            self.height as int,
            clamped(
                self.radius_ratio as int,
                self.min_radius_ratio as int,
                self.max_radius_ratio as int,
            ),
        )
    }

    /// The radius of the capsule.
    pub fn radius(&self) -> (radius: u64)
        requires
            self.wf(),
        ensures
            radius == self.radius_spec(),
    {
        let ratio: u32 = if self.radius_ratio < self.min_radius_ratio {
            self.min_radius_ratio
        } else if self.radius_ratio > self.max_radius_ratio {
            self.max_radius_ratio
        } else {
            self.radius_ratio
        };
        part_of(self.height, ratio)
    }

    /// The height of the crouched capsule.
    pub fn crouch_height(&self) -> (height: u64)
        ensures
            height == part(self.height as int, self.crouch_height_ratio as int),
    {
        part_of(self.height, self.crouch_height_ratio)
    }

    /// The distance between the centres of the two half spheres of a capsule of height `height`.
    pub fn segment(&self, height: u64) -> (length: u64)
        requires
            self.wf(),
        ensures
            length == larger(height - 2 * self.radius_spec(), 0),
    {
        let radius: u64 = self.radius();
        if radius >= height || radius >= height - radius {
            0
        } else {
            height - radius - radius
        }
    }

    /// Takes over the geometry of new settings; the size of the model stays.
    pub fn sync_geometry(&mut self, crouch_height_ratio: u32, min_ratio: u32, max_ratio: u32)
        ensures
            *final(self) == (FpsPlayerConfig {
                crouch_height_ratio,
                min_radius_ratio: min_ratio,
                max_radius_ratio: max_ratio,
                ..*old(self)
            }),
    {
        self.crouch_height_ratio = crouch_height_ratio;
        self.min_radius_ratio = min_ratio;
        self.max_radius_ratio = max_ratio;
    }
}

/// The upright capsule has a straight part, as long as the largest radius is below half of the
/// height.
pub proof fn lemma_capsule_has_a_segment(config: FpsPlayerConfig)
    requires
        config.wf(),
        config.height > 0,
        config.max_radius_ratio < 500_000,
    ensures
        2 * config.radius_spec() < config.height,
{
    let ratio = clamped(
        config.radius_ratio as int,
        config.min_radius_ratio as int,
        config.max_radius_ratio as int,
    );
    let product = config.height * ratio;
    assert(2 * product < config.height * WHOLE) by (nonlinear_arith)
        requires
            config.height > 0,
            ratio < 500_000,
            product == config.height * ratio,
            WHOLE == 1_000_000,
    ;
    assert(config.radius_spec() == product / (WHOLE as int));
}

/// The height after a step.
pub open spec fn resized(
    height: int,
    change: HeightChange,
    shrink: int,
    grow: int,
    dt: int,
    low: int,
    high: int,
) -> int {
    match change {
        HeightChange::Stays => height,
        HeightChange::Shrinks => clamped(height - shrink * dt / (SECOND as int), low, high),
        HeightChange::Grows => clamped(height + grow * dt / (SECOND as int), low, high),
    }
}

fn travelled(speed: u32, dt: u32) -> (length: u64)
    ensures
        length == speed * dt / (SECOND as int),
        length <= 0xffff_ffff_ffff,
{
    assert(0 <= speed * dt <= 0xffff_ffff * 0xffff_ffff) by (nonlinear_arith)
        requires
            0 <= speed <= 0xffff_ffff,
            0 <= dt <= 0xffff_ffff,
    ;
    speed as u64 * dt as u64 / SECOND
}

/// The height of the capsule after a step: it moves at the given speeds and stays between the
/// crouched and the upright height.
pub fn next_height(
    height: u64,
    change: HeightChange,
    shrink: u32,
    grow: u32,
    dt: u32,
    low: u64,
    high: u64,
) -> (next: u64)
    requires
        low <= high,
    ensures
        next == resized(
            height as int,
            change,
            shrink as int,
            grow as int,
            dt as int,
            low as int,
            high as int,
        ),
        change !is Stays ==> low <= next <= high,
{
    let moved: u64 = match change {
        HeightChange::Stays => {
            return height;
        },
        HeightChange::Shrinks => {
            let length: u64 = travelled(shrink, dt);
            if height < length || height - length < low {
                return low;
            }
            height - length
        },
        HeightChange::Grows => {
            let length: u64 = travelled(grow, dt);
            if height > high || length > high - height {
                return high;
            }
            height + length
        },
    };
    if moved < low {
        low
    } else if moved > high {
        high
    } else {
        moved
    }
}

/// Every gait has its own limit: a player goes as fast as the input asks, but no faster crouched
/// than the crouched speed, no faster running than the running speed, and no faster walking than
/// the walking speed.
pub proof fn lemma_each_gait_has_its_limit(
    limits: SpeedLimits,
    asked: u64,
    crouched: u64,
    run: u64,
    walk: u64,
)
    requires
        call_ensures(SpeedLimits::wish_speed, (&limits, asked, TopSpeed::Crouched), crouched),
        call_ensures(SpeedLimits::wish_speed, (&limits, asked, TopSpeed::Run), run),
        call_ensures(SpeedLimits::wish_speed, (&limits, asked, TopSpeed::Walk), walk),
    ensures
        crouched <= limits.crouched_speed && run <= limits.run_speed && walk <= limits.walk_speed,
        crouched <= asked && run <= asked && walk <= asked,
        crouched == asked || crouched == limits.crouched_speed,
        run == asked || run == limits.run_speed,
        walk == asked || walk == limits.walk_speed,
        limits.crouched_speed <= limits.walk_speed <= limits.run_speed ==> crouched <= walk <= run,
{
}

/// Asking for more never makes a player slower.
pub proof fn lemma_asking_for_more_is_no_slower(
    limits: SpeedLimits,
    top: TopSpeed,
    less: u64,
    more: u64,
    slow: u64,
    fast: u64,
)
    requires
        less <= more,
        call_ensures(SpeedLimits::wish_speed, (&limits, less, top), slow),
        call_ensures(SpeedLimits::wish_speed, (&limits, more, top), fast),
    ensures
        slow <= fast,
{
}

/// A cap bounds a speed and leaves slower ones alone.
pub proof fn lemma_caps_bound(speed: u64, cap: u64, limited: u64)
    requires
        call_ensures(capped, (speed, cap), limited),
    ensures
        limited <= cap,
        limited <= speed,
        limited == speed || limited == cap,
{
}

/// What friction takes: a player at the cutoff or below stops. A faster one loses as much of its
/// speed, or of the stop speed if that is more, as the rate of friction gives for the time, up to
/// rounding; it stops if that is all of its speed.
pub proof fn lemma_friction_takes_its_share(
    speed: u64,
    friction: u32,
    stop_speed: u64,
    cutoff: u64,
    dt: u32,
    left: u64,
)
    requires
        call_ensures(after_friction, (speed, friction, stop_speed, cutoff, dt), left),
    ensures
        left <= speed,
        speed <= cutoff ==> left == 0,
        speed > cutoff && left > 0 && speed >= stop_speed ==> (speed - left) * RATIO_SECOND <= speed
            * friction * dt < (speed - left + 1) * RATIO_SECOND,
        speed > cutoff && left > 0 && speed <= stop_speed ==> (speed - left) * RATIO_SECOND
            <= stop_speed * friction * dt < (speed - left + 1) * RATIO_SECOND,
        speed > cutoff && left == 0 && speed >= stop_speed ==> speed * RATIO_SECOND <= speed
            * friction * dt,
        speed > cutoff && left == 0 && speed <= stop_speed ==> speed * RATIO_SECOND <= stop_speed
            * friction * dt,
        friction == 0 && speed > cutoff ==> left == speed,
        dt == 0 && speed > cutoff ==> left == speed,
{
    let base = larger(speed as int, stop_speed as int);
    let product = base * friction * dt;
    lemma_quotient(product, RATIO_SECOND as int);
    if speed > cutoff && left == 0 {
        let q = product / (RATIO_SECOND as int);
        assert(speed * RATIO_SECOND <= q * RATIO_SECOND) by (nonlinear_arith)
            requires
                speed <= q,
                RATIO_SECOND >= 0,
        ;
    }
    assert(base * 0 * dt == 0) by (nonlinear_arith);
    assert(base * friction * 0 == 0) by (nonlinear_arith);
}

/// A longer step or a stronger friction leaves no more speed.
pub proof fn lemma_more_friction_leaves_less(
    speed: u64,
    friction: (u32, u32),
    stop_speed: u64,
    cutoff: u64,
    dt: (u32, u32),
    left: (u64, u64),
)
    requires
        friction.0 <= friction.1,
        dt.0 <= dt.1,
        call_ensures(after_friction, (speed, friction.0, stop_speed, cutoff, dt.0), left.0),
        call_ensures(after_friction, (speed, friction.1, stop_speed, cutoff, dt.1), left.1),
    ensures
        left.1 <= left.0,
{
    let base = larger(speed as int, stop_speed as int);
    assert(base * friction.0 * dt.0 <= base * friction.1 * dt.1) by (nonlinear_arith)
        requires
            base >= 0,
            0 <= friction.0 <= friction.1,
            0 <= dt.0 <= dt.1,
    ;
    lemma_quotients_keep_order(
        base * friction.0 * dt.0,
        base * friction.1 * dt.1,
        RATIO_SECOND as int,
    );
}

/// What acceleration adds: nothing to a player that is as fast as it goes for; else as much of
/// that speed as the rate gives for the time, up to rounding, but no more than is missing.
pub proof fn lemma_acceleration_adds_its_share(
    wish: u64,
    projection: i64,
    rate: u32,
    dt: u32,
    added: u128,
)
    requires
        call_ensures(acceleration, (wish, projection, rate, dt), added),
    ensures
        wish <= projection ==> added == 0,
        wish > projection ==> added <= wish - projection,
        added * RATIO_SECOND <= wish * rate * dt || added == 0,
        wish > projection ==> added == wish - projection || wish * rate * dt < (added + 1)
            * RATIO_SECOND,
{
    let product = wish * rate * dt;
    assert(product >= 0) by (nonlinear_arith)
        requires
            product == wish * rate * dt,
            wish >= 0,
            rate >= 0,
            dt >= 0,
    ;
    lemma_quotient(product, RATIO_SECOND as int);
    let q = product / (RATIO_SECOND as int);
    if wish > projection && added != q {
        assert(added * RATIO_SECOND <= q * RATIO_SECOND) by (nonlinear_arith)
            requires
                added <= q,
                RATIO_SECOND >= 0,
        ;
    }
}

/// The radius is that part of the height that the settings give, up to rounding, with the part
/// held between its bounds; so is the crouched height, without bounds.
pub proof fn lemma_sizes_are_parts_of_the_height(config: FpsPlayerConfig, radius: u64, crouched: u64)
    requires
        config.wf(),
        call_ensures(FpsPlayerConfig::radius, (&config,), radius),
        call_ensures(FpsPlayerConfig::crouch_height, (&config,), crouched),
    ensures
        crouched * WHOLE <= config.height * config.crouch_height_ratio < (crouched + 1) * WHOLE,
        radius * WHOLE <= config.height * config.max_radius_ratio,
        config.height * config.min_radius_ratio < (radius + 1) * WHOLE,
        config.min_radius_ratio <= config.radius_ratio <= config.max_radius_ratio ==> radius * WHOLE
            <= config.height * config.radius_ratio < (radius + 1) * WHOLE,
        config.radius_ratio > config.max_radius_ratio ==> config.height * config.max_radius_ratio < (
        radius + 1) * WHOLE,
        config.radius_ratio < config.min_radius_ratio ==> radius * WHOLE <= config.height
            * config.min_radius_ratio,
{
    let h = config.height as int;
    let low = config.min_radius_ratio as int;
    let high = config.max_radius_ratio as int;
    let ratio = clamped(config.radius_ratio as int, low, high);
    lemma_quotient(h * ratio, WHOLE as int);
    lemma_quotient(h * config.crouch_height_ratio, WHOLE as int);
    assert(h * low <= h * ratio <= h * high) by (nonlinear_arith)
        requires
            h >= 0,
            low <= ratio <= high,
    ;
}

/// The straight part of a capsule and its two half spheres make up its height, unless the half
/// spheres alone are as high.
pub proof fn lemma_capsule_makes_up_the_height(
    config: FpsPlayerConfig,
    height: u64,
    radius: u64,
    length: u64,
)
    requires
        config.wf(),
        call_ensures(FpsPlayerConfig::radius, (&config,), radius),
        call_ensures(FpsPlayerConfig::segment, (&config, height), length),
    ensures
        2 * radius <= height ==> length + 2 * radius == height,
        2 * radius >= height ==> length == 0,
{
}

/// A capsule that shrinks goes down by the distance that the speed gives for the time, up to
/// rounding, and stops at the crouched height; one that is too high to begin with comes down to
/// the upright height.
pub proof fn lemma_shrinking_capsule(
    height: u64,
    shrink: u32,
    grow: u32,
    dt: u32,
    low: u64,
    high: u64,
    next: u64,
)
    requires
        low <= high,
        call_ensures(
            next_height,
            (height, HeightChange::Shrinks, shrink, grow, dt, low, high),
            next,
        ),
    ensures
        low <= next <= high,
        low <= height ==> next <= height,
        next == low && low < high ==> (height - low) * SECOND <= shrink * dt,
        low < next < high ==> (height - next) * SECOND <= shrink * dt < (height - next + 1) * SECOND,
        next == high && low < high ==> shrink * dt < (height - high + 1) * SECOND,
{
    let product = shrink * dt;
    assert(product >= 0) by (nonlinear_arith)
        requires
            product == shrink * dt,
            shrink >= 0,
            dt >= 0,
    ;
    lemma_quotient(product, SECOND as int);
    let t = product / (SECOND as int);
    if next == low && low < high {
        assert((height - low) * SECOND <= t * SECOND) by (nonlinear_arith)
            requires
                height - low <= t,
                SECOND >= 0,
        ;
    }
    if next == high && low < high {
        assert((t + 1) * SECOND <= (height - high + 1) * SECOND) by (nonlinear_arith)
            requires
                t <= height - high,
                SECOND >= 0,
        ;
    }
}

/// A capsule that grows goes up by the distance that the speed gives for the time, up to rounding,
/// and stops at the upright height; one that is too low to begin with comes up to the crouched
/// height. One that stays keeps its height.
pub proof fn lemma_growing_capsule(
    height: u64,
    shrink: u32,
    grow: u32,
    dt: u32,
    low: u64,
    high: u64,
    next: u64,
    still: u64,
)
    requires
        low <= high,
        call_ensures(next_height, (height, HeightChange::Grows, shrink, grow, dt, low, high), next),
        call_ensures(next_height, (height, HeightChange::Stays, shrink, grow, dt, low, high), still),
    ensures
        still == height,
        low <= next <= high,
        height <= high ==> height <= next,
        next == high && low < high ==> (high - height) * SECOND <= grow * dt,
        low < next < high ==> (next - height) * SECOND <= grow * dt < (next - height + 1) * SECOND,
        next == low && low < high ==> grow * dt < (low - height + 1) * SECOND,
{
    let product = grow * dt;
    assert(product >= 0) by (nonlinear_arith)
        requires
            product == grow * dt,
            grow >= 0,
            dt >= 0,
    ;
    lemma_quotient(product, SECOND as int);
    let t = product / (SECOND as int);
    if next == high && low < high {
        assert((high - height) * SECOND <= t * SECOND) by (nonlinear_arith)
            requires
                high - height <= t,
                SECOND >= 0,
        ;
    }
    if next == low && low < high {
        assert((t + 1) * SECOND <= (low - height + 1) * SECOND) by (nonlinear_arith)
            requires
                t <= low - height,
                SECOND >= 0,
        ;
    }
}

/// The geometry that the model asks for is taken over, and the way of moving stays.
pub proof fn lemma_only_the_geometry_is_synced(
    config: &mut FpsPlayerConfig,
    crouch_height_ratio: u32,
    min_ratio: u32,
    max_ratio: u32,
)
    requires
        call_ensures(
            FpsPlayerConfig::sync_geometry,
            (config, crouch_height_ratio, min_ratio, max_ratio),
            (),
        ),
    ensures
        final(config).crouch_height_ratio == crouch_height_ratio,
        final(config).min_radius_ratio == min_ratio,
        final(config).max_radius_ratio == max_ratio,
        final(config).height == old(config).height,
        final(config).radius_ratio == old(config).radius_ratio,
{
}

} // verus!
