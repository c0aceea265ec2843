//! The raised arm and the launch that it charges.
//!
//! Holding the action raises the arm and builds up charge; letting go launches the player, and a
//! cooldown follows. Times are in nanoseconds, and how far the arm is raised is in billionths.

use vstd::prelude::*;
use crate::blend::{
    blended, lemma_blend_is_monotone, lemma_blend_stays_in_range, lemma_blended_in_proportion,
    lemma_quotient, lerp,
};

verus! {

/// A fully raised arm.
pub const FULLY_RAISED: u32 = 1_000_000_000;

/// The arm takes its pose from here on.
pub const POSE_THRESHOLD: u32 = 1_000_000;

/// The times that shape a launch.
#[derive(Clone, Copy, Debug, PartialEq, Eq, Structural)]
pub struct YeetTiming {
    /// How long the arm takes to rise or to sink; zero lets it jump.
    pub point_ramp: u64,
    /// The charge does not grow past this.
    pub max_charge: u64,
    /// How long after a launch there is no other.
    pub cooldown: u64,
}

/// The sound of the charge.
#[derive(Clone, Copy, Debug, PartialEq, Eq, Structural)]
pub enum RumbleStep {
    /// Leave things as they are.
    Keep,
    /// Start the sound at its lowest, and note its entity by `rumble_started`.
    Start,
    /// Fit volume and speed of this entity to the charge.
    Drive(u64),
    /// Take this entity down.
    Stop(u64),
}

/// What a frame wants done.
#[derive(Clone, Copy, Debug, PartialEq, Eq, Structural)]
pub struct ArmStep {
    /// The arm is being raised.
    pub pointing: bool,
    /// The arm is high enough to be posed.
    pub posed: bool,
    pub rumble: RumbleStep,
}

/// The right arm of a body.
#[derive(Clone, Copy, Debug, PartialEq, Eq, Structural)]
pub struct ArmState {
    /// How far the arm is raised.
    pub point_amount: u32,
    /// How long the action has been held.
    pub charge: u64,
    /// How long until the next launch can be charged.
    pub cooldown: u64,
    /// The entity that plays the rumble.
    pub rumble: Option<u64>,
}

/// What is left of a cooldown after some time.
pub open spec fn left(cooldown: int, dt: int) -> int {
    if dt < cooldown {
        cooldown - dt
    } else {
        0
    }
}

/// How far the arm moves within some time.
pub open spec fn reach(dt: int, ramp: int) -> int {
    if ramp == 0 || dt >= ramp {
        FULLY_RAISED as int
    } else {
        dt * FULLY_RAISED / ramp
    }
}

/// How far the arm is raised after a frame.
pub open spec fn raised(amount: int, pointing: bool, reach: int) -> int {
    if pointing {
        if amount + reach <= FULLY_RAISED {
            amount + reach
        } else {
            FULLY_RAISED as int
        }
    } else if amount >= reach {
        amount - reach
    } else {
        0
    }
}

/// The charge after a frame.
pub open spec fn charged(charge: int, pointing: bool, dt: int, max: int) -> int {
    if !pointing {
        0
    } else if charge + dt <= max {
        charge + dt
    } else {
        max
    }
}

/// What becomes of the sound.
pub open spec fn rumbles(rumble: Option<u64>, audio: bool, pointing: bool) -> RumbleStep {
    if !audio {
        RumbleStep::Keep
    } else {
        match (pointing, rumble) {
            (true, None) => RumbleStep::Start,
            (true, Some(entity)) => RumbleStep::Drive(entity),
            (false, Some(entity)) => RumbleStep::Stop(entity),
            (false, None) => RumbleStep::Keep,
        }
    }
}

impl ArmState {
    /// The arm is no higher than it can be.
    pub open spec fn wf(&self) -> bool {
        self.point_amount <= FULLY_RAISED
    }

    /// A lowered arm.
    pub fn new() -> (arm: Self)
        ensures
            arm == (ArmState { point_amount: 0, charge: 0, cooldown: 0, rumble: None }),
            arm.wf(),
    {
        ArmState { point_amount: 0, charge: 0, cooldown: 0, rumble: None }
    }

    /// One frame that lasts `dt`. A limp body ignores the action: it does not point, charge or
    /// rumble. `audio` tells whether the sounds are there.
    pub fn tick(
        &mut self,
        pressed: bool,
        limp: bool,
        dt: u64,
        timing: YeetTiming,
        audio: bool,
    ) -> (step: ArmStep)
        requires
            old(self).wf(),
        ensures
            final(self).wf(),
            final(self).cooldown == left(old(self).cooldown as int, dt as int),
            step.pointing == (pressed && !limp && final(self).cooldown == 0),
            final(self).point_amount == raised(
                old(self).point_amount as int,
                step.pointing,
                reach(dt as int, timing.point_ramp as int),
            ),
            final(self).charge == charged(
                old(self).charge as int,
                step.pointing,
                dt as int,
                timing.max_charge as int,
            ),
            final(self).charge <= timing.max_charge,
            step.posed == (final(self).point_amount >= POSE_THRESHOLD),
            step.rumble == rumbles(old(self).rumble, audio, step.pointing),
            final(self).rumble == if step.rumble is Stop {
                None
            } else {
                old(self).rumble
            },
            limp ==> !step.pointing && final(self).charge == 0,
    {
        let cooldown: u64 = if dt < self.cooldown {
            self.cooldown - dt
        } else {
            0
        };
        let pointing = pressed && !limp && cooldown == 0;
        let reach: u32 = reach_within(dt, timing.point_ramp);
        let amount: u32 = if pointing {
            if reach <= FULLY_RAISED - self.point_amount {
                self.point_amount + reach
            } else {
                FULLY_RAISED
            }
        } else if self.point_amount >= reach {
            self.point_amount - reach
        } else {
            0
        };
        let charge: u64 = if !pointing {
            0
        } else if self.charge <= timing.max_charge && dt <= timing.max_charge - self.charge {
            self.charge + dt
        } else {
            timing.max_charge
        };
        let rumble = if !audio {
            RumbleStep::Keep
        } else {
            match (pointing, self.rumble) {
                (true, None) => RumbleStep::Start,
                (true, Some(entity)) => RumbleStep::Drive(entity),
                (false, Some(entity)) => RumbleStep::Stop(entity),
                (false, None) => RumbleStep::Keep,
            }
        };
        self.cooldown = cooldown;
        self.point_amount = amount;
        self.charge = charge;
        if audio && !pointing {
            self.rumble = None;
        }
        ArmStep { pointing, posed: amount >= POSE_THRESHOLD, rumble }
    }

    /// Notes the entity that plays the rumble.
    pub fn rumble_started(&mut self, entity: u64)
        ensures
            *final(self) == (ArmState { rumble: Some(entity), ..*old(self) }),
    {
        self.rumble = Some(entity);
    }

    /// Whether letting go launches the player.
    pub open spec fn launches(&self, limp: bool) -> bool {
        self.cooldown == 0 && !limp
    }

    /// The action is let go: hands back the charge of the launch, if there is one, and starts the
    /// cooldown. Nothing happens on a cooldown or to a limp body.
    pub fn release(&mut self, limp: bool, timing: YeetTiming) -> (launch: Option<u64>)
        ensures
            launch == if old(self).launches(limp) {
                Some(
                    if old(self).charge <= timing.max_charge {
                        old(self).charge
                    } else {
                        timing.max_charge
                    },
                )
            } else {
                None
            },
            *final(self) == if old(self).launches(limp) {
                ArmState { charge: 0, cooldown: timing.cooldown, ..*old(self) }
            } else {
                *old(self)
            },
    {
        if self.cooldown > 0 || limp {
            return None;
        }
        let charge: u64 = if self.charge <= timing.max_charge {
            self.charge
        } else {
            timing.max_charge
        };
        self.charge = 0;
        self.cooldown = timing.cooldown;
        Some(charge)
    }
}

/// How far the arm moves within `dt`.
fn reach_within(dt: u64, ramp: u64) -> (amount: u32)
    ensures
        amount == reach(dt as int, ramp as int),
        amount <= FULLY_RAISED,
{
    if ramp == 0 || dt >= ramp {
        return FULLY_RAISED;
    }
    assert(dt * FULLY_RAISED <= u128::MAX) by (nonlinear_arith)
        requires
            dt <= u64::MAX,
            FULLY_RAISED == 1_000_000_000,
    ;
    let product: u128 = dt as u128 * FULLY_RAISED as u128;
    let quotient: u128 = product / ramp as u128;
    proof {
        vstd::arithmetic::div_mod::lemma_fundamental_div_mod(product as int, ramp as int);
        assert(quotient < FULLY_RAISED) by (nonlinear_arith)
            requires
                product == ramp * quotient + product % (ramp as u128),
                0 <= product % (ramp as u128),
                product == dt * FULLY_RAISED,
                dt < ramp,
        ;
    }
    quotient as u32
}

/// What is left of a cooldown after a run of frames.
pub open spec fn left_after(cooldown: int, frames: Seq<int>) -> int
    decreases frames.len(),
{
    if frames.len() == 0 {
        cooldown
    } else {
        left(left_after(cooldown, frames.drop_last()), frames.last())
    }
}

/// How long a run of frames lasts.
pub open spec fn total(frames: Seq<int>) -> int
    decreases frames.len(),
{
    if frames.len() == 0 {
        0
    } else {
        total(frames.drop_last()) + frames.last()
    }
}

/// Launches are at least a cooldown apart: as long as the frames since a launch do not add up to
/// the cooldown, letting go launches nothing.
pub proof fn lemma_launches_are_spaced(arm: ArmState, cooldown: nat, frames: Seq<int>, limp: bool)
    requires
        arm.cooldown == left_after(cooldown as int, frames),
        forall|i: int| 0 <= i < frames.len() ==> frames[i] >= 0,
        total(frames) < cooldown,
    ensures
        !arm.launches(limp),
{
    lemma_cooldown_runs_down(cooldown as int, frames);
}

/// A cooldown ends once the frames since the launch add up to it: from there on letting go
/// launches a player that is not limp.
pub proof fn lemma_cooldown_ends(arm: ArmState, cooldown: nat, frames: Seq<int>)
    requires
        arm.cooldown == left_after(cooldown as int, frames),
        forall|i: int| 0 <= i < frames.len() ==> frames[i] >= 0,
        total(frames) >= cooldown,
    ensures
        arm.launches(false),
{
    lemma_cooldown_runs_down(cooldown as int, frames);
}

/// A run of frames takes its total off the cooldown.
proof fn lemma_cooldown_runs_down(cooldown: int, frames: Seq<int>)
    requires
        cooldown >= 0,
        forall|i: int| 0 <= i < frames.len() ==> frames[i] >= 0,
    ensures
        total(frames) >= 0,
        left_after(cooldown, frames) == left(cooldown, total(frames)),
    decreases frames.len(),
{
    if frames.len() > 0 {
        lemma_cooldown_runs_down(cooldown, frames.drop_last());
    }
}

/// The speed of a launch: from `slowest` without charge to `fastest` with full charge.
pub fn launch_speed(slowest: i64, fastest: i64, charge: u64, timing: YeetTiming) -> (speed: i64)
    requires
        timing.max_charge > 0,
    ensures
        speed == blended(
            slowest as int,
            fastest as int,
            charge as int,
            timing.max_charge as int,
        ),
{
    lerp(slowest, fastest, charge, timing.max_charge)
}

/// A launch is never slower than one without charge, never faster than one with full charge, and
/// never slower for more charge.
pub proof fn lemma_launch_speed_grows_with_charge(
    slowest: int,
    fastest: int,
    less: int,
    more: int,
    max: int,
)
    requires
        slowest <= fastest,
        0 <= less <= more,
        max > 0,
    ensures
        slowest <= blended(slowest, fastest, less, max) <= blended(slowest, fastest, more, max)
            <= fastest,
{
    lemma_blend_stays_in_range(slowest, fastest, less, max);
    lemma_blend_stays_in_range(slowest, fastest, more, max);
    lemma_blend_is_monotone(slowest, fastest, less, more, max);
}

/// A frame takes its time off the cooldown. The arm points while the action is held, unless the body
/// is limp or the cooldown still runs; the charge grows by the frame while it points, up to the
/// largest, and is lost otherwise.
pub proof fn lemma_frames_charge_the_launch(
    arm: &mut ArmState,
    pressed: bool,
    limp: bool,
    dt: u64,
    timing: YeetTiming,
    audio: bool,
    step: ArmStep,
)
    requires
        call_ensures(ArmState::tick, (arm, pressed, limp, dt, timing, audio), step),
    ensures
        dt < old(arm).cooldown ==> final(arm).cooldown == old(arm).cooldown - dt,
        dt >= old(arm).cooldown ==> final(arm).cooldown == 0,
        step.pointing <==> pressed && !limp && dt >= old(arm).cooldown,
        !step.pointing ==> final(arm).charge == 0,
        step.pointing && old(arm).charge + dt <= timing.max_charge ==> final(arm).charge
            == old(arm).charge + dt,
        step.pointing && old(arm).charge + dt >= timing.max_charge ==> final(arm).charge
            == timing.max_charge,
{
}

/// A pointing arm rises and any other sinks, all the way within the ramp and in proportion in less
/// time, up to rounding; it stops at its ends. From a thousandth on it is posed.
pub proof fn lemma_arms_rise_and_sink(
    arm: &mut ArmState,
    pressed: bool,
    limp: bool,
    dt: u64,
    timing: YeetTiming,
    audio: bool,
    step: ArmStep,
)
    requires
        old(arm).wf(),
        call_ensures(ArmState::tick, (arm, pressed, limp, dt, timing, audio), step),
    ensures
        ({
            let before = old(arm).point_amount;
            let after = final(arm).point_amount;
            let ramp = timing.point_ramp;
            &&& step.pointing ==> before <= after <= 1_000_000_000
            &&& !step.pointing ==> after <= before
            &&& dt >= ramp ==> after == if step.pointing {
                1_000_000_000int
            } else {
                0
            }
            &&& step.pointing && dt < ramp ==> (after - before) * ramp <= dt * 1_000_000_000
            &&& step.pointing && dt < ramp && after < 1_000_000_000 ==> dt * 1_000_000_000 < (after
                - before + 1) * ramp
            &&& !step.pointing && dt < ramp ==> (before - after) * ramp <= dt * 1_000_000_000
            &&& !step.pointing && dt < ramp && after > 0 ==> dt * 1_000_000_000 < (before - after
                + 1) * ramp
            &&& step.posed <==> after >= 1_000_000
        }),
{
    let ramp = timing.point_ramp;
    if dt < ramp {
        let move_by = reach(dt as int, ramp as int);
        lemma_quotient(dt * FULLY_RAISED, ramp as int);
        let before = old(arm).point_amount;
        let after = final(arm).point_amount;
        let went = if step.pointing {
            after - before
        } else {
            before - after
        };
        assert(0 <= went <= move_by);
        assert(went * ramp <= move_by * ramp) by (nonlinear_arith)
            requires
                went <= move_by,
                ramp > 0,
        ;
    }
}

/// With sound, the rumble starts with the pointing, follows it and stops with it; without, nothing
/// changes.
pub proof fn lemma_rumbles_follow_the_pointing(
    arm: &mut ArmState,
    pressed: bool,
    limp: bool,
    dt: u64,
    timing: YeetTiming,
    audio: bool,
    step: ArmStep,
)
    requires
        call_ensures(ArmState::tick, (arm, pressed, limp, dt, timing, audio), step),
    ensures
        step.rumble is Start <==> audio && step.pointing && old(arm).rumble is None,
        step.rumble is Drive <==> audio && step.pointing && old(arm).rumble is Some,
        step.rumble is Stop <==> audio && !step.pointing && old(arm).rumble is Some,
        step.rumble matches RumbleStep::Drive(entity) ==> old(arm).rumble == Some(entity)
            && final(arm).rumble == Some(entity),
        step.rumble matches RumbleStep::Stop(entity) ==> old(arm).rumble == Some(entity)
            && final(arm).rumble is None,
        step.rumble is Keep || step.rumble is Start ==> final(arm).rumble == old(arm).rumble,
{
}

/// Letting go launches a player that is neither limp nor on a cooldown, with the charge built up,
/// no more than the largest; the charge is used up and the cooldown starts. Otherwise nothing
/// happens.
pub proof fn lemma_releases_launch_once(
    arm: &mut ArmState,
    limp: bool,
    timing: YeetTiming,
    launch: Option<u64>,
)
    requires
        call_ensures(ArmState::release, (arm, limp, timing), launch),
    ensures
        launch is Some <==> old(arm).cooldown == 0 && !limp,
        launch matches Some(charge) ==> {
            &&& charge <= old(arm).charge
            &&& charge <= timing.max_charge
            &&& charge == old(arm).charge || charge == timing.max_charge
            &&& final(arm).charge == 0
            &&& final(arm).cooldown == timing.cooldown
            &&& final(arm).point_amount == old(arm).point_amount
            &&& final(arm).rumble == old(arm).rumble
        },
        launch is None ==> *final(arm) == *old(arm),
{
}

/// The speed of a launch lies between that without charge and that with full charge as the charge
/// lies between nothing and the largest, up to rounding.
pub proof fn lemma_launch_speed_is_in_proportion(
    slowest: i64,
    fastest: i64,
    charge: u64,
    timing: YeetTiming,
    speed: i64,
)
    requires
        timing.max_charge > 0,
        slowest <= fastest,
        call_ensures(launch_speed, (slowest, fastest, charge, timing), speed),
    ensures
        charge == 0 ==> speed == slowest,
        charge >= timing.max_charge ==> speed == fastest,
        charge <= timing.max_charge ==> (speed - slowest) * timing.max_charge <= (fastest - slowest)
            * charge < (speed - slowest + 1) * timing.max_charge,
{
    lemma_blended_in_proportion(
        slowest as int,
        fastest as int,
        charge as int,
        timing.max_charge as int,
    );
}

} // verus!
