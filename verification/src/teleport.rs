//! Teleports: from the request over the flight to solid ground.
//!
//! A request waits for the elevation of its own destination; then the camera flies there along an
//! arc, and the player returns once the ground at the destination has been solid for a while.
//! Times are in nanoseconds and lengths in centimetres. `C` stands for a coordinate or an
//! elevation, `P` for the plan of a flight and `H` for a spot on the ground.

use vstd::prelude::*;
use crate::blend::{
    blended, lemma_blended_in_proportion, lemma_quotient, lemma_quotients_keep_order, lerp,
};
use crate::camera_mode::CameraMode;

verus! {

/// A teleport that waits for the elevation of its destination.
#[derive(Debug, PartialEq, Eq)]
pub struct PendingTeleport<C> {
    pub lat: C,
    pub lon: C,
    /// The number of the request, which the answer to its look-up bears.
    pub ticket: u64,
}

/// The requests for teleports.
pub struct TeleportState<C> {
    /// The request that waits for its elevation.
    pub pending: Option<PendingTeleport<C>>,
    /// Why the last look-up failed.
    pub error: Option<String>,
    /// The sound of a departure is due.
    pub play_departure_woosh: bool,
    /// The number of the next request.
    pub next_ticket: u64,
}

/// The number after a number; after the last one they start over.
pub open spec fn ticket_after(ticket: u64) -> u64 {
    if ticket == u64::MAX {
        0
    } else {
        (ticket + 1) as u64
    }
}

/// The state after a request; it bears the number that was next.
pub open spec fn requested<C>(state: TeleportState<C>, lat: C, lon: C) -> TeleportState<C> {
    TeleportState {
        pending: Some(PendingTeleport { lat, lon, ticket: state.next_ticket }),
        error: None,
        play_departure_woosh: true,
        next_ticket: ticket_after(state.next_ticket),
    }
}

/// Whether the request with this number waits.
pub open spec fn awaits<C>(state: TeleportState<C>, ticket: u64) -> bool {
    state.pending is Some && state.pending->0.ticket == ticket
}

/// The state after an answer: the answer to the request that waits ends its wait, any other
/// changes nothing.
pub open spec fn answered<C>(
    state: TeleportState<C>,
    ticket: u64,
    answer: Result<C, String>,
) -> TeleportState<C> {
    if awaits(state, ticket) {
        TeleportState {
            pending: None,
            error: match answer {
                Ok(_) => None,
                Err(e) => Some(e),
            },
            ..state
        }
    } else {
        state
    }
}

/// The destination that an answer completes: latitude, longitude and elevation.
pub open spec fn completed<C>(
    state: TeleportState<C>,
    ticket: u64,
    answer: Result<C, String>,
) -> Option<(C, C, C)> {
    match answer {
        Ok(elevation) if awaits(state, ticket) => Some(
            (state.pending->0.lat, state.pending->0.lon, elevation),
        ),
        _ => None,
    }
}

/// A request replaces one that still waits: the answer to the earlier one changes nothing and
/// starts no flight, and the answer to the later one starts the flight to the later destination
/// at its own elevation.
pub proof fn lemma_replaced_requests_are_void<C>(
    state: TeleportState<C>,
    first: (C, C),
    second: (C, C),
    early: Result<C, String>,
    elevation: C,
)
    ensures
        ({
            let once = requested(state, first.0, first.1);
            let twice = requested(once, second.0, second.1);
            let late = Ok::<C, String>(elevation);
            &&& answered(twice, state.next_ticket, early) == twice
            &&& completed(twice, state.next_ticket, early) is None
            &&& answered(twice, once.next_ticket, late).pending is None
            &&& completed(twice, once.next_ticket, late) == Some((second.0, second.1, elevation))
        }),
{
}

impl<C: Copy> TeleportState<C> {
    /// No request.
    pub fn new() -> (state: Self)
        ensures
            state.pending is None,
            state.error is None,
            !state.play_departure_woosh,
            state.next_ticket == 0,
    {
        TeleportState { pending: None, error: None, play_departure_woosh: false, next_ticket: 0 }
    }

    /// Whether a teleport waits for its elevation.
    pub fn is_pending(&self) -> (yes: bool)
        ensures
            yes == self.pending is Some,
    {
        self.pending.is_some()
    }

    /// Asks for a teleport; a request that still waits is replaced. Hands out the number of the
    /// request, which goes with the look-up of the elevation.
    pub fn request(&mut self, lat: C, lon: C) -> (ticket: u64)
        ensures
            *final(self) == requested(*old(self), lat, lon),
            ticket == old(self).next_ticket,
            awaits(*final(self), ticket),
    {
        let ticket: u64 = self.next_ticket;
        self.pending = Some(PendingTeleport { lat, lon, ticket });
        self.error = None;
        self.play_departure_woosh = true;
        self.next_ticket = if ticket == u64::MAX {
            0
        } else {
            ticket + 1
        };
        ticket
    }

    /// Whether to play the sound of a departure now; it is played once per request.
    pub fn take_departure_woosh(&mut self) -> (play: bool)
        ensures
            play == old(self).play_departure_woosh,
            *final(self) == (TeleportState { play_departure_woosh: false, ..*old(self) }),
    {
        let play = self.play_departure_woosh;
        self.play_departure_woosh = false;
        play
    }

    /// Takes in the answer to the elevation look-up of request `ticket`; hands back latitude,
    /// longitude and elevation of the destination if the teleport can go on. The answer is
    /// ignored unless that request still waits.
    pub fn poll_elevation(&mut self, ticket: u64, answer: Result<C, String>) -> (destination:
        Option<(C, C, C)>)
        ensures
            *final(self) == answered(*old(self), ticket, answer),
            destination == completed(*old(self), ticket, answer),
    {
        let (lat, lon, awaited) = match &self.pending {
            Some(place) => (place.lat, place.lon, place.ticket),
            None => {
                return None;
            },
        };
        if awaited != ticket {
            return None;
        }
        self.pending = None;
        match answer {
            Ok(elevation) => {
                self.error = None;
                Some((lat, lon, elevation))
            },
            Err(e) => {
                self.error = Some(e);
                None
            },
        }
    }
}

/// Where a teleport stands.
#[derive(Debug, PartialEq, Eq)]
pub enum AnimationState<H> {
    /// On the arc.
    Flying,
    /// Arrived; there is no ground yet.
    WaitingForPhysics {
        /// When the wait began.
        started_at: u64,
    },
    /// There is ground; it has to stay for a while.
    Settling {
        /// When the ground was first there.
        detected_at: u64,
        /// Where the ground is.
        ground: H,
    },
}

/// A teleport under way.
pub struct TeleportPhase<P, H> {
    /// The flight plan.
    pub plan: P,
    /// How long the flight takes.
    pub duration: u64,
    /// How long the teleport has been under way.
    pub elapsed: u64,
    /// The camera mode at the start.
    pub camera_mode: CameraMode,
    pub state: AnimationState<H>,
    /// The sound of the arrival has been played.
    pub arrival_woosh_played: bool,
}

/// The teleport under way, if there is one.
pub struct TeleportAnimation<P, H> {
    pub phase: Option<TeleportPhase<P, H>>,
}

/// How long to wait for the ground.
#[derive(Clone, Copy, Debug, PartialEq, Eq, Structural)]
pub struct SettleConfig {
    /// How long the ground has to stay.
    pub physics_settle_delay: u64,
    /// How long to wait for ground before going on without.
    pub physics_wait_timeout: u64,
    /// The part of the flight after which the descent begins, in millionths.
    pub descent_start_ppm: u32,
}

/// What the start of a flight wants done.
#[derive(Clone, Copy, Debug, PartialEq, Eq, Structural)]
pub struct FlightStart {
    /// Stop the wind of an earlier flight.
    pub stop_wind: bool,
    /// Take down the first-person player.
    pub despawn_player: bool,
    /// Start the wind.
    pub start_wind: bool,
}

/// How a teleport ends.
#[derive(Debug, PartialEq, Eq)]
pub struct Arrival<H> {
    /// Set up the first-person player.
    pub respawn: bool,
    /// The ground to set it up on, if there is any.
    pub ground: Option<H>,
}

/// What a step of a teleport wants done.
#[derive(Debug, PartialEq, Eq)]
pub struct TeleportStep<H> {
    /// Move the camera along the arc.
    pub fly: bool,
    /// Play the sound of the arrival.
    pub arrival_woosh: bool,
    /// Stop the wind.
    pub stop_wind: bool,
    /// The teleport is over.
    pub arrival: Option<Arrival<H>>,
}

/// Whether the flight has come to the descent; a start past the end of the flight is never
/// reached.
pub open spec fn descending(elapsed: u64, duration: u64, start_ppm: u32) -> bool {
    if elapsed < duration {
        elapsed * 1000000 >= start_ppm * duration
    } else {
        start_ppm <= 1000000
    }
}

/// A sum of times, at most the largest.
pub open spec fn later(elapsed: u64, dt: u64) -> u64 {
    if elapsed + dt <= u64::MAX {
        (elapsed + dt) as u64
    } else {
        u64::MAX
    }
}

/// How long ago `since` was; negative if it is still to come.
pub open spec fn passed(now: u64, since: u64) -> int {
    now - since
}

/// The state after a step at time `now`, with the ground as found; `None` once the teleport is
/// over.
pub open spec fn next_state<H>(
    state: AnimationState<H>,
    now: u64,
    duration: u64,
    config: SettleConfig,
    ground: Option<H>,
) -> Option<AnimationState<H>> {
    match state {
        AnimationState::Flying => if now < duration {
            Some(AnimationState::Flying)
        } else {
            match ground {
                Some(spot) => Some(AnimationState::Settling { detected_at: now, ground: spot }),
                None => Some(AnimationState::WaitingForPhysics { started_at: now }),
            }
        },
        AnimationState::WaitingForPhysics { started_at } => if passed(now, started_at)
            >= config.physics_wait_timeout {
            None
        } else {
            match ground {
                Some(spot) => Some(AnimationState::Settling { detected_at: now, ground: spot }),
                None => Some(state),
            }
        },
        AnimationState::Settling { detected_at, .. } => if ground is None {
            Some(AnimationState::WaitingForPhysics { started_at: detected_at })
        } else if passed(now, detected_at) >= config.physics_settle_delay {
            None
        } else {
            Some(state)
        },
    }
}

/// The ground that a teleport ends on: that of the last step, if it settled.
pub open spec fn final_ground<H>(state: AnimationState<H>, ground: Option<H>) -> Option<H> {
    match state {
        AnimationState::Settling { .. } => ground,
        _ => None,
    }
}

impl<P, H: Copy> TeleportAnimation<P, H> {
    /// No teleport.
    pub fn new() -> (animation: Self)
        ensures
            animation.phase is None,
    {
        TeleportAnimation { phase: None }
    }

    /// Whether a teleport is under way.
    pub fn is_active(&self) -> (yes: bool)
        ensures
            yes == self.phase is Some,
    {
        self.phase.is_some()
    }

    /// Whether the flight is over and the ground is awaited.
    pub fn is_waiting_for_physics(&self) -> (yes: bool)
        ensures
            yes == (self.phase is Some && !(self.phase->0.state is Flying)),
    {
        match &self.phase {
            Some(phase) => match phase.state {
                AnimationState::Flying => false,
                _ => true,
            },
            None => false,
        }
    }

    /// How far the flight has come: the time flown and the time it takes.
    pub fn progress(&self) -> (fraction: Option<(u64, u64)>)
        ensures
            fraction == match self.phase {
                None => None,
                Some(phase) => if phase.state is Flying && phase.elapsed < phase.duration {
                    Some((phase.elapsed, phase.duration))
                } else {
                    Some((1u64, 1u64))
                },
            },
    {
        match &self.phase {
            None => None,
            Some(phase) => match phase.state {
                AnimationState::Flying => if phase.elapsed < phase.duration {
                    Some((phase.elapsed, phase.duration))
                } else {
                    Some((1, 1))
                },
                _ => Some((1, 1)),
            },
        }
    }

    /// Breaks off the teleport; hands back the flight plan, the time flown and the time it takes.
    pub fn cancel(&mut self) -> (flight: Option<(P, u64, u64)>)
        ensures
            final(self).phase is None,
            flight == match old(self).phase {
                Some(phase) => Some((phase.plan, phase.elapsed, phase.duration)),
                None => None,
            },
    {
        match self.phase.take() {
            Some(phase) => Some((phase.plan, phase.elapsed, phase.duration)),
            None => None,
        }
    }

    /// Starts a flight, unless the destination is less than a metre away. A flight that was
    /// under way has ended in either case.
    pub fn begin_flight(
        &mut self,
        plan: P,
        distance_cm: u64,
        duration: u64,
        camera_mode: CameraMode,
    ) -> (start: FlightStart)
        ensures
            start.stop_wind,
            distance_cm < 100 ==> {
                &&& final(self).phase is None
                &&& !start.despawn_player
                &&& !start.start_wind
            },
            distance_cm >= 100 ==> {
                &&& final(self).phase == Some(
                    TeleportPhase {
                        plan,
                        duration,
                        elapsed: 0,
                        camera_mode,
                        state: AnimationState::<H>::Flying,
                        arrival_woosh_played: false,
                    },
                )
                &&& start.despawn_player == (camera_mode == CameraMode::FpsController)
                &&& start.start_wind
            },
    {
        if distance_cm < 100 {
            self.phase = None;
            return FlightStart { stop_wind: true, despawn_player: false, start_wind: false };
        }
        self.phase = Some(
            TeleportPhase {
                plan,
                duration,
                elapsed: 0,
                camera_mode,
                state: AnimationState::Flying,
                arrival_woosh_played: false,
            },
        );
        FlightStart {
            stop_wind: true,
            despawn_player: camera_mode == CameraMode::FpsController,
            start_wind: true,
        }
    }

    /// Takes the teleport one step further, with the ground below the destination as found.
    ///
    /// Hands back what to do, or nothing if no teleport is under way.
    pub fn tick(&mut self, dt: u64, config: SettleConfig, ground: Option<H>) -> (step: Option<
        TeleportStep<H>,
    >)
        ensures
            step is Some <==> old(self).phase is Some,
            old(self).phase is None ==> final(self).phase is None,
            old(self).phase matches Some(phase) ==> {
                let now = later(phase.elapsed, dt);
                let flying = phase.state is Flying;
                let next = next_state(phase.state, now, phase.duration, config, ground);
                let woosh = flying && !phase.arrival_woosh_played && descending(
                    now,
                    phase.duration,
                    config.descent_start_ppm,
                );
                &&& step->0.fly == flying
                &&& step->0.arrival_woosh == woosh
                &&& step->0.stop_wind == (flying && now >= phase.duration)
                &&& step->0.arrival == if next is None {
                    Some(
                        Arrival {
                            respawn: phase.camera_mode == CameraMode::FpsController,
                            ground: final_ground(phase.state, ground),
                        },
                    )
                } else {
                    None
                }
                &&& final(self).phase == if next is None {
                    None
                } else {
                    Some(
                        TeleportPhase {
                            plan: phase.plan,
                            duration: phase.duration,
                            elapsed: now,
                            camera_mode: phase.camera_mode,
                            state: next->0,
                            arrival_woosh_played: phase.arrival_woosh_played || woosh,
                        },
                    )
                }
            },
    {
        let mut phase = match self.phase.take() {
            Some(phase) => phase,
            None => {
                return None;
            },
        };
        let now: u64 = if dt <= u64::MAX - phase.elapsed {
            phase.elapsed + dt
        } else {
            u64::MAX
        };
        phase.elapsed = now;
        let mut step = TeleportStep {
            fly: false,
            arrival_woosh: false,
            stop_wind: false,
            arrival: None,
        };
        let respawn = phase.camera_mode == CameraMode::FpsController;
        match phase.state {
            AnimationState::Flying => {
                step.fly = true;
                proof {
                    let a = config.descent_start_ppm as int;
                    let b = phase.duration as int;
                    assert(0 <= a * b <= 0xffff_ffff * 0xffff_ffff_ffff_ffff) by (nonlinear_arith)
                        requires
                            0 <= a <= 0xffff_ffff,
                            0 <= b <= 0xffff_ffff_ffff_ffff,
                    ;
                }
                let due = if now < phase.duration {
                    now as u128 * 1000000 >= config.descent_start_ppm as u128
                        * phase.duration as u128
                } else {
                    config.descent_start_ppm <= 1000000
                };
                if due && !phase.arrival_woosh_played {
                    phase.arrival_woosh_played = true;
                    step.arrival_woosh = true;
                }
                if now >= phase.duration {
                    step.stop_wind = true;
                    phase.state = match ground {
                        Some(spot) => AnimationState::Settling { detected_at: now, ground: spot },
                        None => AnimationState::WaitingForPhysics { started_at: now },
                    };
                }
            },
            AnimationState::WaitingForPhysics { started_at } => {
                if now >= started_at && now - started_at >= config.physics_wait_timeout {
                    step.arrival = Some(Arrival { respawn, ground: None });
                    return Some(step);
                }
                match ground {
                    Some(spot) => {
                        phase.state = AnimationState::Settling { detected_at: now, ground: spot };
                    },
                    None => {},
                }
            },
            AnimationState::Settling { detected_at, ground: _ } => {
                if ground.is_none() {
                    phase.state = AnimationState::WaitingForPhysics { started_at: detected_at };
                } else if now >= detected_at && now - detected_at >= config.physics_settle_delay {
                    step.arrival = Some(Arrival { respawn, ground });
                    return Some(step);
                }
            },
        }
        self.phase = Some(phase);
        Some(step)
    }
}

/// A teleport ends only on ground that stayed for the settle delay, or after the time-out.
pub proof fn lemma_no_early_arrival<H>(
    state: AnimationState<H>,
    now: u64,
    duration: u64,
    config: SettleConfig,
    ground: Option<H>,
)
    requires
        next_state(state, now, duration, config, ground) is None,
    ensures
        match state {
            AnimationState::Flying => false,
            AnimationState::WaitingForPhysics { started_at } => passed(now, started_at)
                >= config.physics_wait_timeout,
            AnimationState::Settling { detected_at, .. } => ground is Some && passed(
                now,
                detected_at,
            ) >= config.physics_settle_delay,
        },
{
}

/// A teleport does not wait forever: without ground it ends at the time-out.
pub proof fn lemma_wait_is_bounded<H>(
    started_at: u64,
    now: u64,
    duration: u64,
    config: SettleConfig,
    ground: Option<H>,
)
    requires
        now >= started_at + config.physics_wait_timeout,
    ensures
        next_state(
            AnimationState::<H>::WaitingForPhysics { started_at },
            now,
            duration,
            config,
            ground,
        ) is None,
{
}

/// Ground that vanishes while it settles sends the teleport back to waiting, and the wait counts
/// from when that ground was first there.
pub proof fn lemma_lost_ground_resumes_the_wait<H>(
    detected_at: u64,
    spot: H,
    now: u64,
    duration: u64,
    config: SettleConfig,
)
    ensures
        next_state(
            AnimationState::Settling { detected_at, ground: spot },
            now,
            duration,
            config,
            None,
        ) == Some(AnimationState::<H>::WaitingForPhysics { started_at: detected_at }),
{
}

/// Apex altitudes of the arc by distance. Between two distances the apex is interpolated; beyond
/// the last it rises to the highest over that distance once more.
#[derive(Clone, Copy, Debug, PartialEq, Eq, Structural)]
pub struct ApexBands {
    pub short_cm: u32,
    pub city_cm: u32,
    pub regional_cm: u32,
    pub continental_cm: u32,
    pub min_apex_cm: i64,
    pub short_apex_cm: i64,
    pub city_apex_cm: i64,
    pub regional_apex_cm: i64,
    pub continental_apex_cm: i64,
    pub max_apex_cm: i64,
}

/// Flight times by distance.
#[derive(Clone, Copy, Debug, PartialEq, Eq, Structural)]
pub struct DurationBands {
    pub very_short_cm: u32,
    pub short_cm: u32,
    pub medium_cm: u32,
    pub long_cm: u32,
    pub min_ns: u64,
    pub short_ns: u64,
    pub medium_ns: u64,
    pub max_ns: u64,
}

/// The value `part` of `whole` of the way from `low` to `high`, rounded down; all the way if
/// `part` is `whole` or more.
pub open spec fn between(low: int, high: int, part: int, whole: int) -> int {
    if part >= whole {
        high
    } else {
        low + (high - low) * part / whole
    }
}

/// The apex altitude by distance alone.
pub open spec fn band_apex(bands: ApexBands, distance: int) -> int {
    if distance < bands.short_cm {
        between(
            bands.min_apex_cm as int,
            bands.short_apex_cm as int,
            distance,
            bands.short_cm as int,
        )
    } else if distance < bands.city_cm {
        between(
            bands.short_apex_cm as int,
            bands.city_apex_cm as int,
            distance - bands.short_cm,
            bands.city_cm - bands.short_cm,
        )
    } else if distance < bands.regional_cm {
        between(
            bands.city_apex_cm as int,
            bands.regional_apex_cm as int,
            distance - bands.city_cm,
            bands.regional_cm - bands.city_cm,
        )
    } else if distance < bands.continental_cm {
        between(
            bands.regional_apex_cm as int,
            bands.continental_apex_cm as int,
            distance - bands.regional_cm,
            bands.continental_cm - bands.regional_cm,
        )
    } else {
        between(
            bands.continental_apex_cm as int,
            bands.max_apex_cm as int,
            distance - bands.continental_cm,
            bands.continental_cm as int,
        )
    }
}

/// The apex altitude of a flight: that of its distance, but clear of the start.
pub open spec fn apex_altitude(bands: ApexBands, distance: int, start: int) -> int {
    let clear = start + bands.min_apex_cm;
    if band_apex(bands, distance) >= clear {
        band_apex(bands, distance)
    } else {
        clear
    }
}

/// The flight time by distance.
pub open spec fn flight_time(bands: DurationBands, distance: int) -> int {
    if distance < bands.very_short_cm {
        bands.min_ns as int
    } else if distance < bands.short_cm {
        between(bands.min_ns as int, bands.short_ns as int, distance, bands.short_cm as int)
    } else if distance < bands.medium_cm {
        between(
            bands.short_ns as int,
            bands.medium_ns as int,
            distance - bands.short_cm,
            bands.medium_cm - bands.short_cm,
        )
    } else {
        between(
            bands.medium_ns as int,
            bands.max_ns as int,
            distance - bands.medium_cm,
            bands.long_cm as int,
        )
    }
}

proof fn lemma_between_bounds(low: int, high: int, part: int, whole: int)
    requires
        0 <= part,
        part < whole,
    ensures
        low <= high ==> low <= between(low, high, part, whole) <= high,
        high <= low ==> high <= between(low, high, part, whole) <= low,
{
    let span = high - low;
    let product = span * part;
    if low <= high {
        assert(0 <= product <= span * whole) by (nonlinear_arith)
            requires
                product == span * part,
                span >= 0,
                0 <= part < whole,
        ;
        assert(0 <= product / whole <= span) by (nonlinear_arith)
            requires
                0 <= product <= span * whole,
                whole > 0,
        ;
    } else {
        assert(span * whole <= product <= 0) by (nonlinear_arith)
            requires
                product == span * part,
                span <= 0,
                0 <= part < whole,
        ;
        assert(span <= product / whole <= 0) by (nonlinear_arith)
            requires
                span * whole <= product <= 0,
                whole > 0,
        ;
    }
}

/// Interpolates with wide numbers.
fn interpolate(low: i128, high: i128, part: u32, whole: u32) -> (value: i128)
    requires
        -0x1_0000_0000_0000_0000 <= low <= 0x1_0000_0000_0000_0000,
        -0x1_0000_0000_0000_0000 <= high <= 0x1_0000_0000_0000_0000,
    ensures
        value == between(low as int, high as int, part as int, whole as int),
        low <= high ==> low <= value <= high,
        high <= low ==> high <= value <= low,
{
    if part >= whole {
        return high;
    }
    let span: i128 = high - low;
    proof {
        lemma_between_bounds(low as int, high as int, part as int, whole as int);
        assert(-0x2_0000_0000_0000_0000_0000_0000 <= span * part
            <= 0x2_0000_0000_0000_0000_0000_0000) by (nonlinear_arith)
            requires
                -0x2_0000_0000_0000_0000 <= span <= 0x2_0000_0000_0000_0000,
                0 <= part <= 0xffff_ffff,
        ;
    }
    let product: i128 = span * part as i128;
    let wide: i128 = whole as i128;
    let quotient: i128 = if product >= 0 {
        product / wide
    } else {
        -((-product + wide - 1) / wide)
    };
    proof {
        let p = product as int;
        let w = whole as int;
        if product < 0 {
            let q = (-p + w - 1) / w;
            assert(p / w == -q) by (nonlinear_arith)
                requires
                    q == (-p + w - 1) / w,
                    w > 0,
            ;
        }
        assert(quotient == p / w);
    }
    low + quotient
}

/// Computes the apex altitude of a flight.
pub fn compute_apex_altitude(bands: &ApexBands, distance_cm: u32, start_altitude_cm: i64) -> (apex:
    i64)
    requires
        i64::MIN <= start_altitude_cm + bands.min_apex_cm <= i64::MAX,
    ensures
        apex == apex_altitude(*bands, distance_cm as int, start_altitude_cm as int),
{
    let apex: i128 = if distance_cm < bands.short_cm {
        interpolate(
            bands.min_apex_cm as i128,
            bands.short_apex_cm as i128,
            distance_cm,
            bands.short_cm,
        )
    } else if distance_cm < bands.city_cm {
        interpolate(
            bands.short_apex_cm as i128,
            bands.city_apex_cm as i128,
            distance_cm - bands.short_cm,
            bands.city_cm - bands.short_cm,
        )
    } else if distance_cm < bands.regional_cm {
        interpolate(
            bands.city_apex_cm as i128,
            bands.regional_apex_cm as i128,
            distance_cm - bands.city_cm,
            bands.regional_cm - bands.city_cm,
        )
    } else if distance_cm < bands.continental_cm {
        interpolate(
            bands.regional_apex_cm as i128,
            bands.continental_apex_cm as i128,
            distance_cm - bands.regional_cm,
            bands.continental_cm - bands.regional_cm,
        )
    } else {
        interpolate(
            bands.continental_apex_cm as i128,
            bands.max_apex_cm as i128,
            distance_cm - bands.continental_cm,
            bands.continental_cm,
        )
    };
    let clear: i64 = start_altitude_cm + bands.min_apex_cm;
    if apex as i64 >= clear {
        apex as i64
    } else {
        clear
    }
}

/// Computes the flight time.
pub fn compute_duration(bands: &DurationBands, distance_cm: u32) -> (duration: u64)
    ensures
        duration == flight_time(*bands, distance_cm as int),
{
    let duration: i128 = if distance_cm < bands.very_short_cm {
        bands.min_ns as i128
    } else if distance_cm < bands.short_cm {
        interpolate(bands.min_ns as i128, bands.short_ns as i128, distance_cm, bands.short_cm)
    } else if distance_cm < bands.medium_cm {
        interpolate(
            bands.short_ns as i128,
            bands.medium_ns as i128,
            distance_cm - bands.short_cm,
            bands.medium_cm - bands.short_cm,
        )
    } else {
        interpolate(
            bands.medium_ns as i128,
            bands.max_ns as i128,
            distance_cm - bands.medium_cm,
            bands.long_cm,
        )
    };
    duration as u64
}

/// The apex clears the start by the least apex.
pub proof fn lemma_apex_clears_the_start(bands: ApexBands, distance: int, start: int)
    ensures
        apex_altitude(bands, distance, start) >= start + bands.min_apex_cm,
{
}

/// At each distance of the table the apex is the one that the table gives.
pub proof fn lemma_apex_meets_the_table(bands: ApexBands)
    requires
        bands.short_cm < bands.city_cm < bands.regional_cm < bands.continental_cm,
    ensures
        bands.short_cm > 0 ==> band_apex(bands, 0) == bands.min_apex_cm,
        band_apex(bands, bands.short_cm as int) == bands.short_apex_cm,
        band_apex(bands, bands.city_cm as int) == bands.city_apex_cm,
        band_apex(bands, bands.regional_cm as int) == bands.regional_apex_cm,
        band_apex(bands, bands.continental_cm as int) == bands.continental_apex_cm,
        band_apex(bands, 2 * bands.continental_cm) == bands.max_apex_cm,
{
    assert forall|low: int, high: int, whole: int| whole > 0 implies #[trigger] between(
        low,
        high,
        0,
        whole,
    ) == low by {
        assert((high - low) * 0 == 0) by (nonlinear_arith);
        assert(0int / whole == 0) by (nonlinear_arith)
            requires
                whole > 0,
        ;
    }
}

/// The full part of a flight.
pub const WHOLE_FLIGHT: u64 = 1_000_000_000;

/// A leg of a flight, with the part of the leg that is done, in billionths.
#[derive(Clone, Copy, Debug, PartialEq, Eq, Structural)]
pub enum Leg {
    Ascent(u64),
    Descent(u64),
}

/// The altitudes of a flight: up to the apex and down to the destination.
#[derive(Clone, Copy, Debug, PartialEq, Eq, Structural)]
pub struct ArcTrajectory {
    pub apex_altitude: i64,
    pub start_altitude: i64,
    pub target_altitude: i64,
    /// The part of the flight that goes up, in billionths.
    pub apex_t: u64,
}

impl ArcTrajectory {
    /// The apex lies between the ends of the flight.
    pub open spec fn wf(&self) -> bool {
        0 < self.apex_t < WHOLE_FLIGHT
    }

    /// The leg at a part of the flight.
    pub open spec fn leg_spec(&self, t: int) -> (bool, int) {
        if t < self.apex_t {
            (true, t * WHOLE_FLIGHT / (self.apex_t as int))
        } else {
            (false, (t - self.apex_t) * WHOLE_FLIGHT / (WHOLE_FLIGHT - self.apex_t))
        }
    }

    /// The leg at the part `t` of the flight.
    pub fn leg(&self, t: u64) -> (leg: Leg)
        requires
            self.wf(),
            t <= WHOLE_FLIGHT,
        ensures
            match leg {
                Leg::Ascent(done) => self.leg_spec(t as int) == (true, done as int),
                Leg::Descent(done) => self.leg_spec(t as int) == (false, done as int),
            },
    {
        if t < self.apex_t {
            assert(0 <= t * WHOLE_FLIGHT <= WHOLE_FLIGHT * WHOLE_FLIGHT) by (nonlinear_arith)
                requires
                    0 <= t <= WHOLE_FLIGHT,
            ;
            Leg::Ascent(t * WHOLE_FLIGHT / self.apex_t)
        } else {
            let down: u64 = t - self.apex_t;
            assert(0 <= down * WHOLE_FLIGHT <= WHOLE_FLIGHT * WHOLE_FLIGHT) by (nonlinear_arith)
                requires
                    0 <= down <= WHOLE_FLIGHT,
            ;
            Leg::Descent(down * WHOLE_FLIGHT / (WHOLE_FLIGHT - self.apex_t))
        }
    }

    /// The altitude on a leg, after its part has been eased.
    pub fn altitude_on(&self, leg: Leg) -> (altitude: i64)
        ensures
            altitude == match leg {
                Leg::Ascent(eased) => blended(
                    self.start_altitude as int,
                    self.apex_altitude as int,
                    eased as int,
                    WHOLE_FLIGHT as int,
                ),
                Leg::Descent(eased) => blended(
                    self.apex_altitude as int,
                    self.target_altitude as int,
                    eased as int,
                    WHOLE_FLIGHT as int,
                ),
            },
    {
        match leg {
            Leg::Ascent(eased) => lerp(
                self.start_altitude,
                self.apex_altitude,
                eased,
                WHOLE_FLIGHT,
            ),
            Leg::Descent(eased) => lerp(
                self.apex_altitude,
                self.target_altitude,
                eased,
                WHOLE_FLIGHT,
            ),
        }
    }
}

/// A flight begins at the altitude of the start, ends at that of the destination, and its legs meet
/// at the apex.
pub proof fn lemma_legs_meet_at_the_apex(arc: ArcTrajectory)
    requires
        arc.wf(),
    ensures
        arc.leg_spec(0) == (true, 0int),
        arc.leg_spec(arc.apex_t as int) == (false, 0int),
        arc.leg_spec(WHOLE_FLIGHT as int) == (false, WHOLE_FLIGHT as int),
        blended(
            arc.start_altitude as int,
            arc.apex_altitude as int,
            0,
            WHOLE_FLIGHT as int,
        ) == arc.start_altitude,
        blended(
            arc.start_altitude as int,
            arc.apex_altitude as int,
            WHOLE_FLIGHT as int,
            WHOLE_FLIGHT as int,
        ) == arc.apex_altitude,
        blended(
            arc.apex_altitude as int,
            arc.target_altitude as int,
            0,
            WHOLE_FLIGHT as int,
        ) == arc.apex_altitude,
        blended(
            arc.apex_altitude as int,
            arc.target_altitude as int,
            WHOLE_FLIGHT as int,
            WHOLE_FLIGHT as int,
        ) == arc.target_altitude,
{
    let down = WHOLE_FLIGHT - arc.apex_t;
    assert(down * WHOLE_FLIGHT / down == WHOLE_FLIGHT) by {
        vstd::arithmetic::div_mod::lemma_div_by_multiple(WHOLE_FLIGHT as int, down);
        assert(WHOLE_FLIGHT * down == down * WHOLE_FLIGHT) by (nonlinear_arith);
    }
    assert(0int * WHOLE_FLIGHT / down == 0) by {
        vstd::arithmetic::div_mod::lemma_div_basics(down);
    }
    assert(0int * WHOLE_FLIGHT / (arc.apex_t as int) == 0) by {
        vstd::arithmetic::div_mod::lemma_div_basics(arc.apex_t as int);
    }
}

/// An interpolated value lies as far between its ends as the part lies between nothing and the
/// whole, up to rounding.
proof fn lemma_between_in_proportion(low: int, high: int, part: int, whole: int)
    requires
        0 <= part < whole,
    ensures
        ({
            let value = between(low, high, part, whole);
            (value - low) * whole <= (high - low) * part < (value - low + 1) * whole
        }),
        part == 0 ==> between(low, high, part, whole) == low,
{
    lemma_quotient((high - low) * part, whole);
    if part == 0 {
        assert((high - low) * 0 == 0) by (nonlinear_arith);
        vstd::arithmetic::div_mod::lemma_div_basics(whole);
    }
}

/// Between rising ends, a larger part never makes for a smaller value.
proof fn lemma_between_rises(low: int, high: int, less: int, more: int, whole: int)
    requires
        low <= high,
        0 <= less <= more,
    ensures
        low <= between(low, high, less, whole) <= between(low, high, more, whole) <= high,
{
    if less < whole {
        lemma_between_bounds(low, high, less, whole);
    }
    if more < whole {
        lemma_between_bounds(low, high, more, whole);
        assert((high - low) * less <= (high - low) * more) by (nonlinear_arith)
            requires
                low <= high,
                less <= more,
        ;
        lemma_quotients_keep_order((high - low) * less, (high - low) * more, whole);
    }
}

/// A flight takes the least time over a very short distance. Over a short one its time lies as far
/// from the least to that of a short flight as the distance lies from nothing to the short one;
/// beyond, it lies between the times of a short and a medium, and then of a medium and a long
/// flight, as the distance lies between theirs, all up to rounding. Past the long distance it takes
/// the most time.
pub proof fn lemma_flight_times_are_in_proportion(bands: DurationBands, d: u32, t: u64)
    requires
        call_ensures(compute_duration, (&bands, d), t),
    ensures
        d < bands.very_short_cm ==> t == bands.min_ns,
        bands.very_short_cm <= d < bands.short_cm ==> (t - bands.min_ns) * bands.short_cm <= (
        bands.short_ns - bands.min_ns) * d < (t - bands.min_ns + 1) * bands.short_cm,
        bands.very_short_cm <= d && bands.short_cm <= d < bands.medium_cm ==> (t - bands.short_ns)
            * (bands.medium_cm - bands.short_cm) <= (bands.medium_ns - bands.short_ns) * (d
            - bands.short_cm) < (t - bands.short_ns + 1) * (bands.medium_cm - bands.short_cm),
        bands.very_short_cm <= d && bands.short_cm <= d && bands.medium_cm <= d < bands.medium_cm
            + bands.long_cm ==> (t - bands.medium_ns) * bands.long_cm <= (bands.max_ns
            - bands.medium_ns) * (d - bands.medium_cm) < (t - bands.medium_ns + 1) * bands.long_cm,
        bands.very_short_cm <= d && bands.short_cm <= d && bands.medium_cm + bands.long_cm <= d
            ==> t == bands.max_ns,
{
    if d < bands.very_short_cm {
    } else if d < bands.short_cm {
        lemma_between_in_proportion(
            bands.min_ns as int,
            bands.short_ns as int,
            d as int,
            bands.short_cm as int,
        );
    } else if d < bands.medium_cm {
        lemma_between_in_proportion(
            bands.short_ns as int,
            bands.medium_ns as int,
            d - bands.short_cm,
            bands.medium_cm - bands.short_cm,
        );
    } else if d < bands.medium_cm + bands.long_cm {
        lemma_between_in_proportion(
            bands.medium_ns as int,
            bands.max_ns as int,
            d - bands.medium_cm,
            bands.long_cm as int,
        );
    }
}

/// At each distance of the table a flight takes the time that the table gives.
pub proof fn lemma_flight_times_meet_the_table(bands: DurationBands, d: u32, t: u64)
    requires
        call_ensures(compute_duration, (&bands, d), t),
        bands.very_short_cm <= bands.short_cm < bands.medium_cm,
        bands.long_cm > 0,
    ensures
        d < bands.very_short_cm ==> t == bands.min_ns,
        d == bands.short_cm ==> t == bands.short_ns,
        d == bands.medium_cm ==> t == bands.medium_ns,
        d >= bands.medium_cm + bands.long_cm ==> t == bands.max_ns,
{
    if d == bands.short_cm {
        lemma_between_in_proportion(
            bands.short_ns as int,
            bands.medium_ns as int,
            0,
            bands.medium_cm - bands.short_cm,
        );
    }
    if d == bands.medium_cm {
        lemma_between_in_proportion(
            bands.medium_ns as int,
            bands.max_ns as int,
            0,
            bands.long_cm as int,
        );
    }
}

/// With a rising table, a longer flight never takes less time, and every flight takes between the
/// least and the most time.
pub proof fn lemma_longer_flights_take_no_less_time(
    bands: DurationBands,
    near: u32,
    far: u32,
    near_time: u64,
    far_time: u64,
)
    requires
        call_ensures(compute_duration, (&bands, near), near_time),
        call_ensures(compute_duration, (&bands, far), far_time),
        bands.min_ns <= bands.short_ns <= bands.medium_ns <= bands.max_ns,
        near <= far,
    ensures
        bands.min_ns <= near_time <= far_time <= bands.max_ns,
{
    let ends = seq![near as int, far as int];
    assert forall|i: int| 0 <= i < 2 implies {
        let d = #[trigger] ends[i];
        &&& d < bands.short_cm ==> bands.min_ns <= flight_time(bands, d) <= bands.short_ns
        &&& bands.very_short_cm <= d && bands.short_cm <= d < bands.medium_cm ==> bands.short_ns
            <= flight_time(bands, d) <= bands.medium_ns
        &&& bands.very_short_cm <= d && bands.short_cm <= d && bands.medium_cm <= d
            ==> bands.medium_ns <= flight_time(bands, d) <= bands.max_ns
    } by {
        let d = ends[i];
        lemma_between_rises(
            bands.min_ns as int,
            bands.short_ns as int,
            d,
            d,
            bands.short_cm as int,
        );
        if d >= bands.short_cm {
            lemma_between_rises(
                bands.short_ns as int,
                bands.medium_ns as int,
                d - bands.short_cm,
                d - bands.short_cm,
                bands.medium_cm - bands.short_cm,
            );
        }
        if d >= bands.medium_cm {
            lemma_between_rises(
                bands.medium_ns as int,
                bands.max_ns as int,
                d - bands.medium_cm,
                d - bands.medium_cm,
                bands.long_cm as int,
            );
        }
    }
    assert(ends[0] == near && ends[1] == far);
    lemma_between_rises(
        bands.min_ns as int,
        bands.short_ns as int,
        near as int,
        far as int,
        bands.short_cm as int,
    );
    if near >= bands.short_cm {
        lemma_between_rises(
            bands.short_ns as int,
            bands.medium_ns as int,
            near - bands.short_cm,
            far - bands.short_cm,
            bands.medium_cm - bands.short_cm,
        );
    }
    if near >= bands.medium_cm {
        lemma_between_rises(
            bands.medium_ns as int,
            bands.max_ns as int,
            near - bands.medium_cm,
            far - bands.medium_cm,
            bands.long_cm as int,
        );
    }
}

/// Whether an apex altitude fits a band of the table: it is no lower than the altitude that lies
/// between `low` and `high` as `part` lies between nothing and `whole`, and where it is higher than
/// needed to clear the start, it is that altitude, up to rounding.
pub open spec fn fits_band(
    apex: int,
    clear: int,
    low: int,
    high: int,
    part: int,
    whole: int,
) -> bool {
    &&& (high - low) * part < (apex - low + 1) * whole
    &&& apex > clear ==> (apex - low) * whole <= (high - low) * part
}

/// The apex of a flight clears the start by the least apex. Where that does not decide, it lies
/// between two altitudes of the table as the distance lies between theirs; past twice the
/// continental distance it is the highest.
pub proof fn lemma_apexes_are_in_proportion(bands: ApexBands, d: u32, start: i64, apex: i64)
    requires
        i64::MIN <= start + bands.min_apex_cm <= i64::MAX,
        call_ensures(compute_apex_altitude, (&bands, d, start), apex),
        bands.short_cm <= bands.city_cm <= bands.regional_cm <= bands.continental_cm,
    ensures
        apex >= start + bands.min_apex_cm,
        ({
            let clear = start + bands.min_apex_cm;
            &&& d < bands.short_cm ==> fits_band(
                apex as int,
                clear,
                bands.min_apex_cm as int,
                bands.short_apex_cm as int,
                d as int,
                bands.short_cm as int,
            )
            &&& bands.short_cm <= d < bands.city_cm ==> fits_band(
                apex as int,
                clear,
                bands.short_apex_cm as int,
                bands.city_apex_cm as int,
                d - bands.short_cm,
                bands.city_cm - bands.short_cm,
            )
            &&& bands.city_cm <= d < bands.regional_cm ==> fits_band(
                apex as int,
                clear,
                bands.city_apex_cm as int,
                bands.regional_apex_cm as int,
                d - bands.city_cm,
                bands.regional_cm - bands.city_cm,
            )
            &&& bands.regional_cm <= d < bands.continental_cm ==> fits_band(
                apex as int,
                clear,
                bands.regional_apex_cm as int,
                bands.continental_apex_cm as int,
                d - bands.regional_cm,
                bands.continental_cm - bands.regional_cm,
            )
            &&& bands.continental_cm <= d < 2 * bands.continental_cm ==> fits_band(
                apex as int,
                clear,
                bands.continental_apex_cm as int,
                bands.max_apex_cm as int,
                d - bands.continental_cm,
                bands.continental_cm as int,
            )
            &&& 2 * bands.continental_cm <= d && bands.max_apex_cm >= clear ==> apex
                == bands.max_apex_cm
            &&& 2 * bands.continental_cm <= d && bands.max_apex_cm < clear ==> apex == clear
        }),
{
    let b = bands;
    if d < b.short_cm {
        lemma_fits(b, d, start, apex, b.min_apex_cm as int, b.short_apex_cm as int, d as int, b.short_cm as int);
    } else if d < b.city_cm {
        lemma_fits(b, d, start, apex, b.short_apex_cm as int, b.city_apex_cm as int, d - b.short_cm, b.city_cm - b.short_cm);
    } else if d < b.regional_cm {
        lemma_fits(b, d, start, apex, b.city_apex_cm as int, b.regional_apex_cm as int, d - b.city_cm, b.regional_cm - b.city_cm);
    } else if d < b.continental_cm {
        lemma_fits(
            b,
            d,
            start,
            apex,
            b.regional_apex_cm as int,
            b.continental_apex_cm as int,
            d - b.regional_cm,
            b.continental_cm - b.regional_cm,
        );
    } else if d < 2 * b.continental_cm {
        lemma_fits(
            b,
            d,
            start,
            apex,
            b.continental_apex_cm as int,
            b.max_apex_cm as int,
            d - b.continental_cm,
            b.continental_cm as int,
        );
    }
}

proof fn lemma_fits(
    bands: ApexBands,
    d: u32,
    start: i64,
    apex: i64,
    low: int,
    high: int,
    part: int,
    whole: int,
)
    requires
        apex == apex_altitude(bands, d as int, start as int),
        band_apex(bands, d as int) == between(low, high, part, whole),
        0 <= part < whole,
    ensures
        fits_band(apex as int, start + bands.min_apex_cm, low, high, part, whole),
{
    lemma_between_in_proportion(low, high, part, whole);
    let value = between(low, high, part, whole);
    assert((value - low + 1) * whole <= (apex - low + 1) * whole) by (nonlinear_arith)
        requires
            value <= apex,
            whole > 0,
    ;
}

/// With a rising table, neither a longer flight nor one from higher up has a lower apex.
pub proof fn lemma_longer_flights_are_no_lower(
    bands: ApexBands,
    near: u32,
    far: u32,
    low_start: i64,
    high_start: i64,
    near_apex: i64,
    far_apex: i64,
)
    requires
        i64::MIN <= low_start + bands.min_apex_cm,
        high_start + bands.min_apex_cm <= i64::MAX,
        call_ensures(compute_apex_altitude, (&bands, near, low_start), near_apex),
        call_ensures(compute_apex_altitude, (&bands, far, high_start), far_apex),
        bands.short_cm <= bands.city_cm <= bands.regional_cm <= bands.continental_cm,
        bands.min_apex_cm <= bands.short_apex_cm <= bands.city_apex_cm <= bands.regional_apex_cm
            <= bands.continental_apex_cm <= bands.max_apex_cm,
        near <= far,
        low_start <= high_start,
    ensures
        near_apex <= far_apex,
{
    lemma_band_apex_rises(bands, near as int, far as int);
}

proof fn lemma_band_apex_rises(b: ApexBands, near: int, far: int)
    requires
        b.short_cm <= b.city_cm <= b.regional_cm <= b.continental_cm,
        b.min_apex_cm <= b.short_apex_cm <= b.city_apex_cm <= b.regional_apex_cm
            <= b.continental_apex_cm <= b.max_apex_cm,
        0 <= near <= far,
    ensures
        band_apex(b, near) <= band_apex(b, far),
{
    let lows = seq![
        b.min_apex_cm as int,
        b.short_apex_cm as int,
        b.city_apex_cm as int,
        b.regional_apex_cm as int,
        b.continental_apex_cm as int,
        b.max_apex_cm as int,
    ];
    let ends = seq![
        0int,
        b.short_cm as int,
        b.city_cm as int,
        b.regional_cm as int,
        b.continental_cm as int,
        2 * b.continental_cm,
    ];
    assert forall|i: int| 0 <= i < 5 && #[trigger] ends[i] <= near implies between(
        lows[i],
        lows[i + 1],
        near - ends[i],
        ends[i + 1] - ends[i],
    ) <= between(lows[i], lows[i + 1], far - ends[i], ends[i + 1] - ends[i]) by {
        lemma_between_rises(
            lows[i],
            lows[i + 1],
            near - ends[i],
            far - ends[i],
            ends[i + 1] - ends[i],
        );
    }
    assert forall|i: int, d: int|
        0 <= i < 5 && 0 <= d && #[trigger] ends[i] <= d implies lows[i] <= #[trigger] between(
        lows[i],
        lows[i + 1],
        d - ends[i],
        ends[i + 1] - ends[i],
    ) <= lows[i + 1] by {
        lemma_between_rises(lows[i], lows[i + 1], d - ends[i], d - ends[i], ends[i + 1] - ends[i]);
    }
    let i = lemma_band_of(b, near, lows, ends);
    let j = lemma_band_of(b, far, lows, ends);
    if i < j {
        assert(lows[i + 1] <= lows[j]);
    }
}

proof fn lemma_band_of(b: ApexBands, d: int, lows: Seq<int>, ends: Seq<int>) -> (i: int)
    requires
        b.short_cm <= b.city_cm <= b.regional_cm <= b.continental_cm,
        lows == seq![
            b.min_apex_cm as int,
            b.short_apex_cm as int,
            b.city_apex_cm as int,
            b.regional_apex_cm as int,
            b.continental_apex_cm as int,
            b.max_apex_cm as int,
        ],
        ends == seq![
            0int,
            b.short_cm as int,
            b.city_cm as int,
            b.regional_cm as int,
            b.continental_cm as int,
            2 * b.continental_cm,
        ],
        0 <= d,
    ensures
        0 <= i < 5,
        ends[i] <= d,
        i < 4 ==> d < ends[i + 1],
        band_apex(b, d) == between(lows[i], lows[i + 1], d - ends[i], ends[i + 1] - ends[i]),
{
    if d < b.short_cm {
        0
    } else if d < b.city_cm {
        1
    } else if d < b.regional_cm {
        2
    } else if d < b.continental_cm {
        3
    } else {
        4
    }
}

/// A flight climbs until its apex and then descends, and the part of the leg that is done grows in
/// proportion, from nothing to all of it.
pub proof fn lemma_legs_are_in_proportion(arc: ArcTrajectory, t: u64, leg: Leg)
    requires
        arc.wf(),
        t <= WHOLE_FLIGHT,
        call_ensures(ArcTrajectory::leg, (&arc, t), leg),
    ensures
        leg is Ascent <==> t < arc.apex_t,
        leg matches Leg::Ascent(done) ==> done * arc.apex_t <= t * WHOLE_FLIGHT < (done + 1)
            * arc.apex_t,
        leg matches Leg::Descent(done) ==> done * (WHOLE_FLIGHT - arc.apex_t) <= (t - arc.apex_t)
            * WHOLE_FLIGHT < (done + 1) * (WHOLE_FLIGHT - arc.apex_t),
{
    if t < arc.apex_t {
        lemma_quotient(t * WHOLE_FLIGHT, arc.apex_t as int);
    } else {
        lemma_quotient((t - arc.apex_t) * WHOLE_FLIGHT, WHOLE_FLIGHT - arc.apex_t);
    }
}

/// The climb leads from the altitude of the start to that of the apex, the descent from there to
/// that of the destination; on the way the altitude lies between them, as far as the leg is done.
pub proof fn lemma_altitudes_on_the_way(arc: ArcTrajectory, eased: u64, up: i64, down: i64)
    requires
        eased <= WHOLE_FLIGHT,
        call_ensures(ArcTrajectory::altitude_on, (&arc, Leg::Ascent(eased)), up),
        call_ensures(ArcTrajectory::altitude_on, (&arc, Leg::Descent(eased)), down),
    ensures
        eased == 0 ==> up == arc.start_altitude && down == arc.apex_altitude,
        eased == WHOLE_FLIGHT ==> up == arc.apex_altitude && down == arc.target_altitude,
        arc.start_altitude <= arc.apex_altitude ==> (up - arc.start_altitude) * WHOLE_FLIGHT <= (
        arc.apex_altitude - arc.start_altitude) * eased < (up - arc.start_altitude + 1)
            * WHOLE_FLIGHT,
        arc.target_altitude <= arc.apex_altitude ==> (arc.apex_altitude - down) * WHOLE_FLIGHT <= (
        arc.apex_altitude - arc.target_altitude) * eased < (arc.apex_altitude - down + 1)
            * WHOLE_FLIGHT,
        arc.start_altitude >= arc.apex_altitude ==> (arc.start_altitude - up) * WHOLE_FLIGHT <= (
        arc.start_altitude - arc.apex_altitude) * eased < (arc.start_altitude - up + 1)
            * WHOLE_FLIGHT,
        arc.target_altitude >= arc.apex_altitude ==> (down - arc.apex_altitude) * WHOLE_FLIGHT <= (
        arc.target_altitude - arc.apex_altitude) * eased < (down - arc.apex_altitude + 1)
            * WHOLE_FLIGHT,
{
    lemma_blended_in_proportion(
        arc.start_altitude as int,
        arc.apex_altitude as int,
        eased as int,
        WHOLE_FLIGHT as int,
    );
    lemma_blended_in_proportion(
        arc.apex_altitude as int,
        arc.target_altitude as int,
        eased as int,
        WHOLE_FLIGHT as int,
    );
}

/// A flight lasts as long as it takes: before that the camera flies on, and with the step that
/// completes it the wind stops and the ground is looked for. A flight never ends the teleport.
pub proof fn lemma_flights_last_as_long_as_they_take<P, H: Copy>(
    animation: &mut TeleportAnimation<P, H>,
    dt: u64,
    config: SettleConfig,
    ground: Option<H>,
    step: Option<TeleportStep<H>>,
)
    requires
        call_ensures(TeleportAnimation::<P, H>::tick, (animation, dt, config, ground), step),
        old(animation).phase is Some,
        old(animation).phase->0.state is Flying,
        old(animation).phase->0.elapsed + dt <= u64::MAX,
    ensures
        ({
            let before = old(animation).phase->0;
            let after = final(animation).phase->0;
            let now = before.elapsed + dt;
            &&& step is Some && step->0.fly && step->0.arrival is None
            &&& step->0.stop_wind <==> now >= before.duration
            &&& final(animation).phase is Some
            &&& after.elapsed == now
            &&& after.plan == before.plan && after.duration == before.duration
            &&& after.camera_mode == before.camera_mode
            &&& now < before.duration ==> after.state is Flying
            &&& now >= before.duration && ground is None ==> after.state
                == AnimationState::<H>::WaitingForPhysics { started_at: now as u64 }
            &&& now >= before.duration && ground is Some ==> after.state
                == (AnimationState::Settling { detected_at: now as u64, ground: ground->0 })
        }),
{
}

/// The sound of the arrival comes once, in flight, with the first step at which the descent has
/// begun.
pub proof fn lemma_arrivals_sound_once<P, H: Copy>(
    animation: &mut TeleportAnimation<P, H>,
    dt: u64,
    config: SettleConfig,
    ground: Option<H>,
    step: Option<TeleportStep<H>>,
)
    requires
        call_ensures(TeleportAnimation::<P, H>::tick, (animation, dt, config, ground), step),
        old(animation).phase is Some,
        old(animation).phase->0.elapsed + dt <= u64::MAX,
    ensures
        ({
            let before = old(animation).phase->0;
            let now = before.elapsed + dt;
            let begun = now * 1000000 >= config.descent_start_ppm * before.duration;
            &&& step->0.arrival_woosh ==> before.state is Flying && !before.arrival_woosh_played
            &&& before.state is Flying ==> final(animation).phase->0.arrival_woosh_played == (
            before.arrival_woosh_played || step->0.arrival_woosh)
            &&& before.state is Flying && !before.arrival_woosh_played && now < before.duration ==> (
            step->0.arrival_woosh <==> begun)
            &&& before.state is Flying && !before.arrival_woosh_played && now >= before.duration
                ==> (step->0.arrival_woosh <==> config.descent_start_ppm <= 1000000)
        }),
{
}

/// A teleport that waits for ground goes on without at the time-out; until then it waits, and
/// begins to settle as soon as there is ground.
pub proof fn lemma_waits_end_with_ground_or_time_out<P, H: Copy>(
    animation: &mut TeleportAnimation<P, H>,
    dt: u64,
    config: SettleConfig,
    ground: Option<H>,
    step: Option<TeleportStep<H>>,
    started_at: u64,
)
    requires
        call_ensures(TeleportAnimation::<P, H>::tick, (animation, dt, config, ground), step),
        old(animation).phase is Some,
        old(animation).phase->0.state == (AnimationState::<H>::WaitingForPhysics { started_at }),
        old(animation).phase->0.elapsed + dt <= u64::MAX,
    ensures
        ({
            let before = old(animation).phase->0;
            let now = before.elapsed + dt;
            &&& step is Some && !step->0.fly && !step->0.stop_wind
            &&& step->0.arrival is Some <==> now >= started_at + config.physics_wait_timeout
            &&& step->0.arrival is Some <==> final(animation).phase is None
            &&& step->0.arrival matches Some(arrival) ==> arrival.ground is None && (
            arrival.respawn <==> before.camera_mode == CameraMode::FpsController)
            &&& final(animation).phase matches Some(after) ==> {
                &&& after.elapsed == now
                &&& after.plan == before.plan && after.duration == before.duration
                &&& after.camera_mode == before.camera_mode
                &&& ground is None ==> after.state == before.state
                &&& ground is Some ==> after.state == (AnimationState::Settling {
                    detected_at: now as u64,
                    ground: ground->0,
                })
            }
        }),
{
}

/// A teleport that settles ends on its ground once that has stayed for the delay. Ground that
/// vanishes sends it back to waiting, and the wait counts from when that ground was first there.
pub proof fn lemma_ground_has_to_stay<P, H: Copy>(
    animation: &mut TeleportAnimation<P, H>,
    dt: u64,
    config: SettleConfig,
    ground: Option<H>,
    step: Option<TeleportStep<H>>,
    detected_at: u64,
    spot: H,
)
    requires
        call_ensures(TeleportAnimation::<P, H>::tick, (animation, dt, config, ground), step),
        old(animation).phase is Some,
        old(animation).phase->0.state == (AnimationState::Settling { detected_at, ground: spot }),
        old(animation).phase->0.elapsed + dt <= u64::MAX,
    ensures
        ({
            let before = old(animation).phase->0;
            let now = before.elapsed + dt;
            &&& step is Some && !step->0.fly && !step->0.stop_wind
            &&& step->0.arrival is Some <==> ground is Some && now >= detected_at
                + config.physics_settle_delay
            &&& step->0.arrival is Some <==> final(animation).phase is None
            &&& step->0.arrival matches Some(arrival) ==> arrival.ground == ground && (
            arrival.respawn <==> before.camera_mode == CameraMode::FpsController)
            &&& final(animation).phase matches Some(after) ==> {
                &&& after.elapsed == now
                &&& after.plan == before.plan && after.duration == before.duration
                &&& after.camera_mode == before.camera_mode
                &&& ground is None ==> after.state == (AnimationState::<H>::WaitingForPhysics {
                    started_at: detected_at,
                })
                &&& ground is Some ==> after.state == before.state
            }
        }),
{
}

/// A request waits under its own number, clears an earlier failure and makes the sound of a
/// departure due; the numbers of requests that follow each other differ.
pub proof fn lemma_requests_wait<C: Copy>(
    state: &mut TeleportState<C>,
    lat: C,
    lon: C,
    ticket: u64,
)
    requires
        call_ensures(TeleportState::<C>::request, (state, lat, lon), ticket),
    ensures
        final(state).pending == Some(PendingTeleport { lat, lon, ticket }),
        final(state).error is None,
        final(state).play_departure_woosh,
        final(state).next_ticket != ticket,
        ticket == old(state).next_ticket,
        ticket < u64::MAX ==> final(state).next_ticket == ticket + 1,
{
}

/// The answer to the request that waits ends the wait: with an elevation the flight goes to the
/// place that was asked for, with a failure there is none and the failure is kept. Any other
/// answer changes nothing.
pub proof fn lemma_answers_end_their_own_wait<C: Copy>(
    state: &mut TeleportState<C>,
    ticket: u64,
    answer: Result<C, String>,
    place: Option<(C, C, C)>,
)
    requires
        call_ensures(TeleportState::<C>::poll_elevation, (state, ticket, answer), place),
    ensures
        ({
            let before = *old(state);
            let after = *final(state);
            let own = before.pending is Some && before.pending->0.ticket == ticket;
            &&& place is Some <==> own && answer is Ok
            &&& place matches Some(found) ==> found == (
                before.pending->0.lat,
                before.pending->0.lon,
                answer->Ok_0,
            )
            &&& own ==> after.pending is None
            &&& own && answer is Ok ==> after.error is None
            &&& own && answer is Err ==> after.error == Some(answer->Err_0)
            &&& !own ==> after == before
            &&& after.next_ticket == before.next_ticket
            &&& after.play_departure_woosh == before.play_departure_woosh
        }),
{
}

/// A flight begins from a metre on, at its start, and takes down the player in first person; what was
/// under way before has ended in any case. Nearer by there is no flight.
pub proof fn lemma_flights_begin_from_a_metre_on<P, H: Copy>(
    animation: &mut TeleportAnimation<P, H>,
    plan: P,
    distance_cm: u64,
    duration: u64,
    mode: CameraMode,
    start: FlightStart,
)
    requires
        call_ensures(
            TeleportAnimation::<P, H>::begin_flight,
            (animation, plan, distance_cm, duration, mode),
            start,
        ),
    ensures
        start.stop_wind,
        start.start_wind <==> distance_cm >= 100,
        start.despawn_player <==> distance_cm >= 100 && mode == CameraMode::FpsController,
        final(animation).phase is Some <==> distance_cm >= 100,
        final(animation).phase matches Some(phase) ==> {
            &&& phase.plan == plan
            &&& phase.duration == duration
            &&& phase.elapsed == 0
            &&& phase.camera_mode == mode
            &&& phase.state is Flying
            &&& !phase.arrival_woosh_played
        },
{
}

/// The progress of a flight is the part of its time that has passed, and all of it from its end on.
pub proof fn lemma_progress_grows_to_the_whole<P, H: Copy>(
    animation: TeleportAnimation<P, H>,
    active: bool,
    waiting: bool,
    progress: Option<(u64, u64)>,
)
    requires
        call_ensures(TeleportAnimation::<P, H>::progress, (&animation,), progress),
        call_ensures(TeleportAnimation::<P, H>::is_active, (&animation,), active),
        call_ensures(TeleportAnimation::<P, H>::is_waiting_for_physics, (&animation,), waiting),
    ensures
        active <==> animation.phase is Some,
        progress is Some <==> active,
        waiting <==> animation.phase is Some && !(animation.phase->0.state is Flying),
        progress matches Some(part) ==> {
            let phase = animation.phase->0;
            &&& part.0 <= part.1
            &&& part.1 > 0
            &&& waiting || phase.elapsed >= phase.duration ==> part.0 == part.1
            &&& !waiting && phase.elapsed < phase.duration ==> part.0 == phase.elapsed && part.1
                == phase.duration
        },
{
}

/// A teleport that is broken off is over, and hands back where it was.
pub proof fn lemma_teleports_can_be_broken_off<P, H: Copy>(
    animation: &mut TeleportAnimation<P, H>,
    flight: Option<(P, u64, u64)>,
)
    requires
        call_ensures(TeleportAnimation::<P, H>::cancel, (animation,), flight),
    ensures
        final(animation).phase is None,
        flight is Some <==> old(animation).phase is Some,
        flight matches Some(f) ==> f.0 == old(animation).phase->0.plan && f.1
            == old(animation).phase->0.elapsed && f.2 == old(animation).phase->0.duration,
{
}

/// The sound of a departure is played once for a request.
pub proof fn lemma_departures_sound_once<C: Copy>(
    state: &mut TeleportState<C>,
    play: bool,
    pending: bool,
)
    requires
        call_ensures(TeleportState::<C>::take_departure_woosh, (state,), play),
        call_ensures(TeleportState::<C>::is_pending, (&*final(state),), pending),
    ensures
        play <==> old(state).play_departure_woosh,
        !final(state).play_departure_woosh,
        final(state).pending == old(state).pending,
        final(state).error == old(state).error,
        pending <==> old(state).pending is Some,
{
}

} // verus!
