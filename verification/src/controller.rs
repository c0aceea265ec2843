//! The first-person controller: footing, falls and what the input drives.
//!
//! Times are in nanoseconds.

use vstd::prelude::*;

verus! {

/// Whether the player is in control of the body.
#[derive(Clone, Copy, Debug, PartialEq, Eq, Structural)]
pub enum RagdollState {
    /// Input drives the player.
    Active,
    /// The body tumbles; input drives nothing.
    Ragdolling,
}

/// When a player goes limp and when it gets up.
#[derive(Clone, Copy, Debug, PartialEq, Eq, Structural)]
pub struct RagdollTriggers {
    /// Without this no player goes limp or gets up.
    pub enable_ragdoll: bool,
    /// How long a fall lasts before the player goes limp.
    pub airborne_threshold: u64,
    /// How long the player lies on the ground before it gets up.
    pub ground_recovery: u64,
}

/// How a player stands.
#[derive(Clone, Copy, Debug, PartialEq, Eq, Structural)]
pub struct Footing {
    /// The number of steps on the ground without a break, at most 255.
    pub ground_tick: u8,
    pub ragdoll_state: RagdollState,
    /// How long the player has been in the air without a break.
    pub airborne_time: u64,
    /// How long the player has been on the ground without a break.
    pub grounded_time: u64,
}

/// A sum of times, at most the largest.
pub open spec fn lengthened(time: int, dt: int) -> int {
    if time + dt <= u64::MAX {
        time + dt
    } else {
        u64::MAX as int
    }
}

/// The footing after a step, before the player goes limp or gets up.
pub open spec fn stepped(footing: Footing, ground_hit: bool, dt: u64) -> Footing {
    if ground_hit {
        Footing {
            ground_tick: if footing.ground_tick < 255 {
                (footing.ground_tick + 1) as u8
            } else {
                255
            },
            ragdoll_state: footing.ragdoll_state,
            airborne_time: 0,
            grounded_time: lengthened(footing.grounded_time as int, dt as int) as u64,
        }
    } else {
        Footing {
            ground_tick: 0,
            ragdoll_state: footing.ragdoll_state,
            airborne_time: lengthened(footing.airborne_time as int, dt as int) as u64,
            grounded_time: 0,
        }
    }
}

/// The footing after the player has gone limp or got up, where it is time.
pub open spec fn turned(footing: Footing, triggers: RagdollTriggers) -> Footing {
    if !triggers.enable_ragdoll {
        footing
    } else {
        match footing.ragdoll_state {
            RagdollState::Active => if footing.airborne_time >= triggers.airborne_threshold {
                Footing { ragdoll_state: RagdollState::Ragdolling, ..footing }
            } else {
                footing
            },
            RagdollState::Ragdolling => if footing.grounded_time >= triggers.ground_recovery {
                Footing {
                    ragdoll_state: RagdollState::Active,
                    airborne_time: 0,
                    grounded_time: 0,
                    ..footing
                }
            } else {
                footing
            },
        }
    }
}

impl Footing {
    /// The player is not on the ground and in the air at once.
    pub open spec fn wf(&self) -> bool {
        &&& self.airborne_time == 0 || self.grounded_time == 0
        &&& self.ground_tick > 0 ==> self.airborne_time == 0
    }

    /// A player that has just come to be.
    pub fn new() -> (footing: Self)
        ensures
            footing == (Footing {
                ground_tick: 0,
                ragdoll_state: RagdollState::Active,
                airborne_time: 0,
                grounded_time: 0,
            }),
            footing.wf(),
    {
        Footing {
            ground_tick: 0,
            ragdoll_state: RagdollState::Active,
            airborne_time: 0,
            grounded_time: 0,
        }
    }

    /// Whether the player is on the ground.
    pub open spec fn grounded(&self) -> bool {
        self.ground_tick >= 1
    }

    /// Whether the player is on the ground.
    pub fn is_grounded(&self) -> (yes: bool)
        ensures
            yes == self.grounded(),
    {
        self.ground_tick >= 1
    }

    /// Takes the player off the ground, as a launch does.
    pub fn lift_off(&mut self)
        ensures
            *final(self) == (Footing { ground_tick: 0, ..*old(self) }),
            old(self).wf() ==> final(self).wf(),
    {
        self.ground_tick = 0;
    }

    /// A step of length `dt` after the collisions have been resolved; `ground_hit` tells whether
    /// the player touched ground.
    pub fn slide(&mut self, ground_hit: bool, dt: u64, triggers: RagdollTriggers)
        ensures
            *final(self) == turned(stepped(*old(self), ground_hit, dt), triggers),
            final(self).grounded() == ground_hit,
            final(self).wf(),
    {
        if ground_hit {
            self.ground_tick = if self.ground_tick < 255 {
                self.ground_tick + 1
            } else {
                255
            };
            self.grounded_time = longer(self.grounded_time, dt);
            self.airborne_time = 0;
        } else {
            self.ground_tick = 0;
            self.airborne_time = longer(self.airborne_time, dt);
            self.grounded_time = 0;
        }
        if triggers.enable_ragdoll {
            match self.ragdoll_state {
                RagdollState::Active => {
                    if self.airborne_time >= triggers.airborne_threshold {
                        self.ragdoll_state = RagdollState::Ragdolling;
                    }
                },
                RagdollState::Ragdolling => {
                    if self.grounded_time >= triggers.ground_recovery {
                        self.ragdoll_state = RagdollState::Active;
                        self.airborne_time = 0;
                        self.grounded_time = 0;
                    }
                },
            }
        }
    }
}

fn longer(time: u64, dt: u64) -> (sum: u64)
    ensures
        sum == lengthened(time as int, dt as int),
{
    if dt <= u64::MAX - time {
        time + dt
    } else {
        u64::MAX
    }
}

/// The footing after a run of steps in the air.
pub open spec fn fallen(footing: Footing, steps: Seq<u64>, triggers: RagdollTriggers) -> Footing
    decreases steps.len(),
{
    if steps.len() == 0 {
        footing
    } else {
        turned(stepped(fallen(footing, steps.drop_last(), triggers), false, steps.last()), triggers)
    }
}

/// The footing after a run of steps on the ground.
pub open spec fn rested(footing: Footing, steps: Seq<u64>, triggers: RagdollTriggers) -> Footing
    decreases steps.len(),
{
    if steps.len() == 0 {
        footing
    } else {
        turned(stepped(rested(footing, steps.drop_last(), triggers), true, steps.last()), triggers)
    }
}

/// How long a run of steps lasts.
pub open spec fn lasts(steps: Seq<u64>) -> int
    decreases steps.len(),
{
    if steps.len() == 0 {
        0
    } else {
        lasts(steps.drop_last()) + steps.last()
    }
}

/// A short fall does not make the player limp: as long as the time in the air stays below the
/// threshold the player stays in control.
pub proof fn lemma_short_falls_are_harmless(
    footing: Footing,
    steps: Seq<u64>,
    triggers: RagdollTriggers,
)
    requires
        footing.ragdoll_state is Active,
        footing.airborne_time + lasts(steps) < triggers.airborne_threshold,
    ensures
        fallen(footing, steps, triggers).ragdoll_state is Active,
        fallen(footing, steps, triggers).airborne_time == footing.airborne_time + lasts(steps),
    decreases steps.len(),
{
    if steps.len() > 0 {
        lemma_short_falls_are_harmless(footing, steps.drop_last(), triggers);
    }
}

/// A long fall makes the player limp, once the time in the air reaches the threshold.
pub proof fn lemma_long_falls_ragdoll(footing: Footing, steps: Seq<u64>, triggers: RagdollTriggers)
    requires
        footing.ragdoll_state is Active,
        triggers.enable_ragdoll,
        triggers.ground_recovery > 0,
        steps.len() > 0,
        footing.airborne_time + lasts(steps) >= triggers.airborne_threshold,
    ensures
        fallen(footing, steps, triggers).ragdoll_state is Ragdolling,
    decreases steps.len(),
{
    let before = steps.drop_last();
    if footing.airborne_time + lasts(before) < triggers.airborne_threshold {
        lemma_short_falls_are_harmless(footing, before, triggers);
    } else if before.len() > 0 {
        lemma_long_falls_ragdoll(footing, before, triggers);
    }
}

/// A limp player stays down until it has been on the ground for the time of recovery.
pub proof fn lemma_short_rests_do_not_recover(
    footing: Footing,
    steps: Seq<u64>,
    triggers: RagdollTriggers,
)
    requires
        footing.ragdoll_state is Ragdolling,
        footing.grounded_time + lasts(steps) < triggers.ground_recovery,
    ensures
        rested(footing, steps, triggers).ragdoll_state is Ragdolling,
        rested(footing, steps, triggers).grounded_time == footing.grounded_time + lasts(steps),
    decreases steps.len(),
{
    if steps.len() > 0 {
        lemma_short_rests_do_not_recover(footing, steps.drop_last(), triggers);
    }
}

/// A limp player gets up once it has been on the ground for the time of recovery, and then stays
/// in control on the ground.
pub proof fn lemma_long_rests_recover(footing: Footing, steps: Seq<u64>, triggers: RagdollTriggers)
    requires
        footing.ragdoll_state is Ragdolling,
        triggers.enable_ragdoll,
        triggers.airborne_threshold > 0,
        steps.len() > 0,
        footing.grounded_time + lasts(steps) >= triggers.ground_recovery,
    ensures
        rested(footing, steps, triggers).ragdoll_state is Active,
    decreases steps.len(),
{
    let before = steps.drop_last();
    if footing.grounded_time + lasts(before) < triggers.ground_recovery {
        lemma_short_rests_do_not_recover(footing, before, triggers);
    } else if before.len() > 0 {
        lemma_long_rests_recover(footing, before, triggers);
    }
}

/// With ragdolls switched off no step changes who is in control.
pub proof fn lemma_switched_off_changes_nothing(
    footing: Footing,
    ground_hit: bool,
    dt: u64,
    triggers: RagdollTriggers,
)
    requires
        !triggers.enable_ragdoll,
    ensures
        turned(stepped(footing, ground_hit, dt), triggers).ragdoll_state == footing.ragdoll_state,
{
}

/// The buttons that the next step reads.
#[derive(Clone, Copy, Debug, PartialEq, Eq, Structural)]
pub struct ControlInput {
    pub sprint: bool,
    pub jump: bool,
    pub crouch: bool,
}

impl ControlInput {
    /// Nothing is pressed.
    pub fn new() -> (input: Self)
        ensures
            input == (ControlInput { sprint: false, jump: false, crouch: false }),
    {
        ControlInput { sprint: false, jump: false, crouch: false }
    }

    /// Adds what is pressed in this frame, if input is enabled.
    pub fn gather(&mut self, enabled: bool, pressed: ControlInput)
        ensures
            *final(self) == gathered(*old(self), enabled, pressed),
    {
        if enabled {
            self.sprint = self.sprint || pressed.sprint;
            self.jump = self.jump || pressed.jump;
            self.crouch = self.crouch || pressed.crouch;
        }
    }

    /// Forgets what a step has read; without a step in this frame everything is kept.
    pub fn clear_after(&mut self, step_ran: bool)
        ensures
            *final(self) == cleared(*old(self), step_ran),
    {
        if step_ran {
            self.sprint = false;
            self.jump = false;
            self.crouch = false;
        }
    }
}

/// The input with what is pressed.
pub open spec fn gathered(
    input: ControlInput,
    enabled: bool,
    pressed: ControlInput,
) -> ControlInput {
    if enabled {
        ControlInput {
            sprint: input.sprint || pressed.sprint,
            jump: input.jump || pressed.jump,
            crouch: input.crouch || pressed.crouch,
        }
    } else {
        input
    }
}

/// The input after the steps of a frame.
pub open spec fn cleared(input: ControlInput, step_ran: bool) -> ControlInput {
    if step_ran {
        ControlInput { sprint: false, jump: false, crouch: false }
    } else {
        input
    }
}

/// The input after some frames without a step, each with what is pressed in it.
pub open spec fn carried(input: ControlInput, frames: Seq<ControlInput>) -> ControlInput
    decreases frames.len(),
{
    if frames.len() == 0 {
        input
    } else {
        cleared(gathered(carried(input, frames.drop_last()), true, frames.last()), false)
    }
}

/// A press between two steps is not lost: the next step reads what was pressed in any frame
/// since the last one.
pub proof fn lemma_presses_reach_the_step(
    input: ControlInput,
    frames: Seq<ControlInput>,
    i: int,
    last: ControlInput,
)
    requires
        0 <= i < frames.len(),
    ensures
        ({
            let read = gathered(carried(input, frames), true, last);
            &&& frames[i].sprint ==> read.sprint
            &&& frames[i].jump ==> read.jump
            &&& frames[i].crouch ==> read.crouch
        }),
    decreases frames.len(),
{
    if i < frames.len() - 1 {
        lemma_presses_reach_the_step(input, frames.drop_last(), i, frames.last());
        assert(frames.drop_last()[i] == frames[i]);
    }
}

/// The part of the settings that bounds the speed.
#[derive(Clone, Copy, Debug, PartialEq, Eq, Structural)]
pub enum TopSpeed {
    Crouched,
    Run,
    Walk,
}

/// What slows the player on the ground.
#[derive(Clone, Copy, Debug, PartialEq, Eq, Structural)]
pub enum GroundFriction {
    /// The strong friction of a limp body.
    Landing,
    /// The friction of a player that walks.
    Walking,
}

/// What drives the player.
#[derive(Clone, Copy, Debug, PartialEq, Eq, Structural)]
pub enum Drive {
    /// Nothing but gravity and friction.
    Nothing,
    /// Acceleration on the ground, and a jump where one is asked for.
    Ground {
        jump: bool,
    },
    /// The weaker acceleration in the air, with its cap.
    Air,
}

/// How the height of the capsule changes.
#[derive(Clone, Copy, Debug, PartialEq, Eq, Structural)]
pub enum HeightChange {
    /// The capsule stays as it is.
    Stays,
    /// The capsule shrinks toward its crouched height.
    Shrinks,
    /// The capsule grows toward its upright height.
    Grows,
}

/// What a step does before the collisions are resolved. Gravity always applies.
#[derive(Clone, Copy, Debug, PartialEq, Eq, Structural)]
pub struct StepPlan {
    pub top_speed: TopSpeed,
    pub friction: Option<GroundFriction>,
    pub drive: Drive,
    pub height: HeightChange,
}

/// Plans a step. A limp player is driven by nothing and keeps its height; on the ground the
/// friction of a landing slows it.
pub fn plan_step(footing: &Footing, input: ControlInput) -> (plan: StepPlan)
    ensures
        plan.top_speed == if input.crouch {
            TopSpeed::Crouched
        } else if input.sprint {
            TopSpeed::Run
        } else {
            TopSpeed::Walk
        },
        plan.friction == if !footing.grounded() {
            None
        } else if footing.ragdoll_state is Ragdolling {
            Some(GroundFriction::Landing)
        } else {
            Some(GroundFriction::Walking)
        },
        plan.drive == if footing.ragdoll_state is Ragdolling {
            Drive::Nothing
        } else if footing.grounded() {
            Drive::Ground { jump: input.jump }
        } else {
            Drive::Air
        },
        plan.height == if footing.ragdoll_state is Ragdolling {
            HeightChange::Stays
        } else if input.crouch {
            HeightChange::Shrinks
        } else {
            HeightChange::Grows
        },
{
    let limp = match footing.ragdoll_state {
        RagdollState::Ragdolling => true,
        RagdollState::Active => false,
    };
    let grounded = footing.is_grounded();
    let top_speed = if input.crouch {
        TopSpeed::Crouched
    } else if input.sprint {
        TopSpeed::Run
    } else {
        TopSpeed::Walk
    };
    let friction = if !grounded {
        None
    } else if limp {
        Some(GroundFriction::Landing)
    } else {
        Some(GroundFriction::Walking)
    };
    let drive = if limp {
        Drive::Nothing
    } else if grounded {
        Drive::Ground { jump: input.jump }
    } else {
        Drive::Air
    };
    let height = if limp {
        HeightChange::Stays
    } else if input.crouch {
        HeightChange::Shrinks
    } else {
        HeightChange::Grows
    };
    StepPlan { top_speed, friction, drive, height }
}

/// What of the controller runs in a frame.
#[derive(Clone, Copy, Debug, PartialEq, Eq, Structural)]
pub struct ControllerRuns {
    /// Input, look and steps.
    pub play: bool,
    /// The camera follows the player.
    pub render: bool,
    /// The origin follows the camera.
    pub sync_origin: bool,
}

/// What of the controller runs: nothing outside first person, and during a teleport only the
/// origin still follows the camera.
pub fn controller_runs(is_fps_mode: bool, teleport_active: bool) -> (runs: ControllerRuns)
    ensures
        runs.play == (is_fps_mode && !teleport_active),
        runs.render == (is_fps_mode && !teleport_active),
        runs.sync_origin == is_fps_mode,
{
    let free = is_fps_mode && !teleport_active;
    ControllerRuns { play: free, render: free, sync_origin: is_fps_mode }
}

/// Crouching comes before sprinting and slows a player whatever else is pressed; sprinting alone
/// makes it run.
pub proof fn lemma_crouching_comes_before_sprinting(
    footing: Footing,
    input: ControlInput,
    plan: StepPlan,
)
    requires
        call_ensures(plan_step, (&footing, input), plan),
    ensures
        plan.top_speed is Crouched <==> input.crouch,
        plan.top_speed is Run <==> input.sprint && !input.crouch,
{
}

/// A limp player is not driven: no input moves it, makes it jump or changes its height. On the
/// ground a landing slows it; in the air nothing does, limp or not.
pub proof fn lemma_limp_players_are_not_driven(
    footing: Footing,
    input: ControlInput,
    other: ControlInput,
    plan: StepPlan,
    instead: StepPlan,
)
    requires
        call_ensures(plan_step, (&footing, input), plan),
        call_ensures(plan_step, (&footing, other), instead),
    ensures
        footing.ragdoll_state is Ragdolling <==> plan.drive is Nothing,
        footing.ragdoll_state is Ragdolling <==> plan.height is Stays,
        footing.ragdoll_state is Ragdolling ==> plan.drive == instead.drive && plan.height
            == instead.height,
        plan.friction == instead.friction,
        plan.friction is Some <==> footing.ground_tick > 0,
        plan.friction == Some(GroundFriction::Landing) <==> footing.ground_tick > 0
            && footing.ragdoll_state is Ragdolling,
{
}

/// A player jumps exactly if it is in control, stands on the ground and is asked to; in the air the
/// weaker acceleration drives it.
pub proof fn lemma_jumps_start_on_the_ground(footing: Footing, input: ControlInput, plan: StepPlan)
    requires
        call_ensures(plan_step, (&footing, input), plan),
    ensures
        plan.drive == (Drive::Ground { jump: true }) <==> footing.ragdoll_state is Active
            && footing.ground_tick > 0 && input.jump,
        plan.drive is Ground <==> footing.ragdoll_state is Active && footing.ground_tick > 0,
        plan.drive is Air <==> footing.ragdoll_state is Active && footing.ground_tick == 0,
        plan.height is Shrinks <==> footing.ragdoll_state is Active && input.crouch,
        plan.height is Grows <==> footing.ragdoll_state is Active && !input.crouch,
{
}

/// A step on the ground adds to the time on the ground and ends the time in the air; a step in the
/// air does the opposite. A player that gets up starts both times anew.
pub proof fn lemma_steps_add_up(
    footing: &mut Footing,
    ground_hit: bool,
    dt: u64,
    triggers: RagdollTriggers,
)
    requires
        call_ensures(Footing::slide, (footing, ground_hit, dt, triggers), ()),
        old(footing).airborne_time + dt <= u64::MAX,
        old(footing).grounded_time + dt <= u64::MAX,
    ensures
        ({
            let after = *final(footing);
            let got_up = old(footing).ragdoll_state is Ragdolling && after.ragdoll_state is Active;
            &&& ground_hit <==> after.ground_tick > 0
            &&& ground_hit && old(footing).ground_tick < 255 ==> after.ground_tick
                == old(footing).ground_tick + 1
            &&& ground_hit ==> after.airborne_time == 0
            &&& !ground_hit ==> after.grounded_time == 0
            &&& ground_hit && !got_up ==> after.grounded_time == old(footing).grounded_time + dt
            &&& !ground_hit && !got_up ==> after.airborne_time == old(footing).airborne_time + dt
            &&& got_up ==> after.airborne_time == 0 && after.grounded_time == 0
        }),
{
}

/// A player goes limp in a step exactly if ragdolls are on and the time in the air has reached the
/// threshold, and gets up exactly if they are on and the time on the ground has reached that of
/// recovery.
pub proof fn lemma_when_control_changes(
    footing: &mut Footing,
    ground_hit: bool,
    dt: u64,
    triggers: RagdollTriggers,
)
    requires
        call_ensures(Footing::slide, (footing, ground_hit, dt, triggers), ()),
        old(footing).airborne_time + dt <= u64::MAX,
        old(footing).grounded_time + dt <= u64::MAX,
        triggers.airborne_threshold > 0,
        triggers.ground_recovery > 0,
    ensures
        old(footing).ragdoll_state is Active ==> (final(footing).ragdoll_state is Ragdolling
            <==> triggers.enable_ragdoll && !ground_hit && old(footing).airborne_time + dt
            >= triggers.airborne_threshold),
        old(footing).ragdoll_state is Ragdolling ==> (final(footing).ragdoll_state is Active
            <==> triggers.enable_ragdoll && ground_hit && old(footing).grounded_time + dt
            >= triggers.ground_recovery),
{
}

/// Input counts only while it is enabled, presses add up, and a step uses them up.
pub proof fn lemma_presses_are_used_up(
    input: &mut ControlInput,
    pressed: ControlInput,
    stale: &mut ControlInput,
    fresh: &mut ControlInput,
)
    requires
        call_ensures(ControlInput::gather, (input, true, pressed), ()),
        call_ensures(ControlInput::clear_after, (stale, true), ()),
        call_ensures(ControlInput::clear_after, (fresh, false), ()),
    ensures
        final(input).sprint <==> old(input).sprint || pressed.sprint,
        final(input).jump <==> old(input).jump || pressed.jump,
        final(input).crouch <==> old(input).crouch || pressed.crouch,
        !final(stale).sprint && !final(stale).jump && !final(stale).crouch,
        *final(fresh) == *old(fresh),
{
}

/// While input is not enabled no press counts.
pub proof fn lemma_disabled_input_counts_nothing(input: &mut ControlInput, pressed: ControlInput)
    requires
        call_ensures(ControlInput::gather, (input, false, pressed), ()),
    ensures
        *final(input) == *old(input),
{
}

/// A launch takes a player off the ground and touches nothing else.
pub proof fn lemma_launches_leave_the_ground(footing: &mut Footing, grounded: bool)
    requires
        call_ensures(Footing::lift_off, (footing,), ()),
        call_ensures(Footing::is_grounded, (&*final(footing),), grounded),
    ensures
        !grounded,
        final(footing).ragdoll_state == old(footing).ragdoll_state,
        final(footing).airborne_time == old(footing).airborne_time,
        final(footing).grounded_time == old(footing).grounded_time,
{
}

/// Outside first person nothing of the controller runs; during a teleport only the origin follows
/// the camera.
pub proof fn lemma_the_controller_rests_in_flight(fps: bool, teleport: bool, runs: ControllerRuns)
    requires
        call_ensures(controller_runs, (fps, teleport), runs),
    ensures
        !fps ==> !runs.play && !runs.render && !runs.sync_origin,
        fps && teleport ==> !runs.play && !runs.render && runs.sync_origin,
        fps && !teleport ==> runs.play && runs.render && runs.sync_origin,
{
}

} // verus!
