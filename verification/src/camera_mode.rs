//! The camera mode state machine.
//!
//! The camera flies freely, sits in the first-person player, or follows an entity. All changes
//! go through queued requests. Entering the follow mode stores the mode before it, and leaving
//! it restores that mode.

use vstd::prelude::*;

verus! {

/// What drives the camera.
#[derive(Clone, Copy, Debug, PartialEq, Eq, Structural)]
pub enum CameraMode {
    /// Free flight.
    Flycam,
    /// First-person controller with physics.
    FpsController,
    /// The camera follows an entity.
    FollowEntity,
}

impl Default for CameraMode {
    fn default() -> (mode: Self)
        ensures
            mode == CameraMode::Flycam,
    {
        CameraMode::Flycam
    }
}

/// A queued request.
#[derive(Clone, Copy, Debug, PartialEq, Eq, Structural)]
pub enum CameraModeTransition {
    ToFlycam,
    ToFpsController,
    /// Follow the entity with this number.
    ToFollowEntity(u64),
    /// Back to where the current mode was entered from.
    ExitCurrentMode,
}

/// What a change of mode wants done to the scene, in order.
#[derive(Clone, Copy, Debug, PartialEq, Eq, Structural)]
pub enum CameraAction {
    /// Take down the first-person player.
    CleanUpFps,
    /// Remember the first-person player's state, then take the player down.
    PreserveAndCleanUpFps,
    /// Forget the remembered state of the first-person player.
    ForgetPreservedFps,
    /// Set up the first-person player where the free camera is.
    SetUpFpsFromFlycam,
    /// Set up the first-person player where the follow camera is, from the remembered state.
    SetUpFpsFromFollow,
    /// Aim the follow camera at the entity with this number.
    FollowTarget(u64),
    /// Take down the follow camera.
    CleanUpFollow,
}

/// A mode and the mode to go back to, if the camera follows an entity.
pub type Modes = (CameraMode, Option<CameraMode>);

/// Whether the mode to go back to is stored exactly while following, and is not following.
pub open spec fn modes_fit(m: Modes) -> bool {
    &&& m.1 is Some <==> m.0 == CameraMode::FollowEntity
    &&& m.1 != Some(CameraMode::FollowEntity)
}

/// The modes after a request.
pub open spec fn next_modes(m: Modes, request: CameraModeTransition) -> Modes {
    match request {
        CameraModeTransition::ToFlycam => (CameraMode::Flycam, None),
        CameraModeTransition::ToFpsController => (CameraMode::FpsController, None),
        CameraModeTransition::ToFollowEntity(_) => if m.0 == CameraMode::FollowEntity {
            m
        } else {
            (CameraMode::FollowEntity, Some(m.0))
        },
        CameraModeTransition::ExitCurrentMode => match m.1 {
            Some(back) => (back, None),
            None => (CameraMode::Flycam, None),
        },
    }
}

/// What going to free flight wants done.
pub open spec fn flycam_actions(m: Modes) -> Seq<CameraAction> {
    match m.0 {
        CameraMode::Flycam => seq![],
        CameraMode::FpsController => seq![CameraAction::CleanUpFps],
        CameraMode::FollowEntity => seq![
            CameraAction::CleanUpFollow,
            CameraAction::ForgetPreservedFps,
        ],
    }
}

/// What going to the first-person controller wants done.
pub open spec fn fps_actions(m: Modes) -> Seq<CameraAction> {
    match m.0 {
        CameraMode::Flycam => seq![CameraAction::SetUpFpsFromFlycam],
        CameraMode::FpsController => seq![],
        CameraMode::FollowEntity => seq![
            CameraAction::CleanUpFollow,
            CameraAction::SetUpFpsFromFollow,
        ],
    }
}

/// What a request wants done.
pub open spec fn request_actions(m: Modes, request: CameraModeTransition) -> Seq<CameraAction> {
    match request {
        CameraModeTransition::ToFlycam => flycam_actions(m),
        CameraModeTransition::ToFpsController => fps_actions(m),
        CameraModeTransition::ToFollowEntity(target) => if m.0 == CameraMode::FpsController {
            seq![CameraAction::PreserveAndCleanUpFps, CameraAction::FollowTarget(target)]
        } else {
            seq![CameraAction::FollowTarget(target)]
        },
        CameraModeTransition::ExitCurrentMode => if m.1 == Some(CameraMode::FpsController) {
            fps_actions(m)
        } else {
            flycam_actions(m)
        },
    }
}

/// The modes after a run of requests.
pub open spec fn modes_after(m: Modes, requests: Seq<CameraModeTransition>) -> Modes
    decreases requests.len(),
{
    if requests.len() == 0 {
        m
    } else {
        next_modes(modes_after(m, requests.drop_last()), requests.last())
    }
}

/// What a run of requests wants done.
pub open spec fn actions_for(m: Modes, requests: Seq<CameraModeTransition>) -> Seq<CameraAction>
    decreases requests.len(),
{
    if requests.len() == 0 {
        seq![]
    } else {
        actions_for(m, requests.drop_last()) + request_actions(
            modes_after(m, requests.drop_last()),
            requests.last(),
        )
    }
}

/// The current mode and, while following, the mode to go back to.
pub struct CameraModeState {
    current: CameraMode,
    return_mode: Option<CameraMode>,
}

impl View for CameraModeState {
    type V = Modes;

    closed spec fn view(&self) -> Modes {
        (self.current, self.return_mode)
    }
}

impl Default for CameraModeState {
    fn default() -> (state: Self)
        ensures
            state@ == (CameraMode::Flycam, None::<CameraMode>),
    {
        CameraModeState { current: CameraMode::Flycam, return_mode: None }
    }
}

impl CameraModeState {
    #[verifier::type_invariant]
    spec fn fits(self) -> bool {
        modes_fit((self.current, self.return_mode))
    }

    /// The current mode.
    pub fn current(&self) -> (mode: CameraMode)
        ensures
            mode == self@.0,
            modes_fit(self@),
    {
        proof {
            use_type_invariant(self);
        }
        self.current
    }

    /// The mode that leaving the follow mode restores.
    pub fn return_mode(&self) -> (mode: Option<CameraMode>)
        ensures
            mode == self@.1,
            modes_fit(self@),
    {
        proof {
            use_type_invariant(self);
        }
        self.return_mode
    }

    /// Whether the camera flies freely.
    pub fn is_flycam(&self) -> (yes: bool)
        ensures
            yes == (self@.0 == CameraMode::Flycam),
    {
        self.current == CameraMode::Flycam
    }

    /// Whether the camera sits in the first-person player.
    pub fn is_fps_controller(&self) -> (yes: bool)
        ensures
            yes == (self@.0 == CameraMode::FpsController),
    {
        self.current == CameraMode::FpsController
    }

    /// Whether the camera follows an entity.
    pub fn is_follow_entity(&self) -> (yes: bool)
        ensures
            yes == (self@.0 == CameraMode::FollowEntity),
    {
        self.current == CameraMode::FollowEntity
    }

    /// Goes to free flight.
    fn transition_to_flycam(&mut self, actions: &mut Vec<CameraAction>)
        ensures
            final(self)@ == next_modes(old(self)@, CameraModeTransition::ToFlycam),
            final(actions)@ == old(actions)@ + flycam_actions(old(self)@),
    {
        proof {
            use_type_invariant(&*self);
        }
        match self.current {
            CameraMode::Flycam => {},
            CameraMode::FpsController => {
                actions.push(CameraAction::CleanUpFps);
            },
            CameraMode::FollowEntity => {
                actions.push(CameraAction::CleanUpFollow);
                actions.push(CameraAction::ForgetPreservedFps);
            },
        }
        assert(actions@ =~= old(actions)@ + flycam_actions(old(self)@));
        *self = CameraModeState { current: CameraMode::Flycam, return_mode: None };
    }

    /// Goes to the first-person controller.
    fn transition_to_fps_controller(&mut self, actions: &mut Vec<CameraAction>)
        ensures
            final(self)@ == next_modes(old(self)@, CameraModeTransition::ToFpsController),
            final(actions)@ == old(actions)@ + fps_actions(old(self)@),
    {
        proof {
            use_type_invariant(&*self);
        }
        match self.current {
            CameraMode::Flycam => {
                actions.push(CameraAction::SetUpFpsFromFlycam);
            },
            CameraMode::FpsController => {},
            CameraMode::FollowEntity => {
                actions.push(CameraAction::CleanUpFollow);
                actions.push(CameraAction::SetUpFpsFromFollow);
            },
        }
        assert(actions@ =~= old(actions)@ + fps_actions(old(self)@));
        *self = CameraModeState { current: CameraMode::FpsController, return_mode: None };
    }

    /// Follows an entity; if the camera follows one already, only the target changes.
    fn transition_to_follow_entity(&mut self, target: u64, actions: &mut Vec<CameraAction>)
        ensures
            final(self)@ == next_modes(old(self)@, CameraModeTransition::ToFollowEntity(target)),
            final(actions)@ == old(actions)@ + request_actions(
                old(self)@,
                CameraModeTransition::ToFollowEntity(target),
            ),
    {
        proof {
            use_type_invariant(&*self);
        }
        if self.current == CameraMode::FpsController {
            actions.push(CameraAction::PreserveAndCleanUpFps);
        }
        actions.push(CameraAction::FollowTarget(target));
        assert(actions@ =~= old(actions)@ + request_actions(
            old(self)@,
            CameraModeTransition::ToFollowEntity(target),
        ));
        if self.current != CameraMode::FollowEntity {
            let back = self.current;
            *self = CameraModeState { current: CameraMode::FollowEntity, return_mode: Some(back) };
        }
    }

    /// Leaves the current mode for the one it was entered from.
    fn exit_current_mode(&mut self, actions: &mut Vec<CameraAction>)
        ensures
            final(self)@ == next_modes(old(self)@, CameraModeTransition::ExitCurrentMode),
            final(actions)@ == old(actions)@ + request_actions(
                old(self)@,
                CameraModeTransition::ExitCurrentMode,
            ),
    {
        proof {
            use_type_invariant(&*self);
        }
        match self.return_mode {
            Some(CameraMode::FpsController) => {
                self.transition_to_fps_controller(actions);
            },
            _ => {
                self.transition_to_flycam(actions);
            },
        }
    }
}

/// Queued requests.
pub struct CameraModeTransitions {
    pending: Vec<CameraModeTransition>,
}

impl View for CameraModeTransitions {
    type V = Seq<CameraModeTransition>;

    closed spec fn view(&self) -> Seq<CameraModeTransition> {
        self.pending@
    }
}

impl CameraModeTransitions {
    /// No requests.
    pub fn new() -> (transitions: Self)
        ensures
            transitions@ == Seq::<CameraModeTransition>::empty(),
    {
        CameraModeTransitions { pending: Vec::new() }
    }

    /// Asks for free flight.
    pub fn request_flycam(&mut self)
        ensures
            final(self)@ == old(self)@.push(CameraModeTransition::ToFlycam),
    {
        self.pending.push(CameraModeTransition::ToFlycam);
    }

    /// Asks for the first-person controller.
    pub fn request_fps_controller(&mut self)
        ensures
            final(self)@ == old(self)@.push(CameraModeTransition::ToFpsController),
    {
        self.pending.push(CameraModeTransition::ToFpsController);
    }

    /// Asks to follow an entity.
    pub fn request_follow_entity(&mut self, target: u64)
        ensures
            final(self)@ == old(self)@.push(CameraModeTransition::ToFollowEntity(target)),
    {
        self.pending.push(CameraModeTransition::ToFollowEntity(target));
    }

    /// Asks to leave the current mode.
    pub fn request_exit(&mut self)
        ensures
            final(self)@ == old(self)@.push(CameraModeTransition::ExitCurrentMode),
    {
        self.pending.push(CameraModeTransition::ExitCurrentMode);
    }

    /// Takes all requests out of the queue.
    fn take(&mut self) -> (requests: Vec<CameraModeTransition>)
        ensures
            requests@ == old(self)@,
            final(self)@ == Seq::<CameraModeTransition>::empty(),
    {
        let mut requests: Vec<CameraModeTransition> = Vec::new();
        std::mem::swap(&mut requests, &mut self.pending);
        requests
    }
}

/// Carries out all queued requests in order, and says what they want done.
pub fn process_mode_transitions(
    transitions: &mut CameraModeTransitions,
    state: &mut CameraModeState,
) -> (actions: Vec<CameraAction>)
    ensures
        final(transitions)@ == Seq::<CameraModeTransition>::empty(),
        final(state)@ == modes_after(old(state)@, old(transitions)@),
        actions@ == actions_for(old(state)@, old(transitions)@),
{
    let requests = transitions.take();
    let ghost m = state@;
    let mut actions: Vec<CameraAction> = Vec::new();
    let mut i: usize = 0;
    assert(actions@ =~= actions_for(m, requests@.take(0)));
    while i < requests.len()
        invariant
            i <= requests@.len(),
            state@ == modes_after(m, requests@.take(i as int)),
            actions@ == actions_for(m, requests@.take(i as int)),
        decreases requests@.len() - i,
    {
        assert(requests@.take(i + 1).drop_last() =~= requests@.take(i as int));
        match requests[i] {
            CameraModeTransition::ToFlycam => {
                state.transition_to_flycam(&mut actions);
            },
            CameraModeTransition::ToFpsController => {
                state.transition_to_fps_controller(&mut actions);
            },
            CameraModeTransition::ToFollowEntity(target) => {
                state.transition_to_follow_entity(target, &mut actions);
            },
            CameraModeTransition::ExitCurrentMode => {
                state.exit_current_mode(&mut actions);
            },
        }
        i = i + 1;
    }
    assert(requests@.take(requests@.len() as int) =~= requests@);
    actions
}

/// What the free camera may do.
#[derive(Clone, Copy, Debug, PartialEq, Eq, Structural)]
pub struct FreelookControl {
    /// The free camera takes input.
    pub input_active: bool,
    /// The free camera owns the view.
    pub view_active: bool,
}

/// Tells the free camera what it may do: it takes input in free flight, unless a teleport moves
/// it, and owns the view outside first person.
pub fn sync_freelook_control(mode: &CameraModeState, teleporting: bool) -> (control:
    FreelookControl)
    ensures
        control.input_active == (mode@.0 == CameraMode::Flycam && !teleporting),
        control.view_active == (mode@.0 != CameraMode::FpsController),
{
    FreelookControl {
        input_active: mode.is_flycam() && !teleporting,
        view_active: !mode.is_fps_controller(),
    }
}

/// Every request keeps the stored mode in step: it is there exactly while following.
pub proof fn lemma_modes_stay_fit(m: Modes, requests: Seq<CameraModeTransition>)
    requires
        modes_fit(m),
    ensures
        modes_fit(modes_after(m, requests)),
    decreases requests.len(),
{
    if requests.len() > 0 {
        lemma_modes_stay_fit(m, requests.drop_last());
    }
}

/// Following an entity, however often the target changes, and then leaving restores the mode.
pub proof fn lemma_exit_restores_mode(m: Modes, targets: Seq<u64>)
    requires
        modes_fit(m),
        m.0 != CameraMode::FollowEntity,
        targets.len() > 0,
    ensures
        ({
            let follows = targets.map_values(|t: u64| CameraModeTransition::ToFollowEntity(t));
            &&& modes_after(m, follows) == (CameraMode::FollowEntity, Some(m.0))
            &&& modes_after(m, follows.push(CameraModeTransition::ExitCurrentMode)) == m
        }),
    decreases targets.len(),
{
    let follows = targets.map_values(|t: u64| CameraModeTransition::ToFollowEntity(t));
    assert(follows.push(CameraModeTransition::ExitCurrentMode).drop_last() =~= follows);
    assert(follows.last() == CameraModeTransition::ToFollowEntity(targets.last()));
    if targets.len() == 1 {
        assert(modes_after(m, follows.drop_last()) == m);
    } else {
        lemma_exit_restores_mode(m, targets.drop_last());
        assert(follows.drop_last() =~= targets.drop_last().map_values(
            |t: u64| CameraModeTransition::ToFollowEntity(t),
        ));
    }
    assert(modes_after(m, follows) == (CameraMode::FollowEntity, Some(m.0)));
}

/// The first-person player that is put away to follow an entity is the one set up again on exit.
pub proof fn lemma_preserved_player_comes_back(target: u64)
    ensures
        ({
            let m: Modes = (CameraMode::FpsController, None);
            let trip = seq![
                CameraModeTransition::ToFollowEntity(target),
                CameraModeTransition::ExitCurrentMode,
            ];
            &&& modes_after(m, trip) == m
            &&& actions_for(m, trip) == seq![
                CameraAction::PreserveAndCleanUpFps,
                CameraAction::FollowTarget(target),
                CameraAction::CleanUpFollow,
                CameraAction::SetUpFpsFromFollow,
            ]
        }),
{
    let m: Modes = (CameraMode::FpsController, None);
    let trip = seq![
        CameraModeTransition::ToFollowEntity(target),
        CameraModeTransition::ExitCurrentMode,
    ];
    let first = trip.drop_last();
    assert(first =~= seq![CameraModeTransition::ToFollowEntity(target)]);
    assert(first.drop_last() =~= seq![]);
    assert(modes_after(m, first.drop_last()) == m);
    assert(actions_for(m, first.drop_last()) =~= seq![]);
    assert(modes_after(m, first) == (
        CameraMode::FollowEntity,
        Some(CameraMode::FpsController),
    ));
    assert(actions_for(m, first) =~= seq![
        CameraAction::PreserveAndCleanUpFps,
        CameraAction::FollowTarget(target),
    ]);
    assert(actions_for(m, trip) =~= seq![
        CameraAction::PreserveAndCleanUpFps,
        CameraAction::FollowTarget(target),
        CameraAction::CleanUpFollow,
        CameraAction::SetUpFpsFromFollow,
    ]);
}

/// Asking for the mode that is on changes nothing and wants nothing done; so does leaving free
/// flight.
pub proof fn lemma_idle_requests(m: Modes)
    requires
        modes_fit(m),
    ensures
        m.0 == CameraMode::Flycam ==> next_modes(m, CameraModeTransition::ToFlycam) == m
            && request_actions(m, CameraModeTransition::ToFlycam).len() == 0,
        m.0 == CameraMode::FpsController ==> next_modes(m, CameraModeTransition::ToFpsController)
            == m && request_actions(m, CameraModeTransition::ToFpsController).len() == 0,
        m.0 == CameraMode::Flycam ==> next_modes(m, CameraModeTransition::ExitCurrentMode) == m
            && request_actions(m, CameraModeTransition::ExitCurrentMode).len() == 0,
{
}

/// What the camera modes have set up in a scene.
pub struct CameraScene {
    /// There is a first-person player.
    pub player: bool,
    /// There is a follow camera; it aims at the entity with this number.
    pub follow: Option<u64>,
    /// The state of a first-person player is remembered.
    pub preserved: bool,
}

/// Whether a scene fits a mode: the player is there in first person, the follow camera while
/// following, and the state of the player is remembered while following out of first person.
pub open spec fn scene_fits(scene: CameraScene, m: Modes) -> bool {
    &&& scene.player <==> m.0 == CameraMode::FpsController
    &&& scene.follow is Some <==> m.0 == CameraMode::FollowEntity
    &&& scene.preserved <==> m.1 == Some(CameraMode::FpsController)
}

/// The scene after something was done to it.
pub open spec fn done(scene: CameraScene, action: CameraAction) -> CameraScene {
    match action {
        CameraAction::CleanUpFps => CameraScene { player: false, ..scene },
        CameraAction::PreserveAndCleanUpFps => CameraScene {
            player: false,
            preserved: true,
            ..scene
        },
        CameraAction::ForgetPreservedFps => CameraScene { preserved: false, ..scene },
        CameraAction::SetUpFpsFromFlycam => CameraScene { player: true, ..scene },
        CameraAction::SetUpFpsFromFollow => CameraScene {
            player: true,
            preserved: false,
            ..scene
        },
        CameraAction::FollowTarget(target) => CameraScene { follow: Some(target), ..scene },
        CameraAction::CleanUpFollow => CameraScene { follow: None, ..scene },
    }
}

/// The scene after several things were done to it, one after the other.
pub open spec fn all_done(scene: CameraScene, actions: Seq<CameraAction>) -> CameraScene
    decreases actions.len(),
{
    if actions.len() == 0 {
        scene
    } else {
        done(all_done(scene, actions.drop_last()), actions.last())
    }
}

proof fn lemma_all_done_joins(scene: CameraScene, a: Seq<CameraAction>, b: Seq<CameraAction>)
    ensures
        all_done(scene, a + b) == all_done(all_done(scene, a), b),
    decreases b.len(),
{
    if b.len() == 0 {
        assert(a + b =~= a);
    } else {
        assert((a + b).drop_last() =~= a + b.drop_last());
        lemma_all_done_joins(scene, a, b.drop_last());
    }
}

proof fn lemma_one_request_fits(scene: CameraScene, m: Modes, request: CameraModeTransition)
    requires
        modes_fit(m),
        scene_fits(scene, m),
    ensures
        modes_fit(next_modes(m, request)),
        scene_fits(all_done(scene, request_actions(m, request)), next_modes(m, request)),
        request matches CameraModeTransition::ToFollowEntity(target) ==> all_done(
            scene,
            request_actions(m, request),
        ).follow == Some(target),
{
    reveal_with_fuel(all_done, 3);
    let actions = request_actions(m, request);
    if actions.len() == 2 {
        let first = actions.drop_last();
        assert(first.len() == 1);
        assert(first.last() == actions[0]);
        assert(first.drop_last() =~= seq![]);
    } else if actions.len() == 1 {
        assert(actions.drop_last() =~= seq![]);
    }
}

proof fn lemma_requests_fit(scene: CameraScene, m: Modes, requests: Seq<CameraModeTransition>)
    requires
        modes_fit(m),
        scene_fits(scene, m),
    ensures
        modes_fit(modes_after(m, requests)),
        scene_fits(all_done(scene, actions_for(m, requests)), modes_after(m, requests)),
        requests.len() > 0 ==> (requests.last() matches CameraModeTransition::ToFollowEntity(target)
            ==> all_done(scene, actions_for(m, requests)).follow == Some(target)),
    decreases requests.len(),
{
    if requests.len() > 0 {
        let rest = requests.drop_last();
        let before = modes_after(m, rest);
        let sofar = actions_for(m, rest);
        let more = request_actions(before, requests.last());
        lemma_requests_fit(scene, m, rest);
        lemma_one_request_fits(all_done(scene, sofar), before, requests.last());
        lemma_all_done_joins(scene, sofar, more);
    } else {
        assert(actions_for(m, requests) =~= seq![]);
    }
}

/// Whatever is asked for, once it is carried out the scene fits the mode that is on: nothing is left
/// behind, nothing is missing, and a player put away is remembered for as long as it can come back.
pub proof fn lemma_scenes_fit_their_mode(
    transitions: &mut CameraModeTransitions,
    state: &mut CameraModeState,
    actions: Vec<CameraAction>,
    scene: CameraScene,
)
    requires
        call_ensures(process_mode_transitions, (transitions, state), actions),
        modes_fit(old(state)@),
        scene_fits(scene, old(state)@),
    ensures
        scene_fits(all_done(scene, actions@), final(state)@),
        modes_fit(final(state)@),
        final(transitions)@.len() == 0,
{
    lemma_requests_fit(scene, old(state)@, old(transitions)@);
}

/// A request decides which mode is on. A camera that follows keeps in mind the mode that it followed
/// out of, also when its target changes, and goes back there.
pub proof fn lemma_requests_are_granted(
    transitions: &mut CameraModeTransitions,
    state: &mut CameraModeState,
    actions: Vec<CameraAction>,
    scene: CameraScene,
    request: CameraModeTransition,
)
    requires
        call_ensures(process_mode_transitions, (transitions, state), actions),
        modes_fit(old(state)@),
        scene_fits(scene, old(state)@),
        old(transitions)@ == seq![request],
    ensures
        ({
            let before = old(state)@;
            let after = final(state)@;
            &&& request is ToFlycam ==> after.0 == CameraMode::Flycam
            &&& request is ToFpsController ==> after.0 == CameraMode::FpsController
            &&& request matches CameraModeTransition::ToFollowEntity(target) ==> {
                &&& after.0 == CameraMode::FollowEntity
                &&& all_done(scene, actions@).follow == Some(target)
                &&& before.0 != CameraMode::FollowEntity ==> after.1 == Some(before.0)
                &&& before.0 == CameraMode::FollowEntity ==> after.1 == before.1
            }
            &&& request is ExitCurrentMode && before.0 == CameraMode::FollowEntity ==> after.0
                == before.1->0
            &&& request is ExitCurrentMode && before.0 != CameraMode::FollowEntity ==> after.0
                == CameraMode::Flycam
        }),
{
    let requests = old(transitions)@;
    assert(requests.drop_last() =~= seq![]);
    assert(modes_after(old(state)@, requests.drop_last()) == old(state)@);
    lemma_requests_fit(scene, old(state)@, requests);
}

/// Requests are carried out one after the other: all at once or some first and the rest later, the
/// same mode is on.
pub proof fn lemma_requests_can_be_split(
    m: Modes,
    first: Seq<CameraModeTransition>,
    rest: Seq<CameraModeTransition>,
)
    ensures
        modes_after(m, first + rest) == modes_after(modes_after(m, first), rest),
        actions_for(m, first + rest) == actions_for(m, first) + actions_for(
            modes_after(m, first),
            rest,
        ),
    decreases rest.len(),
{
    let all = first + rest;
    if rest.len() == 0 {
        assert(all =~= first);
        assert(actions_for(m, first) + actions_for(modes_after(m, first), rest) =~= actions_for(
            m,
            first,
        ));
    } else {
        assert(all.drop_last() =~= first + rest.drop_last());
        lemma_requests_can_be_split(m, first, rest.drop_last());
        assert(actions_for(m, all) =~= actions_for(m, first) + actions_for(
            modes_after(m, first),
            rest,
        ));
    }
}

/// The free camera takes input only in free flight and never during a teleport, and it leaves the
/// view to the player only in first person.
pub proof fn lemma_free_camera_knows_its_place(
    mode: CameraModeState,
    teleporting: bool,
    control: FreelookControl,
)
    requires
        call_ensures(sync_freelook_control, (&mode, teleporting), control),
    ensures
        teleporting ==> !control.input_active,
        !teleporting ==> (control.input_active <==> mode@.0 == CameraMode::Flycam),
        control.view_active <==> mode@.0 != CameraMode::FpsController,
{
}

/// Whatever has been asked for before, the mode that is asked for last is on once the requests are
/// carried out: free flight, the player, or following.
pub proof fn lemma_the_last_request_counts(
    queue: &mut CameraModeTransitions,
    target: u64,
    filled: &mut CameraModeTransitions,
    state: &mut CameraModeState,
    actions: Vec<CameraAction>,
    flies: bool,
    walks: bool,
    follows: bool,
)
    requires
        old(filled)@ == final(queue)@,
        call_ensures(process_mode_transitions, (filled, state), actions),
        call_ensures(CameraModeState::is_flycam, (&*final(state),), flies),
        call_ensures(CameraModeState::is_fps_controller, (&*final(state),), walks),
        call_ensures(CameraModeState::is_follow_entity, (&*final(state),), follows),
    ensures
        call_ensures(CameraModeTransitions::request_flycam, (queue,), ()) ==> flies && !walks
            && !follows,
        call_ensures(CameraModeTransitions::request_fps_controller, (queue,), ()) ==> walks && !flies
            && !follows,
        call_ensures(CameraModeTransitions::request_follow_entity, (queue, target), ()) ==> follows
            && !flies && !walks,
        call_ensures(CameraModeTransitions::request_exit, (queue,), ()) && modes_fit(old(state)@)
            ==> !follows,
{
    let requests = old(filled)@;
    if requests.len() > 0 {
        let before = modes_after(old(state)@, requests.drop_last());
        assert(final(state)@ == next_modes(before, requests.last()));
        if modes_fit(old(state)@) {
            lemma_modes_stay_fit(old(state)@, requests.drop_last());
        }
    }
}

} // verus!
