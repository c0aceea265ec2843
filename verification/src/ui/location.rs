//! The panel for place and time: search, coordinates and altitude.
//!
//! Times are in nanoseconds, lengths in billionths of a metre and angles in billionths of a
//! degree. `C` stands for a coordinate.

use vstd::prelude::*;
use vstd::string::*;
use crate::blend::{clamp, clamped};
use crate::decimal::{decimal, fixed, push_decimal, push_fixed, Vector};
use crate::places::{GeocodingState, GEOCODING_THROTTLE_NS};
use crate::teleport::{requested, TeleportAnimation, TeleportState};
use crate::ui::compass::Cardinal;

verus! {

/// A second.
pub const SECOND_NS: u64 = 1_000_000_000;

/// What the panel says about the place search.
#[derive(Clone, Copy, Debug, PartialEq, Eq, Structural)]
pub enum SearchStatus {
    /// A request is under way.
    Searching,
    /// The next request has to wait this many seconds.
    Wait(u64),
    /// There is nothing to say.
    Ready,
}

/// The whole seconds until the next request, rounded up.
pub open spec fn seconds_left(last: u64, now: u64) -> int {
    (GEOCODING_THROTTLE_NS - (now - last) + SECOND_NS - 1) / (SECOND_NS as int)
}

/// What the panel says about the place search at time `now`.
pub fn search_status<C>(search: &GeocodingState<C>, now: u64) -> (status: SearchStatus)
    ensures
        status == if search.is_loading {
            SearchStatus::Searching
        } else {
            match search.last_request_time {
                Some(last) => if now - last < GEOCODING_THROTTLE_NS {
                    SearchStatus::Wait(seconds_left(last, now) as u64)
                } else {
                    SearchStatus::Ready
                },
                None => SearchStatus::Ready,
            }
        },
        status matches SearchStatus::Wait(s) ==> 1 <= s && s == seconds_left(
            search.last_request_time->0,
            now,
        ),
{
    if search.is_loading {
        return SearchStatus::Searching;
    }
    match search.last_request_time {
        Some(last) => {
            let elapsed: i128 = now as i128 - last as i128;
            if elapsed < GEOCODING_THROTTLE_NS as i128 {
                let left: u128 = (GEOCODING_THROTTLE_NS as i128 - elapsed) as u128;
                let seconds: u128 = (left + SECOND_NS as u128 - 1) / SECOND_NS as u128;
                SearchStatus::Wait(seconds as u64)
            } else {
                SearchStatus::Ready
            }
        },
        None => SearchStatus::Ready,
    }
}

impl SearchStatus {
    /// The line of the panel.
    pub open spec fn line(self) -> Option<Seq<char>> {
        match self {
            SearchStatus::Searching => Some("Searching..."@),
            SearchStatus::Wait(s) => Some(
                "Wait "@ + decimal(s as nat) + "s before next search"@,
            ),
            SearchStatus::Ready => None,
        }
    }

    /// The line of the panel, if there is one.
    pub fn label(self) -> (line: Option<String>)
        ensures
            match line {
                Some(l) => self.line() == Some(l@),
                None => self.line() is None,
            },
    {
        match self {
            SearchStatus::Searching => Some("Searching...".to_owned()),
            SearchStatus::Wait(s) => {
                let mut line = "Wait ".to_owned();
                push_decimal(&mut line, s);
                line.append("s before next search");
                Some(line)
            },
            SearchStatus::Ready => None,
        }
    }
}

/// What the panel says about a teleport.
pub enum TeleportStatus {
    WaitingForTerrain,
    /// In flight, with the time flown and the time it takes.
    Flying(u64, u64),
    FetchingElevation,
    Failed(String),
    Quiet,
}

/// What the panel says about a teleport: the wait for terrain comes first, then the flight, then
/// the look-up of the elevation, then what went wrong.
pub fn teleport_status<C, P, H: Copy>(
    animation: &TeleportAnimation<P, H>,
    teleport: &TeleportState<C>,
) -> (status: TeleportStatus)
    ensures
        match animation.phase {
            Some(phase) => if phase.state is Flying {
                if phase.elapsed < phase.duration {
                    status == TeleportStatus::Flying(phase.elapsed, phase.duration)
                } else {
                    status == TeleportStatus::Flying(1, 1)
                }
            } else {
                status is WaitingForTerrain
            },
            None => if teleport.pending is Some {
                status is FetchingElevation
            } else {
                match teleport.error {
                    Some(e) => status is Failed && status->Failed_0@ == e@,
                    None => status is Quiet,
                }
            },
        },
{
    if animation.is_waiting_for_physics() {
        return TeleportStatus::WaitingForTerrain;
    }
    if let Some((flown, whole)) = animation.progress() {
        return TeleportStatus::Flying(flown, whole);
    }
    if teleport.pending.is_some() {
        return TeleportStatus::FetchingElevation;
    }
    match &teleport.error {
        Some(e) => TeleportStatus::Failed(e.clone()),
        None => TeleportStatus::Quiet,
    }
}

impl TeleportStatus {
    /// The line of the panel.
    pub open spec fn line(self) -> Option<Seq<char>> {
        match self {
            TeleportStatus::WaitingForTerrain => Some("Waiting for terrain to load..."@),
            TeleportStatus::Flying(_, _) => Some("Flying..."@),
            TeleportStatus::FetchingElevation => Some("Fetching elevation..."@),
            TeleportStatus::Failed(e) => Some("Teleport failed: "@ + e@),
            TeleportStatus::Quiet => None,
        }
    }

    /// The line of the panel, if there is one.
    pub fn label(&self) -> (line: Option<String>)
        ensures
            match line {
                Some(l) => self.line() == Some(l@),
                None => self.line() is None,
            },
    {
        match self {
            TeleportStatus::WaitingForTerrain => Some("Waiting for terrain to load...".to_owned()),
            TeleportStatus::Flying(_, _) => Some("Flying...".to_owned()),
            TeleportStatus::FetchingElevation => Some("Fetching elevation...".to_owned()),
            TeleportStatus::Failed(e) => {
                let mut line = "Teleport failed: ".to_owned();
                line.append(e.as_str());
                Some(line)
            },
            TeleportStatus::Quiet => None,
        }
    }
}

/// The latitude of the north pole.
pub const POLE: i64 = 90_000_000_000;

/// The distances of a precise move.
#[derive(Clone, Copy, Debug, PartialEq, Eq, Structural)]
pub enum MoveDistance {
    HundredMetres,
    Kilometre,
    TenKilometres,
    FiftyKilometres,
    HundredKilometres,
}

impl MoveDistance {
    /// The distance in metres.
    pub open spec fn length(self) -> u32 {
        match self {
            MoveDistance::HundredMetres => 100,
            MoveDistance::Kilometre => 1000,
            MoveDistance::TenKilometres => 10_000,
            MoveDistance::FiftyKilometres => 50_000,
            MoveDistance::HundredKilometres => 100_000,
        }
    }

    /// The distance in metres.
    pub fn metres(self) -> (metres: u32)
        ensures
            metres == self.length(),
    {
        match self {
            MoveDistance::HundredMetres => 100,
            MoveDistance::Kilometre => 1000,
            MoveDistance::TenKilometres => 10_000,
            MoveDistance::FiftyKilometres => 50_000,
            MoveDistance::HundredKilometres => 100_000,
        }
    }

    /// The caption of the distance.
    pub fn label(self) -> (caption: &'static str)
        ensures
            caption@ == match self {
                MoveDistance::HundredMetres => "100 m"@,
                MoveDistance::Kilometre => "1 km"@,
                MoveDistance::TenKilometres => "10 km"@,
                MoveDistance::FiftyKilometres => "50 km"@,
                MoveDistance::HundredKilometres => "100 km"@,
            },
    {
        match self {
            MoveDistance::HundredMetres => "100 m",
            MoveDistance::Kilometre => "1 km",
            MoveDistance::TenKilometres => "10 km",
            MoveDistance::FiftyKilometres => "50 km",
            MoveDistance::HundredKilometres => "100 km",
        }
    }

    /// The distances in the order of the panel.
    pub fn all() -> (distances: Vec<MoveDistance>)
        ensures
            distances@ == seq![
                MoveDistance::HundredMetres,
                MoveDistance::Kilometre,
                MoveDistance::TenKilometres,
                MoveDistance::FiftyKilometres,
                MoveDistance::HundredKilometres,
            ],
    {
        vec![
            MoveDistance::HundredMetres,
            MoveDistance::Kilometre,
            MoveDistance::TenKilometres,
            MoveDistance::FiftyKilometres,
            MoveDistance::HundredKilometres,
        ]
    }
}

/// The fields for latitude and longitude.
pub struct CoordinateInputState {
    pub lat_text: String,
    pub lon_text: String,
    /// The user is at one of the fields.
    pub is_editing: bool,
    /// The distance of a precise move, in metres.
    pub translate_distance: u32,
}

impl CoordinateInputState {
    /// Empty fields and moves of a kilometre.
    pub fn new() -> (state: Self)
        ensures
            state.lat_text@ == Seq::<char>::empty(),
            state.lon_text@ == Seq::<char>::empty(),
            !state.is_editing,
            state.translate_distance == 1000,
    {
        CoordinateInputState {
            lat_text: String::new(),
            lon_text: String::new(),
            is_editing: false,
            translate_distance: 1000,
        }
    }

    /// Shows the position of the camera, unless the user is at a field or a teleport waits.
    pub fn show_position(&mut self, lat: &str, lon: &str, teleport_pending: bool)
        ensures
            final(self).is_editing == old(self).is_editing,
            final(self).translate_distance == old(self).translate_distance,
            final(self).lat_text@ == if old(self).is_editing || teleport_pending {
                old(self).lat_text@
            } else {
                lat@
            },
            final(self).lon_text@ == if old(self).is_editing || teleport_pending {
                old(self).lon_text@
            } else {
                lon@
            },
    {
        if !self.is_editing && !teleport_pending {
            self.lat_text = lat.to_owned();
            self.lon_text = lon.to_owned();
        }
    }

    /// The user enters a field.
    pub fn focus(&mut self)
        ensures
            *final(self) == (CoordinateInputState { is_editing: true, ..*old(self) }),
    {
        self.is_editing = true;
    }

    /// The user leaves a field by the enter key: hands back the destination if both fields hold
    /// numbers. The latitude is held between the poles.
    pub fn submit(&mut self, lat: Option<i64>, lon: Option<i64>) -> (destination: Option<
        (i64, i64),
    >)
        ensures
            *final(self) == (CoordinateInputState { is_editing: false, ..*old(self) }),
            destination == match (lat, lon) {
                (Some(a), Some(b)) => Some((clamped(a as int, -POLE, POLE as int) as i64, b)),
                _ => None,
            },
    {
        self.is_editing = false;
        match (lat, lon) {
            (Some(a), Some(b)) => Some((clamp(a, -POLE, POLE), b)),
            _ => None,
        }
    }

    /// Chooses the distance of a precise move.
    pub fn choose_distance(&mut self, distance: MoveDistance)
        ensures
            *final(self) == (CoordinateInputState {
                translate_distance: distance.length(),
                ..*old(self)
            }),
    {
        self.translate_distance = distance.metres();
    }

    /// Whether a distance is the one chosen.
    pub fn is_chosen(&self, distance: MoveDistance) -> (chosen: bool)
        ensures
            chosen == (self.translate_distance == distance.length()),
    {
        self.translate_distance == distance.metres()
    }

    /// What stands before the buttons of a precise move.
    pub fn move_label(&self) -> (line: String)
        ensures
            line@ == "Move "@ + decimal(self.translate_distance as nat) + " m:"@,
    {
        let mut line = "Move ".to_owned();
        push_decimal(&mut line, self.translate_distance as u64);
        line.append(" m:");
        line
    }

    /// A precise move: the bearing in degrees, and the distance in metres.
    pub fn translation(&self, towards: Cardinal) -> (order: (u32, u32))
        ensures
            order == (towards.angle(), self.translate_distance),
    {
        (towards.bearing(), self.translate_distance)
    }
}

/// Writes the numbers of the frame: how many frames a second there are, and where the camera is.
pub fn position_label(fps: i64, position: Vector) -> (line: String)
    ensures
        line@ == "FPS: "@ + fixed(fps as int, 0) + "  ·  Position: "@ + position.text(0),
{
    let mut line = "FPS: ".to_owned();
    push_fixed(&mut line, fps, 0);
    line.append("  ·  Position: ");
    position.push_to(&mut line, 0);
    line
}

/// Writes a coordinate for its field.
pub fn coordinate_text(degrees: i64) -> (text: String)
    ensures
        text@ == fixed(degrees as int, 6),
{
    let mut text = String::new();
    push_fixed(&mut text, degrees, 6);
    assert(text@ =~= fixed(degrees as int, 6));
    text
}

/// The lowest altitude of the slider: a metre.
pub const LOWEST: i64 = 1_000_000_000;

/// The highest altitude of the slider: ten thousand kilometres.
pub const HIGHEST: i64 = 10_000_000_000_000_000;

/// The altitude that the slider shows.
pub fn slider_altitude(altitude: i64) -> (shown: i64)
    ensures
        shown == clamped(altitude as int, LOWEST as int, HIGHEST as int),
{
    clamp(altitude, LOWEST, HIGHEST)
}

/// Whose search it is, which stands by its results.
pub fn attribution() -> (line: &'static str)
    ensures
        line@ == "Search by Nominatim © OpenStreetMap"@,
{
    "Search by Nominatim © OpenStreetMap"
}

/// Goes to a place: the results of the search are cleared, and a teleport is asked for. Hands out
/// the number of the request.
pub fn go_to<C: Copy>(
    search: &mut GeocodingState<C>,
    teleport: &mut TeleportState<C>,
    lat: C,
    lon: C,
) -> (ticket: u64)
    ensures
        final(search).results@.len() == 0,
        final(search).search_text == old(search).search_text,
        final(search).is_loading == old(search).is_loading,
        final(search).last_request_time == old(search).last_request_time,
        final(search).error == old(search).error,
        final(search).pending_reverse == old(search).pending_reverse,
        *final(teleport) == requested(*old(teleport), lat, lon),
        ticket == old(teleport).next_ticket,
{
    search.results = Vec::new();
    teleport.request(lat, lon)
}

/// The wait that the panel tells is the time until the next request may start, in whole seconds,
/// rounded up; once it has passed there is none.
pub proof fn lemma_waits_are_rounded_up<C>(
    search: GeocodingState<C>,
    now: u64,
    status: SearchStatus,
)
    requires
        call_ensures(search_status::<C>, (&search, now), status),
    ensures
        search.is_loading <==> status is Searching,
        !search.is_loading && search.last_request_time is None ==> status is Ready,
        !search.is_loading && search.last_request_time is Some ==> {
            let left = search.last_request_time->0 + 5_000_000_000 - now;
            &&& left <= 0 <==> status is Ready
            &&& status matches SearchStatus::Wait(s) ==> (s - 1) * 1_000_000_000 < left <= s
                * 1_000_000_000
        },
{
    if !search.is_loading && search.last_request_time is Some {
        let last = search.last_request_time->0;
        let left = last + 5_000_000_000 - now;
        let up = left + 999_999_999;
        assert((up / 1_000_000_000) * 1_000_000_000 <= up < (up / 1_000_000_000 + 1) * 1_000_000_000);
    }
}

/// Of a teleport the panel tells the furthest: that it waits for the ground, that it flies, that it
/// waits for its elevation, or what went wrong.
pub proof fn lemma_teleports_are_told_of<C, P, H: Copy>(
    animation: TeleportAnimation<P, H>,
    teleport: TeleportState<C>,
    status: TeleportStatus,
)
    requires
        call_ensures(teleport_status::<C, P, H>, (&animation, &teleport), status),
    ensures
        status is WaitingForTerrain <==> animation.phase is Some && !(animation.phase->0.state
            is Flying),
        status is Flying <==> animation.phase is Some && animation.phase->0.state is Flying,
        status is FetchingElevation <==> animation.phase is None && teleport.pending is Some,
        status is Failed <==> animation.phase is None && teleport.pending is None && teleport.error
            is Some,
        status is Quiet <==> animation.phase is None && teleport.pending is None && teleport.error
            is None,
        status matches TeleportStatus::Failed(e) ==> e@ == teleport.error->0@,
        status matches TeleportStatus::Flying(flown, whole) ==> {
            let phase = animation.phase->0;
            &&& flown <= whole
            &&& phase.elapsed < phase.duration ==> flown == phase.elapsed && whole == phase.duration
            &&& phase.elapsed >= phase.duration ==> flown == whole
        },
{
}

/// A destination needs both coordinates; its latitude is held between the poles, and its longitude
/// is taken as it is.
pub proof fn lemma_destinations_lie_between_the_poles(
    fields: &mut CoordinateInputState,
    lat: Option<i64>,
    lon: Option<i64>,
    destination: Option<(i64, i64)>,
)
    requires
        call_ensures(CoordinateInputState::submit, (fields, lat, lon), destination),
    ensures
        destination is Some <==> lat is Some && lon is Some,
        destination matches Some(place) ==> {
            &&& -90_000_000_000 <= place.0 <= 90_000_000_000
            &&& -90_000_000_000 <= lat->0 <= 90_000_000_000 ==> place.0 == lat->0
            &&& lat->0 < -90_000_000_000 ==> place.0 == -90_000_000_000
            &&& lat->0 > 90_000_000_000 ==> place.0 == 90_000_000_000
            &&& place.1 == lon->0
        },
        !final(fields).is_editing,
{
}

/// The fields follow the camera, except while they are edited or a teleport waits.
pub proof fn lemma_fields_follow_the_camera(
    fields: &mut CoordinateInputState,
    lat: &str,
    lon: &str,
    pending: bool,
)
    requires
        call_ensures(CoordinateInputState::show_position, (fields, lat, lon, pending), ()),
    ensures
        !old(fields).is_editing && !pending ==> final(fields).lat_text@ == lat@
            && final(fields).lon_text@ == lon@,
        old(fields).is_editing || pending ==> final(fields).lat_text@ == old(fields).lat_text@
            && final(fields).lon_text@ == old(fields).lon_text@,
        final(fields).is_editing == old(fields).is_editing,
{
}

/// A precise move goes the distance that was chosen last, toward its button, and only that distance
/// is marked.
pub proof fn lemma_moves_go_the_chosen_distance(
    fields: &mut CoordinateInputState,
    distance: MoveDistance,
    other: MoveDistance,
    marked: bool,
    towards: Cardinal,
    bearing: u32,
    order: (u32, u32),
    metres: u32,
)
    requires
        call_ensures(CoordinateInputState::choose_distance, (fields, distance), ()),
        call_ensures(CoordinateInputState::is_chosen, (&*final(fields), other), marked),
        call_ensures(CoordinateInputState::translation, (&*final(fields), towards), order),
        call_ensures(Cardinal::bearing, (towards,), bearing),
        call_ensures(MoveDistance::metres, (distance,), metres),
    ensures
        marked <==> other == distance,
        order == (bearing, metres),
        distance is HundredMetres ==> metres == 100,
        distance is Kilometre ==> metres == 1_000,
        distance is TenKilometres ==> metres == 10_000,
        distance is FiftyKilometres ==> metres == 50_000,
        distance is HundredKilometres ==> metres == 100_000,
{
}

/// The slider shows altitudes between a metre and ten thousand kilometres.
pub proof fn lemma_altitudes_fit_the_slider(altitude: i64, shown: i64)
    requires
        call_ensures(slider_altitude, (altitude,), shown),
    ensures
        1_000_000_000 <= shown <= 10_000_000_000_000_000,
        1_000_000_000 <= altitude <= 10_000_000_000_000_000 ==> shown == altitude,
        altitude < 1_000_000_000 ==> shown == 1_000_000_000,
        altitude > 10_000_000_000_000_000 ==> shown == 10_000_000_000_000_000,
{
}

/// Going to a place clears what the search found and asks for a teleport there.
pub proof fn lemma_going_asks_for_a_teleport<C: Copy>(
    search: &mut GeocodingState<C>,
    teleport: &mut TeleportState<C>,
    lat: C,
    lon: C,
    ticket: u64,
)
    requires
        call_ensures(go_to::<C>, (search, teleport, lat, lon), ticket),
    ensures
        final(search).results@.len() == 0,
        final(search).search_text@ == old(search).search_text@,
        final(teleport).pending is Some,
        final(teleport).pending->0.lat == lat,
        final(teleport).pending->0.lon == lon,
        final(teleport).pending->0.ticket == ticket,
        final(teleport).play_departure_woosh,
        final(teleport).error is None,
{
}

} // verus!
