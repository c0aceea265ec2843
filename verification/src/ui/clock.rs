//! The panel for place and time: the clock, the sun and the moon.
//!
//! Speeds of time are in millionths, hours and angles in billionths.

use vstd::prelude::*;
use vstd::string::*;
use crate::decimal::{decimal, fixed, push_fixed, push_padded, push_signed, signed, zero_padded};
use crate::launch::SimpleDate;
use crate::moon::MoonState;

verus! {

/// The slowest that time can run, unless it stands still.
pub const SLOWEST: u32 = 100_000;

/// Time as fast as it is.
pub const REAL_SPEED: u32 = 1_000_000;

/// Where the time of day comes from.
#[derive(Clone, Copy, Debug, PartialEq, Eq, Structural)]
pub enum TimeMode {
    /// The clock.
    Realtime,
    /// The user.
    Override,
}

/// How fast time runs.
#[derive(Clone, Copy, Debug, PartialEq, Eq, Structural)]
pub struct TimeSpeed {
    pub mode: TimeMode,
    /// Zero while time stands still.
    pub speed: u64,
    /// The speed before the last pause.
    pub last_unpaused_speed: u64,
}

impl TimeSpeed {
    /// The speed at which time runs on after a pause.
    pub open spec fn resume(self) -> u64 {
        if self.last_unpaused_speed < SLOWEST {
            SLOWEST as u64
        } else {
            self.last_unpaused_speed
        }
    }

    /// Stops time, or lets it run on.
    pub fn toggle_pause(&mut self)
        ensures
            *final(self) == toggled(*old(self)),
    {
        if self.speed == 0 {
            self.speed = if self.last_unpaused_speed < SLOWEST as u64 {
                SLOWEST as u64
            } else {
                self.last_unpaused_speed
            };
        } else {
            self.last_unpaused_speed = self.speed;
            self.speed = 0;
        }
    }

    /// Takes the time of day off the clock; its speed stays.
    pub fn choose_manual(&mut self)
        ensures
            *final(self) == (TimeSpeed { mode: TimeMode::Override, ..*old(self) }),
    {
        self.mode = TimeMode::Override;
    }

    /// The speed that the slider shows: during a pause the one to go on with.
    pub fn slider_speed(&self) -> (speed: u64)
        ensures
            speed == if self.speed == 0 {
                self.resume()
            } else {
                self.speed
            },
    {
        if self.speed != 0 {
            self.speed
        } else if self.last_unpaused_speed < SLOWEST as u64 {
            SLOWEST as u64
        } else {
            self.last_unpaused_speed
        }
    }

    /// The user moves the slider: nothing happens during a pause, and any speed but that of the
    /// clock takes the time of day off the clock.
    pub fn choose_speed(&mut self, speed: u64)
        ensures
            *final(self) == if old(self).speed == 0 {
                *old(self)
            } else {
                TimeSpeed {
                    mode: if speed != REAL_SPEED {
                        TimeMode::Override
                    } else {
                        old(self).mode
                    },
                    speed,
                    ..*old(self)
                }
            },
    {
        if self.speed != 0 {
            self.speed = speed;
            if speed != REAL_SPEED as u64 {
                self.mode = TimeMode::Override;
            }
        }
    }
}

/// The speed of time after the pause button.
pub open spec fn toggled(time: TimeSpeed) -> TimeSpeed {
    if time.speed == 0 {
        TimeSpeed { speed: time.resume(), ..time }
    } else {
        TimeSpeed { speed: 0, last_unpaused_speed: time.speed, ..time }
    }
}

/// A pause keeps the speed: time that runs at least at the slowest speed of the slider goes on as
/// fast as before.
pub proof fn lemma_pause_keeps_the_speed(time: TimeSpeed)
    requires
        time.speed >= SLOWEST,
    ensures
        toggled(time).speed == 0,
        toggled(toggled(time)).speed == time.speed,
        toggled(toggled(time)).mode == time.mode,
{
}

/// The caption of a date.
pub open spec fn date_line(date: SimpleDate) -> Seq<char> {
    "Date: "@ + signed(date.year as int) + seq!['-'] + zero_padded(
        decimal(date.month as nat),
        2,
    ) + seq!['-'] + zero_padded(decimal(date.day as nat), 2)
}

/// Writes the caption of a date.
pub fn date_label(date: SimpleDate) -> (line: String)
    ensures
        line@ == date_line(date),
{
    let mut line = "Date: ".to_owned();
    push_signed(&mut line, date.year as i64);
    line.push('-');
    push_padded(&mut line, date.month, 2);
    line.push('-');
    push_padded(&mut line, date.day, 2);
    assert(line@ =~= date_line(date));
    line
}

/// A time on the clock.
#[derive(Clone, Copy, Debug, PartialEq, Eq, Structural)]
pub struct ClockTime {
    pub hours: u32,
    pub minutes: u32,
    pub seconds: u32,
}

impl ClockTime {
    /// Hours, minutes and seconds, each with two digits.
    pub open spec fn text(self) -> Seq<char> {
        zero_padded(decimal(self.hours as nat), 2) + seq![':'] + zero_padded(
            decimal(self.minutes as nat),
            2,
        ) + seq![':'] + zero_padded(decimal(self.seconds as nat), 2)
    }

    /// Writes the time behind `s`.
    pub fn push_to(self, s: &mut String)
        ensures
            final(s)@ == old(s)@ + self.text(),
    {
        push_padded(s, self.hours, 2);
        s.push(':');
        push_padded(s, self.minutes, 2);
        s.push(':');
        push_padded(s, self.seconds, 2);
        assert(s@ =~= old(s)@ + self.text());
    }
}

/// Writes the time on the clock of the prime meridian.
pub fn utc_label(time: ClockTime) -> (line: String)
    ensures
        line@ == "UTC: "@ + time.text(),
{
    let mut line = "UTC: ".to_owned();
    time.push_to(&mut line);
    line
}

/// Writes the time on a local clock, and by how many hours it is ahead.
pub fn local_label(time: ClockTime, offset_hours: i64) -> (line: String)
    ensures
        line@ == "Local: "@ + time.text() + " (UTC"@ + (if offset_hours >= 0 {
            "+"@
        } else {
            ""@
        }) + fixed(offset_hours as int, 1) + ")"@,
{
    let mut line = "Local: ".to_owned();
    time.push_to(&mut line);
    line.append(" (UTC");
    line.append(
        if offset_hours >= 0 {
            "+"
        } else {
            ""
        },
    );
    push_fixed(&mut line, offset_hours, 1);
    line.append(")");
    line
}

/// How far the slider for the hour has to move before the time is set: a hundredth of an hour.
pub const HOUR_STEP: u64 = 10_000_000;

/// The local hour to set after the slider was moved from `shown` to `slider`, if it moved far
/// enough.
pub fn chosen_hour(shown: u64, slider: u64) -> (hour: Option<u64>)
    ensures
        hour == if slider > shown + HOUR_STEP || shown > slider + HOUR_STEP {
            Some(slider)
        } else {
            None
        },
{
    let far: u64 = if slider > shown {
        slider - shown
    } else {
        shown - slider
    };
    if far > HOUR_STEP {
        Some(slider)
    } else {
        None
    }
}

/// What stands in place of the picker for the date, if the date cannot be picked from.
pub fn date_notice(known: bool) -> (notice: Option<&'static str>)
    ensures
        match notice {
            Some(words) => !known && words@ == "(invalid date)"@,
            None => known,
        },
{
    if known {
        None
    } else {
        Some("(invalid date)")
    }
}

/// Writes how far the sun is from the equator.
pub fn declination_label(declination: i64) -> (line: String)
    ensures
        line@ == "Sun declination: "@ + fixed(declination as int, 1) + "°"@,
{
    let mut line = "Sun declination: ".to_owned();
    push_fixed(&mut line, declination, 1);
    line.append("°");
    line
}

/// Writes the phase of the moon, how much of it is lit, and how high it stands.
pub fn moon_label(moon: MoonState, altitude: i64) -> (line: String)
    ensures
        line@ == "Moon: "@ + moon.phase_text() + " ("@ + fixed(moon.illuminated_ppm * 100_000, 0)
            + "%), altitude "@ + fixed(altitude as int, 1) + "° ("@ + (if altitude > 0 {
            "up"@
        } else {
            "down"@
        }) + ")"@,
{
    let mut line = "Moon: ".to_owned();
    line.append(moon.phase_name());
    line.append(" (");
    push_fixed(&mut line, moon.illuminated_ppm as i64 * 100_000, 0);
    line.append("%), altitude ");
    push_fixed(&mut line, altitude, 1);
    line.append("° (");
    line.append(
        if altitude > 0 {
            "up"
        } else {
            "down"
        },
    );
    line.append(")");
    line
}

/// The pause button stops time that runs, and lets time that stands run on as fast as before, though
/// no slower than the slowest speed of the slider.
pub proof fn lemma_pauses_stop_and_resume(time: &mut TimeSpeed)
    requires
        call_ensures(TimeSpeed::toggle_pause, (time,), ()),
    ensures
        old(time).speed > 0 ==> final(time).speed == 0 && final(time).last_unpaused_speed
            == old(time).speed,
        old(time).speed == 0 ==> final(time).speed > 0 && final(time).speed >= 100_000
            && final(time).last_unpaused_speed == old(time).last_unpaused_speed,
        old(time).speed == 0 && old(time).last_unpaused_speed >= 100_000 ==> final(time).speed
            == old(time).last_unpaused_speed,
        old(time).speed == 0 && old(time).last_unpaused_speed < 100_000 ==> final(time).speed
            == 100_000,
        final(time).mode == old(time).mode,
{
}

/// The slider shows the speed at which time runs or, during a pause, would run on.
pub proof fn lemma_the_slider_shows_the_speed(time: &mut TimeSpeed, shown: u64)
    requires
        call_ensures(TimeSpeed::slider_speed, (&*old(time),), shown),
        call_ensures(TimeSpeed::toggle_pause, (time,), ()),
    ensures
        old(time).speed > 0 ==> shown == old(time).speed,
        old(time).speed == 0 ==> shown == final(time).speed,
{
}

/// A chosen speed counts while time runs, and takes the time of day off the clock unless it is the
/// real one; during a pause nothing changes.
pub proof fn lemma_chosen_speeds_count(time: &mut TimeSpeed, speed: u64)
    requires
        call_ensures(TimeSpeed::choose_speed, (time, speed), ()),
    ensures
        old(time).speed == 0 ==> *final(time) == *old(time),
        old(time).speed > 0 ==> {
            &&& final(time).speed == speed
            &&& final(time).last_unpaused_speed == old(time).last_unpaused_speed
            &&& speed != 1_000_000 ==> final(time).mode == TimeMode::Override
            &&& speed == 1_000_000 ==> final(time).mode == old(time).mode
        },
{
}

/// An hour is set once the slider is more than a hundredth of an hour away, either way.
pub proof fn lemma_small_moves_set_no_hour(shown: u64, slider: u64, hour: Option<u64>)
    requires
        call_ensures(chosen_hour, (shown, slider), hour),
    ensures
        -10_000_000 <= slider - shown <= 10_000_000 <==> hour is None,
        hour matches Some(h) ==> h == slider,
{
}

} // verus!
