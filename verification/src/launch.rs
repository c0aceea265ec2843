//! Launch parameters and their date-time overrides.

use vstd::prelude::*;
use vstd::string::*;
use crate::camera_mode::CameraMode;
use crate::decimal::{
    decimal,
    lemma_read_padded,
    parse_i32,
    parse_u32,
    push_decimal,
    push_padded,
    read_signed,
    read_unsigned,
    zero_padded,
    is_digit,
    IntError,
};
use crate::text;

verus! {

/// A calendar date.
#[derive(Clone, Copy, Debug, PartialEq, Eq, Structural)]
pub struct SimpleDate {
    pub year: i32,
    pub month: u32,
    pub day: u32,
}

/// A date and a time of day.
#[derive(Clone, Copy, Debug, PartialEq, Eq, Structural)]
pub struct DateTimeOverride {
    pub date: SimpleDate,
    /// Seconds since midnight.
    pub seconds: u32,
}

/// The parts of a date-time text.
#[derive(Clone, Copy, Debug, PartialEq, Eq, Structural)]
pub enum DateTimeField {
    Year,
    Month,
    Day,
    Hour,
    Minute,
    Second,
}

impl DateTimeField {
    /// The part's name.
    pub open spec fn text(self) -> Seq<char> {
        match self {
            DateTimeField::Year => "year"@,
            DateTimeField::Month => "month"@,
            DateTimeField::Day => "day"@,
            DateTimeField::Hour => "hour"@,
            DateTimeField::Minute => "minute"@,
            DateTimeField::Second => "second"@,
        }
    }

    /// The part's name.
    pub fn name(self) -> (name: &'static str)
        ensures
            name@ == self.text(),
    {
        match self {
            DateTimeField::Year => "year",
            DateTimeField::Month => "month",
            DateTimeField::Day => "day",
            DateTimeField::Hour => "hour",
            DateTimeField::Minute => "minute",
            DateTimeField::Second => "second",
        }
    }
}

/// Why a text is no date-time.
#[derive(Clone, Copy, Debug, PartialEq, Eq, Structural)]
pub enum DateTimeError {
    /// The text does not have the shape `YYYY-MM-DDTHH:MM:SS`.
    Shape,
    /// A part is no number.
    Invalid(DateTimeField, IntError),
    /// A part is a number that it cannot be.
    OutOfRange(DateTimeField, u32),
}

/// `s` with a T for every blank.
pub open spec fn with_t(s: Seq<char>) -> Seq<char> {
    s.map_values(
        |c: char|
            if c == ' ' {
                'T'
            } else {
                c
            },
    )
}

/// The six parts of a date-time text, if it has the right shape: two pieces around a T, each of
/// three pieces, around hyphens and around colons.
pub open spec fn date_time_parts(s: Seq<char>) -> Option<(Seq<Seq<char>>, Seq<Seq<char>>)> {
    let halves = text::pieces(with_t(s), 'T');
    if halves.len() != 2 {
        None
    } else {
        let date = text::pieces(halves[0], '-');
        let time = text::pieces(halves[1], ':');
        if date.len() == 3 && time.len() == 3 {
            Some((date, time))
        } else {
            None
        }
    }
}

/// A part as an unsigned number.
pub open spec fn read_part(s: Seq<char>, field: DateTimeField) -> Result<nat, DateTimeError> {
    match read_unsigned(s, u32::MAX as nat) {
        Ok(n) => Ok(n),
        Err(e) => Err(DateTimeError::Invalid(field, e)),
    }
}

/// The date-time that numbers stand for, if each is in range.
pub open spec fn date_time_in_range(
    year: int,
    month: nat,
    day: nat,
    hour: nat,
    minute: nat,
    second: nat,
) -> Result<DateTimeOverride, DateTimeError> {
    if !(1 <= month <= 12) {
        Err(DateTimeError::OutOfRange(DateTimeField::Month, month as u32))
    } else if !(1 <= day <= 31) {
        Err(DateTimeError::OutOfRange(DateTimeField::Day, day as u32))
    } else if hour >= 24 {
        Err(DateTimeError::OutOfRange(DateTimeField::Hour, hour as u32))
    } else if minute >= 60 {
        Err(DateTimeError::OutOfRange(DateTimeField::Minute, minute as u32))
    } else if second >= 60 {
        Err(DateTimeError::OutOfRange(DateTimeField::Second, second as u32))
    } else {
        Ok(
            DateTimeOverride {
                date: SimpleDate { year: year as i32, month: month as u32, day: day as u32 },
                seconds: (hour * 3600 + minute * 60 + second) as u32,
            },
        )
    }
}

/// The date-time that a text stands for, or the first thing that is wrong with it: its shape,
/// then each part in turn, then each range in turn.
pub open spec fn read_date_time(s: Seq<char>) -> Result<DateTimeOverride, DateTimeError> {
    match date_time_parts(s) {
        None => Err(DateTimeError::Shape),
        Some((date, time)) => match read_signed(date[0], i32::MAX as nat) {
            Err(e) => Err(DateTimeError::Invalid(DateTimeField::Year, e)),
            Ok(year) => match read_part(date[1], DateTimeField::Month) {
                Err(e) => Err(e),
                Ok(month) => match read_part(date[2], DateTimeField::Day) {
                    Err(e) => Err(e),
                    Ok(day) => match read_part(time[0], DateTimeField::Hour) {
                        Err(e) => Err(e),
                        Ok(hour) => match read_part(time[1], DateTimeField::Minute) {
                            Err(e) => Err(e),
                            Ok(minute) => match read_part(time[2], DateTimeField::Second) {
                                Err(e) => Err(e),
                                Ok(second) => date_time_in_range(
                                    year,
                                    month,
                                    day,
                                    hour,
                                    minute,
                                    second,
                                ),
                            },
                        },
                    },
                },
            },
        },
    }
}

/// Reads one part.
fn parse_part(s: &Vec<char>, field: DateTimeField) -> (value: Result<u32, DateTimeError>)
    ensures
        match value {
            Ok(v) => read_part(s@, field) == Ok::<nat, DateTimeError>(v as nat),
            Err(e) => read_part(s@, field) == Err::<nat, DateTimeError>(e),
        },
{
    match parse_u32(s) {
        Ok(v) => Ok(v),
        Err(e) => Err(DateTimeError::Invalid(field, e)),
    }
}

/// The characters of `s` with a T for every blank.
fn chars_with_t(s: &str) -> (chars: Vec<char>)
    ensures
        chars@ == with_t(s@),
{
    let plain = text::chars_of(s);
    let mut chars: Vec<char> = Vec::new();
    let mut i: usize = 0;
    while i < plain.len()
        invariant
            i <= plain@.len(),
            plain@ == s@,
            chars@ == with_t(s@).take(i as int),
        decreases plain@.len() - i,
    {
        let c: char = if plain[i] == ' ' {
            'T'
        } else {
            plain[i]
        };
        chars.push(c);
        assert(with_t(s@).take(i + 1) =~= with_t(s@).take(i as int).push(c));
        i = i + 1;
    }
    assert(with_t(s@).take(s@.len() as int) =~= with_t(s@));
    chars
}

/// Reads a `YYYY-MM-DDTHH:MM:SS` text; a blank may stand for the T.
pub fn read_datetime(s: &str) -> (value: Result<DateTimeOverride, DateTimeError>)
    ensures
        value == read_date_time(s@),
{
    let chars = chars_with_t(s);
    let halves = text::split(&chars, 'T');
    if halves.len() != 2 {
        return Err(DateTimeError::Shape);
    }
    assert(text::piece_views(halves@)[0] == halves@[0]@);
    assert(text::piece_views(halves@)[1] == halves@[1]@);
    let date = text::split(&halves[0], '-');
    let time = text::split(&halves[1], ':');
    if date.len() != 3 || time.len() != 3 {
        return Err(DateTimeError::Shape);
    }
    proof {
        assert(text::piece_views(date@)[0] == date@[0]@);
        assert(text::piece_views(date@)[1] == date@[1]@);
        assert(text::piece_views(date@)[2] == date@[2]@);
        assert(text::piece_views(time@)[0] == time@[0]@);
        assert(text::piece_views(time@)[1] == time@[1]@);
        assert(text::piece_views(time@)[2] == time@[2]@);
    }
    let year: i32 = match parse_i32(&date[0]) {
        Ok(v) => v,
        Err(e) => {
            return Err(DateTimeError::Invalid(DateTimeField::Year, e));
        },
    };
    let month: u32 = match parse_part(&date[1], DateTimeField::Month) {
        Ok(v) => v,
        Err(e) => {
            return Err(e);
        },
    };
    let day: u32 = match parse_part(&date[2], DateTimeField::Day) {
        Ok(v) => v,
        Err(e) => {
            return Err(e);
        },
    };
    let hour: u32 = match parse_part(&time[0], DateTimeField::Hour) {
        Ok(v) => v,
        Err(e) => {
            return Err(e);
        },
    };
    let minute: u32 = match parse_part(&time[1], DateTimeField::Minute) {
        Ok(v) => v,
        Err(e) => {
            return Err(e);
        },
    };
    let second: u32 = match parse_part(&time[2], DateTimeField::Second) {
        Ok(v) => v,
        Err(e) => {
            return Err(e);
        },
    };
    if month < 1 || month > 12 {
        return Err(DateTimeError::OutOfRange(DateTimeField::Month, month));
    }
    if day < 1 || day > 31 {
        return Err(DateTimeError::OutOfRange(DateTimeField::Day, day));
    }
    if hour >= 24 {
        return Err(DateTimeError::OutOfRange(DateTimeField::Hour, hour));
    }
    if minute >= 60 {
        return Err(DateTimeError::OutOfRange(DateTimeField::Minute, minute));
    }
    if second >= 60 {
        return Err(DateTimeError::OutOfRange(DateTimeField::Second, second));
    }
    Ok(
        DateTimeOverride {
            date: SimpleDate { year, month, day },
            seconds: hour * 3600 + minute * 60 + second,
        },
    )
}

/// What is said of a text that is no date-time.
pub open spec fn error_text(error: DateTimeError, s: Seq<char>) -> Seq<char> {
    match error {
        DateTimeError::Shape => "expected YYYY-MM-DDTHH:MM:SS, got '"@ + with_t(s) + "'"@,
        DateTimeError::Invalid(field, e) => "invalid "@ + field.text() + ": "@ + e.text(),
        DateTimeError::OutOfRange(field, n) => field.text() + " out of range: "@ + decimal(n as nat),
    }
}

/// Says what is wrong with the text `s`.
fn error_message(error: DateTimeError, s: &str) -> (message: String)
    ensures
        message@ == error_text(error, s@),
{
    match error {
        DateTimeError::Shape => {
            let mut message = "expected YYYY-MM-DDTHH:MM:SS, got '".to_owned();
            let chars = chars_with_t(s);
            crate::decimal::push_chars(&mut message, &chars);
            message.append("'");
            message
        },
        DateTimeError::Invalid(field, e) => {
            let mut message = "invalid ".to_owned();
            message.append(field.name());
            message.append(": ");
            message.append(e.message());
            message
        },
        DateTimeError::OutOfRange(field, n) => {
            let mut message = field.name().to_owned();
            message.append(" out of range: ");
            push_decimal(&mut message, n as u64);
            message
        },
    }
}

/// Reads a `YYYY-MM-DDTHH:MM:SS` text, or says in words what is wrong with it.
pub fn parse_datetime(s: &str) -> (value: Result<DateTimeOverride, String>)
    ensures
        match value {
            Ok(dt) => read_date_time(s@) == Ok::<DateTimeOverride, DateTimeError>(dt),
            Err(message) => read_date_time(s@) is Err && message@ == error_text(
                read_date_time(s@)->Err_0,
                s@,
            ),
        },
{
    match read_datetime(s) {
        Ok(dt) => Ok(dt),
        Err(e) => Err(error_message(e, s)),
    }
}

/// A year in at least four characters, the sign among them.
pub open spec fn year_text(year: int) -> Seq<char> {
    if year < 0 {
        seq!['-'] + zero_padded(decimal((-year) as nat), 3)
    } else {
        zero_padded(decimal(year as nat), 4)
    }
}

/// A number in at least two digits.
pub open spec fn two_digits(n: nat) -> Seq<char> {
    zero_padded(decimal(n), 2)
}

impl DateTimeOverride {
    /// The date-time as `YYYY-MM-DDTHH:MM:SS`.
    pub open spec fn text(self) -> Seq<char> {
        let s = self.seconds as nat;
        year_text(self.date.year as int) + seq!['-'] + two_digits(self.date.month as nat) + seq!['-']
            + two_digits(self.date.day as nat) + seq!['T'] + two_digits(s / 3600) + seq![':']
            + two_digits(s / 60 % 60) + seq![':'] + two_digits(s % 60)
    }

    /// Whether the parts are ones that a text can give.
    pub open spec fn in_range(self) -> bool {
        &&& 1 <= self.date.month <= 12
        &&& 1 <= self.date.day <= 31
        &&& self.seconds < 86400
    }

    /// Writes the date-time as `YYYY-MM-DDTHH:MM:SS`.
    pub fn to_text(&self) -> (written: String)
        ensures
            written@ == self.text(),
    {
        let mut written = String::new();
        if self.date.year < 0 {
            written.push('-');
            let size: u32 = (-(self.date.year as i64)) as u32;
            push_padded(&mut written, size, 3);
            assert(written@ =~= year_text(self.date.year as int));
        } else {
            push_padded(&mut written, self.date.year as u32, 4);
            assert(written@ =~= year_text(self.date.year as int));
        }
        written.push('-');
        push_padded(&mut written, self.date.month, 2);
        written.push('-');
        push_padded(&mut written, self.date.day, 2);
        written.push('T');
        push_padded(&mut written, self.seconds / 3600, 2);
        written.push(':');
        push_padded(&mut written, self.seconds / 60 % 60, 2);
        written.push(':');
        push_padded(&mut written, self.seconds % 60, 2);
        assert(written@ =~= self.text());
        written
    }
}

proof fn lemma_digits_hold_no_separator(s: Seq<char>)
    requires
        forall|i: int| 0 <= i < s.len() ==> is_digit(#[trigger] s[i]),
    ensures
        !s.contains('-'),
        !s.contains(':'),
        !s.contains('T'),
        !s.contains(' '),
{
    if s.contains('-') {
        assert(is_digit(s[s.index_of('-')]));
    }
    if s.contains(':') {
        assert(is_digit(s[s.index_of(':')]));
    }
    if s.contains('T') {
        assert(is_digit(s[s.index_of('T')]));
    }
    if s.contains(' ') {
        assert(is_digit(s[s.index_of(' ')]));
    }
}

proof fn lemma_three_pieces(a: Seq<char>, b: Seq<char>, c: Seq<char>, sep: char)
    requires
        !a.contains(sep),
        !b.contains(sep),
        !c.contains(sep),
    ensures
        text::pieces(a + seq![sep] + b + seq![sep] + c, sep) == seq![a, b, c],
{
    text::lemma_one_piece(a, sep);
    text::lemma_split_off(a, sep, b);
    text::lemma_split_off(a.push(sep) + b, sep, c);
    assert(a + seq![sep] + b + seq![sep] + c =~= (a.push(sep) + b).push(sep) + c);
    assert(seq![a].push(b).push(c) =~= seq![a, b, c]);
}

/// Reading back what was written gives the same date-time, for years that are not negative.
#[verifier::rlimit(60)]
#[verifier::spinoff_prover]
pub proof fn lemma_text_reads_back(dt: DateTimeOverride)
    requires
        dt.in_range(),
        dt.date.year >= 0,
    ensures
        read_date_time(dt.text()) == Ok::<DateTimeOverride, DateTimeError>(dt),
{
    let s = dt.seconds as nat;
    let y = year_text(dt.date.year as int);
    let mo = two_digits(dt.date.month as nat);
    let d = two_digits(dt.date.day as nat);
    let h = two_digits(s / 3600);
    let mi = two_digits(s / 60 % 60);
    let se = two_digits(s % 60);
    lemma_read_padded(dt.date.year as nat, 4, i32::MAX as nat);
    lemma_read_padded(dt.date.month as nat, 2, u32::MAX as nat);
    lemma_read_padded(dt.date.day as nat, 2, u32::MAX as nat);
    lemma_read_padded(s / 3600, 2, u32::MAX as nat);
    lemma_read_padded(s / 60 % 60, 2, u32::MAX as nat);
    lemma_read_padded(s % 60, 2, u32::MAX as nat);
    lemma_digits_hold_no_separator(y);
    lemma_digits_hold_no_separator(mo);
    lemma_digits_hold_no_separator(d);
    lemma_digits_hold_no_separator(h);
    lemma_digits_hold_no_separator(mi);
    lemma_digits_hold_no_separator(se);
    let date = y + seq!['-'] + mo + seq!['-'] + d;
    let time = h + seq![':'] + mi + seq![':'] + se;
    lemma_three_pieces(y, mo, d, '-');
    lemma_three_pieces(h, mi, se, ':');
    let whole = dt.text();
    assert(whole =~= date.push('T') + time);
    assert forall|i: int| 0 <= i < whole.len() implies whole[i] != ' ' by {
        lemma_no_blank(y, mo, d, h, mi, se, i);
    }
    assert(with_t(whole) =~= whole);
    assert(!date.contains('T')) by {
        if date.contains('T') {
            let i = date.index_of('T');
            assert(date[i] == 'T');
            if i < y.len() {
                assert(y.contains(y[i]));
            } else if i > y.len() && i < y.len() + 1 + mo.len() {
                assert(mo.contains(mo[i - y.len() - 1]));
            } else if i > y.len() + 1 + mo.len() {
                assert(d.contains(d[i - y.len() - mo.len() - 2]));
            }
        }
    }
    assert(!time.contains('T')) by {
        if time.contains('T') {
            let i = time.index_of('T');
            assert(time[i] == 'T');
            if i < h.len() {
                assert(h.contains(h[i]));
            } else if i > h.len() && i < h.len() + 1 + mi.len() {
                assert(mi.contains(mi[i - h.len() - 1]));
            } else if i > h.len() + 1 + mi.len() {
                assert(se.contains(se[i - h.len() - mi.len() - 2]));
            }
        }
    }
    text::lemma_one_piece(date, 'T');
    text::lemma_split_off(date, 'T', time);
    assert(text::pieces(whole, 'T') =~= seq![date, time]);
    assert(read_signed(y, i32::MAX as nat) == Ok::<int, IntError>(dt.date.year as int)) by {
        assert(is_digit(y[0]));
    }
    assert(s / 3600 * 3600 + s / 60 % 60 * 60 + s % 60 == s);
}

proof fn lemma_no_blank(
    y: Seq<char>,
    mo: Seq<char>,
    d: Seq<char>,
    h: Seq<char>,
    mi: Seq<char>,
    se: Seq<char>,
    i: int,
)
    requires
        !y.contains(' '),
        !mo.contains(' '),
        !d.contains(' '),
        !h.contains(' '),
        !mi.contains(' '),
        !se.contains(' '),
        ({
            let whole = y + seq!['-'] + mo + seq!['-'] + d + seq!['T'] + h + seq![':'] + mi + seq![
                ':',
            ] + se;
            0 <= i < whole.len()
        }),
    ensures
        ({
            let whole = y + seq!['-'] + mo + seq!['-'] + d + seq!['T'] + h + seq![':'] + mi + seq![
                ':',
            ] + se;
            whole[i] != ' '
        }),
{
    let a = y.len();
    let b = a + 1 + mo.len();
    let c = b + 1 + d.len();
    let e = c + 1 + h.len();
    let f = e + 1 + mi.len();
    if i < a {
        assert(y.contains(y[i]));
    } else if a < i < b {
        assert(mo.contains(mo[i - a - 1]));
    } else if b < i < c {
        assert(d.contains(d[i - b - 1]));
    } else if c < i < e {
        assert(h.contains(h[i - c - 1]));
    } else if e < i < f {
        assert(mi.contains(mi[i - e - 1]));
    } else if f < i {
        assert(se.contains(se[i - f - 1]));
    }
}

/// A blank may stand for the T.
pub proof fn lemma_blank_for_t(s: Seq<char>, i: int)
    requires
        0 <= i < s.len(),
        s[i] == 'T',
    ensures
        read_date_time(s.update(i, ' ')) == read_date_time(s),
{
    assert(with_t(s.update(i, ' ')) =~= with_t(s));
}

/// Overrides of the launch defaults; `C` stands for a coordinate.
pub struct LaunchParams<C> {
    pub lat: Option<C>,
    pub lon: Option<C>,
    pub altitude: Option<C>,
    pub camera_mode: Option<CameraMode>,
    /// Date-time in UTC.
    pub datetime: Option<DateTimeOverride>,
    /// Date-time at the longitude of the launch.
    pub datetime_local: Option<DateTimeOverride>,
}

/// The launch defaults.
pub struct LaunchConfig<C> {
    pub default_lat: C,
    pub default_lon: C,
    pub default_altitude: C,
    pub default_camera_mode: CameraMode,
}

/// Where and how to launch.
pub struct ResolvedLaunch<C> {
    pub lat: C,
    pub lon: C,
    pub altitude: C,
    pub camera_mode: CameraMode,
    /// Date-time in UTC, if it is overridden.
    pub datetime: Option<DateTimeOverride>,
}

/// An override, or else the default.
pub open spec fn either<T>(given: Option<T>, default: T) -> T {
    match given {
        Some(v) => v,
        None => default,
    }
}

impl<C: Copy> LaunchParams<C> {
    /// The local date-time that has to be turned into UTC before the launch, and the longitude
    /// to do it at. A date-time in UTC takes precedence.
    pub fn local_time(&self, config: &LaunchConfig<C>) -> (local: Option<(DateTimeOverride, C)>)
        ensures
            local == if self.datetime is None && self.datetime_local is Some {
                Some((self.datetime_local->0, either(self.lon, config.default_lon)))
            } else {
                None
            },
    {
        match (self.datetime, self.datetime_local) {
            (None, Some(local)) => Some((local, self.lon.unwrap_or(config.default_lon))),
            _ => None,
        }
    }

    /// Resolves the overrides against the defaults.
    ///
    /// `converted` is the local date-time in UTC; it counts only if there is a local date-time.
    pub fn resolve(&self, config: &LaunchConfig<C>, converted: Option<DateTimeOverride>) -> (launch:
        ResolvedLaunch<C>)
        ensures
            launch.lat == either(self.lat, config.default_lat),
            launch.lon == either(self.lon, config.default_lon),
            launch.altitude == either(self.altitude, config.default_altitude),
            launch.camera_mode == either(self.camera_mode, config.default_camera_mode),
            launch.datetime == if self.datetime is Some {
                self.datetime
            } else if self.datetime_local is Some {
                converted
            } else {
                None
            },
    {
        let datetime = match (self.datetime, self.datetime_local) {
            (Some(utc), _) => Some(utc),
            (None, Some(_)) => converted,
            (None, None) => None,
        };
        ResolvedLaunch {
            lat: self.lat.unwrap_or(config.default_lat),
            lon: self.lon.unwrap_or(config.default_lon),
            altitude: self.altitude.unwrap_or(config.default_altitude),
            camera_mode: self.camera_mode.unwrap_or(config.default_camera_mode),
            datetime,
        }
    }
}

/// Lets the camera be spawned once, when all configurations are there.
pub struct LaunchGate {
    pub spawned: bool,
}

/// Which configurations have been loaded.
#[derive(Clone, Copy, Debug, PartialEq, Eq, Structural)]
pub struct LoadedConfigs {
    pub launch: bool,
    pub camera: bool,
    pub atmosphere: bool,
    pub clouds: bool,
    pub cloud_engine: bool,
}

impl LaunchGate {
    /// Whether to spawn the camera now; it never says so twice.
    pub fn open(&mut self, loaded: LoadedConfigs) -> (spawn: bool)
        ensures
            spawn == (!old(self).spawned && loaded.launch && loaded.camera && loaded.atmosphere
                && loaded.clouds && loaded.cloud_engine),
            final(self).spawned == (old(self).spawned || spawn),
    {
        let spawn = !self.spawned && loaded.launch && loaded.camera && loaded.atmosphere
            && loaded.clouds && loaded.cloud_engine;
        if spawn {
            self.spawned = true;
        }
        spawn
    }
}

/// Queues the change to the camera mode that the launch asks for.
///
/// Free flight is already on, and following needs a target that a launch cannot name.
pub fn request_launch_mode(
    mode: CameraMode,
    transitions: &mut crate::camera_mode::CameraModeTransitions,
)
    ensures
        final(transitions)@ == if mode == CameraMode::FpsController {
            old(transitions)@.push(crate::camera_mode::CameraModeTransition::ToFpsController)
        } else {
            old(transitions)@
        },
{
    match mode {
        CameraMode::FpsController => {
            transitions.request_fps_controller();
        },
        _ => {},
    }
}

/// What is given overrides its default, and what is not does not.
pub proof fn lemma_what_is_given_counts<C: Copy>(
    params: LaunchParams<C>,
    config: LaunchConfig<C>,
    converted: Option<DateTimeOverride>,
    launch: ResolvedLaunch<C>,
)
    requires
        call_ensures(LaunchParams::<C>::resolve, (&params, &config, converted), launch),
    ensures
        params.lat matches Some(lat) ==> launch.lat == lat,
        params.lat is None ==> launch.lat == config.default_lat,
        params.lon matches Some(lon) ==> launch.lon == lon,
        params.lon is None ==> launch.lon == config.default_lon,
        params.altitude matches Some(altitude) ==> launch.altitude == altitude,
        params.altitude is None ==> launch.altitude == config.default_altitude,
        params.camera_mode matches Some(mode) ==> launch.camera_mode == mode,
        params.camera_mode is None ==> launch.camera_mode == config.default_camera_mode,
        params.datetime is Some ==> launch.datetime == params.datetime,
        params.datetime is None && params.datetime_local is Some ==> launch.datetime == converted,
        params.datetime is None && params.datetime_local is None ==> launch.datetime is None,
{
}

/// A local time has to be turned into UTC if it is the only time given, at the longitude of the
/// launch.
pub proof fn lemma_local_times_are_converted<C: Copy>(
    params: LaunchParams<C>,
    config: LaunchConfig<C>,
    converted: Option<DateTimeOverride>,
    launch: ResolvedLaunch<C>,
    local: Option<(DateTimeOverride, C)>,
)
    requires
        call_ensures(LaunchParams::<C>::resolve, (&params, &config, converted), launch),
        call_ensures(LaunchParams::<C>::local_time, (&params, &config), local),
    ensures
        local is Some <==> params.datetime is None && params.datetime_local is Some,
        local matches Some(found) ==> found.0 == params.datetime_local->0 && found.1 == launch.lon,
{
}

/// The camera is spawned once, as soon as all configurations are there, and never again.
pub proof fn lemma_cameras_are_spawned_once(
    launch: &mut LaunchGate,
    loaded: LoadedConfigs,
    spawn: bool,
)
    requires
        call_ensures(LaunchGate::open, (launch, loaded), spawn),
    ensures
        old(launch).spawned ==> !spawn,
        !loaded.launch || !loaded.camera || !loaded.atmosphere || !loaded.clouds
            || !loaded.cloud_engine ==> !spawn,
        !old(launch).spawned && loaded.launch && loaded.camera && loaded.atmosphere && loaded.clouds
            && loaded.cloud_engine ==> spawn,
        final(launch).spawned <==> old(launch).spawned || spawn,
{
}

/// A text that reads as a date-time stands for a month, a day and a time that exist, and a part that
/// is refused for its range lies outside it.
pub proof fn lemma_readings_are_in_range(s: &str, value: Result<DateTimeOverride, DateTimeError>)
    requires
        call_ensures(read_datetime, (s,), value),
    ensures
        value matches Ok(dt) ==> {
            &&& 1 <= dt.date.month <= 12
            &&& 1 <= dt.date.day <= 31
            &&& dt.seconds < 86400
        },
        value matches Err(DateTimeError::OutOfRange(field, n)) ==> {
            &&& field is Month ==> n < 1 || n > 12
            &&& field is Day ==> n < 1 || n > 31
            &&& field is Hour ==> n > 23
            &&& field is Minute ==> n > 59
            &&& field is Second ==> n > 59
            &&& !(field is Year)
        },
{
}

/// Whatever a date-time writes, for years that are not negative, it can be read back from, with the
/// T as with a blank in its place.
pub proof fn lemma_written_times_read_back(
    dt: DateTimeOverride,
    written: String,
    s: &str,
    value: Result<DateTimeOverride, String>,
    i: int,
)
    requires
        1 <= dt.date.month <= 12,
        1 <= dt.date.day <= 31,
        dt.seconds < 86400,
        dt.date.year >= 0,
        call_ensures(DateTimeOverride::to_text, (&dt,), written),
        s@ == written@ || (0 <= i < written@.len() && written@[i] == 'T' && s@ == written@.update(
            i,
            ' ',
        )),
        call_ensures(parse_datetime, (s,), value),
    ensures
        value == Ok::<DateTimeOverride, String>(dt),
{
    lemma_text_reads_back(dt);
    if s@ != written@ {
        lemma_blank_for_t(written@, i);
    }
}

/// A launch asks for the first-person player only if that is the mode to launch in.
pub proof fn lemma_launches_ask_for_the_player(
    mode: CameraMode,
    transitions: &mut crate::camera_mode::CameraModeTransitions,
)
    requires
        call_ensures(request_launch_mode, (mode, transitions), ()),
    ensures
        mode == CameraMode::FpsController ==> final(transitions)@ == old(transitions)@.push(
            crate::camera_mode::CameraModeTransition::ToFpsController,
        ),
        mode != CameraMode::FpsController ==> final(transitions)@ == old(transitions)@,
{
}

} // verus!
