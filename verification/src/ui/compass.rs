//! The compass.
//!
//! Bearings are in millionths of a degree, clockwise from north.

use vstd::prelude::*;
use vstd::string::*;
use crate::decimal::{fixed, push_fixed};

verus! {

/// A turn.
pub const TURN: i64 = 360_000_000;

/// A direction of the compass with a button.
#[derive(Clone, Copy, Debug, PartialEq, Eq, Structural)]
pub enum Cardinal {
    North,
    East,
    South,
    West,
}

impl Cardinal {
    /// The bearing in degrees.
    pub open spec fn angle(self) -> u32 {
        match self {
            Cardinal::North => 0,
            Cardinal::East => 90,
            Cardinal::South => 180,
            Cardinal::West => 270,
        }
    }

    /// The bearing in degrees.
    pub fn bearing(self) -> (degrees: u32)
        ensures
            degrees == self.angle(),
    {
        match self {
            Cardinal::North => 0,
            Cardinal::East => 90,
            Cardinal::South => 180,
            Cardinal::West => 270,
        }
    }

    /// The caption of the button.
    pub fn label(self) -> (caption: &'static str)
        ensures
            caption@ == match self {
                Cardinal::North => "N"@,
                Cardinal::East => "E"@,
                Cardinal::South => "S"@,
                Cardinal::West => "W"@,
            },
    {
        match self {
            Cardinal::North => "N",
            Cardinal::East => "E",
            Cardinal::South => "S",
            Cardinal::West => "W",
        }
    }
}

/// The bearing of an angle from north that runs from half a turn back to half a turn on. A view
/// straight up or down has no angle and counts as north.
pub fn bearing_of(angle: Option<i64>) -> (bearing: i64)
    requires
        angle matches Some(a) ==> -TURN <= 2 * a <= TURN,
    ensures
        bearing == match angle {
            Some(a) => if a < 0 {
                a + TURN
            } else {
                a as int
            },
            None => 0,
        },
        0 <= bearing < TURN,
{
    match angle {
        Some(a) => if a < 0 {
            a + TURN
        } else {
            a
        },
        None => 0,
    }
}

/// The caption of a point of the compass.
pub open spec fn cardinal_name(index: u64) -> Seq<char> {
    match index {
        0 => "N"@,
        1 => "NNE"@,
        2 => "NE"@,
        3 => "ENE"@,
        4 => "E"@,
        5 => "ESE"@,
        6 => "SE"@,
        7 => "SSE"@,
        8 => "S"@,
        9 => "SSW"@,
        10 => "SW"@,
        11 => "WSW"@,
        12 => "W"@,
        13 => "WNW"@,
        14 => "NW"@,
        _ => "NNW"@,
    }
}

/// The nearest of the sixteen points of the compass to a bearing in millionths of a degree.
pub open spec fn cardinal_index(bearing: int) -> int {
    ((bearing + 11_250_000) / 22_500_000) % 16
}

/// The point of the compass for a bearing in millionths of a degree, clockwise from north.
pub fn cardinal_for_bearing(bearing: i64) -> (name: &'static str)
    ensures
        name@ == cardinal_name(cardinal_index(bearing as int) as u64),
{
    let turn: u64 = 360_000_000;
    let within: u64 = if bearing >= 0 {
        bearing as u64 % turn
    } else {
        let back: u64 = ((-(bearing as i128)) as u64) % turn;
        if back == 0 {
            0
        } else {
            turn - back
        }
    };
    let index: u64 = (within + 11_250_000) / 22_500_000 % 16;
    proof {
        lemma_same_point(bearing as int, within as int);
    }
    match index {
        0 => "N",
        1 => "NNE",
        2 => "NE",
        3 => "ENE",
        4 => "E",
        5 => "ESE",
        6 => "SE",
        7 => "SSE",
        8 => "S",
        9 => "SSW",
        10 => "SW",
        11 => "WSW",
        12 => "W",
        13 => "WNW",
        14 => "NW",
        _ => "NNW",
    }
}

/// Whole turns do not change the point of the compass.
pub proof fn lemma_same_point(a: int, b: int)
    requires
        (a - b) % 360_000_000 == 0,
    ensures
        cardinal_index(a) == cardinal_index(b),
{
    let turns = (a - b) / 360_000_000;
    assert(a + 11_250_000 == b + 11_250_000 + 22_500_000 * (16 * turns));
    assert((a + 11_250_000) / 22_500_000 == (b + 11_250_000) / 22_500_000 + 16 * turns);
}

/// Each button of the compass heads for the point that it names.
pub proof fn lemma_buttons_name_their_point(button: Cardinal)
    ensures
        cardinal_index(button.angle() * 1_000_000) == 4 * match button {
            Cardinal::North => 0int,
            Cardinal::East => 1,
            Cardinal::South => 2,
            Cardinal::West => 3,
        },
{
}

/// `s` with blanks in front up to `width` characters.
pub open spec fn blank_padded(s: Seq<char>, width: int) -> Seq<char> {
    if s.len() >= width {
        s
    } else {
        Seq::new((width - s.len()) as nat, |i: int| ' ') + s
    }
}

/// Writes the heading: the bearing, at least five characters wide, and its point of the compass.
pub fn heading_label(bearing: i64) -> (line: String)
    requires
        0 <= bearing <= TURN,
    ensures
        line@ == "Heading: "@ + blank_padded(fixed(bearing * 1000, 1), 5) + "° ("@ + cardinal_name(
            cardinal_index(bearing as int) as u64,
        ) + ")"@,
{
    let mut number = String::new();
    push_fixed(&mut number, bearing * 1000, 1);
    assert(number@ =~= fixed(bearing * 1000, 1));
    let mut line = "Heading: ".to_owned();
    let ghost start = line@;
    let wide: usize = number.as_str().unicode_len();
    let missing: usize = if wide >= 5 {
        0
    } else {
        5 - wide
    };
    let ghost blanks = Seq::new(missing as nat, |i: int| ' ');
    let mut i: usize = 0;
    assert(line@ =~= start + blanks.take(0));
    while i < missing
        invariant
            i <= missing,
            blanks == Seq::new(missing as nat, |i: int| ' '),
            line@ == start + blanks.take(i as int),
        decreases missing - i,
    {
        line.push(' ');
        assert(line@ =~= start + blanks.take(i + 1));
        i = i + 1;
    }
    assert(blanks.take(i as int) =~= blanks);
    line.append(number.as_str());
    assert(line@ =~= start + blank_padded(number@, 5));
    line.append("° (");
    line.append(cardinal_for_bearing(bearing));
    line.append(")");
    line
}

/// The sixteen points of the compass, clockwise from north.
pub open spec fn points() -> Seq<Seq<char>> {
    seq![
        "N"@,
        "NNE"@,
        "NE"@,
        "ENE"@,
        "E"@,
        "ESE"@,
        "SE"@,
        "SSE"@,
        "S"@,
        "SSW"@,
        "SW"@,
        "WSW"@,
        "W"@,
        "WNW"@,
        "NW"@,
        "NNW"@,
    ]
}

/// A bearing is called by the point of the compass that it lies next to: no more than half of the way
/// to its neighbours, whole turns aside.
pub proof fn lemma_bearings_are_called_by_the_nearest_point(bearing: i64, name: &'static str)
    requires
        call_ensures(cardinal_for_bearing, (bearing,), name),
    ensures
        exists|k: int, turns: int|
            {
                &&& 0 <= k < 16
                &&& name@ == #[trigger] points()[k]
                &&& -11_250_000 <= bearing - (k * 22_500_000 + #[trigger] whole_turns(turns))
                    < 11_250_000
            },
{
    let steps = (bearing + 11_250_000) / 22_500_000;
    let k = steps % 16;
    let turns = steps / 16;
    assert(steps == 16 * turns + k);
    assert(whole_turns(turns) == turns * 360_000_000);
    assert(k == cardinal_index(bearing as int));
    let i = k as u64;
    assert(name@ == cardinal_name(i));
    assert(points()[k] == name@) by {
        if i == 0 {
        } else if i == 1 {
        } else if i == 2 {
        } else if i == 3 {
        } else if i == 4 {
        } else if i == 5 {
        } else if i == 6 {
        } else if i == 7 {
        } else if i == 8 {
        } else if i == 9 {
        } else if i == 10 {
        } else if i == 11 {
        } else if i == 12 {
        } else if i == 13 {
        } else if i == 14 {
        } else {
            assert(i == 15);
        }
    }
}

/// A number of whole turns, in millionths of a degree.
pub open spec fn whole_turns(turns: int) -> int {
    turns * 360_000_000
}

/// A bearing is the angle that it is of, as a part of a turn.
pub proof fn lemma_bearings_lie_within_a_turn(angle: i64, bearing: i64)
    requires
        -360_000_000 <= 2 * angle <= 360_000_000,
        call_ensures(bearing_of, (Some(angle),), bearing),
    ensures
        0 <= bearing < 360_000_000,
        bearing == angle || bearing == angle + 360_000_000,
{
}

/// The buttons of the compass are a quarter of a turn apart, clockwise from north.
pub proof fn lemma_buttons_are_a_quarter_apart(n: u32, e: u32, s: u32, w: u32)
    requires
        call_ensures(Cardinal::bearing, (Cardinal::North,), n),
        call_ensures(Cardinal::bearing, (Cardinal::East,), e),
        call_ensures(Cardinal::bearing, (Cardinal::South,), s),
        call_ensures(Cardinal::bearing, (Cardinal::West,), w),
    ensures
        n == 0,
        e == n + 90,
        s == e + 90,
        w == s + 90,
{
}

} // verus!
