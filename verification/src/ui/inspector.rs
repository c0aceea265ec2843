//! The panel that inspects a pixel of the clouds.
//!
//! Places on the screen are in billionths of a pixel, or of the screen's size. Lengths are in
//! billionths of a metre.

use vstd::prelude::*;
use vstd::string::*;
use crate::decimal::{fixed, push_fixed, signed, Scientific, Vector};
use crate::ui::table::{
    fixed_text,
    metres,
    metres_text,
    says,
    scientific_text,
    vector_line,
    whole_text,
    Row,
};

verus! {

/// A whole: all of the screen, or a pixel.
pub const ONE: u64 = 1_000_000_000;

/// The middle of the screen.
pub const HALF: u64 = 500_000_000;

/// The pixel under inspection.
#[derive(Clone, Copy, Debug, PartialEq, Eq, Structural)]
pub struct InspectCursor {
    /// How far along the width and the height of the screen it is.
    pub x: u64,
    pub y: u64,
    /// There is a pixel to inspect.
    pub active: bool,
    /// The cursor stays at the centre of the screen.
    pub lock_to_centre: bool,
}

/// A window and the pointer within it.
#[derive(Clone, Copy, Debug, PartialEq, Eq, Structural)]
pub struct Pointer {
    pub width: u64,
    pub height: u64,
    pub x: u64,
    pub y: u64,
}

/// How far along a side of the screen a place is; a side counts as one pixel at least.
pub open spec fn along(place: u64, side: u64) -> int {
    place * ONE / (if side < ONE {
        ONE as int
    } else {
        side as int
    })
}

fn part_along(place: u64, side: u64) -> (part: u64)
    ensures
        part == along(place, side),
{
    let whole: u64 = if side < ONE {
        ONE
    } else {
        side
    };
    assert(place * ONE <= u64::MAX * u64::MAX) by (nonlinear_arith)
        requires
            0 <= place <= u64::MAX,
            0 <= ONE <= u64::MAX,
    ;
    proof {
        lemma_part_is_small(place as int, whole as int);
    }
    (place as u128 * ONE as u128 / whole as u128) as u64
}

proof fn lemma_part_is_small(place: int, whole: int)
    requires
        0 <= place,
        ONE <= whole,
    ensures
        0 <= place * ONE / whole <= place,
{
    assert(place * ONE <= place * whole) by (nonlinear_arith)
        requires
            0 <= place,
            ONE <= whole,
    ;
    assert(0 <= place * ONE) by (nonlinear_arith)
        requires
            0 <= place,
    ;
    vstd::arithmetic::div_mod::lemma_div_is_ordered(place * ONE, place * whole, whole);
    vstd::arithmetic::div_mod::lemma_div_by_multiple(place, whole);
    vstd::arithmetic::div_mod::lemma_div_pos_is_pos(place * ONE, whole);
}

impl InspectCursor {
    /// Follows the mouse. A locked cursor stays at the centre; without a window or a pointer, and
    /// while the pointer is over a panel, there is nothing to inspect.
    pub fn follow(&mut self, pointer: Option<Pointer>, over_panel: bool)
        ensures
            final(self).lock_to_centre == old(self).lock_to_centre,
            final(self).active == (old(self).lock_to_centre || (pointer is Some && !over_panel)),
            final(self).x == if old(self).lock_to_centre {
                HALF as int
            } else {
                match pointer {
                    Some(p) => along(p.x, p.width),
                    None => old(self).x as int,
                }
            },
            final(self).y == if old(self).lock_to_centre {
                HALF as int
            } else {
                match pointer {
                    Some(p) => along(p.y, p.height),
                    None => old(self).y as int,
                }
            },
    {
        if self.lock_to_centre {
            self.x = HALF;
            self.y = HALF;
            self.active = true;
            return;
        }
        match pointer {
            Some(p) => {
                self.x = part_along(p.x, p.width);
                self.y = part_along(p.y, p.height);
                self.active = !over_panel;
            },
            None => {
                self.active = false;
            },
        }
    }

    /// What the panel says about the cursor.
    pub fn label(&self) -> (line: String)
        requires
            self.x <= i64::MAX,
            self.y <= i64::MAX,
        ensures
            line@ == "Cursor UV: ("@ + fixed(self.x as int, 3) + ", "@ + fixed(self.y as int, 3)
                + ") — "@ + if self.active {
                "active"@
            } else {
                "off-cloud"@
            },
    {
        let mut line = "Cursor UV: (".to_owned();
        push_fixed(&mut line, self.x as i64, 3);
        line.append(", ");
        push_fixed(&mut line, self.y as i64, 3);
        line.append(") — ");
        if self.active {
            line.append("active");
        } else {
            line.append("off-cloud");
        }
        line
    }
}

/// What a ray through a pixel met.
#[derive(Clone, Copy, Debug, PartialEq, Eq, Structural)]
pub struct InspectData {
    pub cam_proj: i64,
    /// Where the ray enters and leaves the clouds.
    pub t_start: i64,
    pub t_end: i64,
    pub chord_length: i64,
    /// The steps along the ray.
    pub k_first: i32,
    pub k_last: i32,
    pub max_iter: i32,
    pub iter_count: i32,
    pub transmittance: i64,
    pub opacity: i64,
    /// Where it first meets cloud, and how dense that is.
    pub first_hit_t: i64,
    pub first_hit_density: Scientific,
    pub first_hit_pos: Vector,
}

/// Whether `rows` is the table of what a ray met.
pub open spec fn inspect_table(data: InspectData, rows: Seq<Row>) -> bool {
    &&& rows.len() == 13
    &&& says(rows[0], "cam_proj"@, metres(data.cam_proj as int, 2))
    &&& says(rows[1], "t_start"@, metres(data.t_start as int, 2))
    &&& says(rows[2], "t_end"@, metres(data.t_end as int, 2))
    &&& says(rows[3], "chord_length"@, metres(data.chord_length as int, 2))
    &&& says(rows[4], "k_first"@, signed(data.k_first as int))
    &&& says(rows[5], "k_last"@, signed(data.k_last as int))
    &&& says(rows[6], "max_iter"@, signed(data.max_iter as int))
    &&& says(rows[7], "iter_count"@, signed(data.iter_count as int))
    &&& says(rows[8], "transmittance"@, fixed(data.transmittance as int, 4))
    &&& says(rows[9], "opacity"@, fixed(data.opacity as int, 4))
    &&& says(rows[10], "first_hit_t"@, metres(data.first_hit_t as int, 2))
    &&& says(rows[11], "first_hit_density"@, data.first_hit_density.text() + " m⁻¹"@)
    &&& says(rows[12], "first_hit_pos"@, data.first_hit_pos.text(0))
}

/// The table of what a ray met.
pub fn inspect_rows(data: &InspectData) -> (rows: Vec<Row>)
    ensures
        inspect_table(*data, rows@),
{
    let mut density = scientific_text(data.first_hit_density);
    density.append(" m⁻¹");
    let place = vector_line(data.first_hit_pos, 0, "");
    proof {
        reveal_strlit("");
        assert(place@ =~= data.first_hit_pos.text(0));
    }
    let mut rows: Vec<Row> = Vec::new();
    rows.push(Row { label: "cam_proj", value: metres_text(data.cam_proj, 2) });
    rows.push(Row { label: "t_start", value: metres_text(data.t_start, 2) });
    rows.push(Row { label: "t_end", value: metres_text(data.t_end, 2) });
    rows.push(Row { label: "chord_length", value: metres_text(data.chord_length, 2) });
    rows.push(Row { label: "k_first", value: whole_text(data.k_first as i64) });
    rows.push(Row { label: "k_last", value: whole_text(data.k_last as i64) });
    rows.push(Row { label: "max_iter", value: whole_text(data.max_iter as i64) });
    rows.push(Row { label: "iter_count", value: whole_text(data.iter_count as i64) });
    rows.push(Row { label: "transmittance", value: fixed_text(data.transmittance, 4) });
    rows.push(Row { label: "opacity", value: fixed_text(data.opacity, 4) });
    rows.push(Row { label: "first_hit_t", value: metres_text(data.first_hit_t, 2) });
    rows.push(Row { label: "first_hit_density", value: density });
    rows.push(Row { label: "first_hit_pos", value: place });
    rows
}

/// The table of the last reading, or what the panel says before the first.
pub fn inspect_page(latest: &Option<InspectData>) -> (page: Result<Vec<Row>, &'static str>)
    ensures
        match (*latest, page) {
            (Some(data), Ok(rows)) => inspect_table(data, rows@),
            (None, Err(notice)) => notice@
                == "No inspect data yet (waiting for first GPU readback)."@,
            _ => false,
        },
{
    match latest {
        Some(data) => Ok(inspect_rows(data)),
        None => Err("No inspect data yet (waiting for first GPU readback)."),
    }
}

/// A locked cursor stays at the centre. A free one lies along the sides of the window as the pointer
/// does, and inspects something as long as the pointer is there and over no panel.
pub proof fn lemma_cursors_follow_the_pointer(
    cursor: &mut InspectCursor,
    pointer: Option<Pointer>,
    over_panel: bool,
)
    requires
        call_ensures(InspectCursor::follow, (cursor, pointer, over_panel), ()),
    ensures
        old(cursor).lock_to_centre ==> final(cursor).x == 500_000_000 && final(cursor).y
            == 500_000_000 && final(cursor).active,
        !old(cursor).lock_to_centre ==> (final(cursor).active <==> pointer is Some && !over_panel),
        !old(cursor).lock_to_centre && pointer is None ==> final(cursor).x == old(cursor).x
            && final(cursor).y == old(cursor).y,
        !old(cursor).lock_to_centre ==> (pointer matches Some(p) ==> {
            &&& p.width >= 1_000_000_000 ==> final(cursor).x * p.width <= p.x * 1_000_000_000 < (
            final(cursor).x + 1) * p.width
            &&& p.height >= 1_000_000_000 ==> final(cursor).y * p.height <= p.y * 1_000_000_000 < (
            final(cursor).y + 1) * p.height
            &&& p.width < 1_000_000_000 ==> final(cursor).x == p.x
            &&& p.height < 1_000_000_000 ==> final(cursor).y == p.y
        }),
        final(cursor).lock_to_centre == old(cursor).lock_to_centre,
{
    if pointer is Some {
        let p = pointer->0;
        vstd::arithmetic::div_mod::lemma_div_by_multiple(p.x as int, ONE as int);
        vstd::arithmetic::div_mod::lemma_div_by_multiple(p.y as int, ONE as int);
        if p.width >= ONE {
            crate::blend::lemma_quotient(p.x * ONE, p.width as int);
        }
        if p.height >= ONE {
            crate::blend::lemma_quotient(p.y * ONE, p.height as int);
        }
    }
}

} // verus!
