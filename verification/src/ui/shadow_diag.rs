//! The panel for shadows: the state of this frame next to the last one.
//!
//! Lengths are in billionths of a metre, and parts of a whole in billionths.

use vstd::prelude::*;
use vstd::string::*;
use crate::decimal::{push_signed, signed, vector_text, Scientific, Vector};
use crate::locomotion::{root, square_root};
use crate::ui::table::{metres, metres_text, says, scientific_text, vector_line, Row};

verus! {

/// The least size of a tile of noise: a metre.
pub const LEAST_TILE: i64 = 1_000_000_000;

/// All of a tile.
pub const TILE_PARTS: u64 = 1_000_000_000;

/// The size of a tile that counts: no less than a metre.
pub open spec fn tile_size(tile: i64) -> int {
    if tile < LEAST_TILE {
        LEAST_TILE as int
    } else {
        tile as int
    }
}

/// How far a coordinate lies within its tile, from nothing up to all of it.
pub open spec fn tile_part(coordinate: int, tile: i64) -> int {
    (coordinate % tile_size(tile)) * TILE_PARTS / tile_size(tile)
}

/// How far a coordinate lies within its tile.
fn offset_in_tile(coordinate: i64, tile: i64) -> (part: i64)
    ensures
        part == tile_part(coordinate as int, tile),
        0 <= part < TILE_PARTS,
{
    let size: u64 = if tile < LEAST_TILE {
        LEAST_TILE as u64
    } else {
        tile as u64
    };
    let away: u64 = if coordinate < 0 {
        (-(coordinate as i128)) as u64
    } else {
        coordinate as u64
    };
    let rest: u64 = away % size;
    let within: u64 = if coordinate >= 0 || rest == 0 {
        rest
    } else {
        size - rest
    };
    proof {
        if coordinate < 0 {
            lemma_mirrored_rest(away as int, size as int);
        }
        lemma_part_of_tile(within as int, size as int);
    }
    let part: u128 = within as u128 * TILE_PARTS as u128 / size as u128;
    part as i64
}

proof fn lemma_mirrored_rest(away: int, size: int)
    requires
        away >= 0,
        size > 0,
    ensures
        (-away) % size == if away % size == 0 {
            0
        } else {
            size - away % size
        },
{
    let q = away / size;
    let r = away % size;
    vstd::arithmetic::div_mod::lemma_fundamental_div_mod(away, size);
    if r == 0 {
        assert(-away == size * (-q)) by (nonlinear_arith)
            requires
                away == size * q,
        ;
        vstd::arithmetic::div_mod::lemma_fundamental_div_mod_converse(-away, size, -q, 0);
    } else {
        assert(-away == size * (-q - 1) + (size - r)) by (nonlinear_arith)
            requires
                away == size * q + r,
        ;
        vstd::arithmetic::div_mod::lemma_fundamental_div_mod_converse(
            -away,
            size,
            -q - 1,
            size - r,
        );
    }
}

proof fn lemma_part_of_tile(within: int, size: int)
    requires
        0 <= within < size <= u64::MAX,
    ensures
        0 <= within * TILE_PARTS / size < TILE_PARTS,
        0 <= within * TILE_PARTS <= u128::MAX,
{
    assert(0 <= within * TILE_PARTS < size * TILE_PARTS) by (nonlinear_arith)
        requires
            0 <= within < size,
            TILE_PARTS > 0,
    ;
    vstd::arithmetic::div_mod::lemma_div_pos_is_pos(within * TILE_PARTS, size);
    vstd::arithmetic::div_mod::lemma_multiply_divide_lt(
        within * TILE_PARTS,
        size,
        TILE_PARTS as int,
    );
    assert(within * TILE_PARTS <= u64::MAX * u64::MAX) by (nonlinear_arith)
        requires
            0 <= within <= u64::MAX,
            TILE_PARTS <= u64::MAX,
    ;
}

/// A tile of noise looks the same from one tile further on.
pub proof fn lemma_noise_repeats(coordinate: int, tile: i64, tiles: int)
    ensures
        tile_part(coordinate + tiles * tile_size(tile), tile) == tile_part(coordinate, tile),
{
    vstd::arithmetic::div_mod::lemma_mod_multiples_vanish(tiles, coordinate, tile_size(tile));
    assert(tiles * tile_size(tile) + coordinate == tile_size(tile) * tiles + coordinate)
        by (nonlinear_arith);
}

/// A layer of clouds.
pub struct CloudLayer {
    /// The name of its sort of cloud.
    pub kind: String,
    /// The size of a tile of its noise.
    pub noise_tile: i64,
}

/// How a layer's noise lies against the camera.
pub struct NoiseOffset {
    pub label: String,
    pub offset: Vector,
    /// The size of a tile of the noise.
    pub tile: i64,
}

/// The caption of a layer.
pub open spec fn layer_label(index: int, kind: Seq<char>) -> Seq<char> {
    "layer "@ + signed(index) + " ("@ + kind + ")"@
}

/// Whether `o` is how the noise of a layer lies against a camera at `at`.
pub open spec fn is_offset(o: NoiseOffset, index: int, layer: CloudLayer, at: Vector) -> bool {
    &&& o.label@ == layer_label(index, layer.kind@)
    &&& o.offset.x == tile_part(at.x as int, layer.noise_tile)
    &&& o.offset.y == tile_part(at.y as int, layer.noise_tile)
    &&& o.offset.z == tile_part(at.z as int, layer.noise_tile)
    &&& o.tile == layer.noise_tile
}

/// Whether an offset lies within its tile.
pub open spec fn within_tile(o: NoiseOffset) -> bool {
    &&& 0 <= o.offset.x < TILE_PARTS
    &&& 0 <= o.offset.y < TILE_PARTS
    &&& 0 <= o.offset.z < TILE_PARTS
}

/// How the noise of each layer lies against a camera at `at`.
pub fn noise_offsets(layers: &Vec<CloudLayer>, at: Vector) -> (offsets: Vec<NoiseOffset>)
    requires
        layers@.len() <= i64::MAX,
    ensures
        offsets@.len() == layers@.len(),
        forall|i: int|
            0 <= i < layers@.len() ==> is_offset(#[trigger] offsets@[i], i, layers@[i], at)
                && within_tile(offsets@[i]),
{
    let mut offsets: Vec<NoiseOffset> = Vec::new();
    let mut i: usize = 0;
    while i < layers.len()
        invariant
            i <= layers@.len() <= i64::MAX,
            offsets@.len() == i,
            forall|j: int|
                0 <= j < i ==> is_offset(#[trigger] offsets@[j], j, layers@[j], at) && within_tile(
                    offsets@[j],
                ),
        decreases layers@.len() - i,
    {
        let tile: i64 = layers[i].noise_tile;
        let mut label = "layer ".to_owned();
        push_signed(&mut label, i as i64);
        label.append(" (");
        label.append(layers[i].kind.as_str());
        label.append(")");
        let offset = Vector {
            x: offset_in_tile(at.x, tile),
            y: offset_in_tile(at.y, tile),
            z: offset_in_tile(at.z, tile),
        };
        offsets.push(NoiseOffset { label, offset, tile });
        i = i + 1;
    }
    offsets
}

/// What is measured of the camera in a frame.
#[derive(Clone, Copy, Debug, PartialEq, Eq, Structural)]
pub struct CameraMeasures {
    /// Where the camera is.
    pub cam_ecef: Vector,
    /// Where the shaders take it to be.
    pub cam_ecef_quant: Vector,
    /// How far the camera is from the centre of the Earth.
    pub camera_radius: i64,
    pub local_up: Vector,
    /// To the right and ahead on the tangent plane.
    pub right: Vector,
    pub forward: Vector,
    /// How far off a right angle the plane is.
    pub right_dot_up: Scientific,
    pub forward_dot_up: Scientific,
}

/// The measurements of a frame.
pub struct FrameSnapshot {
    /// The number of the frame.
    pub frame: u64,
    pub camera: CameraMeasures,
    pub noise_uv_offsets: Vec<NoiseOffset>,
}

impl FrameSnapshot {
    /// Every offset lies within its tile.
    pub open spec fn well_formed(&self) -> bool {
        forall|i: int|
            0 <= i < self.noise_uv_offsets@.len() ==> within_tile(
                #[trigger] self.noise_uv_offsets@[i],
            )
    }

    /// Nothing has been measured.
    pub fn new() -> (snapshot: Self)
        ensures
            snapshot.frame == 0,
            snapshot.camera == nothing_measured(),
            snapshot.noise_uv_offsets@.len() == 0,
            snapshot.well_formed(),
    {
        let none = Vector { x: 0, y: 0, z: 0 };
        let zero = Scientific { thousandths: 0, exponent: 0 };
        FrameSnapshot {
            frame: 0,
            camera: CameraMeasures {
                cam_ecef: none,
                cam_ecef_quant: none,
                camera_radius: 0,
                local_up: none,
                right: none,
                forward: none,
                right_dot_up: zero,
                forward_dot_up: zero,
            },
            noise_uv_offsets: Vec::new(),
        }
    }
}

/// The measures of a camera before the first frame.
pub open spec fn nothing_measured() -> CameraMeasures {
    let none = Vector { x: 0, y: 0, z: 0 };
    let zero = Scientific { thousandths: 0, exponent: 0 };
    CameraMeasures {
        cam_ecef: none,
        cam_ecef_quant: none,
        camera_radius: 0,
        local_up: none,
        right: none,
        forward: none,
        right_dot_up: zero,
        forward_dot_up: zero,
    }
}

/// The measurements of this frame and the last one.
pub struct ShadowDiagnostics {
    pub current: FrameSnapshot,
    pub previous: FrameSnapshot,
    /// The number of frames measured.
    pub frame_count: u64,
}

impl ShadowDiagnostics {
    /// Every offset of either frame lies within its tile.
    pub open spec fn well_formed(&self) -> bool {
        self.current.well_formed() && self.previous.well_formed()
    }

    /// No frame has been measured.
    pub fn new() -> (diagnostics: Self)
        ensures
            diagnostics.well_formed(),
            diagnostics.frame_count == 0,
            diagnostics.current.frame == 0,
            diagnostics.current.camera == nothing_measured(),
            diagnostics.current.noise_uv_offsets@.len() == 0,
            diagnostics.previous.frame == 0,
            diagnostics.previous.camera == nothing_measured(),
            diagnostics.previous.noise_uv_offsets@.len() == 0,
    {
        ShadowDiagnostics {
            current: FrameSnapshot::new(),
            previous: FrameSnapshot::new(),
            frame_count: 0,
        }
    }

    /// Takes in the measurements of a frame.
    pub fn update(&mut self, camera: CameraMeasures, layers: &Vec<CloudLayer>)
        requires
            old(self).well_formed(),
            old(self).frame_count < u64::MAX,
            layers@.len() <= i64::MAX,
        ensures
            final(self).well_formed(),
            final(self).previous == old(self).current,
            final(self).current.frame == old(self).frame_count,
            final(self).current.camera == camera,
            final(self).current.noise_uv_offsets@.len() == layers@.len(),
            forall|i: int|
                0 <= i < layers@.len() ==> is_offset(
                    #[trigger] final(self).current.noise_uv_offsets@[i],
                    i,
                    layers@[i],
                    camera.cam_ecef_quant,
                ),
            final(self).frame_count == old(self).frame_count + 1,
    {
        let noise_uv_offsets = noise_offsets(layers, camera.cam_ecef_quant);
        let mut snapshot = FrameSnapshot { frame: self.frame_count, camera, noise_uv_offsets };
        std::mem::swap(&mut self.current, &mut snapshot);
        self.previous = snapshot;
        self.frame_count = self.frame_count + 1;
    }
}

/// The farthest from the centre of the Earth, on each axis, that the panel can tell.
pub const FARTHEST: i64 = 2_000_000_000_000_000_000;

/// Whether the panel can tell of a place.
pub open spec fn within_reach(v: Vector) -> bool {
    &&& -FARTHEST <= v.x <= FARTHEST
    &&& -FARTHEST <= v.y <= FARTHEST
    &&& -FARTHEST <= v.z <= FARTHEST
}

/// How long a vector is, rounded down.
pub open spec fn length(x: int, y: int, z: int) -> int {
    root(x * x + y * y + z * z)
}

/// The square of a number that is no farther from nothing than twice [`FARTHEST`].
fn squared(n: i64) -> (square: u128)
    requires
        -2 * FARTHEST <= n <= 2 * FARTHEST,
    ensures
        square == n * n,
        square <= 16_000_000_000_000_000_000_000_000_000_000_000_000,
{
    let size: u128 = if n < 0 {
        (-n) as u128
    } else {
        n as u128
    };
    assert(size * size == n * n && size * size
        <= 16_000_000_000_000_000_000_000_000_000_000_000_000) by (nonlinear_arith)
        requires
            0 <= size <= 4_000_000_000_000_000_000,
            size == n || size == -n,
    ;
    size * size
}

/// How long a vector is, rounded down.
fn length_of(x: i64, y: i64, z: i64) -> (long: i64)
    requires
        -2 * FARTHEST <= x <= 2 * FARTHEST,
        -2 * FARTHEST <= y <= 2 * FARTHEST,
        -2 * FARTHEST <= z <= 2 * FARTHEST,
    ensures
        long == length(x as int, y as int, z as int),
        long >= 0,
{
    let n: u128 = squared(x) + squared(y) + squared(z);
    let r: u64 = square_root(n);
    assert(r <= 7_000_000_000_000_000_000) by (nonlinear_arith)
        requires
            r * r <= n,
            n <= 48_000_000_000_000_000_000_000_000_000_000_000_000,
    ;
    r as i64
}

impl ShadowDiagnostics {
    /// The line that names the frame.
    pub fn frame_label(&self) -> (line: String)
        requires
            self.current.frame <= i64::MAX,
        ensures
            line@ == "Frame: "@ + signed(self.current.frame as int),
    {
        let mut line = "Frame: ".to_owned();
        push_signed(&mut line, self.current.frame as i64);
        line
    }

    /// The table of the camera: where it is and how far that is from where the shaders take it to
    /// be, how far it moved in this frame, and how high it is above a sphere of `earth_radius`.
    pub fn camera_rows(&self, earth_radius: i64) -> (rows: Vec<Row>)
        requires
            within_reach(self.current.camera.cam_ecef),
            within_reach(self.current.camera.cam_ecef_quant),
            within_reach(self.previous.camera.cam_ecef),
            0 <= earth_radius,
        ensures
            rows@.len() == 8,
            ({
                let now = self.current.camera.cam_ecef;
                let taken = self.current.camera.cam_ecef_quant;
                let before = self.previous.camera.cam_ecef;
                &&& says(rows@[0], "cam_ecef (f64)"@, now.text(3) + " m"@)
                &&& says(rows@[1], "cam_ecef (f32 quant)"@, taken.text(3) + " m"@)
                &&& says(
                    rows@[2],
                    "  quantisation error"@,
                    metres(length(now.x - taken.x, now.y - taken.y, now.z - taken.z), 4),
                )
                &&& says(
                    rows@[3],
                    "Δcam_ecef (this frame)"@,
                    vector_text(now.x - before.x, now.y - before.y, now.z - before.z, 5) + " m"@,
                )
                &&& says(
                    rows@[4],
                    "  |Δ|"@,
                    metres(length(now.x - before.x, now.y - before.y, now.z - before.z), 5),
                )
                &&& says(
                    rows@[5],
                    "camera_radius"@,
                    metres(self.current.camera.camera_radius as int, 3),
                )
                &&& says(
                    rows@[6],
                    "altitude"@,
                    metres(length(now.x as int, now.y as int, now.z as int) - earth_radius, 3),
                )
                &&& says(rows@[7], "local_up"@, self.current.camera.local_up.text(6))
            }),
    {
        let now = self.current.camera.cam_ecef;
        let taken = self.current.camera.cam_ecef_quant;
        let before = self.previous.camera.cam_ecef;
        let moved = Vector { x: now.x - before.x, y: now.y - before.y, z: now.z - before.z };
        let error: i64 = length_of(now.x - taken.x, now.y - taken.y, now.z - taken.z);
        let distance: i64 = length_of(moved.x, moved.y, moved.z);
        let altitude: i64 = length_of(now.x, now.y, now.z) - earth_radius;
        let mut rows: Vec<Row> = Vec::new();
        rows.push(Row { label: "cam_ecef (f64)", value: vector_line(now, 3, " m") });
        rows.push(Row { label: "cam_ecef (f32 quant)", value: vector_line(taken, 3, " m") });
        rows.push(Row { label: "  quantisation error", value: metres_text(error, 4) });
        rows.push(Row { label: "Δcam_ecef (this frame)", value: vector_line(moved, 5, " m") });
        rows.push(Row { label: "  |Δ|", value: metres_text(distance, 5) });
        rows.push(
            Row {
                label: "camera_radius",
                value: metres_text(self.current.camera.camera_radius, 3),
            },
        );
        rows.push(Row { label: "altitude", value: metres_text(altitude, 3) });
        rows.push(
            Row { label: "local_up", value: vector_line(self.current.camera.local_up, 6, "") },
        );
        proof {
            reveal_strlit("");
            assert(self.current.camera.local_up.text(6) + ""@
                =~= self.current.camera.local_up.text(6));
        }
        rows
    }

    /// The table of the tangent plane.
    pub fn basis_rows(&self) -> (rows: Vec<Row>)
        ensures
            rows@.len() == 5,
            says(rows@[0], "right"@, self.current.camera.right.text(6)),
            says(rows@[1], "forward"@, self.current.camera.forward.text(6)),
            says(
                rows@[2],
                "center (= cam_ecef_quant)"@,
                self.current.camera.cam_ecef_quant.text(3) + " m"@,
            ),
            says(rows@[3], "  right · up"@, self.current.camera.right_dot_up.text()),
            says(rows@[4], "  forward · up"@, self.current.camera.forward_dot_up.text()),
    {
        let camera = self.current.camera;
        proof {
            reveal_strlit("");
            assert(camera.right.text(6) + ""@ =~= camera.right.text(6));
            assert(camera.forward.text(6) + ""@ =~= camera.forward.text(6));
        }
        let mut rows: Vec<Row> = Vec::new();
        rows.push(Row { label: "right", value: vector_line(camera.right, 6, "") });
        rows.push(Row { label: "forward", value: vector_line(camera.forward, 6, "") });
        rows.push(
            Row {
                label: "center (= cam_ecef_quant)",
                value: vector_line(camera.cam_ecef_quant, 3, " m"),
            },
        );
        rows.push(Row { label: "  right · up", value: scientific_text(camera.right_dot_up) });
        rows.push(Row { label: "  forward · up", value: scientific_text(camera.forward_dot_up) });
        rows
    }

    /// The table of the noise: its header, and for each layer where the noise lies and, if the
    /// layer was there in the last frame, how far it moved since. Without layers the panel says so.
    pub fn noise_rows(&self) -> (rows: Result<Vec<NoiseRow>, &'static str>)
        requires
            self.well_formed(),
        ensures
            match rows {
                Ok(rows) => self.current.noise_uv_offsets@.len() > 0 && row_texts(rows@)
                    == noise_table(
                    self.current.noise_uv_offsets@,
                    self.previous.noise_uv_offsets@,
                ),
                Err(notice) => self.current.noise_uv_offsets@.len() == 0 && notice@
                    == "(no cloud layers)"@,
            },
    {
        let now = &self.current.noise_uv_offsets;
        let before = &self.previous.noise_uv_offsets;
        if now.len() == 0 {
            return Err("(no cloud layers)");
        }
        let mut rows: Vec<NoiseRow> = Vec::new();
        rows.push(
            NoiseRow {
                layer: "layer".to_owned(),
                offset: "offset (x, y, z)".to_owned(),
                tile: "tile".to_owned(),
            },
        );
        assert(now@.take(0) =~= seq![]);
        assert(row_texts(rows@) =~= noise_table(now@.take(0), before@));
        let mut i: usize = 0;
        while i < now.len()
            invariant
                now@ == self.current.noise_uv_offsets@,
                before@ == self.previous.noise_uv_offsets@,
                self.well_formed(),
                i <= now@.len(),
                row_texts(rows@) == noise_table(now@.take(i as int), before@),
            decreases now@.len() - i,
        {
            let ghost shown = rows@;
            let ghost more = now@.take(i + 1);
            assert(more.drop_last() =~= now@.take(i as int));
            assert(within_tile(now@[i as int]));
            let row = NoiseRow {
                layer: now[i].label.clone(),
                offset: vector_line(now[i].offset, 5, ""),
                tile: metres_text(now[i].tile, 1),
            };
            proof {
                reveal_strlit("");
                assert(row.offset@ =~= now@[i as int].offset.text(5));
            }
            rows.push(row);
            assert(row_texts(rows@) =~= row_texts(shown).push(layer_line(now@[i as int])));
            if i < before.len() {
                assert(within_tile(before@[i as int]));
                let moved = Vector {
                    x: now[i].offset.x - before[i].offset.x,
                    y: now[i].offset.y - before[i].offset.y,
                    z: now[i].offset.z - before[i].offset.z,
                };
                let row = NoiseRow {
                    layer: "  Δ this frame".to_owned(),
                    offset: vector_line(moved, 6, ""),
                    tile: "".to_owned(),
                };
                proof {
                    assert(row.offset@ =~= moved.text(6));
                    assert(row.tile@ =~= Seq::<char>::empty());
                }
                rows.push(row);
                assert(row_texts(rows@) =~= row_texts(shown).push(layer_line(now@[i as int])).push(
                    moved_line(now@[i as int].offset, before@[i as int].offset),
                ));
            }
            i = i + 1;
        }
        assert(now@.take(i as int) =~= now@);
        Ok(rows)
    }
}

/// A line of the table of the noise.
pub struct NoiseRow {
    pub layer: String,
    pub offset: String,
    pub tile: String,
}

/// The texts of the lines.
pub open spec fn row_texts(rows: Seq<NoiseRow>) -> Seq<(Seq<char>, Seq<char>, Seq<char>)> {
    rows.map_values(|row: NoiseRow| (row.layer@, row.offset@, row.tile@))
}

/// The line of a layer.
pub open spec fn layer_line(o: NoiseOffset) -> (Seq<char>, Seq<char>, Seq<char>) {
    (o.label@, o.offset.text(5), metres(o.tile as int, 1))
}

/// The line below a layer: how far its noise moved.
pub open spec fn moved_line(now: Vector, before: Vector) -> (Seq<char>, Seq<char>, Seq<char>) {
    (
        "  Δ this frame"@,
        vector_text(now.x - before.x, now.y - before.y, now.z - before.z, 6),
        Seq::empty(),
    )
}

/// The table of the noise.
pub open spec fn noise_table(now: Seq<NoiseOffset>, before: Seq<NoiseOffset>) -> Seq<
    (Seq<char>, Seq<char>, Seq<char>),
>
    decreases now.len(),
{
    if now.len() == 0 {
        seq![("layer"@, "offset (x, y, z)"@, "tile"@)]
    } else {
        let i = now.len() - 1;
        let above = noise_table(now.drop_last(), before).push(layer_line(now[i]));
        if i < before.len() {
            above.push(moved_line(now[i].offset, before[i].offset))
        } else {
            above
        }
    }
}

/// Where the noise lies against the camera is told as a part of a tile, from nothing up to all of it:
/// the place of the camera, whole tiles aside.
pub proof fn lemma_noise_lies_within_its_tile(
    layers: Vec<CloudLayer>,
    at: Vector,
    offsets: Vec<NoiseOffset>,
    i: int,
)
    requires
        layers@.len() <= i64::MAX,
        call_ensures(noise_offsets, (&layers, at), offsets),
        0 <= i < layers@.len(),
    ensures
        offsets@.len() == layers@.len(),
        offsets@[i].tile == layers@[i].noise_tile,
        lies_within(at.x as int, layers@[i].noise_tile, offsets@[i].offset.x as int),
        lies_within(at.y as int, layers@[i].noise_tile, offsets@[i].offset.y as int),
        lies_within(at.z as int, layers@[i].noise_tile, offsets@[i].offset.z as int),
{
    assert(is_offset(offsets@[i], i, layers@[i], at));
    lemma_lies_within(at.x as int, layers@[i].noise_tile);
    lemma_lies_within(at.y as int, layers@[i].noise_tile);
    lemma_lies_within(at.z as int, layers@[i].noise_tile);
}

/// Whether `part` is how far a coordinate lies in its tile; a tile counts as no less than a metre.
pub open spec fn lies_within(coordinate: int, tile: i64, part: int) -> bool {
    if tile < 1_000_000_000 {
        splits_into(coordinate, 1_000_000_000, part)
    } else {
        splits_into(coordinate, tile as int, part)
    }
}

/// Whether a coordinate is a number of whole tiles and a rest, of which `part` is the part of a tile
/// up to rounding.
pub open spec fn splits_into(coordinate: int, size: int, part: int) -> bool {
    exists|tiles: int, rest: int|
        {
            &&& coordinate == #[trigger] tiles_and_rest(size, tiles, rest)
            &&& 0 <= rest < size
            &&& part * size <= rest * 1_000_000_000 < (part + 1) * size
        }
}

/// A number of whole tiles and a rest.
pub open spec fn tiles_and_rest(size: int, tiles: int, rest: int) -> int {
    size * tiles + rest
}

proof fn lemma_lies_within(coordinate: int, tile: i64)
    ensures
        lies_within(coordinate, tile, tile_part(coordinate, tile)),
{
    let size = tile_size(tile);
    let rest = coordinate % size;
    vstd::arithmetic::div_mod::lemma_fundamental_div_mod(coordinate, size);
    crate::blend::lemma_quotient(rest * TILE_PARTS, size);
    assert(coordinate == tiles_and_rest(size, coordinate / size, rest));
}

/// With each frame the measurements of this frame become those of the last one, and frames are
/// counted.
pub proof fn lemma_frames_follow_each_other(
    diagnostics: &mut ShadowDiagnostics,
    camera: CameraMeasures,
    layers: Vec<CloudLayer>,
)
    requires
        call_ensures(ShadowDiagnostics::update, (diagnostics, camera, &layers), ()),
    ensures
        final(diagnostics).previous == old(diagnostics).current,
        final(diagnostics).current.camera == camera,
        final(diagnostics).current.frame == old(diagnostics).frame_count,
        final(diagnostics).frame_count == old(diagnostics).frame_count + 1,
        final(diagnostics).current.noise_uv_offsets@.len() == layers@.len(),
{
}

} // verus!
