//! The profiler panel.

use vstd::prelude::*;
use vstd::string::*;
use crate::decimal::{push_signed, push_thousandths, signed, thousandths};
use crate::path_map::PathMap;
use crate::text;

verus! {

/// The pages of the profiler panel.
#[derive(Clone, Copy, Debug, PartialEq, Eq, Structural)]
pub enum ProfilerSubTab {
    /// Systems of the main schedule.
    Logic,
    /// Passes of the render graph.
    Render,
}

impl ProfilerSubTab {
    /// The page's caption.
    pub fn label(self) -> (caption: &'static str)
        ensures
            caption@ == match self {
                ProfilerSubTab::Logic => "Logic"@,
                ProfilerSubTab::Render => "Render"@,
            },
    {
        match self {
            ProfilerSubTab::Logic => "Logic",
            ProfilerSubTab::Render => "Render",
        }
    }
}

/// The last segment of a system's path: what stands behind the last `::`.
pub fn short_system_name(full: &str) -> (name: String)
    ensures
        name@ == text::after_last(full@, "::"@),
{
    text::rest_after_last(full, "::").to_owned()
}

/// A diagnostic of the renderer. Times are in nanoseconds.
pub struct Diagnostic {
    pub path: String,
    /// The smoothed value, if there is one yet.
    pub value: Option<u64>,
}

/// A pass of the render graph.
pub struct PassRow {
    pub name: String,
    /// The time on the graphics card.
    pub gpu: Option<u64>,
    /// The time on the processor.
    pub cpu: Option<u64>,
}

/// The pass and the field that a path of the renderer names: what lies before and behind the last
/// slash, after the leading `render/`.
pub open spec fn pass_and_field(path: Seq<char>) -> Option<(Seq<char>, Seq<char>)> {
    let rest = path.skip("render/"@.len() as int);
    let at = text::last_occurrence(rest, "/"@, rest.len() as int);
    if text::starts_with(path, "render/"@) && at >= 0 {
        Some((rest.take(at), rest.skip(at + "/"@.len())))
    } else {
        None
    }
}

/// The times of a pass with a value in one of its fields.
pub open spec fn noted(
    times: (Option<u64>, Option<u64>),
    field: Seq<char>,
    value: Option<u64>,
) -> (Option<u64>, Option<u64>) {
    if field == "elapsed_gpu"@ {
        (value, times.1)
    } else if field == "elapsed_cpu"@ {
        (times.0, value)
    } else {
        times
    }
}

/// The times of each pass.
pub open spec fn pass_times(diagnostics: Seq<Diagnostic>) -> Map<
    Seq<char>,
    (Option<u64>, Option<u64>),
>
    decreases diagnostics.len(),
{
    if diagnostics.len() == 0 {
        Map::empty()
    } else {
        let before = pass_times(diagnostics.drop_last());
        match pass_and_field(diagnostics.last().path@) {
            Some((pass, field)) => {
                let times = if before.contains_key(pass) {
                    before[pass]
                } else {
                    (None, None)
                };
                before.insert(pass, noted(times, field, diagnostics.last().value))
            },
            None => before,
        }
    }
}

/// A time, nothing for one that is not there.
pub open spec fn time_or_zero(time: Option<u64>) -> u64 {
    match time {
        Some(t) => t,
        None => 0,
    }
}

/// Whether a pass stands above another: the longer time on the graphics card, then the name.
pub open spec fn stands_above(a: PassRow, b: PassRow) -> bool {
    ||| time_or_zero(a.gpu) > time_or_zero(b.gpu)
    ||| time_or_zero(a.gpu) == time_or_zero(b.gpu) && text::text_less(a.name@, b.name@)
}

/// Splits a path of the renderer into pass and field.
fn split_path(path: &str) -> (parts: Option<(String, String)>)
    ensures
        match parts {
            Some((pass, field)) => pass_and_field(path@) == Some((pass@, field@)),
            None => pass_and_field(path@) is None,
        },
{
    let rest = match text::strip_prefix(path, "render/") {
        Some(rest) => rest,
        None => {
            return None;
        },
    };
    match text::find_last(rest, "/") {
        Some(at) => {
            proof {
                text::lemma_last_occurrence(rest@, "/"@, rest@.len() as int);
            }
            let n: usize = rest.unicode_len();
            let k: usize = "/".unicode_len();
            let pass = rest.substring_char(0, at);
            let field = rest.substring_char(at + k, n);
            assert(pass@ =~= rest@.take(at as int));
            assert(field@ =~= rest@.skip(at + k));
            Some((pass.to_owned(), field.to_owned()))
        },
        None => None,
    }
}

/// Collects the times of each pass.
fn collect_passes(diagnostics: &Vec<Diagnostic>) -> (passes: PathMap<(Option<u64>, Option<u64>)>)
    ensures
        passes@ == pass_times(diagnostics@),
{
    let mut passes: PathMap<(Option<u64>, Option<u64>)> = PathMap::new();
    let mut i: usize = 0;
    assert(passes@ == pass_times(diagnostics@.take(0)));
    while i < diagnostics.len()
        invariant
            i <= diagnostics@.len(),
            passes@ == pass_times(diagnostics@.take(i as int)),
        decreases diagnostics@.len() - i,
    {
        let ghost done = diagnostics@.take(i + 1);
        assert(done.drop_last() =~= diagnostics@.take(i as int));
        assert(done.last() == diagnostics@[i as int]);
        if let Some((pass, field)) = split_path(diagnostics[i].path.as_str()) {
            let (gpu, cpu) = match passes.get(pass.as_str()) {
                Some(times) => *times,
                None => (None, None),
            };
            let value = diagnostics[i].value;
            if text::same_text(field.as_str(), "elapsed_gpu") {
                passes.insert(pass, (value, cpu));
            } else if text::same_text(field.as_str(), "elapsed_cpu") {
                passes.insert(pass, (gpu, value));
            } else {
                passes.insert(pass, (gpu, cpu));
            }
        }
        i += 1;
    }
    assert(diagnostics@.take(i as int) =~= diagnostics@);
    passes
}

proof fn lemma_above_is_transitive(a: PassRow, b: PassRow, c: PassRow)
    requires
        stands_above(a, b),
        stands_above(b, c),
    ensures
        stands_above(a, c),
{
    if time_or_zero(a.gpu) == time_or_zero(c.gpu) {
        text::lemma_less_is_transitive(a.name@, b.name@, c.name@);
    }
}

/// Whether every row stands above those below it.
pub open spec fn ranked(rows: Seq<PassRow>) -> bool {
    forall|i: int, j: int|
        0 <= i < j < rows.len() ==> stands_above(#[trigger] rows[i], #[trigger] rows[j])
}

/// Puts a row where it belongs.
fn put_row(rows: &mut Vec<PassRow>, row: PassRow)
    requires
        ranked(old(rows)@),
        forall|i: int| 0 <= i < old(rows)@.len() ==> (#[trigger] old(rows)@[i]).name@ != row.name@,
    ensures
        ranked(final(rows)@),
        exists|at: int|
            0 <= at <= old(rows)@.len() && final(rows)@ == #[trigger] old(rows)@.insert(at, row),
{
    let ghost before = rows@;
    let mut at: usize = 0;
    while at < rows.len() && above(&rows[at], &row)
        invariant
            at <= rows@.len(),
            rows@ == before,
            forall|i: int| 0 <= i < at ==> stands_above(#[trigger] before[i], row),
        decreases rows@.len() - at,
    {
        at += 1;
    }
    proof {
        assert forall|j: int| at <= j < before.len() implies stands_above(
            row,
            #[trigger] before[j],
        ) by {
            text::lemma_less_is_total(before[at as int].name@, row.name@);
            assert(stands_above(row, before[at as int]));
            if j > at {
                lemma_above_is_transitive(row, before[at as int], before[j]);
            }
        }
    }
    rows.insert(at, row);
    assert(rows@ == before.insert(at as int, row));
}

fn above(a: &PassRow, b: &PassRow) -> (yes: bool)
    ensures
        yes == stands_above(*a, *b),
{
    let left: u64 = match a.gpu {
        Some(t) => t,
        None => 0,
    };
    let right: u64 = match b.gpu {
        Some(t) => t,
        None => 0,
    };
    left > right || left == right && text::less(a.name.as_str(), b.name.as_str())
}

/// Whether `rows` has one row for each pass that the renderer measured, the longest time on the
/// graphics card first and equal times by name.
pub open spec fn tables(rows: Seq<PassRow>, diagnostics: Seq<Diagnostic>) -> bool {
    &&& ranked(rows)
    &&& forall|i: int|
        0 <= i < rows.len() ==> {
            &&& pass_times(diagnostics).contains_key((#[trigger] rows[i]).name@)
            &&& pass_times(diagnostics)[rows[i].name@] == (rows[i].gpu, rows[i].cpu)
        }
    &&& forall|pass: Seq<char>| #[trigger]
        pass_times(diagnostics).contains_key(pass) ==> exists|i: int|
            0 <= i < rows.len() && (#[trigger] rows[i]).name@ == pass
}

/// The table of the render passes: one row for each pass, the longest time on the graphics card
/// first and equal times by name.
pub fn render_passes(diagnostics: &Vec<Diagnostic>) -> (rows: Vec<PassRow>)
    ensures
        tables(rows@, diagnostics@),
{
    let passes = collect_passes(diagnostics);
    let mut rows: Vec<PassRow> = Vec::new();
    let n: usize = passes.len();
    let ghost keys = passes.keys();
    let mut k: usize = 0;
    while k < n
        invariant
            k <= n,
            n == keys.len(),
            keys == passes.keys(),
            passes.listed(),
            ranked(rows@),
            forall|i: int|
                0 <= i < rows@.len() ==> {
                    &&& passes@.contains_key((#[trigger] rows@[i]).name@)
                    &&& passes@[rows@[i].name@] == (rows@[i].gpu, rows@[i].cpu)
                    &&& keys.take(k as int).contains(rows@[i].name@)
                },
            forall|j: int|
                0 <= j < k ==> exists|i: int|
                    0 <= i < rows@.len() && (#[trigger] rows@[i]).name@ == #[trigger] keys[j],
        decreases n - k,
    {
        let name = passes.key_at(k).clone();
        let (gpu, cpu) = *passes.value_at(k);
        let ghost before = rows@;
        let row = PassRow { name, gpu, cpu };
        let ghost added = row;
        proof {
            assert forall|i: int| 0 <= i < before.len() implies (#[trigger] before[i]).name@
                != added.name@ by {
                let j = keys.take(k as int).index_of(before[i].name@);
                assert(keys[j] == before[i].name@);
            }
        }
        put_row(&mut rows, row);
        proof {
            let at = choose|at: int|
                0 <= at <= before.len() && rows@ == #[trigger] before.insert(at, added);
            assert(rows@[at] == added);
            assert(keys.take(k + 1)[k as int] == keys[k as int]);
            assert forall|i: int| 0 <= i < rows@.len() implies keys.take(k + 1).contains(
                (#[trigger] rows@[i]).name@,
            ) && passes@.contains_key(rows@[i].name@) && passes@[rows@[i].name@] == (
                rows@[i].gpu,
                rows@[i].cpu,
            ) by {
                if i != at {
                    let o = if i < at {
                        i
                    } else {
                        i - 1
                    };
                    assert(rows@[i] == before[o]);
                    let j = keys.take(k as int).index_of(before[o].name@);
                    assert(keys.take(k + 1)[j] == before[o].name@);
                }
            }
            assert forall|j: int| 0 <= j < k + 1 implies exists|i: int|
                0 <= i < rows@.len() && (#[trigger] rows@[i]).name@ == #[trigger] keys[j] by {
                if j < k {
                    let o = choose|o: int|
                        0 <= o < before.len() && (#[trigger] before[o]).name@ == keys[j];
                    let i = if o < at {
                        o
                    } else {
                        o + 1
                    };
                    assert(rows@[i] == before[o]);
                }
            }
        }
        k += 1;
    }
    proof {
        assert forall|pass: Seq<char>| #[trigger] passes@.contains_key(pass) implies exists|i: int|
            0 <= i < rows@.len() && (#[trigger] rows@[i]).name@ == pass by {
            assert(keys.to_set().contains(pass));
            let j = keys.index_of(pass);
            assert(keys[j] == pass);
        }
    }
    rows
}

/// A sum of times.
pub open spec fn sum(times: Seq<Option<u64>>) -> int
    decreases times.len(),
{
    if times.len() == 0 {
        0
    } else {
        sum(times.drop_last()) + time_or_zero(times.last())
    }
}

/// The total times on the graphics card and on the processor.
pub fn totals(rows: &Vec<PassRow>) -> (total: (u128, u128))
    ensures
        total.0 == sum(rows@.map_values(|r: PassRow| r.gpu)),
        total.1 == sum(rows@.map_values(|r: PassRow| r.cpu)),
{
    let ghost gpus = rows@.map_values(|r: PassRow| r.gpu);
    let ghost cpus = rows@.map_values(|r: PassRow| r.cpu);
    let mut gpu: u128 = 0;
    let mut cpu: u128 = 0;
    let mut i: usize = 0;
    while i < rows.len()
        invariant
            i <= rows@.len(),
            gpus == rows@.map_values(|r: PassRow| r.gpu),
            cpus == rows@.map_values(|r: PassRow| r.cpu),
            gpu == sum(gpus.take(i as int)),
            cpu == sum(cpus.take(i as int)),
            gpu <= i * u64::MAX,
            cpu <= i * u64::MAX,
        decreases rows@.len() - i,
    {
        let g: u64 = match rows[i].gpu {
            Some(t) => t,
            None => 0,
        };
        let c: u64 = match rows[i].cpu {
            Some(t) => t,
            None => 0,
        };
        proof {
            assert(gpus.take(i + 1).drop_last() =~= gpus.take(i as int));
            assert(cpus.take(i + 1).drop_last() =~= cpus.take(i as int));
            assert(i * u64::MAX + u64::MAX <= u128::MAX) by (nonlinear_arith)
                requires
                    i < usize::MAX,
                    usize::MAX <= u64::MAX,
            ;
            assert((i + 1) * u64::MAX == i * u64::MAX + u64::MAX) by (nonlinear_arith);
        }
        gpu = gpu + g as u128;
        cpu = cpu + c as u128;
        i += 1;
    }
    assert(gpus.take(i as int) =~= gpus);
    assert(cpus.take(i as int) =~= cpus);
    (gpu, cpu)
}

/// A time in milliseconds.
pub open spec fn millis(nanoseconds: int) -> Seq<char> {
    thousandths(nanoseconds as nat)
}

fn millis_text(nanoseconds: u128) -> (text: String)
    ensures
        text@ == millis(nanoseconds as int),
{
    let mut text = String::new();
    push_thousandths(&mut text, nanoseconds);
    assert(text@ =~= millis(nanoseconds as int));
    text
}

/// What a table says of a time that may not have been measured.
pub open spec fn cell(time: Option<u64>) -> Seq<char> {
    match time {
        Some(t) => millis(t as int),
        None => "—"@,
    }
}

fn cell_text(time: Option<u64>) -> (text: String)
    ensures
        text@ == cell(time),
{
    match time {
        Some(t) => millis_text(t as u128),
        None => "—".to_owned(),
    }
}

/// A line of a table of three columns.
pub struct TableRow {
    pub name: String,
    pub second: String,
    pub third: String,
}

/// The texts of the lines.
pub open spec fn cells(rows: Seq<TableRow>) -> Seq<(Seq<char>, Seq<char>, Seq<char>)> {
    rows.map_values(|row: TableRow| (row.name@, row.second@, row.third@))
}

/// The line of a pass.
pub open spec fn pass_line(pass: PassRow) -> (Seq<char>, Seq<char>, Seq<char>) {
    (pass.name@, cell(pass.gpu), cell(pass.cpu))
}

/// The whole time of the passes on the graphics card.
pub open spec fn gpu_total(rows: Seq<PassRow>) -> int {
    sum(rows.map_values(|r: PassRow| r.gpu))
}

/// The whole time of the passes on the processor.
pub open spec fn cpu_total(rows: Seq<PassRow>) -> int {
    sum(rows.map_values(|r: PassRow| r.cpu))
}

/// The line above the table of the passes; without passes there is another.
pub open spec fn passes_line(rows: Seq<PassRow>) -> Seq<char> {
    if rows.len() == 0 {
        "No render diagnostics yet."@
    } else {
        "Per-pass GPU / CPU time (smoothed). Total GPU: "@ + millis(gpu_total(rows))
            + " ms, total CPU: "@ + millis(cpu_total(rows)) + " ms"@
    }
}

/// Writes the line above the table of the passes.
pub fn passes_label(rows: &Vec<PassRow>) -> (line: String)
    ensures
        line@ == passes_line(rows@),
{
    if rows.len() == 0 {
        return "No render diagnostics yet.".to_owned();
    }
    let (gpu, cpu) = totals(rows);
    let mut line = "Per-pass GPU / CPU time (smoothed). Total GPU: ".to_owned();
    push_thousandths(&mut line, gpu);
    line.append(" ms, total CPU: ");
    push_thousandths(&mut line, cpu);
    line.append(" ms");
    line
}

/// The lines of the table of the passes: its header, a line for each pass, and the totals.
pub open spec fn pass_lines(rows: Seq<PassRow>) -> Seq<(Seq<char>, Seq<char>, Seq<char>)> {
    seq![("Pass"@, "GPU ms"@, "CPU ms"@)] + rows.map_values(|pass: PassRow| pass_line(pass))
        + seq![("Total"@, millis(gpu_total(rows)), millis(cpu_total(rows)))]
}

/// Writes the table of the passes.
pub fn pass_table(rows: &Vec<PassRow>) -> (table: Vec<TableRow>)
    ensures
        cells(table@) == pass_lines(rows@),
{
    let mut table: Vec<TableRow> = Vec::new();
    table.push(
        TableRow {
            name: "Pass".to_owned(),
            second: "GPU ms".to_owned(),
            third: "CPU ms".to_owned(),
        },
    );
    let ghost head = seq![("Pass"@, "GPU ms"@, "CPU ms"@)];
    let ghost lines = rows@.map_values(|pass: PassRow| pass_line(pass));
    let mut i: usize = 0;
    assert(cells(table@) =~= head + lines.take(0));
    while i < rows.len()
        invariant
            i <= rows@.len(),
            lines == rows@.map_values(|pass: PassRow| pass_line(pass)),
            cells(table@) == head + lines.take(i as int),
        decreases rows@.len() - i,
    {
        let ghost above = table@;
        let row = &rows[i];
        table.push(
            TableRow {
                name: row.name.clone(),
                second: cell_text(row.gpu),
                third: cell_text(row.cpu),
            },
        );
        assert(cells(table@) =~= cells(above).push(lines[i as int]));
        assert(lines.take(i + 1) =~= lines.take(i as int).push(lines[i as int]));
        assert(cells(table@) =~= head + lines.take(i + 1));
        i = i + 1;
    }
    let ghost above = table@;
    assert(lines.take(i as int) =~= lines);
    let (gpu, cpu) = totals(rows);
    table.push(
        TableRow {
            name: "Total".to_owned(),
            second: millis_text(gpu),
            third: millis_text(cpu),
        },
    );
    assert(cells(table@) =~= cells(above).push(
        ("Total"@, millis(gpu_total(rows@)), millis(cpu_total(rows@))),
    ));
    assert(cells(table@) =~= pass_lines(rows@));
    table
}

/// A page of the profiler panel.
pub struct ProfilerPage {
    /// The line at the top.
    pub label: String,
    /// What to know about the table, and the table; without anything measured there is neither.
    pub body: Option<(&'static str, Vec<TableRow>)>,
}

/// The page of the render passes, from what the renderer measured.
///
/// The table has a line for each pass, the longest time on the graphics card first, and the sums
/// of its columns at the end. Without passes there is no table.
pub fn render_page(diagnostics: &Vec<Diagnostic>) -> (page: ProfilerPage)
    ensures
        exists|rows: Seq<PassRow>|
            {
                &&& #[trigger] tables(rows, diagnostics@)
                &&& page.label@ == passes_line(rows)
                &&& match page.body {
                    Some((note, table)) => {
                        &&& rows.len() > 0
                        &&& note@
                            == "GPU column is real on Vulkan/DX12; — on Metal/WebGPU/WebGL2 where timestamp queries aren't supported."@
                        &&& cells(table@) == pass_lines(rows)
                    },
                    None => rows.len() == 0,
                }
            },
{
    let rows = render_passes(diagnostics);
    let label = passes_label(&rows);
    if rows.len() == 0 {
        assert(tables(rows@, diagnostics@));
        return ProfilerPage { label, body: None };
    }
    let note = "GPU column is real on Vulkan/DX12; — on Metal/WebGPU/WebGL2 where timestamp queries aren't supported.";
    let table = pass_table(&rows);
    assert(tables(rows@, diagnostics@));
    ProfilerPage { label, body: Some((note, table)) }
}

/// The time of a system of the main schedule, over the last frames.
pub struct SystemSample {
    pub name: String,
    pub total: u64,
    /// How often it ran.
    pub count: u32,
}

/// The line of a system.
pub open spec fn system_line(sample: SystemSample) -> (Seq<char>, Seq<char>, Seq<char>) {
    (
        text::after_last(sample.name@, "::"@),
        millis(sample.total as int),
        signed(sample.count as int),
    )
}

/// The line above the table of the systems.
pub open spec fn systems_line(samples: Seq<SystemSample>, total: int) -> Seq<char> {
    if samples.len() == 0 {
        "No CPU profiling data yet — make sure the `trace` feature is enabled on the bevy dep (it is on native, disabled on WASM). Data should arrive within a frame or two of opening this tab."@
    } else {
        "Per-system CPU time (10-frame smoothed). Total: "@ + millis(total) + " ms"@
    }
}

/// Writes the line above the table of the systems.
pub fn systems_label(samples: &Vec<SystemSample>, total: u128) -> (line: String)
    ensures
        line@ == systems_line(samples@, total as int),
{
    if samples.len() == 0 {
        return "No CPU profiling data yet — make sure the `trace` feature is enabled on the bevy dep (it is on native, disabled on WASM). Data should arrive within a frame or two of opening this tab.".to_owned();
    }
    let mut line = "Per-system CPU time (10-frame smoothed). Total: ".to_owned();
    push_thousandths(&mut line, total);
    line.append(" ms");
    line
}

/// The lines of the table of the systems: its header, and a line for each system in their order.
pub open spec fn system_lines(samples: Seq<SystemSample>) -> Seq<
    (Seq<char>, Seq<char>, Seq<char>),
> {
    seq![("System"@, "ms / frame"@, "count"@)] + samples.map_values(
        |sample: SystemSample| system_line(sample),
    )
}

/// Writes the table of the systems.
pub fn system_table(samples: &Vec<SystemSample>) -> (table: Vec<TableRow>)
    ensures
        cells(table@) == system_lines(samples@),
{
    let mut table: Vec<TableRow> = Vec::new();
    table.push(
        TableRow {
            name: "System".to_owned(),
            second: "ms / frame".to_owned(),
            third: "count".to_owned(),
        },
    );
    let ghost head = seq![("System"@, "ms / frame"@, "count"@)];
    let ghost lines = samples@.map_values(|sample: SystemSample| system_line(sample));
    let mut i: usize = 0;
    assert(cells(table@) =~= head + lines.take(0));
    while i < samples.len()
        invariant
            i <= samples@.len(),
            lines == samples@.map_values(|sample: SystemSample| system_line(sample)),
            cells(table@) == head + lines.take(i as int),
        decreases samples@.len() - i,
    {
        let ghost above = table@;
        let sample = &samples[i];
        let mut count = String::new();
        push_signed(&mut count, sample.count as i64);
        assert(count@ =~= signed(sample.count as int));
        table.push(
            TableRow {
                name: short_system_name(sample.name.as_str()),
                second: millis_text(sample.total as u128),
                third: count,
            },
        );
        assert(cells(table@) =~= cells(above).push(lines[i as int]));
        assert(lines.take(i + 1) =~= lines.take(i as int).push(lines[i as int]));
        assert(cells(table@) =~= head + lines.take(i + 1));
        i = i + 1;
    }
    assert(lines.take(i as int) =~= lines);
    table
}

/// The page of the systems, with the time of all of them. Without samples there is no table.
pub fn logic_page(samples: &Vec<SystemSample>, total: u128) -> (page: ProfilerPage)
    ensures
        page.label@ == systems_line(samples@, total as int),
        match page.body {
            Some((note, table)) => {
                &&& samples@.len() > 0
                &&& note@
                    == "Note: parallel systems can overlap, so totals can exceed wall-clock frame time."@
                &&& cells(table@) == system_lines(samples@)
            },
            None => samples@.len() == 0,
        },
{
    let label = systems_label(samples, total);
    if samples.len() == 0 {
        return ProfilerPage { label, body: None };
    }
    let note = "Note: parallel systems can overlap, so totals can exceed wall-clock frame time.";
    ProfilerPage { label, body: Some((note, system_table(samples))) }
}

proof fn lemma_path_of_a_field(pass: Seq<char>, field: Seq<char>)
    requires
        !field.contains('/'),
    ensures
        pass_and_field("render/"@ + pass + "/"@ + field) == Some((pass, field)),
{
    reveal_strlit("render/");
    reveal_strlit("/");
    let path = "render/"@ + pass + "/"@ + field;
    let rest = path.skip(7);
    let at = pass.len() as int;
    assert(path.take(7) =~= "render/"@);
    assert(rest =~= pass + "/"@ + field);
    let found = text::last_occurrence(rest, "/"@, rest.len() as int);
    text::lemma_last_occurrence(rest, "/"@, rest.len() as int);
    assert(rest.subrange(at, at + 1) =~= "/"@);
    assert(text::occurs_at(rest, "/"@, at));
    if found > at {
        assert(rest.subrange(found, found + 1)[0] == '/');
        assert(rest[found] == '/');
        assert(field[found - at - 1] == '/');
        assert(field.contains('/'));
    }
    assert(found == at);
    assert(rest.take(at) =~= pass);
    assert(rest.skip(at + 1) =~= field);
}

proof fn lemma_field_of_a_path(path: Seq<char>, pass: Seq<char>, field: Seq<char>)
    requires
        pass_and_field(path) == Some((pass, field)),
    ensures
        path == "render/"@ + pass + "/"@ + field,
{
    reveal_strlit("render/");
    reveal_strlit("/");
    let rest = path.skip(7);
    let at = text::last_occurrence(rest, "/"@, rest.len() as int);
    text::lemma_last_occurrence(rest, "/"@, rest.len() as int);
    assert(rest =~= rest.take(at) + rest.subrange(at, at + 1) + rest.skip(at + 1));
    assert(path =~= path.take(7) + rest);
    assert(path =~= "render/"@ + pass + "/"@ + field);
}

proof fn lemma_latest_times(diagnostics: Seq<Diagnostic>, pass: Seq<char>, k: int)
    requires
        0 <= k < diagnostics.len(),
        forall|j: int|
            k < j < diagnostics.len() ==> (#[trigger] diagnostics[j]).path@ != diagnostics[k].path@,
    ensures
        diagnostics[k].path@ == "render/"@ + pass + "/elapsed_gpu"@ ==> pass_times(
            diagnostics,
        ).contains_key(pass) && pass_times(diagnostics)[pass].0 == diagnostics[k].value,
        diagnostics[k].path@ == "render/"@ + pass + "/elapsed_cpu"@ ==> pass_times(
            diagnostics,
        ).contains_key(pass) && pass_times(diagnostics)[pass].1 == diagnostics[k].value,
    decreases diagnostics.len(),
{
    reveal_strlit("/elapsed_gpu");
    reveal_strlit("/elapsed_cpu");
    reveal_strlit("elapsed_gpu");
    reveal_strlit("elapsed_cpu");
    reveal_strlit("/");
    assert("elapsed_gpu"@ != "elapsed_cpu"@) by {
        assert("elapsed_gpu"@[8] != "elapsed_cpu"@[8]);
    }
    let gpu = "render/"@ + pass + "/elapsed_gpu"@;
    let cpu = "render/"@ + pass + "/elapsed_cpu"@;
    assert(gpu =~= "render/"@ + pass + "/"@ + "elapsed_gpu"@);
    assert(cpu =~= "render/"@ + pass + "/"@ + "elapsed_cpu"@);
    assert(!"elapsed_gpu"@.contains('/')) by {
        if "elapsed_gpu"@.contains('/') {
            let i = "elapsed_gpu"@.index_of('/');
            assert("elapsed_gpu"@[i] == '/');
        }
    }
    assert(!"elapsed_cpu"@.contains('/')) by {
        if "elapsed_cpu"@.contains('/') {
            let i = "elapsed_cpu"@.index_of('/');
            assert("elapsed_cpu"@[i] == '/');
        }
    }
    lemma_path_of_a_field(pass, "elapsed_gpu"@);
    lemma_path_of_a_field(pass, "elapsed_cpu"@);
    let last = diagnostics.last();
    if k < diagnostics.len() - 1 {
        let rest = diagnostics.drop_last();
        assert forall|j: int| k < j < rest.len() implies (#[trigger] rest[j]).path@ != rest[k].path@ by {
            assert(rest[j] == diagnostics[j]);
        }
        assert(rest[k] == diagnostics[k]);
        lemma_latest_times(rest, pass, k);
        assert(diagnostics[diagnostics.len() - 1].path@ != diagnostics[k].path@);
        if pass_and_field(last.path@) is Some {
            let (p, f) = pass_and_field(last.path@)->0;
            lemma_field_of_a_path(last.path@, p, f);
        }
    }
}

/// The last time that the renderer gave for a pass is the one in its row, on the graphics card as on
/// the processor.
pub proof fn lemma_rows_tell_the_latest_times(
    diagnostics: Vec<Diagnostic>,
    rows: Vec<PassRow>,
    pass: Seq<char>,
    k: int,
    i: int,
)
    requires
        call_ensures(render_passes, (&diagnostics,), rows),
        0 <= k < diagnostics@.len(),
        forall|j: int|
            k < j < diagnostics@.len() ==> (#[trigger] diagnostics@[j]).path@
                != diagnostics@[k].path@,
        0 <= i < rows@.len(),
        rows@[i].name@ == pass,
    ensures
        diagnostics@[k].path@ == "render/"@ + pass + "/elapsed_gpu"@ ==> rows@[i].gpu
            == diagnostics@[k].value,
        diagnostics@[k].path@ == "render/"@ + pass + "/elapsed_cpu"@ ==> rows@[i].cpu
            == diagnostics@[k].value,
{
    lemma_latest_times(diagnostics@, pass, k);
}

/// Every pass that the renderer measured has a row, and only one.
pub proof fn lemma_every_pass_has_a_row(
    diagnostics: Vec<Diagnostic>,
    rows: Vec<PassRow>,
    pass: Seq<char>,
    k: int,
    i: int,
    j: int,
)
    requires
        call_ensures(render_passes, (&diagnostics,), rows),
        0 <= k < diagnostics@.len(),
        diagnostics@[k].path@ == "render/"@ + pass + "/elapsed_gpu"@,
        forall|m: int|
            k < m < diagnostics@.len() ==> (#[trigger] diagnostics@[m]).path@
                != diagnostics@[k].path@,
    ensures
        exists|m: int| 0 <= m < rows@.len() && (#[trigger] rows@[m]).name@ == pass,
        0 <= i < j < rows@.len() ==> rows@[i].name@ != rows@[j].name@,
{
    lemma_latest_times(diagnostics@, pass, k);
    if 0 <= i < j < rows@.len() && rows@[i].name@ == rows@[j].name@ {
        assert(stands_above(rows@[i], rows@[j]));
        text::lemma_less_is_total(rows@[i].name@, rows@[j].name@);
        assert(pass_times(diagnostics@)[rows@[i].name@] == (rows@[i].gpu, rows@[i].cpu));
        assert(pass_times(diagnostics@)[rows@[j].name@] == (rows@[j].gpu, rows@[j].cpu));
    }
}

/// The longest time on the graphics card stands at the top; a time that was not measured counts as
/// none, and equal times stand by name.
pub proof fn lemma_longest_passes_stand_at_the_top(
    diagnostics: Vec<Diagnostic>,
    rows: Vec<PassRow>,
    i: int,
    j: int,
)
    requires
        call_ensures(render_passes, (&diagnostics,), rows),
        0 <= i < j < rows@.len(),
    ensures
        rows@[j].gpu is Some && rows@[j].gpu->0 > 0 ==> rows@[i].gpu is Some && rows@[i].gpu->0
            >= rows@[j].gpu->0,
        rows@[i].gpu == rows@[j].gpu ==> text::text_less(rows@[i].name@, rows@[j].name@),
{
    assert(stands_above(rows@[i], rows@[j]));
}

/// Each row adds its times to the totals; a time that was not measured adds nothing.
pub proof fn lemma_rows_add_up(
    rows: Vec<PassRow>,
    more: Vec<PassRow>,
    row: PassRow,
    total: (u128, u128),
    whole: (u128, u128),
)
    requires
        more@ == rows@.push(row),
        call_ensures(totals, (&rows,), total),
        call_ensures(totals, (&more,), whole),
    ensures
        row.gpu matches Some(t) ==> whole.0 == total.0 + t,
        row.gpu is None ==> whole.0 == total.0,
        row.cpu matches Some(t) ==> whole.1 == total.1 + t,
        row.cpu is None ==> whole.1 == total.1,
        rows@.len() == 0 ==> total == (0u128, 0u128),
{
    let gpus = more@.map_values(|r: PassRow| r.gpu);
    let cpus = more@.map_values(|r: PassRow| r.cpu);
    assert(gpus.drop_last() =~= rows@.map_values(|r: PassRow| r.gpu));
    assert(cpus.drop_last() =~= rows@.map_values(|r: PassRow| r.cpu));
}

/// A system is called by what stands behind the last double colon of its path.
pub proof fn lemma_systems_are_called_by_their_last_part(path: &str, name: String)
    requires
        call_ensures(short_system_name, (path,), name),
    ensures
        name@ == path@ || exists|front: Seq<char>| path@ == #[trigger] (front + "::"@) + name@,
        forall|at: int| !text::occurs_at(name@, "::"@, at),
{
    let n = path@.len() as int;
    text::lemma_last_occurrence(path@, "::"@, n);
    let at = text::last_occurrence(path@, "::"@, n);
    reveal_strlit("::");
    if at >= 0 {
        let front = path@.take(at);
        assert(path@ =~= (front + path@.subrange(at, at + 2)) + name@);
    }
    assert forall|k: int| !text::occurs_at(name@, "::"@, k) by {
        if text::occurs_at(name@, "::"@, k) {
            let m = if at < 0 {
                k
            } else {
                at + 2 + k
            };
            assert(path@.subrange(m, m + 2) =~= name@.subrange(k, k + 2));
            assert(text::occurs_at(path@, "::"@, m));
        }
    }
}

/// Below its header the table of the passes has a line for each pass, in their order, and last the
/// totals.
pub proof fn lemma_tables_end_with_the_totals(
    rows: Vec<PassRow>,
    table: Vec<TableRow>,
    total: (u128, u128),
    i: int,
)
    requires
        call_ensures(pass_table, (&rows,), table),
        call_ensures(totals, (&rows,), total),
        0 <= i < rows@.len(),
    ensures
        table@.len() == rows@.len() + 2,
        table@[i + 1].name@ == rows@[i].name@,
        rows@[i].gpu matches Some(t) ==> table@[i + 1].second@ == thousandths(t as nat),
        rows@[i].cpu matches Some(t) ==> table@[i + 1].third@ == thousandths(t as nat),
        rows@[i].gpu is None ==> table@[i + 1].second@ == "—"@,
        rows@[i].cpu is None ==> table@[i + 1].third@ == "—"@,
        table@[rows@.len() as int + 1].name@ == "Total"@,
        table@[rows@.len() as int + 1].second@ == thousandths(total.0 as nat),
        table@[rows@.len() as int + 1].third@ == thousandths(total.1 as nat),
{
    let texts = cells(table@);
    assert(texts == pass_lines(rows@));
    assert(texts.len() == table@.len());
    assert(texts[i + 1] == pass_line(rows@[i]));
    assert(texts[i + 1] == (table@[i + 1].name@, table@[i + 1].second@, table@[i + 1].third@));
    let n = rows@.len() as int + 1;
    assert(texts[n] == (table@[n].name@, table@[n].second@, table@[n].third@));
    assert(texts[n] == ("Total"@, millis(gpu_total(rows@)), millis(cpu_total(rows@))));
}

/// The table of the systems has a line for each system, called by the last part of its path, with its
/// time and how often it ran.
pub proof fn lemma_systems_have_their_lines(
    samples: Vec<SystemSample>,
    table: Vec<TableRow>,
    i: int,
)
    requires
        call_ensures(system_table, (&samples,), table),
        0 <= i < samples@.len(),
    ensures
        table@.len() == samples@.len() + 1,
        table@[i + 1].name@ == text::after_last(samples@[i].name@, "::"@),
        table@[i + 1].second@ == thousandths(samples@[i].total as nat),
        table@[i + 1].third@ == signed(samples@[i].count as int),
{
    let texts = cells(table@);
    assert(texts == system_lines(samples@));
    assert(texts.len() == table@.len());
    assert(texts[i + 1] == system_line(samples@[i]));
    assert(texts[i + 1] == (table@[i + 1].name@, table@[i + 1].second@, table@[i + 1].third@));
}

} // verus!
