//! The cells of the device, process and NPU-context tables, and the GPU
//! sensor line.

use vstd::prelude::*;

use crate::text::{
    chars_of, dec, signed_dec, pad_left, append_chars, string_of, decimal, signed_decimal,
    pad_left_chars, take_chars,
};

verus! {

/// The character sequences of a list of strings.
pub open spec fn texts(v: Seq<String>) -> Seq<Seq<char>> {
    v.map_values(|s: String| s@)
}

/// `s` right-aligned in `w` columns (`{:>w}`).
pub open spec fn right(s: Seq<char>, w: nat) -> Seq<char> {
    pad_left(s, w, ' ')
}

/// At most the first `n` characters of `s`.
pub open spec fn first_chars(s: Seq<char>, n: nat) -> Seq<char> {
    if s.len() <= n {
        s
    } else {
        s.take(n as int)
    }
}

fn right_signed(i: i64, w: usize) -> (v: Vec<char>)
    ensures
        v@ == right(signed_dec(i as int), w as nat),
{
    pad_left_chars(signed_decimal(i), w, ' ')
}

fn right_unsigned(n: u64, w: usize) -> (v: Vec<char>)
    ensures
        v@ == right(dec(n as nat), w as nat),
{
    pad_left_chars(decimal(n), w, ' ')
}

fn text_of(v: &Vec<char>) -> (s: String)
    ensures
        s@ == v@,
{
    string_of(v)
}

// ---------------------------------------------------------------------
// the device table
// ---------------------------------------------------------------------

/// One device's readings for the device table.
pub struct DeviceReading {
    /// PCI bus number.
    pub bus: u8,
    /// An NPU (XDNA) rather than a GPU.
    pub is_npu: bool,
    /// Device name and PCI address.
    pub name: String,
    /// Graphics engine load, percent.
    pub gfx: Option<u16>,
    /// VRAM in use, bytes.
    pub vram_used: u64,
    /// Usable VRAM, bytes.
    pub vram_size: u64,
    /// Temperature, degrees C (junction, else edge).
    pub temp: Option<i64>,
    /// Average power, W.
    pub power: Option<u32>,
    /// Power cap, W.
    pub power_cap: Option<u32>,
    /// Shader clock, MHz.
    pub sclk: Option<u32>,
    /// Memory clock, MHz.
    pub mclk: Option<u32>,
    /// Fan speed, RPM.
    pub fan: Option<u32>,
}

/// An optional number rendered by `f`, or `none`.
pub open spec fn opt_cell(o: Option<u32>, none: Seq<char>, w: nat, unit: Seq<char>) -> Seq<char> {
    match o {
        Some(v) => right(dec(v as nat), w) + unit,
        None => none,
    }
}

/// The cells of a device's row: bus, type, name, graphics load, memory
/// percent (`mem_pct`, worked out by the caller), VRAM used/size in MiB
/// (size at least one byte), temperature, power (and cap), clocks, fan.
pub open spec fn device_cells(d: DeviceReading, mem_pct: u64) -> Seq<Seq<char>> {
    let total = if d.vram_size > 1 {
        d.vram_size
    } else {
        1
    };
    seq![
        dec(d.bus as nat),
        if d.is_npu {
            "NPU"@
        } else {
            "GPU"@
        },
        d.name@,
        match d.gfx {
            Some(v) => right(dec(v as nat), 4),
            None => "   -"@,
        },
        right(dec(mem_pct as nat), 4),
        dec((d.vram_used / 1048576) as nat) + "/"@ + dec((total / 1048576) as nat) + "M"@,
        match d.temp {
            Some(t) => right(signed_dec(t as int), 3) + "C"@,
            None => "  -"@,
        },
        match (d.power, d.power_cap) {
            (Some(p), Some(c)) => right(dec(p as nat), 3) + "W"@ + "/"@ + dec(c as nat) + "W"@,
            (Some(p), None) => right(dec(p as nat), 3) + "W"@,
            _ => "  -"@,
        },
        opt_cell(d.sclk, "    -"@, 4, "M"@),
        opt_cell(d.mclk, "    -"@, 4, "M"@),
        opt_cell(d.fan, "    -"@, 4, "r"@),
    ]
}

fn opt_cell_text(o: Option<u32>, none: &str, w: usize, unit: &str) -> (s: String)
    ensures
        s@ == opt_cell(o, none@, w as nat, unit@),
{
    match o {
        Some(v) => {
            let mut c = right_unsigned(v as u64, w);
            append_chars(&mut c, &chars_of(unit));
            text_of(&c)
        },
        None => text_of(&chars_of(none)),
    }
}

/// The cells of a device's row in the device table (see `device_cells`).
pub fn device_row(d: &DeviceReading, mem_pct: u64) -> (row: Vec<String>)
    ensures
        texts(row@) == device_cells(*d, mem_pct),
{
    let mut row: Vec<String> = Vec::new();
    row.push(text_of(&decimal(d.bus as u64)));
    row.push(
        if d.is_npu {
            text_of(&chars_of("NPU"))
        } else {
            text_of(&chars_of("GPU"))
        },
    );
    row.push(text_of(&chars_of(d.name.as_str())));
    row.push(
        match d.gfx {
            Some(v) => text_of(&right_unsigned(v as u64, 4)),
            None => text_of(&chars_of("   -")),
        },
    );
    row.push(text_of(&right_unsigned(mem_pct, 4)));
    let total = if d.vram_size > 1 {
        d.vram_size
    } else {
        1
    };
    let mut vram = decimal(d.vram_used / 1048576);
    append_chars(&mut vram, &chars_of("/"));
    append_chars(&mut vram, &decimal(total / 1048576));
    append_chars(&mut vram, &chars_of("M"));
    row.push(text_of(&vram));
    row.push(
        match d.temp {
            Some(t) => {
                let mut c = right_signed(t, 3);
                append_chars(&mut c, &chars_of("C"));
                text_of(&c)
            },
            None => text_of(&chars_of("  -")),
        },
    );
    let pw = match (d.power, d.power_cap) {
        (Some(p), Some(c)) => {
            let mut v = right_unsigned(p as u64, 3);
            append_chars(&mut v, &chars_of("W"));
            append_chars(&mut v, &chars_of("/"));
            append_chars(&mut v, &decimal(c as u64));
            append_chars(&mut v, &chars_of("W"));
            text_of(&v)
        },
        (Some(p), None) => {
            let mut v = right_unsigned(p as u64, 3);
            append_chars(&mut v, &chars_of("W"));
            text_of(&v)
        },
        _ => text_of(&chars_of("  -")),
    };
    row.push(pw);
    row.push(opt_cell_text(d.sclk, "    -", 4, "M"));
    row.push(opt_cell_text(d.mclk, "    -", 4, "M"));
    row.push(opt_cell_text(d.fan, "    -", 4, "r"));
    assert(texts(row@) =~= device_cells(*d, mem_pct));
    row
}

// ---------------------------------------------------------------------
// the process and NPU-context tables
// ---------------------------------------------------------------------

/// One process's GPU usage.
pub struct ProcReading {
    pub pid: i32,
    pub name: String,
    /// VRAM, KiB.
    pub vram_kib: u64,
    /// GTT, KiB.
    pub gtt_kib: u64,
    pub gfx: i64,
    pub compute: i64,
    pub dma: i64,
    pub cpu: i64,
}

/// The cells of a process's row: bus, pid, name (24 characters at most),
/// VRAM and GTT in MiB, and the engine loads.
pub open spec fn process_cells(bus: u8, p: ProcReading) -> Seq<Seq<char>> {
    seq![
        dec(bus as nat),
        signed_dec(p.pid as int),
        first_chars(p.name@, 24),
        dec((p.vram_kib / 1024) as nat) + "M"@,
        dec((p.gtt_kib / 1024) as nat) + "M"@,
        signed_dec(p.gfx as int),
        signed_dec(p.compute as int),
        signed_dec(p.dma as int),
        signed_dec(p.cpu as int),
    ]
}

fn first_chars_text(s: &String, n: usize) -> (r: String)
    ensures
        r@ == first_chars(s@, n as nat),
{
    let v = chars_of(s.as_str());
    text_of(&take_chars(&v, n))
}

/// The cells of a process's row (see `process_cells`).
pub fn process_row(bus: u8, p: &ProcReading) -> (row: Vec<String>)
    ensures
        texts(row@) == process_cells(bus, *p),
{
    let mut row: Vec<String> = Vec::new();
    row.push(text_of(&decimal(bus as u64)));
    row.push(text_of(&signed_decimal(p.pid as i64)));
    row.push(first_chars_text(&p.name, 24));
    let mut v = decimal(p.vram_kib / 1024);
    append_chars(&mut v, &chars_of("M"));
    row.push(text_of(&v));
    let mut g = decimal(p.gtt_kib / 1024);
    append_chars(&mut g, &chars_of("M"));
    row.push(text_of(&g));
    row.push(text_of(&signed_decimal(p.gfx)));
    row.push(text_of(&signed_decimal(p.compute)));
    row.push(text_of(&signed_decimal(p.dma)));
    row.push(text_of(&signed_decimal(p.cpu)));
    assert(texts(row@) =~= process_cells(bus, *p));
    row
}

/// The rows of the process table for the devices' processes (bus number
/// and processes per device), in order; a single row saying so when no
/// process uses a GPU.
pub fn process_rows(devices: &Vec<(u8, Vec<ProcReading>)>) -> (rows: Vec<Vec<String>>)
    ensures
        ({
            let all = flat_processes(devices@);
            if all.len() == 0 {
                rows@.len() == 1 && texts(rows@[0]@) == seq!["No processes using GPU memory"@]
            } else {
                &&& rows@.len() == all.len()
                &&& forall|k: int|
                    0 <= k < all.len() ==> texts(#[trigger] rows@[k]@) == process_cells(
                        all[k].0,
                        all[k].1,
                    )
            }
        }),
{
    let mut rows: Vec<Vec<String>> = Vec::new();
    let ghost mut all: Seq<(u8, ProcReading)> = seq![];
    let mut i: usize = 0;
    assert(devices@.take(0) =~= seq![]);
    while i < devices.len()
        invariant
            i <= devices.len(),
            all == flat_processes(devices@.take(i as int)),
            rows@.len() == all.len(),
            forall|k: int|
                0 <= k < all.len() ==> texts(#[trigger] rows@[k]@) == process_cells(
                    all[k].0,
                    all[k].1,
                ),
        decreases devices.len() - i,
    {
        let bus = devices[i].0;
        let procs = &devices[i].1;
        let mut j: usize = 0;
        let ghost base = all;
        while j < procs.len()
            invariant
                j <= procs.len(),
                all == base + procs@.take(j as int).map_values(|p: ProcReading| (bus, p)),
                rows@.len() == all.len(),
                forall|k: int|
                    0 <= k < all.len() ==> texts(#[trigger] rows@[k]@) == process_cells(
                        all[k].0,
                        all[k].1,
                    ),
            decreases procs.len() - j,
        {
            let r = process_row(bus, &procs[j]);
            rows.push(r);
            proof {
                all = all.push((bus, procs@[j as int]));
                assert(procs@.take(j + 1).map_values(|p: ProcReading| (bus, p)) =~= procs@.take(
                    j as int,
                ).map_values(|p: ProcReading| (bus, p)).push((bus, procs@[j as int])));
            }
            j = j + 1;
        }
        proof {
            assert(procs@.take(procs.len() as int) =~= procs@);
            assert(devices@.take(i + 1).drop_last() =~= devices@.take(i as int));
        }
        i = i + 1;
    }
    assert(devices@.take(devices.len() as int) =~= devices@);
    if rows.len() == 0 {
        let mut only: Vec<String> = Vec::new();
        only.push(text_of(&chars_of("No processes using GPU memory")));
        rows.push(only);
        assert(texts(rows@[0]@) =~= seq!["No processes using GPU memory"@]);
    }
    rows
}

/// The processes of all devices with their bus numbers, in order.
pub open spec fn flat_processes(devices: Seq<(u8, Vec<ProcReading>)>) -> Seq<(u8, ProcReading)>
    decreases devices.len(),
{
    if devices.len() == 0 {
        seq![]
    } else {
        let d = devices.last();
        flat_processes(devices.drop_last()) + d.1@.map_values(|p: ProcReading| (d.0, p))
    }
}

/// One NPU context owner.
pub struct NpuReading {
    pub pid: i32,
    pub name: String,
    pub contexts: usize,
    /// Memory, KiB.
    pub memory_kib: u64,
    pub npu: i64,
}

/// The cells of an NPU context row: pid, name (24 characters at most),
/// contexts, memory in KiB, NPU load.
pub open spec fn npu_cells(p: NpuReading) -> Seq<Seq<char>> {
    seq![
        signed_dec(p.pid as int),
        first_chars(p.name@, 24),
        dec(p.contexts as nat),
        dec(p.memory_kib as nat) + "K"@,
        signed_dec(p.npu as int),
    ]
}

/// The cells of an NPU context row (see `npu_cells`).
pub fn npu_row(p: &NpuReading) -> (row: Vec<String>)
    ensures
        texts(row@) == npu_cells(*p),
{
    let mut row: Vec<String> = Vec::new();
    row.push(text_of(&signed_decimal(p.pid as i64)));
    row.push(first_chars_text(&p.name, 24));
    row.push(text_of(&decimal(p.contexts as u64)));
    let mut m = decimal(p.memory_kib);
    append_chars(&mut m, &chars_of("K"));
    row.push(text_of(&m));
    row.push(text_of(&signed_decimal(p.npu)));
    assert(texts(row@) =~= npu_cells(*p));
    row
}

// ---------------------------------------------------------------------
// the GPU sensor line
// ---------------------------------------------------------------------

/// The four parts of a GPU's sensor line: temperature, power (and cap),
/// clocks, fan.
pub open spec fn gpu_stats_of(
    temp: Option<i64>,
    power: Option<u32>,
    cap: Option<u32>,
    sclk: Option<u32>,
    mclk: Option<u32>,
    fan: Option<u32>,
) -> Seq<Seq<char>> {
    seq![
        " "@ + (match temp {
            Some(t) => right(signed_dec(t as int), 3) + "°C"@,
            None => "  -"@,
        }) + " "@,
        " "@ + (match (power, cap) {
            (Some(p), Some(c)) => dec(p as nat) + "/"@ + dec(c as nat) + "W"@,
            (Some(p), None) => dec(p as nat) + "W"@,
            _ => "  -"@,
        }) + " "@,
        " sclk "@ + opt_cell(sclk, "    -"@, 4, "M"@) + " mclk "@ + opt_cell(mclk, "    -"@, 4, "M"@)
            + " "@,
        "fan "@ + opt_cell(fan, "    -"@, 4, "r"@),
    ]
}

/// The parts of a GPU's sensor line (see `gpu_stats_of`).
pub fn gpu_stats_texts(
    temp: Option<i64>,
    power: Option<u32>,
    cap: Option<u32>,
    sclk: Option<u32>,
    mclk: Option<u32>,
    fan: Option<u32>,
) -> (parts: Vec<String>)
    ensures
        texts(parts@) == gpu_stats_of(temp, power, cap, sclk, mclk, fan),
{
    let mut parts: Vec<String> = Vec::new();
    let mut t = chars_of(" ");
    match temp {
        Some(x) => {
            append_chars(&mut t, &right_signed(x, 3));
            append_chars(&mut t, &chars_of("°C"));
        },
        None => append_chars(&mut t, &chars_of("  -")),
    }
    append_chars(&mut t, &chars_of(" "));
    assert(t@ =~= gpu_stats_of(temp, power, cap, sclk, mclk, fan)[0]);
    parts.push(text_of(&t));
    let mut p = chars_of(" ");
    match (power, cap) {
        (Some(x), Some(c)) => {
            append_chars(&mut p, &decimal(x as u64));
            append_chars(&mut p, &chars_of("/"));
            append_chars(&mut p, &decimal(c as u64));
            append_chars(&mut p, &chars_of("W"));
        },
        (Some(x), None) => {
            append_chars(&mut p, &decimal(x as u64));
            append_chars(&mut p, &chars_of("W"));
        },
        _ => append_chars(&mut p, &chars_of("  -")),
    }
    append_chars(&mut p, &chars_of(" "));
    assert(p@ =~= gpu_stats_of(temp, power, cap, sclk, mclk, fan)[1]);
    parts.push(text_of(&p));
    let mut c = chars_of(" sclk ");
    append_chars(&mut c, &chars_of(opt_cell_text(sclk, "    -", 4, "M").as_str()));
    append_chars(&mut c, &chars_of(" mclk "));
    append_chars(&mut c, &chars_of(opt_cell_text(mclk, "    -", 4, "M").as_str()));
    append_chars(&mut c, &chars_of(" "));
    assert(c@ =~= gpu_stats_of(temp, power, cap, sclk, mclk, fan)[2]);
    parts.push(text_of(&c));
    let mut f = chars_of("fan ");
    append_chars(&mut f, &chars_of(opt_cell_text(fan, "    -", 4, "r").as_str()));
    assert(f@ =~= gpu_stats_of(temp, power, cap, sclk, mclk, fan)[3]);
    parts.push(text_of(&f));
    assert(texts(parts@) =~= gpu_stats_of(temp, power, cap, sclk, mclk, fan));
    parts
}

} // verus!
