//! Section layout and the short texts of the collapsible CPU/GPU/NPU/
//! Processes panels.

use vstd::prelude::*;

use crate::text::{
    chars_of, dec, signed_dec, pad_left, pad_left_chars, append_chars, string_of, decimal,
    signed_decimal, take_chars, starts_with,
};

verus! {

/// The collapsible sections, top to bottom.
#[derive(Clone, Copy, Debug, PartialEq, Eq, Structural)]
pub enum Section {
    Cpu,
    Gpu,
    Npu,
    Processes,
}

/// What the layout depends on: which sections are collapsed, whether there
/// is an NPU, how many GPUs and NPU contexts there are.
#[derive(Clone, Copy, Debug, PartialEq, Eq, Structural)]
pub struct PanelState {
    pub has_npu: bool,
    pub cpu_collapsed: bool,
    pub gpu_collapsed: bool,
    pub npu_collapsed: bool,
    pub processes_collapsed: bool,
    /// The number of GPUs (as the height arithmetic holds it).
    pub gpus: u16,
    /// The number of NPU contexts.
    pub npu_contexts: usize,
}

/// Whether `s` is collapsed in `p`.
pub open spec fn collapsed_in(p: PanelState, s: Section) -> bool {
    match s {
        Section::Cpu => p.cpu_collapsed,
        Section::Gpu => p.gpu_collapsed,
        Section::Npu => p.npu_collapsed,
        Section::Processes => p.processes_collapsed,
    }
}

/// The height of section `s` including its border: 3 when collapsed; else
/// 7 rows for the CPU, 2 plus 4 per GPU, 4 plus up to 6 NPU contexts, 13
/// rows of processes.
pub open spec fn section_rows(p: PanelState, s: Section) -> int {
    if collapsed_in(p, s) {
        3
    } else {
        let inner: int = match s {
            Section::Cpu => 7,
            Section::Gpu => 2 + 4 * p.gpus,
            Section::Npu => 4 + (if p.npu_contexts < 6 {
                p.npu_contexts as int
            } else {
                6
            }),
            Section::Processes => 13int,
        };
        inner + 2
    }
}

/// The GPU section's height fits in a `u16`.
pub open spec fn heights_fit(p: PanelState) -> bool {
    p.gpu_collapsed || 4 * p.gpus + 4 <= u16::MAX
}

impl PanelState {
    /// Whether `s` is collapsed.
    pub fn is_collapsed(&self, s: Section) -> (b: bool)
        ensures
            b == collapsed_in(*self, s),
    {
        match s {
            Section::Cpu => self.cpu_collapsed,
            Section::Gpu => self.gpu_collapsed,
            Section::Npu => self.npu_collapsed,
            Section::Processes => self.processes_collapsed,
        }
    }

    /// The height of section `s` (see `section_rows`).
    pub fn section_height(&self, s: Section) -> (h: u16)
        requires
            s == Section::Gpu ==> heights_fit(*self),
        ensures
            h == section_rows(*self, s),
    {
        if self.is_collapsed(s) {
            return 3;
        }
        let inner: u16 = match s {
            Section::Cpu => 7,
            Section::Gpu => 2 + 4 * self.gpus,
            Section::Npu => {
                let ctx = if self.npu_contexts < 6 {
                    self.npu_contexts
                } else {
                    6
                };
                4 + ctx as u16
            },
            Section::Processes => 3 + 10,
        };
        inner + 2
    }

    /// The heights of the screen's rows: the header, each section shown
    /// (the NPU only when there is one), and the footer.
    pub fn heights(&self) -> (hs: Vec<u16>)
        requires
            heights_fit(*self),
        ensures
            hs@.map_values(|h: u16| h as int) == seq![1int, section_rows(*self, Section::Cpu), section_rows(*self, Section::Gpu)]
                + (if self.has_npu {
                seq![section_rows(*self, Section::Npu)]
            } else {
                seq![]
            }) + seq![section_rows(*self, Section::Processes), 1int],
    {
        let mut c: Vec<u16> = Vec::new();
        c.push(1);
        c.push(self.section_height(Section::Cpu));
        c.push(self.section_height(Section::Gpu));
        if self.has_npu {
            c.push(self.section_height(Section::Npu));
        }
        c.push(self.section_height(Section::Processes));
        c.push(1);
        assert(c@.map_values(|h: u16| h as int) =~= seq![1int, section_rows(*self, Section::Cpu), section_rows(*self, Section::Gpu)]
            + (if self.has_npu {
            seq![section_rows(*self, Section::Npu)]
        } else {
            seq![]
        }) + seq![section_rows(*self, Section::Processes), 1int]);
        c
    }
}

/// The index of the footer row: after the header and the sections.
pub fn area_height_idx(has_npu: bool) -> (i: usize)
    ensures
        i == 4 + (if has_npu {
            1int
        } else {
            0int
        }),
{
    1 + 3 + if has_npu {
        1
    } else {
        0
    }
}

/// Law: the footer index is the last row of the layout.
pub proof fn law_footer_is_last(p: PanelState)
    ensures
        (4 + (if p.has_npu {
            1int
        } else {
            0int
        })) == (seq![1int, section_rows(p, Section::Cpu), section_rows(p, Section::Gpu)] + (if p.has_npu {
            seq![section_rows(p, Section::Npu)]
        } else {
            seq![]
        }) + seq![section_rows(p, Section::Processes), 1int]).len() - 1,
{
}

// ---------------------------------------------------------------------
// sums
// ---------------------------------------------------------------------

/// The sum of `s`.
pub open spec fn sum_of(s: Seq<int>) -> int
    decreases s.len(),
{
    if s.len() == 0 {
        0
    } else {
        sum_of(s.drop_last()) + s.last()
    }
}

proof fn lemma_sum_of_prefix(s: Seq<int>, i: int)
    requires
        0 <= i <= s.len(),
        forall|j: int| 0 <= j < s.len() ==> s[j] >= 0,
    ensures
        sum_of(s.take(i)) <= sum_of(s),
        sum_of(s.take(i)) >= 0,
    decreases s.len() - i,
{
    if i < s.len() {
        lemma_sum_of_prefix(s, i + 1);
        assert(s.take(i + 1).drop_last() =~= s.take(i));
        lemma_sum_of_nonneg(s.take(i));
    } else {
        assert(s.take(i) =~= s);
        lemma_sum_of_nonneg(s);
    }
}

proof fn lemma_sum_of_nonneg(s: Seq<int>)
    requires
        forall|j: int| 0 <= j < s.len() ==> s[j] >= 0,
    ensures
        sum_of(s) >= 0,
    decreases s.len(),
{
    if s.len() > 0 {
        lemma_sum_of_nonneg(s.drop_last());
    }
}

/// The number of NPU contexts across devices (each device's count given).
pub fn npu_ctx_count(counts: &Vec<usize>) -> (n: usize)
    requires
        sum_of(counts@.map_values(|c: usize| c as int)) <= usize::MAX,
    ensures
        n == sum_of(counts@.map_values(|c: usize| c as int)),
{
    let ghost s = counts@.map_values(|c: usize| c as int);
    let mut n: usize = 0;
    let mut i: usize = 0;
    assert(s.take(0) =~= seq![]);
    while i < counts.len()
        invariant
            i <= counts.len(),
            s == counts@.map_values(|c: usize| c as int),
            sum_of(s) <= usize::MAX,
            n == sum_of(s.take(i as int)),
        decreases counts.len() - i,
    {
        proof {
            assert(s.take(i + 1).drop_last() =~= s.take(i as int));
            lemma_sum_of_prefix(s, i + 1);
        }
        n = n + counts[i];
        i = i + 1;
    }
    assert(s.take(counts.len() as int) =~= s);
    n
}

// ---------------------------------------------------------------------
// names and summaries
// ---------------------------------------------------------------------

/// `s` with each occurrence of `pat` (leftmost first, not overlapping)
/// replaced by `rep`.
pub open spec fn replace_all(s: Seq<char>, pat: Seq<char>, rep: Seq<char>) -> Seq<char>
    decreases s.len(),
{
    if s.len() == 0 {
        seq![]
    } else if pat.len() > 0 && starts_with(s, pat) {
        rep + replace_all(s.skip(pat.len() as int), pat, rep)
    } else {
        seq![s[0]] + replace_all(s.drop_first(), pat, rep)
    }
}

/// Whether `v[i..]` starts with `p`.
fn matches_at(v: &Vec<char>, i: usize, p: &Vec<char>) -> (b: bool)
    requires
        i <= v.len(),
    ensures
        b == starts_with(v@.skip(i as int), p@),
{
    if p.len() > v.len() - i {
        return false;
    }
    let mut j: usize = 0;
    while j < p.len()
        invariant
            i + p.len() <= v.len(),
            j <= p.len(),
            forall|k: int| 0 <= k < j ==> v@[i + k] == p@[k],
        decreases p.len() - j,
    {
        if v[i + j] != p[j] {
            assert(v@.skip(i as int).take(p.len() as int)[j as int] != p@[j as int]);
            return false;
        }
        j = j + 1;
    }
    assert(v@.skip(i as int).take(p.len() as int) =~= p@);
    true
}

/// `v` with `pat` replaced by `rep` (see `replace_all`).
fn replace_chars(v: &Vec<char>, pat: &Vec<char>, rep: &Vec<char>) -> (out: Vec<char>)
    requires
        pat.len() > 0,
    ensures
        out@ == replace_all(v@, pat@, rep@),
{
    let mut out: Vec<char> = Vec::new();
    let mut i: usize = 0;
    assert(v@.skip(0) =~= v@);
    while i < v.len()
        invariant
            pat.len() > 0,
            i <= v.len(),
            replace_all(v@, pat@, rep@) == out@ + replace_all(v@.skip(i as int), pat@, rep@),
        decreases v.len() - i,
    {
        if matches_at(v, i, pat) {
            append_chars(&mut out, rep);
            assert(v@.skip(i as int).skip(pat.len() as int) =~= v@.skip(i + pat.len()));
            i = i + pat.len();
        } else {
            out.push(v[i]);
            assert(v@.skip(i as int).drop_first() =~= v@.skip(i + 1));
            i = i + 1;
        }
    }
    assert(v@.skip(i as int) =~= seq![]);
    assert(out@ + seq![] =~= out@);
    out
}

/// `s` shortened for display: `AMD Radeon Graphics` and then `AMD Radeon`
/// become `Radeon`, and at most 28 characters are kept.
pub open spec fn short_name_of(s: Seq<char>) -> Seq<char> {
    let a = replace_all(s, "AMD Radeon Graphics"@, "Radeon"@);
    let b = replace_all(a, "AMD Radeon"@, "Radeon"@);
    if b.len() <= 28 {
        b
    } else {
        b.take(28)
    }
}

/// Collapse long marketing names (see `short_name_of`).
pub fn short_name(s: &str) -> (r: String)
    ensures
        r@ == short_name_of(s@),
{
    let v = chars_of(s);
    let p1 = chars_of("AMD Radeon Graphics");
    let p2 = chars_of("AMD Radeon");
    let rep = chars_of("Radeon");
    proof {
        reveal_strlit("AMD Radeon Graphics");
        reveal_strlit("AMD Radeon");
    }
    let a = replace_chars(&v, &p1, &rep);
    let b = replace_chars(&a, &p2, &rep);
    let c = take_chars(&b, 28);
    string_of(&c)
}

/// The CPU core summary: the mean current frequency and the core count
/// (`n/a` without cores). The mean divides the `u32` sum by the count taken
/// as a `u32`, as the frequencies are held.
pub open spec fn core_summary_of(freqs: Seq<u32>) -> Seq<char> {
    if freqs.len() == 0 {
        "n/a"@
    } else {
        let total = sum_of(freqs.map_values(|f: u32| f as int));
        dec((total / (freqs.len() as u32) as int) as nat) + "MHz ("@ + dec(freqs.len()) + " cores)"@
    }
}

/// The frequencies can be summed in a `u32` and their count divides it.
pub open spec fn core_summary_ok(freqs: Seq<u32>) -> bool {
    freqs.len() > 0 ==> sum_of(freqs.map_values(|f: u32| f as int)) <= u32::MAX && (freqs.len() as u32)
        != 0
}

/// Mean current frequency and core count, or `n/a`.
pub fn core_summary(freqs: &Vec<u32>) -> (s: String)
    requires
        core_summary_ok(freqs@),
    ensures
        s@ == core_summary_of(freqs@),
{
    if freqs.len() == 0 {
        return string_of(&chars_of("n/a"));
    }
    let ghost fs = freqs@.map_values(|f: u32| f as int);
    let mut total: u32 = 0;
    let mut i: usize = 0;
    assert(fs.take(0) =~= seq![]);
    while i < freqs.len()
        invariant
            i <= freqs.len(),
            fs == freqs@.map_values(|f: u32| f as int),
            sum_of(fs) <= u32::MAX,
            total == sum_of(fs.take(i as int)),
        decreases freqs.len() - i,
    {
        proof {
            assert(fs.take(i + 1).drop_last() =~= fs.take(i as int));
            lemma_sum_of_prefix(fs, i + 1);
        }
        total = total + freqs[i];
        i = i + 1;
    }
    assert(fs.take(freqs.len() as int) =~= fs);
    let n = freqs.len() as u32;
    let avg = total / n;
    let mut out = decimal(avg as u64);
    append_chars(&mut out, &chars_of("MHz ("));
    append_chars(&mut out, &decimal(freqs.len() as u64));
    append_chars(&mut out, &chars_of(" cores)"));
    string_of(&out)
}

/// `t` divided by `d`, rounded toward zero (integer `/`).
pub open spec fn div_toward_zero(t: int, d: int) -> int {
    if t >= 0 {
        t / d
    } else {
        -((-t) / d)
    }
}

/// The CPU temperature text: ` CPU temp: ` and whole degrees of the
/// millidegree reading (or `n/a`), then two spaces.
pub open spec fn cpu_temp_text_of(tctl: Option<i64>) -> Seq<char> {
    " CPU temp: "@ + (match tctl {
        Some(t) => signed_dec(div_toward_zero(t as int, 1000)) + "°C"@,
        None => "n/a"@,
    }) + "  "@
}

/// The CPU temperature shown beside the load.
pub fn cpu_temp_text(tctl: Option<i64>) -> (s: String)
    ensures
        s@ == cpu_temp_text_of(tctl),
{
    let mut out = chars_of(" CPU temp: ");
    match tctl {
        Some(t) => {
            let deg = t / 1000;
            assert(deg as int == div_toward_zero(t as int, 1000));
            append_chars(&mut out, &signed_decimal(deg));
            append_chars(&mut out, &chars_of("°C"));
        },
        None => {
            append_chars(&mut out, &chars_of("n/a"));
        },
    }
    append_chars(&mut out, &chars_of("  "));
    string_of(&out)
}

/// The collapsed Processes panel's text: ` {n} processes `.
pub fn processes_summary(n: usize) -> (s: String)
    ensures
        s@ == " "@ + dec(n as nat) + " processes "@,
{
    let mut out = chars_of(" ");
    append_chars(&mut out, &decimal(n as u64));
    append_chars(&mut out, &chars_of(" processes "));
    string_of(&out)
}

/// The width of a GPU's sparkline beside its gauge line, which takes 44
/// columns: what `w` leaves, when it leaves any.
pub fn gpu_sparkline_width(w: usize) -> (r: Option<usize>)
    ensures
        r == (if w > 44 {
            Some((w - 44) as usize)
        } else {
            None::<usize>
        }),
{
    if w > 44 {
        Some(w - 44)
    } else {
        None
    }
}

/// The collapsed GPU panel's text for one GPU: its short name, graphics
/// load and memory percentage, ` NAME  GG% gfx  MM% mem  ` with the numbers
/// right-aligned in three columns.
pub open spec fn gpu_collapsed_of(name: Seq<char>, gfx: u16, mem_pct: i64) -> Seq<char> {
    " "@ + short_name_of(name) + " "@ + pad_left(dec(gfx as nat), 3, ' ') + "% gfx "@ + pad_left(
        signed_dec(mem_pct as int),
        3,
        ' ',
    ) + "% mem  "@
}

/// The collapsed GPU panel's text for one GPU (see `gpu_collapsed_of`).
pub fn gpu_collapsed_text(name: &str, gfx: u16, mem_pct: i64) -> (s: String)
    ensures
        s@ == gpu_collapsed_of(name@, gfx, mem_pct),
{
    let mut out = chars_of(" ");
    let short = short_name(name);
    append_chars(&mut out, &chars_of(short.as_str()));
    append_chars(&mut out, &chars_of(" "));
    append_chars(&mut out, &pad_left_chars(decimal(gfx as u64), 3, ' '));
    append_chars(&mut out, &chars_of("% gfx "));
    append_chars(&mut out, &pad_left_chars(signed_decimal(mem_pct), 3, ' '));
    append_chars(&mut out, &chars_of("% mem  "));
    let s = string_of(&out);
    assert(s@ =~= gpu_collapsed_of(name@, gfx, mem_pct));
    s
}

/// The title line of a GPU: ` NAME ` (its short name), `(BUS) `, and
/// `APU` or `dGPU`.
pub open spec fn gpu_title_of(name: Seq<char>, bus: u8, is_apu: bool) -> Seq<Seq<char>> {
    seq![
        " "@ + short_name_of(name) + " "@,
        "("@ + dec(bus as nat) + ") "@,
        if is_apu {
            "APU"@
        } else {
            "dGPU"@
        },
    ]
}

/// The parts of a GPU's title line (see `gpu_title_of`).
pub fn gpu_title_texts(name: &str, bus: u8, is_apu: bool) -> (parts: Vec<String>)
    ensures
        parts@.map_values(|p: String| p@) == gpu_title_of(name@, bus, is_apu),
{
    let mut a = chars_of(" ");
    let short = short_name(name);
    append_chars(&mut a, &chars_of(short.as_str()));
    append_chars(&mut a, &chars_of(" "));
    let mut b = chars_of("(");
    append_chars(&mut b, &decimal(bus as u64));
    append_chars(&mut b, &chars_of(") "));
    let c = if is_apu {
        chars_of("APU")
    } else {
        chars_of("dGPU")
    };
    let mut parts: Vec<String> = Vec::new();
    parts.push(string_of(&a));
    parts.push(string_of(&b));
    parts.push(string_of(&c));
    assert(parts@.map_values(|p: String| p@) =~= gpu_title_of(name@, bus, is_apu));
    parts
}

/// The collapsed NPU panel's texts: the NPU load right-aligned in three
/// columns, ` PP% `, and `N contexts  `.
pub open spec fn npu_collapsed_of(pct: u64, contexts: usize) -> Seq<Seq<char>> {
    seq![" "@ + pad_left(dec(pct as nat), 3, ' ') + "% "@, dec(contexts as nat) + " contexts  "@]
}

/// The collapsed NPU panel's texts (see `npu_collapsed_of`).
pub fn npu_collapsed_texts(pct: u64, contexts: usize) -> (parts: Vec<String>)
    ensures
        parts@.map_values(|p: String| p@) == npu_collapsed_of(pct, contexts),
{
    let mut a = chars_of(" ");
    append_chars(&mut a, &pad_left_chars(decimal(pct), 3, ' '));
    append_chars(&mut a, &chars_of("% "));
    let mut b = decimal(contexts as u64);
    append_chars(&mut b, &chars_of(" contexts  "));
    let mut parts: Vec<String> = Vec::new();
    parts.push(string_of(&a));
    parts.push(string_of(&b));
    assert(parts@.map_values(|p: String| p@) =~= npu_collapsed_of(pct, contexts));
    parts
}

/// The first firmware version among `versions`, if any is known.
pub open spec fn first_version(versions: Seq<Option<String>>) -> Option<Seq<char>>
    decreases versions.len(),
{
    if versions.len() == 0 {
        None
    } else {
        match versions[0] {
            Some(v) => Some(v@),
            None => first_version(versions.drop_first()),
        }
    }
}

/// The NPU header's firmware text: `fw VERSION  `, with the first version
/// known among the devices (empty when none is).
pub fn npu_fw_text(versions: &Vec<Option<String>>) -> (s: String)
    ensures
        s@ == "fw "@ + (match first_version(versions@) {
            Some(v) => v,
            None => Seq::<char>::empty(),
        }) + "  "@,
{
    let mut out = chars_of("fw ");
    let mut i: usize = 0;
    assert(versions@.skip(0) =~= versions@);
    while i < versions.len()
        invariant
            i <= versions.len(),
            first_version(versions@) == first_version(versions@.skip(i as int)),
            out@ == "fw "@,
        decreases versions.len() - i,
    {
        match &versions[i] {
            Some(v) => {
                append_chars(&mut out, &chars_of(v.as_str()));
                append_chars(&mut out, &chars_of("  "));
                return string_of(&out);
            },
            None => {
                assert(versions@.skip(i as int).drop_first() =~= versions@.skip(i + 1));
            },
        }
        i = i + 1;
    }
    append_chars(&mut out, &chars_of("  "));
    let s = string_of(&out);
    assert(s@ =~= "fw "@ + Seq::<char>::empty() + "  "@);
    s
}

proof fn lemma_sum_of_update(s: Seq<int>, i: int, v: int)
    requires
        0 <= i < s.len(),
    ensures
        sum_of(s.update(i, v)) == sum_of(s) - s[i] + v,
    decreases s.len(),
{
    if i < s.len() - 1 {
        lemma_sum_of_update(s.drop_last(), i, v);
        assert(s.update(i, v).drop_last() =~= s.drop_last().update(i, v));
    } else {
        assert(s.update(i, v).drop_last() =~= s.drop_last());
    }
}

/// Law: the core summary shows the mean of all the cores' frequencies
/// (their sum over their count, rounded down), so it does not depend on the
/// order of the cores: swapping any two leaves it as it was. The sum it is
/// taken from is at least each core's frequency and at most the count times
/// the highest one.
pub proof fn law_core_summary_mean(freqs: Seq<u32>, i: int, j: int)
    requires
        0 <= i < freqs.len(),
        0 <= j < freqs.len(),
    ensures
        core_summary_of(freqs.update(i, freqs[j]).update(j, freqs[i])) == core_summary_of(freqs),
        ({
            let total = sum_of(freqs.map_values(|f: u32| f as int));
            &&& forall|k: int| 0 <= k < freqs.len() ==> total >= freqs[k] as int
            &&& (forall|k: int| 0 <= k < freqs.len() ==> freqs[k] <= freqs[i]) ==> total <= freqs.len()
                * freqs[i]
        }),
{
    let fs = freqs.map_values(|f: u32| f as int);
    let sw = freqs.update(i, freqs[j]).update(j, freqs[i]);
    let s1 = fs.update(i, fs[j]);
    lemma_sum_of_update(fs, i, fs[j]);
    lemma_sum_of_update(s1, j, fs[i]);
    assert(sw.map_values(|f: u32| f as int) =~= s1.update(j, fs[i]));
    assert(sw.len() == freqs.len());
    assert forall|k: int| 0 <= k < freqs.len() implies sum_of(fs) >= freqs[k] as int by {
        lemma_sum_of_update(fs, k, 0);
        assert forall|x: int| 0 <= x < fs.update(k, 0).len() implies fs.update(k, 0)[x] >= 0 by {}
        lemma_sum_of_nonneg(fs.update(k, 0));
    }
    if forall|k: int| 0 <= k < freqs.len() ==> freqs[k] <= freqs[i] {
        lemma_sum_of_bounded(fs, freqs[i] as int);
    }
}

proof fn lemma_sum_of_bounded(s: Seq<int>, b: int)
    requires
        forall|k: int| 0 <= k < s.len() ==> s[k] <= b,
    ensures
        sum_of(s) <= s.len() * b,
    decreases s.len(),
{
    if s.len() > 0 {
        lemma_sum_of_bounded(s.drop_last(), b);
        assert(sum_of(s) <= (s.len() - 1) * b + b);
        assert((s.len() - 1) * b + b == s.len() * b) by (nonlinear_arith);
    }
}

} // verus!
