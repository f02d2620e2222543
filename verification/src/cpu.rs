//! CPU time counters (`/proc/stat`), memory counters (`/proc/meminfo`) and
//! the CPU model name (`/proc/cpuinfo`), read from the files' text.

use vstd::prelude::*;

use crate::text::{
    words, parse_unsigned, parsed_values, views, starts_with, lines, trim, chars_of, split_words,
    split_lines, parse_all, parse_unsigned_chars, has_prefix, copy_range, trim_chars, string_of,
};
use crate::theme::find_char;

verus! {

// ---------------------------------------------------------------------
// one `cpu` line
// ---------------------------------------------------------------------

/// The counters of a `/proc/stat` cpu line: the words after the first that
/// read as `u64` numbers.
pub open spec fn cpu_fields(line: Seq<char>) -> Seq<nat> {
    let ws = words(line);
    parsed_values(
        if ws.len() == 0 {
            ws
        } else {
            ws.drop_first()
        },
        10,
        u64::MAX as nat,
    )
}

/// The sum of `s`.
pub open spec fn seq_sum(s: Seq<nat>) -> nat
    decreases s.len(),
{
    if s.len() == 0 {
        0
    } else {
        seq_sum(s.drop_last()) + s.last()
    }
}

/// (total, idle) time of a cpu line's counters: idle is idle plus iowait;
/// the total is the sum of all counters less guest time (the ninth), which
/// user time already counts. None with fewer than four counters.
pub open spec fn cpu_totals(nums: Seq<nat>) -> Option<(nat, nat)> {
    if nums.len() < 4 {
        None
    } else {
        let idle = nums[3] + (if nums.len() > 4 {
            nums[4]
        } else {
            0
        });
        let total = seq_sum(nums) - (if nums.len() > 8 {
            nums[8]
        } else {
            0
        });
        Some((total as nat, idle as nat))
    }
}

/// The line's counters can be added up in a `u64`.
pub open spec fn cpu_line_fits(line: Seq<char>) -> bool {
    cpu_fields(line).len() >= 4 ==> seq_sum(cpu_fields(line)) <= u64::MAX
}

proof fn lemma_sum_prefix(s: Seq<nat>, i: int)
    requires
        0 <= i <= s.len(),
    ensures
        seq_sum(s.take(i)) <= seq_sum(s),
    decreases s.len() - i,
{
    if i < s.len() {
        lemma_sum_prefix(s, i + 1);
        assert(s.take(i + 1).drop_last() =~= s.take(i));
    } else {
        assert(s.take(i) =~= s);
    }
}

proof fn lemma_sum_has(s: Seq<nat>, i: int, j: int)
    requires
        0 <= i < s.len(),
        0 <= j < s.len(),
        i != j,
    ensures
        s[i] + s[j] <= seq_sum(s),
        s[i] <= seq_sum(s),
    decreases s.len(),
{
    let n = s.len() - 1;
    if i < n && j < n {
        lemma_sum_has(s.drop_last(), i, j);
    } else if i == n {
        lemma_sum_elem(s.drop_last(), j);
    } else {
        lemma_sum_elem(s.drop_last(), i);
        lemma_sum_elem(s, i);
    }
}

proof fn lemma_sum_elem(s: Seq<nat>, i: int)
    requires
        0 <= i < s.len(),
    ensures
        s[i] <= seq_sum(s),
    decreases s.len(),
{
    if i < s.len() - 1 {
        lemma_sum_elem(s.drop_last(), i);
    }
}

/// The words after the first.
fn tail_words(ws: &Vec<Vec<char>>) -> (rest: Vec<Vec<char>>)
    ensures
        views(rest@) == (if ws@.len() == 0 {
            views(ws@)
        } else {
            views(ws@).drop_first()
        }),
{
    let mut rest: Vec<Vec<char>> = Vec::new();
    if ws.len() == 0 {
        assert(views(rest@) =~= views(ws@));
        return rest;
    }
    let mut i: usize = 1;
    while i < ws.len()
        invariant
            1 <= i <= ws.len(),
            views(rest@) == views(ws@).subrange(1, i as int),
        decreases ws.len() - i,
    {
        let w = copy_range(&ws[i], 0, ws[i].len());
        assert(w@ =~= ws@[i as int]@);
        let ghost before = rest@;
        rest.push(w);
        assert(views(rest@) =~= views(before).push(w@));
        i = i + 1;
        assert(views(ws@).subrange(1, i as int) =~= views(ws@).subrange(1, i - 1).push(
            ws@[i - 1]@,
        ));
    }
    assert(views(ws@).subrange(1, ws.len() as int) =~= views(ws@).drop_first());
    rest
}

fn cpu_counts_of(line: &Vec<char>) -> (r: Option<(u64, u64)>)
    requires
        cpu_line_fits(line@),
    ensures
        r matches Some(p) ==> cpu_totals(cpu_fields(line@)) == Some((p.0 as nat, p.1 as nat)),
        r is None ==> cpu_totals(cpu_fields(line@)) is None,
{
    let ws = split_words(line);
    let rest = tail_words(&ws);
    let nums = parse_all(&rest, 10, u64::MAX);
    let ghost ns = nums@.map_values(|x: u64| x as nat);
    assert(ns == cpu_fields(line@));
    if nums.len() < 4 {
        return None;
    }
    proof {
        lemma_sum_has(ns, 3, if ns.len() > 4 {
            4
        } else {
            0
        });
    }
    let idle = nums[3] + if nums.len() > 4 {
        nums[4]
    } else {
        0
    };
    let mut total: u64 = 0;
    let mut i: usize = 0;
    assert(ns.take(0) =~= seq![]);
    while i < nums.len()
        invariant
            i <= nums.len(),
            ns == nums@.map_values(|x: u64| x as nat),
            seq_sum(ns) <= u64::MAX,
            total == seq_sum(ns.take(i as int)),
        decreases nums.len() - i,
    {
        proof {
            assert(ns.take(i + 1).drop_last() =~= ns.take(i as int));
            lemma_sum_prefix(ns, i + 1);
        }
        total = total + nums[i];
        i = i + 1;
    }
    assert(ns.take(nums.len() as int) =~= ns);
    if nums.len() > 8 {
        proof {
            lemma_sum_elem(ns, 8);
        }
        total = total - nums[8];
    }
    Some((total, idle))
}

/// Parse a `/proc/stat` cpu line into (total, idle) time.
pub fn parse_cpu_line(line: &str) -> (r: Option<(u64, u64)>)
    requires
        cpu_line_fits(line@),
    ensures
        r matches Some(p) ==> cpu_totals(cpu_fields(line@)) == Some((p.0 as nat, p.1 as nat)),
        r is None ==> cpu_totals(cpu_fields(line@)) is None,
{
    let v = chars_of(line);
    cpu_counts_of(&v)
}

/// Whether the counters of `line` can be added up in a `u64`.
pub fn cpu_line_counts_fit(line: &str) -> (b: bool)
    ensures
        b == cpu_line_fits(line@),
{
    let v = chars_of(line);
    counts_fit(&v)
}

fn counts_fit(line: &Vec<char>) -> (b: bool)
    ensures
        b == cpu_line_fits(line@),
{
    let ws = split_words(line);
    let rest = tail_words(&ws);
    let nums = parse_all(&rest, 10, u64::MAX);
    let ghost ns = nums@.map_values(|x: u64| x as nat);
    assert(ns == cpu_fields(line@));
    if nums.len() < 4 {
        return true;
    }
    let mut total: u64 = 0;
    let mut k: usize = 0;
    assert(ns.take(0) =~= seq![]);
    while k < nums.len()
        invariant
            k <= nums.len(),
            nums.len() >= 4,
            ns == cpu_fields(line@),
            ns == nums@.map_values(|x: u64| x as nat),
            total == seq_sum(ns.take(k as int)),
        decreases nums.len() - k,
    {
        assert(ns.take(k + 1).drop_last() =~= ns.take(k as int));
        assert(ns.take(k + 1).last() == nums@[k as int] as nat);
        if nums[k] > u64::MAX - total {
            proof {
                lemma_sum_prefix(ns, k + 1);
            }
            return false;
        }
        total = total + nums[k];
        k = k + 1;
    }
    assert(ns.take(nums.len() as int) =~= ns);
    true
}

// ---------------------------------------------------------------------
// `/proc/stat` deltas
// ---------------------------------------------------------------------

/// A line of one core (`cpuN ...`), not the aggregate `cpu ...` line.
pub open spec fn is_core_line(l: Seq<char>) -> bool {
    starts_with(l, "cpu"@) && !starts_with(l, "cpu "@)
}

/// The (total, idle) counts of the core lines among `ls` that parse, in order.
pub open spec fn core_counts(ls: Seq<Seq<char>>) -> Seq<(nat, nat)>
    decreases ls.len(),
{
    if ls.len() == 0 {
        seq![]
    } else {
        let p = core_counts(ls.drop_last());
        let l = ls.last();
        if is_core_line(l) {
            match cpu_totals(cpu_fields(l)) {
                Some(c) => p.push(c),
                None => p,
            }
        } else {
            p
        }
    }
}

/// `a - b`, or 0 when `b` is larger.
pub open spec fn sat_sub(a: nat, b: nat) -> nat {
    if a > b {
        (a - b) as nat
    } else {
        0
    }
}

/// The lines after the first of `ls`.
pub open spec fn after_first(ls: Seq<Seq<char>>) -> Seq<Seq<char>> {
    if ls.len() == 0 {
        ls
    } else {
        ls.drop_first()
    }
}

/// Every line of `/proc/stat` text that gets added up fits in a `u64`:
/// the first, and each core line after it.
pub open spec fn stat_fits(text: Seq<char>) -> bool {
    let ls = lines(text);
    &&& ls.len() > 0 ==> cpu_line_fits(ls[0])
    &&& forall|i: int| 1 <= i < ls.len() && is_core_line(#[trigger] ls[i]) ==> cpu_line_fits(ls[i])
}

/// The pair `p` as numbers.
pub open spec fn nat_pair(p: (u64, u64)) -> (nat, nat) {
    (p.0 as nat, p.1 as nat)
}

/// The pairs of `s` as numbers.
pub open spec fn nat_pairs(s: Seq<(u64, u64)>) -> Seq<(nat, nat)> {
    s.map_values(|p: (u64, u64)| nat_pair(p))
}

/// The (total, idle) counts of the first line of `/proc/stat` text, if it parses.
pub open spec fn first_counts(text: Seq<char>) -> Option<(nat, nat)> {
    let ls = lines(text);
    if ls.len() > 0 {
        cpu_totals(cpu_fields(ls[0]))
    } else {
        None
    }
}

/// The (total, idle) counts of the core lines of `/proc/stat` text, in order.
pub open spec fn stat_cores(text: Seq<char>) -> Seq<(nat, nat)> {
    core_counts(after_first(lines(text)))
}

/// The elapsed (total, idle) time of the aggregate line of `text` since the
/// counts `prev`, when the line parses.
pub open spec fn total_elapsed(prev: (nat, nat), text: Seq<char>) -> Option<(nat, nat)> {
    match first_counts(text) {
        Some(c) => Some((sat_sub(c.0, prev.0), sat_sub(c.1, prev.1))),
        None => None,
    }
}

/// The aggregate counts remembered after sampling `text`: its own when its
/// first line parses, `prev` otherwise.
pub open spec fn total_after(prev: (nat, nat), text: Seq<char>) -> (nat, nat) {
    match first_counts(text) {
        Some(c) => c,
        None => prev,
    }
}

/// The elapsed (total, idle) time of the `k`th core line of `text` since
/// the counts `prev_cores` (since itself when there is no earlier count).
pub open spec fn core_elapsed(prev_cores: Seq<(nat, nat)>, text: Seq<char>, k: int) -> (nat, nat) {
    let cores = stat_cores(text);
    let before = if k < prev_cores.len() {
        prev_cores[k]
    } else {
        cores[k]
    };
    (sat_sub(cores[k].0, before.0), sat_sub(cores[k].1, before.1))
}

/// Law: sampling the same `/proc/stat` text again right after it was
/// sampled shows no elapsed time, on the aggregate line or on any core;
/// nor does any core on the first sample, whatever came before.
pub proof fn law_resample_shows_no_time(prev: (nat, nat), text: Seq<char>)
    ensures
        total_elapsed(total_after(prev, text), text) matches Some(t) ==> t == (0nat, 0nat),
        forall|k: int|
            0 <= k < stat_cores(text).len() ==> #[trigger] core_elapsed(stat_cores(text), text, k)
                == (0nat, 0nat),
        forall|k: int|
            0 <= k < stat_cores(text).len() ==> #[trigger] core_elapsed(seq![], text, k) == (
                0nat,
                0nat,
            ),
{
}

/// What changed between two samples of `/proc/stat`.
pub struct StatDelta {
    /// (total, idle) time elapsed on the aggregate line, if it parsed.
    pub total: Option<(u64, u64)>,
    /// (total, idle) time elapsed on each core line that parsed, in order.
    pub per_core: Vec<(u64, u64)>,
}

/// The counters seen at the previous sample.
pub struct CpuTicks {
    prev_total: u64,
    prev_idle: u64,
    prev_per: Vec<(u64, u64)>,
}

impl CpuTicks {
    /// (total, idle) of the aggregate line last seen.
    pub closed spec fn prev(&self) -> (nat, nat) {
        (self.prev_total as nat, self.prev_idle as nat)
    }

    /// (total, idle) of each core last seen.
    pub closed spec fn prev_cores(&self) -> Seq<(nat, nat)> {
        nat_pairs(self.prev_per@)
    }

    /// No sample seen yet: all counters zero, no cores.
    pub fn new() -> (t: Self)
        ensures
            t.prev() == (0nat, 0nat),
            t.prev_cores() == Seq::<(nat, nat)>::empty(),
    {
        let t = CpuTicks { prev_total: 0, prev_idle: 0, prev_per: Vec::new() };
        assert(t.prev_cores() =~= Seq::<(nat, nat)>::empty());
        t
    }

    /// Takes a new sample from the text of `/proc/stat`: the elapsed
    /// (total, idle) time of the aggregate line (the first line) and of each
    /// core line, each against the previous sample (a core not seen before
    /// counts from itself), and remembers the new counts. Counters that went
    /// backwards count as zero elapsed time. The aggregate count is kept when
    /// the first line does not parse.
    pub fn advance(&mut self, text: &str) -> (d: StatDelta)
        requires
            stat_fits(text@),
        ensures
            match d.total {
                Some(t) => total_elapsed(old(self).prev(), text@) == Some(nat_pair(t)),
                None => total_elapsed(old(self).prev(), text@) is None,
            },
            final(self).prev() == total_after(old(self).prev(), text@),
            final(self).prev_cores() == stat_cores(text@),
            d.per_core@.len() == stat_cores(text@).len(),
            forall|k: int|
                0 <= k < stat_cores(text@).len() ==> nat_pair(#[trigger] d.per_core@[k])
                    == core_elapsed(old(self).prev_cores(), text@, k),
    {
        let chars = chars_of(text);
        let ls = split_lines(&chars);
        let ghost lsv = views(ls@);
        let ghost old_cores = old(self).prev_cores();
        let mut per: Vec<(u64, u64)> = Vec::new();
        let mut seen: Vec<(u64, u64)> = Vec::new();
        let mut i: usize = 1;
        assert(after_first(lsv).take(0) =~= seq![]);
        while i < ls.len()
            invariant
                1 <= i <= ls.len() || (i == 1 && ls.len() == 0),
                lsv == views(ls@),
                lsv == lines(text@),
                stat_fits(text@),
                self.prev_total == old(self).prev_total,
                self.prev_idle == old(self).prev_idle,
                old_cores == nat_pairs(self.prev_per@),
                nat_pairs(seen@) == core_counts(
                    after_first(lsv).take(i - 1),
                ),
                per@.len() == seen@.len(),
                forall|k: int|
                    0 <= k < seen@.len() ==> {
                        let before = if k < old_cores.len() {
                            old_cores[k]
                        } else {
                            nat_pair(seen@[k])
                        };
                        nat_pair(#[trigger] per@[k]) == (
                            sat_sub(seen@[k].0 as nat, before.0),
                            sat_sub(seen@[k].1 as nat, before.1),
                        )
                    },
            decreases ls.len() - i,
        {
            let ghost rest = after_first(lsv);
            assert(rest.take(i as int).drop_last() =~= rest.take(i - 1));
            assert(rest.take(i as int).last() == lsv[i as int]);
            let l = &ls[i];
            let cpu = vec!['c', 'p', 'u'];
            let cpu_sp = vec!['c', 'p', 'u', ' '];
            proof {
                reveal_strlit("cpu");
                reveal_strlit("cpu ");
                assert(cpu@ =~= "cpu"@);
                assert(cpu_sp@ =~= "cpu "@);
            }
            if has_prefix(l, &cpu) && !has_prefix(l, &cpu_sp) {
                assert(is_core_line(lsv[i as int]));
                match cpu_counts_of(l) {
                    Some((t, idle)) => {
                        let k = seen.len();
                        let prev = if k < self.prev_per.len() {
                            self.prev_per[k]
                        } else {
                            (t, idle)
                        };
                        let dt = if t > prev.0 {
                            t - prev.0
                        } else {
                            0
                        };
                        let di = if idle > prev.1 {
                            idle - prev.1
                        } else {
                            0
                        };
                        let ghost seen_before = seen@;
                        per.push((dt, di));
                        seen.push((t, idle));
                        assert(nat_pairs(seen@) =~= nat_pairs(seen_before).push((t as nat, idle as nat)));
                        proof {
                            if k < old_cores.len() {
                                assert(old_cores[k as int] == nat_pair(self.prev_per@[k as int]));
                            }
                        }
                    },
                    None => {},
                }
            }
            i = i + 1;
        }
        proof {
            if ls.len() > 0 {
                assert(i == ls.len());
                assert(after_first(lsv).len() == ls.len() - 1);
                assert(after_first(lsv).take(ls.len() - 1) =~= after_first(lsv));
                assert(nat_pairs(seen@) == core_counts(after_first(lsv).take(i - 1)));
            } else {
                assert(after_first(lsv).take(0) =~= after_first(lsv));
            }
            assert(nat_pairs(seen@) == core_counts(after_first(lsv)));
        }
        let ghost seen_final = seen;
        self.prev_per = seen;
        let mut total: Option<(u64, u64)> = None;
        if ls.len() > 0 {
            match cpu_counts_of(&ls[0]) {
                Some((t, i)) => {
                    let dt = if t > self.prev_total {
                        t - self.prev_total
                    } else {
                        0
                    };
                    let di = if i > self.prev_idle {
                        i - self.prev_idle
                    } else {
                        0
                    };
                    total = Some((dt, di));
                    self.prev_total = t;
                    self.prev_idle = i;
                },
                None => {},
            }
        }
        let d = StatDelta { total, per_core: per };
        proof {
            let cores = stat_cores(text@);
            assert forall|k: int| 0 <= k < cores.len() implies nat_pair(#[trigger] d.per_core@[k])
                == core_elapsed(old(self).prev_cores(), text@, k) by {
                assert(cores[k] == nat_pair(seen_final@[k]));
            }
        }
        d
    }
}

/// Whether the text of `/proc/stat` can be sampled without a counter sum
/// overflowing a `u64`.
pub fn stat_text_fits(text: &str) -> (b: bool)
    ensures
        b == stat_fits(text@),
{
    let chars = chars_of(text);
    let ls = split_lines(&chars);
    let ghost lsv = views(ls@);
    if ls.len() == 0 {
        return true;
    }
    if !counts_fit(&ls[0]) {
        return false;
    }
    let cpu = vec!['c', 'p', 'u'];
    let cpu_sp = vec!['c', 'p', 'u', ' '];
    proof {
        reveal_strlit("cpu");
        reveal_strlit("cpu ");
        assert(cpu@ =~= "cpu"@);
        assert(cpu_sp@ =~= "cpu "@);
    }
    let mut i: usize = 1;
    while i < ls.len()
        invariant
            1 <= i <= ls.len(),
            lsv == views(ls@),
            lsv == lines(text@),
            cpu@ == "cpu"@,
            cpu_sp@ == "cpu "@,
            forall|j: int| 1 <= j < i && is_core_line(#[trigger] lsv[j]) ==> cpu_line_fits(lsv[j]),
        decreases ls.len() - i,
    {
        assert(lsv[i as int] == ls@[i as int]@);
        if has_prefix(&ls[i], &cpu) && !has_prefix(&ls[i], &cpu_sp) {
            if !counts_fit(&ls[i]) {
                return false;
            }
        }
        i = i + 1;
    }
    true
}

// ---------------------------------------------------------------------
// `/proc/meminfo`
// ---------------------------------------------------------------------

/// Memory and swap sizes in KiB.
#[derive(Clone, Copy, Debug, PartialEq, Eq, Structural)]
pub struct MemCounters {
    pub mem_total_kb: u64,
    pub mem_avail_kb: u64,
    pub swap_total_kb: u64,
    pub swap_free_kb: u64,
}

/// `c` after one `/proc/meminfo` line: `MemTotal:`, `MemAvailable:`,
/// `SwapTotal:` and `SwapFree:` set their counter from the number after
/// them; other lines, and lines without a number there, change nothing.
pub open spec fn meminfo_line(c: MemCounters, l: Seq<char>) -> MemCounters {
    let ws = words(l);
    let key = if ws.len() > 0 {
        ws[0]
    } else {
        seq![]
    };
    let val = if ws.len() > 1 {
        parse_unsigned(ws[1], 10, u64::MAX as nat)
    } else {
        None
    };
    match val {
        None => c,
        Some(v) => if key == "MemTotal:"@ {
            MemCounters { mem_total_kb: v as u64, ..c }
        } else if key == "MemAvailable:"@ {
            MemCounters { mem_avail_kb: v as u64, ..c }
        } else if key == "SwapTotal:"@ {
            MemCounters { swap_total_kb: v as u64, ..c }
        } else if key == "SwapFree:"@ {
            MemCounters { swap_free_kb: v as u64, ..c }
        } else {
            c
        },
    }
}

/// `c` after the lines `ls` in order.
pub open spec fn meminfo_apply(c: MemCounters, ls: Seq<Seq<char>>) -> MemCounters
    decreases ls.len(),
{
    if ls.len() == 0 {
        c
    } else {
        meminfo_line(meminfo_apply(c, ls.drop_last()), ls.last())
    }
}

impl MemCounters {
    /// Before the first reading: 1 KiB of memory, all available; no swap.
    pub fn new() -> (c: Self)
        ensures
            c == (MemCounters { mem_total_kb: 1, mem_avail_kb: 1, swap_total_kb: 0, swap_free_kb: 0 }),
    {
        MemCounters { mem_total_kb: 1, mem_avail_kb: 1, swap_total_kb: 0, swap_free_kb: 0 }
    }

    /// Updates the counters from the text of `/proc/meminfo`.
    pub fn apply_meminfo(&mut self, text: &str)
        ensures
            *final(self) == meminfo_apply(*old(self), lines(text@)),
    {
        let chars = chars_of(text);
        let ls = split_lines(&chars);
        let ghost lsv = views(ls@);
        let k_total = chars_of("MemTotal:");
        let k_avail = chars_of("MemAvailable:");
        let k_stot = chars_of("SwapTotal:");
        let k_sfree = chars_of("SwapFree:");
        let mut i: usize = 0;
        assert(lsv.take(0) =~= seq![]);
        while i < ls.len()
            invariant
                i <= ls.len(),
                lsv == views(ls@),
                lsv == lines(text@),
                k_total@ == "MemTotal:"@,
                k_avail@ == "MemAvailable:"@,
                k_stot@ == "SwapTotal:"@,
                k_sfree@ == "SwapFree:"@,
                *self == meminfo_apply(*old(self), lsv.take(i as int)),
            decreases ls.len() - i,
        {
            assert(lsv.take(i + 1).drop_last() =~= lsv.take(i as int));
            assert(lsv.take(i + 1).last() == ls@[i as int]@);
            let ws = split_words(&ls[i]);
            let val = if ws.len() > 1 {
                parse_unsigned_chars(&ws[1], 10, u64::MAX)
            } else {
                None
            };
            assert(views(ws@).len() == ws@.len());
            if let Some(v) = val {
                let empty: Vec<char> = Vec::new();
                let key: &Vec<char> = if ws.len() > 0 {
                    &ws[0]
                } else {
                    &empty
                };
                assert(key@ =~= (if views(ws@).len() > 0 {
                    views(ws@)[0]
                } else {
                    seq![]
                }));
                if crate::theme::same_chars(key, &k_total) {
                    self.mem_total_kb = v;
                } else if crate::theme::same_chars(key, &k_avail) {
                    self.mem_avail_kb = v;
                } else if crate::theme::same_chars(key, &k_stot) {
                    self.swap_total_kb = v;
                } else if crate::theme::same_chars(key, &k_sfree) {
                    self.swap_free_kb = v;
                }
            }
            i = i + 1;
        }
        assert(lsv.take(ls.len() as int) =~= lsv);
    }

    /// Memory in use: total less available, or 0.
    pub fn mem_used_kb(&self) -> (r: u64)
        ensures
            r == sat_sub(self.mem_total_kb as nat, self.mem_avail_kb as nat),
    {
        if self.mem_total_kb > self.mem_avail_kb {
            self.mem_total_kb - self.mem_avail_kb
        } else {
            0
        }
    }

    /// Swap in use: total less free, or 0.
    pub fn swap_used_kb(&self) -> (r: u64)
        ensures
            r == sat_sub(self.swap_total_kb as nat, self.swap_free_kb as nat),
    {
        if self.swap_total_kb > self.swap_free_kb {
            self.swap_total_kb - self.swap_free_kb
        } else {
            0
        }
    }
}

// ---------------------------------------------------------------------
// `/proc/cpuinfo`
// ---------------------------------------------------------------------

/// `model name`.
pub open spec fn model_prefix() -> Seq<char> {
    seq!['m', 'o', 'd', 'e', 'l', ' ', 'n', 'a', 'm', 'e']
}

/// The model name on a `model name ... : NAME` line: everything after the
/// first `:` following the prefix, trimmed.
pub open spec fn model_of_line(l: Seq<char>) -> Option<Seq<char>> {
    if starts_with(l, model_prefix()) {
        let rest = l.skip(10);
        match find_char(rest, ':') {
            None => None,
            Some(a) => Some(trim(rest.skip(a + 1))),
        }
    } else {
        None
    }
}

/// The model name on the first line of `ls` that has one.
pub open spec fn model_in(ls: Seq<Seq<char>>) -> Option<Seq<char>>
    decreases ls.len(),
{
    if ls.len() == 0 {
        None
    } else {
        match model_of_line(ls[0]) {
            Some(m) => Some(m),
            None => model_in(ls.drop_first()),
        }
    }
}

/// The first `c` of `v`.
fn find_in(v: &Vec<char>, c: char) -> (r: Option<usize>)
    ensures
        r matches Some(i) ==> find_char(v@, c) == Some(i as int) && i < v.len(),
        r is None ==> find_char(v@, c) is None,
{
    let mut i: usize = 0;
    assert(v@.skip(0) =~= v@);
    while i < v.len()
        invariant
            i <= v.len(),
            find_char(v@, c) == (match find_char(v@.skip(i as int), c) {
                Some(j) => Some(j + i),
                None => None,
            }),
        decreases v.len() - i,
    {
        if v[i] == c {
            return Some(i);
        }
        assert(v@.skip(i as int).drop_first() =~= v@.skip(i + 1));
        i = i + 1;
    }
    None
}

fn model_of(l: &Vec<char>) -> (r: Option<Vec<char>>)
    ensures
        r matches Some(m) ==> model_of_line(l@) == Some(m@),
        r is None ==> model_of_line(l@) is None,
{
    let prefix = vec!['m', 'o', 'd', 'e', 'l', ' ', 'n', 'a', 'm', 'e'];
    assert(prefix@ =~= model_prefix());
    if !has_prefix(l, &prefix) {
        return None;
    }
    let rest = copy_range(l, 10, l.len());
    assert(rest@ =~= l@.skip(10));
    match find_in(&rest, ':') {
        None => None,
        Some(a) => {
            let after = copy_range(&rest, a + 1, rest.len());
            assert(after@ =~= rest@.skip(a + 1));
            Some(trim_chars(&after))
        },
    }
}

/// The CPU model named in the text of `/proc/cpuinfo` (first "model name"
/// line), or `CPU` when there is none or no text.
pub fn cpu_model_from(text: Option<&str>) -> (s: String)
    ensures
        s@ == (match text {
            Some(t) => match model_in(lines(t@)) {
                Some(m) => m,
                None => "CPU"@,
            },
            None => "CPU"@,
        }),
{
    let fallback = chars_of("CPU");
    match text {
        None => string_of(&fallback),
        Some(t) => {
            let chars = chars_of(t);
            let ls = split_lines(&chars);
            let ghost lsv = views(ls@);
            let mut i: usize = 0;
            assert(lsv.skip(0) =~= lsv);
            while i < ls.len()
                invariant
                    i <= ls.len(),
                    lsv == views(ls@),
                    lsv == lines(t@),
                    text == Some(t),
                    model_in(lsv) == model_in(lsv.skip(i as int)),
                decreases ls.len() - i,
            {
                assert(lsv.skip(i as int)[0] == ls@[i as int]@);
                assert(lsv.skip(i as int).len() > 0);
                match model_of(&ls[i]) {
                    Some(m) => {
                        return string_of(&m);
                    },
                    None => {},
                }
                assert(lsv.skip(i as int).drop_first() =~= lsv.skip(i + 1));
                i = i + 1;
            }
            string_of(&fallback)
        },
    }
}

/// A new sample is due: none was taken yet, or at least 200 ms passed.
pub fn sample_due(elapsed_ms: Option<u128>) -> (b: bool)
    ensures
        b == match elapsed_ms {
            None => true,
            Some(e) => e >= 200,
        },
{
    match elapsed_ms {
        None => true,
        Some(e) => e >= 200,
    }
}

/// A sample is due at `now` (nanoseconds on a clock that never goes back)
/// when none was taken yet, or at least 200 whole milliseconds passed since
/// the last one at `last`.
pub open spec fn due_at(last: Option<u128>, now: u128) -> bool {
    match last {
        None => true,
        Some(p) => sat_sub(now as nat, p as nat) / 1_000_000 >= 200,
    }
}

/// When the last sample was taken after a tick at `now`.
pub open spec fn last_after(last: Option<u128>, now: u128) -> Option<u128> {
    if due_at(last, now) {
        Some(now)
    } else {
        last
    }
}

/// When the last sample was taken, in nanoseconds on a clock that never
/// goes back.
pub struct SampleTimer {
    last: Option<u128>,
}

impl SampleTimer {
    /// The time of the last sample, if one was taken.
    pub closed spec fn last_sample(&self) -> Option<u128> {
        self.last
    }

    /// No sample taken yet.
    pub fn new() -> (t: Self)
        ensures
            t.last_sample() is None,
    {
        SampleTimer { last: None }
    }

    /// Whether a sample is due at `now`; when it is, it counts as taken now.
    pub fn tick(&mut self, now: u128) -> (due: bool)
        ensures
            due == due_at(old(self).last_sample(), now),
            final(self).last_sample() == last_after(old(self).last_sample(), now),
    {
        let elapsed = match self.last {
            None => None,
            Some(p) => Some(
                if now > p {
                    (now - p) / 1_000_000
                } else {
                    0
                },
            ),
        };
        let due = sample_due(elapsed);
        if due {
            self.last = Some(now);
        }
        due
    }
}

/// Law: the first tick takes a sample, and samples are taken at least
/// 200 ms apart: after a tick at `t1`, a tick at a later `t2` takes one only
/// when at least 200 ms passed since the last sample; a tick that takes
/// none leaves the time of the last sample as it was.
pub proof fn law_samples_apart(last: Option<u128>, t1: u128, t2: u128)
    requires
        t1 <= t2,
    ensures
        due_at(None, t1),
        due_at(last, t1) && due_at(last_after(last, t1), t2) ==> t2 - t1 >= 200_000_000,
        ({
            let l = last_after(last, t1);
            l matches Some(p) ==> (due_at(l, t2) ==> t2 - p >= 200_000_000)
        }),
        !due_at(last_after(last, t1), t2) ==> last_after(last_after(last, t1), t2) == last_after(
            last,
            t1,
        ),
{
    let l = last_after(last, t1);
    if let Some(p) = l {
        if due_at(l, t2) {
            if t2 < p {
                assert(sat_sub(t2 as nat, p as nat) == 0);
            }
            assert(t2 - p >= 200_000_000);
        }
    }
}

proof fn lemma_sum_three(s: Seq<nat>, i: int, j: int, k: int)
    requires
        0 <= i < j < k < s.len(),
    ensures
        s[i] + s[j] + s[k] <= seq_sum(s),
    decreases s.len(),
{
    if k < s.len() - 1 {
        lemma_sum_three(s.drop_last(), i, j, k);
    } else {
        lemma_sum_has(s.drop_last(), i, j);
    }
}

/// Law: a cpu line with at least four counters reads as (total, idle): idle
/// is the idle counter (the fourth) plus iowait (the fifth) when present;
/// the total with guest time (the ninth) added back is the sum of all the
/// counters, so with no guest time it is the full sum; and idle time never
/// exceeds the total.
pub proof fn law_cpu_totals(nums: Seq<nat>)
    requires
        nums.len() >= 4,
    ensures
        cpu_totals(nums) is Some,
        cpu_totals(nums) matches Some(c) ==> {
            &&& c.1 == nums[3] + (if nums.len() > 4 {
                nums[4]
            } else {
                0
            })
            &&& c.0 + (if nums.len() > 8 {
                nums[8]
            } else {
                0
            }) == seq_sum(nums)
            &&& (nums.len() <= 8 || nums[8] == 0) ==> c.0 == seq_sum(nums)
            &&& c.1 <= c.0
        },
{
    if nums.len() > 8 {
        lemma_sum_three(nums, 3, 4, 8);
    } else if nums.len() > 4 {
        lemma_sum_has(nums, 3, 4);
    } else {
        lemma_sum_elem(nums, 3);
    }
}

proof fn lemma_find_char(s: Seq<char>, c: char)
    ensures
        find_char(s, c) matches Some(a) ==> 0 <= a < s.len() && s[a] == c && forall|j: int|
            0 <= j < a ==> s[j] != c,
        find_char(s, c) is None ==> forall|j: int| 0 <= j < s.len() ==> s[j] != c,
    decreases s.len(),
{
    if s.len() > 0 {
        lemma_find_char(s.drop_first(), c);
        if s[0] != c {
            assert forall|j: int| 1 <= j < s.len() implies s[j] == s.drop_first()[j - 1] by {}
        }
    }
}

/// Law: only a line that starts with the ten characters `model name` names
/// the CPU model, and one does exactly when a `:` follows that prefix; the
/// name is then everything after the first such `:`, trimmed.
pub proof fn law_model_line(l: Seq<char>)
    ensures
        model_of_line(l) is Some ==> l.len() >= 10 && l.take(10) == "model name"@,
        model_of_line(l) matches Some(m) ==> exists|a: int|
            10 <= a < l.len() && l[a] == ':' && (forall|j: int| 10 <= j < a ==> l[j] != ':')
                && m == trim(#[trigger] l.skip(a + 1)),
        (l.len() >= 10 && l.take(10) == "model name"@ && exists|a: int|
            10 <= a < l.len() && #[trigger] l[a] == ':') ==> model_of_line(l) is Some,
{
    reveal_strlit("model name");
    assert(model_prefix() =~= "model name"@);
    let rest = l.skip(10);
    lemma_find_char(rest, ':');
    if l.len() >= 10 {
        assert forall|j: int| 10 <= j < l.len() implies l[j] == rest[j - 10] by {}
    }
    match find_char(rest, ':') {
        Some(a) => {
            if starts_with(l, model_prefix()) {
                assert(rest.skip(a + 1) =~= l.skip(a + 10 + 1));
                assert(l[a + 10] == ':');
            }
        },
        None => {},
    }
}

} // verus!
