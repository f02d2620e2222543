//! Bounded history of utilisation samples and its sparkline cells.

use vstd::prelude::*;

verus! {

/// A sample as stored: at most 100.
pub open spec fn clamp100(v: u64) -> u64 {
    if v < 100 {
        v
    } else {
        100
    }
}

/// The samples after recording `v` into `samples` under capacity `cap`:
/// the oldest sample leaves when the history is full.
pub open spec fn pushed(samples: Seq<u64>, cap: nat, v: u64) -> Seq<u64> {
    let kept = if samples.len() >= cap {
        samples.drop_first()
    } else {
        samples
    };
    kept.push(clamp100(v))
}

/// The most recent sample, or 0 when there is none.
pub open spec fn last_or_zero(samples: Seq<u64>) -> u64 {
    if samples.len() > 0 {
        samples.last()
    } else {
        0
    }
}

/// The samples held after recording each of `vs` in turn, starting empty.
pub open spec fn recorded(vs: Seq<u64>, cap: nat) -> Seq<u64>
    decreases vs.len(),
{
    if vs.len() == 0 {
        seq![]
    } else {
        pushed(recorded(vs.drop_last(), cap), cap, vs.last())
    }
}

/// A ring buffer of the most recent utilisation percentages.
pub struct History {
    buf: Vec<u64>,
    cap: usize,
}

/// One column of a sparkline.
#[derive(Clone, Copy, Debug, PartialEq, Eq, Structural)]
pub enum SparkCell {
    /// No sample for this column.
    Blank,
    /// A zero sample.
    Baseline,
    /// A sample filling this many eighths (1 to 8).
    Level(u8),
}

/// The cell that shows sample `v` (at most 100): a zero sample is the dim
/// baseline; any other sample is on the ramp, at its eighths rounded down
/// but at least one.
pub open spec fn cell_for(v: u64) -> SparkCell {
    let r = v * 8 / 100;
    let r = if r > 8 {
        8
    } else if r < 1 {
        1
    } else {
        r
    };
    if v == 0 {
        SparkCell::Baseline
    } else {
        SparkCell::Level(r as u8)
    }
}

/// Column `i` of a sparkline `width` columns wide over `samples`: the last
/// `width` samples from the left, blank columns after them.
pub open spec fn spark_cell(samples: Seq<u64>, width: nat, i: int) -> SparkCell {
    let n = samples.len();
    let start = if n > width {
        n - width
    } else {
        0
    };
    let idx = start + i;
    if idx >= n {
        SparkCell::Blank
    } else {
        cell_for(samples[idx])
    }
}

/// The character drawn for a cell.
pub open spec fn glyph_of(c: SparkCell) -> char {
    match c {
        SparkCell::Blank => ' ',
        SparkCell::Baseline => '▁',
        SparkCell::Level(r) => if r <= 1 {
            '▁'
        } else if r == 2 {
            '▂'
        } else if r == 3 {
            '▃'
        } else if r == 4 {
            '▄'
        } else if r == 5 {
            '▅'
        } else if r == 6 {
            '▆'
        } else if r == 7 {
            '▇'
        } else {
            '█'
        },
    }
}

impl SparkCell {
    /// The character drawn for this cell (the vertical-eighths ramp).
    pub fn glyph(&self) -> (c: char)
        ensures
            c == glyph_of(*self),
    {
        match self {
            SparkCell::Blank => ' ',
            SparkCell::Baseline => '▁',
            SparkCell::Level(r) => if *r <= 1 {
                '▁'
            } else if *r == 2 {
                '▂'
            } else if *r == 3 {
                '▃'
            } else if *r == 4 {
                '▄'
            } else if *r == 5 {
                '▅'
            } else if *r == 6 {
                '▆'
            } else if *r == 7 {
                '▇'
            } else {
                '█'
            },
        }
    }
}

impl History {
    /// The samples held, oldest first.
    pub closed spec fn samples(&self) -> Seq<u64> {
        self.buf@
    }

    /// How many samples the history keeps.
    pub closed spec fn capacity(&self) -> nat {
        self.cap as nat
    }

    /// No more samples than the capacity, each at most 100.
    #[verifier::type_invariant]
    spec fn bounded(&self) -> bool {
        &&& self.buf@.len() <= self.cap
        &&& forall|i: int| 0 <= i < self.buf@.len() ==> self.buf@[i] <= 100
    }

    /// An empty history keeping up to `cap` samples.
    pub fn new(cap: usize) -> (h: Self)
        ensures
            h.samples() == Seq::<u64>::empty(),
            h.capacity() == cap,
    {
        History { buf: Vec::with_capacity(cap), cap }
    }

    /// Records `v`, capped at 100, dropping the oldest sample when full.
    pub fn push(&mut self, v: u64)
        requires
            old(self).capacity() > 0,
        ensures
            final(self).capacity() == old(self).capacity(),
            final(self).samples() == pushed(old(self).samples(), old(self).capacity(), v),
    {
        proof {
            use_type_invariant(&*self);
        }
        let mut buf: Vec<u64> = Vec::new();
        std::mem::swap(&mut buf, &mut self.buf);
        if buf.len() >= self.cap {
            buf.remove(0);
        }
        let c = if v < 100 {
            v
        } else {
            100
        };
        buf.push(c);
        self.buf = buf;
    }

    /// Most recent pushed value, or 0 if empty.
    pub fn buf_last(&self) -> (r: u64)
        ensures
            r == last_or_zero(self.samples()),
    {
        if self.buf.len() > 0 {
            self.buf[self.buf.len() - 1]
        } else {
            0
        }
    }

    /// The cells of a sparkline `width` columns wide: the most recent
    /// `width` samples from the left, then blank columns.
    pub fn sparkline_cells(&self, width: usize) -> (cells: Vec<SparkCell>)
        ensures
            cells@.len() == width,
            forall|i: int|
                0 <= i < width ==> #[trigger] cells@[i] == spark_cell(
                    self.samples(),
                    width as nat,
                    i,
                ),
    {
        proof {
            use_type_invariant(self);
        }
        let n = self.buf.len();
        let start = if n > width {
            n - width
        } else {
            0
        };
        let mut cells: Vec<SparkCell> = Vec::new();
        let mut i: usize = 0;
        while i < width
            invariant
                forall|j: int| 0 <= j < self.buf@.len() ==> self.buf@[j] <= 100,
                n == self.buf@.len(),
                start == (if n > width {
                    n - width
                } else {
                    0
                }),
                i <= width,
                cells@.len() == i,
                forall|j: int|
                    0 <= j < i ==> #[trigger] cells@[j] == spark_cell(
                        self.buf@,
                        width as nat,
                        j,
                    ),
            decreases width - i,
        {
            let idx = start + i;
            let cell = if idx >= n {
                SparkCell::Blank
            } else {
                let v = self.buf[idx];
                let r = v * 8 / 100;
                let r = if r > 8 {
                    8
                } else if r < 1 {
                    1
                } else {
                    r
                };
                if v == 0 {
                    SparkCell::Baseline
                } else {
                    SparkCell::Level(r as u8)
                }
            };
            cells.push(cell);
            i = i + 1;
        }
        cells
    }
}

/// Law: reading the most recent sample right after recording `v` gives
/// `v` capped at 100.
pub proof fn law_last_after_push(samples: Seq<u64>, cap: nat, v: u64)
    requires
        cap > 0,
    ensures
        last_or_zero(pushed(samples, cap, v)) == clamp100(v),
{
}

/// Law: a history never holds more than its capacity, grows by one sample
/// per push until full, and every sample it holds is at most 100.
pub proof fn law_push_bounds(samples: Seq<u64>, cap: nat, v: u64)
    requires
        cap > 0,
        samples.len() <= cap,
        forall|i: int| 0 <= i < samples.len() ==> samples[i] <= 100,
    ensures
        pushed(samples, cap, v).len() == if samples.len() < cap {
            samples.len() + 1int
        } else {
            cap as int
        },
        forall|i: int|
            0 <= i < pushed(samples, cap, v).len() ==> #[trigger] pushed(samples, cap, v)[i] <= 100,
{
}

/// The capped values of `vs`.
pub open spec fn clamp_all(vs: Seq<u64>) -> Seq<u64> {
    vs.map_values(|v: u64| clamp100(v))
}

/// Law: after recording any sequence of values into an empty history of
/// capacity `cap`, it holds exactly the last `cap` of them (all of them
/// when fewer), capped at 100, oldest first.
pub proof fn law_keeps_most_recent(vs: Seq<u64>, cap: nat)
    requires
        cap > 0,
    ensures
        recorded(vs, cap) == clamp_all(vs).skip(
            if vs.len() > cap {
                vs.len() - cap
            } else {
                0
            },
        ),
    decreases vs.len(),
{
    if vs.len() == 0 {
        assert(clamp_all(vs).skip(0) =~= seq![]);
    } else {
        let prev = vs.drop_last();
        law_keeps_most_recent(prev, cap);
        let sp = if prev.len() > cap {
            prev.len() - cap
        } else {
            0
        };
        let s = if vs.len() > cap {
            vs.len() - cap
        } else {
            0
        };
        assert(clamp_all(prev) =~= clamp_all(vs).drop_last());
        let r = recorded(prev, cap);
        assert(r == clamp_all(prev).skip(sp));
        if r.len() >= cap {
            assert(pushed(r, cap, vs.last()) =~= clamp_all(vs).skip(s));
        } else {
            assert(pushed(r, cap, vs.last()) =~= clamp_all(vs).skip(s));
        }
    }
}

} // verus!
