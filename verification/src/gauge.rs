//! nvitop/btop-style block gauges with a FIXED-width track so bars align.
//! Layout:  `LABEL ███████░░░░  62%   used / total`
//!          [label][----- track -----][pct][--- value field ---]
//! The track width is `width - label - pct - value_field`, so as long as
//! callers in the same band pass the same `width` and `value_field`, every
//! bar's track is identical length and the percentages line up in a column.

use vstd::prelude::*;

use crate::text::{chars_of, dec, decimal, pad_left, pad_left_chars, append_chars, string_of};
use crate::theme::UtilKind;

verus! {

/// What a gauge measures.
#[derive(Clone, Copy, Debug, PartialEq, Eq, Structural)]
pub enum Kind {
    Gpu,
    Mem,
    Npu,
}

impl Kind {
    /// The utilisation kind whose colors the gauge uses.
    pub fn util_kind(self) -> (u: UtilKind)
        ensures
            u == match self {
                Kind::Gpu => UtilKind::Gpu,
                Kind::Mem => UtilKind::Mem,
                Kind::Npu => UtilKind::Npu,
            },
    {
        match self {
            Kind::Gpu => UtilKind::Gpu,
            Kind::Mem => UtilKind::Mem,
            Kind::Npu => UtilKind::Npu,
        }
    }
}

/// The columns a gauge reserves besides its track: the label and a space,
/// a space, the percentage text, and (when there is a value field) two
/// spaces and the field.
pub open spec fn reserved_width(label_len: nat, pct_len: nat, value_field: nat) -> nat {
    label_len + 1 + 1 + pct_len + (if value_field > 0 {
        2 + value_field
    } else {
        0
    })
}

/// The width of the track: what is left of `width` after the reserved columns.
pub open spec fn track_of(label_len: nat, pct_len: nat, width: nat, value_field: nat) -> nat {
    let r = reserved_width(label_len, pct_len, value_field);
    if width > r {
        (width - r) as nat
    } else {
        0
    }
}

/// The reserved columns fit in a `usize`.
pub open spec fn reserved_fits(label_len: nat, pct_len: nat, value_field: nat) -> bool {
    reserved_width(label_len, pct_len, value_field) <= usize::MAX
}

/// `n` copies of `c`.
pub open spec fn repeat(c: char, n: nat) -> Seq<char> {
    Seq::new(n, |_i| c)
}

/// The eighth-block glyph for a partial cell of `r` eighths (1 to 7).
pub open spec fn partial_glyph(r: nat) -> char {
    if r == 1 {
        '▏'
    } else if r == 2 {
        '▎'
    } else if r == 3 {
        '▍'
    } else if r == 4 {
        '▌'
    } else if r == 5 {
        '▋'
    } else if r == 6 {
        '▊'
    } else if r == 7 {
        '▉'
    } else {
        '█'
    }
}

/// The filled part of a track showing `n` eighths: a full block per eight,
/// then one partial block for the rest.
pub open spec fn fill_of(n: nat) -> Seq<char> {
    repeat('█', n / 8) + (if n % 8 > 0 {
        seq![partial_glyph(n % 8)]
    } else {
        seq![]
    })
}

/// The empty part of a track `track` wide after `n` eighths are filled.
pub open spec fn empty_of(track: nat, n: nat) -> Seq<char> {
    let used = n / 8 + (if n % 8 > 0 {
        1nat
    } else {
        0nat
    });
    repeat(
        '░',
        if track > used {
            (track - used) as nat
        } else {
            0
        },
    )
}

fn push_repeat(out: &mut Vec<char>, c: char, n: usize)
    ensures
        final(out)@ == old(out)@ + repeat(c, n as nat),
{
    let mut i: usize = 0;
    while i < n
        invariant
            i <= n,
            out@ == old(out)@ + repeat(c, i as nat),
        decreases n - i,
    {
        out.push(c);
        i = i + 1;
        assert(out@ =~= old(out)@ + repeat(c, i as nat));
    }
}

/// The width of a gauge's track (see `track_of`).
pub fn track_width(label: &str, pct_text: &str, width: usize, value_field: usize) -> (t: usize)
    requires
        reserved_fits(label@.len(), pct_text@.len(), value_field as nat),
    ensures
        t == track_of(label@.len(), pct_text@.len(), width as nat, value_field as nat),
{
    let l = chars_of(label);
    let p = chars_of(pct_text);
    let reserved = l.len() + 1 + 1 + p.len() + if value_field > 0 {
        2 + value_field
    } else {
        0
    };
    if width > reserved {
        width - reserved
    } else {
        0
    }
}

/// The filled and the empty part of a track `track` wide showing `eighths`
/// eighths of a cell.
pub fn fill_segments(track: usize, eighths: usize) -> (r: (String, String))
    ensures
        r.0@ == fill_of(eighths as nat),
        r.1@ == empty_of(track as nat, eighths as nat),
{
    let q = eighths / 8;
    let rem = eighths % 8;
    let mut fill: Vec<char> = Vec::new();
    push_repeat(&mut fill, '█', q);
    if rem > 0 {
        let g = if rem == 1 {
            '▏'
        } else if rem == 2 {
            '▎'
        } else if rem == 3 {
            '▍'
        } else if rem == 4 {
            '▌'
        } else if rem == 5 {
            '▋'
        } else if rem == 6 {
            '▊'
        } else {
            '▉'
        };
        fill.push(g);
    }
    assert(fill@ =~= fill_of(eighths as nat));
    let used = q + if rem > 0 {
        1
    } else {
        0
    };
    let n_empty = if track > used {
        track - used
    } else {
        0
    };
    let mut empty: Vec<char> = Vec::new();
    push_repeat(&mut empty, '░', n_empty);
    assert(empty@ =~= empty_of(track as nat, eighths as nat));
    (string_of(&fill), string_of(&empty))
}

/// The percentage text of a gauge: the whole percentage right-aligned in
/// three columns and `%`, or ` N/A` without one.
pub open spec fn percent_chars(p: Option<u64>) -> Seq<char> {
    match p {
        Some(n) => pad_left(dec(n as nat), 3, ' ') + seq!['%'],
        None => " N/A"@,
    }
}

/// The percentage text of a gauge (see `percent_chars`).
pub fn percent_text(p: Option<u64>) -> (s: String)
    ensures
        s@ == percent_chars(p),
{
    match p {
        Some(n) => {
            let mut v = pad_left_chars(decimal(n), 3, ' ');
            v.push('%');
            string_of(&v)
        },
        None => string_of(&chars_of(" N/A")),
    }
}

/// A percentage of at most 100, or none, takes four columns.
proof fn lemma_percent_width(p: Option<u64>)
    requires
        p matches Some(n) ==> n <= 100,
    ensures
        percent_chars(p).len() == 4,
{
    match p {
        Some(n) => {
            reveal_with_fuel(dec, 3);
            assert(dec(n as nat).len() <= 3);
        },
        None => {
            reveal_strlit(" N/A");
        },
    }
}

/// The theme color a part of a gauge is drawn in.
#[derive(Clone, Copy, Debug, PartialEq, Eq, Structural)]
pub enum GaugeColor {
    /// The theme's graph text color.
    GraphText,
    /// The utilisation color of the gauge's kind at its percentage.
    Util,
    /// The theme's inactive foreground.
    Inactive,
    /// The theme's main foreground.
    MainFg,
}

/// The colors of a gauge's parts.
#[derive(Clone, Copy, Debug, PartialEq, Eq, Structural)]
pub struct BarColors {
    pub label: GaugeColor,
    pub fill: GaugeColor,
    pub empty: GaugeColor,
    pub pct: GaugeColor,
    pub value: GaugeColor,
}

/// The colors of a gauge's parts: the label in graph text, the empty track
/// inactive, the value in the main foreground; the filled track and the
/// percentage in the utilisation color when there is a percentage, and
/// inactive when there is none.
pub open spec fn bar_colors_of(has_pct: bool) -> BarColors {
    let lit = if has_pct {
        GaugeColor::Util
    } else {
        GaugeColor::Inactive
    };
    BarColors {
        label: GaugeColor::GraphText,
        fill: lit,
        empty: GaugeColor::Inactive,
        pct: lit,
        value: GaugeColor::MainFg,
    }
}

/// The colors of a gauge's parts (see `bar_colors_of`).
pub fn bar_colors(has_pct: bool) -> (c: BarColors)
    ensures
        c == bar_colors_of(has_pct),
{
    let lit = if has_pct {
        GaugeColor::Util
    } else {
        GaugeColor::Inactive
    };
    BarColors {
        label: GaugeColor::GraphText,
        fill: lit,
        empty: GaugeColor::Inactive,
        pct: lit,
        value: GaugeColor::MainFg,
    }
}

/// The text of a gauge, part by part.
pub struct BarText {
    /// The label and a space.
    pub label: String,
    /// The filled part of the track.
    pub fill: String,
    /// The empty part of the track.
    pub empty: String,
    /// A space and the percentage text.
    pub pct: String,
    /// Two spaces and the value right-aligned in the value field, when there is one.
    pub value: Option<String>,
}

/// The text of a gauge: `label` and a space, the track (`eighths` eighths
/// filled, or all empty when there is no percentage), a space and
/// `pct_text`, and two spaces and `value` right-aligned in a field
/// `value_field` wide when that is not zero.
pub fn bar_text(
    label: &str,
    pct_text: &str,
    value: &str,
    width: usize,
    value_field: usize,
    eighths: Option<usize>,
) -> (b: BarText)
    requires
        reserved_fits(label@.len(), pct_text@.len(), value_field as nat),
    ensures
        ({
            let track = track_of(label@.len(), pct_text@.len(), width as nat, value_field as nat);
            let n = match eighths {
                Some(n) => n as nat,
                None => 0,
            };
            &&& b.label@ == label@.push(' ')
            &&& b.fill@ == fill_of(n)
            &&& b.empty@ == empty_of(track, n)
            &&& b.pct@ == seq![' '] + pct_text@
            &&& b.value matches Some(v) ==> v@ == seq![' ', ' '] + pad_left(value@, value_field as nat, ' ')
            &&& b.value is Some <==> value_field > 0
        }),
{
    let track = track_width(label, pct_text, width, value_field);
    let mut l = chars_of(label);
    l.push(' ');
    let (fill, empty) = match eighths {
        Some(n) => fill_segments(track, n),
        None => fill_segments(track, 0),
    };
    let mut p: Vec<char> = vec![' '];
    let pt = chars_of(pct_text);
    append_chars(&mut p, &pt);
    let value_text = if value_field > 0 {
        let mut v: Vec<char> = vec![' ', ' '];
        let padded = pad_left_chars(chars_of(value), value_field, ' ');
        append_chars(&mut v, &padded);
        Some(string_of(&v))
    } else {
        None
    };
    BarText { label: string_of(&l), fill, empty, pct: string_of(&p), value: value_text }
}

/// Law: the filled and the empty part of a track together are exactly as
/// wide as the track whenever the fill does not exceed it, so bars of one
/// width line up.
pub proof fn law_track_width(track: nat, n: nat)
    requires
        n <= 8 * track,
    ensures
        fill_of(n).len() + empty_of(track, n).len() == track,
{
}

/// Law: the percentage of a gauge starts in the same column whatever its
/// label, as long as the label leaves room for the track: `width` less the
/// space, the percentage text and the value field.
pub proof fn law_percent_column(
    label_len: nat,
    pct_len: nat,
    width: nat,
    value_field: nat,
    n: nat,
)
    requires
        n <= 8 * track_of(label_len, pct_len, width, value_field),
        reserved_width(label_len, pct_len, value_field) <= width,
    ensures
        (label_len + 1) + fill_of(n).len() + empty_of(
            track_of(label_len, pct_len, width, value_field),
            n,
        ).len() == width - (1 + pct_len + (if value_field > 0 {
            2 + value_field
        } else {
            0
        })),
{
    law_track_width(track_of(label_len, pct_len, width, value_field), n);
}

/// Law: a gauge whose value fits its field is exactly `width` columns wide
/// when that leaves room for a track, and just its reserved columns otherwise.
pub proof fn law_bar_width(
    label_len: nat,
    pct_len: nat,
    value_len: nat,
    width: nat,
    value_field: nat,
    n: nat,
)
    requires
        n <= 8 * track_of(label_len, pct_len, width, value_field),
        value_len <= value_field,
    ensures
        ({
            let track = track_of(label_len, pct_len, width, value_field);
            let total = (label_len + 1) + fill_of(n).len() + empty_of(track, n).len() + (1
                + pct_len) + (if value_field > 0 {
                2 + pad_left(Seq::new(value_len, |_i| ' '), value_field, ' ').len()
            } else {
                0
            });
            let r = reserved_width(label_len, pct_len, value_field);
            total == if width > r {
                width
            } else {
                r
            }
        }),
{
    let track = track_of(label_len, pct_len, width, value_field);
    law_track_width(track, n);
}

/// Law: gauges of one width and value field line up. Whatever their labels,
/// the percentage text (of a percentage of at most 100, or none) starts in
/// the same column, `width` less five and the value field; gauges whose
/// labels are equally long have tracks of the same width.
pub proof fn law_gauges_line_up(
    l1: nat,
    l2: nat,
    p1: Option<u64>,
    p2: Option<u64>,
    width: nat,
    value_field: nat,
    n1: nat,
    n2: nat,
)
    requires
        p1 matches Some(x) ==> x <= 100,
        p2 matches Some(x) ==> x <= 100,
        reserved_width(l1, percent_chars(p1).len(), value_field) <= width,
        reserved_width(l2, percent_chars(p2).len(), value_field) <= width,
        n1 <= 8 * track_of(l1, percent_chars(p1).len(), width, value_field),
        n2 <= 8 * track_of(l2, percent_chars(p2).len(), width, value_field),
    ensures
        ({
            let vf = if value_field > 0 {
                2 + value_field
            } else {
                0
            };
            let t1 = track_of(l1, percent_chars(p1).len(), width, value_field);
            let t2 = track_of(l2, percent_chars(p2).len(), width, value_field);
            &&& (l1 + 1) + fill_of(n1).len() + empty_of(t1, n1).len() == width - (5 + vf)
            &&& (l2 + 1) + fill_of(n2).len() + empty_of(t2, n2).len() == width - (5 + vf)
            &&& l1 == l2 ==> t1 == t2
        }),
{
    lemma_percent_width(p1);
    lemma_percent_width(p2);
    law_percent_column(l1, percent_chars(p1).len(), width, value_field, n1);
    law_percent_column(l2, percent_chars(p2).len(), width, value_field, n2);
}

} // verus!
