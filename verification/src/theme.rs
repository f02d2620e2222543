//! btop theme files: `theme[key]="value"` lines, color values in the
//! formats btop accepts, and the palette the UI draws with.

use vstd::prelude::*;

use crate::text::{
    is_ws, trim, trim_start, words, parse_unsigned, views, starts_with, chars_of, trim_chars,
    split_words, parse_unsigned_chars,
};

verus! {

// ---------------------------------------------------------------------
// colors
// ---------------------------------------------------------------------

/// A terminal color as the theme and the gauges use it.
#[derive(Clone, Copy, Debug, PartialEq, Eq, Structural)]
pub enum Color {
    /// A 24-bit color.
    Rgb(u8, u8, u8),
    /// An entry of the 256-color palette.
    Indexed(u8),
    /// A named terminal color or the terminal's default.
    Named,
}

/// Whether `to_rgb` can convert `c` without overflowing a channel: the
/// cube entries whose blue step is 5 (palette 221 and 227) overflow.
pub open spec fn rgb_defined(c: Color) -> bool {
    match c {
        Color::Indexed(i) => !(216 <= i <= 231 && (i - 216) % 6 == 5),
        _ => true,
    }
}

/// The red, green and blue channels of `c`: its own for RGB, the 6x6x6
/// cube and the grey ramp for palette entries, light grey otherwise.
pub open spec fn rgb_of(c: Color) -> (u8, u8, u8) {
    match c {
        Color::Rgb(r, g, b) => (r, g, b),
        Color::Indexed(i) => if 216 <= i <= 231 {
            let j = i - 216;
            ((36 + (j / 36) * 51) as u8, (36 + ((j / 6) % 6) * 51) as u8, (36 + (j % 6) * 51) as u8)
        } else if 232 <= i {
            let v = (8 + (i - 232) * 10) as u8;
            (v, v, v)
        } else {
            (200, 200, 200)
        },
        Color::Named => (200, 200, 200),
    }
}

/// The channels of `c` (see `rgb_of`).
pub fn to_rgb(c: Color) -> (r: (u8, u8, u8))
    requires
        rgb_defined(c),
    ensures
        r == rgb_of(c),
{
    match c {
        Color::Rgb(r, g, b) => (r, g, b),
        Color::Indexed(i) => {
            if 216 <= i && i <= 231 {
                let i = i - 216;
                (36 + (i / 36) * 51, 36 + ((i / 6) % 6) * 51, 36 + (i % 6) * 51)
            } else if 232 <= i {
                let v = 8 + (i - 232) * 10;
                (v, v, v)
            } else {
                (200, 200, 200)
            }
        },
        Color::Named => (200, 200, 200),
    }
}

// ---------------------------------------------------------------------
// UTF-8 lengths
// ---------------------------------------------------------------------

/// The number of bytes of `c` in UTF-8.
pub open spec fn utf8_width(c: char) -> nat {
    let u = c as u32;
    if u < 0x80 {
        1
    } else if u < 0x800 {
        2
    } else if u < 0x10000 {
        3
    } else {
        4
    }
}

/// The number of bytes of `s` in UTF-8.
pub open spec fn byte_len(s: Seq<char>) -> nat
    decreases s.len(),
{
    if s.len() == 0 {
        0
    } else {
        byte_len(s.drop_last()) + utf8_width(s.last())
    }
}

proof fn lemma_byte_len_step(s: Seq<char>, i: int)
    requires
        0 <= i < s.len(),
    ensures
        byte_len(s.take(i + 1)) == byte_len(s.take(i)) + utf8_width(s[i]),
{
    assert(s.take(i + 1).drop_last() =~= s.take(i));
}

proof fn lemma_byte_len_grows(s: Seq<char>, i: int, j: int)
    requires
        0 <= i <= j <= s.len(),
    ensures
        byte_len(s.take(i)) + (j - i) <= byte_len(s.take(j)),
    decreases j - i,
{
    if i < j {
        lemma_byte_len_grows(s, i, j - 1);
        lemma_byte_len_step(s, j - 1);
    }
}

/// The byte length of `v`, exact when at most `cap`, and some value above
/// `cap` otherwise.
fn byte_len_capped(v: &Vec<char>, cap: usize) -> (n: usize)
    requires
        cap < usize::MAX - 4,
    ensures
        n <= cap ==> n == byte_len(v@),
        n > cap ==> byte_len(v@) > cap,
{
    let mut n: usize = 0;
    let mut i: usize = 0;
    assert(v@.take(0) =~= seq![]);
    while i < v.len()
        invariant
            cap < usize::MAX - 4,
            i <= v.len(),
            n <= cap,
            n == byte_len(v@.take(i as int)),
        decreases v.len() - i,
    {
        proof {
            lemma_byte_len_step(v@, i as int);
        }
        let u = v[i] as u32;
        let w: usize = if u < 0x80 {
            1
        } else if u < 0x800 {
            2
        } else if u < 0x10000 {
            3
        } else {
            4
        };
        n = n + w;
        i = i + 1;
        if n > cap {
            proof {
                lemma_byte_len_grows(v@, i as int, v@.len() as int);
                assert(v@.take(v@.len() as int) =~= v@);
            }
            return n;
        }
    }
    assert(v@.take(v@.len() as int) =~= v@);
    n
}

// ---------------------------------------------------------------------
// color values
// ---------------------------------------------------------------------

/// A two-hex-digit byte value (`u8::from_str_radix(.., 16)`).
pub open spec fn hex_byte(p: Seq<char>) -> Option<nat> {
    parse_unsigned(p, 16, 255)
}

/// The color that the btop color value `s` names: `#RRGGBB`, `#BW` (a grey
/// of two hex digits) or `R G B` (exactly three decimal bytes separated by
/// whitespace); empty or anything else names none. Six bytes after `#` that
/// are not all ASCII name none, since one of their pairs is then not a
/// number.
pub open spec fn color_of(s: Seq<char>) -> Option<Color> {
    let t = trim(s);
    if t.len() == 0 {
        None
    } else if t[0] == '#' {
        let h = t.drop_first();
        if byte_len(h) == 6 {
            if h.len() == 6 {
                match (
                    hex_byte(h.subrange(0, 2)),
                    hex_byte(h.subrange(2, 4)),
                    hex_byte(h.subrange(4, 6)),
                ) {
                    (Some(r), Some(g), Some(b)) => Some(Color::Rgb(r as u8, g as u8, b as u8)),
                    _ => None,
                }
            } else {
                None
            }
        } else if byte_len(h) == 2 {
            match hex_byte(h) {
                Some(v) => Some(Color::Rgb(v as u8, v as u8, v as u8)),
                None => None,
            }
        } else {
            None
        }
    } else {
        let ws = words(t);
        if ws.len() == 3 {
            match (
                parse_unsigned(ws[0], 10, 255),
                parse_unsigned(ws[1], 10, 255),
                parse_unsigned(ws[2], 10, 255),
            ) {
                (Some(r), Some(g), Some(b)) => Some(Color::Rgb(r as u8, g as u8, b as u8)),
                _ => None,
            }
        } else {
            None
        }
    }
}

/// The color named by `v` (see `color_of`).
pub fn color_of_chars(v: &Vec<char>) -> (c: Option<Color>)
    ensures
        c == color_of(v@),
{
    let t = trim_chars(v);
    if t.len() == 0 {
        return None;
    }
    if t[0] == '#' {
        let h = crate::text::copy_range(&t, 1, t.len());
        assert(h@ =~= t@.drop_first());
        let n = byte_len_capped(&h, 6);
        if n == 6 {
            if h.len() == 6 {
                let p0 = crate::text::copy_range(&h, 0, 2);
                let p1 = crate::text::copy_range(&h, 2, 4);
                let p2 = crate::text::copy_range(&h, 4, 6);
                let r = parse_unsigned_chars(&p0, 16, 255);
                let g = parse_unsigned_chars(&p1, 16, 255);
                let b = parse_unsigned_chars(&p2, 16, 255);
                match (r, g, b) {
                    (Some(r), Some(g), Some(b)) => Some(Color::Rgb(r as u8, g as u8, b as u8)),
                    _ => None,
                }
            } else {
                None
            }
        } else if n == 2 {
            match parse_unsigned_chars(&h, 16, 255) {
                Some(x) => Some(Color::Rgb(x as u8, x as u8, x as u8)),
                None => None,
            }
        } else {
            None
        }
    } else {
        let ws = split_words(&t);
        if ws.len() == 3 {
            let r = parse_unsigned_chars(&ws[0], 10, 255);
            let g = parse_unsigned_chars(&ws[1], 10, 255);
            let b = parse_unsigned_chars(&ws[2], 10, 255);
            match (r, g, b) {
                (Some(r), Some(g), Some(b)) => Some(Color::Rgb(r as u8, g as u8, b as u8)),
                _ => None,
            }
        } else {
            None
        }
    }
}

/// Parse a btop color value. Formats: `#RRGGBB`, `#BW` (2-hex grayscale),
/// `R G B` (decimal). Empty string -> None (terminal default / transparent).
pub fn parse_color(s: &str) -> (c: Option<Color>)
    ensures
        c == color_of(s@),
{
    let v = chars_of(s);
    color_of_chars(&v)
}

// ---------------------------------------------------------------------
// theme files
// ---------------------------------------------------------------------

/// The name of the theme used when none is chosen.
pub const DEFAULT_THEME: &'static str = "everforest-dark-hard";

/// `theme[`, the start of a setting line.
pub open spec fn setting_prefix() -> Seq<char> {
    seq!['t', 'h', 'e', 'm', 'e', '[']
}

/// The index of the first `c` in `s`.
pub open spec fn find_char(s: Seq<char>, c: char) -> Option<int>
    decreases s.len(),
{
    if s.len() == 0 {
        None
    } else if s[0] == c {
        Some(0)
    } else {
        match find_char(s.drop_first(), c) {
            Some(i) => Some(i + 1),
            None => None,
        }
    }
}

/// `s` without any leading `c`.
pub open spec fn strip_leading(s: Seq<char>, c: char) -> Seq<char>
    decreases s.len(),
{
    if s.len() > 0 && s[0] == c {
        strip_leading(s.drop_first(), c)
    } else {
        s
    }
}

/// `s` without any trailing `c`.
pub open spec fn strip_trailing(s: Seq<char>, c: char) -> Seq<char>
    decreases s.len(),
{
    if s.len() > 0 && s.last() == c {
        strip_trailing(s.drop_last(), c)
    } else {
        s
    }
}

/// The setting that one line of a theme file makes, if any:
/// `theme[key]="value"`, where the `=` and the quotes may be missing and
/// blank lines and `#` comments make none.
pub open spec fn setting_of(line: Seq<char>) -> Option<(Seq<char>, Seq<char>)> {
    let l = trim(line);
    if l.len() == 0 || l[0] == '#' {
        None
    } else if starts_with(l, setting_prefix()) {
        let rest = l.skip(6);
        match find_char(rest, ']') {
            None => None,
            Some(close) => {
                let key = rest.take(close);
                let vp = trim_start(rest.skip(close + 1));
                let v1 = if vp.len() > 0 && vp[0] == '=' {
                    vp.drop_first()
                } else {
                    vp
                };
                Some((key, strip_trailing(strip_leading(trim(v1), '"'), '"')))
            },
        }
    } else {
        None
    }
}

/// The settings made by `ls` in order, a later line overriding an earlier one.
pub open spec fn settings(ls: Seq<Seq<char>>) -> Map<Seq<char>, Seq<char>>
    decreases ls.len(),
{
    if ls.len() == 0 {
        Map::empty()
    } else {
        let m = settings(ls.drop_last());
        match setting_of(ls.last()) {
            Some(kv) => m.insert(kv.0, kv.1),
            None => m,
        }
    }
}

/// Law: the settings of the lines `a` followed by the lines `b` are those
/// of `a`, overridden key by key by those of `b`.
pub proof fn law_later_lines_override(a: Seq<Seq<char>>, b: Seq<Seq<char>>)
    ensures
        settings(a + b) == settings(a).union_prefer_right(settings(b)),
    decreases b.len(),
{
    if b.len() == 0 {
        assert(a + b =~= a);
        assert(settings(a).union_prefer_right(settings(b)) =~= settings(a));
    } else {
        law_later_lines_override(a, b.drop_last());
        assert((a + b).drop_last() =~= a + b.drop_last());
        assert((a + b).last() == b.last());
        match setting_of(b.last()) {
            Some(kv) => {
                assert(settings(a).union_prefer_right(settings(b.drop_last())).insert(kv.0, kv.1)
                    =~= settings(a).union_prefer_right(settings(b.drop_last()).insert(kv.0, kv.1)));
            },
            None => {},
        }
    }
}

proof fn lemma_lines_after_newline(s: Seq<char>, t: Seq<char>, cur: Seq<char>)
    ensures
        crate::text::lines_from(s + seq!['\n'] + t, cur) == crate::text::lines_from(
            s + seq!['\n'],
            cur,
        ) + crate::text::lines(t),
    decreases s.len(),
{
    let x = s + seq!['\n'] + t;
    let y = s + seq!['\n'];
    if s.len() == 0 {
        assert(x.drop_first() =~= t);
        assert(y.drop_first() =~= seq![]);
        assert(crate::text::lines_from(seq![], seq![]) =~= seq![]);
    } else {
        lemma_lines_after_newline(s.drop_first(), t, if s[0] == '\n' {
            seq![]
        } else {
            cur.push(s[0])
        });
        assert(x.drop_first() =~= s.drop_first() + seq!['\n'] + t);
        assert(y.drop_first() =~= s.drop_first() + seq!['\n']);
        if s[0] == '\n' {
            assert(crate::text::lines_from(x, cur) =~= seq![crate::text::strip_cr(cur)]
                + crate::text::lines_from(s.drop_first() + seq!['\n'], seq![])
                + crate::text::lines(t));
        }
    }
}

proof fn lemma_trim_ignores_trailing_ws(d: Seq<char>, c: char)
    requires
        is_ws(c),
    ensures
        trim(d.push(c)) == trim(d),
    decreases d.len(),
{
    if d.len() == 0 {
        assert(d.push(c).drop_first() =~= d);
    } else if is_ws(d[0]) {
        lemma_trim_ignores_trailing_ws(d.drop_first(), c);
        assert(d.push(c).drop_first() =~= d.drop_first().push(c));
    } else {
        assert(d.push(c).drop_last() =~= d);
    }
}

proof fn lemma_settings_final_newline(s: Seq<char>, cur: Seq<char>)
    ensures
        settings(crate::text::lines_from(s + seq!['\n'], cur)) == settings(
            crate::text::lines_from(s, cur),
        ),
    decreases s.len(),
{
    let y = s + seq!['\n'];
    if s.len() == 0 {
        assert(y =~= seq!['\n']);
        assert(y.drop_first() =~= seq![]);
        let l = crate::text::strip_cr(cur);
        assert(crate::text::lines_from(seq![], seq![]) =~= seq![]);
        assert(crate::text::lines_from(y, cur) =~= seq![l]);
        assert(seq![l].drop_last() =~= seq![]);
        if cur.len() > 0 {
            if cur.last() == '\r' {
                assert(cur.drop_last().push('\r') =~= cur);
                lemma_trim_ignores_trailing_ws(cur.drop_last(), '\r');
            }
            assert(seq![cur].drop_last() =~= seq![]);
        }
    } else {
        assert(y.drop_first() =~= s.drop_first() + seq!['\n']);
        if s[0] == '\n' {
            lemma_settings_final_newline(s.drop_first(), seq![]);
            let head = seq![crate::text::strip_cr(cur)];
            law_later_lines_override(head, crate::text::lines_from(s.drop_first() + seq!['\n'], seq![]));
            law_later_lines_override(head, crate::text::lines_from(s.drop_first(), seq![]));
        } else {
            lemma_settings_final_newline(s.drop_first(), cur.push(s[0]));
        }
    }
}

/// Law: a theme file made of two parts joined by a line break sets what the
/// first part sets, overridden key by key by what the second part sets.
pub proof fn law_theme_parts_override(a: Seq<char>, b: Seq<char>)
    ensures
        settings(crate::text::lines(a + seq!['\n'] + b)) == settings(crate::text::lines(a))
            .union_prefer_right(settings(crate::text::lines(b))),
{
    lemma_lines_after_newline(a, b, seq![]);
    lemma_settings_final_newline(a, seq![]);
    law_later_lines_override(crate::text::lines_from(a + seq!['\n'], seq![]), crate::text::lines(b));
}

/// The map made by inserting the pairs of `s` in order.
pub open spec fn pairs_map(s: Seq<(Vec<char>, Vec<char>)>) -> Map<Seq<char>, Seq<char>>
    decreases s.len(),
{
    if s.len() == 0 {
        Map::empty()
    } else {
        pairs_map(s.drop_last()).insert(s.last().0@, s.last().1@)
    }
}

proof fn lemma_pairs_tail(s: Seq<(Vec<char>, Vec<char>)>, i: int, k: Seq<char>)
    requires
        0 <= i <= s.len(),
        forall|j: int| i <= j < s.len() ==> (#[trigger] s[j]).0@ != k,
    ensures
        pairs_map(s).contains_key(k) == pairs_map(s.take(i)).contains_key(k),
        pairs_map(s).contains_key(k) ==> pairs_map(s)[k] == pairs_map(s.take(i))[k],
    decreases s.len() - i,
{
    if i == s.len() {
        assert(s.take(i) =~= s);
    } else {
        lemma_pairs_tail(s.drop_last(), i, k);
        assert(s.drop_last().take(i) =~= s.take(i));
        assert(s[s.len() - 1].0@ != k);
    }
}

/// Whether `a` and `b` hold the same characters.
pub fn same_chars(a: &Vec<char>, b: &Vec<char>) -> (r: bool)
    ensures
        r == (a@ == b@),
{
    if a.len() != b.len() {
        return false;
    }
    let mut i: usize = 0;
    while i < a.len()
        invariant
            a.len() == b.len(),
            i <= a.len(),
            forall|j: int| 0 <= j < i ==> a@[j] == b@[j],
        decreases a.len() - i,
    {
        if a[i] != b[i] {
            return false;
        }
        i = i + 1;
    }
    assert(a@ =~= b@);
    true
}

/// The first `]` of `v`.
fn find_close(v: &Vec<char>) -> (r: Option<usize>)
    ensures
        r matches Some(i) ==> find_char(v@, ']') == Some(i as int) && i < v.len(),
        r is None ==> find_char(v@, ']') is None,
{
    let mut i: usize = 0;
    assert(v@.skip(0) =~= v@);
    while i < v.len()
        invariant
            i <= v.len(),
            find_char(v@, ']') == (match find_char(v@.skip(i as int), ']') {
                Some(j) => Some(j + i),
                None => None,
            }),
        decreases v.len() - i,
    {
        if v[i] == ']' {
            return Some(i);
        }
        assert(v@.skip(i as int).drop_first() =~= v@.skip(i + 1));
        i = i + 1;
    }
    None
}

/// `v` without leading and trailing `c`.
fn strip_both(v: &Vec<char>, c: char) -> (out: Vec<char>)
    ensures
        out@ == strip_trailing(strip_leading(v@, c), c),
{
    let mut lo: usize = 0;
    assert(v@.skip(0) =~= v@);
    while lo < v.len() && v[lo] == c
        invariant
            lo <= v.len(),
            strip_leading(v@, c) == strip_leading(v@.skip(lo as int), c),
        decreases v.len() - lo,
    {
        assert(v@.skip(lo as int).drop_first() =~= v@.skip(lo + 1));
        lo = lo + 1;
    }
    let mut hi: usize = v.len();
    let ghost a = v@.skip(lo as int);
    assert(a.take(a.len() as int) =~= a);
    while hi > lo && v[hi - 1] == c
        invariant
            lo <= hi <= v.len(),
            a == v@.skip(lo as int),
            strip_trailing(a, c) == strip_trailing(a.take(hi - lo), c),
        decreases hi,
    {
        assert(a.take(hi - lo).drop_last() =~= a.take(hi - lo - 1));
        hi = hi - 1;
    }
    let out = crate::text::copy_range(v, lo, hi);
    assert(out@ =~= a.take(hi - lo));
    out
}

/// The setting made by one line (see `setting_of`).
fn setting_of_line(line: &Vec<char>) -> (r: Option<(Vec<char>, Vec<char>)>)
    ensures
        r matches Some(kv) ==> setting_of(line@) == Some((kv.0@, kv.1@)),
        r is None ==> setting_of(line@) is None,
{
    let l = trim_chars(line);
    if l.len() == 0 || l[0] == '#' {
        return None;
    }
    let prefix = vec!['t', 'h', 'e', 'm', 'e', '['];
    assert(prefix@ =~= setting_prefix());
    if !crate::text::has_prefix(&l, &prefix) {
        return None;
    }
    let rest = crate::text::copy_range(&l, 6, l.len());
    assert(rest@ =~= l@.skip(6));
    match find_close(&rest) {
        None => None,
        Some(close) => {
            let key = crate::text::copy_range(&rest, 0, close);
            assert(key@ =~= rest@.take(close as int));
            let after = crate::text::copy_range(&rest, close + 1, rest.len());
            assert(after@ =~= rest@.skip(close + 1));
            let vp = crate::text::trim_start_chars(&after);
            let v1 = if vp.len() > 0 && vp[0] == '=' {
                let x = crate::text::copy_range(&vp, 1, vp.len());
                assert(x@ =~= vp@.drop_first());
                x
            } else {
                vp
            };
            let v2 = trim_chars(&v1);
            let val = strip_both(&v2, '"');
            Some((key, val))
        },
    }
}

/// A parsed theme: the settings of a theme file.
pub struct Theme {
    raw: Vec<(Vec<char>, Vec<char>)>,
}

impl Theme {
    /// The settings, by key.
    pub closed spec fn view(&self) -> Map<Seq<char>, Seq<char>> {
        pairs_map(self.raw@)
    }

    /// The theme that a theme file's text describes: for each key, the value
    /// of its last `theme[key]="value"` line.
    pub fn parse(text: &str) -> (t: Theme)
        ensures
            t@ == settings(crate::text::lines(text@)),
    {
        let chars = chars_of(text);
        let ls = crate::text::split_lines(&chars);
        let mut raw: Vec<(Vec<char>, Vec<char>)> = Vec::new();
        let mut i: usize = 0;
        assert(views(ls@).take(0) =~= seq![]);
        while i < ls.len()
            invariant
                i <= ls.len(),
                views(ls@) == crate::text::lines(chars@),
                pairs_map(raw@) == settings(views(ls@).take(i as int)),
            decreases ls.len() - i,
        {
            assert(views(ls@).take(i + 1).drop_last() =~= views(ls@).take(i as int));
            assert(views(ls@).take(i + 1).last() == ls@[i as int]@);
            match setting_of_line(&ls[i]) {
                Some(kv) => {
                    let ghost before = raw@;
                    raw.push(kv);
                    assert(raw@.drop_last() =~= before);
                },
                None => {},
            }
            i = i + 1;
        }
        assert(views(ls@).take(ls.len() as int) =~= views(ls@));
        Theme { raw }
    }

    /// The value set for `key`.
    fn lookup(&self, key: &Vec<char>) -> (r: Option<&Vec<char>>)
        ensures
            r matches Some(v) ==> self@.contains_key(key@) && v@ == self@[key@],
            r is None ==> !self@.contains_key(key@),
    {
        let mut i: usize = self.raw.len();
        while i > 0
            invariant
                i <= self.raw.len(),
                forall|j: int| i <= j < self.raw@.len() ==> (#[trigger] self.raw@[j]).0@ != key@,
            decreases i,
        {
            if same_chars(&self.raw[i - 1].0, key) {
                proof {
                    lemma_pairs_tail(self.raw@, i as int, key@);
                    assert(self.raw@.take(i as int).drop_last() =~= self.raw@.take(i - 1));
                }
                return Some(&self.raw[i - 1].1);
            }
            i = i - 1;
        }
        proof {
            lemma_pairs_tail(self.raw@, 0, key@);
            assert(self.raw@.take(0) =~= seq![]);
        }
        None
    }
}

// ---------------------------------------------------------------------
// resolved colors
// ---------------------------------------------------------------------

/// The color that the value of `k` names, if `k` is set and names one.
pub open spec fn color_at(m: Map<Seq<char>, Seq<char>>, k: Seq<char>) -> Option<Color> {
    if m.contains_key(k) {
        color_of(m[k])
    } else {
        None
    }
}

/// The color of `k`, or `d` when there is none.
pub open spec fn color_or_at(m: Map<Seq<char>, Seq<char>>, k: Seq<char>, d: Color) -> Color {
    match color_at(m, k) {
        Some(c) => c,
        None => d,
    }
}

/// A color ramp: `start` alone, `start` to `end`, or `start` through `mid` to `end`.
#[derive(Clone, Copy, Debug, PartialEq, Eq, Structural)]
pub struct Gradient {
    pub start: Color,
    pub mid: Option<Color>,
    pub end: Option<Color>,
}

/// The gradient `name`: `name_start` (green `#a7c080` when unset),
/// `name_mid` and `name_end`.
pub open spec fn gradient_at(m: Map<Seq<char>, Seq<char>>, name: Seq<char>) -> Gradient {
    Gradient {
        start: color_or_at(m, name + "_start"@, Color::Rgb(0xa7, 0xc0, 0x80)),
        mid: color_at(m, name + "_mid"@),
        end: color_at(m, name + "_end"@),
    }
}

/// The main foreground: `main_fg`, default `#d3c6aa`.
pub open spec fn main_fg_at(m: Map<Seq<char>, Seq<char>>) -> Color {
    color_or_at(m, "main_fg"@, Color::Rgb(0xd3, 0xc6, 0xaa))
}

/// The divider color: `div_line`, default `#374145`.
pub open spec fn div_line_at(m: Map<Seq<char>, Seq<char>>) -> Color {
    color_or_at(m, "div_line"@, Color::Rgb(0x37, 0x41, 0x45))
}

/// The kinds of section box.
#[derive(Clone, Copy, Debug, PartialEq, Eq, Structural)]
pub enum SectionBox {
    Cpu,
    Mem,
    Net,
    Proc,
}

/// The kinds of utilisation a color is picked for.
#[derive(Clone, Copy, Debug, PartialEq, Eq, Structural)]
pub enum UtilKind {
    Gpu,
    Mem,
    Npu,
}

/// The theme key of a section's box outline.
pub open spec fn box_key(kind: SectionBox) -> Seq<char> {
    match kind {
        SectionBox::Cpu => "cpu_box"@,
        SectionBox::Mem => "mem_box"@,
        SectionBox::Net => "net_box"@,
        SectionBox::Proc => "proc_box"@,
    }
}

/// The gradient a utilisation kind is colored from.
pub open spec fn util_gradient_name(kind: UtilKind) -> Seq<char> {
    match kind {
        UtilKind::Gpu => "cpu"@,
        UtilKind::Mem => "used"@,
        UtilKind::Npu => "process"@,
    }
}

fn concat_key(name: &str, suffix: &str) -> (k: Vec<char>)
    ensures
        k@ == name@ + suffix@,
{
    let mut k = chars_of(name);
    let s = chars_of(suffix);
    crate::text::append_chars(&mut k, &s);
    k
}

impl Theme {
    fn color_by(&self, key: &Vec<char>) -> (c: Option<Color>)
        ensures
            c == color_at(self@, key@),
    {
        match self.lookup(key) {
            Some(v) => color_of_chars(v),
            None => None,
        }
    }

    /// The color that the value of `key` names.
    pub fn color(&self, key: &str) -> (c: Option<Color>)
        ensures
            c == color_at(self@, key@),
    {
        let k = chars_of(key);
        self.color_by(&k)
    }

    /// The color of `key`, or `default`.
    pub fn color_or(&self, key: &str, default: Color) -> (c: Color)
        ensures
            c == color_or_at(self@, key@, default),
    {
        match self.color(key) {
            Some(c) => c,
            None => default,
        }
    }

    /// The gradient `name` (from `name_start`, `name_mid`, `name_end`).
    pub fn gradient(&self, name: &str) -> (g: Gradient)
        ensures
            g == gradient_at(self@, name@),
    {
        let ks = concat_key(name, "_start");
        let km = concat_key(name, "_mid");
        let ke = concat_key(name, "_end");
        let start = match self.color_by(&ks) {
            Some(c) => c,
            None => Color::Rgb(0xa7, 0xc0, 0x80),
        };
        let mid = self.color_by(&km);
        let end = self.color_by(&ke);
        Gradient { start, mid, end }
    }

    /// Main background. None => transparent (use terminal default).
    pub fn main_bg(&self) -> (c: Option<Color>)
        ensures
            c == color_at(self@, "main_bg"@),
    {
        self.color("main_bg")
    }

    pub fn main_fg(&self) -> (c: Color)
        ensures
            c == main_fg_at(self@),
    {
        self.color_or("main_fg", Color::Rgb(0xd3, 0xc6, 0xaa))
    }

    pub fn title(&self) -> (c: Color)
        ensures
            c == color_or_at(self@, "title"@, main_fg_at(self@)),
    {
        let d = self.main_fg();
        self.color_or("title", d)
    }

    pub fn hi_fg(&self) -> (c: Color)
        ensures
            c == color_or_at(self@, "hi_fg"@, Color::Rgb(0xe6, 0x7e, 0x80)),
    {
        self.color_or("hi_fg", Color::Rgb(0xe6, 0x7e, 0x80))
    }

    pub fn selected_bg(&self) -> (c: Color)
        ensures
            c == color_or_at(self@, "selected_bg"@, Color::Rgb(0x37, 0x41, 0x45)),
    {
        self.color_or("selected_bg", Color::Rgb(0x37, 0x41, 0x45))
    }

    pub fn selected_fg(&self) -> (c: Color)
        ensures
            c == color_or_at(self@, "selected_fg"@, Color::Rgb(0xdb, 0xbc, 0x7f)),
    {
        self.color_or("selected_fg", Color::Rgb(0xdb, 0xbc, 0x7f))
    }

    pub fn inactive_fg(&self) -> (c: Color)
        ensures
            c == color_or_at(self@, "inactive_fg"@, Color::Rgb(0x50, 0x49, 0x45)),
    {
        self.color_or("inactive_fg", Color::Rgb(0x50, 0x49, 0x45))
    }

    pub fn graph_text(&self) -> (c: Color)
        ensures
            c == color_or_at(self@, "graph_text"@, main_fg_at(self@)),
    {
        let d = self.main_fg();
        self.color_or("graph_text", d)
    }

    pub fn proc_misc(&self) -> (c: Color)
        ensures
            c == color_or_at(self@, "proc_misc"@, Color::Rgb(0xa7, 0xc0, 0x80)),
    {
        self.color_or("proc_misc", Color::Rgb(0xa7, 0xc0, 0x80))
    }

    pub fn div_line(&self) -> (c: Color)
        ensures
            c == div_line_at(self@),
    {
        self.color_or("div_line", Color::Rgb(0x37, 0x41, 0x45))
    }

    /// Box outline color for a given section kind.
    pub fn box_color(&self, kind: SectionBox) -> (c: Color)
        ensures
            c == color_or_at(self@, box_key(kind), div_line_at(self@)),
    {
        let key = match kind {
            SectionBox::Cpu => "cpu_box",
            SectionBox::Mem => "mem_box",
            SectionBox::Net => "net_box",
            SectionBox::Proc => "proc_box",
        };
        let d = self.div_line();
        self.color_or(key, d)
    }

    pub fn temp(&self) -> (g: Gradient)
        ensures
            g == gradient_at(self@, "temp"@),
    {
        self.gradient("temp")
    }

    pub fn cpu(&self) -> (g: Gradient)
        ensures
            g == gradient_at(self@, "cpu"@),
    {
        self.gradient("cpu")
    }

    pub fn used(&self) -> (g: Gradient)
        ensures
            g == gradient_at(self@, "used"@),
    {
        self.gradient("used")
    }

    pub fn free(&self) -> (g: Gradient)
        ensures
            g == gradient_at(self@, "free"@),
    {
        self.gradient("free")
    }

    pub fn cached(&self) -> (g: Gradient)
        ensures
            g == gradient_at(self@, "cached"@),
    {
        self.gradient("cached")
    }

    pub fn available(&self) -> (g: Gradient)
        ensures
            g == gradient_at(self@, "available"@),
    {
        self.gradient("available")
    }

    pub fn process(&self) -> (g: Gradient)
        ensures
            g == gradient_at(self@, "process"@),
    {
        self.gradient("process")
    }

    /// The gradient that utilisation of `kind` is colored from: `cpu` for
    /// GPUs, `used` for memory, `process` for NPUs.
    pub fn util_gradient(&self, kind: UtilKind) -> (g: Gradient)
        ensures
            g == gradient_at(self@, util_gradient_name(kind)),
    {
        match kind {
            UtilKind::Gpu => self.cpu(),
            UtilKind::Mem => self.used(),
            UtilKind::Npu => self.process(),
        }
    }
}

// ---------------------------------------------------------------------
// built-in palette and theme names
// ---------------------------------------------------------------------

/// Bundled fallback in case no theme files are installed on the system.
/// Minimal everforest-dark-hard palette.
pub const EVERFOREST_FALLBACK: &'static str = r##"
theme[main_bg]="#272e33"
theme[main_fg]="#d3c6aa"
theme[title]="#d3c6aa"
theme[hi_fg]="#e67e80"
theme[selected_bg]="#374145"
theme[selected_fg]="#dbbc7f"
theme[inactive_fg]="#272e33"
theme[graph_text]="#d3c6aa"
theme[proc_misc]="#a7c080"
theme[cpu_box]="#374145"
theme[mem_box]="#374145"
theme[net_box]="#374145"
theme[proc_box]="#374145"
theme[div_line]="#374145"
theme[temp_start]="#a7c080"
theme[temp_mid]="#dbbc7f"
theme[temp_end]="#f85552"
theme[cpu_start]="#a7c080"
theme[cpu_mid]="#dbbc7f"
theme[cpu_end]="#f85552"
theme[used_start]="#a7c080"
theme[used_mid]="#dbbc7f"
theme[used_end]="#f85552"
theme[free_start]="#f85552"
theme[free_mid]="#dbbc7f"
theme[free_end]="#a7c080"
theme[process_start]="#a7c080"
theme[process_mid]="#f85552"
theme[process_end]="#CC241D"
"##;

impl Theme {
    /// The built-in everforest-dark-hard palette.
    pub fn fallback() -> (t: Theme)
        ensures
            t@ == settings(crate::text::lines(EVERFOREST_FALLBACK@)),
    {
        Theme::parse(EVERFOREST_FALLBACK)
    }
}

/// The index of the last `.` of `f`.
pub open spec fn last_dot(f: Seq<char>) -> Option<int>
    decreases f.len(),
{
    if f.len() == 0 {
        None
    } else if f.last() == '.' {
        Some(f.len() - 1)
    } else {
        last_dot(f.drop_last())
    }
}

/// The name of the theme in the file named `f`: the part before the last
/// dot when the extension after it is `theme` (a leading dot does not start
/// an extension).
pub open spec fn theme_stem(f: Seq<char>) -> Option<Seq<char>> {
    match last_dot(f) {
        Some(i) => if i > 0 && f.skip(i + 1) == "theme"@ {
            Some(f.take(i))
        } else {
            None
        },
        None => None,
    }
}

/// `a` sorts before `b` (by code point, as `String` orders).
pub open spec fn lex_lt(a: Seq<char>, b: Seq<char>) -> bool
    decreases a.len(),
{
    if a.len() == 0 {
        b.len() > 0
    } else if b.len() == 0 {
        false
    } else if (a[0] as u32) < (b[0] as u32) {
        true
    } else if a[0] == b[0] {
        lex_lt(a.drop_first(), b.drop_first())
    } else {
        false
    }
}

proof fn lemma_lex_total(a: Seq<char>, b: Seq<char>)
    ensures
        a == b || lex_lt(a, b) || lex_lt(b, a),
    decreases a.len(),
{
    if a.len() > 0 && b.len() > 0 {
        vstd::utf8::char_u32_cast(a[0], a[0] as u32);
        vstd::utf8::char_u32_cast(b[0], b[0] as u32);
        if a[0] == b[0] {
            lemma_lex_total(a.drop_first(), b.drop_first());
            if a.drop_first() == b.drop_first() {
                assert(a.drop_first().len() == b.drop_first().len());
                assert forall|i: int| 0 <= i < a.len() implies a[i] == b[i] by {
                    if i > 0 {
                        assert(a[i] == a.drop_first()[i - 1]);
                        assert(b[i] == b.drop_first()[i - 1]);
                    }
                }
                assert(a.drop_first().len() == b.drop_first().len());
                assert(a.len() == b.len());
                assert(a =~= b);
            }
        }
    } else if a.len() == 0 && b.len() == 0 {
        assert(a =~= b);
    }
}

proof fn lemma_lex_trans(a: Seq<char>, b: Seq<char>, c: Seq<char>)
    requires
        lex_lt(a, b),
        lex_lt(b, c),
    ensures
        lex_lt(a, c),
    decreases a.len(),
{
    if a.len() > 0 && b.len() > 0 && c.len() > 0 && a[0] == b[0] && b[0] == c[0] {
        lemma_lex_trans(a.drop_first(), b.drop_first(), c.drop_first());
    }
}

/// `s` is in strictly increasing order.
pub open spec fn strictly_sorted(s: Seq<Seq<char>>) -> bool {
    forall|i: int, j: int| 0 <= i < j < s.len() ==> lex_lt(#[trigger] s[i], #[trigger] s[j])
}

/// `a` sorts before `b`.
fn chars_lt(a: &Vec<char>, b: &Vec<char>) -> (r: bool)
    ensures
        r == lex_lt(a@, b@),
{
    let mut i: usize = 0;
    assert(a@.skip(0) =~= a@);
    assert(b@.skip(0) =~= b@);
    loop
        invariant
            i <= a.len(),
            i <= b.len(),
            lex_lt(a@, b@) == lex_lt(a@.skip(i as int), b@.skip(i as int)),
        decreases a.len() - i,
    {
        if i == a.len() {
            return i < b.len();
        }
        if i == b.len() {
            return false;
        }
        let (x, y) = (a[i], b[i]);
        if (x as u32) < (y as u32) {
            return true;
        }
        if x != y {
            return false;
        }
        assert(a@.skip(i as int).drop_first() =~= a@.skip(i + 1));
        assert(b@.skip(i as int).drop_first() =~= b@.skip(i + 1));
        i = i + 1;
    }
}

/// Adds `x` to the sorted list `out` unless it is there already.
fn insert_sorted(out: &mut Vec<Vec<char>>, x: Vec<char>)
    requires
        strictly_sorted(views(old(out)@)),
    ensures
        strictly_sorted(views(final(out)@)),
        views(final(out)@).to_set() == views(old(out)@).to_set().insert(x@),
{
    let ghost xs = x@;
    let mut i: usize = 0;
    while i < out.len() && chars_lt(&out[i], &x)
        invariant
            out@ == old(out)@,
            i <= out.len(),
            x@ == xs,
            forall|j: int| 0 <= j < i ==> lex_lt(#[trigger] views(out@)[j], xs),
        decreases out.len() - i,
    {
        i = i + 1;
    }
    if i < out.len() && same_chars(&out[i], &x) {
        assert(views(out@).to_set().insert(xs) =~= views(out@).to_set()) by {
            assert(views(out@)[i as int] == xs);
        }
        return;
    }
    proof {
        if i < out.len() {
            lemma_lex_total(views(out@)[i as int], xs);
        }
    }
    let ghost before = views(out@);
    out.insert(i, x);
    proof {
        let after = views(out@);
        assert(after =~= before.insert(i as int, xs));
        assert forall|r: int| i <= r < before.len() implies lex_lt(xs, #[trigger] before[r]) by {
            if r > i {
                lemma_lex_trans(xs, before[i as int], before[r]);
            }
        }
        assert forall|p: int, q: int| 0 <= p < q < after.len() implies lex_lt(
            #[trigger] after[p],
            #[trigger] after[q],
        ) by {
            if q < i {
            } else if q == i {
            } else if p < i {
                lemma_lex_trans(before[p], xs, before[q - 1]);
            } else if p == i {
            } else {
            }
        }
        assert(after.to_set() =~= before.to_set().insert(xs)) by {
            assert forall|e: Seq<char>| after.to_set().contains(e) <==> before.to_set().insert(
                xs,
            ).contains(e) by {
                if after.to_set().contains(e) {
                    let k = choose|k: int| 0 <= k < after.len() && after[k] == e;
                    if k < i {
                        assert(before[k] == e);
                    } else if k > i {
                        assert(before[k - 1] == e);
                    }
                }
                if before.to_set().contains(e) {
                    let k = choose|k: int| 0 <= k < before.len() && before[k] == e;
                    if k < i {
                        assert(after[k] == e);
                    } else {
                        assert(after[k + 1] == e);
                    }
                }
                if e == xs {
                    assert(after[i as int] == e);
                }
            }
        }
    }
}

/// The theme names found among the first `k` of `file_names`.
pub open spec fn stems_upto(file_names: Seq<String>, k: int) -> Set<Seq<char>> {
    Set::new(
        |n: Seq<char>|
            exists|i: int| 0 <= i < k && theme_stem(#[trigger] file_names[i]@) == Some(n),
    )
}

/// The theme names among `file_names`, together with the default theme,
/// sorted and without duplicates.
pub fn theme_names(file_names: &Vec<String>) -> (names: Vec<String>)
    ensures
        strictly_sorted(names@.map_values(|n: String| n@)),
        names@.map_values(|n: String| n@).to_set() == Set::new(
            |n: Seq<char>|
                n == DEFAULT_THEME@ || exists|i: int|
                    0 <= i < file_names@.len() && theme_stem(#[trigger] file_names@[i]@) == Some(
                        n,
                    ),
        ),
{
    let mut out: Vec<Vec<char>> = Vec::new();
    let mut k: usize = 0;
    assert(views(out@).to_set() =~= stems_upto(file_names@, 0));
    while k < file_names.len()
        invariant
            k <= file_names.len(),
            strictly_sorted(views(out@)),
            views(out@).to_set() == stems_upto(file_names@, k as int),
        decreases file_names.len() - k,
    {
        let f = chars_of(file_names[k].as_str());
        let stem = file_theme_stem(&f);
        let ghost prev = views(out@).to_set();
        match stem {
            Some(st) => {
                insert_sorted(&mut out, st);
            },
            None => {},
        }
        proof {
            assert(views(out@).to_set() =~= stems_upto(file_names@, k + 1)) by {
                assert forall|n: Seq<char>| #[trigger] stems_upto(file_names@, k + 1).contains(n) <==> views(out@).to_set().contains(n) by {
                    if stems_upto(file_names@, k + 1).contains(n) {
                        let i = choose|i: int|
                            0 <= i < k + 1 && theme_stem(#[trigger] file_names@[i]@) == Some(n);
                        if i < k {
                            assert(stems_upto(file_names@, k as int).contains(n));
                        }
                    }
                    if prev.contains(n) {
                        let i = choose|i: int|
                            0 <= i < k && theme_stem(#[trigger] file_names@[i]@) == Some(n);
                        assert(0 <= i < k + 1 && theme_stem(file_names@[i]@) == Some(n));
                    }
                }
            }
        }
        k = k + 1;
    }
    let d = chars_of(DEFAULT_THEME);
    insert_sorted(&mut out, d);
    let mut names: Vec<String> = Vec::new();
    let mut j: usize = 0;
    while j < out.len()
        invariant
            j <= out.len(),
            names@.map_values(|n: String| n@) == views(out@).take(j as int),
        decreases out.len() - j,
    {
        let s = crate::text::string_of(&out[j]);
        let ghost before = names@;
        names.push(s);
        assert(names@.map_values(|n: String| n@) =~= before.map_values(|n: String| n@).push(out@[j as int]@));
        assert(views(out@).take(j + 1) =~= views(out@).take(j as int).push(out@[j as int]@));
        j = j + 1;
    }
    assert(views(out@).take(out.len() as int) =~= views(out@));
    assert(names@.map_values(|n: String| n@).to_set() =~= Set::new(
        |n: Seq<char>|
            n == DEFAULT_THEME@ || exists|i: int|
                0 <= i < file_names@.len() && theme_stem(#[trigger] file_names@[i]@) == Some(n),
    )) by {
        assert forall|n: Seq<char>| #[trigger] views(out@).to_set().contains(n) <==> (n == DEFAULT_THEME@ || exists|i: int|
                0 <= i < file_names@.len() && theme_stem(#[trigger] file_names@[i]@) == Some(n)) by {
            assert(stems_upto(file_names@, file_names@.len() as int).contains(n) <==> exists|i: int|
                0 <= i < file_names@.len() && theme_stem(#[trigger] file_names@[i]@) == Some(n));
        }
    }
    names
}

/// The theme stem of the file name `f` (see `theme_stem`).
fn file_theme_stem(f: &Vec<char>) -> (r: Option<Vec<char>>)
    ensures
        r matches Some(st) ==> theme_stem(f@) == Some(st@),
        r is None ==> theme_stem(f@) is None,
{
    let mut i: usize = f.len();
    assert(f@.take(f@.len() as int) =~= f@);
    while i > 0 && f[i - 1] != '.'
        invariant
            i <= f.len(),
            last_dot(f@) == last_dot(f@.take(i as int)),
        decreases i,
    {
        assert(f@.take(i as int).drop_last() =~= f@.take(i - 1));
        i = i - 1;
    }
    if i == 0 {
        assert(f@.take(0) =~= seq![]);
        return None;
    }
    let dot = i - 1;
    assert(last_dot(f@.take(i as int)) == Some(dot as int));
    if dot == 0 {
        return None;
    }
    let ext = crate::text::copy_range(f, dot + 1, f.len());
    assert(ext@ =~= f@.skip(dot + 1));
    let want = chars_of("theme");
    if same_chars(&ext, &want) {
        let st = crate::text::copy_range(f, 0, dot);
        assert(st@ =~= f@.take(dot as int));
        Some(st)
    } else {
        None
    }
}

// ---------------------------------------------------------------------
// where theme files are looked for
// ---------------------------------------------------------------------

/// `base` joined with the path `rel`: an absolute `rel` replaces `base`;
/// otherwise a separator goes between them unless `base` is empty or
/// already ends with one.
pub open spec fn path_join(base: Seq<char>, rel: Seq<char>) -> Seq<char> {
    if rel.len() > 0 && rel[0] == '/' {
        rel
    } else if base.len() == 0 {
        rel
    } else if base.last() == '/' {
        base + rel
    } else {
        base + seq!['/'] + rel
    }
}

/// The theme directories, first hit wins: under `$XDG_CONFIG_HOME` and
/// `$HOME` where they are set, then the two system-wide ones.
pub open spec fn theme_dirs(xdg: Option<Seq<char>>, home: Option<Seq<char>>) -> Seq<Seq<char>> {
    let a: Seq<Seq<char>> = match xdg {
        Some(x) => seq![path_join(x, "btop/themes"@)],
        None => seq![],
    };
    let b: Seq<Seq<char>> = match home {
        Some(h) => seq![path_join(h, ".config/btop/themes"@)],
        None => seq![],
    };
    a + b + seq!["/usr/local/share/btop/themes"@, "/usr/share/btop/themes"@]
}

fn join_path(base: &str, rel: &str) -> (p: String)
    ensures
        p@ == path_join(base@, rel@),
{
    let r = chars_of(rel);
    if r.len() > 0 && r[0] == '/' {
        return crate::text::string_of(&r);
    }
    let mut out = chars_of(base);
    if out.len() > 0 && out[out.len() - 1] != '/' {
        out.push('/');
    }
    crate::text::append_chars(&mut out, &r);
    let p = crate::text::string_of(&out);
    assert(p@ =~= path_join(base@, rel@));
    p
}

/// The directories searched for theme files, given the values of
/// `XDG_CONFIG_HOME` and `HOME` where they are set.
pub fn search_dirs(xdg: Option<&str>, home: Option<&str>) -> (dirs: Vec<String>)
    ensures
        dirs@.map_values(|d: String| d@) == theme_dirs(
            match xdg {
                Some(x) => Some(x@),
                None => None,
            },
            match home {
                Some(h) => Some(h@),
                None => None,
            },
        ),
{
    let mut dirs: Vec<String> = Vec::new();
    match xdg {
        Some(x) => dirs.push(join_path(x, "btop/themes")),
        None => {},
    }
    match home {
        Some(h) => dirs.push(join_path(h, ".config/btop/themes")),
        None => {},
    }
    dirs.push(crate::text::string_of(&chars_of("/usr/local/share/btop/themes")));
    dirs.push(crate::text::string_of(&chars_of("/usr/share/btop/themes")));
    assert(dirs@.map_values(|d: String| d@) =~= theme_dirs(
        match xdg {
            Some(x) => Some(x@),
            None => None,
        },
        match home {
            Some(h) => Some(h@),
            None => None,
        },
    ));
    dirs
}

/// The file of the theme `name` in the directory `dir`: `dir/name.theme`.
pub fn theme_path(dir: &str, name: &str) -> (p: String)
    ensures
        p@ == path_join(dir@, name@ + ".theme"@),
{
    let mut f = chars_of(name);
    let ext = chars_of(".theme");
    crate::text::append_chars(&mut f, &ext);
    let fname = crate::text::string_of(&f);
    join_path(dir, fname.as_str())
}

/// The text of the first theme file that was found, in search order.
pub open spec fn first_found(found: Seq<Option<String>>) -> Option<Seq<char>>
    decreases found.len(),
{
    if found.len() == 0 {
        None
    } else {
        match found[0] {
            Some(t) => Some(t@),
            None => first_found(found.drop_first()),
        }
    }
}

/// The settings of the theme whose candidate files read as `found`.
pub open spec fn loaded_settings(found: Seq<Option<String>>) -> Map<Seq<char>, Seq<char>> {
    match first_found(found) {
        Some(text) => settings(crate::text::lines(text)),
        None => settings(crate::text::lines(EVERFOREST_FALLBACK@)),
    }
}

impl Theme {
    /// The theme from its candidate files, one per search directory in
    /// search order (`None` where the file is missing or unreadable): the
    /// first that was read wins; with none, the built-in palette.
    pub fn load_from(found: &Vec<Option<String>>) -> (t: Theme)
        ensures
            t@ == loaded_settings(found@),
    {
        let mut i: usize = 0;
        assert(found@.skip(0) =~= found@);
        while i < found.len()
            invariant
                i <= found.len(),
                first_found(found@) == first_found(found@.skip(i as int)),
            decreases found.len() - i,
        {
            match &found[i] {
                Some(text) => {
                    return Theme::parse(text.as_str());
                },
                None => {
                    assert(found@.skip(i as int).drop_first() =~= found@.skip(i + 1));
                },
            }
            i = i + 1;
        }
        Theme::fallback()
    }

    /// The default theme (`everforest-dark-hard`) from its candidate files,
    /// as `load_from` reads them.
    pub fn default_theme(found: &Vec<Option<String>>) -> (t: Theme)
        ensures
            t@ == loaded_settings(found@),
    {
        Theme::load_from(found)
    }
}

/// Law: each section's box outline is read from the key named after the
/// section (`cpu_box`, `mem_box`, `net_box`, `proc_box`): setting `mem_box`
/// to a color gives the memory section that color (its default otherwise),
/// and setting one section's key changes no other section's outline color.
pub proof fn law_box_keys(m: Map<Seq<char>, Seq<char>>, v: Seq<char>, d: Color)
    ensures
        box_key(SectionBox::Cpu) == "cpu_box"@,
        box_key(SectionBox::Mem) == "mem_box"@,
        box_key(SectionBox::Net) == "net_box"@,
        box_key(SectionBox::Proc) == "proc_box"@,
        color_or_at(m.insert("net_box"@, v), box_key(SectionBox::Mem), d) == color_or_at(
            m,
            box_key(SectionBox::Mem),
            d,
        ),
        color_or_at(m.insert("mem_box"@, v), box_key(SectionBox::Net), d) == color_or_at(
            m,
            box_key(SectionBox::Net),
            d,
        ),
        color_or_at(m.insert("mem_box"@, v), box_key(SectionBox::Mem), d) == match color_of(v) {
            Some(c) => c,
            None => d,
        },
{
    reveal_strlit("mem_box");
    reveal_strlit("net_box");
    assert("mem_box"@ != "net_box"@) by {
        assert("mem_box"@[0] != "net_box"@[0]);
    }
}

/// Law: a utilisation gauge is colored from the gradient named after what
/// it measures: `cpu` for GPU load, `used` for memory, `process` for the
/// NPU, whatever the theme sets.
pub proof fn law_util_gradients(m: Map<Seq<char>, Seq<char>>)
    ensures
        gradient_at(m, util_gradient_name(UtilKind::Gpu)) == gradient_at(m, "cpu"@),
        gradient_at(m, util_gradient_name(UtilKind::Mem)) == gradient_at(m, "used"@),
        gradient_at(m, util_gradient_name(UtilKind::Npu)) == gradient_at(m, "process"@),
        gradient_at(m, util_gradient_name(UtilKind::Gpu)).start == color_or_at(
            m,
            "cpu_start"@,
            Color::Rgb(0xa7, 0xc0, 0x80),
        ),
        gradient_at(m, util_gradient_name(UtilKind::Mem)).start == color_or_at(
            m,
            "used_start"@,
            Color::Rgb(0xa7, 0xc0, 0x80),
        ),
{
    reveal_strlit("cpu");
    reveal_strlit("used");
    reveal_strlit("_start");
    reveal_strlit("cpu_start");
    reveal_strlit("used_start");
    assert("cpu"@ + "_start"@ =~= "cpu_start"@);
    assert("used"@ + "_start"@ =~= "used_start"@);
}

} // verus!
