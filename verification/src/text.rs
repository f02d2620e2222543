//! Character-level text handling used by the parsers and formatters:
//! whitespace, trimming, splitting into words and lines, prefixes,
//! unsigned number parsing and decimal rendering.

use vstd::prelude::*;

verus! {

// ---------------------------------------------------------------------
// whitespace and trimming
// ---------------------------------------------------------------------

/// Unicode `White_Space`, the set that `char::is_whitespace` accepts.
pub open spec fn is_ws(c: char) -> bool {
    let u = c as u32;
    ||| 9 <= u <= 13
    ||| u == 32
    ||| u == 0x85
    ||| u == 0xA0
    ||| u == 0x1680
    ||| 0x2000 <= u <= 0x200A
    ||| u == 0x2028
    ||| u == 0x2029
    ||| u == 0x202F
    ||| u == 0x205F
    ||| u == 0x3000
}

pub fn is_whitespace(c: char) -> (b: bool)
    ensures
        b == is_ws(c),
{
    let u = c as u32;
    (9 <= u && u <= 13) || u == 32 || u == 0x85 || u == 0xA0 || u == 0x1680 || (0x2000 <= u && u
        <= 0x200A) || u == 0x2028 || u == 0x2029 || u == 0x202F || u == 0x205F || u == 0x3000
}

/// `s` without its leading whitespace.
pub open spec fn trim_start(s: Seq<char>) -> Seq<char>
    decreases s.len(),
{
    if s.len() > 0 && is_ws(s[0]) {
        trim_start(s.drop_first())
    } else {
        s
    }
}

/// `s` without its trailing whitespace.
pub open spec fn trim_end(s: Seq<char>) -> Seq<char>
    decreases s.len(),
{
    if s.len() > 0 && is_ws(s.last()) {
        trim_end(s.drop_last())
    } else {
        s
    }
}

/// `s` without leading and trailing whitespace.
pub open spec fn trim(s: Seq<char>) -> Seq<char> {
    trim_end(trim_start(s))
}

/// `s` starts with `p`.
pub open spec fn starts_with(s: Seq<char>, p: Seq<char>) -> bool {
    p.len() <= s.len() && s.take(p.len() as int) == p
}

/// A fresh vector holding `v[lo..hi]`.
pub fn copy_range(v: &Vec<char>, lo: usize, hi: usize) -> (out: Vec<char>)
    requires
        lo <= hi <= v.len(),
    ensures
        out@ == v@.subrange(lo as int, hi as int),
{
    let mut out: Vec<char> = Vec::new();
    let mut i = lo;
    while i < hi
        invariant
            lo <= i <= hi <= v.len(),
            out@ == v@.subrange(lo as int, i as int),
        decreases hi - i,
    {
        out.push(v[i]);
        i = i + 1;
    }
    out
}

/// The index of the first character of `v` that is not whitespace (or its length).
fn first_non_ws(v: &Vec<char>) -> (k: usize)
    ensures
        k <= v.len(),
        trim_start(v@) == v@.skip(k as int),
{
    let mut i: usize = 0;
    assert(v@.skip(0) =~= v@);
    while i < v.len() && is_whitespace(v[i])
        invariant
            i <= v.len(),
            trim_start(v@) == trim_start(v@.skip(i as int)),
        decreases v.len() - i,
    {
        assert(v@.skip(i as int).drop_first() =~= v@.skip(i + 1));
        i = i + 1;
    }
    i
}

/// One past the index of the last character of `v` that is not whitespace (or 0).
fn last_non_ws(v: &Vec<char>) -> (k: usize)
    ensures
        k <= v.len(),
        trim_end(v@) == v@.take(k as int),
{
    let mut i: usize = v.len();
    assert(v@.take(i as int) =~= v@);
    while i > 0 && is_whitespace(v[i - 1])
        invariant
            i <= v.len(),
            trim_end(v@) == trim_end(v@.take(i as int)),
        decreases i,
    {
        assert(v@.take(i as int).drop_last() =~= v@.take(i - 1));
        i = i - 1;
    }
    i
}

/// `v` without leading whitespace.
pub fn trim_start_chars(v: &Vec<char>) -> (out: Vec<char>)
    ensures
        out@ == trim_start(v@),
{
    let k = first_non_ws(v);
    let out = copy_range(v, k, v.len());
    assert(out@ =~= v@.skip(k as int));
    out
}

/// `v` without trailing whitespace.
pub fn trim_end_chars(v: &Vec<char>) -> (out: Vec<char>)
    ensures
        out@ == trim_end(v@),
{
    let k = last_non_ws(v);
    let out = copy_range(v, 0, k);
    assert(out@ =~= v@.take(k as int));
    out
}

/// `v` without leading and trailing whitespace.
pub fn trim_chars(v: &Vec<char>) -> (out: Vec<char>)
    ensures
        out@ == trim(v@),
{
    let a = trim_start_chars(v);
    trim_end_chars(&a)
}

/// Whether `v` starts with `p`.
pub fn has_prefix(v: &Vec<char>, p: &Vec<char>) -> (b: bool)
    ensures
        b == starts_with(v@, p@),
{
    if p.len() > v.len() {
        return false;
    }
    let mut i: usize = 0;
    while i < p.len()
        invariant
            p.len() <= v.len(),
            i <= p.len(),
            forall|j: int| 0 <= j < i ==> v@[j] == p@[j],
        decreases p.len() - i,
    {
        if v[i] != p[i] {
            assert(v@.take(p.len() as int)[i as int] != p@[i as int]);
            return false;
        }
        i = i + 1;
    }
    assert(v@.take(p.len() as int) =~= p@);
    true
}

// ---------------------------------------------------------------------
// words and lines
// ---------------------------------------------------------------------

/// The character sequences held by a list of vectors.
pub open spec fn views(v: Seq<Vec<char>>) -> Seq<Seq<char>> {
    v.map_values(|w: Vec<char>| w@)
}

/// The pending word `cur`, as a list of zero or one words.
pub open spec fn flush(cur: Seq<char>) -> Seq<Seq<char>> {
    if cur.len() > 0 {
        seq![cur]
    } else {
        seq![]
    }
}

/// The whitespace-separated words of `s`, given that `cur` holds the
/// characters of a word already begun.
pub open spec fn words_from(s: Seq<char>, cur: Seq<char>) -> Seq<Seq<char>>
    decreases s.len(),
{
    if s.len() == 0 {
        flush(cur)
    } else if is_ws(s[0]) {
        flush(cur) + words_from(s.drop_first(), seq![])
    } else {
        words_from(s.drop_first(), cur.push(s[0]))
    }
}

/// The maximal runs of non-whitespace characters of `s`, in order
/// (what `str::split_whitespace` yields).
pub open spec fn words(s: Seq<char>) -> Seq<Seq<char>> {
    words_from(s, seq![])
}

/// `v` split at whitespace.
pub fn split_words(v: &Vec<char>) -> (out: Vec<Vec<char>>)
    ensures
        views(out@) == words(v@),
{
    let mut out: Vec<Vec<char>> = Vec::new();
    let mut cur: Vec<char> = Vec::new();
    let mut i: usize = 0;
    assert(v@.skip(0) =~= v@);
    while i < v.len()
        invariant
            i <= v.len(),
            words(v@) == views(out@) + words_from(v@.skip(i as int), cur@),
        decreases v.len() - i,
    {
        let c = v[i];
        let ghost rest = v@.skip(i as int);
        assert(rest.drop_first() =~= v@.skip(i + 1));
        if is_whitespace(c) {
            if cur.len() > 0 {
                let ghost before = out@;
                out.push(cur);
                assert(views(out@) =~= views(before) + flush(cur@));
            } else {
                assert(flush(cur@) =~= seq![]);
                assert(views(out@) + seq![] =~= views(out@));
            }
            cur = Vec::new();
            assert(words(v@) == views(out@) + words_from(v@.skip(i + 1), cur@)) by {
                assert(cur@ =~= seq![]);
            }
        } else {
            cur.push(c);
        }
        i = i + 1;
    }
    if cur.len() > 0 {
        let ghost before = out@;
        out.push(cur);
        assert(views(out@) =~= views(before) + flush(cur@));
    } else {
        assert(views(out@) + seq![] =~= views(out@));
    }
    out
}

/// `cur` without one trailing carriage return.
pub open spec fn strip_cr(cur: Seq<char>) -> Seq<char> {
    if cur.len() > 0 && cur.last() == '\r' {
        cur.drop_last()
    } else {
        cur
    }
}

/// The lines of `s`, given that `cur` holds the characters of a line
/// already begun.
pub open spec fn lines_from(s: Seq<char>, cur: Seq<char>) -> Seq<Seq<char>>
    decreases s.len(),
{
    if s.len() == 0 {
        flush(cur)
    } else if s[0] == '\n' {
        seq![strip_cr(cur)] + lines_from(s.drop_first(), seq![])
    } else {
        lines_from(s.drop_first(), cur.push(s[0]))
    }
}

/// The lines of `s` as `str::lines` yields them: split at `\n`, a `\r`
/// right before a `\n` dropped, and no empty line after a final `\n`.
pub open spec fn lines(s: Seq<char>) -> Seq<Seq<char>> {
    lines_from(s, seq![])
}

/// `v` split into lines.
pub fn split_lines(v: &Vec<char>) -> (out: Vec<Vec<char>>)
    ensures
        views(out@) == lines(v@),
{
    let mut out: Vec<Vec<char>> = Vec::new();
    let mut cur: Vec<char> = Vec::new();
    let mut i: usize = 0;
    assert(v@.skip(0) =~= v@);
    while i < v.len()
        invariant
            i <= v.len(),
            lines(v@) == views(out@) + lines_from(v@.skip(i as int), cur@),
        decreases v.len() - i,
    {
        let c = v[i];
        let ghost rest = v@.skip(i as int);
        assert(rest.drop_first() =~= v@.skip(i + 1));
        if c == '\n' {
            let n = cur.len();
            let line = if n > 0 && cur[n - 1] == '\r' {
                let l = copy_range(&cur, 0, n - 1);
                assert(l@ =~= cur@.drop_last());
                l
            } else {
                cur
            };
            let ghost before = out@;
            out.push(line);
            assert(views(out@) =~= views(before) + seq![line@]);
            cur = Vec::new();
            assert(cur@ =~= seq![]);
        } else {
            cur.push(c);
        }
        i = i + 1;
    }
    if cur.len() > 0 {
        let ghost before = out@;
        out.push(cur);
        assert(views(out@) =~= views(before) + flush(cur@));
    } else {
        assert(views(out@) + seq![] =~= views(out@));
    }
    out
}

// ---------------------------------------------------------------------
// numbers
// ---------------------------------------------------------------------

/// The value of `c` as a digit in base `radix` (at most 36), if it is one:
/// `0`-`9`, then `a`-`z` or `A`-`Z` for ten and up, as `char::to_digit` reads it.
pub open spec fn digit_value(c: char, radix: nat) -> Option<nat> {
    let u = c as u32;
    let d: int = if 48 <= u <= 57 {
        u - 48
    } else if 97 <= u <= 122 {
        u - 97 + 10
    } else if 65 <= u <= 90 {
        u - 65 + 10
    } else {
        99
    };
    if d < radix {
        Some(d as nat)
    } else {
        None
    }
}

/// The value of the digit string `d` in base `radix`, if every character is a digit.
pub open spec fn digits_value(d: Seq<char>, radix: nat) -> Option<nat>
    decreases d.len(),
{
    if d.len() == 0 {
        Some(0)
    } else {
        match (digits_value(d.drop_last(), radix), digit_value(d.last(), radix)) {
            (Some(a), Some(b)) => Some(a * radix + b),
            _ => None,
        }
    }
}

/// How an unsigned integer type no larger than `max` reads `s` in base `radix`
/// (`str::parse`, `from_str_radix`): an optional `+`, then at least one digit,
/// and a value that fits.
pub open spec fn parse_unsigned(s: Seq<char>, radix: nat, max: nat) -> Option<nat> {
    let d = if s.len() > 0 && s[0] == '+' {
        s.drop_first()
    } else {
        s
    };
    if d.len() == 0 {
        None
    } else {
        match digits_value(d, radix) {
            Some(v) => if v <= max {
                Some(v)
            } else {
                None
            },
            None => None,
        }
    }
}

proof fn lemma_digits_invalid(d: Seq<char>, radix: nat, j: int)
    requires
        0 <= j < d.len(),
        digit_value(d[j], radix) is None,
    ensures
        digits_value(d, radix) is None,
    decreases d.len(),
{
    if j < d.len() - 1 {
        lemma_digits_invalid(d.drop_last(), radix, j);
    }
}

proof fn lemma_digits_prefix(d: Seq<char>, radix: nat, k: int)
    requires
        0 <= k <= d.len(),
        radix >= 1,
        digits_value(d, radix) is Some,
    ensures
        digits_value(d.take(k), radix) is Some,
        digits_value(d.take(k), radix).unwrap() <= digits_value(d, radix).unwrap(),
    decreases d.len(),
{
    if k == d.len() {
        assert(d.take(k) =~= d);
    } else {
        let a = digits_value(d.drop_last(), radix).unwrap();
        let b = digit_value(d.last(), radix).unwrap();
        lemma_digits_prefix(d.drop_last(), radix, k);
        assert(d.drop_last().take(k) =~= d.take(k));
        assert(a <= a * radix + b) by (nonlinear_arith)
            requires
                radix >= 1,
        ;
    }
}

/// The value of `c` as a digit in base `radix`.
pub fn digit_of(c: char, radix: u32) -> (r: Option<u32>)
    requires
        2 <= radix <= 36,
    ensures
        r matches Some(x) ==> digit_value(c, radix as nat) == Some(x as nat),
        r is None ==> digit_value(c, radix as nat) is None,
{
    let u = c as u32;
    let d: u32 = if 48 <= u && u <= 57 {
        u - 48
    } else if 97 <= u && u <= 122 {
        u - 97 + 10
    } else if 65 <= u && u <= 90 {
        u - 65 + 10
    } else {
        99
    };
    if d < radix {
        Some(d)
    } else {
        None
    }
}

/// `v` read as an unsigned number in base `radix` that must not exceed `max`.
pub fn parse_unsigned_chars(v: &Vec<char>, radix: u32, max: u64) -> (r: Option<u64>)
    requires
        2 <= radix <= 36,
    ensures
        r matches Some(x) ==> parse_unsigned(v@, radix as nat, max as nat) == Some(x as nat),
        r is None ==> parse_unsigned(v@, radix as nat, max as nat) is None,
{
    let st: usize = if v.len() > 0 && v[0] == '+' {
        1
    } else {
        0
    };
    let ghost d = v@.skip(st as int);
    assert(d =~= (if v@.len() > 0 && v@[0] == '+' {
        v@.drop_first()
    } else {
        v@
    }));
    if st == v.len() {
        return None;
    }
    let r = radix as u64;
    let mut acc: u64 = 0;
    let mut i: usize = st;
    assert(d.take(0) =~= seq![]);
    while i < v.len()
        invariant
            st <= i <= v.len(),
            st < v.len(),
            d == v@.skip(st as int),
            d == (if v@.len() > 0 && v@[0] == '+' {
                v@.drop_first()
            } else {
                v@
            }),
            r == radix as u64,
            2 <= radix <= 36,
            acc <= max,
            digits_value(d.take(i - st), radix as nat) == Some(acc as nat),
        decreases v.len() - i,
    {
        let ghost k = (i - st) as int;
        assert(d.take(k + 1).drop_last() =~= d.take(k));
        assert(d.take(k + 1).last() == v@[i as int]);
        assert(d[k] == v@[i as int]);
        match digit_of(v[i], radix) {
            None => {
                proof {
                    lemma_digits_invalid(d, radix as nat, k);
                }
                return None;
            },
            Some(dg) => {
                let dg = dg as u64;
                if dg > max || acc > (max - dg) / r {
                    proof {
                        assert(acc * r + dg > max) by (nonlinear_arith)
                            requires
                                dg > max || acc > (max - dg) / (r as int),
                                r >= 2,
                        ;
                        if digits_value(d, radix as nat) is Some {
                            lemma_digits_prefix(d, radix as nat, k + 1);
                        }
                    }
                    return None;
                }
                assert(acc * r + dg <= max) by (nonlinear_arith)
                    requires
                        dg <= max,
                        acc <= (max - dg) / (r as int),
                        r >= 2,
                ;
                acc = acc * r + dg;
            },
        }
        i = i + 1;
    }
    assert(d.take(d.len() as int) =~= d);
    Some(acc)
}

/// The character for the decimal digit `d`.
pub open spec fn digit_char(d: nat) -> char {
    (d + 48) as char
}

/// The decimal rendering of `n`, without leading zeros.
pub open spec fn dec(n: nat) -> Seq<char>
    decreases n,
{
    if n < 10 {
        seq![digit_char(n)]
    } else {
        dec(n / 10).push(digit_char(n % 10))
    }
}

/// The decimal rendering of `i`, with a leading `-` when negative.
pub open spec fn signed_dec(i: int) -> Seq<char> {
    if i < 0 {
        seq!['-'] + dec((-i) as nat)
    } else {
        dec(i as nat)
    }
}

/// `s` preceded by enough copies of `fill` to be `width` characters long.
pub open spec fn pad_left(s: Seq<char>, width: nat, fill: char) -> Seq<char> {
    if s.len() < width {
        Seq::new((width - s.len()) as nat, |_i| fill) + s
    } else {
        s
    }
}

/// Appends the decimal digits of `n` to `out`.
pub fn push_decimal(out: &mut Vec<char>, n: u64)
    ensures
        final(out)@ == old(out)@ + dec(n as nat),
    decreases n,
{
    if n >= 10 {
        push_decimal(out, n / 10);
    }
    let c = ((n % 10) as u8 + 48u8) as char;
    out.push(c);
    assert(final(out)@ =~= old(out)@ + dec(n as nat));
}

/// The decimal rendering of `n`.
pub fn decimal(n: u64) -> (out: Vec<char>)
    ensures
        out@ == dec(n as nat),
{
    let mut out: Vec<char> = Vec::new();
    push_decimal(&mut out, n);
    assert(out@ =~= dec(n as nat));
    out
}

/// The decimal rendering of `i`, with a sign when negative.
pub fn signed_decimal(i: i64) -> (out: Vec<char>)
    ensures
        out@ == signed_dec(i as int),
{
    let mut out: Vec<char> = Vec::new();
    if i < 0 {
        out.push('-');
        let m: u64 = (0i128 - i as i128) as u64;
        push_decimal(&mut out, m);
        assert(out@ =~= seq!['-'] + dec((-i) as nat));
    } else {
        push_decimal(&mut out, i as u64);
        assert(out@ =~= dec(i as nat));
    }
    out
}

/// `v` padded on the left with `fill` to `width` characters.
pub fn pad_left_chars(v: Vec<char>, width: usize, fill: char) -> (out: Vec<char>)
    ensures
        out@ == pad_left(v@, width as nat, fill),
{
    if v.len() >= width {
        return v;
    }
    let k = width - v.len();
    let mut out: Vec<char> = Vec::new();
    let mut i: usize = 0;
    while i < k
        invariant
            i <= k,
            out@ == Seq::new(i as nat, |_j| fill),
        decreases k - i,
    {
        out.push(fill);
        i = i + 1;
        assert(out@ =~= Seq::new(i as nat, |_j| fill));
    }
    let mut j: usize = 0;
    while j < v.len()
        invariant
            j <= v.len(),
            out@ == Seq::new(k as nat, |_j| fill) + v@.take(j as int),
        decreases v.len() - j,
    {
        out.push(v[j]);
        j = j + 1;
        assert(out@ =~= Seq::new(k as nat, |_j| fill) + v@.take(j as int));
    }
    assert(v@.take(v.len() as int) =~= v@);
    out
}

/// Appends all of `w` to `out`.
pub fn append_chars(out: &mut Vec<char>, w: &Vec<char>)
    ensures
        final(out)@ == old(out)@ + w@,
{
    let mut j: usize = 0;
    while j < w.len()
        invariant
            j <= w.len(),
            out@ == old(out)@ + w@.take(j as int),
        decreases w.len() - j,
    {
        out.push(w[j]);
        j = j + 1;
        assert(out@ =~= old(out)@ + w@.take(j as int));
    }
    assert(w@.take(w.len() as int) =~= w@);
}

/// The first `n` characters of `v` (all of it when shorter).
pub fn take_chars(v: &Vec<char>, n: usize) -> (out: Vec<char>)
    ensures
        out@ == v@.take(if n <= v.len() { n as int } else { v.len() as int }),
{
    let k = if n <= v.len() {
        n
    } else {
        v.len()
    };
    let out = copy_range(v, 0, k);
    assert(out@ =~= v@.take(k as int));
    out
}

// ---------------------------------------------------------------------
// strings
// ---------------------------------------------------------------------

/// The characters of `s`, in order.
pub fn chars_of(s: &str) -> (out: Vec<char>)
    ensures
        out@ == s@,
{
    let mut out: Vec<char> = Vec::new();
    for c in it: s.chars()
        invariant
            out@ == it.seq().take(it.index() as int),
    {
        out.push(c);
    }
    out
}

/// `String::push`: appends the character `c` to `s`.
#[verifier::external_body]
fn push_char(s: &mut String, c: char)
    ensures
        final(s)@ == old(s)@.push(c),
{
    s.push(c)
}

/// A string holding the characters of `v`.
pub fn string_of(v: &Vec<char>) -> (s: String)
    ensures
        s@ == v@,
{
    let mut s = String::new();
    let mut j: usize = 0;
    while j < v.len()
        invariant
            j <= v.len(),
            s@ == v@.take(j as int),
        decreases v.len() - j,
    {
        push_char(&mut s, v[j]);
        j = j + 1;
        assert(s@ =~= v@.take(j as int));
    }
    assert(v@.take(v.len() as int) =~= v@);
    s
}

// ---------------------------------------------------------------------
// parsing lists of words
// ---------------------------------------------------------------------

/// The words of `ws` that read as unsigned numbers (base `radix`, at most
/// `max`), in order; the others are skipped.
pub open spec fn parsed_values(ws: Seq<Seq<char>>, radix: nat, max: nat) -> Seq<nat>
    decreases ws.len(),
{
    if ws.len() == 0 {
        seq![]
    } else {
        let p = parsed_values(ws.drop_last(), radix, max);
        match parse_unsigned(ws.last(), radix, max) {
            Some(v) => p.push(v),
            None => p,
        }
    }
}

/// The numbers among `ws`, skipping words that do not read as one.
pub fn parse_all(ws: &Vec<Vec<char>>, radix: u32, max: u64) -> (out: Vec<u64>)
    requires
        2 <= radix <= 36,
    ensures
        out@.map_values(|x: u64| x as nat) == parsed_values(views(ws@), radix as nat, max as nat),
        forall|i: int| 0 <= i < out@.len() ==> out@[i] <= max,
{
    let mut out: Vec<u64> = Vec::new();
    let mut i: usize = 0;
    assert(views(ws@).take(0) =~= seq![]);
    while i < ws.len()
        invariant
            2 <= radix <= 36,
            i <= ws.len(),
            out@.map_values(|x: u64| x as nat) == parsed_values(
                views(ws@).take(i as int),
                radix as nat,
                max as nat,
            ),
            forall|j: int| 0 <= j < out@.len() ==> out@[j] <= max,
        decreases ws.len() - i,
    {
        let ghost before = out@;
        assert(views(ws@).take(i + 1).drop_last() =~= views(ws@).take(i as int));
        assert(views(ws@).take(i + 1).last() == ws@[i as int]@);
        match parse_unsigned_chars(&ws[i], radix, max) {
            Some(v) => {
                out.push(v);
                assert(out@.map_values(|x: u64| x as nat) =~= before.map_values(|x: u64| x as nat).push(v as nat));
            },
            None => {},
        }
        i = i + 1;
    }
    assert(views(ws@).take(ws.len() as int) =~= views(ws@));
    out
}

} // verus!
