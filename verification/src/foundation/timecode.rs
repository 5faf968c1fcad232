//! SMPTE timecode text: `HH:MM:SS:FF`, and `HH:MM:SS;FF` for drop-frame.

use vstd::prelude::*;
use crate::foundation::rational::abs_int;
use crate::foundation::time::{canonical, ceil_div, trunc_div, FrameRate, RationalTime};

verus! {

/// The character of decimal digit `d`.
pub open spec fn digit_char(d: nat) -> char {
    (d + 48) as char
}

/// Decimal rendering of `n` without leading zeros.
pub open spec fn decimal(n: nat) -> Seq<char>
    decreases n,
{
    if n < 10 {
        seq![digit_char(n)]
    } else {
        decimal(n / 10).push(digit_char(n % 10))
    }
}

/// Decimal rendering of `n` padded with zeros to at least two digits.
pub open spec fn pad2(n: nat) -> Seq<char> {
    if n < 10 {
        seq!['0', digit_char(n)]
    } else {
        decimal(n)
    }
}

/// The text of a timecode with the given fields; `sep` stands before the
/// frame field.
pub open spec fn timecode_text(negative: bool, h: nat, m: nat, s: nat, f: nat, sep: char) -> Seq<char> {
    (if negative { seq!['-'] } else { Seq::<char>::empty() }) + pad2(h) + seq![':'] + pad2(m)
        + seq![':'] + pad2(s) + seq![sep] + pad2(f)
}

/// The text of frame count `total` at `fps` frames per second, non-drop.
pub open spec fn frames_text(negative: bool, total: nat, fps: nat) -> Seq<char> {
    timecode_text(
        negative,
        total / fps / 60 / 60,
        (total / fps / 60) % 60,
        (total / fps) % 60,
        total % fps,
        ':',
    )
}

/// One digit as a string.
fn digit_str(d: u64) -> (s: &'static str)
    requires
        d < 10,
    ensures
        s@ == seq![digit_char(d as nat)],
{
    proof {
        reveal_strlit("0");
        reveal_strlit("1");
        reveal_strlit("2");
        reveal_strlit("3");
        reveal_strlit("4");
        reveal_strlit("5");
        reveal_strlit("6");
        reveal_strlit("7");
        reveal_strlit("8");
        reveal_strlit("9");
    }
    if d == 0 {
        "0"
    } else if d == 1 {
        "1"
    } else if d == 2 {
        "2"
    } else if d == 3 {
        "3"
    } else if d == 4 {
        "4"
    } else if d == 5 {
        "5"
    } else if d == 6 {
        "6"
    } else if d == 7 {
        "7"
    } else if d == 8 {
        "8"
    } else {
        "9"
    }
}

/// Append the decimal rendering of `n`.
pub(crate) fn push_decimal(out: &mut String, n: u64)
    ensures
        final(out)@ == old(out)@ + decimal(n as nat),
    decreases n,
{
    if n >= 10 {
        push_decimal(out, n / 10);
    }
    out.append(digit_str(n % 10));
    proof {
        if n >= 10 {
            assert(decimal(n as nat) == decimal((n / 10) as nat).push(digit_char((n % 10) as nat)));
        }
    }
}

/// Append `n` padded to two digits.
fn push_pad2(out: &mut String, n: u64)
    ensures
        final(out)@ == old(out)@ + pad2(n as nat),
{
    if n < 10 {
        out.append(digit_str(0));
    }
    push_decimal(out, n);
}

/// Build the text of a timecode from its fields.
fn format_timecode(negative: bool, h: u64, m: u64, s: u64, f: u64, drop_sep: bool) -> (r: String)
    ensures
        r@ == timecode_text(negative, h as nat, m as nat, s as nat, f as nat,
            if drop_sep { ';' } else { ':' }),
{
    proof {
        reveal_strlit("-");
        reveal_strlit(":");
        reveal_strlit(";");
        reveal_strlit("");
    }
    let mut out = String::from_str("");
    if negative {
        out.append("-");
    }
    push_pad2(&mut out, h);
    out.append(":");
    push_pad2(&mut out, m);
    out.append(":");
    push_pad2(&mut out, s);
    if drop_sep {
        out.append(";");
    } else {
        out.append(":");
    }
    push_pad2(&mut out, f);
    out
}

/// Frames dropped from the count per minute at a drop-frame rate, or zero
/// when `fps` and `rate` do not form one.
pub open spec fn drops_per_minute(fps: nat, rate: FrameRate) -> nat {
    if fps == 30 && rate.denominator == 1001 {
        2
    } else if fps == 60 && rate.denominator == 1001 {
        4
    } else {
        0
    }
}

/// Minutes elapsed, counted the drop-frame way, for frame `n`.
pub open spec fn drop_total_minutes(n: nat, fps: nat, d: nat) -> nat {
    let per_ten = (fps * 600 - d * 9) as nat;
    let blocks = n / per_ten;
    let rem = n % per_ten;
    let extra: nat = if rem < fps * 60 { 0 } else { (1 + ((rem - fps * 60) as nat) / ((fps * 60 - d) as nat)) as nat };
    blocks * 10 + extra
}

/// Frame `n` relabelled to the displayed frame count of drop-frame timecode.
pub open spec fn drop_display(n: nat, fps: nat, d: nat) -> nat {
    let tm = drop_total_minutes(n, fps, d);
    n + d * ((tm - tm / 10) as nat)
}

/// The text of drop-frame timecode for frame `n`.
pub open spec fn drop_frame_text(negative: bool, n: nat, fps: nat, d: nat) -> Seq<char> {
    let display = drop_display(n, fps, d);
    timecode_text(
        negative,
        display / (fps * 3600),
        (display / (fps * 60)) % 60,
        (display / fps) % 60,
        display % fps,
        ';',
    )
}

/// The magnitude of an `i64` as `u64`.
fn magnitude(x: i64) -> (r: u64)
    ensures
        r == abs_int(x as int),
{
    if x < 0 {
        ((-(x + 1)) as u64) + 1
    } else {
        x as u64
    }
}

impl RationalTime {
    /// Timecode `HH:MM:SS:FF` of this time at `rate`.
    pub fn to_timecode(self, rate: FrameRate) -> (r: String)
        requires
            self.wf(),
            rate.numerator != 0,
            rate.denominator != 0,
            abs_int(self.num() * rate.numerator) <= i64::MAX,
            self.den() * rate.denominator <= i64::MAX,
        ensures
            r@ == frames_text(
                self.num() < 0,
                abs_int(trunc_div(self.num() * rate.numerator, self.den() * rate.denominator)) as nat,
                ceil_div(rate.numerator as int, rate.denominator as int) as nat,
            ),
    {
        let total_frames = magnitude(self.to_frames(rate));
        let negative = self.numer() < 0;
        let fps = rate.nominal_fps() as u64;
        proof {
            assert(fps > 0) by (nonlinear_arith)
                requires fps == (rate.numerator + rate.denominator - 1) / (rate.denominator as int),
                    rate.numerator >= 1, rate.denominator >= 1;
        }
        let frames = total_frames % fps;
        let total_secs = total_frames / fps;
        let seconds = total_secs % 60;
        let total_mins = total_secs / 60;
        let minutes = total_mins % 60;
        let hours = total_mins / 60;
        format_timecode(negative, hours, minutes, seconds, frames, false)
    }

    /// Drop-frame timecode `HH:MM:SS;FF` of this time at `rate`, for 29.97
    /// and 59.94 fps; other rates fall back to [`Self::to_timecode`].
    pub fn to_timecode_drop_frame(self, rate: FrameRate) -> (r: String)
        requires
            self.wf(),
            rate.numerator != 0,
            rate.denominator != 0,
            abs_int(self.num() * rate.numerator) <= i64::MAX,
            self.den() * rate.denominator <= i64::MAX,
        ensures
            ({
                let fps = ceil_div(rate.numerator as int, rate.denominator as int) as nat;
                let n = abs_int(trunc_div(self.num() * rate.numerator, self.den() * rate.denominator)) as nat;
                let d = drops_per_minute(fps, rate);
                r@ == if d == 0 {
                    frames_text(self.num() < 0, n, fps)
                } else {
                    drop_frame_text(self.num() < 0, n, fps, d)
                }
            }),
    {
        let fps = rate.nominal_fps() as u64;
        let d: u64 = if fps == 30 && rate.denominator == 1001 {
            2
        } else if fps == 60 && rate.denominator == 1001 {
            4
        } else {
            return self.to_timecode(rate);
        };
        let n = magnitude(self.to_frames(rate));
        let negative = self.numer() < 0;
        let frames_per_10min = fps * 60 * 10 - d * 9;
        let ten_min_blocks = n / frames_per_10min;
        let remainder = n % frames_per_10min;
        let additional_minutes = if remainder < fps * 60 {
            0
        } else {
            proof {
                assert((remainder - fps * 60) / (fps * 60 - d) <= remainder) by (nonlinear_arith)
                    requires remainder >= fps * 60, fps * 60 - d >= 1;
            }
            1 + (remainder - fps * 60) / (fps * 60 - d)
        };
        proof {
            assert(additional_minutes <= 10) by (nonlinear_arith)
                requires
                    remainder < fps * 600 - d * 9,
                    d <= 4,
                    fps >= 30,
                    additional_minutes == (if remainder < fps * 60 { 0 } else {
                        1 + (remainder - fps * 60) / (fps * 60 - d) }),
                    remainder >= 0;
            vstd::arithmetic::div_mod::lemma_fundamental_div_mod(n as int, frames_per_10min as int);
            assert(ten_min_blocks * 17980 <= n) by (nonlinear_arith)
                requires
                    n == frames_per_10min * ten_min_blocks + remainder,
                    remainder >= 0,
                    frames_per_10min >= 17980,
                    ten_min_blocks >= 0;
        }
        let total_minutes = ten_min_blocks * 10 + additional_minutes;
        proof {
            assert(total_minutes - total_minutes / 10 <= total_minutes);
            assert(ten_min_blocks <= 0x2_0000_0000_0000) by (nonlinear_arith)
                requires ten_min_blocks * 17980 <= n, n <= 0x8000_0000_0000_0000;
            assert(total_minutes <= 0x40_0000_0000_0000);
            assert(d * (total_minutes - total_minutes / 10) <= 4 * 0x40_0000_0000_0000) by (nonlinear_arith)
                requires d <= 4, total_minutes - total_minutes / 10 <= 0x40_0000_0000_0000,
                    total_minutes - total_minutes / 10 >= 0;
        }
        let drops = d * (total_minutes - total_minutes / 10);
        proof {
            assert(drops <= 4 * total_minutes) by (nonlinear_arith)
                requires drops == d * (total_minutes - total_minutes / 10), d <= 4,
                    total_minutes >= total_minutes / 10, total_minutes / 10 >= 0;
            assert(n <= 0x8000_0000_0000_0000);
        }
        let display = n + drops;
        let frames = display % fps;
        let seconds = (display / fps) % 60;
        let minutes = (display / (fps * 60)) % 60;
        let hours = display / (fps * 60 * 60);
        format_timecode(negative, hours, minutes, seconds, frames, true)
    }
}

/// `c` separates timecode fields.
pub open spec fn is_tc_sep(c: char) -> bool {
    c == ':' || c == ';'
}

/// `c` is an ASCII decimal digit.
pub open spec fn is_digit(c: char) -> bool {
    48 <= (c as u32) <= 57
}

/// Value of digit character `c`.
pub open spec fn digit_value(c: char) -> nat {
    ((c as u32) - 48) as nat
}

/// The fields of `s` between separators, as `str::split` returns them.
pub open spec fn split_fields(s: Seq<char>) -> Seq<Seq<char>>
    decreases s.len(),
{
    if s.len() == 0 {
        seq![Seq::<char>::empty()]
    } else {
        let r = split_fields(s.drop_last());
        if is_tc_sep(s.last()) {
            r.push(Seq::<char>::empty())
        } else {
            r.update(r.len() - 1, r[r.len() - 1].push(s.last()))
        }
    }
}

/// `s` with all leading dashes removed.
pub open spec fn strip_dashes(s: Seq<char>) -> Seq<char>
    decreases s.len(),
{
    if s.len() > 0 && s[0] == '-' {
        strip_dashes(s.drop_first())
    } else {
        s
    }
}

/// Every character of `s` is a digit.
pub open spec fn all_digits(s: Seq<char>) -> bool {
    forall|i: int| 0 <= i < s.len() ==> is_digit(#[trigger] s[i])
}

/// The decimal value of a digit string.
pub open spec fn digits_value(s: Seq<char>) -> nat
    decreases s.len(),
{
    if s.len() == 0 {
        0
    } else {
        digits_value(s.drop_last()) * 10 + digit_value(s.last())
    }
}

/// What `str::parse::<u64>` gives: an optional `+`, then one or more digits
/// whose value fits in `u64`.
pub open spec fn parse_u64(s: Seq<char>) -> Option<nat> {
    let d = if s.len() > 0 && s[0] == '+' { s.drop_first() } else { s };
    if d.len() > 0 && all_digits(d) && digits_value(d) <= u64::MAX {
        Some(digits_value(d))
    } else {
        None
    }
}

/// Parsed timecode: sign, drop-frame marker, hours, minutes, seconds, frames.
pub open spec fn parse_timecode(s: Seq<char>) -> Option<(bool, bool, nat, nat, nat, nat)> {
    let negative = s.len() > 0 && s[0] == '-';
    let t = strip_dashes(s);
    let parts = split_fields(t);
    if parts.len() == 4 && parse_u64(parts[0]) is Some && parse_u64(parts[1]) is Some
        && parse_u64(parts[2]) is Some && parse_u64(parts[3]) is Some {
        Some((negative, t.contains(';'), parse_u64(parts[0])->0, parse_u64(parts[1])->0,
            parse_u64(parts[2])->0, parse_u64(parts[3])->0))
    } else {
        None
    }
}

/// Frame count given by timecode fields, before drop-frame correction.
pub open spec fn fields_frames(h: nat, m: nat, s: nat, f: nat, fps: nat) -> nat {
    h * 3600 * fps + m * 60 * fps + s * fps + f
}

/// Frames dropped up to the given hour and minute.
pub open spec fn dropped_frames(h: nat, m: nat, dc: nat) -> nat {
    let tm = h * 60 + m;
    dc * ((tm - tm / 10) as nat)
}

/// The frame number that parsed timecode fields denote at `rate`.
pub open spec fn timecode_frames(p: (bool, bool, nat, nat, nat, nat), rate: FrameRate) -> int {
    let fps = ceil_div(rate.numerator as int, rate.denominator as int) as nat;
    let dc = if p.1 { drops_per_minute(fps, rate) } else { 0 };
    fields_frames(p.2, p.3, p.4, p.5, fps) - dropped_frames(p.2, p.3, dc)
}

/// The frame count of the timecode fields fits in `u64` at a usable `rate`.
pub open spec fn frames_fit(p: (bool, bool, nat, nat, nat, nat), rate: FrameRate) -> bool {
    let fps = ceil_div(rate.numerator as int, rate.denominator as int) as nat;
    &&& rate.numerator != 0
    &&& rate.denominator != 0
    &&& fields_frames(p.2, p.3, p.4, p.5, fps) <= u64::MAX
}

/// Parsing the timecode can proceed without overflow or division by zero.
pub open spec fn timecode_fits(p: (bool, bool, nat, nat, nat, nat), rate: FrameRate) -> bool {
    &&& frames_fit(p, rate)
    &&& abs_int((timecode_frames(p, rate) as i64) * rate.denominator) <= i64::MAX
}

/// The time that a timecode denotes at `rate`.
pub open spec fn timecode_time(p: (bool, bool, nat, nat, nat, nat), rate: FrameRate) -> RationalTime {
    let t = canonical((timecode_frames(p, rate) as i64) * rate.denominator, rate.numerator as int);
    if p.0 { t.negation() } else { t }
}

proof fn lemma_split_nonempty(s: Seq<char>)
    ensures
        split_fields(s).len() >= 1,
    decreases s.len(),
{
    if s.len() > 0 {
        lemma_split_nonempty(s.drop_last());
    }
}

/// The characters of a string.
fn chars_of(s: &str) -> (v: Vec<char>)
    ensures
        v@ == s@,
{
    let n = s.unicode_len();
    let mut v: Vec<char> = Vec::new();
    let mut i: usize = 0;
    while i < n
        invariant
            n == s@.len(),
            i <= n,
            v@ == s@.take(i as int),
        decreases n - i,
    {
        v.push(s.get_char(i));
        i = i + 1;
        assert(v@ =~= s@.take(i as int));
    }
    assert(v@ =~= s@);
    v
}

proof fn lemma_digits_value_step(s: Seq<char>, i: int)
    requires
        0 <= i < s.len(),
    ensures
        digits_value(s.take(i + 1)) == digits_value(s.take(i)) * 10 + digit_value(s[i]),
{
    assert(s.take(i + 1).drop_last() =~= s.take(i));
}

proof fn lemma_digits_value_grows(s: Seq<char>, i: int)
    requires
        0 <= i <= s.len(),
    ensures
        digits_value(s) >= digits_value(s.take(i)),
    decreases s.len() - i,
{
    if i < s.len() {
        lemma_digits_value_step(s, i);
        lemma_digits_value_grows(s, i + 1);
    } else {
        assert(s.take(i) =~= s);
    }
}

/// Parse an unsigned decimal field the way `str::parse::<u64>` does.
fn parse_field(s: &Vec<char>, start: usize, end: usize) -> (r: Option<u64>)
    requires
        start <= end <= s.len(),
    ensures
        r matches Some(v) ==> parse_u64(s@.subrange(start as int, end as int)) == Some(v as nat),
        r is None ==> parse_u64(s@.subrange(start as int, end as int)) is None,
{
    let ghost f = s@.subrange(start as int, end as int);
    let mut i = start;
    if i < end && s[i] == '+' {
        i = i + 1;
    }
    let ghost d = s@.subrange(i as int, end as int);
    proof {
        if f.len() > 0 && f[0] == '+' {
            assert(d =~= f.drop_first());
        } else {
            assert(d =~= f);
        }
    }
    if i == end {
        return None;
    }
    let mut value: u64 = 0;
    let mut j = i;
    assert(parse_u64(f) == (if d.len() > 0 && all_digits(d) && digits_value(d) <= u64::MAX {
        Some(digits_value(d))
    } else {
        None
    }));
    while j < end
        invariant
            i < end,
            i <= j <= end <= s.len(),
            d == s@.subrange(i as int, end as int),
            f == s@.subrange(start as int, end as int),
            parse_u64(f) == (if d.len() > 0 && all_digits(d) && digits_value(d) <= u64::MAX {
                Some(digits_value(d))
            } else {
                None
            }),
            forall|k: int| 0 <= k < j - i ==> is_digit(#[trigger] d[k]),
            value == digits_value(d.take(j - i)),
        decreases end - j,
    {
        let c = s[j];
        let code = c as u32;
        assert(d[j - i] == s@[j as int]);
        if !(48 <= code && code <= 57) {
            assert(!is_digit(d[j - i]));
            return None;
        }
        let dv = (code - 48) as u64;
        proof { lemma_digits_value_step(d, j - i); }
        if value > (u64::MAX - dv) / 10 {
            proof {
                lemma_digits_value_grows(d, j - i + 1);
                assert(value * 10 + dv > u64::MAX) by (nonlinear_arith)
                    requires value > (u64::MAX - dv) / 10, dv <= 9;
            }
            return None;
        }
        value = value * 10 + dv;
        j = j + 1;
    }
    assert(d.take(j - i) =~= d);
    Some(value)
}

proof fn lemma_strip_step(s: Seq<char>, k: int)
    requires
        0 <= k < s.len(),
        s[k] == '-',
    ensures
        strip_dashes(s.subrange(k, s.len() as int)) == strip_dashes(s.subrange(k + 1, s.len() as int)),
{
    let a = s.subrange(k, s.len() as int);
    assert(a.drop_first() =~= s.subrange(k + 1, s.len() as int));
}

proof fn lemma_split_step(t: Seq<char>, k: int, j: int)
    requires
        0 <= k <= j < t.len(),
    ensures
        split_fields(t.subrange(k, j + 1)) == ({
            let r = split_fields(t.subrange(k, j));
            if is_tc_sep(t[j]) {
                r.push(Seq::<char>::empty())
            } else {
                r.update(r.len() - 1, r[r.len() - 1].push(t[j]))
            }
        }),
{
    let a = t.subrange(k, j + 1);
    assert(a.drop_last() =~= t.subrange(k, j));
    assert(a.last() == t[j]);
}

/// Locate the leading dashes, the drop-frame marker and the field boundaries
/// of a timecode.
fn scan_timecode(chars: &Vec<char>) -> (r: (usize, bool, Vec<(usize, usize)>))
    ensures
        r.0 <= chars.len(),
        strip_dashes(chars@) == chars@.subrange(r.0 as int, chars.len() as int),
        r.1 == chars@.subrange(r.0 as int, chars.len() as int).contains(';'),
        r.2.len() + 1 == split_fields(chars@.subrange(r.0 as int, chars.len() as int)).len(),
        forall|i: int| 0 <= i < r.2.len() ==> {
            &&& r.0 <= (#[trigger] r.2[i]).0 <= r.2[i].1 <= chars.len()
            &&& split_fields(chars@.subrange(r.0 as int, chars.len() as int))[i]
                == chars@.subrange(r.2[i].0 as int, r.2[i].1 as int)
        },
        r.2.len() > 0 ==> r.2[r.2.len() - 1].1 < chars.len(),
        ({
            let last_start = if r.2.len() == 0 { r.0 as int } else { r.2[r.2.len() - 1].1 + 1 };
            &&& last_start <= chars.len()
            &&& split_fields(chars@.subrange(r.0 as int, chars.len() as int))[r.2.len() as int]
                == chars@.subrange(last_start, chars.len() as int)
        }),
{
    let n = chars.len();
    let mut k: usize = 0;
    proof {
        assert(chars@.subrange(0, n as int) =~= chars@);
    }
    while k < n && chars[k] == '-'
        invariant
            k <= n == chars.len(),
            strip_dashes(chars@) == strip_dashes(chars@.subrange(k as int, n as int)),
        decreases n - k,
    {
        proof { lemma_strip_step(chars@, k as int); }
        k = k + 1;
    }
    let mut drop = false;
    let mut bounds: Vec<(usize, usize)> = Vec::new();
    let mut cur: usize = k;
    let mut j: usize = k;
    proof {
        assert(chars@.subrange(k as int, k as int) =~= Seq::<char>::empty());
    }
    while j < n
        invariant
            k <= cur <= j <= n == chars.len(),
            drop == chars@.subrange(k as int, j as int).contains(';'),
            bounds.len() + 1 == split_fields(chars@.subrange(k as int, j as int)).len(),
            forall|i: int| 0 <= i < bounds.len() ==> {
                &&& k <= (#[trigger] bounds[i]).0 <= bounds[i].1 < cur
                &&& split_fields(chars@.subrange(k as int, j as int))[i]
                    == chars@.subrange(bounds[i].0 as int, bounds[i].1 as int)
            },
            cur == (if bounds.len() == 0 { k as int } else { bounds[bounds.len() - 1].1 + 1 }),
            split_fields(chars@.subrange(k as int, j as int))[bounds.len() as int]
                == chars@.subrange(cur as int, j as int),
        decreases n - j,
    {
        let c = chars[j];
        proof {
            lemma_split_step(chars@, k as int, j as int);
            lemma_split_nonempty(chars@.subrange(k as int, j as int));
            let a = chars@.subrange(k as int, j as int + 1);
            assert(a =~= chars@.subrange(k as int, j as int).push(c));
            if chars@.subrange(k as int, j as int).contains(';') {
                let w = choose|w: int| 0 <= w < j - k && chars@.subrange(k as int, j as int)[w] == ';';
                assert(a[w] == ';');
            }
            if c == ';' {
                assert(a[j - k] == ';');
            }
            if a.contains(';') && c != ';' {
                let w = choose|w: int| 0 <= w < a.len() && a[w] == ';';
                assert(chars@.subrange(k as int, j as int)[w] == ';');
            }
        }
        if c == ';' {
            drop = true;
        }
        if c == ':' || c == ';' {
            bounds.push((cur, j));
            cur = j + 1;
            proof {
                assert(chars@.subrange(cur as int, j as int + 1) =~= Seq::<char>::empty());
            }
        } else {
            proof {
                assert(chars@.subrange(cur as int, j as int + 1)
                    =~= chars@.subrange(cur as int, j as int).push(c));
            }
        }
        j = j + 1;
    }
    (k, drop, bounds)
}

/// Parse the fields of a timecode.
#[verifier::rlimit(60)]
fn parse_timecode_fields(tc: &str) -> (r: Option<(bool, bool, u64, u64, u64, u64)>)
    ensures
        r matches Some(q) ==> parse_timecode(tc@) == Some(
            (q.0, q.1, q.2 as nat, q.3 as nat, q.4 as nat, q.5 as nat),
        ),
        r is None ==> parse_timecode(tc@) is None,
{
    let chars = chars_of(tc);
    let negative = chars.len() > 0 && chars[0] == '-';
    let (k, is_drop_frame, bounds) = scan_timecode(&chars);
    let ghost t = chars@.subrange(k as int, chars.len() as int);
    let ghost parts = split_fields(t);
    proof {
        assert(negative == (tc@.len() > 0 && tc@[0] == '-'));
        assert(strip_dashes(tc@) == t);
    }
    if bounds.len() != 3 {
        assert(parts.len() != 4);
        return None;
    }
    proof {
        assert(parts.len() == 4);
        assert(parts[0] == chars@.subrange(bounds[0].0 as int, bounds[0].1 as int));
        assert(parts[1] == chars@.subrange(bounds[1].0 as int, bounds[1].1 as int));
        assert(parts[2] == chars@.subrange(bounds[2].0 as int, bounds[2].1 as int));
        assert(parts[3] == chars@.subrange(bounds[2].1 + 1, chars.len() as int));
    }
    let hours = match parse_field(&chars, bounds[0].0, bounds[0].1) {
        Some(v) => v,
        None => { return None; },
    };
    let minutes = match parse_field(&chars, bounds[1].0, bounds[1].1) {
        Some(v) => v,
        None => { return None; },
    };
    let seconds = match parse_field(&chars, bounds[2].0, bounds[2].1) {
        Some(v) => v,
        None => { return None; },
    };
    let frames = match parse_field(&chars, bounds[2].1 + 1, chars.len()) {
        Some(v) => v,
        None => { return None; },
    };
    Some((negative, is_drop_frame, hours, minutes, seconds, frames))
}

/// The frame number denoted by parsed timecode fields at `rate`.
fn timecode_frame_count(q: (bool, bool, u64, u64, u64, u64), rate: FrameRate) -> (total: u64)
    requires
        frames_fit((q.0, q.1, q.2 as nat, q.3 as nat, q.4 as nat, q.5 as nat), rate),
    ensures
        total == timecode_frames((q.0, q.1, q.2 as nat, q.3 as nat, q.4 as nat, q.5 as nat), rate),
{
    let (_, is_drop_frame, hours, minutes, seconds, frames) = q;
    let fps = rate.nominal_fps() as u64;
    proof {
        assert(fps >= 1) by (nonlinear_arith)
            requires fps == (rate.numerator + rate.denominator - 1) / (rate.denominator as int),
                rate.numerator >= 1, rate.denominator >= 1;
        assert(hours * 3600 <= hours * 3600 * fps) by (nonlinear_arith) requires fps >= 1;
        assert(minutes * 60 <= minutes * 60 * fps) by (nonlinear_arith) requires fps >= 1;
        assert(hours * 3600 * fps >= 0 && minutes * 60 * fps >= 0 && seconds * fps >= 0)
            by (nonlinear_arith) requires fps >= 1;
    }
    let base = hours * 3600 * fps + minutes * 60 * fps + seconds * fps + frames;
    if is_drop_frame {
        let drop_count: u64 = if fps == 30 && rate.denominator == 1001 {
            2
        } else if fps == 60 && rate.denominator == 1001 {
            4
        } else {
            0
        };
        proof {
            assert(hours * 60 <= hours * 3600 * fps) by (nonlinear_arith) requires fps >= 1;
            assert(minutes <= minutes * 60 * fps) by (nonlinear_arith) requires fps >= 1;
        }
        let total_minutes = hours * 60 + minutes;
        proof {
            assert(drop_count * (total_minutes - total_minutes / 10) <= base) by (nonlinear_arith)
                requires
                    drop_count <= 4,
                    drop_count > 0 ==> fps >= 30,
                    total_minutes == hours * 60 + minutes,
                    total_minutes >= total_minutes / 10 >= 0,
                    base == hours * 3600 * fps + minutes * 60 * fps + seconds * fps + frames,
                    hours >= 0, minutes >= 0, seconds >= 0, frames >= 0,
                    fps >= 1;
        }
        let drops = drop_count * (total_minutes - total_minutes / 10);
        base - drops
    } else {
        base
    }
}

/// Whether parsed timecode fields can be turned into a time at `rate`
/// without overflow or division by zero.
fn timecode_fits_check(q: (bool, bool, u64, u64, u64, u64), rate: FrameRate) -> (b: bool)
    ensures
        b == timecode_fits((q.0, q.1, q.2 as nat, q.3 as nat, q.4 as nat, q.5 as nat), rate),
{
    let ghost p = (q.0, q.1, q.2 as nat, q.3 as nat, q.4 as nat, q.5 as nat);
    if rate.numerator == 0 || rate.denominator == 0 {
        return false;
    }
    let fps = rate.nominal_fps() as u128;
    let h = q.2 as u128;
    let m = q.3 as u128;
    let s = q.4 as u128;
    let f = q.5 as u128;
    proof {
        assert(fps <= u32::MAX);
        assert(h * 3600 * fps <= 0xffff_ffff_ffff_ffff * 3600 * 0xffff_ffff) by (nonlinear_arith)
            requires h <= 0xffff_ffff_ffff_ffff, fps <= 0xffff_ffff;
        assert(m * 60 * fps <= 0xffff_ffff_ffff_ffff * 60 * 0xffff_ffff) by (nonlinear_arith)
            requires m <= 0xffff_ffff_ffff_ffff, fps <= 0xffff_ffff;
        assert(s * fps <= 0xffff_ffff_ffff_ffff * 0xffff_ffff) by (nonlinear_arith)
            requires s <= 0xffff_ffff_ffff_ffff, fps <= 0xffff_ffff;
    }
    let base = h * 3600 * fps + m * 60 * fps + s * fps + f;
    if base > 0xffff_ffff_ffff_ffff {
        return false;
    }
    let total = timecode_frame_count(q, rate);
    let signed = #[verifier::truncate] (total as i64);
    proof {
        assert(-0x8000_0000_0000_0000 * 0xffff_ffff <= signed * rate.denominator
            <= 0x7fff_ffff_ffff_ffff * 0xffff_ffff) by (nonlinear_arith)
            requires
                -0x8000_0000_0000_0000 <= signed <= 0x7fff_ffff_ffff_ffff,
                0 <= rate.denominator <= 0xffff_ffff;
    }
    let product = (signed as i128) * (rate.denominator as i128);
    -0x7fff_ffff_ffff_ffff <= product && product <= 0x7fff_ffff_ffff_ffff
}

impl RationalTime {
    /// Parse timecode `HH:MM:SS:FF`, or `HH:MM:SS;FF` for drop-frame, at
    /// `rate`; a leading `-` makes the time negative.
    pub fn from_timecode(tc: &str, rate: FrameRate) -> (r: Option<RationalTime>)
        requires
            parse_timecode(tc@) matches Some(p) ==> timecode_fits(p, rate),
        ensures
            r == (match parse_timecode(tc@) {
                Some(p) => Some(timecode_time(p, rate)),
                None => None,
            }),
            r matches Some(t) ==> t.wf(),
    {
        let q = match parse_timecode_fields(tc) {
            Some(q) => q,
            None => { return None; },
        };
        let total_frames = timecode_frame_count(q, rate);
        let time = Self::from_frames(total_frames as i64, rate);
        if q.0 {
            Some(time.negated())
        } else {
            Some(time)
        }
    }
    /// Parse timecode as [`RationalTime::from_timecode`] does, or `None`
    /// where the timecode is malformed or its frame count or time does not
    /// fit the integers it is computed in at `rate`.
    pub fn try_from_timecode(tc: &str, rate: FrameRate) -> (r: Option<RationalTime>)
        ensures
            r == (match parse_timecode(tc@) {
                Some(p) => if timecode_fits(p, rate) {
                    Some(timecode_time(p, rate))
                } else {
                    None
                },
                None => None,
            }),
            r matches Some(t) ==> t.wf(),
    {
        let q = match parse_timecode_fields(tc) {
            Some(q) => q,
            None => { return None; },
        };
        if !timecode_fits_check(q, rate) {
            return None;
        }
        Self::from_timecode(tc, rate)
    }
}

} // verus!
