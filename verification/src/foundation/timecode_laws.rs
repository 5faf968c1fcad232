//! Laws of timecode text: what formatting writes, parsing reads back.

use vstd::prelude::*;
use crate::foundation::rational::abs_int;
use crate::foundation::time::{canonical, ceil_div, FrameRate};
use crate::foundation::timecode::{
    all_digits, decimal, digit_char, digit_value, digits_value, drop_display, drop_frame_text,
    drop_total_minutes, drops_per_minute, dropped_frames, fields_frames, frames_text, is_digit,
    is_tc_sep, pad2, parse_timecode, parse_u64, split_fields, strip_dashes, timecode_fits,
    timecode_frames, timecode_text, timecode_time,
};

verus! {

/// A sequence without field separators.
spec fn no_seps(s: Seq<char>) -> bool {
    forall|i: int| 0 <= i < s.len() ==> !is_tc_sep(#[trigger] s[i])
}

proof fn lemma_decimal(n: nat)
    ensures
        decimal(n).len() >= 1,
        all_digits(decimal(n)),
        digits_value(decimal(n)) == n,
    decreases n,
{
    if n < 10 {
        let s = decimal(n);
        assert(s.drop_last() =~= Seq::<char>::empty());
        assert(digits_value(Seq::<char>::empty()) == 0);
        assert(digit_value(digit_char(n)) == n);
        assert(digits_value(s) == digits_value(s.drop_last()) * 10 + digit_value(s.last()));
    } else {
        lemma_decimal(n / 10);
        let s = decimal(n);
        assert(s.drop_last() =~= decimal(n / 10));
        assert(digit_value(digit_char(n % 10)) == n % 10);
        assert(is_digit(digit_char(n % 10)));
        assert forall|i: int| 0 <= i < s.len() implies is_digit(#[trigger] s[i]) by {
            if i < s.len() - 1 {
                assert(s[i] == decimal(n / 10)[i]);
            }
        }
        vstd::arithmetic::div_mod::lemma_fundamental_div_mod(n as int, 10);
        assert(digits_value(s) == digits_value(s.drop_last()) * 10 + digit_value(s.last()));
        assert(digits_value(s) == (n / 10) * 10 + n % 10);
    }
}

proof fn lemma_pad2(n: nat)
    requires
        n <= u64::MAX,
    ensures
        parse_u64(pad2(n)) == Some(n),
        pad2(n).len() >= 1,
        is_digit(pad2(n)[0]),
        no_seps(pad2(n)),
{
    let p = pad2(n);
    if n < 10 {
        assert(p.drop_last() =~= seq!['0']);
        assert(seq!['0'].drop_last() =~= Seq::<char>::empty());
        assert(digits_value(Seq::<char>::empty()) == 0);
        assert(seq!['0'].last() == '0');
        assert(digit_value('0') == 0);
        assert(digits_value(seq!['0']) == digits_value(seq!['0'].drop_last()) * 10 + digit_value('0'));
        assert(digits_value(seq!['0']) == 0);
        assert(digits_value(p) == digits_value(p.drop_last()) * 10 + digit_value(p.last()));
        assert(digit_value(digit_char(n)) == n);
        assert(all_digits(p));
    } else {
        lemma_decimal(n);
    }
    assert(all_digits(p));
    assert(p[0] != '+');
    assert forall|i: int| 0 <= i < p.len() implies !is_tc_sep(#[trigger] p[i]) by {
        assert(is_digit(p[i]));
    }
}

proof fn lemma_split_no_seps(x: Seq<char>, y: Seq<char>)
    requires
        no_seps(y),
    ensures
        split_fields(x + y) == split_fields(x).update(
            split_fields(x).len() - 1,
            split_fields(x)[split_fields(x).len() - 1] + y,
        ),
    decreases y.len(),
{
    lemma_split_len(x);
    if y.len() == 0 {
        assert(x + y =~= x);
        assert(split_fields(x)[split_fields(x).len() - 1] + y
            =~= split_fields(x)[split_fields(x).len() - 1]);
        assert(split_fields(x).update(split_fields(x).len() - 1,
            split_fields(x)[split_fields(x).len() - 1]) =~= split_fields(x));
    } else {
        let y0 = y.drop_last();
        assert(no_seps(y0)) by {
            assert forall|i: int| 0 <= i < y0.len() implies !is_tc_sep(#[trigger] y0[i]) by {
                assert(y0[i] == y[i]);
            }
        }
        lemma_split_no_seps(x, y0);
        assert((x + y).drop_last() =~= x + y0);
        assert((x + y).last() == y.last());
        assert(!is_tc_sep(y.last()));
        let r = split_fields(x);
        let l = r.len() - 1;
        assert(split_fields(x + y) =~= r.update(l, r[l] + y0).update(l, (r[l] + y0).push(y.last())));
        assert((r[l] + y0).push(y.last()) =~= r[l] + y);
        assert(r.update(l, r[l] + y0).update(l, r[l] + y) =~= r.update(l, r[l] + y));
    }
}

proof fn lemma_split_len(s: Seq<char>)
    ensures
        split_fields(s).len() >= 1,
    decreases s.len(),
{
    if s.len() > 0 {
        lemma_split_len(s.drop_last());
    }
}

proof fn lemma_split_sep(x: Seq<char>, c: char)
    requires
        is_tc_sep(c),
    ensures
        split_fields(x.push(c)) == split_fields(x).push(Seq::<char>::empty()),
{
    assert(x.push(c).drop_last() =~= x);
}

proof fn lemma_split_text(a: Seq<char>, b: Seq<char>, c: Seq<char>, d: Seq<char>, sep: char)
    requires
        no_seps(a),
        no_seps(b),
        no_seps(c),
        no_seps(d),
        is_tc_sep(sep),
    ensures
        split_fields(a + seq![':'] + b + seq![':'] + c + seq![sep] + d) == seq![a, b, c, d],
{
    let e = Seq::<char>::empty();
    assert(split_fields(e) == seq![e]);
    lemma_split_no_seps(e, a);
    assert(e + a =~= a);
    assert(split_fields(a) =~= seq![a]);
    lemma_split_sep(a, ':');
    assert(a.push(':') =~= a + seq![':']);
    let a1 = a + seq![':'];
    assert(split_fields(a1) =~= seq![a, e]);
    lemma_split_no_seps(a1, b);
    assert(split_fields(a1 + b) =~= seq![a, b]);
    let b1 = a1 + b + seq![':'];
    lemma_split_sep(a1 + b, ':');
    assert((a1 + b).push(':') =~= b1);
    assert(split_fields(b1) =~= seq![a, b, e]);
    lemma_split_no_seps(b1, c);
    assert(split_fields(b1 + c) =~= seq![a, b, c]);
    let c1 = b1 + c + seq![sep];
    lemma_split_sep(b1 + c, sep);
    assert((b1 + c).push(sep) =~= c1);
    assert(split_fields(c1) =~= seq![a, b, c, e]);
    lemma_split_no_seps(c1, d);
    assert(split_fields(c1 + d) =~= seq![a, b, c, d]);
}

proof fn lemma_fields_sum(total: nat, fps: nat)
    requires
        fps > 0,
    ensures
        fields_frames(total / fps / 60 / 60, (total / fps / 60) % 60, (total / fps) % 60, total % fps, fps)
            == total,
{
    let q1 = total / fps;
    let q2 = q1 / 60;
    let h = q2 / 60;
    vstd::arithmetic::div_mod::lemma_fundamental_div_mod(total as int, fps as int);
    vstd::arithmetic::div_mod::lemma_fundamental_div_mod(q1 as int, 60);
    vstd::arithmetic::div_mod::lemma_fundamental_div_mod(q2 as int, 60);
    let m = q2 % 60;
    let s = q1 % 60;
    let f = total % fps;
    assert(h * 3600 * fps + m * 60 * fps + s * fps + f == total) by (nonlinear_arith)
        requires
            total == fps * q1 + f,
            q1 == 60 * q2 + s,
            q2 == 60 * h + m;
}

/// Formatting frame `frames` at `rate` as timecode and parsing the text back
/// gives the time of frame `frames` again (non-drop-frame text).
pub proof fn lemma_timecode_roundtrip(frames: nat, rate: FrameRate)
    requires
        rate.numerator > 0,
        rate.denominator > 0,
        frames * rate.denominator <= i64::MAX,
    ensures
        ({
            let fps = ceil_div(rate.numerator as int, rate.denominator as int) as nat;
            let text = frames_text(false, frames, fps);
            &&& parse_timecode(text) is Some
            &&& timecode_fits(parse_timecode(text)->0, rate)
            &&& timecode_frames(parse_timecode(text)->0, rate) == frames
            &&& timecode_time(parse_timecode(text)->0, rate)
                == canonical(frames * rate.denominator, rate.numerator as int)
        }),
{
    let fps = ceil_div(rate.numerator as int, rate.denominator as int) as nat;
    assert(fps >= 1) by (nonlinear_arith)
        requires fps == (rate.numerator + rate.denominator - 1) / (rate.denominator as int),
            rate.numerator >= 1, rate.denominator >= 1;
    let h = frames / fps / 60 / 60;
    let m = (frames / fps / 60) % 60;
    let s = (frames / fps) % 60;
    let f = frames % fps;
    assert(frames <= i64::MAX) by (nonlinear_arith)
        requires frames * rate.denominator <= i64::MAX, rate.denominator >= 1;
    assert(h <= frames && m <= frames && s <= frames && f <= frames) by {
        let q1 = frames / fps;
        let q2 = q1 / 60;
        vstd::arithmetic::div_mod::lemma_fundamental_div_mod(frames as int, fps as int);
        vstd::arithmetic::div_mod::lemma_fundamental_div_mod(q1 as int, 60);
        vstd::arithmetic::div_mod::lemma_fundamental_div_mod(q2 as int, 60);
        assert(q1 <= frames && f <= frames) by (nonlinear_arith)
            requires frames == fps * q1 + f, fps >= 1, q1 >= 0, f >= 0;
        assert(q2 <= q1 && s <= q1) by (nonlinear_arith)
            requires q1 == 60 * q2 + s, q2 >= 0, s >= 0;
        assert(h <= q2 && m <= q2) by (nonlinear_arith)
            requires q2 == 60 * h + m, h >= 0, m >= 0;
    }
    lemma_pad2(h);
    lemma_pad2(m);
    lemma_pad2(s);
    lemma_pad2(f);
    let text = frames_text(false, frames, fps);
    assert(text =~= pad2(h) + seq![':'] + pad2(m) + seq![':'] + pad2(s) + seq![':'] + pad2(f));
    lemma_split_text(pad2(h), pad2(m), pad2(s), pad2(f), ':');
    assert(text[0] == pad2(h)[0]);
    assert(strip_dashes(text) == text);
    assert(!text.contains(';')) by {
        if text.contains(';') {
            let w = choose|w: int| 0 <= w < text.len() && text[w] == ';';
            let hl = pad2(h).len() as int;
            let ml = pad2(m).len() as int;
            let sl = pad2(s).len() as int;
            if w < hl {
                assert(text[w] == pad2(h)[w]);
            } else if w == hl {
            } else if w < hl + 1 + ml {
                assert(text[w] == pad2(m)[w - hl - 1]);
            } else if w == hl + 1 + ml {
            } else if w < hl + 2 + ml + sl {
                assert(text[w] == pad2(s)[w - hl - 2 - ml]);
            } else if w == hl + 2 + ml + sl {
            } else {
                assert(text[w] == pad2(f)[w - hl - 3 - ml - sl]);
            }
        }
    }
    let p = (false, false, h, m, s, f);
    assert(parse_timecode(text) == Some(p));
    lemma_fields_sum(frames, fps);
    assert(timecode_frames(p, rate) == frames);
    assert((frames as i64) as int == frames);
    assert(abs_int((frames as i64) * rate.denominator) <= i64::MAX);
}


/// The same holds before zero: the text of frame `frames` with a leading
/// minus sign parses back to the negation of that frame's time.
pub proof fn lemma_negative_timecode_roundtrip(frames: nat, rate: FrameRate)
    requires
        rate.numerator > 0,
        rate.denominator > 0,
        frames * rate.denominator <= i64::MAX,
    ensures
        ({
            let fps = ceil_div(rate.numerator as int, rate.denominator as int) as nat;
            let text = frames_text(true, frames, fps);
            &&& parse_timecode(text) is Some
            &&& timecode_fits(parse_timecode(text)->0, rate)
            &&& timecode_frames(parse_timecode(text)->0, rate) == frames
            &&& timecode_time(parse_timecode(text)->0, rate)
                == canonical(frames * rate.denominator, rate.numerator as int).negation()
        }),
{
    lemma_timecode_roundtrip(frames, rate);
    let fps = ceil_div(rate.numerator as int, rate.denominator as int) as nat;
    let pos = frames_text(false, frames, fps);
    let neg = frames_text(true, frames, fps);
    let h = frames / fps / 60 / 60;
    assert(fps >= 1) by (nonlinear_arith)
        requires fps == (rate.numerator + rate.denominator - 1) / (rate.denominator as int),
            rate.numerator >= 1, rate.denominator >= 1;
    assert(h <= frames) by {
        assert(frames / fps <= frames) by (nonlinear_arith) requires fps >= 1;
    }
    assert(frames <= i64::MAX) by (nonlinear_arith)
        requires frames * rate.denominator <= i64::MAX, rate.denominator >= 1;
    lemma_pad2(h);
    assert(pos[0] == pad2(h)[0]);
    assert(strip_dashes(pos) == pos);
    assert(neg =~= seq!['-'] + pos);
    assert(neg.drop_first() =~= pos);
    assert(strip_dashes(neg) == pos);
    let p = parse_timecode(pos)->0;
    assert(parse_timecode(neg) == Some((true, p.1, p.2, p.3, p.4, p.5)));
}

/// Drop-frame relabelling keeps frame `n` inside the minute that the
/// drop-frame count gives it, and at most doubles the count.
proof fn lemma_drop_minutes(n: nat, fps: nat, d: nat)
    requires
        fps >= 30,
        1 <= d <= 4,
    ensures
        drop_display(n, fps, d) / (fps * 60) == drop_total_minutes(n, fps, d),
        drop_display(n, fps, d) <= 2 * n,
{
    let m = fps * 60;
    let p = (fps * 600 - d * 9) as nat;
    assert(p == 10 * m - 9 * d && p >= 9 * d && m >= 1800);
    let b = n / p;
    let r = n % p;
    vstd::arithmetic::div_mod::lemma_fundamental_div_mod(n as int, p as int);
    let tm = drop_total_minutes(n, fps, d);
    let e: nat = (tm - b * 10) as nat;
    if r >= m {
        let q = ((r - m) as nat) / ((m - d) as nat);
        let rr = ((r - m) as nat) % ((m - d) as nat);
        vstd::arithmetic::div_mod::lemma_fundamental_div_mod((r - m) as int, (m - d) as int);
        assert(e == 1 + q);
        assert(q <= 8) by (nonlinear_arith)
            requires
                r - m == (m - d) * q + rr,
                0 <= rr,
                r < p,
                p == 10 * m - 9 * d,
                m - d > 0,
                q >= 0;
        assert(m * e <= r + d * e < m * (e + 1)) by (nonlinear_arith)
            requires
                r - m == (m - d) * q + rr,
                0 <= rr < m - d,
                e == 1 + q;
        assert(d * e <= r) by (nonlinear_arith)
            requires e <= 9, d <= 4, r >= m, m >= 1800;
    } else {
        assert(e == 0);
        assert(m * e <= r + d * e < m * (e + 1) && d * e <= r) by (nonlinear_arith)
            requires e == 0, 0 <= r < m;
    }
    assert(e <= 9);
    vstd::arithmetic::div_mod::lemma_fundamental_div_mod(tm as int, 10);
    assert(tm / 10 == b);
    let disp = drop_display(n, fps, d);
    assert(disp == n + d * (9 * b + e));
    assert(m * tm <= disp < m * (tm + 1)) by (nonlinear_arith)
        requires
            n == p * b + r,
            p == 10 * m - 9 * d,
            tm == b * 10 + e,
            disp == n + d * (9 * b + e),
            m * e <= r + d * e < m * (e + 1);
    vstd::arithmetic::div_mod::lemma_fundamental_div_mod(disp as int, m as int);
    let x = disp / m;
    assert(x == tm) by (nonlinear_arith)
        requires
            disp == m * x + disp % m,
            0 <= disp % m < m,
            m * tm <= disp < m * (tm + 1),
            m > 0;
    assert(d * (9 * b + e) <= n) by (nonlinear_arith)
        requires
            n == p * b + r,
            p >= 9 * d,
            d * e <= r,
            b >= 0,
            r >= 0;
}

/// Formatting frame `frames` as drop-frame timecode at 29.97 or 59.94 fps and
/// parsing the text back gives the time of frame `frames` again.
pub proof fn lemma_drop_frame_timecode_roundtrip(frames: nat, rate: FrameRate)
    requires
        rate.numerator > 0,
        rate.denominator > 0,
        drops_per_minute(ceil_div(rate.numerator as int, rate.denominator as int) as nat, rate) > 0,
        frames * rate.denominator <= i64::MAX,
    ensures
        ({
            let fps = ceil_div(rate.numerator as int, rate.denominator as int) as nat;
            let text = drop_frame_text(false, frames, fps, drops_per_minute(fps, rate));
            let fields = parse_timecode(text)->0;
            &&& parse_timecode(text) is Some
            &&& fields.1
            &&& timecode_fits(fields, rate)
            &&& timecode_frames(fields, rate) == frames
            &&& timecode_time(fields, rate) == canonical(frames * rate.denominator, rate.numerator as int)
        }),
{
    let fps = ceil_div(rate.numerator as int, rate.denominator as int) as nat;
    let d = drops_per_minute(fps, rate);
    assert(fps >= 30 && 1 <= d <= 4);
    assert(frames <= i64::MAX) by (nonlinear_arith)
        requires frames * rate.denominator <= i64::MAX, rate.denominator >= 1;
    lemma_drop_minutes(frames, fps, d);
    let disp = drop_display(frames, fps, d);
    let tm = drop_total_minutes(frames, fps, d);
    vstd::arithmetic::div_mod::lemma_div_denominator(disp as int, fps as int, 60);
    vstd::arithmetic::div_mod::lemma_div_denominator(disp as int, fps as int, 3600);
    vstd::arithmetic::div_mod::lemma_div_denominator((disp / fps) as int, 60, 60);
    let h = disp / (fps * 3600);
    let m = (disp / (fps * 60)) % 60;
    let s = (disp / fps) % 60;
    let f = disp % fps;
    assert(h == disp / fps / 60 / 60 && m == (disp / fps / 60) % 60);
    lemma_fields_sum(disp, fps);
    assert(fields_frames(h, m, s, f, fps) == disp);
    vstd::arithmetic::div_mod::lemma_fundamental_div_mod((disp / fps / 60) as int, 60);
    assert(h * 60 + m == tm);
    assert(h <= disp && m <= disp && s <= disp && f <= disp) by {
        assert(h * 3600 * fps >= h && m * 60 * fps >= m && s * fps >= s) by (nonlinear_arith)
            requires fps >= 1, h >= 0, m >= 0, s >= 0;
        assert(h * 3600 * fps >= 0 && m * 60 * fps >= 0 && s * fps >= 0) by (nonlinear_arith)
            requires fps >= 1, h >= 0, m >= 0, s >= 0;
    }
    lemma_pad2(h);
    lemma_pad2(m);
    lemma_pad2(s);
    lemma_pad2(f);
    let text = drop_frame_text(false, frames, fps, d);
    assert(text =~= pad2(h) + seq![':'] + pad2(m) + seq![':'] + pad2(s) + seq![';'] + pad2(f));
    lemma_split_text(pad2(h), pad2(m), pad2(s), pad2(f), ';');
    assert(text[0] == pad2(h)[0]);
    assert(strip_dashes(text) == text);
    let w = (pad2(h).len() + 1 + pad2(m).len() + 1 + pad2(s).len()) as int;
    assert(text[w] == ';');
    assert(text.contains(';'));
    let p = (false, true, h, m, s, f);
    assert(parse_timecode(text) == Some(p));
    assert(dropped_frames(h, m, d) == d * ((tm - tm / 10) as nat));
    assert(timecode_frames(p, rate) == frames);
    assert((frames as i64) as int == frames);
    assert(abs_int((frames as i64) * rate.denominator) <= i64::MAX);
}

/// The same holds before zero: drop-frame text with a leading minus sign
/// parses back to the negation of the frame's time.
pub proof fn lemma_negative_drop_frame_timecode_roundtrip(frames: nat, rate: FrameRate)
    requires
        rate.numerator > 0,
        rate.denominator > 0,
        drops_per_minute(ceil_div(rate.numerator as int, rate.denominator as int) as nat, rate) > 0,
        frames * rate.denominator <= i64::MAX,
    ensures
        ({
            let fps = ceil_div(rate.numerator as int, rate.denominator as int) as nat;
            let text = drop_frame_text(true, frames, fps, drops_per_minute(fps, rate));
            let fields = parse_timecode(text)->0;
            &&& parse_timecode(text) is Some
            &&& fields.1
            &&& timecode_fits(fields, rate)
            &&& timecode_frames(fields, rate) == frames
            &&& timecode_time(fields, rate)
                == canonical(frames * rate.denominator, rate.numerator as int).negation()
        }),
{
    lemma_drop_frame_timecode_roundtrip(frames, rate);
    let fps = ceil_div(rate.numerator as int, rate.denominator as int) as nat;
    let d = drops_per_minute(fps, rate);
    let pos = drop_frame_text(false, frames, fps, d);
    let neg = drop_frame_text(true, frames, fps, d);
    let disp = drop_display(frames, fps, d);
    let h = disp / (fps * 3600);
    assert(frames <= i64::MAX) by (nonlinear_arith)
        requires frames * rate.denominator <= i64::MAX, rate.denominator >= 1;
    lemma_drop_minutes(frames, fps, d);
    assert(h <= disp) by {
        assert(disp / (fps * 3600) <= disp) by (nonlinear_arith) requires fps >= 1;
    }
    lemma_pad2(h);
    assert(pos[0] == pad2(h)[0]);
    assert(strip_dashes(pos) == pos);
    assert(neg =~= seq!['-'] + pos);
    assert(neg.drop_first() =~= pos);
    assert(strip_dashes(neg) == pos);
    let p = parse_timecode(pos)->0;
    assert(parse_timecode(neg) == Some((true, p.1, p.2, p.3, p.4, p.5)));
}

} // verus!
