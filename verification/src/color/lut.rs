//! The `.cube` LUT file format: comment and title lines, a size line, optional
//! domain lines, and data rows of three numbers. This module reads the layout
//! of such a file; the numbers are kept as their text, each one checked to be
//! a valid 32-bit float, for the caller to convert.

use vstd::prelude::*;
use crate::color::error::ColorError;

verus! {

broadcast use vstd::string::group_string_axioms;

/// Which kind of LUT a file is read as.
#[derive(Debug, Clone, Copy, PartialEq, Eq, Structural)]
pub enum LutKind {
    /// One curve per channel (`LUT_1D_SIZE`).
    OneD,
    /// A lattice over RGB (`LUT_3D_SIZE`).
    ThreeD,
}

/// The layout of a `.cube` file: its size, its data rows and its domain
/// bounds, each number given as text that parses as a 32-bit float.
#[derive(Debug, Clone)]
pub struct CubeTable {
    /// Entries per channel (1D) or lattice points per axis (3D).
    pub size: usize,
    /// Data rows, each of three numbers.
    pub rows: Vec<Vec<String>>,
    /// The last well-formed `DOMAIN_MIN` line, if any.
    pub domain_min: Option<Vec<String>>,
    /// The last well-formed `DOMAIN_MAX` line, if any.
    pub domain_max: Option<Vec<String>>,
}

/// State of the scan after some lines: the declared size, the rows and
/// domain bounds so far, and the failure that stopped the scan, if any.
pub struct CubeScan {
    pub size: nat,
    pub rows: Seq<Seq<Seq<char>>>,
    pub dmin: Option<Seq<Seq<char>>>,
    pub dmax: Option<Seq<Seq<char>>>,
    pub failure: Option<CubeOutcome>,
}

/// What reading a `.cube` file gives.
pub enum CubeOutcome {
    /// The file's layout.
    Table(nat, Seq<Seq<Seq<char>>>, Option<Seq<Seq<char>>>, Option<Seq<Seq<char>>>),
    /// A size line whose number does not parse; the message.
    ParseError(Seq<char>),
    /// A file that is no LUT of the kind asked for; the message.
    InvalidError(Seq<char>),
    /// The number of rows does not match the size: expected, got.
    Mismatch(nat, nat),
}

/// The message of the error `str::parse` gives for a text it refuses when
/// parsing an unsigned integer type whose largest value is `max` (which error
/// is found first can depend on that width).
pub uninterp spec fn int_error_text(s: Seq<char>, max: nat) -> Seq<char>;

/// `c` lowercased, for ASCII letters.
pub open spec fn ascii_lower(c: char) -> char {
    if 'A' <= c <= 'Z' {
        ((c as u32) + 32) as char
    } else {
        c
    }
}

/// `s` equals `word` (lowercase) when ASCII letters are compared without case.
pub open spec fn same_word(s: Seq<char>, word: Seq<char>) -> bool {
    s.len() == word.len() && forall|k: int| 0 <= k < s.len() ==> ascii_lower(#[trigger] s[k]) == word[k]
}

/// `c` is `+` or `-`.
pub open spec fn is_sign(c: char) -> bool {
    c == '+' || c == '-'
}

/// `c` is `e` or `E`.
pub open spec fn is_exp_mark(c: char) -> bool {
    c == 'e' || c == 'E'
}

/// Digits with at most one `.`, and at least one digit.
pub open spec fn mantissa_ok(m: Seq<char>) -> bool {
    &&& forall|k: int| 0 <= k < m.len() ==> crate::foundation::timecode::is_digit(#[trigger] m[k]) || m[k] == '.'
    &&& forall|i: int, j: int| 0 <= i < j < m.len() ==> !(#[trigger] m[i] == '.' && #[trigger] m[j] == '.')
    &&& exists|k: int| 0 <= k < m.len() && crate::foundation::timecode::is_digit(#[trigger] m[k])
}

/// An optional sign, then one or more digits.
pub open spec fn exponent_ok(x: Seq<char>) -> bool {
    let d = if x.len() > 0 && is_sign(x[0]) { x.drop_first() } else { x };
    d.len() > 0 && crate::foundation::timecode::all_digits(d)
}

/// A decimal number with an optional exponent.
pub open spec fn number_ok(b: Seq<char>) -> bool {
    ||| (forall|k: int| 0 <= k < b.len() ==> !is_exp_mark(#[trigger] b[k])) && mantissa_ok(b)
    ||| exists|e: int|
        0 <= e < b.len() && is_exp_mark(#[trigger] b[e]) && (forall|k: int|
            0 <= k < e ==> !is_exp_mark(#[trigger] b[k])) && mantissa_ok(b.take(e)) && exponent_ok(
            b.skip(e + 1),
        )
}

/// The texts that `str::parse` accepts for a 32-bit float, by the grammar of
/// its documentation: an optional sign, then `inf`, `infinity`, `nan` (any
/// case) or a decimal number with an optional exponent (`e` or `E`).
pub open spec fn is_float_text(s: Seq<char>) -> bool {
    let b = if s.len() > 0 && is_sign(s[0]) { s.drop_first() } else { s };
    same_word(b, "inf"@) || same_word(b, "infinity"@) || same_word(b, "nan"@) || number_ok(b)
}

fn lower_char(c: char) -> (r: char)
    ensures
        r == ascii_lower(c),
{
    if 'A' <= c && c <= 'Z' {
        let b = c as u8;
        assert(b == c as u32);
        (b + 32) as char
    } else {
        c
    }
}

fn word_is(cs: &Vec<char>, a: usize, b: usize, word: &str) -> (r: bool)
    requires
        a <= b <= cs.len(),
    ensures
        r == same_word(cs@.subrange(a as int, b as int), word@),
{
    let ghost t = cs@.subrange(a as int, b as int);
    let wl = word.unicode_len();
    if wl != b - a {
        return false;
    }
    let mut k: usize = 0;
    while k < wl
        invariant
            k <= wl,
            wl == word@.len(),
            wl == b - a,
            a <= b <= cs.len(),
            t == cs@.subrange(a as int, b as int),
            forall|j: int| 0 <= j < k ==> ascii_lower(#[trigger] t[j]) == word@[j],
        decreases wl - k,
    {
        if lower_char(cs[a + k]) != word.get_char(k) {
            proof {
                assert(t[k as int] == cs@[a + k]);
                assert(ascii_lower(t[k as int]) != word@[k as int]);
            }
            return false;
        }
        k = k + 1;
    }
    true
}

fn is_digit_char(c: char) -> (r: bool)
    ensures
        r == crate::foundation::timecode::is_digit(c),
{
    let u = c as u32;
    48 <= u && u <= 57
}

fn mantissa_chars(cs: &Vec<char>, a: usize, b: usize) -> (r: bool)
    requires
        a <= b <= cs.len(),
    ensures
        r == mantissa_ok(cs@.subrange(a as int, b as int)),
{
    let ghost m = cs@.subrange(a as int, b as int);
    let mut dots: usize = 0;
    let mut digits: usize = 0;
    let mut k = a;
    let ghost mut dot_at: int = -1;
    let ghost mut digit_at: int = -1;
    while k < b
        invariant
            a <= k <= b <= cs.len(),
            m == cs@.subrange(a as int, b as int),
            dots <= 1,
            forall|j: int| 0 <= j < k - a ==> crate::foundation::timecode::is_digit(#[trigger] m[j]) || m[j] == '.',
            dots == 0 ==> forall|j: int| 0 <= j < k - a ==> #[trigger] m[j] != '.',
            dots == 1 ==> 0 <= dot_at < k - a && m[dot_at] == '.' && forall|j: int| 0 <= j < k - a && j != dot_at ==> #[trigger] m[j] != '.',
            digits == 0 ==> forall|j: int| 0 <= j < k - a ==> !crate::foundation::timecode::is_digit(#[trigger] m[j]),
            digits > 0 ==> 0 <= digit_at < k - a && crate::foundation::timecode::is_digit(m[digit_at]),
            digits <= k - a,
        decreases b - k,
    {
        let c = cs[k];
        if is_digit_char(c) {
            proof {
                digit_at = k - a;
            }
            digits = digits + 1;
        } else if c == '.' {
            if dots == 1 {
                proof {
                    let j = k - a;
                    assert(m[dot_at] == '.' && m[j] == '.');
                }
                return false;
            }
            proof {
                dot_at = k - a;
            }
            dots = 1;
        } else {
            proof {
                assert(!(crate::foundation::timecode::is_digit(m[k - a]) || m[k - a] == '.'));
            }
            return false;
        }
        k = k + 1;
    }
    if digits == 0 {
        return false;
    }
    proof {
        assert forall|i: int, j: int| 0 <= i < j < m.len() implies !(#[trigger] m[i] == '.' && #[trigger] m[j] == '.') by {}
        assert(crate::foundation::timecode::is_digit(m[digit_at]));
    }
    true
}

fn exponent_chars(cs: &Vec<char>, a: usize, b: usize) -> (r: bool)
    requires
        a <= b <= cs.len(),
    ensures
        r == exponent_ok(cs@.subrange(a as int, b as int)),
{
    let ghost x = cs@.subrange(a as int, b as int);
    let mut s = a;
    if a < b && (cs[a] == '+' || cs[a] == '-') {
        s = a + 1;
        assert(x.drop_first() =~= cs@.subrange(s as int, b as int));
    } else {
        assert(x =~= cs@.subrange(s as int, b as int));
    }
    if s == b {
        return false;
    }
    let ghost d = cs@.subrange(s as int, b as int);
    let ghost dd = if x.len() > 0 && is_sign(x[0]) { x.drop_first() } else { x };
    assert(dd =~= d);
    let mut k = s;
    while k < b
        invariant
            s <= k <= b <= cs.len(),
            d == cs@.subrange(s as int, b as int),
            x == cs@.subrange(a as int, b as int),
            dd == (if x.len() > 0 && is_sign(x[0]) { x.drop_first() } else { x }),
            dd == d,
            d.len() > 0,
            forall|j: int| 0 <= j < k - s ==> crate::foundation::timecode::is_digit(#[trigger] d[j]),
        decreases b - k,
    {
        if !is_digit_char(cs[k]) {
            proof {
                assert(d[k - s] == cs@[k as int]);
                assert(!crate::foundation::timecode::is_digit(d[k - s]));
                assert(!crate::foundation::timecode::all_digits(d));
            }
            return false;
        }
        k = k + 1;
    }
    true
}

/// Whether `cs[a..b]` is text that `str::parse` accepts as a 32-bit float.
fn float_chars(cs: &Vec<char>, a: usize, b: usize) -> (r: bool)
    requires
        a <= b <= cs.len(),
    ensures
        r == is_float_text(cs@.subrange(a as int, b as int)),
{
    let ghost s = cs@.subrange(a as int, b as int);
    let mut st = a;
    if a < b && (cs[a] == '+' || cs[a] == '-') {
        st = a + 1;
        assert(s.drop_first() =~= cs@.subrange(st as int, b as int));
    } else {
        assert(s =~= cs@.subrange(st as int, b as int));
    }
    if word_is(cs, st, b, "inf") || word_is(cs, st, b, "infinity") || word_is(cs, st, b, "nan") {
        return true;
    }
    number_chars(cs, st, b)
}

/// Whether `cs[st..b]` is a decimal number with an optional exponent.
#[verifier::rlimit(40)]
fn number_chars(cs: &Vec<char>, st: usize, b: usize) -> (r: bool)
    requires
        st <= b <= cs.len(),
    ensures
        r == number_ok(cs@.subrange(st as int, b as int)),
{
    let ghost body = cs@.subrange(st as int, b as int);
    let mut e = st;
    while e < b && cs[e] != 'e' && cs[e] != 'E'
        invariant
            st <= e <= b <= cs.len(),
            body == cs@.subrange(st as int, b as int),
            forall|k: int| 0 <= k < e - st ==> !is_exp_mark(#[trigger] body[k]),
        decreases b - e,
    {
        e = e + 1;
    }
    if e == b {
        let ok = mantissa_chars(cs, st, b);
        proof {
            if !ok {
                assert forall|x: int| 0 <= x < body.len() && is_exp_mark(#[trigger] body[x]) implies false by {}
            }
        }
        ok
    } else {
        let m = mantissa_chars(cs, st, e);
        let x = exponent_chars(cs, e + 1, b);
        proof {
            let ei = e - st;
            assert(is_exp_mark(body[ei]));
            assert(body.take(ei) =~= cs@.subrange(st as int, e as int));
            assert(body.skip(ei + 1) =~= cs@.subrange(e + 1, b as int));
            if !(m && x) {
                assert forall|y: int| 0 <= y < body.len() && is_exp_mark(#[trigger] body[y]) && (forall|k: int|
                    0 <= k < y ==> !is_exp_mark(#[trigger] body[k])) implies !(mantissa_ok(body.take(y)) && exponent_ok(body.skip(y + 1))) by {
                    if y > ei {
                        assert(!is_exp_mark(body[ei]));
                    }
                }
            }
        }
        m && x
    }
}

/// An optional `+` then one or more decimal digits whose value is at most
/// `max`: the texts that `str::parse` accepts for an unsigned integer type
/// whose largest value is `max`, as its documentation states.
pub open spec fn unsigned_value(s: Seq<char>, max: nat) -> Option<nat> {
    let d = if s.len() > 0 && s[0] == '+' { s.drop_first() } else { s };
    if d.len() > 0 && crate::foundation::timecode::all_digits(d)
        && crate::foundation::timecode::digits_value(d) <= max {
        Some(crate::foundation::timecode::digits_value(d))
    } else {
        None
    }
}

/// `str::parse::<usize>`, with the error turned into its message. Claimed:
/// it succeeds exactly on the texts of [`unsigned_value`] with the value
/// given there, and the message is [`int_error_text`] of the text and the
/// width of `usize`.
#[verifier::external_body]
fn parse_usize(s: &str) -> (r: Result<usize, String>)
    ensures
        match r {
            Ok(v) => unsigned_value(s@, usize::MAX as nat) == Some(v as nat),
            Err(e) => unsigned_value(s@, usize::MAX as nat) is None && e@ == int_error_text(s@, usize::MAX as nat),
        },
{
    match s.parse::<usize>() {
        Ok(v) => Ok(v),
        Err(e) => Err(e.to_string()),
    }
}

/// Collect characters into a string. Claimed: the string holds them in order.
#[verifier::external_body]
pub(crate) fn text_of(cs: &[char]) -> (s: String)
    ensures
        s@ == cs@,
{
    cs.iter().collect()
}

/// The characters of a string, in order.
pub fn chars_vec(s: &str) -> (v: Vec<char>)
    ensures
        v@ == s@,
{
    let mut v: Vec<char> = Vec::new();
    for c in it: s.chars()
        invariant
            v@ == it.seq().take(it.index() as int),
    {
        v.push(c);
    }
    v
}

/// The white space of `char::is_whitespace` (the Unicode `White_Space`
/// property).
pub open spec fn is_ws(c: char) -> bool {
    let u = c as u32;
    (9 <= u <= 13) || u == 32 || u == 0x85 || u == 0xA0 || u == 0x1680 || (0x2000 <= u <= 0x200A)
        || u == 0x2028 || u == 0x2029 || u == 0x202F || u == 0x205F || u == 0x3000
}

pub(crate) fn is_ws_char(c: char) -> (b: bool)
    ensures
        b == is_ws(c),
{
    let u = c as u32;
    (9 <= u && u <= 13) || u == 32 || u == 0x85 || u == 0xA0 || u == 0x1680 || (0x2000 <= u && u
        <= 0x200A) || u == 0x2028 || u == 0x2029 || u == 0x202F || u == 0x205F || u == 0x3000
}

/// `t` without its leading white space.
pub open spec fn trim_front(t: Seq<char>) -> Seq<char>
    decreases t.len(),
{
    if t.len() > 0 && is_ws(t[0]) {
        trim_front(t.drop_first())
    } else {
        t
    }
}

/// `t` without its trailing white space.
pub open spec fn trim_back(t: Seq<char>) -> Seq<char>
    decreases t.len(),
{
    if t.len() > 0 && is_ws(t.last()) {
        trim_back(t.drop_last())
    } else {
        t
    }
}

/// `t` without leading and trailing white space, as `str::trim` gives it.
pub open spec fn trim_ws(t: Seq<char>) -> Seq<char> {
    trim_back(trim_front(t))
}

/// `t` begins with `p`.
pub open spec fn starts_with(t: Seq<char>, p: Seq<char>) -> bool {
    p.len() <= t.len() && t.subrange(0, p.len() as int) == p
}

/// The white-space separated tokens of `t[..i]` that parse as 32-bit floats,
/// and the start of the token under way at `i`.
pub open spec fn tok_scan(t: Seq<char>, i: nat) -> (Seq<Seq<char>>, int)
    decreases i,
{
    if i == 0 {
        (Seq::empty(), 0)
    } else {
        let prev = tok_scan(t, (i - 1) as nat);
        if is_ws(t[i - 1]) {
            let tok = t.subrange(prev.1, i - 1);
            (if prev.1 < i - 1 && is_float_text(tok) { prev.0.push(tok) } else { prev.0 }, i as int)
        } else {
            prev
        }
    }
}

/// The white-space separated tokens of `t` that parse as 32-bit floats, in
/// order.
pub open spec fn float_tokens(t: Seq<char>) -> Seq<Seq<char>> {
    let r = tok_scan(t, t.len());
    let tok = t.subrange(r.1, t.len() as int);
    if r.1 < t.len() && is_float_text(tok) {
        r.0.push(tok)
    } else {
        r.0
    }
}

/// The size keyword of a kind of LUT.
pub open spec fn size_key(kind: LutKind) -> Seq<char> {
    match kind {
        LutKind::OneD => "LUT_1D_SIZE"@,
        LutKind::ThreeD => "LUT_3D_SIZE"@,
    }
}

/// The size keyword of the other kind of LUT.
pub open spec fn other_key(kind: LutKind) -> Seq<char> {
    match kind {
        LutKind::OneD => "LUT_3D_SIZE"@,
        LutKind::ThreeD => "LUT_1D_SIZE"@,
    }
}

/// The message for a size line whose number is `rest`.
pub open spec fn bad_size_text(kind: LutKind, rest: Seq<char>) -> Seq<char> {
    match kind {
        LutKind::OneD => "bad LUT_1D_SIZE: "@ + int_error_text(rest, usize::MAX as nat),
        LutKind::ThreeD => "bad LUT_3D_SIZE: "@ + int_error_text(rest, usize::MAX as nat),
    }
}

/// The message for a file of the other kind.
pub open spec fn wrong_kind_text(kind: LutKind) -> Seq<char> {
    match kind {
        LutKind::OneD => "expected 1D LUT, got 3D"@,
        LutKind::ThreeD => "expected 3D LUT, got 1D"@,
    }
}

/// The scan before any line.
pub open spec fn scan_start() -> CubeScan {
    CubeScan { size: 0, rows: Seq::empty(), dmin: None, dmax: None, failure: None }
}

/// The scan after one more line. Blank lines, comments (`#`) and titles are
/// skipped; a size line sets the size or fails; a domain line with exactly
/// three numbers sets that bound; a size line of the other kind fails; any
/// other line with exactly three numbers is a data row. After a failure
/// nothing changes.
pub open spec fn scan_line_spec(kind: LutKind, st: CubeScan, line: Seq<char>) -> CubeScan {
    let t = trim_ws(line);
    if st.failure is Some {
        st
    } else if t.len() == 0 || t[0] == '#' || starts_with(t, "TITLE"@) {
        st
    } else if starts_with(t, size_key(kind)) {
        let rest = trim_ws(t.skip(11));
        match unsigned_value(rest, usize::MAX as nat) {
            Some(v) => CubeScan { size: v, ..st },
            None => CubeScan { failure: Some(CubeOutcome::ParseError(bad_size_text(kind, rest))), ..st },
        }
    } else if starts_with(t, "DOMAIN_MIN"@) {
        let f = float_tokens(t.skip(10));
        if f.len() == 3 { CubeScan { dmin: Some(f), ..st } } else { st }
    } else if starts_with(t, "DOMAIN_MAX"@) {
        let f = float_tokens(t.skip(10));
        if f.len() == 3 { CubeScan { dmax: Some(f), ..st } } else { st }
    } else if starts_with(t, other_key(kind)) {
        CubeScan { failure: Some(CubeOutcome::InvalidError(wrong_kind_text(kind))), ..st }
    } else {
        let f = float_tokens(t);
        if f.len() == 3 { CubeScan { rows: st.rows.push(f), ..st } } else { st }
    }
}

/// `c` can begin a number: a digit, a sign or a decimal point.
pub open spec fn starts_number(c: char) -> bool {
    ('0' <= c && c <= '9') || c == '-' || c == '+' || c == '.'
}

/// What one line does to the scan of a `.cube` file, with `t` the line
/// without surrounding white space:
/// - after a failure, and for a blank line or a `#` comment, nothing changes;
/// - a `DOMAIN_MIN` (or `DOMAIN_MAX`) line whose remaining text has exactly
///   three numbers sets that bound to those three number texts, and changes
///   nothing else;
/// - one with any other count of numbers changes nothing;
/// - a line that begins like a number and holds exactly three numbers adds
///   them as the next data row, and changes nothing else.
pub proof fn lemma_scan_line_law(kind: LutKind, st: CubeScan, line: Seq<char>)
    ensures
        ({
            let t = trim_ws(line);
            let r = scan_line_spec(kind, st, line);
            &&& st.failure is Some ==> r == st
            &&& (t.len() == 0 || t[0] == '#') ==> r == st
            &&& st.failure is None && starts_with(t, "DOMAIN_MIN"@) ==> r == (if float_tokens(t.skip(10)).len()
                == 3 {
                CubeScan { dmin: Some(float_tokens(t.skip(10))), ..st }
            } else {
                st
            })
            &&& st.failure is None && starts_with(t, "DOMAIN_MAX"@) ==> r == (if float_tokens(t.skip(10)).len()
                == 3 {
                CubeScan { dmax: Some(float_tokens(t.skip(10))), ..st }
            } else {
                st
            })
            &&& st.failure is None && t.len() > 0 && starts_number(t[0]) && float_tokens(t).len() == 3 ==> r
                == CubeScan { rows: st.rows.push(float_tokens(t)), ..st }
            &&& st.failure is None && t.len() > 0 && starts_number(t[0]) && float_tokens(t).len() != 3 ==> r
                == st
            &&& starts_with(t, "TITLE"@) ==> r == st
            &&& st.failure is None && starts_with(t, size_key(kind)) ==> r == (match unsigned_value(
                trim_ws(t.skip(11)),
                usize::MAX as nat,
            ) {
                Some(v) => CubeScan { size: v, ..st },
                None => CubeScan {
                    failure: Some(CubeOutcome::ParseError(bad_size_text(kind, trim_ws(t.skip(11))))),
                    ..st
                },
            })
            &&& st.failure is None && starts_with(t, other_key(kind)) ==> r == CubeScan {
                failure: Some(CubeOutcome::InvalidError(wrong_kind_text(kind))),
                ..st
            }
        }),
{
    reveal_strlit("DOMAIN_MIN");
    reveal_strlit("DOMAIN_MAX");
    reveal_strlit("TITLE");
    reveal_strlit("LUT_1D_SIZE");
    reveal_strlit("LUT_3D_SIZE");
    let t = trim_ws(line);
    if starts_with(t, "DOMAIN_MIN"@) || starts_with(t, "DOMAIN_MAX"@) {
        assert(t.subrange(0, 10)[0] == t[0]);
        assert(t[0] == 'D');
        assert(!starts_with(t, "TITLE"@)) by {
            if "TITLE"@.len() <= t.len() {
                assert(t.subrange(0, 5)[0] == t[0]);
            }
        }
        assert(!starts_with(t, size_key(kind))) by {
            if size_key(kind).len() <= t.len() {
                assert(t.subrange(0, 11)[0] == t[0]);
            }
        }
    }
    if starts_with(t, "TITLE"@) {
        assert(t.subrange(0, 5)[0] == t[0]);
        assert(t.len() > 0 && t[0] == 'T');
    }
    if starts_with(t, size_key(kind)) || starts_with(t, other_key(kind)) {
        assert(t.subrange(0, 11)[0] == t[0]);
        assert(t[0] == 'L');
        assert(!starts_with(t, "TITLE"@)) by {
            if "TITLE"@.len() <= t.len() {
                assert(t.subrange(0, 5)[0] == t[0]);
            }
        }
    }
    if starts_with(t, other_key(kind)) {
        assert(!starts_with(t, size_key(kind))) by {
            assert(t.subrange(0, 11)[4] == other_key(kind)[4]);
        }
        assert(!starts_with(t, "DOMAIN_MIN"@)) by {
            if "DOMAIN_MIN"@.len() <= t.len() {
                assert(t.subrange(0, 10)[0] == t[0]);
            }
        }
        assert(!starts_with(t, "DOMAIN_MAX"@)) by {
            if "DOMAIN_MAX"@.len() <= t.len() {
                assert(t.subrange(0, 10)[0] == t[0]);
            }
        }
    }
    if starts_with(t, "DOMAIN_MAX"@) {
        assert(!starts_with(t, "DOMAIN_MIN"@)) by {
            assert(t.subrange(0, 10)[8] == 'A');
        }
    }
    if t.len() > 0 && starts_number(t[0]) {
        assert(!starts_with(t, "TITLE"@)) by {
            if "TITLE"@.len() <= t.len() {
                assert(t.subrange(0, 5)[0] == t[0]);
            }
        }
        assert(!starts_with(t, size_key(kind))) by {
            if size_key(kind).len() <= t.len() {
                assert(t.subrange(0, 11)[0] == t[0]);
            }
        }
        assert(!starts_with(t, other_key(kind))) by {
            if other_key(kind).len() <= t.len() {
                assert(t.subrange(0, 11)[0] == t[0]);
            }
        }
        assert(!starts_with(t, "DOMAIN_MIN"@)) by {
            if "DOMAIN_MIN"@.len() <= t.len() {
                assert(t.subrange(0, 10)[0] == t[0]);
            }
        }
        assert(!starts_with(t, "DOMAIN_MAX"@)) by {
            if "DOMAIN_MAX"@.len() <= t.len() {
                assert(t.subrange(0, 10)[0] == t[0]);
            }
        }
    }
}

/// The scan after the lines that end before position `i` of the text, and
/// where the line under way at `i` starts. Lines end at `\n`; a `\r` before
/// it is white space and trimmed away.
pub open spec fn line_scan(kind: LutKind, s: Seq<char>, i: nat) -> (CubeScan, int)
    decreases i,
{
    if i == 0 {
        (scan_start(), 0)
    } else {
        let prev = line_scan(kind, s, (i - 1) as nat);
        if s[i - 1] == '\n' {
            (scan_line_spec(kind, prev.0, s.subrange(prev.1, i - 1)), i as int)
        } else {
            prev
        }
    }
}

/// The scan of the whole text.
pub open spec fn full_scan(kind: LutKind, s: Seq<char>) -> CubeScan {
    let r = line_scan(kind, s, s.len());
    scan_line_spec(kind, r.0, s.subrange(r.1, s.len() as int))
}

/// What reading the text as a LUT of the given kind gives. A 1D LUT without a
/// size takes the number of rows as its size and needs at least two; a 3D
/// LUT needs a size and `size³` rows (a size whose cube exceeds the largest
/// `usize` is reported as expecting that largest `usize`).
pub open spec fn cube_outcome(kind: LutKind, s: Seq<char>) -> CubeOutcome {
    let st = full_scan(kind, s);
    if st.failure is Some {
        st.failure->0
    } else {
        match kind {
            LutKind::OneD => {
                let size = if st.size == 0 { st.rows.len() } else { st.size };
                if st.rows.len() != size {
                    CubeOutcome::Mismatch(size, st.rows.len())
                } else if size < 2 {
                    CubeOutcome::InvalidError("LUT must have at least 2 entries"@)
                } else {
                    CubeOutcome::Table(size, st.rows, st.dmin, st.dmax)
                }
            },
            LutKind::ThreeD => {
                if st.size == 0 {
                    CubeOutcome::InvalidError("missing LUT_3D_SIZE"@)
                } else if st.size * st.size * st.size > usize::MAX {
                    CubeOutcome::Mismatch(usize::MAX as nat, st.rows.len())
                } else if st.rows.len() != st.size * st.size * st.size {
                    CubeOutcome::Mismatch(st.size * st.size * st.size, st.rows.len())
                } else {
                    CubeOutcome::Table(st.size, st.rows, st.dmin, st.dmax)
                }
            },
        }
    }
}

/// The texts of a list of strings.
pub open spec fn texts(v: Seq<String>) -> Seq<Seq<char>> {
    v.map_values(|s: String| s@)
}

/// The texts of the rows of a table.
pub open spec fn row_texts(rows: Seq<Vec<String>>) -> Seq<Seq<Seq<char>>> {
    rows.map_values(|r: Vec<String>| texts(r@))
}

/// The texts of an optional row.
pub open spec fn opt_texts(o: Option<Vec<String>>) -> Option<Seq<Seq<char>>> {
    match o {
        Some(v) => Some(texts(v@)),
        None => None,
    }
}

/// The scan state that a table under construction stands for.
pub open spec fn table_scan(t: CubeTable) -> CubeScan {
    CubeScan {
        size: t.size as nat,
        rows: row_texts(t.rows@),
        dmin: opt_texts(t.domain_min),
        dmax: opt_texts(t.domain_max),
        failure: None,
    }
}

/// An error of the library stands for this outcome.
pub open spec fn error_is(e: ColorError, o: CubeOutcome) -> bool {
    match o {
        CubeOutcome::ParseError(m) => e matches ColorError::Parse(s) && s@ == m,
        CubeOutcome::InvalidError(m) => e matches ColorError::InvalidLut(s) && s@ == m,
        CubeOutcome::Mismatch(x, g) => e matches ColorError::DimensionMismatch { expected, got }
            && expected == x && got == g,
        CubeOutcome::Table(..) => false,
    }
}

proof fn lemma_trim_front_step(cs: Seq<char>, a: int, b: int)
    requires
        0 <= a < b <= cs.len(),
        is_ws(cs[a]),
    ensures
        trim_front(cs.subrange(a, b)) == trim_front(cs.subrange(a + 1, b)),
{
    assert(cs.subrange(a, b).drop_first() =~= cs.subrange(a + 1, b));
}

proof fn lemma_trim_back_step(cs: Seq<char>, a: int, b: int)
    requires
        0 <= a < b <= cs.len(),
        is_ws(cs[b - 1]),
    ensures
        trim_back(cs.subrange(a, b)) == trim_back(cs.subrange(a, b - 1)),
{
    assert(cs.subrange(a, b).drop_last() =~= cs.subrange(a, b - 1));
}

/// The bounds of `cs[start..end]` without leading and trailing white space.
pub(crate) fn trim_bounds(cs: &Vec<char>, start: usize, end: usize) -> (r: (usize, usize))
    requires
        start <= end <= cs.len(),
    ensures
        start <= r.0 <= r.1 <= end,
        cs@.subrange(r.0 as int, r.1 as int) == trim_ws(cs@.subrange(start as int, end as int)),
{
    let mut a = start;
    while a < end && is_ws_char(cs[a])
        invariant
            start <= a <= end <= cs.len(),
            trim_front(cs@.subrange(start as int, end as int)) == trim_front(cs@.subrange(a as int, end as int)),
        decreases end - a,
    {
        proof {
            lemma_trim_front_step(cs@, a as int, end as int);
        }
        a = a + 1;
    }
    let mut b = end;
    while b > a && is_ws_char(cs[b - 1])
        invariant
            a <= b <= end <= cs.len(),
            trim_back(cs@.subrange(a as int, end as int)) == trim_back(cs@.subrange(a as int, b as int)),
        decreases b - a,
    {
        proof {
            lemma_trim_back_step(cs@, a as int, b as int);
        }
        b = b - 1;
    }
    (a, b)
}

/// Whether `cs[a..b]` begins with `p`.
fn has_prefix(cs: &Vec<char>, a: usize, b: usize, p: &str) -> (r: bool)
    requires
        a <= b <= cs.len(),
    ensures
        r == starts_with(cs@.subrange(a as int, b as int), p@),
{
    let ghost t = cs@.subrange(a as int, b as int);
    let pl = p.unicode_len();
    if pl > b - a {
        return false;
    }
    let mut k: usize = 0;
    while k < pl
        invariant
            k <= pl,
            pl == p@.len(),
            pl <= b - a,
            a <= b <= cs.len(),
            t == cs@.subrange(a as int, b as int),
            forall|j: int| 0 <= j < k ==> t[j] == p@[j],
        decreases pl - k,
    {
        if cs[a + k] != p.get_char(k) {
            assert(t.subrange(0, pl as int)[k as int] != p@[k as int]);
            return false;
        }
        k = k + 1;
    }
    assert(t.subrange(0, pl as int) =~= p@);
    true
}

/// The tokens of `cs[a..b]` that parse as 32-bit floats.
fn float_tokens_of(cs: &Vec<char>, a: usize, b: usize) -> (r: Vec<String>)
    requires
        a <= b <= cs.len(),
    ensures
        texts(r@) == float_tokens(cs@.subrange(a as int, b as int)),
{
    let ghost t = cs@.subrange(a as int, b as int);
    let mut out: Vec<String> = Vec::new();
    let mut st: usize = a;
    let mut i: usize = a;
    while i < b
        invariant
            a <= st <= i <= b <= cs.len(),
            t == cs@.subrange(a as int, b as int),
            (texts(out@), st - a) == tok_scan(t, (i - a) as nat),
        decreases b - i,
    {
        if is_ws_char(cs[i]) {
            if st < i {
                let tok = text_of(vstd::slice::slice_subrange(cs.as_slice(), st, i));
                proof {
                    assert(tok@ =~= t.subrange(st - a, i - a));
                    assert(cs@.subrange(st as int, i as int) =~= t.subrange(st - a, i - a));
                }
                if float_chars(cs, st, i) {
                    let ghost before = out@;
                    out.push(tok);
                    assert(texts(out@) =~= texts(before).push(t.subrange(st - a, i - a)));
                }
            }
            st = i + 1;
        }
        i = i + 1;
    }
    if st < b {
        let tok = text_of(vstd::slice::slice_subrange(cs.as_slice(), st, b));
        proof {
            assert(tok@ =~= t.subrange(st - a, b - a));
            assert(cs@.subrange(st as int, b as int) =~= t.subrange(st - a, b - a));
        }
        if float_chars(cs, st, b) {
            let ghost before = out@;
            out.push(tok);
            assert(texts(out@) =~= texts(before).push(t.subrange(st - a, b - a)));
        }
    }
    out
}

/// Read one line `cs[start..end]` into the table.
fn scan_line(kind: LutKind, cs: &Vec<char>, start: usize, end: usize, table: &mut CubeTable) -> (r: Result<(), ColorError>)
    requires
        start <= end <= cs.len(),
    ensures
        ({
            let next = scan_line_spec(kind, table_scan(*old(table)), cs@.subrange(start as int, end as int));
            match r {
                Ok(()) => next.failure is None && table_scan(*final(table)) == next,
                Err(e) => next.failure is Some && error_is(e, next.failure->0),
            }
        }),
{
    let ghost line = cs@.subrange(start as int, end as int);
    let (a, b) = trim_bounds(cs, start, end);
    let ghost t = cs@.subrange(a as int, b as int);
    assert(t == trim_ws(line));
    if a == b || cs[a] == '#' || has_prefix(cs, a, b, "TITLE") {
        return Ok(());
    }
    let size_word = match kind {
        LutKind::OneD => "LUT_1D_SIZE",
        LutKind::ThreeD => "LUT_3D_SIZE",
    };
    let other_word = match kind {
        LutKind::OneD => "LUT_3D_SIZE",
        LutKind::ThreeD => "LUT_1D_SIZE",
    };
    proof {
        reveal_strlit("LUT_1D_SIZE");
        reveal_strlit("LUT_3D_SIZE");
        reveal_strlit("DOMAIN_MIN");
        reveal_strlit("DOMAIN_MAX");
    }
    if has_prefix(cs, a, b, size_word) {
        let (ra, rb) = trim_bounds(cs, a + 11, b);
        proof {
            assert(cs@.subrange(a + 11, b as int) =~= t.skip(11));
        }
        let rest = text_of(vstd::slice::slice_subrange(cs.as_slice(), ra, rb));
        proof {
            assert(rest@ =~= cs@.subrange(ra as int, rb as int));
        }
        match parse_usize(rest.as_str()) {
            Ok(v) => {
                table.size = v;
                return Ok(());
            },
            Err(msg) => {
                let mut text = match kind {
                    LutKind::OneD => String::from_str("bad LUT_1D_SIZE: "),
                    LutKind::ThreeD => String::from_str("bad LUT_3D_SIZE: "),
                };
                text.append(msg.as_str());
                return Err(ColorError::Parse(text));
            },
        }
    }
    if has_prefix(cs, a, b, "DOMAIN_MIN") {
        let f = float_tokens_of(cs, a + 10, b);
        proof {
            assert(cs@.subrange(a + 10, b as int) =~= t.skip(10));
        }
        if f.len() == 3 {
            table.domain_min = Some(f);
        }
        return Ok(());
    }
    if has_prefix(cs, a, b, "DOMAIN_MAX") {
        let f = float_tokens_of(cs, a + 10, b);
        proof {
            assert(cs@.subrange(a + 10, b as int) =~= t.skip(10));
        }
        if f.len() == 3 {
            table.domain_max = Some(f);
        }
        return Ok(());
    }
    if has_prefix(cs, a, b, other_word) {
        let text = match kind {
            LutKind::OneD => String::from_str("expected 1D LUT, got 3D"),
            LutKind::ThreeD => String::from_str("expected 3D LUT, got 1D"),
        };
        return Err(ColorError::InvalidLut(text));
    }
    let f = float_tokens_of(cs, a, b);
    if f.len() == 3 {
        let ghost before = table.rows@;
        table.rows.push(f);
        assert(row_texts(table.rows@) =~= row_texts(before).push(texts(f@)));
    }
    Ok(())
}

proof fn lemma_failure_sticks(kind: LutKind, s: Seq<char>, i: nat, j: nat)
    requires
        i <= j <= s.len(),
        line_scan(kind, s, i).0.failure is Some,
    ensures
        line_scan(kind, s, j).0.failure == line_scan(kind, s, i).0.failure,
    decreases j - i,
{
    if j > i {
        lemma_failure_sticks(kind, s, i, (j - 1) as nat);
    }
}

/// Read the text of a `.cube` file as a LUT of the given kind.
pub fn parse_cube(content: &str, kind: LutKind) -> (r: Result<CubeTable, ColorError>)
    ensures
        match r {
            Ok(t) => cube_outcome(kind, content@) == CubeOutcome::Table(
                t.size as nat,
                row_texts(t.rows@),
                opt_texts(t.domain_min),
                opt_texts(t.domain_max),
            ),
            Err(e) => error_is(e, cube_outcome(kind, content@)),
        },
{
    let cs = chars_vec(content);
    let ghost s = cs@;
    let n = cs.len();
    let mut table = CubeTable { size: 0, rows: Vec::new(), domain_min: None, domain_max: None };
    proof {
        assert(row_texts(table.rows@) =~= Seq::<Seq<Seq<char>>>::empty());
    }
    let mut ls: usize = 0;
    let mut i: usize = 0;
    while i < n
        invariant
            n == cs.len(),
            s == cs@,
            s == content@,
            ls <= i <= n,
            line_scan(kind, s, i as nat) == (table_scan(table), ls as int),
        decreases n - i,
    {
        if cs[i] == '\n' {
            match scan_line(kind, &cs, ls, i, &mut table) {
                Ok(()) => {},
                Err(e) => {
                    proof {
                        lemma_failure_sticks(kind, s, (i + 1) as nat, n as nat);
                    }
                    return Err(e);
                },
            }
            ls = i + 1;
        }
        i = i + 1;
    }
    match scan_line(kind, &cs, ls, n, &mut table) {
        Ok(()) => {},
        Err(e) => {
            return Err(e);
        },
    }
    let rows = table.rows.len();
    match kind {
        LutKind::OneD => {
            let size = if table.size == 0 { rows } else { table.size };
            if rows != size {
                return Err(ColorError::DimensionMismatch { expected: size, got: rows });
            }
            if size < 2 {
                return Err(ColorError::InvalidLut(String::from_str("LUT must have at least 2 entries")));
            }
            table.size = size;
            Ok(table)
        },
        LutKind::ThreeD => {
            if table.size == 0 {
                return Err(ColorError::InvalidLut(String::from_str("missing LUT_3D_SIZE")));
            }
            let s1 = table.size as u128;
            assert(s1 * s1 <= 0xffff_ffff_ffff_ffffu128 * 0xffff_ffff_ffff_ffffu128) by (nonlinear_arith)
                requires
                    s1 <= 0xffff_ffff_ffff_ffffu128,
            ;
            let sq = s1 * s1;
            if sq > usize::MAX as u128 || (sq as usize).checked_mul(table.size).is_none() {
                assert(table.size * table.size * table.size > usize::MAX) by (nonlinear_arith)
                    requires
                        sq == table.size * table.size,
                        sq > usize::MAX || sq * table.size > usize::MAX,
                ;
                return Err(ColorError::DimensionMismatch { expected: usize::MAX, got: rows });
            }
            let expected = (sq as usize) * table.size;
            if rows != expected {
                return Err(ColorError::DimensionMismatch { expected, got: rows });
            }
            Ok(table)
        },
    }
}

} // verus!
