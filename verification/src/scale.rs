//! Targets for downscaling a video: parsing `480`, `720p`, `854x480`, and
//! rendering the matching ffmpeg scale filter.
use vstd::prelude::*;

use crate::error::TvaError;
use crate::text::{chars_of, decimal, push_decimal, push_range, push_str, string_from_chars};

verus! {

/// A downscale target.
#[derive(Debug, Clone, Copy, PartialEq, Eq, Structural)]
pub enum ScaleTarget {
    /// Exact width and height.
    Both(u32, u32),
    /// Height only; the width follows the aspect ratio.
    Height(u32),
}

/// Unicode `White_Space`, as tested by `char::is_whitespace`.
pub open spec fn is_whitespace(c: char) -> bool {
    ||| '\t' <= c <= '\r'
    ||| c == ' '
    ||| c == '\u{85}'
    ||| c == '\u{a0}'
    ||| c == '\u{1680}'
    ||| '\u{2000}' <= c <= '\u{200a}'
    ||| c == '\u{2028}'
    ||| c == '\u{2029}'
    ||| c == '\u{202f}'
    ||| c == '\u{205f}'
    ||| c == '\u{3000}'
}

/// `s` without its leading whitespace.
pub open spec fn trim_start(s: Seq<char>) -> Seq<char>
    decreases s.len(),
{
    if s.len() > 0 && is_whitespace(s[0]) {
        trim_start(s.drop_first())
    } else {
        s
    }
}

/// `s` without its trailing whitespace.
pub open spec fn trim_end(s: Seq<char>) -> Seq<char>
    decreases s.len(),
{
    if s.len() > 0 && is_whitespace(s.last()) {
        trim_end(s.drop_last())
    } else {
        s
    }
}

/// `s` without leading and trailing whitespace.
pub open spec fn trim(s: Seq<char>) -> Seq<char> {
    trim_end(trim_start(s))
}

/// `s` without its trailing run of `p` and `P`.
pub open spec fn trim_end_p(s: Seq<char>) -> Seq<char>
    decreases s.len(),
{
    if s.len() > 0 && (s.last() == 'p' || s.last() == 'P') {
        trim_end_p(s.drop_last())
    } else {
        s
    }
}

/// A separator between width and height.
pub open spec fn is_separator(c: char) -> bool {
    c == 'x' || c == 'X' || c == ':'
}

/// Index of the first separator in `s`.
pub open spec fn first_separator(s: Seq<char>) -> Option<int>
    decreases s.len(),
{
    if s.len() == 0 {
        None
    } else if is_separator(s[0]) {
        Some(0)
    } else {
        match first_separator(s.drop_first()) {
            Some(i) => Some(i + 1),
            None => None,
        }
    }
}

/// An ASCII decimal digit.
pub open spec fn is_digit(c: char) -> bool {
    '0' <= c <= '9'
}

/// Value of a string of decimal digits.
pub open spec fn digits_value(s: Seq<char>) -> nat
    decreases s.len(),
{
    if s.len() == 0 {
        0
    } else {
        digits_value(s.drop_last()) * 10 + ((s.last() as int) - 48) as nat
    }
}

/// Every character of `d` is an ASCII digit.
pub open spec fn all_digits(d: Seq<char>) -> bool {
    forall|i: int| 0 <= i < d.len() ==> is_digit(#[trigger] d[i])
}

/// A non-empty run of digits whose value fits in 32 bits.
pub open spec fn parse_digits(d: Seq<char>) -> Option<u32> {
    if d.len() > 0 && all_digits(d) && digits_value(d) <= u32::MAX {
        Some(digits_value(d) as u32)
    } else {
        None
    }
}

/// What `str::parse::<u32>` accepts: an optional `+`, then one or more ASCII
/// digits whose value fits in 32 bits.
pub open spec fn parse_u32(s: Seq<char>) -> Option<u32> {
    if s.len() > 0 && s[0] == '+' {
        parse_digits(s.drop_first())
    } else {
        parse_digits(s)
    }
}

/// The target written in `s`, or the text reported as unparsable: after
/// trimming whitespace and any trailing `p`/`P`, either `W<sep>H` (split at
/// the first of `x`, `X`, `:`, each side trimmed again) or a bare height.
pub open spec fn parse_target_spec(s: Seq<char>) -> Result<ScaleTarget, Seq<char>> {
    let t = trim_end_p(trim(s));
    if t.len() == 0 {
        Err(Seq::empty())
    } else {
        match first_separator(t) {
            Some(i) => {
                match (
                    parse_u32(trim(t.subrange(0, i))),
                    parse_u32(trim(t.subrange(i + 1, t.len() as int))),
                ) {
                    (Some(w), Some(h)) => Ok(ScaleTarget::Both(w, h)),
                    _ => Err(t),
                }
            },
            None => match parse_u32(t) {
                Some(h) => Ok(ScaleTarget::Height(h)),
                None => Err(t),
            },
        }
    }
}

/// The ffmpeg filter for a target.
pub open spec fn scale_filter_spec(t: ScaleTarget) -> Seq<char> {
    match t {
        ScaleTarget::Both(w, h) => "scale="@ + decimal(w as nat) + ":"@ + decimal(h as nat)
            + ":flags=lanczos"@,
        ScaleTarget::Height(h) => "scale=-2:"@ + decimal(h as nat) + ":flags=lanczos"@,
    }
}

fn is_whitespace_char(c: char) -> (r: bool)
    ensures
        r == is_whitespace(c),
{
    ('\t' <= c && c <= '\r') || c == ' ' || c == '\u{85}' || c == '\u{a0}' || c == '\u{1680}' || (
    '\u{2000}' <= c && c <= '\u{200a}') || c == '\u{2028}' || c == '\u{2029}' || c == '\u{202f}'
        || c == '\u{205f}' || c == '\u{3000}'
}

/// Bounds of `trim(chars[lo..hi])` within `chars`.
fn trim_range(chars: &[char], lo: usize, hi: usize) -> (r: (usize, usize))
    requires
        lo <= hi <= chars@.len(),
    ensures
        lo <= r.0 <= r.1 <= hi,
        chars@.subrange(r.0 as int, r.1 as int) == trim(chars@.subrange(lo as int, hi as int)),
{
    let mut a = lo;
    while a < hi && is_whitespace_char(chars[a])
        invariant
            lo <= a <= hi <= chars@.len(),
            trim_start(chars@.subrange(lo as int, hi as int)) == trim_start(
                chars@.subrange(a as int, hi as int),
            ),
        decreases hi - a,
    {
        assert(chars@.subrange(a as int, hi as int).drop_first() =~= chars@.subrange(
            a + 1,
            hi as int,
        ));
        a = a + 1;
    }
    let mut b = hi;
    while b > a && is_whitespace_char(chars[b - 1])
        invariant
            lo <= a <= b <= hi <= chars@.len(),
            trim_start(chars@.subrange(lo as int, hi as int)) == chars@.subrange(
                a as int,
                hi as int,
            ) || (a < hi && !is_whitespace(chars@[a as int]) && trim_start(
                chars@.subrange(lo as int, hi as int),
            ) == chars@.subrange(a as int, hi as int)),
            trim_end(chars@.subrange(a as int, hi as int)) == trim_end(
                chars@.subrange(a as int, b as int),
            ),
        decreases b - a,
    {
        assert(chars@.subrange(a as int, b as int).drop_last() =~= chars@.subrange(
            a as int,
            b - 1,
        ));
        b = b - 1;
    }
    (a, b)
}

/// Bounds of `trim_end_p(chars[lo..hi])` within `chars`.
fn trim_end_p_range(chars: &[char], lo: usize, hi: usize) -> (r: usize)
    requires
        lo <= hi <= chars@.len(),
    ensures
        lo <= r <= hi,
        chars@.subrange(lo as int, r as int) == trim_end_p(chars@.subrange(lo as int, hi as int)),
{
    let mut b = hi;
    while b > lo && (chars[b - 1] == 'p' || chars[b - 1] == 'P')
        invariant
            lo <= b <= hi <= chars@.len(),
            trim_end_p(chars@.subrange(lo as int, hi as int)) == trim_end_p(
                chars@.subrange(lo as int, b as int),
            ),
        decreases b - lo,
    {
        assert(chars@.subrange(lo as int, b as int).drop_last() =~= chars@.subrange(
            lo as int,
            b - 1,
        ));
        b = b - 1;
    }
    b
}

proof fn lemma_first_separator(s: Seq<char>, i: int)
    requires
        0 <= i <= s.len(),
        forall|k: int| 0 <= k < i ==> !is_separator(s[k]),
    ensures
        i < s.len() && is_separator(s[i]) ==> first_separator(s) == Some(i),
        i == s.len() ==> first_separator(s) is None,
    decreases i,
{
    if i > 0 {
        lemma_first_separator(s.drop_first(), i - 1);
    }
}

/// Digit values only grow as digits are appended.
proof fn lemma_digits_value_monotone(d: Seq<char>, i: int)
    requires
        0 <= i <= d.len(),
        forall|k: int| 0 <= k < d.len() ==> is_digit(d[k]),
    ensures
        digits_value(d.take(i)) <= digits_value(d),
    decreases d.len() - i,
{
    if i == d.len() {
        assert(d.take(i) =~= d);
    } else {
        lemma_digits_value_monotone(d, i + 1);
        let t = d.take(i + 1);
        assert(t.drop_last() =~= d.take(i));
        assert(is_digit(t.last()));
        assert(digits_value(t) == digits_value(t.drop_last()) * 10 + ((t.last() as int)
            - 48) as nat);
    }
}

/// Parses `chars[lo..hi]` as `str::parse::<u32>` does.
fn parse_u32_range(chars: &[char], lo: usize, hi: usize) -> (r: Option<u32>)
    requires
        lo <= hi <= chars@.len(),
    ensures
        r == parse_u32(chars@.subrange(lo as int, hi as int)),
{
    let ghost s = chars@.subrange(lo as int, hi as int);
    let start = if lo < hi && chars[lo] == '+' {
        lo + 1
    } else {
        lo
    };
    let ghost d = chars@.subrange(start as int, hi as int);
    assert(d =~= (if s.len() > 0 && s[0] == '+' {
        s.drop_first()
    } else {
        s
    }));
    if start == hi {
        return None;
    }
    let mut value: u64 = 0;
    let mut i = start;
    while i < hi
        invariant
            lo <= start <= i <= hi <= chars@.len(),
            d == chars@.subrange(start as int, hi as int),
            s == chars@.subrange(lo as int, hi as int),
            parse_u32(s) == parse_digits(d),
            d.len() > 0,
            forall|k: int| 0 <= k < i - start ==> is_digit(d[k]),
            value == digits_value(d.take(i - start)),
            value <= u32::MAX,
        decreases hi - i,
    {
        let c = chars[i];
        assert(c == d[i - start]);
        if !('0' <= c && c <= '9') {
            assert(!is_digit(d[i - start]));
            assert(!all_digits(d));
            assert(parse_u32(s) is None);
            return None;
        }
        let digit = (c as u32 - 48) as u64;
        assert(d.take(i + 1 - start).drop_last() =~= d.take(i - start));
        value = value * 10 + digit;
        i = i + 1;
        if value > 0xffff_ffff {
            proof {
                let t = d.take(i - start);
                assert(t.drop_last() =~= d.take(i - 1 - start));
                assert(value == digits_value(t));
                if all_digits(d) {
                    lemma_digits_value_monotone(d, i - start);
                    assert(digits_value(d) > u32::MAX);
                }
                assert(parse_u32(s) is None);
            }
            return None;
        }
    }
    assert(d.take(i - start) =~= d);
    Some(value as u32)
}

/// Index of the first separator in `chars[lo..hi]`, or `hi`.
fn find_separator(chars: &[char], lo: usize, hi: usize) -> (r: usize)
    requires
        lo <= hi <= chars@.len(),
    ensures
        lo <= r <= hi,
        r < hi ==> first_separator(chars@.subrange(lo as int, hi as int)) == Some(r - lo),
        r == hi ==> first_separator(chars@.subrange(lo as int, hi as int)) is None,
{
    let ghost t = chars@.subrange(lo as int, hi as int);
    let mut sep = lo;
    while sep < hi && !(chars[sep] == 'x' || chars[sep] == 'X' || chars[sep] == ':')
        invariant
            lo <= sep <= hi <= chars@.len(),
            t == chars@.subrange(lo as int, hi as int),
            forall|k: int| 0 <= k < sep - lo ==> !is_separator(t[k]),
        decreases hi - sep,
    {
        sep = sep + 1;
    }
    proof {
        lemma_first_separator(t, sep - lo);
    }
    sep
}

/// Parses `W<sep>H` from `chars[a..e]`, the separator standing at `sep`.
fn parse_both(chars: &[char], a: usize, sep: usize, e: usize) -> (r: Option<ScaleTarget>)
    requires
        a <= sep < e <= chars@.len(),
    ensures
        ({
            let t = chars@.subrange(a as int, e as int);
            let i = sep - a;
            r == match (
                parse_u32(trim(t.subrange(0, i))),
                parse_u32(trim(t.subrange(i + 1, t.len() as int))),
            ) {
                (Some(w), Some(h)) => Some(ScaleTarget::Both(w, h)),
                _ => None,
            }
        }),
{
    let ghost t = chars@.subrange(a as int, e as int);
    let (wa, wb) = trim_range(chars, a, sep);
    let (ha, hb) = trim_range(chars, sep + 1, e);
    assert(chars@.subrange(a as int, sep as int) =~= t.subrange(0, sep - a));
    assert(chars@.subrange(sep + 1, e as int) =~= t.subrange(sep - a + 1, t.len() as int));
    let w = parse_u32_range(chars, wa, wb);
    let h = parse_u32_range(chars, ha, hb);
    match (w, h) {
        (Some(w), Some(h)) => Some(ScaleTarget::Both(w, h)),
        _ => None,
    }
}

/// Parses a scale target such as `480`, `720p`, ` 720P `, `854x480`,
/// `854X480` or `854:480`.
pub fn parse_target(s: &str) -> (r: Result<ScaleTarget, TvaError>)
    ensures
        parse_target_spec(s@) matches Ok(t) ==> r == Ok::<ScaleTarget, TvaError>(t),
        parse_target_spec(s@) matches Err(text) ==> (r matches Err(TvaError::BadScale(m))
            && m@ == text),
{
    let chars = chars_of(s);
    let n = chars.len();
    let (a, b) = trim_range(chars.as_slice(), 0, n);
    assert(chars@.subrange(0, n as int) =~= s@);
    let e = trim_end_p_range(chars.as_slice(), a, b);
    let ghost t = chars@.subrange(a as int, e as int);
    assert(t == trim_end_p(trim(s@)));
    if a == e {
        let empty: Vec<char> = Vec::new();
        return Err(TvaError::BadScale(string_from_chars(empty.as_slice())));
    }
    let sep = find_separator(chars.as_slice(), a, e);
    let mut text: Vec<char> = Vec::new();
    push_range(&mut text, chars.as_slice(), a, e);
    assert(text@ =~= t);
    if sep < e {
        match parse_both(chars.as_slice(), a, sep, e) {
            Some(target) => Ok(target),
            None => Err(TvaError::BadScale(string_from_chars(text.as_slice()))),
        }
    } else {
        match parse_u32_range(chars.as_slice(), a, e) {
            Some(h) => Ok(ScaleTarget::Height(h)),
            None => Err(TvaError::BadScale(string_from_chars(text.as_slice()))),
        }
    }
}

/// The ffmpeg scale filter for a target, with Lanczos resampling:
/// `scale=W:H:flags=lanczos`, or `scale=-2:H:flags=lanczos` to keep the
/// aspect ratio at an even width.
pub fn scale_filter(t: ScaleTarget) -> (r: String)
    ensures
        r@ == scale_filter_spec(t),
{
    let mut out: Vec<char> = Vec::new();
    match t {
        ScaleTarget::Both(w, h) => {
            push_str(&mut out, "scale=");
            push_decimal(&mut out, w as u64);
            push_str(&mut out, ":");
            push_decimal(&mut out, h as u64);
        },
        ScaleTarget::Height(h) => {
            push_str(&mut out, "scale=-2:");
            push_decimal(&mut out, h as u64);
        },
    }
    push_str(&mut out, ":flags=lanczos");
    string_from_chars(out.as_slice())
}

/// Decimal notation is a non-empty run of digits with the number's value.
pub proof fn lemma_decimal_digits(n: nat)
    ensures
        decimal(n).len() > 0,
        all_digits(decimal(n)),
        digits_value(decimal(n)) == n,
    decreases n,
{
    let s = decimal(n);
    if n < 10 {
        assert(s.drop_last() =~= Seq::<char>::empty());
        assert((s.last() as int) == 48 + n);
        assert(digits_value(s) == digits_value(s.drop_last()) * 10 + ((s.last() as int)
            - 48) as nat);
        assert(digits_value(s.drop_last()) == 0);
    } else {
        lemma_decimal_digits(n / 10);
        assert(s.drop_last() =~= decimal(n / 10));
        assert((s.last() as int) == 48 + n % 10);
        assert((n / 10) * 10 + n % 10 == n);
        assert(digits_value(s) == digits_value(s.drop_last()) * 10 + ((s.last() as int)
            - 48) as nat);
        assert(digits_value(s.drop_last()) == n / 10);
        assert forall|i: int| 0 <= i < s.len() implies is_digit(#[trigger] s[i]) by {
            if i < s.len() - 1 {
                assert(s[i] == decimal(n / 10)[i]);
            }
        }
    }
}

/// A run of digits is left alone by trimming whitespace and `p`.
proof fn lemma_digits_untrimmed(s: Seq<char>)
    requires
        s.len() > 0,
        all_digits(s),
    ensures
        trim(s) == s,
        trim_end_p(s) == s,
        first_separator(s) is None,
{
    assert(is_digit(s[0]));
    assert(is_digit(s.last()));
    assert(trim_start(s) == s);
    assert(trim_end(s) == s);
    assert forall|k: int| 0 <= k < s.len() implies !is_separator(s[k]) by {
        assert(is_digit(s[k]));
    }
    lemma_first_separator(s, s.len() as int);
}

/// A height written in decimal, with or without a trailing `p`, parses back
/// to that height.
pub proof fn lemma_height_round_trip(h: u32)
    ensures
        parse_target_spec(decimal(h as nat)) == Ok::<ScaleTarget, Seq<char>>(
            ScaleTarget::Height(h),
        ),
        parse_target_spec(decimal(h as nat).push('p')) == Ok::<ScaleTarget, Seq<char>>(
            ScaleTarget::Height(h),
        ),
{
    let d = decimal(h as nat);
    lemma_decimal_digits(h as nat);
    lemma_digits_untrimmed(d);
    assert(is_digit(d[0]));
    assert(parse_u32(d) == Some(h));
    let dp = d.push('p');
    assert(!is_whitespace(dp[0])) by {
        assert(dp[0] == d[0]);
        assert(is_digit(d[0]));
    }
    assert(trim_start(dp) == dp);
    assert(trim_end(dp) == dp);
    assert(dp.drop_last() =~= d);
    assert(trim_end_p(dp) == trim_end_p(d));
}

/// A size written as `W` `x` `H` in decimal parses back to that size.
pub proof fn lemma_size_round_trip(w: u32, h: u32)
    ensures
        parse_target_spec(decimal(w as nat) + seq!['x'] + decimal(h as nat)) == Ok::<
            ScaleTarget,
            Seq<char>,
        >(ScaleTarget::Both(w, h)),
{
    let dw = decimal(w as nat);
    let dh = decimal(h as nat);
    lemma_decimal_digits(w as nat);
    lemma_decimal_digits(h as nat);
    lemma_digits_untrimmed(dw);
    lemma_digits_untrimmed(dh);
    let s = dw + seq!['x'] + dh;
    assert(s[0] == dw[0]);
    assert(is_digit(dw[0]));
    assert(s.last() == dh.last());
    assert(is_digit(dh.last()));
    assert(trim_start(s) == s);
    assert(trim_end(s) == s);
    assert(trim_end_p(s) == s);
    assert forall|k: int| 0 <= k < dw.len() implies !is_separator(s[k]) by {
        assert(s[k] == dw[k]);
        assert(is_digit(dw[k]));
    }
    lemma_first_separator(s, dw.len() as int);
    assert(s.subrange(0, dw.len() as int) =~= dw);
    assert(s.subrange(dw.len() as int + 1, s.len() as int) =~= dh);
    assert(is_digit(dw[0]));
    assert(is_digit(dh[0]));
    assert(parse_u32(dw) == Some(w));
    assert(parse_u32(dh) == Some(h));
}

} // verus!
