//! Decimal text: rendering a raw fixed-point value as its canonical
//! decimal string, and parsing `[-]W[.F]` strings back, shared by the
//! decimal types of different scales.

use vstd::prelude::*;
use vstd::string::StringExecFns;

use crate::decimals::arith::{
    lemma_pow10_adds, lemma_pow10_increases, lemma_pow10_positive, pow10,
};

verus! {

/// The character for one decimal digit.
pub open spec fn digit_char(d: nat) -> char {
    if d == 0 {
        '0'
    } else if d == 1 {
        '1'
    } else if d == 2 {
        '2'
    } else if d == 3 {
        '3'
    } else if d == 4 {
        '4'
    } else if d == 5 {
        '5'
    } else if d == 6 {
        '6'
    } else if d == 7 {
        '7'
    } else if d == 8 {
        '8'
    } else {
        '9'
    }
}

/// The decimal digits of `n`, most significant first, with no leading
/// zeros (zero itself is the single digit `0`).
pub open spec fn dec_digits(n: nat) -> Seq<char>
    decreases n,
{
    if n < 10 {
        seq![digit_char(n)]
    } else {
        dec_digits(n / 10) + seq![digit_char(n % 10)]
    }
}

/// The last `width` decimal digits of `n`, zero-padded on the left.
pub open spec fn fixed_digits(n: nat, width: nat) -> Seq<char>
    decreases width,
{
    if width == 0 {
        Seq::empty()
    } else {
        fixed_digits(n / 10, (width - 1) as nat) + seq![digit_char(n % 10)]
    }
}

/// Drop trailing `'0'` characters.
pub open spec fn trim_zeros(s: Seq<char>) -> Seq<char>
    decreases s.len(),
{
    if s.len() > 0 && s.last() == '0' {
        trim_zeros(s.drop_last())
    } else {
        s
    }
}

/// The canonical rendering of the raw value `raw` under `scale`
/// fractional digits: an optional minus sign, the whole part without
/// leading zeros, and, when the fraction is not zero, a point followed by
/// the fraction digits with trailing zeros trimmed.
pub open spec fn format_spec(raw: int, scale: nat) -> Seq<char>
    recommends
        raw != i64::MIN,
{
    let m = (if raw < 0 {
        -raw
    } else {
        raw
    }) as nat;
    let sf = pow10(scale) as nat;
    let whole = m / sf;
    let frac = m % sf;
    let body = if frac == 0 {
        dec_digits(whole)
    } else {
        dec_digits(whole) + seq!['.'] + trim_zeros(fixed_digits(frac, scale))
    };
    if raw < 0 {
        seq!['-'] + body
    } else {
        body
    }
}

/// The one-character string for a decimal digit.
pub fn digit_str(d: u64) -> (r: &'static str)
    requires
        d < 10,
    ensures
        r@ =~= seq![digit_char(d as nat)],
{
    proof {
        reveal_strlit("0");
        reveal_strlit("1");
        reveal_strlit("2");
        reveal_strlit("3");
        reveal_strlit("4");
        reveal_strlit("5");
        reveal_strlit("6");
        reveal_strlit("7");
        reveal_strlit("8");
        reveal_strlit("9");
    }
    match d {
        0 => "0",
        1 => "1",
        2 => "2",
        3 => "3",
        4 => "4",
        5 => "5",
        6 => "6",
        7 => "7",
        8 => "8",
        _ => "9",
    }
}

/// Append the decimal digits of `n`, most significant first.
pub fn push_dec(s: &mut String, n: u64)
    ensures
        final(s)@ == old(s)@ + dec_digits(n as nat),
    decreases n,
{
    if n >= 10 {
        push_dec(s, n / 10);
    }
    s.append(digit_str(n % 10));
    proof {
        assert(s@ =~= old(s)@ + dec_digits(n as nat));
    }
}

/// Append exactly `width` decimal digits of `n`, zero-padded on the left.
pub fn push_fixed(s: &mut String, n: u64, width: u32)
    ensures
        final(s)@ == old(s)@ + fixed_digits(n as nat, width as nat),
    decreases width,
{
    if width > 0 {
        push_fixed(s, n / 10, width - 1);
        s.append(digit_str(n % 10));
    }
    proof {
        assert(s@ =~= old(s)@ + fixed_digits(n as nat, width as nat));
    }
}

/// Trimming the trailing zeros of a zero-padded fraction is the same as
/// dividing the fraction down while it ends in a zero digit.
pub proof fn lemma_trim_step(f: nat, w: nat)
    requires
        w >= 1,
        f % 10 == 0,
    ensures
        trim_zeros(fixed_digits(f, w)) == trim_zeros(fixed_digits(f / 10, (w - 1) as nat)),
{
    let prefix = fixed_digits(f / 10, (w - 1) as nat);
    assert(fixed_digits(f, w) == prefix + seq![digit_char(0)]);
    assert((prefix + seq!['0']).last() == '0');
    assert((prefix + seq!['0']).drop_last() =~= prefix);
}

/// A fraction that does not end in a zero digit has nothing to trim.
pub proof fn lemma_trim_done(f: nat, w: nat)
    requires
        w >= 1,
        f % 10 != 0,
    ensures
        trim_zeros(fixed_digits(f, w)) == fixed_digits(f, w),
{
    let prefix = fixed_digits(f / 10, (w - 1) as nat);
    assert(fixed_digits(f, w) == prefix + seq![digit_char(f % 10)]);
    assert((prefix + seq![digit_char(f % 10)]).last() == digit_char(f % 10));
}

/// Render `raw` (not `i64::MIN`) under `scale` fractional digits.
pub fn format_raw(raw: i64, scale: u32) -> (r: String)
    requires
        raw != i64::MIN,
        1 <= scale <= 18,
    ensures
        r@ == format_spec(raw as int, scale as nat),
{
    proof {
        reveal_strlit("-");
        reveal_strlit(".");
        lemma_pow10_positive(scale as nat);
    }
    let mut s = String::new();
    if raw < 0 {
        s.append("-");
    }
    let m: u64 = if raw < 0 {
        (-raw) as u64
    } else {
        raw as u64
    };
    let sf: u64 = crate::decimals::arith::pow10_i64(scale) as u64;
    let whole: u64 = m / sf;
    let frac: u64 = m % sf;
    push_dec(&mut s, whole);
    if frac != 0 {
        s.append(".");
        let ghost frac0 = frac as nat;
        let mut f: u64 = frac;
        let mut w: u32 = scale;
        proof {
            vstd::arithmetic::div_mod::lemma_mod_bound(m as int, sf as int);
        }
        while f % 10 == 0
            invariant
                w >= 1,
                f >= 1,
                (f as nat) < pow10(w as nat),
                trim_zeros(fixed_digits(frac0, scale as nat)) == trim_zeros(
                    fixed_digits(f as nat, w as nat),
                ),
            decreases w,
        {
            proof {
                lemma_trim_step(f as nat, w as nat);
                lemma_div_strict_bound(f as nat, w as nat);
            }
            f = f / 10;
            w = w - 1;
        }
        proof {
            lemma_trim_done(f as nat, w as nat);
        }
        push_fixed(&mut s, f, w);
    }
    proof {
        assert(s@ =~= format_spec(raw as int, scale as nat));
    }
    s
}

/// ASCII decimal digit.
pub open spec fn is_digit(b: u8) -> bool {
    48 <= b <= 57
}

/// Every byte is an ASCII digit.
pub open spec fn all_digits(s: Seq<u8>) -> bool {
    forall|i: int| 0 <= i < s.len() ==> is_digit(#[trigger] s[i])
}

/// The integer written by a sequence of digit bytes, most significant
/// first (zero for the empty sequence).
pub open spec fn digits_val(s: Seq<u8>) -> int
    decreases s.len(),
{
    if s.len() == 0 {
        0
    } else {
        digits_val(s.drop_last()) * 10 + (s.last() - 48)
    }
}

/// A signed integer literal as `i64::from_str` reads it: an optional
/// `+` or `-` sign followed by at least one digit.
pub open spec fn int_str_ok(s: Seq<u8>) -> bool {
    let t = if s.len() > 0 && (s[0] == 43 || s[0] == 45) {
        s.skip(1)
    } else {
        s
    };
    t.len() > 0 && all_digits(t)
}

/// The value of a signed integer literal.
pub open spec fn int_str_val(s: Seq<u8>) -> int {
    if s.len() > 0 && s[0] == 45 {
        -digits_val(s.skip(1))
    } else if s.len() > 0 && s[0] == 43 {
        digits_val(s.skip(1))
    } else {
        digits_val(s)
    }
}

/// The literal's value fits in an `i64`.
pub open spec fn int_fits_i64(s: Seq<u8>) -> bool {
    i64::MIN <= int_str_val(s) <= i64::MAX
}

/// Index of the first `'.'` byte, or the length when there is none.
pub open spec fn dot_or_len(t: Seq<u8>) -> int
    decreases t.len(),
{
    if t.len() == 0 {
        0
    } else if t[0] == 46 {
        0
    } else {
        1 + dot_or_len(t.skip(1))
    }
}

/// There is a `'.'` byte.
pub open spec fn has_dot(t: Seq<u8>) -> bool {
    dot_or_len(t) < t.len()
}

/// There is a second `'.'` byte after the first: the string has three or
/// more point-separated parts.
pub open spec fn tail_has_dot(t: Seq<u8>) -> bool {
    exists|i: int| dot_or_len(t) < i < t.len() && #[trigger] t[i] == 46
}

/// The whole-number part: everything before the first point.
pub open spec fn whole_part(t: Seq<u8>) -> Seq<u8> {
    t.take(dot_or_len(t))
}

/// The fraction part: everything after the first point.
pub open spec fn frac_part(t: Seq<u8>) -> Seq<u8> {
    t.skip(dot_or_len(t) + 1)
}

/// The number of fraction bytes that count: the fraction is truncated at
/// `scale` digits, anything beyond is ignored.
pub open spec fn frac_take(f: Seq<u8>, scale: nat) -> int {
    if f.len() <= scale {
        f.len() as int
    } else {
        scale as int
    }
}

/// The kept fraction bytes are all digits (an empty fraction is fine and
/// reads as zero).
pub open spec fn frac_ok(f: Seq<u8>, scale: nat) -> bool {
    all_digits(f.take(frac_take(f, scale)))
}

/// The raw value of the fraction: its kept digits right-padded with
/// zeros to `scale` digits.
pub open spec fn frac_val(f: Seq<u8>, scale: nat) -> int {
    let tk = frac_take(f, scale);
    digits_val(f.take(tk)) * pow10((scale - tk) as nat)
}

/// The value of a digit string is never negative.
pub proof fn lemma_digits_val_nonneg(s: Seq<u8>)
    requires
        all_digits(s),
    ensures
        digits_val(s) >= 0,
    decreases s.len(),
{
    if s.len() > 0 {
        assert(all_digits(s.drop_last())) by {
            assert(forall|i: int| 0 <= i < s.len() - 1 ==> s.drop_last()[i] == s[i]);
        }
        lemma_digits_val_nonneg(s.drop_last());
    }
}

/// A digit string is worth at least any of its prefixes.
pub proof fn lemma_digits_val_prefix(s: Seq<u8>, k: int)
    requires
        all_digits(s),
        0 <= k <= s.len(),
    ensures
        digits_val(s.take(k)) <= digits_val(s),
    decreases s.len(),
{
    if k < s.len() {
        assert(all_digits(s.drop_last())) by {
            assert(forall|i: int| 0 <= i < s.len() - 1 ==> s.drop_last()[i] == s[i]);
        }
        assert(s.take(k) =~= s.drop_last().take(k));
        lemma_digits_val_prefix(s.drop_last(), k);
        lemma_digits_val_nonneg(s.drop_last());
    } else {
        assert(s.take(k) =~= s);
    }
}

/// A string of `n` digits is worth less than `10^n`.
pub proof fn lemma_digits_val_bound(s: Seq<u8>)
    requires
        all_digits(s),
    ensures
        digits_val(s) < pow10(s.len()),
    decreases s.len(),
{
    if s.len() == 0 {
        assert(pow10(0) == 1);
    } else {
        assert(all_digits(s.drop_last())) by {
            assert(forall|i: int| 0 <= i < s.len() - 1 ==> s.drop_last()[i] == s[i]);
        }
        lemma_digits_val_bound(s.drop_last());
        crate::decimals::arith::lemma_pow10_step((s.len() - 1) as nat);
    }
}

/// Pin `dot_or_len` from a scan: no dot before `m`, and either `m` is
/// the length or a dot sits at `m`.
pub proof fn lemma_dot_or_len_of(t: Seq<u8>, m: int)
    requires
        0 <= m <= t.len(),
        forall|k: int| 0 <= k < m ==> #[trigger] t[k] != 46,
        m < t.len() ==> t[m] == 46,
    ensures
        dot_or_len(t) == m,
    decreases m,
{
    if m == 0 {
    } else {
        lemma_dot_or_len_of(t.skip(1), m - 1);
    }
}

/// Parse a signed integer literal with `i64::from_str` semantics: an
/// optional sign, then digits, rejected when malformed or out of range.
#[verifier::loop_isolation(false)]
pub fn parse_i64_bytes(b: &[u8]) -> (r: Option<i64>)
    ensures
        match r {
            Some(v) => int_str_ok(b@) && int_fits_i64(b@) && v as int == int_str_val(b@),
            None => !(int_str_ok(b@) && int_fits_i64(b@)),
        },
{
    let n = b.len();
    if n == 0 {
        return None;
    }
    let b0 = *vstd::slice::slice_index_get(b, 0);
    let sign_neg = b0 == 45;
    let start: usize = if b0 == 45 || b0 == 43 {
        1
    } else {
        0
    };
    let ghost t = if start == 1 {
        b@.skip(1)
    } else {
        b@
    };
    if n == start {
        return None;
    }
    let mut acc: u128 = 0;
    let mut i = start;
    while i < n
        invariant
            start <= i <= n,
            n == b@.len(),
            t == (if start == 1 {
                b@.skip(1)
            } else {
                b@
            }),
            t.len() == n - start,
            forall|k: int| 0 <= k < i - start ==> is_digit(#[trigger] t[k]),
            acc as int == digits_val(t.take(i - start)),
            acc <= 9_223_372_036_854_775_808u128,
        decreases n - i,
    {
        let c = *vstd::slice::slice_index_get(b, i);
        proof {
            assert(t[i - start] == b@[i as int]);
        }
        if c < 48 || c > 57 {
            proof {
                assert(!is_digit(t[i - start]));
            }
            return None;
        }
        proof {
            assert(t.take(i + 1 - start).drop_last() =~= t.take(i - start));
            assert(t.take(i + 1 - start).last() == t[i - start]);
        }
        acc = acc * 10 + ((c - 48) as u128);
        if acc > 9_223_372_036_854_775_808u128 {
            // The magnitude already exceeds 2^63: whatever follows, the
            // value cannot fit in an i64.
            proof {
                if all_digits(t) {
                    lemma_digits_val_prefix(t, i + 1 - start);
                    assert(digits_val(t) > 0x8000_0000_0000_0000);
                }
            }
            return None;
        }
        i = i + 1;
    }
    proof {
        assert(t.take(n - start) =~= t);
    }
    if sign_neg {
        if acc >= 9_223_372_036_854_775_808u128 {
            Some(i64::MIN)
        } else {
            Some(-(acc as i64))
        }
    } else {
        if acc > 9_223_372_036_854_775_807u128 {
            return None;
        }
        Some(acc as i64)
    }
}

/// Parse the fraction field: up to `scale` leading digits count, the
/// rest is ignored; the kept digits are right-padded with zeros to the
/// full scale.  An empty fraction reads as zero.
pub fn parse_frac_bytes(b: &[u8], scale: u32) -> (r: Option<i64>)
    requires
        1 <= scale <= 18,
    ensures
        match r {
            Some(v) => frac_ok(b@, scale as nat) && v as int == frac_val(b@, scale as nat) && 0
                <= v < pow10(scale as nat),
            None => !frac_ok(b@, scale as nat),
        },
{
    let n = b.len();
    let tk: usize = if n <= scale as usize {
        n
    } else {
        scale as usize
    };
    let mut acc: u64 = 0;
    let mut i: usize = 0;
    proof {
        lemma_pow10_positive(scale as nat);
    }
    while i < tk
        invariant
            0 <= i <= tk <= scale <= 18,
            tk <= n == b@.len(),
            tk as int == frac_take(b@, scale as nat),
            forall|k: int| 0 <= k < i ==> is_digit(#[trigger] b@[k]),
            acc as int == digits_val(b@.take(i as int)),
            (acc as int) < pow10(i as nat),
        decreases tk - i,
    {
        let c = *vstd::slice::slice_index_get(b, i);
        if c < 48 || c > 57 {
            proof {
                assert(b@.take(tk as int)[i as int] == b@[i as int]);
            }
            return None;
        }
        proof {
            assert(b@.take(i + 1).drop_last() =~= b@.take(i as int));
            assert(b@.take(i + 1).last() == b@[i as int]);
            crate::decimals::arith::lemma_pow10_step(i as nat);
            lemma_pow10_increases(i as nat + 1, 18);
            assert(pow10(18) == 1_000_000_000_000_000_000) by {
                reveal_with_fuel(pow10, 19);
            }
        }
        acc = acc * 10 + ((c - 48) as u64);
        i = i + 1;
    }
    proof {
        assert(forall|k: int| 0 <= k < tk ==> b@.take(tk as int)[k] == b@[k]);
        lemma_pow10_adds(i as nat, (scale - i) as nat);
        lemma_pow10_positive((scale - i) as nat);
        assert((acc as int) * pow10((scale - i) as nat) < pow10(i as nat) * pow10(
            (scale - i) as nat,
        )) by (nonlinear_arith)
            requires
                (acc as int) < pow10(i as nat),
                pow10((scale - i) as nat) >= 1,
        ;
        lemma_digits_val_nonneg(b@.take(tk as int));
        vstd::arithmetic::mul::lemma_mul_nonnegative(acc as int, pow10((scale - i) as nat));
        lemma_pow10_increases(scale as nat, 18);
        assert(pow10(18) == 1_000_000_000_000_000_000) by {
            reveal_with_fuel(pow10, 19);
        }
    }
    let pad = crate::decimals::arith::pow10_i64(scale - i as u32) as u64;
    Some((acc * pad) as i64)
}

/// The three ways a decimal string is rejected, with the reported text.
pub open spec fn parse_err_format(t: Seq<u8>) -> bool {
    tail_has_dot(t)
}

/// The whole part is not a signed integer literal in `i64` range.
pub open spec fn parse_err_whole(t: Seq<u8>) -> bool {
    !tail_has_dot(t) && !(int_str_ok(whole_part(t)) && int_fits_i64(whole_part(t)))
}

/// The kept fraction digits are not all digits.
pub open spec fn parse_err_frac(t: Seq<u8>, scale: nat) -> bool {
    !tail_has_dot(t) && int_str_ok(whole_part(t)) && int_fits_i64(whole_part(t)) && has_dot(t)
        && !frac_ok(frac_part(t), scale)
}

/// The string parses: one optional point, a well-formed whole part in
/// `i64` range, and digits in the kept fraction positions.
pub open spec fn parse_ok(t: Seq<u8>, scale: nat) -> bool {
    !tail_has_dot(t) && int_str_ok(whole_part(t)) && int_fits_i64(whole_part(t)) && (has_dot(t)
        ==> frac_ok(frac_part(t), scale))
}

/// The parsed whole-part value.
pub open spec fn parsed_whole(t: Seq<u8>) -> int {
    int_str_val(whole_part(t))
}

/// The parsed fraction value, already scaled to `scale` digits.
pub open spec fn parsed_frac(t: Seq<u8>, scale: nat) -> int {
    if has_dot(t) {
        frac_val(frac_part(t), scale)
    } else {
        0
    }
}

/// Split a decimal string `[-]W[.F]` into its leading-minus flag, whole
/// value and scaled fraction value, written over the minus-stripped
/// bytes `t`: the whole part `W` is read with `i64::from_str` semantics
/// (it may carry its own sign), the fraction `F` is truncated at `scale`
/// digits and right-padded with zeros, and each malformed part is
/// rejected with its own message.
#[verifier::loop_isolation(false)]
pub fn split_decimal(bytes: &[u8], scale: u32) -> (r: Result<(bool, i64, i64), &'static str>)
    requires
        1 <= scale <= 18,
    ensures
        ({
            let s = bytes@;
            let neg = s.len() > 0 && s[0] == 45;
            let t = if neg {
                s.skip(1)
            } else {
                s
            };
            match r {
                Ok((rneg, w, f)) => parse_ok(t, scale as nat) && rneg == neg && w as int
                    == parsed_whole(t) && f as int == parsed_frac(t, scale as nat) && 0 <= f
                    < pow10(scale as nat),
                Err(e) => (e@ == "Invalid decimal format"@ && parse_err_format(t)) || (e@
                    == "Invalid whole number"@ && parse_err_whole(t)) || (e@
                    == "Invalid decimal part"@ && parse_err_frac(t, scale as nat)),
            }
        }),
{
    let n = bytes.len();
    let neg = n > 0 && *vstd::slice::slice_index_get(bytes, 0) == 45;
    let start: usize = if neg {
        1
    } else {
        0
    };
    let ghost t = if neg {
        bytes@.skip(1)
    } else {
        bytes@
    };
    proof {
        assert(t =~= bytes@.subrange(start as int, n as int));
    }
    // Find the first point, if any.
    let mut dot: usize = start;
    while dot < n && *vstd::slice::slice_index_get(bytes, dot) != 46
        invariant
            start <= dot <= n,
            forall|k: int| 0 <= k < dot - start ==> #[trigger] t[k] != 46,
        decreases n - dot,
    {
        dot = dot + 1;
    }
    proof {
        lemma_dot_or_len_of(t, dot - start);
    }
    // A second point is a malformed string.
    if dot < n {
        let mut j: usize = dot + 1;
        while j < n
            invariant
                dot + 1 <= j <= n,
                forall|k: int| dot - start < k < j - start ==> #[trigger] t[k] != 46,
            decreases n - j,
        {
            if *vstd::slice::slice_index_get(bytes, j) == 46 {
                proof {
                    assert(t[j - start] == 46);
                }
                return Err("Invalid decimal format");
            }
            j = j + 1;
        }
    }
    proof {
        assert(!tail_has_dot(t));
    }
    let whole_bytes = vstd::slice::slice_subrange(bytes, start, dot);
    proof {
        assert(whole_bytes@ =~= whole_part(t));
    }
    let w = match parse_i64_bytes(whole_bytes) {
        Some(w) => w,
        None => {
            return Err("Invalid whole number");
        },
    };
    if dot == n {
        proof {
            lemma_pow10_positive(scale as nat);
        }
        return Ok((neg, w, 0));
    }
    let frac_bytes = vstd::slice::slice_subrange(bytes, dot + 1, n);
    proof {
        assert(frac_bytes@ =~= frac_part(t));
    }
    match parse_frac_bytes(frac_bytes, scale) {
        Some(f) => Ok((neg, w, f)),
        None => Err("Invalid decimal part"),
    }
}

/// A value below `10^w` that ends in a zero digit stays below `10^(w-1)`
/// after dividing by ten, and stays positive when it was at least ten.
proof fn lemma_div_strict_bound(f: nat, w: nat)
    requires
        w >= 1,
        1 <= f < pow10(w),
        f % 10 == 0,
    ensures
        1 <= f / 10 < pow10((w - 1) as nat),
        w - 1 >= 1,
{
    vstd::arithmetic::div_mod::lemma_fundamental_div_mod(f as int, 10);
    assert(f == 10 * (f / 10));
    assert(f / 10 >= 1);
    assert(f / 10 < pow10((w - 1) as nat)) by {
        if f / 10 >= pow10((w - 1) as nat) {
            assert(10 * (f / 10) >= 10 * pow10((w - 1) as nat));
            crate::decimals::arith::lemma_pow10_step((w - 1) as nat);
        }
    }
    if w == 1 {
        assert(pow10(0) == 1);
        assert(f < 10);
        assert(f % 10 == f);
    }
}

} // verus!
