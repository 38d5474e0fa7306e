//! Decimal text handling: parsing numeric metric strings into fixed-point
//! micro-units, parsing small unsigned integers, and rendering integers back
//! into decimal text.
//!
//! A metric value string is accepted when it consists of an optional integer
//! part and an optional fraction part separated by a single `.`, with at
//! least one digit overall (`"12"`, `"12.5"`, `"12."`, `".5"`). Its value in
//! micro-units is the integer part times one million plus the first six
//! fraction digits; further fraction digits are truncated. Anything else,
//! including values too large for `u64` micro-units, is unparsable.

use vstd::prelude::*;

verus! {

/// True when `c` is a decimal digit `'0'..='9'`.
pub open spec fn char_is_digit(c: char) -> bool {
    48 <= c as int && c as int <= 57
}

/// Numeric value of a digit character.
pub open spec fn digit_val(c: char) -> int {
    c as int - 48
}

/// True when every character of `s` is a decimal digit.
pub open spec fn all_digits(s: Seq<char>) -> bool {
    forall|i: int| 0 <= i < s.len() ==> char_is_digit(#[trigger] s[i])
}

/// Value of a digit string read in base ten; 0 for the empty string.
pub open spec fn digits_val(s: Seq<char>) -> int
    decreases s.len(),
{
    if s.len() == 0 {
        0
    } else {
        digits_val(s.drop_last()) * 10 + digit_val(s.last())
    }
}

/// Ten to the power `n`.
pub open spec fn pow10(n: nat) -> int
    decreases n,
{
    if n == 0 {
        1
    } else {
        10 * pow10((n - 1) as nat)
    }
}

/// Index of the first `'.'` in `s`, if any.
pub open spec fn first_dot(s: Seq<char>) -> Option<int>
    decreases s.len(),
{
    if s.len() == 0 {
        None
    } else if s[0] == '.' {
        Some(0int)
    } else {
        match first_dot(s.drop_first()) {
            None => None,
            Some(i) => Some(i + 1),
        }
    }
}

/// The integer part and fraction part of a numeric string, split at the
/// first `'.'`; a string without a dot is all integer part.
pub open spec fn number_parts(s: Seq<char>) -> (Seq<char>, Seq<char>) {
    match first_dot(s) {
        None => (s, Seq::<char>::empty()),
        Some(i) => (s.take(i), s.skip(i + 1)),
    }
}

/// True when `s` is an accepted numeric string.
pub open spec fn valid_number(s: Seq<char>) -> bool {
    let (ip, fp) = number_parts(s);
    all_digits(ip) && all_digits(fp) && ip.len() + fp.len() >= 1
}

/// Micro-unit value of the fraction part: the first six digits, padded with
/// zeros on the right when fewer are given.
pub open spec fn frac_micros(fp: Seq<char>) -> int {
    if fp.len() >= 6 {
        digits_val(fp.take(6))
    } else {
        digits_val(fp) * pow10((6 - fp.len()) as nat)
    }
}

/// Value of an accepted numeric string in micro-units.
pub open spec fn number_micros(s: Seq<char>) -> int {
    let (ip, fp) = number_parts(s);
    digits_val(ip) * 1_000_000 + frac_micros(fp)
}

/// What parsing a metric value string yields: its micro-unit value, or
/// `None` when the string is not an accepted number or does not fit.
pub open spec fn parse_micros_spec(s: Seq<char>) -> Option<u64> {
    if valid_number(s) && number_micros(s) <= u64::MAX {
        Some(number_micros(s) as u64)
    } else {
        None
    }
}

/// The uniform tolerance policy for metric values: unparsable strings count
/// as zero.
pub open spec fn micros_or_zero(s: Seq<char>) -> u64 {
    match parse_micros_spec(s) {
        Some(v) => v,
        None => 0u64,
    }
}

/// `first_dot` returns exactly the least index holding `'.'`.
proof fn lemma_first_dot_characterization(s: Seq<char>)
    ensures
        match first_dot(s) {
            None => forall|i: int| 0 <= i < s.len() ==> s[i] != '.',
            Some(i) => 0 <= i < s.len() && s[i] == '.' && forall|j: int| 0 <= j < i ==> s[j] != '.',
        },
    decreases s.len(),
{
    if s.len() > 0 && s[0] != '.' {
        lemma_first_dot_characterization(s.drop_first());
        match first_dot(s.drop_first()) {
            None => {
                assert forall|i: int| 0 <= i < s.len() implies s[i] != '.' by {
                    if i > 0 {
                        assert(s.drop_first()[i - 1] != '.');
                    }
                }
            },
            Some(i) => {
                assert(s.drop_first()[i] == '.');
                assert forall|j: int| 0 <= j < i + 1 implies s[j] != '.' by {
                    if j > 0 {
                        assert(s.drop_first()[j - 1] != '.');
                    }
                }
            },
        }
    }
}

/// A digit string's value only grows as digits are appended.
proof fn lemma_digits_val_prefix_le(s: Seq<char>, n: int)
    requires
        0 <= n <= s.len(),
        all_digits(s),
    ensures
        digits_val(s.take(n)) <= digits_val(s),
        digits_val(s) >= 0,
    decreases s.len(),
{
    if s.len() == 0 {
        assert(s.take(n) =~= s);
    } else if n == s.len() {
        assert(s.take(n) =~= s);
        lemma_digits_val_prefix_le(s.drop_last(), s.len() - 1);
    } else {
        lemma_digits_val_prefix_le(s.drop_last(), n);
        assert(s.drop_last().take(n) =~= s.take(n));
    }
}

/// Finds the first `'.'` in `s`, as `first_dot` describes.
fn find_dot(s: &str) -> (r: Option<usize>)
    ensures
        match r {
            None => first_dot(s@) is None,
            Some(i) => first_dot(s@) == Some(i as int),
        },
{
    proof {
        lemma_first_dot_characterization(s@);
    }
    let n = s.unicode_len();
    for i in 0..n
        invariant
            n == s@.len(),
            forall|j: int| 0 <= j < i ==> s@[j] != '.',
    {
        let c = s.get_char(i);
        if c == '.' {
            proof {
                lemma_first_dot_characterization(s@);
            }
            return Some(i);
        }
    }
    None
}

/// Checks that every character of `s@` between `from` and `to` is a digit.
pub(crate) fn check_digits(s: &str, from: usize, to: usize) -> (r: bool)
    requires
        from <= to <= s@.len(),
    ensures
        r == all_digits(s@.subrange(from as int, to as int)),
{
    let ghost part = s@.subrange(from as int, to as int);
    for i in from..to
        invariant
            from <= to <= s@.len(),
            part == s@.subrange(from as int, to as int),
            forall|j: int| 0 <= j < i - from ==> char_is_digit(#[trigger] part[j]),
    {
        let c = s.get_char(i);
        if !(48 <= c as u32 && c as u32 <= 57) {
            assert(part[i - from] == s@[i as int]);
            return false;
        }
        assert(part[i - from] == s@[i as int]);
    }
    true
}

/// Reads the digit string `s@.subrange(from, to)` in base ten, or `None`
/// when its value does not fit in `u64`.
pub(crate) fn parse_digits_u64(s: &str, from: usize, to: usize) -> (r: Option<u64>)
    requires
        from <= to <= s@.len(),
        all_digits(s@.subrange(from as int, to as int)),
    ensures
        match r {
            Some(v) => v == digits_val(s@.subrange(from as int, to as int)),
            None => digits_val(s@.subrange(from as int, to as int)) > u64::MAX,
        },
{
    let ghost part = s@.subrange(from as int, to as int);
    let mut acc: u64 = 0;
    for i in from..to
        invariant
            from <= to <= s@.len(),
            part == s@.subrange(from as int, to as int),
            all_digits(part),
            acc == digits_val(part.take(i - from)),
    {
        let c = s.get_char(i);
        assert(part[i - from] == s@[i as int]);
        let d = (c as u32 - 48) as u64;
        assert(0 <= d <= 9);
        if acc > (u64::MAX - d) / 10 {
            proof {
                assert(acc * 10 + d > u64::MAX) by (nonlinear_arith)
                    requires
                        acc > (u64::MAX - d) / 10,
                        0 <= d <= 9,
                        u64::MAX == 0xffff_ffff_ffff_ffff,
                ;
                assert(part.take(i - from + 1).drop_last() =~= part.take(i - from));
                assert(digits_val(part.take(i - from + 1)) == acc * 10 + d);
                lemma_digits_val_prefix_le(part, i - from + 1);
            }
            return None;
        }
        proof {
            assert(acc * 10 + d <= u64::MAX) by (nonlinear_arith)
                requires
                    acc <= (u64::MAX - d) / 10,
                    0 <= d <= 9,
                    u64::MAX == 0xffff_ffff_ffff_ffff,
            ;
            assert(part.take(i - from + 1).drop_last() =~= part.take(i - from));
        }
        acc = acc * 10 + d;
    }
    proof {
        assert(part.take(to - from) =~= part);
    }
    Some(acc)
}

/// Parses a metric value string into micro-units, as `parse_micros_spec`
/// describes.
pub fn parse_micros(s: &str) -> (r: Option<u64>)
    ensures
        r == parse_micros_spec(s@),
{
    let n = s.unicode_len();
    proof {
        lemma_first_dot_characterization(s@);
    }
    let (int_from, int_to, frac_from, frac_to) = match find_dot(s) {
        None => (0usize, n, n, n),
        Some(i) => (0usize, i, i + 1, n),
    };
    proof {
        match first_dot(s@) {
            None => {
                assert(s@.subrange(0, n as int) =~= s@);
                assert(s@.subrange(n as int, n as int) =~= Seq::<char>::empty());
            },
            Some(i) => {
                assert(s@.subrange(0, i) =~= s@.take(i));
                assert(s@.subrange(i + 1, n as int) =~= s@.skip(i + 1));
            },
        }
    }
    let ghost ip = number_parts(s@).0;
    let ghost fp = number_parts(s@).1;
    if !check_digits(s, int_from, int_to) {
        return None;
    }
    if !check_digits(s, frac_from, frac_to) {
        return None;
    }
    if int_to - int_from == 0 && frac_to - frac_from == 0 {
        return None;
    }
    assert(valid_number(s@));
    let int_val = match parse_digits_u64(s, int_from, int_to) {
        Some(v) => v,
        None => {
            proof {
                lemma_digits_val_prefix_le(fp, fp.len() as int);
                lemma_frac_micros_bounds(fp);
            }
            return None;
        },
    };
    let frac_len = frac_to - frac_from;
    let frac_cut = if frac_len >= 6 {
        frac_from + 6
    } else {
        frac_to
    };
    let ghost fcut = if fp.len() >= 6 {
        fp.take(6)
    } else {
        fp
    };
    proof {
        if fp.len() >= 6 {
            assert(s@.subrange(frac_from as int, frac_from + 6) =~= fp.take(6));
        }
        assert forall|j: int| 0 <= j < fcut.len() implies char_is_digit(#[trigger] fcut[j]) by {
            assert(fcut[j] == fp[j]);
        }
        lemma_digits_val_bounded(fcut);
        lemma_pow10_le(fcut.len() as nat, 6nat);
        lemma_pow10_vals();
    }
    let frac_digits = match parse_digits_u64(s, frac_from, frac_cut) {
        Some(v) => v,
        None => {
            // A value of at most six digits always fits in u64.
            assert(false);
            0
        },
    };
    let fm: u64 = if frac_len >= 6 {
        frac_digits
    } else {
        let mut scale: u64 = 1;
        let mut k: usize = frac_len;
        while k < 6
            invariant
                frac_len <= k <= 6,
                frac_len == fp.len(),
                scale == pow10((k - frac_len) as nat),
                1 <= scale <= 1_000_000,
            decreases 6 - k,
        {
            proof {
                lemma_pow10_step((k - frac_len) as nat);
                lemma_pow10_le((k - frac_len) as nat, 5nat);
                lemma_pow10_vals();
            }
            scale = scale * 10;
            k = k + 1;
        }
        proof {
            lemma_pow10_mul(fp.len() as nat, (6 - fp.len()) as nat);
            assert(digits_val(fp) * scale <= 1_000_000) by (nonlinear_arith)
                requires
                    0 <= digits_val(fp) < pow10(fp.len() as nat),
                    scale == pow10((6 - fp.len()) as nat),
                    scale >= 1,
                    pow10(fp.len() as nat) * pow10((6 - fp.len()) as nat) == 1_000_000,
            ;
        }
        frac_digits * scale
    };
    assert(fm == frac_micros(fp));
    proof {
        lemma_frac_micros_bounds(fp);
    }
    match int_val.checked_mul(1_000_000) {
        Some(scaled) => match scaled.checked_add(fm) {
            Some(total) => Some(total),
            None => None,
        },
        None => {
            proof {
                assert(int_val * 1_000_000 > u64::MAX ==> number_micros(s@) > u64::MAX);
            }
            None
        },
    }
}

/// `digits_val` of an `n`-digit string lies below ten to the `n`.
pub(crate) proof fn lemma_digits_val_bounded(s: Seq<char>)
    requires
        all_digits(s),
    ensures
        0 <= digits_val(s) < pow10(s.len() as nat),
    decreases s.len(),
{
    if s.len() > 0 {
        lemma_digits_val_bounded(s.drop_last());
        assert(digits_val(s.drop_last()) * 10 <= (pow10((s.len() - 1) as nat) - 1) * 10)
            by (nonlinear_arith)
            requires
                digits_val(s.drop_last()) <= pow10((s.len() - 1) as nat) - 1,
        ;
    }
}

/// The small powers of ten that the fixed-point scale uses.
pub(crate) proof fn lemma_pow10_vals()
    ensures
        pow10(0) == 1,
        pow10(1) == 10,
        pow10(2) == 100,
        pow10(3) == 1_000,
        pow10(4) == 10_000,
        pow10(5) == 100_000,
        pow10(6) == 1_000_000,
{
    assert(pow10(0) == 1);
    assert(pow10(1) == 10);
    assert(pow10(2) == 100);
    assert(pow10(3) == 1_000);
    assert(pow10(4) == 10_000);
    assert(pow10(5) == 100_000);
    assert(pow10(6) == 1_000_000);
}

proof fn lemma_pow10_step(n: nat)
    ensures
        pow10(n + 1) == pow10(n) * 10,
        pow10(n) >= 1,
    decreases n,
{
    if n > 0 {
        lemma_pow10_step((n - 1) as nat);
    }
}

pub(crate) proof fn lemma_pow10_le(a: nat, b: nat)
    requires
        a <= b,
    ensures
        1 <= pow10(a) <= pow10(b),
    decreases b,
{
    if a < b && b > 0 {
        lemma_pow10_le(a, (b - 1) as nat);
        lemma_pow10_step((b - 1) as nat);
    } else {
        lemma_pow10_step(a);
    }
}

proof fn lemma_pow10_mul(a: nat, b: nat)
    ensures
        pow10(a) * pow10(b) == pow10(a + b),
    decreases a,
{
    if a == 0 {
    } else {
        lemma_pow10_mul((a - 1) as nat, b);
        assert(pow10(a) * pow10(b) == 10 * (pow10((a - 1) as nat) * pow10(b)))
            by (nonlinear_arith)
            requires
                pow10(a) == 10 * pow10((a - 1) as nat),
        ;
    }
}

/// The fraction part of an accepted number contributes less than one whole
/// unit of micro-units.
proof fn lemma_frac_micros_bounds(fp: Seq<char>)
    requires
        all_digits(fp),
    ensures
        0 <= frac_micros(fp) < 1_000_000,
{
    if fp.len() >= 6 {
        assert forall|j: int| 0 <= j < fp.take(6).len() implies char_is_digit(
            #[trigger] fp.take(6)[j],
        ) by {
            assert(fp.take(6)[j] == fp[j]);
        }
        lemma_digits_val_bounded(fp.take(6));
        lemma_pow10_vals();
    } else {
        lemma_digits_val_bounded(fp);
        lemma_pow10_le(0nat, (6 - fp.len()) as nat);
        lemma_pow10_mul(fp.len() as nat, (6 - fp.len()) as nat);
        lemma_pow10_vals();
        assert(digits_val(fp) * pow10((6 - fp.len()) as nat) < pow10(fp.len() as nat) * pow10(
            (6 - fp.len()) as nat,
        )) by (nonlinear_arith)
            requires
                digits_val(fp) < pow10(fp.len() as nat),
                pow10((6 - fp.len()) as nat) >= 1,
        ;
        assert(digits_val(fp) * pow10((6 - fp.len()) as nat) >= 0) by (nonlinear_arith)
            requires
                digits_val(fp) >= 0,
                pow10((6 - fp.len()) as nat) >= 1,
        ;
    }
}

/// Parses a metric value string, substituting zero for anything unparsable.
pub fn micros_or_default(s: &str) -> (r: u64)
    ensures
        r == micros_or_zero(s@),
{
    match parse_micros(s) {
        Some(v) => v,
        None => 0,
    }
}

/// What parsing a plain digit string as a `u32` yields.
pub open spec fn parse_u32_spec(s: Seq<char>) -> Option<u32> {
    if all_digits(s) && s.len() >= 1 && digits_val(s) <= u32::MAX {
        Some(digits_val(s) as u32)
    } else {
        None
    }
}

/// Parses a string of decimal digits into a `u32`; `None` when the string is
/// empty, holds a non-digit, or does not fit.
pub fn parse_u32(s: &str) -> (r: Option<u32>)
    ensures
        r == parse_u32_spec(s@),
{
    let n = s.unicode_len();
    proof {
        assert(s@.subrange(0, n as int) =~= s@);
    }
    if !check_digits(s, 0, n) {
        return None;
    }
    if n == 0 {
        return None;
    }
    match parse_digits_u64(s, 0, n) {
        Some(v) => {
            if v <= 0xffff_ffff {
                Some(v as u32)
            } else {
                None
            }
        },
        None => None,
    }
}

/// A mathematical total clamped into a `u64`.
pub open spec fn sat64(x: int) -> u64 {
    if x > u64::MAX {
        u64::MAX
    } else if x < 0 {
        0u64
    } else {
        x as u64
    }
}

/// A mathematical total clamped into a `u32`.
pub open spec fn sat32(x: int) -> u32 {
    if x > u32::MAX {
        u32::MAX
    } else if x < 0 {
        0u32
    } else {
        x as u32
    }
}

/// A micro-unit value turned into a whole-unit count held in a `u32`,
/// truncating the fraction and saturating at the type's top.
pub open spec fn count_u32_from_micros(v: u64) -> u32 {
    if v / 1_000_000 > 0xffff_ffff {
        0xffff_ffffu32
    } else {
        (v / 1_000_000) as u32
    }
}

/// Turns a micro-unit value into a whole-unit `u32` count, truncating the
/// fraction and saturating at the type's top.
pub fn to_count_u32(v: u64) -> (r: u32)
    ensures
        r == count_u32_from_micros(v),
{
    let t = v / 1_000_000;
    if t > 0xffff_ffff {
        0xffff_ffff
    } else {
        t as u32
    }
}

/// Compares two string slices by their character sequences.
pub fn str_eq(a: &str, b: &str) -> (r: bool)
    ensures
        r == (a@ == b@),
{
    let left = String::from_str(a);
    let right = String::from_str(b);
    left == right
}

/// The decimal digit characters of `n`, most significant first.
pub open spec fn dec_chars(n: int) -> Seq<char>
    decreases n,
{
    if n < 10 {
        seq![digit_char(n)]
    } else {
        dec_chars(n / 10).push(digit_char(n % 10))
    }
}

/// The character for one decimal digit.
pub open spec fn digit_char(d: int) -> char {
    if d == 0 {
        '0'
    } else if d == 1 {
        '1'
    } else if d == 2 {
        '2'
    } else if d == 3 {
        '3'
    } else if d == 4 {
        '4'
    } else if d == 5 {
        '5'
    } else if d == 6 {
        '6'
    } else if d == 7 {
        '7'
    } else if d == 8 {
        '8'
    } else {
        '9'
    }
}

/// One decimal digit as a string slice.
fn digit_str(d: u64) -> (r: &'static str)
    requires
        d < 10,
    ensures
        r@ =~= seq![digit_char(d as int)],
{
    proof {
        reveal_strlit("0");
        reveal_strlit("1");
        reveal_strlit("2");
        reveal_strlit("3");
        reveal_strlit("4");
        reveal_strlit("5");
        reveal_strlit("6");
        reveal_strlit("7");
        reveal_strlit("8");
        reveal_strlit("9");
    }
    if d == 0 {
        "0"
    } else if d == 1 {
        "1"
    } else if d == 2 {
        "2"
    } else if d == 3 {
        "3"
    } else if d == 4 {
        "4"
    } else if d == 5 {
        "5"
    } else if d == 6 {
        "6"
    } else if d == 7 {
        "7"
    } else if d == 8 {
        "8"
    } else {
        "9"
    }
}

/// Appends the decimal digits of `n` to `out`.
pub fn push_decimal(out: &mut String, n: u64)
    ensures
        final(out)@ == old(out)@ + dec_chars(n as int),
    decreases n,
{
    if n >= 10 {
        push_decimal(out, n / 10);
        out.append(digit_str(n % 10));
        proof {
            assert(out@ =~= old(out)@ + dec_chars(n as int));
        }
    } else {
        out.append(digit_str(n));
        proof {
            assert(out@ =~= old(out)@ + dec_chars(n as int));
        }
    }
}

/// The decimal digits of `n` as a fresh string.
pub fn u64_to_string(n: u64) -> (r: String)
    ensures
        r@ == dec_chars(n as int),
{
    let mut out = String::new();
    push_decimal(&mut out, n);
    proof {
        assert(out@ =~= dec_chars(n as int));
    }
    out
}

} // verus!
