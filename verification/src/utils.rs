//! The human-readable size parser.
//!
//! Autoindex pages print sizes such as `10K` or `2.5M`. The parser accepts an
//! optionally signed decimal number with at most one fractional point,
//! followed by an optional unit letter (`B`, `K`, `M`, `G`, `T`, in either
//! case; no letter means bytes), surrounded by optional ASCII whitespace. The
//! result is the exact value times the unit's power of 1024, truncated to an
//! integer and saturated at `usize::MAX`. Negative non-zero values, unknown
//! units and malformed numbers are rejected.

use vstd::prelude::*;
use vstd::arithmetic::div_mod::{
    lemma_div_denominator, lemma_div_is_ordered, lemma_div_multiples_vanish_fancy,
    lemma_fundamental_div_mod,
};
use vstd::arithmetic::mul::{
    lemma_mul_inequality, lemma_mul_nonnegative, lemma_mul_strictly_positive,
};
use vstd::string::StrSliceExecFns;

use crate::strings::{find_char, is_ascii_space, is_space_char, lemma_find_char_first};

verus! {

/// Number of leading ASCII whitespace characters of `s`.
pub open spec fn first_non_space(s: Seq<char>) -> int
    decreases s.len(),
{
    if s.len() == 0 || !is_ascii_space(s[0]) {
        0
    } else {
        1 + first_non_space(s.skip(1))
    }
}

/// One past the last non-whitespace character of `s` (0 if all whitespace).
pub open spec fn last_non_space(s: Seq<char>) -> int
    decreases s.len(),
{
    if s.len() == 0 {
        0
    } else if !is_ascii_space(s[s.len() - 1]) {
        s.len() as int
    } else {
        last_non_space(s.drop_last())
    }
}

/// `s` with leading and trailing ASCII whitespace removed.
pub open spec fn trim_spec(s: Seq<char>) -> Seq<char> {
    if first_non_space(s) == s.len() {
        Seq::empty()
    } else {
        s.subrange(first_non_space(s), last_non_space(s))
    }
}

proof fn lemma_first_non_space(s: Seq<char>, lo: int)
    requires
        0 <= lo <= s.len(),
        forall|j: int| 0 <= j < lo ==> is_ascii_space(s[j]),
        lo < s.len() ==> !is_ascii_space(s[lo]),
    ensures
        first_non_space(s) == lo,
    decreases s.len(),
{
    if s.len() == 0 || !is_ascii_space(s[0]) {
    } else {
        lemma_first_non_space(s.skip(1), lo - 1);
    }
}

proof fn lemma_last_non_space(s: Seq<char>, hi: int)
    requires
        0 <= hi <= s.len(),
        forall|j: int| hi <= j < s.len() ==> is_ascii_space(s[j]),
        hi > 0 ==> !is_ascii_space(s[hi - 1]),
    ensures
        last_non_space(s) == hi,
    decreases s.len(),
{
    if s.len() == 0 {
    } else if !is_ascii_space(s[s.len() - 1]) {
    } else {
        lemma_last_non_space(s.drop_last(), hi);
    }
}

/// Decimal digit test.
pub open spec fn is_digit(c: char) -> bool {
    48 <= (c as u32) <= 57
}

/// The numeric value of a decimal digit character.
pub open spec fn digit_val(c: char) -> int {
    (c as u32) - 48
}

/// ASCII letter test.
pub open spec fn is_ascii_letter(c: char) -> bool {
    (65 <= (c as u32) <= 90) || (97 <= (c as u32) <= 122)
}

/// The byte multiplier of a unit letter, or `None` for an unknown unit.
/// Letters are recognised in either case; `B` means plain bytes.
pub open spec fn unit_multiplier(c: char) -> Option<u64> {
    if c == 'B' || c == 'b' {
        Some(1)
    } else if c == 'K' || c == 'k' {
        Some(1024)
    } else if c == 'M' || c == 'm' {
        Some(0x100000)
    } else if c == 'G' || c == 'g' {
        Some(0x40000000)
    } else if c == 'T' || c == 't' {
        Some(0x10000000000)
    } else {
        None
    }
}

/// The value of a sequence of decimal digit characters, most significant
/// first. (Characters outside the digit range contribute their offset from
/// `'0'`; the parser only applies this to digit characters.)
pub open spec fn digits_val(ds: Seq<char>) -> int
    decreases ds.len(),
{
    if ds.len() == 0 {
        0
    } else {
        digits_val(ds.drop_last()) * 10 + digit_val(ds.last())
    }
}

/// 10 to the power `k`.
pub open spec fn pow10(k: nat) -> int
    decreases k,
{
    if k == 0 {
        1
    } else {
        10 * pow10((k - 1) as nat)
    }
}

/// The numeric grammar the parser accepts (after the sign is removed):
/// digits with at most one decimal point, and at least one digit.
#[verifier::opaque]
pub open spec fn size_grammar_ok(body: Seq<char>) -> bool {
    &&& forall|t: int| 0 <= t < body.len() ==> is_digit(#[trigger] body[t]) || body[t] == '.'
    &&& forall|i: int, j: int|
        0 <= i < body.len() && 0 <= j < body.len() && #[trigger] body[i] == '.' && #[trigger] body[j]
            == '.' ==> i == j
    &&& exists|t: int| 0 <= t < body.len() && is_digit(#[trigger] body[t])
}

/// The numeric part of `t` and its multiplier: a trailing ASCII letter is
/// the unit (`None` if unknown); otherwise the whole of `t` counts in bytes.
pub open spec fn split_unit(t: Seq<char>) -> (Seq<char>, Option<u64>) {
    if t.len() > 0 && is_ascii_letter(t.last()) {
        (t.drop_last(), unit_multiplier(t.last()))
    } else {
        (t, Some(1))
    }
}

/// The digits before and after the decimal point of `body`.
pub open spec fn num_parts(body: Seq<char>) -> (Seq<char>, Seq<char>) {
    let dp = find_char(body, '.');
    if 0 <= dp < body.len() {
        (body.take(dp), body.skip(dp + 1))
    } else {
        (body, Seq::empty())
    }
}

/// The exact byte count of a parsed number: the rational value
/// `int.frac` times `mult`, truncated.
pub open spec fn exact_bytes(int_part: Seq<char>, frac: Seq<char>, mult: u64) -> int {
    (digits_val(int_part) * pow10(frac.len()) + digits_val(frac)) * mult / pow10(frac.len())
}

/// The value of the numeric text `body` times `mult`: `None` if the grammar
/// rejects `body` or a negative non-zero value is written, otherwise the
/// truncated byte count saturated at `usize::MAX`.
pub open spec fn spec_num_value(body: Seq<char>, mult: u64, neg: bool) -> Option<usize> {
    if !size_grammar_ok(body) {
        Option::None
    } else {
        let (int_part, frac) = num_parts(body);
        let exact = exact_bytes(int_part, frac, mult);
        if neg && exact_scaled(int_part, frac) > 0 {
            Option::None
        } else if exact > usize::MAX {
            Option::Some(usize::MAX)
        } else {
            Option::Some(exact as usize)
        }
    }
}

/// What `parse_file_size` returns on the view of its input.
pub open spec fn parse_size_spec(s: Seq<char>) -> Option<usize> {
    let t = trim_spec(s);
    let (num, multopt) = split_unit(t);
    match multopt {
        Option::None => Option::None,
        Option::Some(mult) => {
            let signed = num.len() > 0 && (num[0] == '+' || num[0] == '-');
            let body = if signed {
                num.skip(1)
            } else {
                num
            };
            spec_num_value(body, mult, num.len() > 0 && num[0] == '-')
        },
    }
}

/// The scaled integer numerator of the parsed number.
pub open spec fn exact_scaled(int_part: Seq<char>, frac: Seq<char>) -> int {
    digits_val(int_part) * pow10(frac.len()) + digits_val(frac)
}

proof fn lemma_pow10_pos(k: nat)
    ensures
        pow10(k) >= 1,
    decreases k,
{
    if k > 0 {
        lemma_pow10_pos((k - 1) as nat);
    }
}

proof fn lemma_digits_val_nonneg(ds: Seq<char>)
    requires
        forall|t: int| 0 <= t < ds.len() ==> is_digit(#[trigger] ds[t]),
    ensures
        digits_val(ds) >= 0,
    decreases ds.len(),
{
    if ds.len() > 0 {
        lemma_digits_val_nonneg(ds.drop_last());
    }
}

proof fn lemma_digits_val_zero(ds: Seq<char>)
    requires
        forall|t: int| 0 <= t < ds.len() ==> digit_val(#[trigger] ds[t]) == 0,
    ensures
        digits_val(ds) == 0,
    decreases ds.len(),
{
    if ds.len() > 0 {
        lemma_digits_val_zero(ds.drop_last());
    }
}

proof fn lemma_digits_val_pos(ds: Seq<char>)
    requires
        forall|t: int| 0 <= t < ds.len() ==> is_digit(#[trigger] ds[t]),
        exists|t: int| 0 <= t < ds.len() && digit_val(#[trigger] ds[t]) > 0,
    ensures
        digits_val(ds) > 0,
    decreases ds.len(),
{
    let t = choose|t: int| 0 <= t < ds.len() && digit_val(#[trigger] ds[t]) > 0;
    if t == ds.len() - 1 {
        lemma_digits_val_nonneg(ds.drop_last());
    } else {
        assert(ds.drop_last()[t] == ds[t]);
        lemma_digits_val_pos(ds.drop_last());
        assert(digit_val(ds.last()) >= 0);
    }
}

/// Prepending a digit multiplies the remaining digits' weight by ten for
/// every following position.
proof fn lemma_digits_val_first(ds: Seq<char>)
    requires
        ds.len() > 0,
    ensures
        digits_val(ds) == digit_val(ds[0]) * pow10((ds.len() - 1) as nat) + digits_val(ds.skip(1)),
    decreases ds.len(),
{
    if ds.len() == 1 {
        assert(ds.drop_last().len() == 0);
        assert(ds.skip(1).len() == 0);
        assert(digits_val(ds.drop_last()) == 0);
        assert(digits_val(ds.skip(1)) == 0);
        assert(pow10(0) == 1);
        assert(ds.last() == ds[0]);
        assert(digits_val(ds) == digit_val(ds[0]));
    } else {
        lemma_digits_val_first(ds.drop_last());
        assert(ds.drop_last()[0] == ds[0]);
        assert(ds.drop_last().skip(1) =~= ds.skip(1).drop_last());
        assert(ds.skip(1).last() == ds.last());
        assert(digits_val(ds) == digits_val(ds.drop_last()) * 10 + digit_val(ds.last()));
        assert(digits_val(ds.drop_last()) == digit_val(ds[0]) * pow10((ds.len() - 2) as nat)
            + digits_val(ds.skip(1).drop_last()));
        assert(digit_val(ds[0]) * pow10((ds.len() - 1) as nat) == digit_val(ds[0]) * pow10(
            (ds.len() - 2) as nat,
        ) * 10) by {
            assert(pow10((ds.len() - 1) as nat) == 10 * pow10((ds.len() - 2) as nat));
            assert(digit_val(ds[0]) * (10 * pow10((ds.len() - 2) as nat)) == digit_val(ds[0])
                * pow10((ds.len() - 2) as nat) * 10) by (nonlinear_arith);
        }
        assert(digits_val(ds.skip(1)) == digits_val(ds.skip(1).drop_last()) * 10 + digit_val(
            ds.last(),
        ));
    }
}

/// Dividing a multiple of `p` plus a remainder term by `p`.
proof fn lemma_div_add_multiple(a: int, b: int, p: int)
    requires
        0 <= a,
        0 <= b,
        0 < p,
    ensures
        (a * p + b) / p == a + b / p,
{
    lemma_fundamental_div_mod(b, p);
    assert(a * p + b == p * (a + b / p) + (b % p)) by (nonlinear_arith)
        requires
            b == p * (b / p) + (b % p),
    ;
    lemma_div_multiples_vanish_fancy(a + b / p, b % p, p);
}

/// `exact_bytes` splits into the integer digits' contribution and the
/// fractional digits' scaled, truncated contribution.
proof fn lemma_exact_split(int_part: Seq<char>, frac: Seq<char>, mult: u64)
    requires
        forall|t: int| 0 <= t < int_part.len() ==> is_digit(#[trigger] int_part[t]),
        forall|t: int| 0 <= t < frac.len() ==> is_digit(#[trigger] frac[t]),
        1 <= mult,
    ensures
        exact_bytes(int_part, frac, mult) == digits_val(int_part) * mult + digits_val(frac) * mult
            / pow10(frac.len()),
        digits_val(frac) * mult / pow10(frac.len()) >= 0,
        digits_val(int_part) >= 0,
        digits_val(frac) >= 0,
        exact_bytes(int_part, frac, mult) >= digits_val(int_part),
{
    let iv = digits_val(int_part);
    let fv = digits_val(frac);
    let m = mult as int;
    let k = frac.len() as nat;
    lemma_digits_val_nonneg(int_part);
    lemma_digits_val_nonneg(frac);
    lemma_pow10_pos(k);
    let scaled = iv * pow10(k) + fv;
    assert(scaled * m == (iv * m) * pow10(k) + fv * m) by (nonlinear_arith)
        requires
            scaled == iv * pow10(k) + fv,
    ;
    lemma_mul_nonnegative(iv, m);
    lemma_mul_nonnegative(fv, m);
    lemma_div_add_multiple(iv * m, fv * m, pow10(k));
    vstd::arithmetic::div_mod::lemma_div_pos_is_pos(fv * m, pow10(k));
    lemma_mul_inequality(1, m, iv);
    assert(iv * 1 == iv);
    assert(iv * m >= 1 * iv) by (nonlinear_arith)
        requires
            iv >= 0,
            m >= 1,
    ;
}

/// If every digit is zero the scaled numerator is zero.
proof fn lemma_scaled_zero(int_part: Seq<char>, frac: Seq<char>)
    requires
        forall|t: int| 0 <= t < int_part.len() ==> digit_val(#[trigger] int_part[t]) == 0,
        forall|t: int| 0 <= t < frac.len() ==> digit_val(#[trigger] frac[t]) == 0,
    ensures
        exact_scaled(int_part, frac) == 0,
{
    lemma_digits_val_zero(int_part);
    lemma_digits_val_zero(frac);
    assert(digits_val(int_part) * pow10(frac.len()) == 0) by (nonlinear_arith)
        requires
            digits_val(int_part) == 0,
    ;
}

/// If some digit is non-zero the scaled numerator is positive.
proof fn lemma_scaled_pos(int_part: Seq<char>, frac: Seq<char>)
    requires
        forall|t: int| 0 <= t < int_part.len() ==> is_digit(#[trigger] int_part[t]),
        forall|t: int| 0 <= t < frac.len() ==> is_digit(#[trigger] frac[t]),
        (exists|t: int| 0 <= t < int_part.len() && digit_val(#[trigger] int_part[t]) > 0)
            || (exists|t: int| 0 <= t < frac.len() && digit_val(#[trigger] frac[t]) > 0),
    ensures
        exact_scaled(int_part, frac) > 0,
{
    lemma_digits_val_nonneg(int_part);
    lemma_digits_val_nonneg(frac);
    lemma_pow10_pos(frac.len());
    lemma_mul_nonnegative(digits_val(int_part), pow10(frac.len()));
    if exists|t: int| 0 <= t < int_part.len() && digit_val(#[trigger] int_part[t]) > 0 {
        lemma_digits_val_pos(int_part);
        lemma_mul_strictly_positive(digits_val(int_part), pow10(frac.len()));
    } else {
        lemma_digits_val_pos(frac);
    }
}

/// The bounds of the trimmed region of `s`: the first index past the leading
/// ASCII whitespace and one past the last non-whitespace character.
#[verifier::loop_isolation(false)]
fn trim_bounds(s: &str) -> (r: (usize, usize))
    ensures
        r.0 == first_non_space(s@),
        0 <= r.0 <= s@.len(),
        r.0 < s@.len() ==> r.0 < r.1 <= s@.len() && r.1 == last_non_space(s@),
{
    let len = s.unicode_len();
    let mut lo: usize = 0;
    while lo < len && is_space_char(s.get_char(lo))
        invariant
            lo <= len,
            forall|j: int| 0 <= j < lo ==> is_ascii_space(s@[j]),
        decreases len - lo,
    {
        lo = lo + 1;
    }
    proof {
        lemma_first_non_space(s@, lo as int);
    }
    if lo == len {
        return (lo, lo);
    }
    let mut hi: usize = len;
    while hi > lo && is_space_char(s.get_char(hi - 1))
        invariant
            lo <= hi <= len,
            forall|j: int| hi <= j < len ==> is_ascii_space(s@[j]),
        decreases hi,
    {
        hi = hi - 1;
    }
    proof {
        assert(hi > lo);
        lemma_last_non_space(s@, hi as int);
    }
    (lo, hi)
}

/// The value of the digit run `[intlo, inthi)` of `s`, most significant digit
/// first; the flag reports that the value exceeds `u64::MAX`.
#[verifier::loop_isolation(false)]
fn int_digits_value(s: &str, intlo: usize, inthi: usize) -> (r: (u64, bool))
    requires
        intlo <= inthi <= s@.len(),
        forall|t: int| intlo <= t < inthi ==> is_digit(#[trigger] s@[t]),
    ensures
        !r.1 ==> r.0 == digits_val(s@.subrange(intlo as int, inthi as int)),
        r.1 ==> digits_val(s@.subrange(intlo as int, inthi as int)) > u64::MAX,
{
    let mut acc: u64 = 0;
    let mut of = false;
    let mut i2 = intlo;
    while i2 < inthi
        invariant
            intlo <= i2 <= inthi,
            !of ==> acc == digits_val(s@.subrange(intlo as int, i2 as int)),
            of ==> digits_val(s@.subrange(intlo as int, i2 as int)) > u64::MAX,
        decreases inthi - i2,
    {
        let c = s.get_char(i2);
        assert(is_digit(s@[i2 as int]));
        let d = (c as u32 - 48) as u64;
        let ghost prefix = s@.subrange(intlo as int, i2 as int);
        let ghost nextp = s@.subrange(intlo as int, i2 + 1);
        proof {
            assert(nextp.drop_last() =~= prefix);
            assert(nextp.last() == s@[i2 as int]);
            assert(digits_val(nextp) == digits_val(prefix) * 10 + digit_val(s@[i2 as int]));
            assert forall|t2: int| 0 <= t2 < prefix.len() implies is_digit(
                #[trigger] prefix[t2],
            ) by {
                assert(prefix[t2] == s@[intlo + t2]);
            }
            lemma_digits_val_nonneg(prefix);
        }
        if of {
            proof {
                assert(digits_val(prefix) * 10 >= digits_val(prefix)) by (nonlinear_arith)
                    requires
                        digits_val(prefix) >= 0,
                ;
            }
        } else {
            let m10_opt = acc.checked_mul(10);
            match m10_opt {
                Some(m10) => {
                    let v_opt = m10.checked_add(d);
                    match v_opt {
                        Some(v) => {
                            acc = v;
                        },
                        None => {
                            of = true;
                        },
                    }
                },
                None => {
                    of = true;
                },
            }
        }
        i2 = i2 + 1;
    }
    (acc, of)
}

/// The fractional contribution: the value of the digit run
/// `[fraclo, frachi)` read as a fraction, times `mult`, truncated.
#[verifier::loop_isolation(false)]
#[verifier::rlimit(30)]
fn frac_scaled_value(s: &str, fraclo: usize, frachi: usize, mult: u64) -> (x: u64)
    requires
        fraclo <= frachi <= s@.len(),
        1 <= mult <= 0x10000000000u64,
        forall|t: int| fraclo <= t < frachi ==> is_digit(#[trigger] s@[t]),
    ensures
        x == digits_val(s@.subrange(fraclo as int, frachi as int)) * mult / pow10(
            (frachi - fraclo) as nat,
        ),
        x < mult,
{
    let mut x: u64 = 0;
    let mut f = frachi;
    proof {
        assert(s@.subrange(frachi as int, frachi as int) =~= Seq::<char>::empty());
        assert(pow10(0) == 1);
    }
    while f > fraclo
        invariant
            fraclo <= f <= frachi,
            x == digits_val(s@.subrange(f as int, frachi as int)) * mult / pow10(
                (frachi - f) as nat,
            ),
            x < mult,
        decreases f,
    {
        let c = s.get_char(f - 1);
        assert(is_digit(s@[f - 1]));
        let d = (c as u32 - 48) as u64;
        let ghost suffix = s@.subrange(f as int, frachi as int);
        let ghost nsuffix = s@.subrange(f - 1, frachi as int);
        let ghost ll = (frachi - f) as nat;
        proof {
            assert(nsuffix[0] == s@[f - 1]);
            assert(nsuffix.skip(1) =~= suffix);
            assert forall|t2: int| 0 <= t2 < suffix.len() implies is_digit(
                #[trigger] suffix[t2],
            ) by {
                assert(suffix[t2] == s@[f + t2]);
            }
            lemma_digits_val_first(nsuffix);
            lemma_digits_val_nonneg(suffix);
            lemma_pow10_pos(ll);
        }
        proof {
            assert(d <= 9);
            lemma_mul_inequality(d as int, 9, mult as int);
            assert(9 * (mult as int) <= 9 * 0x10000000000) by (nonlinear_arith)
                requires
                    mult <= 0x10000000000u64,
            ;
            assert(d * mult <= 9 * 0x10000000000);
        }
        let xn = (d * mult + x) / 10;
        proof {
            let dv = digit_val(s@[f - 1]);
            let sv = digits_val(suffix);
            let m = mult as int;
            let pl = pow10(ll);
            assert(digits_val(nsuffix) == dv * pl + sv);
            assert(digits_val(nsuffix) * m == (dv * m) * pl + sv * m) by (nonlinear_arith)
                requires
                    digits_val(nsuffix) == dv * pl + sv,
            ;
            lemma_mul_nonnegative(dv, m);
            lemma_mul_nonnegative(sv, m);
            lemma_div_add_multiple(dv * m, sv * m, pl);
            assert((digits_val(nsuffix) * m) / pl == dv * m + x);
            assert(digits_val(nsuffix) * m >= 0) by {
                lemma_mul_nonnegative(dv, pl);
                lemma_mul_nonnegative(digits_val(nsuffix), m);
            }
            lemma_div_denominator(digits_val(nsuffix) * m, pl, 10);
            assert(pow10(ll + 1) == 10 * pl);
            assert(pl * 10 == 10 * pl);
            assert((digits_val(nsuffix) * m) / pow10(ll + 1) == (dv * m + x as int) / 10);
            // the new value stays below the multiplier
            assert(dv * m <= 9 * m) by (nonlinear_arith)
                requires
                    dv <= 9,
                    m >= 1,
            ;
            assert(dv * m + x <= 10 * m - 1);
            assert((10 * (m - 1) + 9) / 10 == m - 1) by {
                lemma_div_multiples_vanish_fancy(m - 1, 9, 10);
            }
            assert(10 * m - 1 == 10 * (m - 1) + 9);
            lemma_div_is_ordered(dv * m + x as int, 10 * m - 1, 10);
            assert((dv * m + x as int) / 10 <= m - 1);
            assert((frachi - (f - 1)) as nat == ll + 1);
        }
        x = xn;
        f = f - 1;
    }
    x
}

/// What one scan of the numeric text found.
struct NumScan {
    /// A decimal point was seen.
    dot_found: bool,
    /// Its position (meaningful only when `dot_found`).
    dot_idx: usize,
    /// Some digit other than `0` was seen.
    nonzero: bool,
}

/// Scans `[p, numhi)` of `s` against the numeric grammar: digits with at most
/// one decimal point and at least one digit. Reports the decimal point's
/// position and whether a non-zero digit occurs.
#[verifier::loop_isolation(false)]
#[verifier::rlimit(30)]
fn scan_number(s: &str, p: usize, numhi: usize) -> (r: Option<NumScan>)
    requires
        p <= numhi <= s@.len(),
    ensures
        match r {
            Option::None => !size_grammar_ok(s@.subrange(p as int, numhi as int)),
            Option::Some(info) => {
                let body = s@.subrange(p as int, numhi as int);
                &&& size_grammar_ok(body)
                &&& info.dot_found ==> p <= info.dot_idx < numhi && s@[info.dot_idx as int]
                    == '.' && find_char(body, '.') == info.dot_idx - p && forall|t2: int|
                    p <= t2 < numhi && t2 != info.dot_idx ==> is_digit(#[trigger] s@[t2])
                &&& !info.dot_found ==> find_char(body, '.') == -1 && forall|t2: int|
                    p <= t2 < numhi ==> is_digit(#[trigger] s@[t2])
                &&& info.nonzero ==> exists|t2: int|
                    p <= t2 < numhi && is_digit(#[trigger] s@[t2]) && digit_val(s@[t2]) > 0
                &&& !info.nonzero ==> forall|t2: int|
                    p <= t2 < numhi && is_digit(#[trigger] s@[t2]) ==> digit_val(s@[t2]) == 0
            },
        },
{
    proof {
        reveal(size_grammar_ok);
    }
    let ghost body = s@.subrange(p as int, numhi as int);
    let mut j = p;
    let mut digits_seen = false;
    let mut nonzero_seen = false;
    let mut dot_found = false;
    let mut dot_idx: usize = 0;
    while j < numhi
        invariant
            p <= j <= numhi,
            forall|t2: int| p <= t2 < j ==> is_digit(#[trigger] s@[t2]) || s@[t2] == '.',
            dot_found ==> p <= dot_idx < j && s@[dot_idx as int] == '.',
            forall|t2: int| p <= t2 < j && #[trigger] s@[t2] == '.' ==> dot_found && t2 == dot_idx,
            digits_seen <==> exists|t2: int| p <= t2 < j && is_digit(#[trigger] s@[t2]),
            nonzero_seen ==> exists|t2: int|
                p <= t2 < j && is_digit(#[trigger] s@[t2]) && digit_val(s@[t2]) > 0,
            !nonzero_seen ==> forall|t2: int|
                p <= t2 < j && is_digit(#[trigger] s@[t2]) ==> digit_val(s@[t2]) == 0,
        decreases numhi - j,
    {
        let c = s.get_char(j);
        let code = c as u32;
        if 48 <= code && code <= 57 {
            digits_seen = true;
            if code > 48 {
                nonzero_seen = true;
            }
            j = j + 1;
        } else if c == '.' {
            if dot_found {
                proof {
                    reveal(size_grammar_ok);
                    assert(body[dot_idx - p] == '.');
                    assert(body[j - p] == '.');
                    assert(!size_grammar_ok(body));
                }
                return None;
            }
            dot_found = true;
            dot_idx = j;
            j = j + 1;
        } else {
            proof {
                reveal(size_grammar_ok);
                assert(body[j - p] == s@[j as int]);
                assert(!size_grammar_ok(body));
            }
            return None;
        }
    }
    if !digits_seen {
        proof {
            reveal(size_grammar_ok);
            assert forall|t2: int| 0 <= t2 < body.len() implies !is_digit(#[trigger] body[t2]) by {
                assert(body[t2] == s@[p + t2]);
            }
            assert(!size_grammar_ok(body));
        }
        return None;
    }
    proof {
        reveal(size_grammar_ok);
        assert forall|t2: int| 0 <= t2 < body.len() implies is_digit(#[trigger] body[t2])
            || body[t2] == '.' by {
            assert(body[t2] == s@[p + t2]);
        }
        assert forall|i2: int, j2: int|
            0 <= i2 < body.len() && 0 <= j2 < body.len() && #[trigger] body[i2] == '.'
                && #[trigger] body[j2] == '.' implies i2 == j2 by {
            assert(body[i2] == s@[p + i2]);
            assert(body[j2] == s@[p + j2]);
        }
        let w = choose|t2: int| p <= t2 < numhi && is_digit(#[trigger] s@[t2]);
        assert(body[w - p] == s@[w]);
        assert(size_grammar_ok(body));
        if dot_found {
            lemma_find_char_first(body, '.', dot_idx - p);
            assert forall|t2: int| p <= t2 < numhi && t2 != dot_idx implies is_digit(
                #[trigger] s@[t2],
            ) by {}
        } else {
            lemma_find_char_first(body, '.', numhi - p);
            assert forall|t2: int| p <= t2 < numhi implies is_digit(#[trigger] s@[t2]) by {}
        }
    }
    Some(NumScan { dot_found, dot_idx, nonzero: nonzero_seen })
}

/// Parses a human-readable file size (for example `"1"`, `"1B"`, `"10K"`,
/// `"1.3G"`) into a byte count, as `parse_size_spec` describes.
#[verifier::rlimit(100)]
#[verifier::loop_isolation(false)]
pub fn parse_file_size(size_str: &str) -> (r: Option<usize>)
    ensures
        r == parse_size_spec(size_str@),
{
    let ghost s = size_str@;
    let len = size_str.unicode_len();
    // Trim ASCII whitespace: [lo, hi) is the trimmed region.
    let (lo, hi) = trim_bounds(size_str);
    if lo == len {
        proof {
            reveal(size_grammar_ok);
            assert(trim_spec(s) =~= Seq::<char>::empty());
            assert(parse_size_spec(s) is None);
        }
        return None;
    }
    proof {
        assert(trim_spec(s) =~= s.subrange(lo as int, hi as int));
    }
    let ghost tr = trim_spec(s);
    // Unit letter.
    let lastc = size_str.get_char(hi - 1);
    let lcode = lastc as u32;
    let last_is_letter = (65 <= lcode && lcode <= 90) || (97 <= lcode && lcode <= 122);
    let mut numhi = hi;
    let mut mult: u64 = 1;
    proof {
        assert(tr.last() == s[hi - 1]);
    }
    if last_is_letter {
        numhi = hi - 1;
        if lastc == 'B' || lastc == 'b' {
            mult = 1;
        } else if lastc == 'K' || lastc == 'k' {
            mult = 1024;
        } else if lastc == 'M' || lastc == 'm' {
            mult = 0x100000;
        } else if lastc == 'G' || lastc == 'g' {
            mult = 0x40000000;
        } else if lastc == 'T' || lastc == 't' {
            mult = 0x10000000000;
        } else {
            proof {
                assert(split_unit(tr).1 is None);
            }
            return None;
        }
    }
    let ghost num = s.subrange(lo as int, numhi as int);
    proof {
        if last_is_letter {
            assert(tr.drop_last() =~= num);
        }
        assert(split_unit(tr) == (num, Some(mult)));
        assert(1 <= mult <= 0x10000000000u64);
    }
    // Optional sign.
    let mut p = lo;
    let mut neg = false;
    if numhi > lo {
        let c0 = size_str.get_char(lo);
        proof {
            assert(num[0] == s[lo as int]);
        }
        if c0 == '+' {
            p = lo + 1;
        } else if c0 == '-' {
            neg = true;
            p = lo + 1;
        }
    }
    let ghost body = s.subrange(p as int, numhi as int);
    proof {
        assert(neg <==> (num.len() > 0 && num[0] == '-'));
        assert((num.len() > 0 && (num[0] == '+' || num[0] == '-')) <==> p > lo);
        if p > lo {
            assert(num.skip(1) =~= body);
        }
    }
    // The numeric text itself.
    let r = parse_number(size_str, p, numhi, mult, neg);
    proof {
        assert(parse_size_spec(s) == spec_num_value(body, mult, neg));
    }
    r
}

/// Parses the numeric text `[p, numhi)` of `s` and scales it by `mult`, as
/// `spec_num_value` describes; `neg` says a minus sign preceded it.
#[verifier::rlimit(100)]
#[verifier::loop_isolation(false)]
fn parse_number(s: &str, p: usize, numhi: usize, mult: u64, neg: bool) -> (r: Option<usize>)
    requires
        p <= numhi <= s@.len(),
        1 <= mult <= 0x10000000000u64,
    ensures
        r == spec_num_value(s@.subrange(p as int, numhi as int), mult, neg),
{
    let ghost body = s@.subrange(p as int, numhi as int);
    // Grammar scan: digits, at most one dot, at least one digit.
    let scan = match scan_number(s, p, numhi) {
        Some(info) => info,
        None => {
            return None;
        },
    };
    let dot_found = scan.dot_found;
    let dot_idx = scan.dot_idx;
    let nonzero_seen = scan.nonzero;
    // Split at the dot.
    let intlo = p;
    let inthi = if dot_found {
        dot_idx
    } else {
        numhi
    };
    let fraclo = if dot_found {
        dot_idx + 1
    } else {
        numhi
    };
    let frachi = numhi;
    let ghost int_part = s@.subrange(intlo as int, inthi as int);
    let ghost frac = s@.subrange(fraclo as int, frachi as int);
    proof {
        if dot_found {
            assert(body.take(dot_idx - p) =~= int_part);
            assert(body.skip(dot_idx - p + 1) =~= frac);
        } else {
            assert(body =~= int_part);
            assert(frac =~= Seq::<char>::empty());
        }
        assert(num_parts(body) == (int_part, frac));
        assert forall|t2: int| 0 <= t2 < int_part.len() implies is_digit(
            #[trigger] int_part[t2],
        ) by {
            assert(int_part[t2] == s@[intlo + t2]);
        }
        assert forall|t2: int| 0 <= t2 < frac.len() implies is_digit(#[trigger] frac[t2]) by {
            assert(frac[t2] == s@[fraclo + t2]);
        }
    }
    let ghost exact = exact_bytes(int_part, frac, mult);
    proof {
        lemma_exact_split(int_part, frac, mult);
    }
    // Sign: a negative non-zero value is rejected.
    if neg && nonzero_seen {
        proof {
            let w = choose|t2: int|
                p <= t2 < numhi && is_digit(#[trigger] s@[t2]) && digit_val(s@[t2]) > 0;
            assert(('.' as u32) == 46);
            if w < inthi {
                assert(int_part[w - intlo] == s@[w]);
            } else {
                assert(w != dot_idx || !dot_found);
                assert(w >= fraclo);
                assert(frac[w - fraclo] == s@[w]);
            }
            lemma_scaled_pos(int_part, frac);
        }
        return None;
    }
    proof {
        if !nonzero_seen {
            assert forall|t2: int| 0 <= t2 < int_part.len() implies digit_val(
                #[trigger] int_part[t2],
            ) == 0 by {
                assert(int_part[t2] == s@[intlo + t2]);
                assert(is_digit(int_part[t2]));
            }
            assert forall|t2: int| 0 <= t2 < frac.len() implies digit_val(#[trigger] frac[t2])
                == 0 by {
                assert(frac[t2] == s@[fraclo + t2]);
                assert(is_digit(frac[t2]));
            }
            lemma_scaled_zero(int_part, frac);
        }
        assert(!(neg && exact_scaled(int_part, frac) > 0));
    }
    // Combine the two halves, saturating at `usize::MAX`.
    let total = combined_value(s, intlo, inthi, fraclo, frachi, mult);
    proof {
        if exact > usize::MAX {
            assert(spec_num_value(body, mult, neg) == Some(usize::MAX));
        } else {
            assert(spec_num_value(body, mult, neg) == Some(exact as usize));
        }
    }
    Some(total)
}

/// The saturated byte count of the split number: the integer digits
/// `[intlo, inthi)` and fractional digits `[fraclo, frachi)` of `s`, times
/// `mult`, truncated, and clamped to `usize::MAX`.
#[verifier::loop_isolation(false)]
#[verifier::rlimit(30)]
fn combined_value(s: &str, intlo: usize, inthi: usize, fraclo: usize, frachi: usize, mult: u64) -> (r:
    usize)
    requires
        intlo <= inthi <= fraclo <= frachi <= s@.len(),
        1 <= mult <= 0x10000000000u64,
        forall|t2: int| intlo <= t2 < inthi ==> is_digit(#[trigger] s@[t2]),
        forall|t2: int| fraclo <= t2 < frachi ==> is_digit(#[trigger] s@[t2]),
    ensures
        ({
            let exact = exact_bytes(
                s@.subrange(intlo as int, inthi as int),
                s@.subrange(fraclo as int, frachi as int),
                mult,
            );
            r == if exact > usize::MAX {
                usize::MAX as int
            } else {
                exact
            }
        }),
{
    let ghost int_part = s@.subrange(intlo as int, inthi as int);
    let ghost frac = s@.subrange(fraclo as int, frachi as int);
    let ghost exact = exact_bytes(int_part, frac, mult);
    proof {
        assert forall|t2: int| 0 <= t2 < int_part.len() implies is_digit(
            #[trigger] int_part[t2],
        ) by {
            assert(int_part[t2] == s@[intlo + t2]);
        }
        assert forall|t2: int| 0 <= t2 < frac.len() implies is_digit(#[trigger] frac[t2]) by {
            assert(frac[t2] == s@[fraclo + t2]);
        }
        lemma_exact_split(int_part, frac, mult);
    }
    let (acc, of) = int_digits_value(s, intlo, inthi);
    let x = frac_scaled_value(s, fraclo, frachi, mult);
    proof {
        assert(exact == digits_val(int_part) * mult + x);
    }
    if of {
        proof {
            assert(digits_val(int_part) * mult >= digits_val(int_part)) by (nonlinear_arith)
                requires
                    digits_val(int_part) >= 0,
                    mult >= 1,
            ;
            assert(exact > usize::MAX);
        }
        return usize::MAX;
    }
    let am_opt = acc.checked_mul(mult);
    let total = match am_opt {
        Some(am) => {
            let v_opt = am.checked_add(x);
            match v_opt {
                Some(v) => v,
                None => {
                    proof {
                        assert(exact > usize::MAX);
                    }
                    return usize::MAX;
                },
            }
        },
        None => {
            proof {
                assert(exact > usize::MAX);
            }
            return usize::MAX;
        },
    };
    proof {
        assert(total == exact);
    }
    if total > usize::MAX as u64 {
        proof {
            assert(exact > usize::MAX);
        }
        usize::MAX
    } else {
        total as usize
    }
}

} // verus!
