//! Exact decimal amounts: a sign, a whole number of units and a count of
//! decimal places.

use vstd::prelude::*;
use vstd::arithmetic::div_mod::{lemma_div_denominator, lemma_fundamental_div_mod, lemma_mod_multiples_basic};
use crate::text::{dec_digits, digit_char, two_digits, zero_pad, u128_text, push_two_digits};
use crate::transaction::TransactionErr;

verus! {

/// The number `(-1 if negative) * units * 10^exponent`. Parsed amounts keep at
/// most 38 significant digits and no trailing zero in `units`: `"1.50"` has 15
/// units and exponent -1, `"1e3"` has 1 unit and exponent 3.
#[derive(Debug, Clone, Copy, PartialEq, Eq, Structural)]
pub struct Amount {
    pub negative: bool,
    pub units: u128,
    pub exponent: i32,
}

pub open spec fn is_digit(c: char) -> bool {
    '0' <= c && c <= '9'
}

pub open spec fn digit_value(c: char) -> nat {
    ((c as u32) - ('0' as u32)) as nat
}

/// The value of the digits of `b` read as one numeral, any point skipped.
pub open spec fn numeral_value(b: Seq<char>) -> nat
    decreases b.len(),
{
    if b.len() == 0 {
        0
    } else if is_digit(b.last()) {
        numeral_value(b.drop_last()) * 10 + digit_value(b.last())
    } else {
        numeral_value(b.drop_last())
    }
}

pub open spec fn has_point(b: Seq<char>) -> bool {
    exists|k: int| 0 <= k < b.len() && b[k] == '.'
}

/// The number of characters after the decimal point of `b`; zero without one.
pub open spec fn frac_len(b: Seq<char>) -> nat
    decreases b.len(),
{
    if b.len() == 0 || !has_point(b) || b.last() == '.' {
        0
    } else {
        frac_len(b.drop_last()) + 1
    }
}

/// Digits with at most one decimal point, and at least one digit.
pub open spec fn is_decimal_body(b: Seq<char>) -> bool {
    &&& forall|i: int| 0 <= i < b.len() ==> is_digit(#[trigger] b[i]) || b[i] == '.'
    &&& forall|i: int, j: int|
        0 <= i < b.len() && 0 <= j < b.len() && #[trigger] b[i] == '.' && #[trigger] b[j] == '.'
            ==> i == j
    &&& exists|i: int| 0 <= i < b.len() && is_digit(#[trigger] b[i])
}

/// The length of the optional leading sign of `s`.
pub open spec fn sign_len(s: Seq<char>) -> int {
    if s.len() > 0 && (s[0] == '+' || s[0] == '-') {
        1
    } else {
        0
    }
}

pub open spec fn amount_body(s: Seq<char>) -> Seq<char> {
    s.subrange(sign_len(s), s.len() as int)
}

/// An exponent marker.
pub open spec fn is_marker(c: char) -> bool {
    c == 'e' || c == 'E'
}

/// `k` is the position of the first exponent marker in `b`.
pub open spec fn marker_at(b: Seq<char>, k: int) -> bool {
    &&& 0 <= k < b.len()
    &&& is_marker(b[k])
    &&& forall|j: int| 0 <= j < k ==> !is_marker(#[trigger] b[j])
}

pub open spec fn has_marker(b: Seq<char>) -> bool {
    exists|k: int| marker_at(b, k)
}

/// The length of the part of `b` before its exponent, if it has one.
pub open spec fn mantissa_len(b: Seq<char>) -> int {
    if has_marker(b) {
        choose|k: int| marker_at(b, k)
    } else {
        b.len() as int
    }
}

pub open spec fn mantissa(b: Seq<char>) -> Seq<char> {
    b.subrange(0, mantissa_len(b))
}

/// What follows the exponent marker of `b`.
pub open spec fn exponent_text(b: Seq<char>) -> Seq<char> {
    b.subrange(mantissa_len(b) + 1, b.len() as int)
}

/// The digits of an exponent, after its optional sign.
pub open spec fn exponent_digits(x: Seq<char>) -> Seq<char> {
    x.subrange(sign_len(x), x.len() as int)
}

/// An optional sign followed by at least one digit.
pub open spec fn is_exponent(x: Seq<char>) -> bool {
    &&& exponent_digits(x).len() >= 1
    &&& forall|i: int|
        0 <= i < exponent_digits(x).len() ==> is_digit(#[trigger] exponent_digits(x)[i])
}

/// The power of ten that the exponent of `b` gives; zero without one.
pub open spec fn exponent_value(b: Seq<char>) -> int {
    if has_marker(b) {
        let x = exponent_text(b);
        let v = numeral_value(exponent_digits(x)) as int;
        if sign_len(x) == 1 && x[0] == '-' {
            -v
        } else {
            v
        }
    } else {
        0
    }
}

/// The first 38 significant digits of `b` read as one numeral without its
/// trailing zeros, and the number of digits after them: `u * 10^z` is the
/// numeral of `b` with every digit beyond the 38th significant one read as 0.
pub open spec fn significant(b: Seq<char>) -> (nat, nat)
    decreases b.len(),
{
    if b.len() == 0 {
        (0, 0)
    } else {
        let (u, z) = significant(b.drop_last());
        let c = b.last();
        if !is_digit(c) {
            (u, z)
        } else if digit_value(c) == 0 {
            if u == 0 {
                (0, 0)
            } else {
                (u, z + 1)
            }
        } else if u * pow10(z + 1) + digit_value(c) < 100_000_000_000_000_000_000_000_000_000_000_000_000 {
            (u * pow10(z + 1) + digit_value(c), 0)
        } else {
            (u, z + 1)
        }
    }
}

/// The power of ten that the kept significant digits of `s` are scaled by.
pub open spec fn exponent_of(s: Seq<char>) -> int {
    let m = mantissa(amount_body(s));
    significant(m).1 + exponent_value(amount_body(s)) - frac_len(m)
}

/// The power of ten of the leading digit of the number `s`, where it is not 0.
pub open spec fn magnitude_of(s: Seq<char>) -> int {
    dec_digits(significant(mantissa(amount_body(s))).0).len() - 1 + exponent_of(s)
}

/// Numbers at or above `10^(MAX_MAGNITUDE + 1)` are beyond the finite range.
pub const MAX_MAGNITUDE: i32 = 308;

/// Numbers below `10^MIN_MAGNITUDE` read as zero.
pub const MIN_MAGNITUDE: i32 = -400;

/// `s` is a finite decimal number as `f64` parsing reads one, without `inf` or
/// `NaN`: an optional sign, digits with at most one point and at least one
/// digit, then optionally `e` or `E`, an optional sign and at least one digit;
/// and it is zero or below `10^309`.
pub open spec fn amount_ok(s: Seq<char>) -> bool {
    let b = amount_body(s);
    &&& is_decimal_body(mantissa(b))
    &&& has_marker(b) ==> is_exponent(exponent_text(b))
    &&& significant(mantissa(b)).0 == 0 || magnitude_of(s) <= MAX_MAGNITUDE
}

/// The amount written `s`, where `amount_ok(s)`: its first 38 significant digits
/// (later ones read as 0) without trailing zeros as units; zero below
/// `10^MIN_MAGNITUDE`.
pub open spec fn amount_of(s: Seq<char>) -> Amount {
    let u = significant(mantissa(amount_body(s))).0;
    let negative = sign_len(s) == 1 && s[0] == '-';
    if u == 0 || magnitude_of(s) < MIN_MAGNITUDE {
        Amount { negative, units: 0, exponent: 0 }
    } else {
        Amount { negative, units: u as u128, exponent: exponent_of(s) as i32 }
    }
}

pub open spec fn pow10(k: nat) -> nat
    decreases k,
{
    if k == 0 {
        1
    } else {
        10 * pow10((k - 1) as nat)
    }
}

/// `units / 10^scale` in hundredths, rounded half away from zero.
pub open spec fn rounded_cents(units: nat, scale: nat) -> nat {
    if scale <= 2 {
        units * pow10((2 - scale) as nat)
    } else {
        units / pow10((scale - 2) as nat) + if (units / pow10((scale - 3) as nat)) % 10 >= 5 {
            1nat
        } else {
            0nat
        }
    }
}

/// `k` zero digits.
pub open spec fn zeros(k: nat) -> Seq<char> {
    Seq::new(k, |i: int| '0')
}

pub open spec fn sign_text(negative: bool) -> Seq<char> {
    if negative {
        seq!['-']
    } else {
        Seq::<char>::empty()
    }
}

/// The currency text of an amount, `$` then the value with two decimals, as in
/// `$100.50` or `$-5.00`.
pub open spec fn currency_label(a: Amount) -> Seq<char> {
    if a.exponent >= 0 {
        seq!['$'] + sign_text(a.negative) + dec_digits(a.units as nat) + zeros(a.exponent as nat)
            + seq!['.', '0', '0']
    } else {
        let c = rounded_cents(a.units as nat, (-a.exponent) as nat);
        seq!['$'] + sign_text(a.negative) + dec_digits(c / 100) + seq!['.'] + two_digits(
            (c % 100) as int,
        )
    }
}

/// The plain decimal text of an amount with all its places, as in `-0.05`.
pub open spec fn decimal_label(a: Amount) -> Seq<char> {
    if a.exponent >= 0 {
        sign_text(a.negative) + dec_digits(a.units as nat) + zeros(a.exponent as nat)
    } else {
        let scale = (-a.exponent) as nat;
        let d = zero_pad(dec_digits(a.units as nat), scale + 1);
        let cut = d.len() - scale;
        sign_text(a.negative) + d.subrange(0, cut) + seq!['.'] + d.subrange(cut, d.len() as int)
    }
}

proof fn lemma_pow10_positive(k: nat)
    ensures
        pow10(k) > 0,
    decreases k,
{
    if k > 0 {
        lemma_pow10_positive((k - 1) as nat);
    }
}

proof fn lemma_div_pow10_step(x: nat, k: nat)
    ensures
        x / pow10(k) / 10 == x / pow10(k + 1),
{
    lemma_pow10_positive(k);
    lemma_div_denominator(x as int, pow10(k) as int, 10);
    assert(pow10(k + 1) == pow10(k) * 10);
}

proof fn lemma_pow10_add(a: nat, b: nat)
    ensures
        pow10(a + b) == pow10(a) * pow10(b),
    decreases a,
{
    if a > 0 {
        let a1 = (a - 1) as nat;
        lemma_pow10_add(a1, b);
        assert(pow10(a) == 10 * pow10(a1));
        assert((a + b - 1) as nat == a1 + b);
        assert(pow10(a + b) == 10 * pow10(a1 + b));
        let x = pow10(a1);
        let y = pow10(b);
        assert(10 * (x * y) == (10 * x) * y) by (nonlinear_arith);
        assert(pow10(a) * pow10(b) == (10 * x) * y);
    } else {
        assert(pow10(0) == 1);
        assert(a + b == b);
    }
}

proof fn lemma_pow10_mono(a: nat, b: nat)
    requires
        a <= b,
    ensures
        pow10(a) <= pow10(b),
        a < b ==> pow10(a) * 10 <= pow10(b),
    decreases b,
{
    if a < b {
        lemma_pow10_mono(a, (b - 1) as nat);
        lemma_pow10_positive(a);
    }
}

/// The kept digits stay below `10^38` and end in a non-zero digit unless they
/// are zero, in which case nothing follows them.
pub proof fn lemma_significant_shape(b: Seq<char>)
    ensures
        significant(b).0 < 100_000_000_000_000_000_000_000_000_000_000_000_000,
        significant(b).0 == 0 ==> significant(b).1 == 0,
        significant(b).0 == 0 || significant(b).0 % 10 != 0,
    decreases b.len(),
{
    if b.len() > 0 {
        let b0 = b.drop_last();
        lemma_significant_shape(b0);
        let u = significant(b0).0;
        let z = significant(b0).1;
        let c = b.last();
        if is_digit(c) && digit_value(c) != 0 {
            let d = digit_value(c);
            let v = u * pow10(z + 1) + d;
            if v < 100_000_000_000_000_000_000_000_000_000_000_000_000 {
                assert(d < 10);
                let p = pow10(z);
                assert(pow10(z + 1) == 10 * p);
                let m = u * p;
                assert(u * (10 * p) == m * 10) by (nonlinear_arith)
                    requires
                        m == u * p,
                ;
                assert((m * 10 + d) % 10 == d) by (nonlinear_arith)
                    requires
                        0 < d < 10,
                ;
            }
        }
    }
}

/// Where no marker comes before `j` and one stands at `j` (or `j` is the end),
/// the mantissa is the first `j` characters.
proof fn lemma_mantissa_len(b: Seq<char>, j: int)
    requires
        0 <= j <= b.len(),
        forall|k: int| 0 <= k < j ==> !is_marker(#[trigger] b[k]),
        j == b.len() || is_marker(b[j]),
    ensures
        mantissa_len(b) == j,
        has_marker(b) <==> j < b.len(),
{
    if j < b.len() {
        assert(marker_at(b, j));
        let k = choose|k: int| marker_at(b, k);
        if k < j {
            assert(!is_marker(b[k]));
        }
        if k > j {
            assert(!is_marker(b[j]));
        }
    } else if has_marker(b) {
        let k = choose|k: int| marker_at(b, k);
        assert(!is_marker(b[k]));
    }
}

/// With no marker among the first `j` characters, the mantissa is at least
/// that long.
proof fn lemma_mantissa_at_least(b: Seq<char>, j: int)
    requires
        0 <= j <= b.len(),
        forall|k: int| 0 <= k < j ==> !is_marker(#[trigger] b[k]),
    ensures
        mantissa_len(b) >= j,
        mantissa_len(b) <= b.len(),
{
    if has_marker(b) {
        let k = choose|k: int| marker_at(b, k);
        if k < j {
            assert(!is_marker(b[k]));
        }
    }
}

/// `u * 10^k`, or `None` where it exceeds `u128::MAX`.
fn scale_up(u: u128, k: u128) -> (r: Option<u128>)
    ensures
        r matches Some(v) ==> v == u * pow10(k as nat),
        r is None ==> u * pow10(k as nat) > u128::MAX,
{
    let mut acc = u;
    let mut i: u128 = 0;
    assert(pow10(0) == 1);
    while i < k
        invariant
            i <= k,
            acc == u * pow10(i as nat),
        decreases k - i,
    {
        if acc > u128::MAX / 10 {
            proof {
                lemma_pow10_add(i as nat, (k - i) as nat);
                lemma_pow10_mono(0, (k - i) as nat);
                assert(pow10(0) == 1);
                assert(u * pow10(k as nat) == acc * pow10((k - i) as nat)) by (nonlinear_arith)
                    requires
                        acc == u * pow10(i as nat),
                        pow10(k as nat) == pow10(i as nat) * pow10((k - i) as nat),
                ;
                assert(acc * pow10((k - i) as nat) > u128::MAX) by (nonlinear_arith)
                    requires
                        acc > u128::MAX / 10,
                        10 <= pow10((k - i) as nat),
                ;
            }
            return None;
        }
        proof {
            assert(pow10((i + 1) as nat) == 10 * pow10(i as nat));
            assert(u * pow10((i + 1) as nat) == acc * 10) by (nonlinear_arith)
                requires
                    acc == u * pow10(i as nat),
                    pow10((i + 1) as nat) == 10 * pow10(i as nat),
            ;
        }
        acc = acc * 10;
        i = i + 1;
    }
    Some(acc)
}

fn is_marker_char(c: char) -> (r: bool)
    ensures
        r == is_marker(c),
{
    c == 'e' || c == 'E'
}

/// Parses a decimal number as `f64` parsing reads one, but exactly: an optional
/// `+` or `-`, digits with at most one point and at least one digit, then an
/// optional exponent (`e` or `E`, an optional sign, digits). `inf`, `NaN` and
/// values that do not fit an `Amount` are refused.
#[verifier::rlimit(100)]
pub fn parse_amount(raw: &str) -> (r: Result<Amount, TransactionErr>)
    ensures
        r is Ok <==> amount_ok(raw@),
        r matches Ok(a) ==> a == amount_of(raw@),
        r matches Err(e) ==> e == TransactionErr::AmountParse,
{
    let n = raw.unicode_len();
    let mut i: usize = 0;
    let mut negative = false;
    if n > 0 {
        let c0 = raw.get_char(0);
        if c0 == '+' || c0 == '-' {
            i = 1;
            negative = c0 == '-';
        }
    }
    let start = i;
    let ghost b = raw@.subrange(start as int, n as int);
    assert(b == amount_body(raw@));
    let mut units: u128 = 0;
    let mut zeros: usize = 0;
    let mut point = false;
    let mut scale: usize = 0;
    let mut any = false;
    let ghost mut pt: int = -1;
    assert(raw@.subrange(start as int, start as int) =~= Seq::<char>::empty());
    while i < n && !is_marker_char(raw.get_char(i))
        invariant
            n == raw@.len(),
            start == sign_len(raw@),
            start <= i <= n,
            b == raw@.subrange(start as int, n as int),
            forall|k: int| 0 <= k < i - start ==> !is_marker(#[trigger] b[k]),
            forall|k: int|
                0 <= k < i - start ==> is_digit(#[trigger] b[k]) || b[k] == '.',
            !point ==> forall|k: int| 0 <= k < i - start ==> #[trigger] b[k] != '.',
            point ==> 0 <= pt < i - start && b[pt] == '.' && forall|k: int|
                0 <= k < i - start && #[trigger] b[k] == '.' ==> k == pt,
            point == has_point(raw@.subrange(start as int, i as int)),
            any == exists|k: int| 0 <= k < i - start && is_digit(#[trigger] b[k]),
            (units as nat, zeros as nat) == significant(raw@.subrange(start as int, i as int)),
            scale == frac_len(raw@.subrange(start as int, i as int)),
            scale <= i,
            zeros <= i,
        decreases n - i,
    {
        let ghost p = raw@.subrange(start as int, i as int);
        let ghost q = raw@.subrange(start as int, i + 1);
        assert(q.drop_last() =~= p);
        assert(q.last() == b[i - start]);
        let c = raw.get_char(i);
        if '0' <= c && c <= '9' {
            let d = ((c as u32) - ('0' as u32)) as u128;
            if d == 0 {
                if units != 0 {
                    zeros = zeros + 1;
                } else {
                    zeros = 0;
                }
            } else {
                let shifted = scale_up(units, zeros as u128 + 1);
                let kept = match shifted {
                    Some(v) => v < 100_000_000_000_000_000_000_000_000_000_000_000_000u128 - d,
                    None => false,
                };
                if kept {
                    units = shifted.unwrap() + d;
                    zeros = 0;
                } else {
                    zeros = zeros + 1;
                }
            }
            assert(is_digit(q.last()) && digit_value(q.last()) == d);
            assert(significant(q) == (units as nat, zeros as nat));
            any = true;
            proof {
                assert(has_point(q) == has_point(p)) by {
                    if has_point(q) {
                        let k = choose|k: int| 0 <= k < q.len() && q[k] == '.';
                        assert(p[k] == '.');
                    }
                    if has_point(p) {
                        let k = choose|k: int| 0 <= k < p.len() && p[k] == '.';
                        assert(q[k] == '.');
                    }
                }
            }
            if point {
                scale = scale + 1;
            }
        } else if c == '.' {
            if point {
                proof {
                    lemma_mantissa_at_least(b, i + 1 - start);
                    let m = mantissa(b);
                    assert(m[pt] == '.' && m[i - start] == '.');
                }
                return Err(TransactionErr::AmountParse);
            }
            point = true;
            assert(significant(q) == significant(p));
            proof {
                pt = i - start;
                assert(q[pt] == '.');
            }
        } else {
            proof {
                lemma_mantissa_at_least(b, i + 1 - start);
                let m = mantissa(b);
                assert(!(is_digit(m[i - start]) || m[i - start] == '.'));
            }
            return Err(TransactionErr::AmountParse);
        }
        i = i + 1;
    }
    proof {
        lemma_mantissa_len(b, i - start);
        assert(mantissa(b) =~= raw@.subrange(start as int, i as int));
    }
    if !any {
        return Err(TransactionErr::AmountParse);
    }
    let mut exp: u128 = 0;
    let mut big = false;
    let mut exp_negative = false;
    if i < n {
        let mut j: usize = i + 1;
        if j < n {
            let c = raw.get_char(j);
            if c == '+' || c == '-' {
                exp_negative = c == '-';
                j = j + 1;
            }
        }
        let dstart = j;
        let ghost x = raw@.subrange(i + 1, n as int);
        proof {
            assert(exponent_text(b) =~= x);
            assert(exponent_digits(x) =~= raw@.subrange(dstart as int, n as int));
            assert(raw@.subrange(dstart as int, dstart as int) =~= Seq::<char>::empty());
        }
        if dstart == n {
            return Err(TransactionErr::AmountParse);
        }
        while j < n
            invariant
                n == raw@.len(),
                dstart <= j <= n,
                b == amount_body(raw@),
                has_marker(b),
                x == exponent_text(b),
                exponent_digits(x) == raw@.subrange(dstart as int, n as int),
                forall|k: int|
                    dstart <= k < j ==> is_digit(#[trigger] raw@[k]),
                !big ==> exp == numeral_value(raw@.subrange(dstart as int, j as int)) && exp
                    <= 1_000_000_000_000_000_000_000_009u128,
                big ==> numeral_value(raw@.subrange(dstart as int, j as int))
                    > 1_000_000_000_000_000_000_000_000,
            decreases n - j,
        {
            let ghost p = raw@.subrange(dstart as int, j as int);
            let ghost q = raw@.subrange(dstart as int, j + 1);
            assert(q.drop_last() =~= p);
            let c = raw.get_char(j);
            if !('0' <= c && c <= '9') {
                assert(!is_digit(exponent_digits(x)[j - dstart]));
                return Err(TransactionErr::AmountParse);
            }
            let d = ((c as u32) - ('0' as u32)) as u128;
            if !big {
                if exp > 100_000_000_000_000_000_000_000u128 {
                    big = true;
                } else {
                    exp = exp * 10 + d;
                }
            }
            j = j + 1;
        }
        assert(raw@.subrange(dstart as int, n as int) =~= exponent_digits(x));
        assert(sign_len(x) == 1 && x[0] == '-' <==> exp_negative);
    }
    if units == 0 {
        return Ok(Amount { negative, units: 0, exponent: 0 });
    }
    let digits = u128_text(units).as_str().unicode_len();
    proof {
        lemma_significant_shape(mantissa(b));
    }
    assert(units < 100_000_000_000_000_000_000_000_000_000_000_000_000u128);
    assert(digits <= 39) by {
        lemma_dec_digits_len(units as nat);
    }
    if big {
        if exp_negative {
            assert(magnitude_of(raw@) < MIN_MAGNITUDE);
            return Ok(Amount { negative, units: 0, exponent: 0 });
        } else {
            assert(magnitude_of(raw@) > MAX_MAGNITUDE);
            return Err(TransactionErr::AmountParse);
        }
    }
    let e: i128 = if exp_negative {
        -(exp as i128)
    } else {
        exp as i128
    };
    assert(e == exponent_value(b));
    let x: i128 = zeros as i128 + e - scale as i128;
    assert(x == exponent_of(raw@));
    let magnitude: i128 = digits as i128 - 1 + x;
    if magnitude > MAX_MAGNITUDE as i128 {
        return Err(TransactionErr::AmountParse);
    }
    if magnitude < MIN_MAGNITUDE as i128 {
        return Ok(Amount { negative, units: 0, exponent: 0 });
    }
    Ok(Amount { negative, units, exponent: x as i32 })
}

/// A numeral below `10^38` has at most 39 digits.
proof fn lemma_dec_digits_len(n: nat)
    requires
        n < 100_000_000_000_000_000_000_000_000_000_000_000_000,
    ensures
        dec_digits(n).len() <= 39,
{
    lemma_dec_digits_bound(n);
    if dec_digits(n).len() > 39 {
        lemma_pow10_mono(39, (dec_digits(n).len() - 1) as nat);
        reveal_with_fuel(pow10, 40);
    }
}

/// A positive numeral of `k` digits is worth at least `10^(k - 1)`.
proof fn lemma_dec_digits_bound(n: nat)
    ensures
        dec_digits(n).len() >= 1,
        n > 0 ==> n >= pow10((dec_digits(n).len() - 1) as nat),
    decreases n,
{
    if n >= 10 {
        lemma_dec_digits_bound(n / 10);
        let k = dec_digits(n / 10).len();
        assert(dec_digits(n).len() == k + 1);
        let q = pow10((k - 1) as nat);
        assert(pow10(k as nat) == 10 * q);
        assert(n >= 10 * q) by (nonlinear_arith)
            requires
                n / 10 >= q,
        ;
        assert((dec_digits(n).len() - 1) as nat == k);
    } else {
        assert(pow10(0) == 1);
    }
}

/// Appends `k` zero digits to `s`.
fn append_zeros(s: &mut String, k: usize)
    ensures
        final(s)@ == old(s)@ + zeros(k as nat),
{
    let mut i: usize = 0;
    while i < k
        invariant
            i <= k,
            s@ =~= old(s)@ + zeros(i as nat),
        decreases k - i,
    {
        proof {
            reveal_strlit("0");
        }
        s.append("0");
        i = i + 1;
    }
}

impl Amount {
    /// The amount as currency text with two decimals, rounded half away from
    /// zero: `$100.50`, `$-5.00`.
    pub fn to_currency_string(&self) -> (r: String)
        ensures
            r@ == currency_label(*self),
    {
        proof {
            reveal_strlit("$");
            reveal_strlit("-");
            reveal_strlit(".00");
        }
        if self.exponent >= 0 {
            let mut s = String::from_str("$");
            if self.negative {
                s.append("-");
            }
            s.append(u128_text(self.units).as_str());
            append_zeros(&mut s, self.exponent as usize);
            s.append(".00");
            assert(s@ =~= currency_label(*self));
            return s;
        }
        let scale: usize = (-(self.exponent as i64)) as usize;
        let u = self.units;
        let ghost cents = rounded_cents(u as nat, scale as nat);
        proof {
            reveal_with_fuel(pow10, 3);
        }
        let (whole, frac) = if scale <= 2 {
            if scale == 0 {
                assert(cents == u * 100);
                (u, 0u128)
            } else if scale == 1 {
                assert(cents == u * 10);
                assert(cents / 100 == u / 10 && cents % 100 == (u % 10) * 10) by (nonlinear_arith)
                    requires
                        cents == u * 10,
                ;
                (u / 10, (u % 10) * 10)
            } else {
                assert(scale == 2);
                assert(pow10(0) == 1);
                assert(cents == u * 1);
                (u / 100, u % 100)
            }
        } else {
            let mut q = u;
            let mut k: usize = 0;
            assert(pow10(0) == 1);
            while k < scale - 3
                invariant
                    scale > 2,
                    k <= scale - 3,
                    q == (u as nat) / pow10(k as nat),
                decreases scale - 3 - k,
            {
                proof {
                    lemma_div_pow10_step(u as nat, k as nat);
                }
                q = q / 10;
                k = k + 1;
            }
            let last = q % 10;
            proof {
                lemma_div_pow10_step(u as nat, k as nat);
            }
            q = q / 10;
            let c = if last >= 5 {
                q + 1
            } else {
                q
            };
            assert(c == cents);
            (c / 100, c % 100)
        };
        let mut s = String::from_str("$");
        proof {
            reveal_strlit("$");
            reveal_strlit("-");
            reveal_strlit(".");
        }
        if self.negative {
            s.append("-");
        }
        s.append(u128_text(whole).as_str());
        s.append(".");
        push_two_digits(&mut s, frac as u64);
        assert(s@ =~= currency_label(*self));
        s
    }

    /// The amount as plain decimal text with all its places: `100.50`, `-0.05`.
    pub fn to_decimal_string(&self) -> (r: String)
        ensures
            r@ == decimal_label(*self),
    {
        proof {
            reveal_strlit("-");
        }
        if self.exponent >= 0 {
            let mut s = String::new();
            if self.negative {
                s.append("-");
            }
            s.append(u128_text(self.units).as_str());
            append_zeros(&mut s, self.exponent as usize);
            assert(s@ =~= decimal_label(*self));
            return s;
        }
        let scale: usize = (-(self.exponent as i64)) as usize;
        let digits = u128_text(self.units);
        let len = digits.as_str().unicode_len();
        let mut padded = String::new();
        proof {
            reveal_strlit("0");
            reveal_strlit("-");
            reveal_strlit(".");
        }
        if scale >= len {
            let count = scale - len + 1;
            let mut k: usize = 0;
            while k < count
                invariant
                    k <= count,
                    padded@ =~= Seq::new(k as nat, |i: int| '0'),
                decreases count - k,
            {
                proof {
                    reveal_strlit("0");
                }
                padded.append("0");
                k = k + 1;
            }
        }
        padded.append(digits.as_str());
        let plen = padded.as_str().unicode_len();
        assert(padded@ =~= zero_pad(dec_digits(self.units as nat), (scale + 1) as nat));
        let cut = plen - scale;
        let mut s = String::new();
        if self.negative {
            s.append("-");
        }
        s.append(padded.as_str().substring_char(0, cut));
        if scale > 0 {
            s.append(".");
            s.append(padded.as_str().substring_char(cut, plen));
        }
        assert(s@ =~= decimal_label(*self));
        s
    }
}

proof fn lemma_digit_char(d: int)
    requires
        0 <= d < 10,
    ensures
        is_digit(digit_char(d)),
        digit_value(digit_char(d)) == d,
{
    assert(seq!['0', '1', '2', '3', '4', '5', '6', '7', '8', '9'][d] == digit_char(d));
}

/// After the one point of `p . q`, `q.len()` characters follow.
proof fn lemma_point_frac_len(p: Seq<char>, q: Seq<char>)
    requires
        forall|i: int| 0 <= i < q.len() ==> #[trigger] q[i] != '.',
    ensures
        frac_len(p + seq!['.'] + q) == q.len(),
    decreases q.len(),
{
    let b = p + seq!['.'] + q;
    if q.len() > 0 {
        lemma_point_frac_len(p, q.drop_last());
        assert(b.drop_last() =~= p + seq!['.'] + q.drop_last());
        assert(b[p.len() as int] == '.');
        assert(has_point(b));
    }
}

proof fn lemma_no_point_frac_len(b: Seq<char>)
    requires
        forall|i: int| 0 <= i < b.len() ==> #[trigger] b[i] != '.',
    ensures
        frac_len(b) == 0,
{
}

proof fn lemma_dec_chars(n: nat)
    ensures
        dec_digits(n).len() >= 1,
        forall|i: int| 0 <= i < dec_digits(n).len() ==> is_digit(#[trigger] dec_digits(n)[i]),
    decreases n,
{
    if n < 10 {
        lemma_digit_char(n as int);
    } else {
        lemma_dec_chars(n / 10);
        lemma_digit_char((n % 10) as int);
        let x = dec_digits(n / 10);
        assert forall|i: int| 0 <= i < dec_digits(n).len() implies is_digit(
            #[trigger] dec_digits(n)[i],
        ) by {
            if i < x.len() {
                assert(dec_digits(n)[i] == x[i]);
            }
        }
    }
}

/// The numeral of a number below `10^38` keeps all its digits.
proof fn lemma_significant_dec(n: nat)
    requires
        n < 100_000_000_000_000_000_000_000_000_000_000_000_000,
    ensures
        significant(dec_digits(n)).0 * pow10(significant(dec_digits(n)).1) == n,
        significant(dec_digits(n)).0 == 0 ==> significant(dec_digits(n)).1 == 0,
    decreases n,
{
    let t = dec_digits(n);
    if n < 10 {
        lemma_digit_char(n as int);
        assert(t.drop_last() =~= Seq::<char>::empty());
        assert(significant(Seq::<char>::empty()) == (0nat, 0nat));
        assert(pow10(0) == 1);
        assert(pow10(1) == 10);
        assert(n * 1 == n);
    } else {
        lemma_significant_dec(n / 10);
        lemma_digit_char((n % 10) as int);
        assert(t.drop_last() =~= dec_digits(n / 10));
        let u = significant(dec_digits(n / 10)).0;
        let z = significant(dec_digits(n / 10)).1;
        let d = n % 10;
        assert(n == 10 * (n / 10) + d);
        let q = pow10(z);
        assert(pow10(z + 1) == 10 * q);
        assert(u * (10 * q) == 10 * (u * q)) by (nonlinear_arith);
        if d == 0 {
            if u == 0 {
                assert(pow10(0) == 1);
                assert(n / 10 == 0);
            }
            assert(significant(t) == (u, z + 1));
        } else {
            assert(significant(t) == (n, 0nat));
            assert(pow10(0) == 1);
            assert(n * 1 == n);
        }
    }
}

proof fn lemma_significant_of_zeros(k: nat)
    ensures
        significant(zeros(k)) == (0nat, 0nat),
    decreases k,
{
    if k > 0 {
        lemma_significant_of_zeros((k - 1) as nat);
        assert(zeros(k).drop_last() =~= zeros((k - 1) as nat));
        lemma_digit_char(0);
    }
}

/// Leading zeros leave the significant digits as they are.
proof fn lemma_significant_zeros_prefix(k: nat, s: Seq<char>)
    ensures
        significant(zeros(k) + s) == significant(s),
    decreases s.len(),
{
    if s.len() == 0 {
        assert(zeros(k) + s =~= zeros(k));
        lemma_significant_of_zeros(k);
    } else {
        lemma_significant_zeros_prefix(k, s.drop_last());
        assert((zeros(k) + s).drop_last() =~= zeros(k) + s.drop_last());
    }
}

/// Trailing zeros after a non-zero numeral are counted, not kept.
proof fn lemma_significant_zeros_suffix(s: Seq<char>, e: nat)
    requires
        significant(s).0 != 0,
    ensures
        significant(s + zeros(e)) == (significant(s).0, significant(s).1 + e),
    decreases e,
{
    if e == 0 {
        assert(s + zeros(e) =~= s);
    } else {
        lemma_significant_zeros_suffix(s, (e - 1) as nat);
        assert((s + zeros(e)).drop_last() =~= s + zeros((e - 1) as nat));
        lemma_digit_char(0);
    }
}

/// A point leaves the significant digits as they are.
proof fn lemma_significant_point(p: Seq<char>, q: Seq<char>)
    ensures
        significant(p + seq!['.'] + q) == significant(p + q),
    decreases q.len(),
{
    if q.len() == 0 {
        assert((p + seq!['.'] + q).drop_last() =~= p);
        assert(p + q =~= p);
    } else {
        lemma_significant_point(p, q.drop_last());
        assert((p + seq!['.'] + q).drop_last() =~= p + seq!['.'] + q.drop_last());
        assert((p + q).drop_last() =~= p + q.drop_last());
    }
}

/// Text without exponent whose kept digits are `(n, z)` and whose places are
/// `f` reads as `n` units scaled by `10^(z - f)`.
proof fn lemma_plain_read(t: Seq<char>, body: Seq<char>, negative: bool)
    requires
        t == sign_text(negative) + body,
        body.len() >= 1,
        is_digit(body[0]),
        forall|i: int| 0 <= i < body.len() ==> (is_digit(#[trigger] body[i]) || body[i] == '.'),
    ensures
        amount_body(t) == body,
        mantissa(body) == body,
        !has_marker(body),
        exponent_value(body) == 0,
        (sign_len(t) == 1 && t[0] == '-') == negative,
{
    let sign = sign_text(negative);
    assert(t.subrange(sign.len() as int, t.len() as int) =~= body);
    if !negative {
        assert(t =~= body);
    }
    assert forall|k: int| 0 <= k < body.len() implies !is_marker(#[trigger] body[k]) by {
        assert(is_digit(body[k]) || body[k] == '.');
    }
    lemma_mantissa_len(body, body.len() as int);
    assert(mantissa(body) =~= body);
}

/// The numeral of a number below `10^38` that is zero or ends in a non-zero
/// digit keeps exactly that number, with nothing after it.
proof fn lemma_significant_canonical(n: nat)
    requires
        n < 100_000_000_000_000_000_000_000_000_000_000_000_000,
        n == 0 || n % 10 != 0,
    ensures
        significant(dec_digits(n)) == (n, 0nat),
{
    let dn = dec_digits(n);
    lemma_significant_dec(n);
    lemma_significant_shape(dn);
    let u = significant(dn).0;
    let z = significant(dn).1;
    lemma_pow10_positive(z);
    if z > 0 {
        let q = pow10((z - 1) as nat);
        assert(pow10(z) == 10 * q);
        let m = u * q;
        assert(u * (10 * q) == m * 10) by (nonlinear_arith)
            requires
                m == u * q,
        ;
        lemma_mod_multiples_basic(m as int, 10);
    }
    if n == 0 {
        assert(u == 0) by (nonlinear_arith)
            requires
                u * pow10(z) == 0,
                pow10(z) > 0,
        ;
    }
    assert(z == 0);
    assert(pow10(0) == 1);
    assert(u * 1 == u);
    assert(u == n);
}

/// The decimal text of an amount with a non-negative exponent reads as its
/// units and exponent.
proof fn lemma_whole_text(a: Amount)
    requires
        a.exponent >= 0,
        a.units < 100_000_000_000_000_000_000_000_000_000_000_000_000,
        a.units == 0 ==> a.exponent == 0,
        a.units == 0 || a.units % 10 != 0,
    ensures
        is_decimal_body(mantissa(amount_body(decimal_label(a)))),
        !has_marker(amount_body(decimal_label(a))),
        significant(mantissa(amount_body(decimal_label(a)))) == (a.units as nat, a.exponent as nat),
        exponent_of(decimal_label(a)) == a.exponent,
        (sign_len(decimal_label(a)) == 1 && decimal_label(a)[0] == '-') == a.negative,
{
    let n = a.units as nat;
    let dn = dec_digits(n);
    lemma_dec_chars(n);
    lemma_significant_canonical(n);
    let t = decimal_label(a);
    let e = a.exponent as nat;
    let body = dn + zeros(e);
    assert(t =~= sign_text(a.negative) + body);
    assert forall|i: int| 0 <= i < body.len() implies is_digit(#[trigger] body[i]) by {
        if i < dn.len() {
            assert(body[i] == dn[i]);
        } else {
            assert(body[i] == '0');
        }
    }
    assert(body[0] == dn[0]);
    lemma_plain_read(t, body, a.negative);
    lemma_no_point_frac_len(body);
    if n != 0 {
        lemma_significant_zeros_suffix(dn, e);
    } else {
        assert(body =~= dn);
    }
    assert(is_digit(body[0]));
}

/// The decimal text of an amount with places reads as its units and exponent.
proof fn lemma_places_text(a: Amount)
    requires
        a.exponent < 0,
        a.units < 100_000_000_000_000_000_000_000_000_000_000_000_000,
        a.units == 0 ==> a.exponent == 0,
        a.units == 0 || a.units % 10 != 0,
    ensures
        is_decimal_body(mantissa(amount_body(decimal_label(a)))),
        !has_marker(amount_body(decimal_label(a))),
        significant(mantissa(amount_body(decimal_label(a)))) == (a.units as nat, 0nat),
        exponent_of(decimal_label(a)) == a.exponent,
        (sign_len(decimal_label(a)) == 1 && decimal_label(a)[0] == '-') == a.negative,
{
    let n = a.units as nat;
    let dn = dec_digits(n);
    lemma_dec_chars(n);
    lemma_significant_canonical(n);
    let t = decimal_label(a);
    let scale = (-a.exponent) as nat;
    let d = zero_pad(dn, scale + 1);
    let k: nat = if dn.len() >= scale + 1 {
        0
    } else {
        (scale + 1 - dn.len()) as nat
    };
    assert(d =~= zeros(k) + dn);
    lemma_significant_zeros_prefix(k, dn);
    assert forall|i: int| 0 <= i < d.len() implies is_digit(#[trigger] d[i]) by {
        if i >= k {
            assert(d[i] == dn[i - k]);
        }
    }
    let cut = d.len() - scale;
    let p = d.subrange(0, cut);
    let q = d.subrange(cut, d.len() as int);
    assert(p + q =~= d);
    let body = p + seq!['.'] + q;
    assert(t =~= sign_text(a.negative) + body);
    assert forall|i: int| 0 <= i < body.len() implies (is_digit(#[trigger] body[i]) || body[i]
        == '.') && (body[i] == '.' ==> i == p.len()) by {
        if i < p.len() {
            assert(body[i] == d[i]);
        } else if i > p.len() {
            assert(body[i] == d[i - 1]);
        }
    }
    assert(body[0] == d[0]);
    lemma_plain_read(t, body, a.negative);
    lemma_significant_point(p, q);
    assert forall|i: int| 0 <= i < q.len() implies #[trigger] q[i] != '.' by {
        assert(q[i] == d[i + cut]);
    }
    lemma_point_frac_len(p, q);
    assert(body[p.len() as int] == '.');
    assert(is_digit(body[0]));
}

/// The amount's decimal text, in its two forms, reads as the same units and
/// exponent.
proof fn lemma_decimal_text_fields(a: Amount)
    requires
        a.units < 100_000_000_000_000_000_000_000_000_000_000_000_000,
        a.units == 0 ==> a.exponent == 0,
        a.units == 0 || a.units % 10 != 0,
    ensures
        is_decimal_body(mantissa(amount_body(decimal_label(a)))),
        !has_marker(amount_body(decimal_label(a))),
        significant(mantissa(amount_body(decimal_label(a)))) == (a.units as nat, (if a.exponent
            >= 0 {
            a.exponent as nat
        } else {
            0nat
        })),
        exponent_of(decimal_label(a)) == a.exponent,
        (sign_len(decimal_label(a)) == 1 && decimal_label(a)[0] == '-') == a.negative,
{
    if a.exponent >= 0 {
        lemma_whole_text(a);
    } else {
        lemma_places_text(a);
    }
}

/// An amount in the form `parse_amount` gives reads back from its decimal
/// text: `parse_amount(&a.to_decimal_string())` gives `a`.
pub proof fn lemma_decimal_text_round_trip(a: Amount)
    requires
        a.units < 100_000_000_000_000_000_000_000_000_000_000_000_000,
        a.units == 0 ==> a.exponent == 0,
        a.units != 0 ==> a.units % 10 != 0 && MIN_MAGNITUDE <= dec_digits(a.units as nat).len()
            - 1 + a.exponent <= MAX_MAGNITUDE,
    ensures
        amount_ok(decimal_label(a)),
        amount_of(decimal_label(a)) == a,
{
    lemma_decimal_text_fields(a);
}

} // verus!
