//! Decimal amounts as stored in the budget tables: text that `rust_decimal`
//! parses, sums and prints. A decimal is handled here by its parts, the
//! mantissa `m` and the scale `s`, standing for `m / 10^s`.

use rust_decimal::Decimal;
use vstd::prelude::*;

verus! {

/// Largest magnitude of a mantissa: `2^96 - 1`.
pub open spec fn max_mantissa() -> int {
    79228162514264337593543950335
}

/// The parts that `rust_decimal` can hold: a 96-bit mantissa and a scale of at most 28.
pub open spec fn valid_decimal(d: (i128, u32)) -> bool {
    &&& -max_mantissa() <= d.0 <= max_mantissa()
    &&& d.1 <= 28
}

/// The decimal zero, as `Decimal::ZERO` holds it.
pub open spec fn decimal_zero() -> (i128, u32) {
    (0i128, 0u32)
}

/// What `<Decimal as FromStr>::from_str` makes of a text, by its parts.
pub uninterp spec fn decimal_from_str(s: Seq<char>) -> Option<(i128, u32)>;

/// What `Decimal::checked_add` gives for two decimals, by their parts.
pub uninterp spec fn decimal_checked_add(a: (i128, u32), b: (i128, u32)) -> Option<(i128, u32)>;

/// The character of a decimal digit.
pub open spec fn digit_char(d: int) -> char {
    if d == 0 {
        '0'
    } else if d == 1 {
        '1'
    } else if d == 2 {
        '2'
    } else if d == 3 {
        '3'
    } else if d == 4 {
        '4'
    } else if d == 5 {
        '5'
    } else if d == 6 {
        '6'
    } else if d == 7 {
        '7'
    } else if d == 8 {
        '8'
    } else {
        '9'
    }
}

/// The decimal digits of `n`, most significant first; none for zero.
pub open spec fn digits(n: nat) -> Seq<char>
    decreases n,
{
    if n == 0 {
        Seq::empty()
    } else {
        digits(n / 10).push(digit_char((n % 10) as int))
    }
}

/// The text that `Decimal`'s `Display` writes for a decimal given by its
/// mantissa and scale: a `-` for a negative mantissa, then the digits of its
/// magnitude, padded with leading zeros to at least `scale` digits, with a
/// point before the last `scale` of them and a `0` before a point that would
/// open the text; zero with no scale is `0`.
pub open spec fn decimal_display(d: (i128, u32)) -> Seq<char> {
    let m = d.0 as int;
    let scale = d.1 as int;
    let ds = digits((if m < 0 { -m } else { m }) as nat);
    let padded = Seq::new((if scale > ds.len() { scale - ds.len() } else { 0 }) as nat, |i: int| '0') + ds;
    let whole = padded.take(padded.len() - scale);
    let frac = padded.skip(padded.len() - scale);
    (if m < 0 { seq!['-'] } else { Seq::empty() }) + (if whole.len() == 0 { seq!['0'] } else { whole }) + (if scale
        > 0 {
        seq!['.'] + frac
    } else {
        Seq::empty()
    })
}

/// A decimal with its trailing zeros stripped and a zero made `0` with scale 0,
/// which is what `Decimal::normalize` does.
pub open spec fn normalized(d: (i128, u32)) -> (i128, u32)
    decreases d.1,
{
    if d.0 == 0 {
        decimal_zero()
    } else if d.1 > 0 && d.0 % 10 == 0 {
        normalized(((d.0 / 10) as i128, (d.1 - 1) as u32))
    } else {
        d
    }
}

/// Parses a stored amount with `<Decimal as FromStr>::from_str`.
/// Claimed: the parts of the result are the named `decimal_from_str` of the
/// text, and they are within `Decimal`'s range (its type invariant).
#[verifier::external_body]
pub fn parse_decimal(s: &str) -> (r: Option<(i128, u32)>)
    ensures
        r == decimal_from_str(s@),
        r matches Some(d) ==> valid_decimal(d),
{
    match s.parse::<Decimal>() {
        Ok(d) => Some((d.mantissa(), d.scale())),
        Err(_) => None,
    }
}

/// Adds two decimals with `Decimal::checked_add`, which gives `None` where the
/// sum does not fit. Claimed: the result is the named `decimal_checked_add`
/// of the two, and a sum is within `Decimal`'s range.
#[verifier::external_body]
pub fn add_decimals(a: (i128, u32), b: (i128, u32)) -> (r: Option<(i128, u32)>)
    requires
        valid_decimal(a),
        valid_decimal(b),
    ensures
        r == decimal_checked_add(a, b),
        r matches Some(d) ==> valid_decimal(d),
{
    let x = Decimal::from_i128_with_scale(a.0, a.1);
    let y = Decimal::from_i128_with_scale(b.0, b.1);
    match x.checked_add(y) {
        Some(d) => Some((d.mantissa(), d.scale())),
        None => None,
    }
}

/// Writes a decimal with `Decimal`'s `Display`. Claimed: the text is
/// `decimal_display` of the parts, which spells out what `to_str_internal`
/// does with no precision given.
#[verifier::external_body]
pub fn decimal_to_string(d: (i128, u32)) -> (r: String)
    requires
        valid_decimal(d),
    ensures
        r@ == decimal_display(d),
{
    Decimal::from_i128_with_scale(d.0, d.1).to_string()
}

/// Strips trailing zeros, as `Decimal::normalize` does.
pub fn normalize(d: (i128, u32)) -> (r: (i128, u32))
    requires
        valid_decimal(d),
    ensures
        r == normalized(d),
        valid_decimal(r),
{
    if d.0 == 0 {
        return (0, 0);
    }
    let mut m: i128 = d.0;
    let mut s: u32 = d.1;
    while s > 0 && m % 10 == 0
        invariant
            m != 0,
            -max_mantissa() <= m <= max_mantissa(),
            s <= d.1,
            d.1 <= 28,
            normalized((m, s)) == normalized(d),
        decreases s,
    {
        assert(m / 10 != 0 && -max_mantissa() <= m / 10 <= max_mantissa()) by (nonlinear_arith)
            requires m != 0, m % 10 == 0, -max_mantissa() <= m <= max_mantissa();
        m = m / 10;
        s = s - 1;
    }
    (m, s)
}

/// Ten to the power `n`.
pub open spec fn pow10(n: nat) -> int
    decreases n,
{
    if n == 0 {
        1
    } else {
        10 * pow10((n - 1) as nat)
    }
}

/// Normalizing keeps the value of a decimal, never raises its scale, and
/// normalizing again changes nothing.
pub proof fn lemma_normalized_keeps_value(d: (i128, u32))
    ensures
        normalized(d).1 <= d.1,
        normalized(d).0 * pow10((d.1 - normalized(d).1) as nat) == d.0,
        normalized(normalized(d)) == normalized(d),
    decreases d.1,
{
    if d.0 == 0 {
        assert(0 * pow10(d.1 as nat) == 0);
    } else if d.1 > 0 && d.0 % 10 == 0 {
        let e = ((d.0 / 10) as i128, (d.1 - 1) as u32);
        assert(e.0 == d.0 / 10);
        lemma_normalized_keeps_value(e);
        let n = normalized(e);
        let k = (e.1 - n.1) as nat;
        assert(pow10(k + 1) == 10 * pow10(k));
        assert((d.1 - n.1) as nat == k + 1);
        let p = pow10(k);
        assert(n.0 * (10 * p) == 10 * (n.0 * p)) by (nonlinear_arith);
        assert(10 * (d.0 / 10) == d.0) by (nonlinear_arith)
            requires d.0 % 10 == 0;
    } else {
        assert(d.0 * pow10(0) == d.0);
    }
}

} // verus!
