//! Decimal amounts and the parser for the export's decimal text fields.
//!
//! An amount is held exactly as a scaled integer. The stored form is
//! normalized, so two texts naming the same numeric value parse to
//! structurally equal amounts ("3302.00" and "3302" give the same value).

use vstd::prelude::*;

verus! {

/// A decimal amount: the numeric value `mantissa / 10^scale`, negated
/// when `negative` holds. Always normalized (see [`amount_wf`]).
#[derive(Clone, Copy, PartialEq, Eq, Structural, Debug)]
pub struct Amount {
    pub negative: bool,
    pub mantissa: u128,
    pub scale: u32,
}

/// Normal form of an amount: no trailing zero in the fraction, and zero
/// is written without sign or scale. Two normalized amounts are equal
/// as numbers exactly when their fields are equal.
pub open spec fn amount_wf(a: Amount) -> bool {
    &&& (a.scale == 0 || a.mantissa % 10 != 0)
    &&& (a.mantissa != 0 || (!a.negative && a.scale == 0))
}

pub open spec fn is_ascii_digit(c: char) -> bool {
    '0' <= c && c <= '9'
}

pub open spec fn digit_value(c: char) -> int {
    c as int - '0' as int
}

/// Scans `s` from `i` with accumulated mantissa `acc`, fraction-digit
/// count `frac`, and flags for a digit and a decimal point already seen.
/// Yields the exact mantissa and fraction length, or `None` where the
/// text is not plain decimal digits with at most one point and at least
/// one digit.
pub open spec fn scan_decimal(
    s: Seq<char>,
    i: int,
    acc: int,
    frac: int,
    seen_digit: bool,
    seen_dot: bool,
) -> Option<(int, int)>
    decreases s.len() - i,
{
    if i < 0 || i >= s.len() {
        if seen_digit {
            Some((acc, frac))
        } else {
            None
        }
    } else if is_ascii_digit(s[i]) {
        scan_decimal(
            s,
            i + 1,
            acc * 10 + digit_value(s[i]),
            if seen_dot { frac + 1 } else { frac },
            true,
            seen_dot,
        )
    } else if s[i] == '.' && !seen_dot {
        scan_decimal(s, i + 1, acc, frac, seen_digit, true)
    } else {
        None
    }
}

/// Strips factors of ten from `m` while the scale allows, giving the
/// normal form of `m / 10^sc`.
pub open spec fn normalize(m: int, sc: int) -> (int, int)
    decreases sc,
{
    if sc > 0 && m % 10 == 0 {
        normalize(m / 10, sc - 1)
    } else {
        (m, sc)
    }
}

/// What a decimal text field denotes: an optional sign, then digits
/// with at most one decimal point and at least one digit, normalized;
/// `None` for any other text, and for values too large for the stored
/// form (mantissa beyond `u128`, scale beyond `u32`).
pub open spec fn amount_of_text(s: Seq<char>) -> Option<Amount> {
    let signed = s.len() > 0 && (s[0] == '-' || s[0] == '+');
    let neg = s.len() > 0 && s[0] == '-';
    let start: int = if signed { 1 } else { 0 };
    match scan_decimal(s, start, 0, 0, false, false) {
        None => None,
        Some((m, f)) => if m > u128::MAX {
            None
        } else {
            let (nm, nf) = normalize(m, f);
            if nf > u32::MAX {
                None
            } else {
                Some(
                    Amount {
                        negative: if nm == 0 { false } else { neg },
                        mantissa: nm as u128,
                        scale: nf as u32,
                    },
                )
            }
        },
    }
}

/// Once the accumulated mantissa is too large, the scan can only end in
/// a mantissa at least as large, or fail.
proof fn lemma_scan_mantissa_grows(
    s: Seq<char>,
    i: int,
    acc: int,
    frac: int,
    seen_digit: bool,
    seen_dot: bool,
)
    requires
        acc >= 0,
        frac >= 0,
    ensures
        match scan_decimal(s, i, acc, frac, seen_digit, seen_dot) {
            Some((m, f)) => m >= acc && f >= frac,
            None => true,
        },
    decreases s.len() - i,
{
    if i < 0 || i >= s.len() {
    } else if is_ascii_digit(s[i]) {
        lemma_scan_mantissa_grows(
            s,
            i + 1,
            acc * 10 + digit_value(s[i]),
            if seen_dot { frac + 1 } else { frac },
            true,
            seen_dot,
        );
    } else if s[i] == '.' && !seen_dot {
        lemma_scan_mantissa_grows(s, i + 1, acc, frac, seen_digit, true);
    }
}

/// Parses one decimal text field into a normalized amount; yields
/// exactly what [`amount_of_text`] states, well-formed on success.
#[verifier::loop_isolation(false)]
pub fn parse_amount(s: &Vec<char>) -> (r: Option<Amount>)
    ensures
        r == amount_of_text(s@),
        r matches Some(a) ==> amount_wf(a),
{
    let n = s.len();
    let signed: bool = n > 0 && (s[0] == '-' || s[0] == '+');
    let neg: bool = n > 0 && s[0] == '-';
    let mut i: usize = if signed { 1 } else { 0 };
    let mut acc: u128 = 0;
    let mut frac: usize = 0;
    let mut seen_digit: bool = false;
    let mut seen_dot: bool = false;
    let ghost start: int = i as int;
    while i < n
        invariant
            start <= i <= n == s@.len(),
            acc >= 0,
            frac <= i,
            scan_decimal(s@, start, 0, 0, false, false) == scan_decimal(
                s@,
                i as int,
                acc as int,
                frac as int,
                seen_digit,
                seen_dot,
            ),
        decreases n - i,
    {
        let c = s[i];
        if '0' <= c && c <= '9' {
            let d: u128 = (c as u32 - '0' as u32) as u128;
            if acc > (u128::MAX - d) / 10 {
                // the exact mantissa no longer fits; the scan can only
                // grow it, so the text denotes no storable amount
                proof {
                    lemma_scan_mantissa_grows(
                        s@,
                        i + 1,
                        acc as int * 10 + digit_value(s@[i as int]),
                        if seen_dot {
                            frac as int + 1
                        } else {
                            frac as int
                        },
                        true,
                        seen_dot,
                    );
                    assert(acc as int * 10 + digit_value(s@[i as int]) > u128::MAX) by {
                        assert(acc >= (u128::MAX - d) / 10 + 1);
                        assert(acc as int * 10 >= ((u128::MAX - d) / 10 + 1) * 10 > u128::MAX - d)
                            by (nonlinear_arith)
                            requires
                                acc >= (u128::MAX - d) / 10 + 1,
                                d <= 9,
                        ;
                    }
                }
                return None;
            }
            acc = acc * 10 + d;
            if seen_dot {
                frac = frac + 1;
            }
            seen_digit = true;
        } else if c == '.' && !seen_dot {
            seen_dot = true;
        } else {
            return None;
        }
        i = i + 1;
    }
    if !seen_digit {
        return None;
    }
    let mut m: u128 = acc;
    let mut sc: usize = frac;
    while sc > 0 && m % 10 == 0
        invariant
            normalize(acc as int, frac as int) == normalize(m as int, sc as int),
        decreases sc,
    {
        m = m / 10;
        sc = sc - 1;
    }
    if sc > u32::MAX as usize {
        return None;
    }
    Some(Amount { negative: if m == 0 { false } else { neg }, mantissa: m, scale: sc as u32 })
}

} // verus!
