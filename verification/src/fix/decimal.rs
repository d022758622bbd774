//! Exact decimal numbers as FIX writes prices and quantities: an optional
//! sign, digits, and at most one decimal point.

use crate::text::{
    decimal_text, digits_within, find_byte, find_byte_from, padded_text, parse_digits, push_char,
    push_decimal, push_zero_padded,
};
use vstd::prelude::*;

verus! {

/// The number `mantissa / 10^scale`.
#[derive(Debug, Clone, Copy, PartialEq, Eq, Structural)]
pub struct FixDecimal {
    pub mantissa: i64,
    pub scale: u32,
}

/// Ten to the power `n`.
pub open spec fn pow10(n: nat) -> nat
    decreases n,
{
    if n == 0 {
        1
    } else {
        10 * pow10((n - 1) as nat)
    }
}

/// The length of the sign in front of `s`: one for `+` or `-`, else zero.
pub open spec fn sign_len(s: Seq<u8>) -> int {
    if s.len() > 0 && (s[0] == 45 || s[0] == 43) {
        1
    } else {
        0
    }
}

/// `s` begins with `-`.
pub open spec fn is_negative_text(s: Seq<u8>) -> bool {
    s.len() > 0 && s[0] == 45
}

/// The part of `s` after its sign.
pub open spec fn unsigned_part(s: Seq<u8>) -> Seq<u8> {
    s.subrange(sign_len(s), s.len() as int)
}

/// The digits of the unsigned part with the first decimal point taken out.
pub open spec fn decimal_digits(s: Seq<u8>) -> Seq<u8> {
    let body = unsigned_part(s);
    let k = find_byte(body, 46);
    if k < body.len() {
        body.subrange(0, k) + body.subrange(k + 1, body.len() as int)
    } else {
        body
    }
}

/// The number of digits after the decimal point.
pub open spec fn decimal_scale(s: Seq<u8>) -> int {
    let body = unsigned_part(s);
    let k = find_byte(body, 46);
    if k < body.len() {
        body.len() - k - 1
    } else {
        0
    }
}

/// The largest magnitude a mantissa may have with the given sign.
pub open spec fn mantissa_bound(negative: bool) -> nat {
    if negative {
        0x8000_0000_0000_0000
    } else {
        0x7fff_ffff_ffff_ffff
    }
}

/// The decimal that `s` spells: an optional sign, then digits with at most
/// one decimal point and at least one digit. `None` when `s` has another
/// shape, or when the digits do not fit in the mantissa.
pub open spec fn decimal_text_value(s: Seq<u8>) -> Option<FixDecimal> {
    let negative = is_negative_text(s);
    match digits_within(decimal_digits(s), mantissa_bound(negative)) {
        Some(v) => if decimal_scale(s) <= u32::MAX {
            Some(
                FixDecimal {
                    mantissa: (if negative {
                        -v
                    } else {
                        v as int
                    }) as i64,
                    scale: decimal_scale(s) as u32,
                },
            )
        } else {
            None
        },
        None => None,
    }
}

/// Reads a FIX decimal from bytes.
pub fn parse_decimal(s: &[u8]) -> (r: Option<FixDecimal>)
    ensures
        r == decimal_text_value(s@),
{
    let start: usize = if s.len() > 0 && (s[0] == 45 || s[0] == 43) {
        1
    } else {
        0
    };
    let negative = s.len() > 0 && s[0] == 45;
    let ghost body = s@.subrange(start as int, s@.len() as int);
    let dot = find_byte_from(s, start, 46);
    let mut digits: Vec<u8> = Vec::new();
    let mut i: usize = start;
    while i < s.len()
        invariant
            start <= i <= s@.len(),
            start <= dot <= s@.len(),
            digits@ == (if i <= dot {
                s@.subrange(start as int, i as int)
            } else {
                s@.subrange(start as int, dot as int) + s@.subrange(dot + 1, i as int)
            }),
        decreases s.len() - i,
    {
        if i != dot {
            digits.push(s[i]);
        }
        i = i + 1;
        proof {
            if i <= dot {
                assert(digits@ =~= s@.subrange(start as int, i as int));
            } else if i == dot + 1 {
                assert(digits@ =~= s@.subrange(start as int, dot as int) + s@.subrange(
                    dot + 1,
                    i as int,
                ));
            } else {
                assert(digits@ =~= s@.subrange(start as int, dot as int) + s@.subrange(
                    dot + 1,
                    i as int,
                ));
            }
        }
    }
    proof {
        let k = find_byte(body, 46);
        assert(k == dot - start);
        if dot < s@.len() {
            assert(body.subrange(0, k) =~= s@.subrange(start as int, dot as int));
            assert(body.subrange(k + 1, body.len() as int) =~= s@.subrange(
                dot + 1,
                s@.len() as int,
            ));
        } else {
            assert(digits@ =~= body);
        }
        assert(digits@ =~= decimal_digits(s@));
    }
    let scale_len: usize = if dot < s.len() {
        s.len() - dot - 1
    } else {
        0
    };
    let bound: u64 = if negative {
        0x8000_0000_0000_0000u64
    } else {
        0x7fff_ffff_ffff_ffffu64
    };
    match parse_digits(digits.as_slice(), bound) {
        Some(v) => {
            if scale_len > 0xffff_ffffusize {
                None
            } else if negative {
                let m: i64 = if v == 0x8000_0000_0000_0000u64 {
                    i64::MIN
                } else {
                    let p: i64 = v as i64;
                    -p
                };
                Some(FixDecimal { mantissa: m, scale: scale_len as u32 })
            } else {
                Some(FixDecimal { mantissa: v as i64, scale: scale_len as u32 })
            }
        },
        None => None,
    }
}

/// Ten to the power `n`, for exponents whose power fits in a `u128`.
pub fn pow10_u128(n: u32) -> (r: u128)
    requires
        n <= 38,
    ensures
        r as nat == pow10(n as nat),
{
    let mut r: u128 = 1;
    let mut i: u32 = 0;
    while i < n
        invariant
            i <= n <= 38,
            r as nat == pow10(i as nat),
        decreases n - i,
    {
        proof {
            lemma_pow10_monotone((i + 1) as nat, 38);
            lemma_pow10_38();
        }
        r = r * 10;
        i = i + 1;
    }
    r
}

/// Powers of ten are positive.
pub proof fn lemma_pow10_positive(n: nat)
    ensures
        pow10(n) >= 1,
    decreases n,
{
    if n > 0 {
        lemma_pow10_positive((n - 1) as nat);
    }
}

/// `d` multiplied by `10^places` and rounded toward zero, taken as zero when
/// `d` is not positive.
pub open spec fn scaled_units(d: FixDecimal, places: nat) -> nat {
    if d.mantissa <= 0 {
        0
    } else if places >= d.scale {
        (d.mantissa * pow10((places - d.scale) as nat)) as nat
    } else {
        ((d.mantissa as int) / (pow10((d.scale - places) as nat) as int)) as nat
    }
}

/// `n`, or `u64::MAX` when `n` is larger.
pub open spec fn saturate_u64(n: nat) -> u64 {
    if n > u64::MAX {
        u64::MAX
    } else {
        n as u64
    }
}

/// `d` is greater than the whole number `limit`.
pub open spec fn exceeds(d: FixDecimal, limit: nat) -> bool {
    d.mantissa > limit * pow10(d.scale as nat)
}

/// The 19th power of ten, which is above every mantissa.
pub proof fn lemma_pow10_19()
    ensures
        pow10(19) == 10000000000000000000int,
{
    reveal_with_fuel(pow10, 20);
}

/// `d` in units of `10^-places` (two places give hundredths), rounded toward
/// zero, with zero for a `d` that is not positive and `u64::MAX` for one too
/// large to count in a `u64`.
pub fn scaled_u64(d: FixDecimal, places: u32) -> (r: u64)
    requires
        places <= 4,
    ensures
        r == saturate_u64(scaled_units(d, places as nat)),
{
    if d.mantissa <= 0 {
        return 0;
    }
    let m: u128 = d.mantissa as u128;
    if places >= d.scale {
        let e: u32 = places - d.scale;
        let p = pow10_u128(e);
        proof {
            lemma_pow10_monotone(e as nat, 4);
            reveal_with_fuel(pow10, 5);
            assert(m * p <= 0x8000_0000_0000_0000u128 * 10000) by (nonlinear_arith)
                requires
                    m < 0x8000_0000_0000_0000u128,
                    p <= 10000,
            ;
        }
        let prod: u128 = m * p;
        if prod > 0xffff_ffff_ffff_ffffu128 {
            u64::MAX
        } else {
            prod as u64
        }
    } else {
        let e: u32 = d.scale - places;
        if e > 38 {
            proof {
                lemma_pow10_monotone(19, e as nat);
                lemma_pow10_19();
                assert((m as int) / (pow10(e as nat) as int) == 0) by (nonlinear_arith)
                    requires
                        m < pow10(e as nat),
                ;
            }
            0
        } else {
            let q = pow10_u128(e);
            proof {
                lemma_pow10_positive(e as nat);
                assert(m / q <= m) by (nonlinear_arith)
                    requires
                        q >= 1,
                ;
            }
            (m / q) as u64
        }
    }
}

/// Whether `d` is greater than the whole number `limit`.
pub fn exceeds_u64(d: FixDecimal, limit: u64) -> (r: bool)
    ensures
        r == exceeds(d, limit as nat),
{
    if d.mantissa <= 0 {
        proof {
            assert(limit * pow10(d.scale as nat) >= 0) by (nonlinear_arith);
        }
        return false;
    }
    let m: u128 = d.mantissa as u128;
    if d.scale > 38 {
        proof {
            lemma_pow10_monotone(19, d.scale as nat);
            lemma_pow10_19();
            if limit >= 1 {
                assert(limit * pow10(d.scale as nat) >= pow10(d.scale as nat)) by (
                nonlinear_arith)
                    requires
                        limit >= 1,
                        pow10(d.scale as nat) >= 0,
                ;
            }
        }
        return limit == 0;
    }
    let q = pow10_u128(d.scale);
    match (limit as u128).checked_mul(q) {
        Some(bound) => m > bound,
        None => false,
    }
}

/// The magnitude of the mantissa.
pub open spec fn magnitude(d: FixDecimal) -> nat {
    if d.mantissa < 0 {
        (-d.mantissa) as nat
    } else {
        d.mantissa as nat
    }
}

/// `d` written out: a `-` when negative, the whole part, and when the scale
/// is not zero a `.` and exactly `scale` digits of fraction.
pub open spec fn decimal_display(d: FixDecimal) -> Seq<char> {
    let sign = if d.mantissa < 0 {
        seq!['-']
    } else {
        Seq::empty()
    };
    let whole = decimal_text(magnitude(d) / pow10(d.scale as nat));
    if d.scale == 0 {
        sign + whole
    } else {
        sign + whole + seq!['.'] + padded_text(magnitude(d) % pow10(d.scale as nat), d.scale as nat)
    }
}

/// `d` written out as text.
pub fn decimal_to_string(d: FixDecimal) -> (r: String)
    ensures
        r@ == decimal_display(d),
{
    let mut s = String::new();
    let mag: u64 = if d.mantissa < 0 {
        if d.mantissa == i64::MIN {
            0x8000_0000_0000_0000u64
        } else {
            let p: i64 = -d.mantissa;
            p as u64
        }
    } else {
        d.mantissa as u64
    };
    if d.mantissa < 0 {
        push_char(&mut s, '-');
    }
    proof {
        lemma_pow10_positive(d.scale as nat);
    }
    let (whole, frac): (u64, u64) = if d.scale >= 19 {
        proof {
            lemma_pow10_monotone(19, d.scale as nat);
            lemma_pow10_19();
            assert((mag as nat) / pow10(d.scale as nat) == 0) by (nonlinear_arith)
                requires
                    mag < pow10(d.scale as nat),
            ;
            assert((mag as nat) % pow10(d.scale as nat) == mag) by (nonlinear_arith)
                requires
                    mag < pow10(d.scale as nat),
            ;
        }
        (0, mag)
    } else {
        let p = pow10_u128(d.scale) as u64;
        proof {
            lemma_pow10_monotone(d.scale as nat, 19);
            lemma_pow10_19();
        }
        (mag / p, mag % p)
    };
    push_decimal(&mut s, whole);
    if d.scale > 0 {
        push_char(&mut s, '.');
        push_zero_padded(&mut s, frac, d.scale);
    }
    proof {
        let sign = if d.mantissa < 0 {
            seq!['-']
        } else {
            Seq::<char>::empty()
        };
        if d.scale == 0 {
            assert(s@ =~= sign + decimal_text(whole as nat));
        } else {
            assert(s@ =~= sign + decimal_text(whole as nat) + seq!['.'] + padded_text(
                frac as nat,
                d.scale as nat,
            ));
        }
    }
    s
}

/// The 38th power of ten, the largest that a `u128` holds.
pub proof fn lemma_pow10_38()
    ensures
        pow10(38) == 100000000000000000000000000000000000000int,
{
    reveal_with_fuel(pow10, 39);
}

/// Powers of ten grow with the exponent.
pub proof fn lemma_pow10_monotone(a: nat, b: nat)
    requires
        a <= b,
    ensures
        pow10(a) <= pow10(b),
    decreases b,
{
    if a < b {
        lemma_pow10_monotone(a, (b - 1) as nat);
        lemma_pow10_positive((b - 1) as nat);
    }
}

} // verus!
