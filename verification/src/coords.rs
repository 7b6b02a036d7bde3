//! Coordinates extracted from photo metadata.
//!
//! A GPS coordinate arrives as a degree/minute/second triple of rationals.
//! It is normalized to fixed-point microdegrees (degrees scaled by
//! 1_000_000), which is exactly the resolution of the six-decimal canonical
//! cache key, so the key can be computed and reasoned about exactly.
use crate::strutil::{push_char, spec_dec, spec_digit, u64_to_dec};
use vstd::arithmetic::div_mod::{lemma_fundamental_div_mod, lemma_mod_division_less_than_divisor};
use vstd::prelude::*;

verus! {

/// A latitude/longitude pair in microdegrees.
#[derive(Clone, Copy)]
pub struct CoordinatePair {
    /// Latitude in microdegrees.
    pub lat: u64,
    /// Longitude in microdegrees.
    pub lon: u64,
}

/// A degree/minute/second value is well formed when it has exactly three
/// rational components, none with a zero denominator.
pub open spec fn spec_triple_wf(t: Seq<(u32, u32)>) -> bool {
    &&& t.len() == 3
    &&& t[0].1 != 0
    &&& t[1].1 != 0
    &&& t[2].1 != 0
}

/// Numerator of the exact value of the triple in microdegrees, over the
/// common denominator `spec_dms_den`:
/// `1_000_000 * (d + m / 60 + s / 3600)`.
pub open spec fn spec_dms_num(t: Seq<(u32, u32)>) -> int {
    1000000 * (3600 * t[0].0 * t[1].1 * t[2].1 + 60 * t[1].0 * t[0].1 * t[2].1 + t[2].0 * t[0].1
        * t[1].1)
}

/// Common denominator of the exact value of the triple.
pub open spec fn spec_dms_den(t: Seq<(u32, u32)>) -> int {
    3600 * t[0].1 * t[1].1 * t[2].1
}

/// `m` microdegrees lies within 1.5 microdegrees of the exact
/// decimal-degrees value `d + m/60 + s/3600` of the triple (three
/// roundings-to-nearest of half a microdegree each).
pub open spec fn spec_dms_close(t: Seq<(u32, u32)>, m: int) -> bool {
    -3 * spec_dms_den(t) <= 2 * (spec_dms_den(t) * m - spec_dms_num(t)) <= 3 * spec_dms_den(t)
}

/// `a / b` rounded to the nearest integer (half rounds up).
fn round_ratio(a: u64, b: u64) -> (q: u64)
    requires
        1 <= b <= 20_000_000_000_000,
        a <= 5_000_000_000_000_000,
    ensures
        -(b as int) < 2 * (b as int * q - a as int) <= b as int,
        q <= a,
    {
    let num: u64 = 2 * a + b;
    let den: u64 = 2 * b;
    let q: u64 = num / den;
    proof {
        lemma_fundamental_div_mod(num as int, den as int);
        lemma_mod_division_less_than_divisor(num as int, den as int);
        let rr = (num as int) % (den as int);
        assert(-(b as int) < 2 * (b as int * q - a as int) <= b as int && q <= a)
            by (nonlinear_arith)
            requires
                num as int == den as int * (q as int) + rr,
                0 <= rr < den as int,
                den as int == 2 * (b as int),
                num as int == 2 * (a as int) + b as int,
                b >= 1,
                q >= 0,
                a >= 0,
        {
        }
    }
    q
}

proof fn lemma_scale_bound(e: int, b: int, k: int)
    by (nonlinear_arith)
    requires
        -b < e <= b,
        k >= 1,
    ensures
        -(b * k) < e * k <= b * k,
{
}

/// Converts a degree/minute/second rational triple to microdegrees,
/// rounding each component to the nearest microdegree. Returns `None`
/// exactly when the triple is malformed (wrong arity or a zero
/// denominator).
pub fn dms_to_microdeg(t: &Vec<(u32, u32)>) -> (r: Option<u64>)
    ensures
        r is Some <==> spec_triple_wf(t@),
        r matches Some(m) ==> spec_dms_close(t@, m as int),
{
    if t.len() != 3 {
        return None;
    }
    let (n0, d0) = t[0];
    let (n1, d1) = t[1];
    let (n2, d2) = t[2];
    if d0 == 0 || d1 == 0 || d2 == 0 {
        return None;
    }
    let a0: u64 = n0 as u64 * 1000000;
    let a1: u64 = n1 as u64 * 1000000;
    let a2: u64 = n2 as u64 * 1000000;
    let b0: u64 = d0 as u64;
    let b1: u64 = 60 * d1 as u64;
    let b2: u64 = 3600 * d2 as u64;
    let t0: u64 = round_ratio(a0, b0);
    let t1: u64 = round_ratio(a1, b1);
    let t2: u64 = round_ratio(a2, b2);
    let m: u64 = t0 + t1 + t2;
    proof {
        let den = spec_dms_den(t@);
        let num = spec_dms_num(t@);
        let k0 = 3600 * (d1 as int) * (d2 as int);
        let k1 = 60 * (d0 as int) * (d2 as int);
        let k2 = (d0 as int) * (d1 as int);
        assert(k0 >= 1 && k1 >= 1 && k2 >= 1) by (nonlinear_arith)
            requires
                k0 == 3600 * (d1 as int) * (d2 as int),
                k1 == 60 * (d0 as int) * (d2 as int),
                k2 == (d0 as int) * (d1 as int),
                d0 >= 1,
                d1 >= 1,
                d2 >= 1,
        {
        }
        assert(den == 3600 * (d0 as int) * (d1 as int) * (d2 as int));
        assert(den == (b0 as int) * k0 && den == (b1 as int) * k1 && den == (b2 as int) * k2)
            by (nonlinear_arith)
            requires
                den == 3600 * (d0 as int) * (d1 as int) * (d2 as int),
                k0 == 3600 * (d1 as int) * (d2 as int),
                k1 == 60 * (d0 as int) * (d2 as int),
                k2 == (d0 as int) * (d1 as int),
                b0 as int == d0 as int,
                b1 as int == 60 * (d1 as int),
                b2 as int == 3600 * (d2 as int),
        {
        }
        assert(num == 1000000 * (3600 * (n0 as int) * (d1 as int) * (d2 as int) + 60 * (n1 as int)
            * (d0 as int) * (d2 as int) + (n2 as int) * (d0 as int) * (d1 as int)));
        assert(num == (a0 as int) * k0 + (a1 as int) * k1 + (a2 as int) * k2) by (nonlinear_arith)
            requires
                num == 1000000 * (3600 * (n0 as int) * (d1 as int) * (d2 as int) + 60 * (
                n1 as int) * (d0 as int) * (d2 as int) + (n2 as int) * (d0 as int) * (d1 as int)),
                k0 == 3600 * (d1 as int) * (d2 as int),
                k1 == 60 * (d0 as int) * (d2 as int),
                k2 == (d0 as int) * (d1 as int),
                a0 as int == (n0 as int) * 1000000,
                a1 as int == (n1 as int) * 1000000,
                a2 as int == (n2 as int) * 1000000,
        {
        }
        lemma_scale_bound(2 * (b0 as int * t0 - a0 as int), b0 as int, k0);
        lemma_scale_bound(2 * (b1 as int * t1 - a1 as int), b1 as int, k1);
        lemma_scale_bound(2 * (b2 as int * t2 - a2 as int), b2 as int, k2);
        assert(-den < 2 * (den * (t0 as int) - (a0 as int) * k0) <= den) by (nonlinear_arith)
            requires
                -((b0 as int) * k0) < 2 * ((b0 as int) * (t0 as int) - a0 as int) * k0 <= (
                b0 as int) * k0,
                den == (b0 as int) * k0,
        {
        }
        assert(-den < 2 * (den * (t1 as int) - (a1 as int) * k1) <= den) by (nonlinear_arith)
            requires
                -((b1 as int) * k1) < 2 * ((b1 as int) * (t1 as int) - a1 as int) * k1 <= (
                b1 as int) * k1,
                den == (b1 as int) * k1,
        {
        }
        assert(-den < 2 * (den * (t2 as int) - (a2 as int) * k2) <= den) by (nonlinear_arith)
            requires
                -((b2 as int) * k2) < 2 * ((b2 as int) * (t2 as int) - a2 as int) * k2 <= (
                b2 as int) * k2,
                den == (b2 as int) * k2,
        {
        }
        assert(2 * (den * (m as int) - num) == 2 * (den * (t0 as int) - (a0 as int) * k0) + 2 * (
        den * (t1 as int) - (a1 as int) * k1) + 2 * (den * (t2 as int) - (a2 as int) * k2))
            by (nonlinear_arith)
            requires
                m as int == t0 as int + t1 as int + t2 as int,
                num == (a0 as int) * k0 + (a1 as int) * k1 + (a2 as int) * k2,
        {
        }
        assert(-3 * den <= 2 * (den * (m as int) - num) <= 3 * den);
        assert(spec_dms_close(t@, m as int));
    }
    Some(m)
}

/// Exactly six decimal digits, the value of `f` zero-padded.
pub open spec fn spec_pad6(f: int) -> Seq<char> {
    seq![
        spec_digit(f / 100000 % 10),
        spec_digit(f / 10000 % 10),
        spec_digit(f / 1000 % 10),
        spec_digit(f / 100 % 10),
        spec_digit(f / 10 % 10),
        spec_digit(f % 10),
    ]
}

/// The six-decimal rendering of a microdegree value: integer degrees, a
/// dot, then exactly six fractional digits.
pub open spec fn spec_fmt_micro(m: int) -> Seq<char> {
    spec_dec((m / 1000000) as nat) + seq!['.'] + spec_pad6(m % 1000000)
}

/// The canonical cache key of a pair: both components at fixed six-decimal
/// precision, joined by a comma. This string is the only cache identity.
pub open spec fn spec_key(p: CoordinatePair) -> Seq<char> {
    spec_fmt_micro(p.lat as int) + seq![','] + spec_fmt_micro(p.lon as int)
}

fn digit_of(f: u64) -> (c: char)
    ensures
        c == spec_digit(f as int % 10),
{
    let d: u64 = f % 10;
    crate::strutil::digit_char(d)
}

fn pad6(f: u64) -> (r: String)
    requires
        f < 1000000,
    ensures
        r@ == spec_pad6(f as int),
{
    let mut s = String::new();
    push_char(&mut s, digit_of(f / 100000));
    push_char(&mut s, digit_of(f / 10000));
    push_char(&mut s, digit_of(f / 1000));
    push_char(&mut s, digit_of(f / 100));
    push_char(&mut s, digit_of(f / 10));
    push_char(&mut s, digit_of(f));
    proof {
        assert(s@ =~= spec_pad6(f as int));
    }
    s
}

fn fmt_micro(m: u64) -> (r: String)
    ensures
        r@ == spec_fmt_micro(m as int),
{
    let mut s = u64_to_dec(m / 1000000);
    push_char(&mut s, '.');
    let frac = pad6(m % 1000000);
    s.append(frac.as_str());
    proof {
        assert(s@ =~= spec_fmt_micro(m as int));
    }
    s
}

/// Formats the canonical cache key of a coordinate pair.
pub fn canonical_key(p: &CoordinatePair) -> (r: String)
    ensures
        r@ == spec_key(*p),
{
    let mut s = fmt_micro(p.lat);
    push_char(&mut s, ',');
    let lon = fmt_micro(p.lon);
    s.append(lon.as_str());
    proof {
        assert(s@ =~= spec_key(*p));
    }
    s
}

/// Key formatting is a pure function of the pair: equal pairs always format
/// to the same key. In the microdegree representation, two pairs that agree
/// to within half a microdegree (5e-7 degrees) in each component are the
/// same pair, so they share a key.
pub proof fn lemma_key_deterministic(a: CoordinatePair, b: CoordinatePair)
    requires
        a.lat == b.lat,
        a.lon == b.lon,
    ensures
        spec_key(a) == spec_key(b),
{
}

} // verus!
