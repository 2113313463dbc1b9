//! The Lennard-Jones pair force (sigma = 1, epsilon = 1).
//!
//! With `q = r^2`, the force on particle `i` from particle `j` is
//! `24 (2 - q^3) / q^7 * (p_i - p_j)`, which needs no square root. In raw units
//! (`Q` the raw squared distance, `d` a raw separation component) a component is
//! `24 (2 SCALE^6 - Q^3) SCALE^8 d / Q^7`; the engine returns exactly that value
//! rounded once toward zero.
use vstd::prelude::*;
use vstd::arithmetic::div_mod::{lemma_div_is_ordered, lemma_div_multiples_vanish, lemma_fundamental_div_mod};
use vstd::arithmetic::power::{lemma_pow0, lemma_pow1, lemma_pow_adds, lemma_pow_positive, pow};
use crate::fixed::{tdiv, div_toward_zero, Vec3, LIMIT};

verus! {

/// `SCALE^6`: the crossover `q^3 = 2` reads `Q^3 = 2 * SCALE_POW6` in raw units.
pub const SCALE_POW6: i128 = 4398046511104;

/// `SCALE^8`.
pub const SCALE_POW8: i128 = 72057594037927936;

/// Smallest raw squared distance handled (`r >= 1/4`).
pub const Q_MIN: i128 = 1024;

/// From this raw squared distance on (`r` above about 3.2) every force component
/// is below one raw unit and rounds to zero.
pub const Q_FAR: i128 = 170000;

/// Why a pair force cannot be evaluated.
#[derive(Clone, Copy, Debug, PartialEq, Eq, Structural)]
pub enum ForceError {
    /// The two particles share a position: the direction is undefined.
    Coincident,
    /// The particles are closer than a quarter unit.
    TooClose,
    /// A force component does not fit the representable range.
    Overflow,
}

/// Raw squared distance `Q`; the squared distance in units is `Q / SCALE^2`.
pub open spec fn dist_sq(a: Vec3, b: Vec3) -> int {
    let dx = a.x - b.x;
    let dy = a.y - b.y;
    let dz = a.z - b.z;
    dx * dx + dy * dy + dz * dz
}

pub open spec fn pow7(q: int) -> int {
    q * q * q * q * q * q * q
}

/// `pow7(Q)` times the exact force component, in raw units, for raw squared
/// distance `Q` and raw separation component `d`:
/// `24 (2 - q^3) / q^7 * d` with `q = Q / SCALE^2`, scaled by `SCALE`.
pub open spec fn lj_numerator(q: int, d: int) -> int {
    24 * (2 * SCALE_POW6 - q * q * q) * SCALE_POW8 * d
}

/// The exact Lennard-Jones force component, rounded toward zero once.
pub open spec fn force_component(q: int, d: int) -> int {
    tdiv(lj_numerator(q, d), pow7(q))
}

pub open spec fn fits_i64(v: int) -> bool {
    i64::MIN < v <= i64::MAX
}

/// The force on a particle at `pi` from one at `pj`; the one at `pj` receives its negation.
pub open spec fn lj_force(pi: Vec3, pj: Vec3) -> Result<Vec3, ForceError> {
    let q = dist_sq(pi, pj);
    if q == 0 {
        Err(ForceError::Coincident)
    } else if q < Q_MIN {
        Err(ForceError::TooClose)
    } else {
        let fx = force_component(q, pi.x - pj.x);
        let fy = force_component(q, pi.y - pj.y);
        let fz = force_component(q, pi.z - pj.z);
        if fits_i64(fx) && fits_i64(fy) && fits_i64(fz) {
            Ok(Vec3 { x: fx as i64, y: fy as i64, z: fz as i64 })
        } else {
            Err(ForceError::Overflow)
        }
    }
}

/// Beyond `Q_FAR` the exact component is smaller than one raw unit.
proof fn lemma_far_component_zero(q: int, d: int)
    requires
        q >= Q_FAR,
        d * d <= q,
    ensures
        force_component(q, d) == 0,
{
    let k = SCALE_POW6 as int;
    let s8 = SCALE_POW8 as int;
    let q3 = q * q * q;
    let q4 = q3 * q;
    let q7 = q4 * q3;
    let ad = if d < 0 { -d } else { d };
    assert(ad * ad == d * d) by (nonlinear_arith)
        requires ad == d || ad == -d;
    assert(q3 >= 170000 * 170000 * 170000) by (nonlinear_arith)
        requires q >= 170000, q3 == q * q * q;
    assert(q7 >= 170000 * 170000 * 170000 * 170000 * 170000 * 170000 * 170000) by (nonlinear_arith)
        requires q >= 170000, q3 >= 170000 * 170000 * 170000, q4 == q3 * q, q7 == q4 * q3;
    assert(pow7(q) == q7) by (nonlinear_arith)
        requires q3 == q * q * q, q4 == q3 * q, q7 == q4 * q3;
    let x = 24 * s8 * ad;
    assert(x * x <= 576 * (s8 * s8) * q) by (nonlinear_arith)
        requires x == 24 * s8 * ad, ad * ad <= q, s8 > 0;
    assert(576 * (s8 * s8) * q < q7 * q) by (nonlinear_arith)
        requires 576 * (s8 * s8) < q7, q > 0;
    assert(q7 * q == q4 * q4) by (nonlinear_arith)
        requires q4 == q3 * q, q7 == q4 * q3;
    assert(q4 > 0) by (nonlinear_arith)
        requires q >= 170000, q3 >= 170000 * 170000 * 170000, q4 == q3 * q;
    assert(0 <= x < q4) by (nonlinear_arith)
        requires x * x < q4 * q4, x == 24 * s8 * ad, ad >= 0, s8 > 0, q4 > 0;
    let c = q3 - 2 * k;
    assert(0 < c <= q3);
    assert(x * c < q7) by (nonlinear_arith)
        requires 0 <= x < q4, 0 < c <= q3, q7 == q4 * q3;
    let n = lj_numerator(q, d);
    assert(n == -(24 * c * s8 * d)) by (nonlinear_arith)
        requires n == 24 * (2 * k - q * q * q) * s8 * d, c == q * q * q - 2 * k;
    if d >= 0 {
        assert(24 * c * s8 * d == x * c) by (nonlinear_arith)
            requires x == 24 * s8 * ad, ad == d;
    } else {
        assert(24 * c * s8 * d == -(x * c)) by (nonlinear_arith)
            requires x == 24 * s8 * ad, ad == -d;
    }
    assert(0 <= x * c) by (nonlinear_arith)
        requires 0 <= x, 0 < c;
    assert(-q7 < n < q7);
    if n >= 0 {
        lemma_small_quotient(n, q7);
    } else {
        lemma_small_quotient(-n, q7);
    }
}

proof fn lemma_small_quotient(n: int, m: int)
    requires
        0 <= n < m,
    ensures
        n / m == 0,
{
    vstd::arithmetic::div_mod::lemma_basic_div(n, m);
}

pub open spec fn abs(v: int) -> int {
    if v < 0 {
        -v
    } else {
        v
    }
}

/// Reversing the separation reverses the force component.
pub proof fn lemma_component_antisymmetric(q: int, d: int)
    requires
        q > 0,
    ensures
        force_component(q, -d) == -force_component(q, d),
{
    assert(lj_numerator(q, -d) == -lj_numerator(q, d)) by (nonlinear_arith);
    lemma_pow7_positive(q);
    lemma_small_quotient(0, pow7(q));
    let n = lj_numerator(q, d);
    assert(tdiv(-n, pow7(q)) == -tdiv(n, pow7(q)));
}

proof fn lemma_pow7_positive(q: int)
    requires
        q > 0,
    ensures
        pow7(q) > 0,
{
    assert(pow7(q) > 0) by (nonlinear_arith)
        requires q > 0;
}

/// Along a positive separation `d`, the force repels only inside the crossover
/// distance `r = 2^(1/6)` (where `q^3 = 2`) and attracts only beyond it; and
/// wherever the exact force is at least one raw unit, it does so with the sign
/// of `2 - q^3`.
pub proof fn lemma_sign_follows_crossover(q: int, d: int)
    requires
        q > 0,
        d > 0,
    ensures
        force_component(q, d) > 0 ==> q * q * q < 2 * SCALE_POW6,
        force_component(q, d) < 0 ==> q * q * q > 2 * SCALE_POW6,
        q * q * q < 2 * SCALE_POW6 && lj_numerator(q, d) >= pow7(q) ==> force_component(q, d) > 0,
        q * q * q > 2 * SCALE_POW6 && lj_numerator(q, d) <= -pow7(q) ==> force_component(q, d) < 0,
{
    let m = pow7(q);
    let n = lj_numerator(q, d);
    let c = 2 * SCALE_POW6 - q * q * q;
    lemma_pow7_positive(q);
    assert(n == 24 * c * SCALE_POW8 * d);
    assert(c > 0 ==> n > 0) by (nonlinear_arith)
        requires n == 24 * c * SCALE_POW8 * d, d > 0, SCALE_POW8 > 0;
    assert(c < 0 ==> n < 0) by (nonlinear_arith)
        requires n == 24 * c * SCALE_POW8 * d, d > 0, SCALE_POW8 > 0;
    assert(c == 0 ==> n == 0) by (nonlinear_arith)
        requires n == 24 * c * SCALE_POW8 * d;
    if n >= 0 {
        lemma_div_is_ordered(0, n, m);
        if n >= m {
            lemma_div_is_ordered(m, n, m);
            lemma_div_multiples_vanish(1, m);
        }
    } else {
        lemma_div_is_ordered(0, -n, m);
        if -n >= m {
            lemma_div_is_ordered(m, -n, m);
            lemma_div_multiples_vanish(1, m);
        }
    }
}

proof fn lemma_pow_step(x: int, n: nat)
    ensures
        pow(x, n + 1) == pow(x, n) * x,
{
    lemma_pow_adds(x, n, 1);
    lemma_pow1(x);
}

/// The powers of `x` that the magnitude law uses, tied to the product forms of
/// the force's definition.
proof fn lemma_powers(x: int)
    ensures
        pow(x, 6) == x * x * x * x * x * x,
        (x * x) * (x * x) * (x * x) == pow(x, 6),
        pow7(x * x) == pow(x, 14),
        pow(x, 12) == pow(x, 6) * pow(x, 6),
        pow(x, 13) == pow(x, 12) * x,
        pow(x, 14) == pow(x, 13) * x,
{
    lemma_pow0(x);
    lemma_pow_step(x, 0);
    lemma_pow_step(x, 1);
    lemma_pow_step(x, 2);
    lemma_pow_step(x, 3);
    lemma_pow_step(x, 4);
    lemma_pow_step(x, 5);
    lemma_pow_step(x, 6);
    lemma_pow_step(x, 7);
    lemma_pow_step(x, 8);
    lemma_pow_step(x, 9);
    lemma_pow_step(x, 10);
    lemma_pow_step(x, 11);
    lemma_pow_step(x, 12);
    lemma_pow_step(x, 13);
    let p6 = pow(x, 6);
    assert(p6 == x * x * x * x * x * x) by (nonlinear_arith)
        requires
            pow(x, 1) == 1 * x, pow(x, 2) == pow(x, 1) * x, pow(x, 3) == pow(x, 2) * x,
            pow(x, 4) == pow(x, 3) * x, pow(x, 5) == pow(x, 4) * x, p6 == pow(x, 5) * x;
    assert((x * x) * (x * x) * (x * x) == p6) by (nonlinear_arith)
        requires p6 == x * x * x * x * x * x;
    assert(pow(x, 12) == p6 * p6) by (nonlinear_arith)
        requires
            p6 == x * x * x * x * x * x, pow(x, 7) == p6 * x, pow(x, 8) == pow(x, 7) * x,
            pow(x, 9) == pow(x, 8) * x, pow(x, 10) == pow(x, 9) * x, pow(x, 11) == pow(x, 10) * x,
            pow(x, 12) == pow(x, 11) * x;
    assert(pow7(x * x) == pow(x, 14)) by (nonlinear_arith)
        requires
            pow7(x * x) == (x * x) * (x * x) * (x * x) * (x * x) * (x * x) * (x * x) * (x * x),
            p6 == x * x * x * x * x * x, pow(x, 12) == p6 * p6, pow(x, 13) == pow(x, 12) * x,
            pow(x, 14) == pow(x, 13) * x;
}

/// `t(i) = a^i b^(12-i)`.
pub open spec fn mono(a: int, b: int, i: nat) -> int {
    pow(a, i) * pow(b, (12 - i) as nat)
}

/// `a t(i) = b t(i+1)`, and `t` does not increase in `i` when `0 < a <= b`.
proof fn lemma_mono_step(a: int, b: int, i: nat)
    requires
        0 < a <= b,
        i < 12,
    ensures
        a * mono(a, b, i) == b * mono(a, b, i + 1),
        0 < mono(a, b, i + 1) <= mono(a, b, i),
{
    let j = (11 - i) as nat;
    assert((12 - i) as nat == j + 1);
    lemma_pow_step(a, i);
    lemma_pow_step(b, j);
    lemma_pow_positive(a, i);
    lemma_pow_positive(b, j);
    let pa = pow(a, i);
    let pb = pow(b, j);
    assert(a * (pa * (pb * b)) == b * ((pa * a) * pb)) by (nonlinear_arith);
    assert(mono(a, b, i) == pa * (pb * b));
    assert(mono(a, b, i + 1) == (pa * a) * pb);
    assert(0 < (pa * a) * pb) by (nonlinear_arith)
        requires pa > 0, a > 0, pb > 0;
    assert((pa * a) * pb <= pa * (pb * b)) by (nonlinear_arith)
        requires pa > 0, 0 < a <= b, pb > 0;
}

/// `(a^6 - k) b^13 >= (b^6 - k) a^13` for `0 < a <= b` and `13 k <= 7 a^6`.
proof fn lemma_magnitude_polynomial(a: int, b: int, k: int)
    requires
        0 < a <= b,
        0 <= k,
        13 * k <= 7 * pow(a, 6),
    ensures
        (pow(a, 6) - k) * pow(b, 13) >= (pow(b, 6) - k) * pow(a, 13),
{
    lemma_powers(a);
    lemma_powers(b);
    let t0 = mono(a, b, 0);
    let t1 = mono(a, b, 1);
    let t2 = mono(a, b, 2);
    let t3 = mono(a, b, 3);
    let t4 = mono(a, b, 4);
    let t5 = mono(a, b, 5);
    let t6 = mono(a, b, 6);
    let t7 = mono(a, b, 7);
    let t8 = mono(a, b, 8);
    let t9 = mono(a, b, 9);
    let t10 = mono(a, b, 10);
    let t11 = mono(a, b, 11);
    let t12 = mono(a, b, 12);
    lemma_mono_step(a, b, 0);
    lemma_mono_step(a, b, 1);
    lemma_mono_step(a, b, 2);
    lemma_mono_step(a, b, 3);
    lemma_mono_step(a, b, 4);
    lemma_mono_step(a, b, 5);
    lemma_mono_step(a, b, 6);
    lemma_mono_step(a, b, 7);
    lemma_mono_step(a, b, 8);
    lemma_mono_step(a, b, 9);
    lemma_mono_step(a, b, 10);
    lemma_mono_step(a, b, 11);
    lemma_pow0(a);
    lemma_pow0(b);
    assert(t0 == pow(b, 12));
    assert(t12 == pow(a, 12));
    assert(t6 == pow(a, 6) * pow(b, 6));
    let l = t0 + t1 + t2 + t3 + t4 + t5 + t6;
    let t = l + t7 + t8 + t9 + t10 + t11 + t12;
    assert(13 * l >= 7 * t);
    let a6 = pow(a, 6);
    let b6 = pow(b, 6);
    lemma_pow_positive(a, 6);
    assert((b - a) * l == b * l - a * l) by (nonlinear_arith);
    assert((b - a) * t == b * t - a * t) by (nonlinear_arith);
    assert(b * l == b * t0 + b * t1 + b * t2 + b * t3 + b * t4 + b * t5 + b * t6) by (nonlinear_arith)
        requires l == t0 + t1 + t2 + t3 + t4 + t5 + t6;
    assert(a * l == a * t0 + a * t1 + a * t2 + a * t3 + a * t4 + a * t5 + a * t6) by (nonlinear_arith)
        requires l == t0 + t1 + t2 + t3 + t4 + t5 + t6;
    assert(b * t == b * l + b * t7 + b * t8 + b * t9 + b * t10 + b * t11 + b * t12) by (nonlinear_arith)
        requires t == l + t7 + t8 + t9 + t10 + t11 + t12;
    assert(a * t == a * l + a * t7 + a * t8 + a * t9 + a * t10 + a * t11 + a * t12) by (nonlinear_arith)
        requires t == l + t7 + t8 + t9 + t10 + t11 + t12;
    assert((b - a) * l == b * t0 - a * t6);
    assert((b - a) * t == b * t0 - a * t12);
    assert(0 <= t) by (nonlinear_arith)
        requires t == l + t7 + t8 + t9 + t10 + t11 + t12, 0 < t12 <= t11 <= t10 <= t9 <= t8 <= t7 <= t6,
            l >= 0, t6 > 0, l == t0 + t1 + t2 + t3 + t4 + t5 + t6, t6 <= t5 <= t4 <= t3 <= t2 <= t1 <= t0;
    assert(13 * (a6 * l) >= 7 * (a6 * t)) by (nonlinear_arith)
        requires 13 * l >= 7 * t, a6 > 0;
    assert(13 * (k * t) <= 7 * (a6 * t)) by (nonlinear_arith)
        requires 13 * k <= 7 * a6, t >= 0;
    let g = a6 * l - k * t;
    assert(g >= 0);
    assert(0 <= (b - a) * g) by (nonlinear_arith)
        requires b - a >= 0, g >= 0;
    assert((b - a) * g == a6 * ((b - a) * l) - k * ((b - a) * t)) by (nonlinear_arith)
        requires g == a6 * l - k * t;
    let a13 = pow(a, 13);
    let b13 = pow(b, 13);
    assert(b * t0 == b13) by (nonlinear_arith)
        requires t0 == pow(b, 12), b13 == pow(b, 12) * b;
    assert(a * t12 == a13) by (nonlinear_arith)
        requires t12 == pow(a, 12), a13 == pow(a, 12) * a;
    assert(a6 * (a * t6) == b6 * a13) by (nonlinear_arith)
        requires t6 == a6 * b6, a13 == pow(a, 12) * a, pow(a, 12) == a6 * a6;
    assert(a6 * (b * t0 - a * t6) == a6 * b13 - a6 * (a * t6)) by (nonlinear_arith)
        requires b * t0 == b13;
    assert(k * (b * t0 - a * t12) == k * b13 - k * a13) by (nonlinear_arith)
        requires b * t0 == b13, a * t12 == a13;
    assert((a6 - k) * b13 == a6 * b13 - k * b13) by (nonlinear_arith);
    assert((b6 - k) * a13 == b6 * a13 - k * a13) by (nonlinear_arith);
}

/// `n / m <= n2 / m2` for nonnegative `n, n2` and positive `m, m2` with `n m2 <= n2 m`.
proof fn lemma_quotient_order(n: int, m: int, n2: int, m2: int)
    requires
        0 <= n,
        0 <= n2,
        0 < m,
        0 < m2,
        n * m2 <= n2 * m,
    ensures
        n / m <= n2 / m2,
{
    let f = n / m;
    lemma_fundamental_div_mod(n, m);
    assert(f * m <= n);
    assert(f * m * m2 <= n2 * m) by (nonlinear_arith)
        requires f * m <= n, n * m2 <= n2 * m, m2 > 0;
    assert(f * m2 <= n2) by (nonlinear_arith)
        requires f * m * m2 <= n2 * m, m > 0;
    lemma_div_multiples_vanish(f, m2);
    assert(m2 * f == f * m2);
    lemma_div_is_ordered(f * m2, n2, m2);
}

/// Along a line through the other particle, beyond the inflection point
/// `r^6 = 26/7` of the force, the force magnitude does not grow with distance:
/// `a` and `b` are raw distances, `a <= b`.
pub proof fn lemma_force_weakens_with_distance(a: int, b: int)
    requires
        0 < a <= b,
        7 * (a * a * a * a * a * a) >= 26 * SCALE_POW6,
    ensures
        force_component(a * a, a) <= 0,
        force_component(b * b, b) <= 0,
        abs(force_component(b * b, b)) <= abs(force_component(a * a, a)),
{
    let k = 2 * (SCALE_POW6 as int);
    let s8 = SCALE_POW8 as int;
    lemma_powers(a);
    lemma_powers(b);
    let a6 = pow(a, 6);
    let b6 = pow(b, 6);
    lemma_pow_positive(a, 13);
    lemma_pow_positive(b, 13);
    assert(a * a * a * a * a * a <= b * b * b * b * b * b) by (nonlinear_arith)
        requires 0 < a <= b;
    assert(a6 > k);
    let ma = pow(a, 14);
    let mb = pow(b, 14);
    let na = 24 * (a6 - k) * s8 * a;
    let nb = 24 * (b6 - k) * s8 * b;
    assert(lj_numerator(a * a, a) == -na) by (nonlinear_arith)
        requires na == 24 * (a6 - k) * s8 * a, (a * a) * (a * a) * (a * a) == a6, k == 2 * SCALE_POW6,
            s8 == SCALE_POW8;
    assert(lj_numerator(b * b, b) == -nb) by (nonlinear_arith)
        requires nb == 24 * (b6 - k) * s8 * b, (b * b) * (b * b) * (b * b) == b6, k == 2 * SCALE_POW6,
            s8 == SCALE_POW8;
    assert(0 < na) by (nonlinear_arith)
        requires na == 24 * (a6 - k) * s8 * a, a6 > k, s8 > 0, a > 0;
    assert(0 < nb) by (nonlinear_arith)
        requires nb == 24 * (b6 - k) * s8 * b, b6 > k, s8 > 0, b > 0;
    assert(13 * k <= 7 * a6);
    lemma_magnitude_polynomial(a, b, k);
    let p = (a6 - k) * pow(b, 13) - (b6 - k) * pow(a, 13);
    assert(p >= 0);
    let a13 = pow(a, 13);
    let b13 = pow(b, 13);
    let e = 24 * s8;
    assert(na == e * a * (a6 - k)) by (nonlinear_arith)
        requires na == 24 * (a6 - k) * s8 * a, e == 24 * s8;
    assert(nb == e * b * (b6 - k)) by (nonlinear_arith)
        requires nb == 24 * (b6 - k) * s8 * b, e == 24 * s8;
    assert(na * mb == (e * a * b) * ((a6 - k) * b13)) by (nonlinear_arith)
        requires na == e * a * (a6 - k), mb == b13 * b;
    assert(nb * ma == (e * a * b) * ((b6 - k) * a13)) by (nonlinear_arith)
        requires nb == e * b * (b6 - k), ma == a13 * a;
    assert(na * mb - nb * ma == (e * a * b) * p) by (nonlinear_arith)
        requires
            na * mb == (e * a * b) * ((a6 - k) * b13),
            nb * ma == (e * a * b) * ((b6 - k) * a13),
            p == (a6 - k) * b13 - (b6 - k) * a13;
    assert(0 <= (e * a * b) * p) by (nonlinear_arith)
        requires e > 0, a > 0, b > 0, p >= 0;
    assert(ma > 0 && mb > 0) by (nonlinear_arith)
        requires ma == pow(a, 13) * a, mb == pow(b, 13) * b, pow(a, 13) > 0, pow(b, 13) > 0, a > 0, b > 0;
    lemma_quotient_order(nb, mb, na, ma);
    lemma_div_is_ordered(0, na, ma);
    lemma_div_is_ordered(0, nb, mb);
}

/// Raw difference of two bounded components.
fn diff(a: i64, b: i64) -> (d: i128)
    requires
        -LIMIT <= a <= LIMIT,
        -LIMIT <= b <= LIMIT,
    ensures
        d == a - b,
        -2 * LIMIT <= d <= 2 * LIMIT,
{
    a as i128 - b as i128
}

/// One force component for `Q_MIN <= q < Q_FAR`, or `None` when it does not fit an `i64`.
fn component(q: i128, d: i128) -> (r: Option<i64>)
    requires
        Q_MIN <= q < Q_FAR,
        d * d <= q,
    ensures
        r is Some <==> fits_i64(force_component(q as int, d as int)),
        r matches Some(v) ==> v == force_component(q as int, d as int),
{
    assert(-413 < d < 413) by (nonlinear_arith)
        requires d * d <= q, q < 170000;
    assert(0 < q * q <= 0x8_0000_0000) by (nonlinear_arith)
        requires 1024 <= q < 170000;
    assert(0 < q * q * q <= 0x20_0000_0000_0000) by (nonlinear_arith)
        requires 1024 <= q < 170000, 0 < q * q <= 0x8_0000_0000;
    let q3 = q * q * q;
    assert(0 < q3 * q3 <= 0x400_0000_0000_0000_0000_0000_0000) by (nonlinear_arith)
        requires 0 < q3 <= 0x20_0000_0000_0000;
    assert(0 < q3 * q3 * q <= 170000 * 170000 * 170000 * 170000 * 170000 * 170000 * 170000) by (nonlinear_arith)
        requires 0 < q3 == q * q * q, 1024 <= q < 170000;
    let q7 = q3 * q3 * q;
    assert(q7 == pow7(q as int)) by (nonlinear_arith)
        requires q3 == q * q * q, q7 == q3 * q3 * q;
    let c = 2 * SCALE_POW6 - q3;
    assert(-0x20_0000_0000_0000 <= c <= 0x20_0000_0000_0000);
    assert(-0x4000_0000_0000_0000_0000_0000_0000_0000 < 24 * c * SCALE_POW8 * d
        < 0x4000_0000_0000_0000_0000_0000_0000_0000) by (nonlinear_arith)
        requires
            -0x20_0000_0000_0000 <= c <= 0x20_0000_0000_0000,
            -413 < d < 413,
            SCALE_POW8 == 72057594037927936;
    let n = 24 * c * SCALE_POW8 * d;
    let f = div_toward_zero(n, q7);
    if (i64::MIN as i128) < f && f <= (i64::MAX as i128) {
        Some(f as i64)
    } else {
        None
    }
}

/// The Lennard-Jones force on the particle at `pi` from the particle at `pj`.
pub fn force(pi: Vec3, pj: Vec3) -> (r: Result<Vec3, ForceError>)
    requires
        pi.bounded(),
        pj.bounded(),
    ensures
        r == lj_force(pi, pj),
{
    let dx = diff(pi.x, pj.x);
    let dy = diff(pi.y, pj.y);
    let dz = diff(pi.z, pj.z);
    assert(0 <= dx * dx <= 0x4_0000_0000_0000_0000_0000) by (nonlinear_arith)
        requires -0x200_0000_0000 <= dx <= 0x200_0000_0000;
    assert(0 <= dy * dy <= 0x4_0000_0000_0000_0000_0000) by (nonlinear_arith)
        requires -0x200_0000_0000 <= dy <= 0x200_0000_0000;
    assert(0 <= dz * dz <= 0x4_0000_0000_0000_0000_0000) by (nonlinear_arith)
        requires -0x200_0000_0000 <= dz <= 0x200_0000_0000;
    let q = dx * dx + dy * dy + dz * dz;
    if q == 0 {
        return Err(ForceError::Coincident);
    }
    if q < Q_MIN {
        return Err(ForceError::TooClose);
    }
    if q >= Q_FAR {
        proof {
            lemma_far_component_zero(q as int, dx as int);
            lemma_far_component_zero(q as int, dy as int);
            lemma_far_component_zero(q as int, dz as int);
        }
        return Ok(Vec3 { x: 0, y: 0, z: 0 });
    }
    let fx = component(q, dx);
    let fy = component(q, dy);
    let fz = component(q, dz);
    match (fx, fy, fz) {
        (Some(x), Some(y), Some(z)) => Ok(Vec3 { x, y, z }),
        _ => Err(ForceError::Overflow),
    }
}

} // verus!
