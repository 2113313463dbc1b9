//! Particles and the per-particle operators: integration and the two perturbations.
use vstd::prelude::*;
use crate::fixed::{in_range, tdiv, Vec3, LIMIT, SCALE};

verus! {

/// Largest raw time step accepted (256 units).
pub const DT_MAX: i64 = 1048576;

/// Thermal bias per component is `temperature / THERMAL_DIVISOR` (the constant `k = 0.01`).
pub const THERMAL_DIVISOR: i64 = 100;

/// One point particle.
#[derive(Clone, Copy, Debug, PartialEq, Eq, Structural)]
pub struct Particle {
    pub id: u64,
    pub position: Vec3,
    pub velocity: Vec3,
    pub mass: i64,
}

/// An additive perturbation of a particle's position and velocity.
#[derive(Clone, Copy, Debug, PartialEq, Eq, Structural)]
pub struct Jitter {
    pub position: Vec3,
    pub velocity: Vec3,
}

impl Particle {
    pub fn new(id: u64, position: Vec3, velocity: Vec3, mass: i64) -> (r: Particle)
        ensures
            r == (Particle { id, position, velocity, mass }),
    {
        Particle { id, position, velocity, mass }
    }

    /// Positive mass, and position and velocity inside the working range.
    pub open spec fn valid(self) -> bool {
        self.mass > 0 && self.position.bounded() && self.velocity.bounded()
    }

    /// Same identity and mass, new position and velocity.
    pub open spec fn moved(self, position: Vec3, velocity: Vec3) -> Particle {
        Particle { id: self.id, position, velocity, mass: self.mass }
    }
}

impl Jitter {
    pub fn zero() -> (r: Jitter)
        ensures
            r.position.is_zero(),
            r.velocity.is_zero(),
    {
        Jitter { position: Vec3::zero(), velocity: Vec3::zero() }
    }

    /// Every component has magnitude at most `bound`.
    pub open spec fn within(self, bound: int) -> bool {
        &&& -bound <= self.position.x <= bound
        &&& -bound <= self.position.y <= bound
        &&& -bound <= self.position.z <= bound
        &&& -bound <= self.velocity.x <= bound
        &&& -bound <= self.velocity.y <= bound
        &&& -bound <= self.velocity.z <= bound
    }
}

pub open spec fn valid_dt(dt: int) -> bool {
    0 < dt <= DT_MAX
}

/// New velocity component: `v + (f / m) * dt`.
pub open spec fn velocity_after(v: int, f: int, m: int, dt: int) -> int {
    v + tdiv(f * dt, m)
}

/// New position component from the new velocity: `x + v_new * dt`.
pub open spec fn position_after(x: int, v_new: int, dt: int) -> int {
    x + tdiv(v_new * dt, SCALE as int)
}

pub open spec fn bounded3(x: int, y: int, z: int) -> bool {
    in_range(x) && in_range(y) && in_range(z)
}

/// Semi-implicit Euler: velocity first, then position with the new velocity.
/// `None` when the new state leaves the working range.
pub open spec fn integrate_spec(p: Particle, f: Vec3, dt: int) -> Option<Particle> {
    let m = p.mass as int;
    let vx = velocity_after(p.velocity.x as int, f.x as int, m, dt);
    let vy = velocity_after(p.velocity.y as int, f.y as int, m, dt);
    let vz = velocity_after(p.velocity.z as int, f.z as int, m, dt);
    let x = position_after(p.position.x as int, vx, dt);
    let y = position_after(p.position.y as int, vy, dt);
    let z = position_after(p.position.z as int, vz, dt);
    if bounded3(vx, vy, vz) && bounded3(x, y, z) {
        Some(p.moved(
            Vec3 { x: x as i64, y: y as i64, z: z as i64 },
            Vec3 { x: vx as i64, y: vy as i64, z: vz as i64 },
        ))
    } else {
        None
    }
}

/// The per-component velocity shift of the thermal bias.
pub open spec fn thermal_shift(temperature: int) -> int {
    temperature / (THERMAL_DIVISOR as int)
}

/// Adds the thermal shift to every velocity component.
pub open spec fn thermal_spec(p: Particle, temperature: int) -> Option<Particle> {
    let s = thermal_shift(temperature);
    let vx = p.velocity.x + s;
    let vy = p.velocity.y + s;
    let vz = p.velocity.z + s;
    if bounded3(vx, vy, vz) {
        Some(p.moved(p.position, Vec3 { x: vx as i64, y: vy as i64, z: vz as i64 }))
    } else {
        None
    }
}

/// Adds each jitter component to the matching position or velocity component.
pub open spec fn jitter_spec(p: Particle, j: Jitter) -> Option<Particle> {
    let x = p.position.x + j.position.x;
    let y = p.position.y + j.position.y;
    let z = p.position.z + j.position.z;
    let vx = p.velocity.x + j.velocity.x;
    let vy = p.velocity.y + j.velocity.y;
    let vz = p.velocity.z + j.velocity.z;
    if bounded3(x, y, z) && bounded3(vx, vy, vz) {
        Some(p.moved(
            Vec3 { x: x as i64, y: y as i64, z: z as i64 },
            Vec3 { x: vx as i64, y: vy as i64, z: vz as i64 },
        ))
    } else {
        None
    }
}

/// `a + b` when it lies in the working range.
fn checked_sum(a: i128, b: i128) -> (r: Option<i64>)
    requires
        -0x1_0000_0000_0000_0000_0000_0000 <= a <= 0x1_0000_0000_0000_0000_0000_0000,
        -0x1_0000_0000_0000_0000_0000_0000 <= b <= 0x1_0000_0000_0000_0000_0000_0000,
    ensures
        r is Some <==> in_range(a + b),
        r matches Some(v) ==> v == a + b,
{
    let s = a + b;
    if -(LIMIT as i128) <= s && s <= LIMIT as i128 {
        Some(s as i64)
    } else {
        None
    }
}

/// One component of the integrator: `(x_new, v_new)`.
fn step_component(x: i64, v: i64, f: i64, m: i64, dt: i64) -> (r: Option<(i64, i64)>)
    requires
        in_range(x as int),
        in_range(v as int),
        m > 0,
        valid_dt(dt as int),
    ensures
        ({
            let vn = velocity_after(v as int, f as int, m as int, dt as int);
            let xn = position_after(x as int, vn, dt as int);
            &&& r is Some <==> (in_range(vn) && in_range(xn))
            &&& r matches Some(t) ==> t.0 == xn && t.1 == vn
        }),
{
    assert(-0x80_0000_0000_0000_0000_0000 <= (f as int) * (dt as int) <= 0x80_0000_0000_0000_0000_0000)
        by (nonlinear_arith)
        requires
            -0x8000_0000_0000_0000 <= f <= 0x8000_0000_0000_0000,
            0 < dt <= 0x10_0000;
    let dv = crate::fixed::div_toward_zero(f as i128 * dt as i128, m as i128);
    assert(-0x80_0000_0000_0000_0000_0000 <= tdiv((f as int) * (dt as int), m as int)
        <= 0x80_0000_0000_0000_0000_0000) by (nonlinear_arith)
        requires
            -0x80_0000_0000_0000_0000_0000 <= (f as int) * (dt as int) <= 0x80_0000_0000_0000_0000_0000,
            m >= 1;
    let vn = match checked_sum(v as i128, dv) {
        Some(s) => s,
        None => {
            return None;
        },
    };
    assert(-0x100_0000_0000_0000_0000 <= (vn as int) * (dt as int) <= 0x100_0000_0000_0000_0000)
        by (nonlinear_arith)
        requires
            -0x100_0000_0000 <= vn <= 0x100_0000_0000,
            0 < dt <= 0x10_0000;
    let dx = crate::fixed::div_toward_zero(vn as i128 * dt as i128, SCALE as i128);
    assert(-0x100_0000_0000_0000_0000 <= tdiv((vn as int) * (dt as int), SCALE as int)
        <= 0x100_0000_0000_0000_0000) by (nonlinear_arith)
        requires
            -0x100_0000_0000_0000_0000 <= (vn as int) * (dt as int) <= 0x100_0000_0000_0000_0000;
    match checked_sum(x as i128, dx) {
        Some(xn) => Some((xn, vn)),
        None => None,
    }
}

/// Advances a particle by one semi-implicit Euler step under force `f`.
pub fn integrate(p: &Particle, f: Vec3, dt: i64) -> (r: Option<Particle>)
    requires
        p.valid(),
        valid_dt(dt as int),
    ensures
        r == integrate_spec(*p, f, dt as int),
{
    let cx = step_component(p.position.x, p.velocity.x, f.x, p.mass, dt);
    let cy = step_component(p.position.y, p.velocity.y, f.y, p.mass, dt);
    let cz = step_component(p.position.z, p.velocity.z, f.z, p.mass, dt);
    match (cx, cy, cz) {
        (Some((x, vx)), Some((y, vy)), Some((z, vz))) => Some(
            Particle {
                id: p.id,
                position: Vec3 { x, y, z },
                velocity: Vec3 { x: vx, y: vy, z: vz },
                mass: p.mass,
            },
        ),
        _ => None,
    }
}

/// Shifts every velocity component by `temperature / THERMAL_DIVISOR`.
pub fn thermal_bias(p: &Particle, temperature: i64) -> (r: Option<Particle>)
    requires
        p.valid(),
        0 <= temperature <= LIMIT,
    ensures
        r == thermal_spec(*p, temperature as int),
{
    let s = temperature / THERMAL_DIVISOR;
    let vx = checked_sum(p.velocity.x as i128, s as i128);
    let vy = checked_sum(p.velocity.y as i128, s as i128);
    let vz = checked_sum(p.velocity.z as i128, s as i128);
    match (vx, vy, vz) {
        (Some(x), Some(y), Some(z)) => Some(
            Particle {
                id: p.id,
                position: p.position,
                velocity: Vec3 { x, y, z },
                mass: p.mass,
            },
        ),
        _ => None,
    }
}

/// Adds a drawn jitter to the particle's position and velocity.
pub fn apply_jitter(p: &Particle, j: &Jitter) -> (r: Option<Particle>)
    requires
        p.valid(),
        j.within(LIMIT as int),
    ensures
        r == jitter_spec(*p, *j),
{
    let x = checked_sum(p.position.x as i128, j.position.x as i128);
    let y = checked_sum(p.position.y as i128, j.position.y as i128);
    let z = checked_sum(p.position.z as i128, j.position.z as i128);
    let vx = checked_sum(p.velocity.x as i128, j.velocity.x as i128);
    let vy = checked_sum(p.velocity.y as i128, j.velocity.y as i128);
    let vz = checked_sum(p.velocity.z as i128, j.velocity.z as i128);
    match (x, y, z, vx, vy, vz) {
        (Some(x), Some(y), Some(z), Some(vx), Some(vy), Some(vz)) => Some(
            Particle {
                id: p.id,
                position: Vec3 { x, y, z },
                velocity: Vec3 { x: vx, y: vy, z: vz },
                mass: p.mass,
            },
        ),
        _ => None,
    }
}

/// The force `f` with every component negated.
pub open spec fn negated(f: Vec3) -> Vec3 {
    Vec3 { x: (-f.x) as i64, y: (-f.y) as i64, z: (-f.z) as i64 }
}

pub open spec fn negatable(f: Vec3) -> bool {
    f.x > i64::MIN && f.y > i64::MIN && f.z > i64::MIN
}

/// Momentum gained along each axis, `mass * (v_after - v_before)`.
pub open spec fn momentum_change(before: Particle, after: Particle) -> (int, int, int) {
    let m = before.mass as int;
    (
        m * (after.velocity.x - before.velocity.x),
        m * (after.velocity.y - before.velocity.y),
        m * (after.velocity.z - before.velocity.z),
    )
}

/// Two particles of equal mass, one integrated under `f` and the other under `-f`,
/// gain equal and opposite momentum.
pub proof fn lemma_opposite_momentum(p: Particle, q: Particle, f: Vec3, dt: int)
    requires
        p.valid(),
        q.valid(),
        p.mass == q.mass,
        valid_dt(dt),
        negatable(f),
        integrate_spec(p, f, dt) is Some,
        integrate_spec(q, negated(f), dt) is Some,
    ensures
        ({
            let dp = momentum_change(p, integrate_spec(p, f, dt).unwrap());
            let dq = momentum_change(q, integrate_spec(q, negated(f), dt).unwrap());
            dp.0 == -dq.0 && dp.1 == -dq.1 && dp.2 == -dq.2
        }),
{
    let m = p.mass as int;
    assert((-f.x) * dt == -(f.x * dt)) by (nonlinear_arith);
    assert((-f.y) * dt == -(f.y * dt)) by (nonlinear_arith);
    assert((-f.z) * dt == -(f.z * dt)) by (nonlinear_arith);
    let ax = tdiv(f.x * dt, m);
    let ay = tdiv(f.y * dt, m);
    let az = tdiv(f.z * dt, m);
    assert(tdiv(-(f.x * dt), m) == -ax);
    assert(tdiv(-(f.y * dt), m) == -ay);
    assert(tdiv(-(f.z * dt), m) == -az);
    assert(m * ax == -(m * (-ax))) by (nonlinear_arith);
    assert(m * ay == -(m * (-ay))) by (nonlinear_arith);
    assert(m * az == -(m * (-az))) by (nonlinear_arith);
}

/// `n` successive integration steps under the same force.
pub open spec fn integrate_repeat(p: Particle, f: Vec3, dt: int, n: nat) -> Option<Particle>
    decreases n,
{
    if n == 0 {
        Some(p)
    } else {
        match integrate_repeat(p, f, dt, (n - 1) as nat) {
            Some(q) => integrate_spec(q, f, dt),
            None => None,
        }
    }
}

/// A particle at rest under no force keeps its position (and velocity) for any
/// number of steps.
pub proof fn lemma_rest_is_fixed(p: Particle, dt: int, n: nat)
    requires
        p.valid(),
        p.velocity.is_zero(),
        valid_dt(dt),
    ensures
        integrate_repeat(p, Vec3 { x: 0, y: 0, z: 0 }, dt, n) == Some(p),
    decreases n,
{
    if n > 0 {
        lemma_rest_is_fixed(p, dt, (n - 1) as nat);
        assert(0 * dt == 0);
        assert(integrate_spec(p, Vec3 { x: 0, y: 0, z: 0 }, dt) == Some(p));
    }
}

/// A jitter of zero leaves position and velocity unchanged.
pub proof fn lemma_zero_jitter_is_identity(p: Particle, j: Jitter)
    requires
        p.valid(),
        j.position.is_zero(),
        j.velocity.is_zero(),
    ensures
        jitter_spec(p, j) == Some(p),
{
}

/// A thermal bias at temperature zero leaves the particle unchanged.
pub proof fn lemma_zero_temperature_is_identity(p: Particle)
    requires
        p.valid(),
    ensures
        thermal_spec(p, 0) == Some(p),
{
}

} // verus!
