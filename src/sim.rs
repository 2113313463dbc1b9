//! The simulation: setup checks, the per-pair update, ticks and whole runs.
//!
//! Policy for a pair that cannot be evaluated (coincident or too close
//! particles, or a result outside the working range): the pair is skipped for
//! that tick, both particles keep their state, and a fault is recorded.
use vstd::prelude::*;
use vstd::arithmetic::div_mod::lemma_fundamental_div_mod_converse;
use crate::fixed::{Vec3, LIMIT, SCALE};
use crate::force::{force, lj_force, ForceError};
use crate::noise::{jitter_drawn, NoiseSource};
use crate::particle::{
    apply_jitter, integrate, integrate_spec, jitter_spec, lemma_opposite_momentum,
    lemma_zero_jitter_is_identity, lemma_zero_temperature_is_identity, momentum_change, negated,
    thermal_bias, thermal_spec, valid_dt, Jitter, Particle,
};

verus! {

/// Largest number of particles in one molecule.
pub const MAX_ATOMS: usize = 4096;

/// Run parameters; read, never changed, by the engine.
#[derive(Clone, Copy, Debug, PartialEq, Eq, Structural)]
pub struct SimulationConfig {
    /// Raw temperature; feeds the thermal bias.
    pub temperature: i64,
    /// Raw bound of the uncertainty jitter.
    pub uncertainty: i64,
    /// Raw time step.
    pub dt: i64,
    /// Number of ticks a run executes.
    pub tick_count: u64,
}

impl SimulationConfig {
    /// A configuration with the unit time step.
    pub fn new(temperature: i64, uncertainty: i64, tick_count: u64) -> (r: SimulationConfig)
        ensures
            r == (SimulationConfig { temperature, uncertainty, dt: SCALE, tick_count }),
    {
        SimulationConfig { temperature, uncertainty, dt: SCALE, tick_count }
    }

    /// The same configuration with another time step.
    pub fn with_dt(self, dt: i64) -> (r: SimulationConfig)
        ensures
            r == (SimulationConfig { dt, ..self }),
    {
        SimulationConfig { dt, ..self }
    }

    pub open spec fn valid(self) -> bool {
        &&& 0 <= self.temperature <= LIMIT
        &&& 0 <= self.uncertainty <= LIMIT
        &&& valid_dt(self.dt as int)
    }
}

/// Why a run cannot start.
#[derive(Clone, Copy, Debug, PartialEq, Eq, Structural)]
pub enum ConfigError {
    TemperatureOutOfRange,
    UncertaintyOutOfRange,
    TimeStepOutOfRange,
    /// Molecule `0` or `1` holds more than `MAX_ATOMS` particles.
    MoleculeTooLarge { molecule: usize },
    NonPositiveMass { molecule: usize, index: usize },
    /// A position or velocity component lies outside the working range.
    StateOutOfRange { molecule: usize, index: usize },
    /// The particle's id is already used by an earlier particle of the run.
    DuplicateId { molecule: usize, index: usize },
}

/// Why one pair was skipped in one tick.
#[derive(Clone, Copy, Debug, PartialEq, Eq, Structural)]
pub enum FaultKind {
    Coincident,
    TooClose,
    ForceOverflow,
    OutOfRange,
}

/// A skipped pair: the tick, the particle of molecule `0`, the particle of molecule `1`.
#[derive(Clone, Copy, Debug, PartialEq, Eq, Structural)]
pub struct PairFault {
    pub tick: u64,
    pub a_index: usize,
    pub b_index: usize,
    pub kind: FaultKind,
}

pub open spec fn fault_of(e: ForceError) -> FaultKind {
    match e {
        ForceError::Coincident => FaultKind::Coincident,
        ForceError::TooClose => FaultKind::TooClose,
        ForceError::Overflow => FaultKind::ForceOverflow,
    }
}

/// One pair: force, integrate (`+f` and `-f`), thermal bias, jitter, in that order.
pub open spec fn pair_spec(a: Particle, b: Particle, cfg: SimulationConfig, n: (Jitter, Jitter)) -> Result<
    (Particle, Particle),
    FaultKind,
> {
    match lj_force(a.position, b.position) {
        Err(e) => Err(fault_of(e)),
        Ok(f) => match (integrate_spec(a, f, cfg.dt as int), integrate_spec(b, negated(f), cfg.dt as int)) {
            (Some(a1), Some(b1)) => match (
                thermal_spec(a1, cfg.temperature as int),
                thermal_spec(b1, cfg.temperature as int),
            ) {
                (Some(a2), Some(b2)) => match (jitter_spec(a2, n.0), jitter_spec(b2, n.1)) {
                    (Some(a3), Some(b3)) => Ok((a3, b3)),
                    _ => Err(FaultKind::OutOfRange),
                },
                _ => Err(FaultKind::OutOfRange),
            },
            _ => Err(FaultKind::OutOfRange),
        },
    }
}

pub fn pair_step(a: &Particle, b: &Particle, cfg: &SimulationConfig, n: &(Jitter, Jitter)) -> (r: Result<
    (Particle, Particle),
    FaultKind,
>)
    requires
        a.valid(),
        b.valid(),
        cfg.valid(),
        n.0.within(LIMIT as int),
        n.1.within(LIMIT as int),
    ensures
        r == pair_spec(*a, *b, *cfg, *n),
        r matches Ok(t) ==> t.0.valid() && t.1.valid(),
{
    let f = match force(a.position, b.position) {
        Ok(f) => f,
        Err(e) => {
            return Err(
                match e {
                    ForceError::Coincident => FaultKind::Coincident,
                    ForceError::TooClose => FaultKind::TooClose,
                    ForceError::Overflow => FaultKind::ForceOverflow,
                },
            );
        },
    };
    let g = Vec3 { x: -f.x, y: -f.y, z: -f.z };
    assert(g == negated(f));
    let a1 = match integrate(a, f, cfg.dt) {
        Some(p) => p,
        None => {
            return Err(FaultKind::OutOfRange);
        },
    };
    let b1 = match integrate(b, g, cfg.dt) {
        Some(p) => p,
        None => {
            return Err(FaultKind::OutOfRange);
        },
    };
    let a2 = match thermal_bias(&a1, cfg.temperature) {
        Some(p) => p,
        None => {
            return Err(FaultKind::OutOfRange);
        },
    };
    let b2 = match thermal_bias(&b1, cfg.temperature) {
        Some(p) => p,
        None => {
            return Err(FaultKind::OutOfRange);
        },
    };
    let a3 = match apply_jitter(&a2, &n.0) {
        Some(p) => p,
        None => {
            return Err(FaultKind::OutOfRange);
        },
    };
    let b3 = match apply_jitter(&b2, &n.1) {
        Some(p) => p,
        None => {
            return Err(FaultKind::OutOfRange);
        },
    };
    Ok((a3, b3))
}

/// With the perturbations off (zero temperature, zero jitter), a pair of equal
/// masses that is updated gains equal and opposite momentum.
pub proof fn lemma_pair_momentum_balance(a: Particle, b: Particle, cfg: SimulationConfig)
    requires
        a.valid(),
        b.valid(),
        a.mass == b.mass,
        cfg.valid(),
        cfg.temperature == 0,
        pair_spec(a, b, cfg, (zero_jitter(), zero_jitter())) is Ok,
    ensures
        ({
            let t = pair_spec(a, b, cfg, (zero_jitter(), zero_jitter())).unwrap();
            let da = momentum_change(a, t.0);
            let db = momentum_change(b, t.1);
            da.0 == -db.0 && da.1 == -db.1 && da.2 == -db.2
        }),
{
    let f = lj_force(a.position, b.position).unwrap();
    let a1 = integrate_spec(a, f, cfg.dt as int).unwrap();
    let b1 = integrate_spec(b, negated(f), cfg.dt as int).unwrap();
    lemma_opposite_momentum(a, b, f, cfg.dt as int);
    lemma_zero_temperature_is_identity(a1);
    lemma_zero_temperature_is_identity(b1);
    lemma_zero_jitter_is_identity(a1, zero_jitter());
    lemma_zero_jitter_is_identity(b1, zero_jitter());
}

/// A pair of particles at the same position is never updated: it is reported as
/// coincident, and the tick leaves both particles as they were.
pub proof fn lemma_coincident_pair_skipped(a: Particle, b: Particle, cfg: SimulationConfig, n: (Jitter, Jitter))
    requires
        a.position == b.position,
    ensures
        pair_spec(a, b, cfg, n) == Err::<(Particle, Particle), FaultKind>(FaultKind::Coincident),
{
    assert(crate::force::dist_sq(a.position, b.position) == 0);
}

/// The state after the first `k` pairs of a tick, in nested order (particle `k / |b|`
/// of molecule `0` with particle `k % |b|` of molecule `1`), each pair seeing the
/// updates of the pairs before it.
pub open spec fn tick_prefix(
    a: Seq<Particle>,
    b: Seq<Particle>,
    cfg: SimulationConfig,
    noise: Seq<(Jitter, Jitter)>,
    tick: u64,
    k: nat,
) -> (Seq<Particle>, Seq<Particle>, Seq<PairFault>)
    decreases k,
{
    if k == 0 {
        (a, b, Seq::empty())
    } else {
        let prev = tick_prefix(a, b, cfg, noise, tick, (k - 1) as nat);
        let i = (k - 1) as int / b.len() as int;
        let j = (k - 1) as int % b.len() as int;
        match pair_spec(prev.0[i], prev.1[j], cfg, noise[k - 1]) {
            Ok(t) => (prev.0.update(i, t.0), prev.1.update(j, t.1), prev.2),
            Err(kind) => (
                prev.0,
                prev.1,
                prev.2.push(PairFault { tick, a_index: i as usize, b_index: j as usize, kind }),
            ),
        }
    }
}

/// One whole tick: every pair of the two molecules once.
pub open spec fn tick_spec(
    a: Seq<Particle>,
    b: Seq<Particle>,
    cfg: SimulationConfig,
    noise: Seq<(Jitter, Jitter)>,
    tick: u64,
) -> (Seq<Particle>, Seq<Particle>, Seq<PairFault>) {
    tick_prefix(a, b, cfg, noise, tick, (a.len() * b.len()) as nat)
}

pub open spec fn all_valid(s: Seq<Particle>) -> bool {
    forall|k: int| 0 <= k < s.len() ==> #[trigger] s[k].valid()
}

/// Every jitter of `noise` is inside the working range.
pub open spec fn noise_in_range(noise: Seq<(Jitter, Jitter)>) -> bool {
    forall|k: int|
        0 <= k < noise.len() ==> (#[trigger] noise[k]).0.within(LIMIT as int) && noise[k].1.within(
            LIMIT as int,
        )
}

/// `noise` holds `count` pairs of jitters drawn with bound `bound`.
pub open spec fn noise_drawn(noise: Seq<(Jitter, Jitter)>, count: nat, bound: int) -> bool {
    &&& noise.len() == count
    &&& forall|k: int|
        0 <= k < noise.len() ==> jitter_drawn((#[trigger] noise[k]).0, bound) && jitter_drawn(
            noise[k].1,
            bound,
        )
}

pub open spec fn zero_jitter() -> Jitter {
    Jitter { position: Vec3 { x: 0, y: 0, z: 0 }, velocity: Vec3 { x: 0, y: 0, z: 0 } }
}

/// `count` pairs of zero jitters.
pub open spec fn quiet_noise(count: nat) -> Seq<(Jitter, Jitter)> {
    Seq::new(count, |k: int| (zero_jitter(), zero_jitter()))
}


/// What is wrong with particle `index` of `molecule`, if anything.
pub open spec fn particle_error(p: Particle, molecule: usize, index: usize) -> Option<ConfigError> {
    if p.mass <= 0 {
        Some(ConfigError::NonPositiveMass { molecule, index })
    } else if !(p.position.bounded() && p.velocity.bounded()) {
        Some(ConfigError::StateOutOfRange { molecule, index })
    } else {
        None
    }
}

/// Whether particle `i` of `s` reuses the id of a particle of `earlier` or of an
/// earlier particle of `s`.
pub open spec fn id_taken(earlier: Seq<Particle>, s: Seq<Particle>, i: int) -> bool {
    (exists|k: int| 0 <= k < earlier.len() && #[trigger] earlier[k].id == s[i].id) || (exists|k: int|
        0 <= k < i && #[trigger] s[k].id == s[i].id)
}

/// The first error among the first `n` particles of `s`; `earlier` holds the
/// particles checked before `s`.
pub open spec fn first_particle_error(earlier: Seq<Particle>, s: Seq<Particle>, molecule: usize, n: nat) -> Option<
    ConfigError,
>
    decreases n,
{
    if n == 0 {
        None
    } else {
        match first_particle_error(earlier, s, molecule, (n - 1) as nat) {
            Some(e) => Some(e),
            None => match particle_error(s[n - 1], molecule, (n - 1) as usize) {
                Some(e) => Some(e),
                None => if id_taken(earlier, s, n - 1) {
                    Some(ConfigError::DuplicateId { molecule, index: (n - 1) as usize })
                } else {
                    None
                },
            },
        }
    }
}

/// The first failing setup check, in order: temperature, uncertainty, time step,
/// molecule sizes, then the particles of molecule `0` and of molecule `1`.
pub open spec fn setup_error(a: Seq<Particle>, b: Seq<Particle>, cfg: SimulationConfig) -> Option<ConfigError> {
    if !(0 <= cfg.temperature <= LIMIT) {
        Some(ConfigError::TemperatureOutOfRange)
    } else if !(0 <= cfg.uncertainty <= LIMIT) {
        Some(ConfigError::UncertaintyOutOfRange)
    } else if !valid_dt(cfg.dt as int) {
        Some(ConfigError::TimeStepOutOfRange)
    } else if a.len() > MAX_ATOMS {
        Some(ConfigError::MoleculeTooLarge { molecule: 0 })
    } else if b.len() > MAX_ATOMS {
        Some(ConfigError::MoleculeTooLarge { molecule: 1 })
    } else {
        match first_particle_error(Seq::empty(), a, 0, a.len()) {
            Some(e) => Some(e),
            None => first_particle_error(a, b, 1, b.len()),
        }
    }
}

proof fn lemma_first_error_persists(earlier: Seq<Particle>, s: Seq<Particle>, molecule: usize, n: nat, m: nat)
    requires
        n <= m,
        first_particle_error(earlier, s, molecule, n) is Some,
    ensures
        first_particle_error(earlier, s, molecule, m) == first_particle_error(earlier, s, molecule, n),
    decreases m - n,
{
    if n < m {
        lemma_first_error_persists(earlier, s, molecule, n, (m - 1) as nat);
    }
}

/// Whether some particle of `s` before index `end` has id `id`.
fn id_in_prefix(s: &Vec<Particle>, end: usize, id: u64) -> (r: bool)
    requires
        end <= s@.len(),
    ensures
        r == exists|k: int| 0 <= k < end && #[trigger] s@[k].id == id,
{
    let mut k: usize = 0;
    while k < end
        invariant
            k <= end,
            end <= s@.len(),
            forall|m: int| 0 <= m < k ==> #[trigger] s@[m].id != id,
        decreases end - k,
    {
        if s[k].id == id {
            return true;
        }
        k = k + 1;
    }
    false
}

/// Checks every particle of `s` in order and returns the first error.
fn check_particles(earlier: &Vec<Particle>, s: &Vec<Particle>, molecule: usize) -> (r: Option<ConfigError>)
    ensures
        r == first_particle_error(earlier@, s@, molecule, s@.len()),
        r is None ==> all_valid(s@),
{
    let mut i: usize = 0;
    while i < s.len()
        invariant
            i <= s@.len(),
            first_particle_error(earlier@, s@, molecule, i as nat) is None,
            forall|k: int| 0 <= k < i ==> #[trigger] s@[k].valid(),
        decreases s@.len() - i,
    {
        let p = s[i];
        if p.mass <= 0 {
            proof {
                lemma_first_error_persists(earlier@, s@, molecule, (i + 1) as nat, s@.len());
            }
            return Some(ConfigError::NonPositiveMass { molecule, index: i });
        }
        if !(-LIMIT <= p.position.x && p.position.x <= LIMIT && -LIMIT <= p.position.y
            && p.position.y <= LIMIT && -LIMIT <= p.position.z && p.position.z <= LIMIT
            && -LIMIT <= p.velocity.x && p.velocity.x <= LIMIT && -LIMIT <= p.velocity.y
            && p.velocity.y <= LIMIT && -LIMIT <= p.velocity.z && p.velocity.z <= LIMIT) {
            proof {
                lemma_first_error_persists(earlier@, s@, molecule, (i + 1) as nat, s@.len());
            }
            return Some(ConfigError::StateOutOfRange { molecule, index: i });
        }
        if id_in_prefix(earlier, earlier.len(), p.id) || id_in_prefix(s, i, p.id) {
            proof {
                lemma_first_error_persists(earlier@, s@, molecule, (i + 1) as nat, s@.len());
            }
            return Some(ConfigError::DuplicateId { molecule, index: i });
        }
        i = i + 1;
    }
    None
}

/// The run without jitter: `t` ticks, numbered from `0`, with the faults of all ticks in order.
pub open spec fn quiet_run(a: Seq<Particle>, b: Seq<Particle>, cfg: SimulationConfig, t: nat) -> (
    Seq<Particle>,
    Seq<Particle>,
    Seq<PairFault>,
)
    decreases t,
{
    if t == 0 {
        (a, b, Seq::empty())
    } else {
        let prev = quiet_run(a, b, cfg, (t - 1) as nat);
        let next = tick_spec(prev.0, prev.1, cfg, quiet_noise(prev.0.len() * prev.1.len()), (t - 1) as u64);
        (next.0, next.1, prev.2 + next.2)
    }
}

/// The run with the given jitters: tick `t` (numbered from `0`) uses `noises[t]`;
/// the faults of all ticks come in order.
pub open spec fn run_spec(
    a: Seq<Particle>,
    b: Seq<Particle>,
    cfg: SimulationConfig,
    noises: Seq<Seq<(Jitter, Jitter)>>,
) -> (Seq<Particle>, Seq<Particle>, Seq<PairFault>)
    decreases noises.len(),
{
    if noises.len() == 0 {
        (a, b, Seq::empty())
    } else {
        let prev = run_spec(a, b, cfg, noises.drop_last());
        let next = tick_spec(prev.0, prev.1, cfg, noises.last(), (noises.len() - 1) as u64);
        (next.0, next.1, prev.2 + next.2)
    }
}

/// Every tick's jitters are `count` pairs drawn with bound `bound`.
pub open spec fn noises_drawn(noises: Seq<Seq<(Jitter, Jitter)>>, count: nat, bound: int) -> bool {
    forall|t: int| 0 <= t < noises.len() ==> noise_drawn(#[trigger] noises[t], count, bound)
}

/// What a run hands back besides the final state: the ticks executed and the skipped pairs.
pub struct RunReport {
    pub ticks: u64,
    pub faults: Vec<PairFault>,
}

/// Two molecules and a configuration, ready to run.
pub struct Simulation {
    a: Vec<Particle>,
    b: Vec<Particle>,
    config: SimulationConfig,
}

impl Simulation {
    /// The particles of molecule `0`, in insertion order.
    pub closed spec fn atoms_a(&self) -> Seq<Particle> {
        self.a@
    }

    /// The particles of molecule `1`, in insertion order.
    pub closed spec fn atoms_b(&self) -> Seq<Particle> {
        self.b@
    }

    pub closed spec fn config_spec(&self) -> SimulationConfig {
        self.config
    }

    pub open spec fn wf(&self) -> bool {
        &&& self.config_spec().valid()
        &&& self.atoms_a().len() <= MAX_ATOMS
        &&& self.atoms_b().len() <= MAX_ATOMS
        &&& all_valid(self.atoms_a())
        &&& all_valid(self.atoms_b())
    }


    /// Checks the setup and takes ownership of the two molecules.
    pub fn new(a: Vec<Particle>, b: Vec<Particle>, config: SimulationConfig) -> (r: Result<
        Simulation,
        ConfigError,
    >)
        ensures
            r is Ok <==> setup_error(a@, b@, config) is None,
            r matches Err(e) ==> setup_error(a@, b@, config) == Some(e),
            r matches Ok(s) ==> s.wf() && s.atoms_a() == a@ && s.atoms_b() == b@
                && s.config_spec() == config,
    {
        if !(0 <= config.temperature && config.temperature <= LIMIT) {
            return Err(ConfigError::TemperatureOutOfRange);
        }
        if !(0 <= config.uncertainty && config.uncertainty <= LIMIT) {
            return Err(ConfigError::UncertaintyOutOfRange);
        }
        if !(0 < config.dt && config.dt <= crate::particle::DT_MAX) {
            return Err(ConfigError::TimeStepOutOfRange);
        }
        if a.len() > MAX_ATOMS {
            return Err(ConfigError::MoleculeTooLarge { molecule: 0 });
        }
        if b.len() > MAX_ATOMS {
            return Err(ConfigError::MoleculeTooLarge { molecule: 1 });
        }
        let none: Vec<Particle> = Vec::new();
        match check_particles(&none, &a, 0) {
            Some(e) => {
                return Err(e);
            },
            None => {},
        }
        match check_particles(&a, &b, 1) {
            Some(e) => {
                return Err(e);
            },
            None => {},
        }
        Ok(Simulation { a, b, config })
    }

    /// Read-only view of molecule `0`.
    pub fn molecule_a(&self) -> (r: &Vec<Particle>)
        ensures
            r@ == self.atoms_a(),
    {
        &self.a
    }

    /// Read-only view of molecule `1`.
    pub fn molecule_b(&self) -> (r: &Vec<Particle>)
        ensures
            r@ == self.atoms_b(),
    {
        &self.b
    }

    pub fn config(&self) -> (r: SimulationConfig)
        ensures
            r == self.config_spec(),
    {
        self.config
    }

    /// Current positions, molecule `0` first, each in insertion order.
    pub fn positions(&self) -> (r: Vec<Vec3>)
        ensures
            r@.len() == self.atoms_a().len() + self.atoms_b().len(),
            forall|k: int| 0 <= k < self.atoms_a().len() ==> r@[k] == #[trigger] self.atoms_a()[k].position,
            forall|k: int|
                0 <= k < self.atoms_b().len() ==> r@[self.atoms_a().len() + k]
                    == #[trigger] self.atoms_b()[k].position,
    {
        let mut r: Vec<Vec3> = Vec::new();
        let mut i: usize = 0;
        while i < self.a.len()
            invariant
                i <= self.a@.len(),
                r@.len() == i,
                forall|k: int| 0 <= k < i ==> r@[k] == #[trigger] self.a@[k].position,
            decreases self.a@.len() - i,
        {
            r.push(self.a[i].position);
            i = i + 1;
        }
        let mut j: usize = 0;
        while j < self.b.len()
            invariant
                j <= self.b@.len(),
                r@.len() == self.a@.len() + j,
                forall|k: int| 0 <= k < self.a@.len() ==> r@[k] == #[trigger] self.a@[k].position,
                forall|k: int| 0 <= k < j ==> r@[self.a@.len() + k] == #[trigger] self.b@[k].position,
            decreases self.b@.len() - j,
        {
            r.push(self.b[j].position);
            j = j + 1;
        }
        r
    }

    /// Draws one pair of jitters per particle pair, with the configured bound.
    pub fn draw_noise(&self, src: &mut NoiseSource) -> (r: Vec<(Jitter, Jitter)>)
        requires
            self.wf(),
        ensures
            noise_drawn(r@, self.atoms_a().len() * self.atoms_b().len(), self.config_spec().uncertainty as int),
            noise_in_range(r@),
    {
        let na = self.a.len();
        let nb = self.b.len();
        proof {
            assert(na * nb <= 4096 * 4096) by (nonlinear_arith)
                requires na <= 4096, nb <= 4096;
        }
        let count = na * nb;
        let bound = self.config.uncertainty;
        let mut r: Vec<(Jitter, Jitter)> = Vec::new();
        let mut k: usize = 0;
        while k < count
            invariant
                k <= count,
                0 <= bound <= LIMIT,
                r@.len() == k,
                noise_drawn(r@, k as nat, bound as int),
                noise_in_range(r@),
            decreases count - k,
        {
            let ja = src.jitter(bound);
            let jb = src.jitter(bound);
            r.push((ja, jb));
            k = k + 1;
        }
        r
    }

    /// Runs one tick with freshly drawn jitters.
    pub fn step(&mut self, tick: u64, src: &mut NoiseSource) -> (faults: Vec<PairFault>)
        requires
            old(self).wf(),
        ensures
            final(self).wf(),
            final(self).config_spec() == old(self).config_spec(),
            final(self).atoms_a().len() == old(self).atoms_a().len(),
            final(self).atoms_b().len() == old(self).atoms_b().len(),
            exists|noise: Seq<(Jitter, Jitter)>|
                noise_drawn(
                    noise,
                    old(self).atoms_a().len() * old(self).atoms_b().len(),
                    old(self).config_spec().uncertainty as int,
                ) && (final(self).atoms_a(), final(self).atoms_b(), faults@) == #[trigger] tick_spec(
                    old(self).atoms_a(),
                    old(self).atoms_b(),
                    old(self).config_spec(),
                    noise,
                    tick,
                ),
    {
        let noise = self.draw_noise(src);
        self.step_with(tick, &noise)
    }

    /// Executes the configured number of ticks.
    pub fn run(&mut self, src: &mut NoiseSource) -> (report: RunReport)
        requires
            old(self).wf(),
        ensures
            final(self).wf(),
            final(self).config_spec() == old(self).config_spec(),
            final(self).atoms_a().len() == old(self).atoms_a().len(),
            final(self).atoms_b().len() == old(self).atoms_b().len(),
            report.ticks == old(self).config_spec().tick_count,
            old(self).config_spec().tick_count == 0 ==> final(self).atoms_a() == old(self).atoms_a()
                && final(self).atoms_b() == old(self).atoms_b() && report.faults@.len() == 0,
            exists|noises: Seq<Seq<(Jitter, Jitter)>>|
                noises.len() == old(self).config_spec().tick_count && noises_drawn(
                    noises,
                    old(self).atoms_a().len() * old(self).atoms_b().len(),
                    old(self).config_spec().uncertainty as int,
                ) && (final(self).atoms_a(), final(self).atoms_b(), report.faults@) == #[trigger] run_spec(
                    old(self).atoms_a(),
                    old(self).atoms_b(),
                    old(self).config_spec(),
                    noises,
                ),
            old(self).config_spec().uncertainty == 0 ==> (
                final(self).atoms_a(),
                final(self).atoms_b(),
                report.faults@,
            ) == quiet_run(
                old(self).atoms_a(),
                old(self).atoms_b(),
                old(self).config_spec(),
                old(self).config_spec().tick_count as nat,
            ),
    {
        let ghost a0 = self.a@;
        let ghost b0 = self.b@;
        let ghost c0 = self.config;
        let n = self.config.tick_count;
        let mut faults: Vec<PairFault> = Vec::new();
        let ghost mut noises: Seq<Seq<(Jitter, Jitter)>> = Seq::empty();
        let mut t: u64 = 0;
        while t < n
            invariant
                t <= n,
                noises.len() == t,
                noises_drawn(noises, (a0.len() * b0.len()) as nat, c0.uncertainty as int),
                (self.a@, self.b@, faults@) == run_spec(a0, b0, c0, noises),
                n == c0.tick_count,
                self.wf(),
                self.config == c0,
                self.a@.len() == a0.len(),
                self.b@.len() == b0.len(),
                t == 0 ==> self.a@ == a0 && self.b@ == b0 && faults@.len() == 0,
                c0.uncertainty == 0 ==> (self.a@, self.b@, faults@) == quiet_run(a0, b0, c0, t as nat),
            decreases n - t,
        {
            let ghost before_a = self.a@;
            let ghost before_b = self.b@;
            let mut fs = self.step(t, src);
            let ghost drawn = choose|noise: Seq<(Jitter, Jitter)>|
                noise_drawn(noise, before_a.len() * before_b.len(), c0.uncertainty as int) && (
                    self.a@,
                    self.b@,
                    fs@,
                ) == #[trigger] tick_spec(before_a, before_b, c0, noise, t);
            proof {
                let grown = noises.push(drawn);
                assert(grown.drop_last() =~= noises);
                noises = grown;
                if c0.uncertainty == 0 {
                    let count = before_a.len() * before_b.len();
                    assert forall|k: int| 0 <= k < drawn.len() implies #[trigger] drawn[k] == quiet_noise(
                        count,
                    )[k] by {
                        assert(jitter_drawn(drawn[k].0, 0));
                        assert(jitter_drawn(drawn[k].1, 0));
                    }
                    assert(drawn =~= quiet_noise(count));
                }
            }
            faults.append(&mut fs);
            t = t + 1;
        }
        RunReport { ticks: n, faults }
    }

    /// Runs one tick with the given jitters, one pair of them per particle pair.
    pub fn step_with(&mut self, tick: u64, noise: &Vec<(Jitter, Jitter)>) -> (faults: Vec<PairFault>)
        requires
            old(self).wf(),
            noise@.len() == old(self).atoms_a().len() * old(self).atoms_b().len(),
            noise_in_range(noise@),
        ensures
            final(self).wf(),
            final(self).config_spec() == old(self).config_spec(),
            final(self).atoms_a().len() == old(self).atoms_a().len(),
            final(self).atoms_b().len() == old(self).atoms_b().len(),
            (final(self).atoms_a(), final(self).atoms_b(), faults@) == tick_spec(
                old(self).atoms_a(),
                old(self).atoms_b(),
                old(self).config_spec(),
                noise@,
                tick,
            ),
    {
        let ghost a0 = self.a@;
        let ghost b0 = self.b@;
        let ghost c0 = self.config;
        let na = self.a.len();
        let nb = self.b.len();
        let mut faults: Vec<PairFault> = Vec::new();
        let mut i: usize = 0;
        let mut k: usize = 0;
        while i < na
            invariant
                na == a0.len(),
                nb == b0.len(),
                na <= MAX_ATOMS,
                nb <= MAX_ATOMS,
                i <= na,
                k == i * nb,
                noise@.len() == na * nb,
                noise_in_range(noise@),
                self.config.valid(),
                self.config == c0,
                self.a@.len() == na,
                self.b@.len() == nb,
                all_valid(self.a@),
                all_valid(self.b@),
                (self.a@, self.b@, faults@) == tick_prefix(a0, b0, self.config, noise@, tick, k as nat),
            decreases na - i,
        {
            let mut j: usize = 0;
            while j < nb
                invariant
                    na == a0.len(),
                    nb == b0.len(),
                    na <= MAX_ATOMS,
                    nb <= MAX_ATOMS,
                    i < na,
                    j <= nb,
                    k == i * nb + j,
                    noise@.len() == na * nb,
                    noise_in_range(noise@),
                    self.config.valid(),
                    self.config == c0,
                    self.a@.len() == na,
                    self.b@.len() == nb,
                    all_valid(self.a@),
                    all_valid(self.b@),
                    (self.a@, self.b@, faults@) == tick_prefix(a0, b0, self.config, noise@, tick, k as nat),
                decreases nb - j,
            {
                proof {
                    lemma_fundamental_div_mod_converse(k as int, nb as int, i as int, j as int);
                    assert(k + 1 <= na * nb) by (nonlinear_arith)
                        requires k == i * nb + j, j < nb, i < na;
                    assert(na * nb <= 4096 * 4096) by (nonlinear_arith)
                        requires na <= 4096, nb <= 4096;
                }
                let pa = self.a[i];
                let pb = self.b[j];
                let ghost before_a = self.a@;
                let ghost before_b = self.b@;
                match pair_step(&pa, &pb, &self.config, &noise[k]) {
                    Ok((x, y)) => {
                        self.a.set(i, x);
                        self.b.set(j, y);
                        proof {
                            assert forall|m: int| 0 <= m < self.a@.len() implies #[trigger] self.a@[m].valid() by {
                                if m != i {
                                    assert(self.a@[m] == before_a[m]);
                                }
                            }
                            assert forall|m: int| 0 <= m < self.b@.len() implies #[trigger] self.b@[m].valid() by {
                                if m != j {
                                    assert(self.b@[m] == before_b[m]);
                                }
                            }
                        }
                    },
                    Err(kind) => {
                        faults.push(PairFault { tick, a_index: i, b_index: j, kind });
                    },
                }
                j = j + 1;
                k = k + 1;
            }
            proof {
                assert(k == (i + 1) * nb) by (nonlinear_arith)
                    requires k == i * nb + nb;
            }
            i = i + 1;
        }
        faults
    }
}

} // verus!
