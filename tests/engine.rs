use ljdyn::fixed::{Vec3, SCALE};
use ljdyn::force::{force, ForceError};
use ljdyn::noise::NoiseSource;
use ljdyn::particle::{apply_jitter, integrate, thermal_bias, Jitter, Particle};
use ljdyn::sim::{pair_step, ConfigError, FaultKind, PairFault, Simulation, SimulationConfig};

fn units(v: i64) -> i64 {
    v * SCALE
}

fn at(id: u64, x: i64, y: i64, z: i64, mass: i64) -> Particle {
    Particle::new(id, Vec3::new(x, y, z), Vec3::zero(), mass)
}

#[test]
fn two_single_atom_molecules_one_tick() {
    let a = vec![at(1, 0, 0, 0, units(1))];
    let b = vec![at(2, units(1), 0, 0, units(16))];
    let mut sim = Simulation::new(a, b, SimulationConfig::new(0, 0, 1)).unwrap();
    let mut src = NoiseSource::from_seed(7);
    let report = sim.run(&mut src);
    assert_eq!(report.ticks, 1);
    assert!(report.faults.is_empty());
    // At r = 1 the force is repulsive with magnitude 24: atom 1 is pushed away from atom 2.
    let p1 = sim.molecule_a()[0];
    let p2 = sim.molecule_b()[0];
    assert_eq!(p1.velocity, Vec3::new(-units(24), 0, 0));
    assert_eq!(p1.position, Vec3::new(-units(24), 0, 0));
    // Atom 2 gets 24 / 16 = 1.5 the other way.
    assert_eq!(p2.velocity, Vec3::new(SCALE * 3 / 2, 0, 0));
    assert_eq!(p2.position, Vec3::new(SCALE * 5 / 2, 0, 0));
    assert_eq!(p1.mass, units(1));
    assert_eq!(p2.id, 2);
}

#[test]
fn zero_ticks_change_nothing() {
    let a = vec![at(1, 0, 0, 0, units(1)), at(2, 0, units(3), 0, units(2))];
    let b = vec![at(3, units(1), 0, 0, units(16))];
    let mut sim = Simulation::new(a.clone(), b.clone(), SimulationConfig::new(300, 40, 0)).unwrap();
    let mut src = NoiseSource::from_seed(1);
    let report = sim.run(&mut src);
    assert_eq!(report.ticks, 0);
    assert!(report.faults.is_empty());
    assert_eq!(sim.molecule_a(), &a);
    assert_eq!(sim.molecule_b(), &b);
}

#[test]
fn coincident_pair_is_skipped() {
    let a = vec![at(1, units(2), units(2), 0, units(1))];
    let b = vec![at(2, units(2), units(2), 0, units(1))];
    let mut sim = Simulation::new(a.clone(), b.clone(), SimulationConfig::new(0, 0, 3)).unwrap();
    let mut src = NoiseSource::from_seed(3);
    let report = sim.run(&mut src);
    assert_eq!(report.faults.len(), 3);
    assert_eq!(
        report.faults[2],
        PairFault { tick: 2, a_index: 0, b_index: 0, kind: FaultKind::Coincident }
    );
    assert_eq!(sim.molecule_a(), &a);
    assert_eq!(sim.molecule_b(), &b);
}

#[test]
fn coincident_force_is_an_error() {
    let p = Vec3::new(5, -7, 9);
    assert_eq!(force(p, p), Err(ForceError::Coincident));
}

#[test]
fn too_close_force_is_an_error() {
    let r = force(Vec3::zero(), Vec3::new(SCALE / 10, 0, 0));
    assert_eq!(r, Err(ForceError::TooClose));
    assert_eq!(
        pair_step(
            &at(1, 0, 0, 0, units(1)),
            &at(2, SCALE / 10, 0, 0, units(1)),
            &SimulationConfig::new(0, 0, 1),
            &(Jitter::zero(), Jitter::zero())
        ),
        Err(FaultKind::TooClose)
    );
}

#[test]
fn force_at_unit_distance() {
    let f = force(Vec3::zero(), Vec3::new(units(1), 0, 0)).unwrap();
    assert_eq!(f, Vec3::new(-units(24), 0, 0));
    let g = force(Vec3::new(units(1), 0, 0), Vec3::zero()).unwrap();
    assert_eq!(g, Vec3::new(units(24), 0, 0));
}

#[test]
fn force_changes_sign_at_crossover() {
    // 2^(1/6) is about 1.1225.
    let inside = force(Vec3::new(SCALE * 11 / 10, 0, 0), Vec3::zero()).unwrap();
    let outside = force(Vec3::new(SCALE * 115 / 100, 0, 0), Vec3::zero()).unwrap();
    assert!(inside.x > 0);
    assert!(outside.x < 0);
    assert_eq!(inside.y, 0);
    assert_eq!(outside.z, 0);
}

#[test]
fn attraction_weakens_far_out() {
    let mut last = i64::MAX;
    for tenth in 13..40 {
        let f = force(Vec3::new(SCALE * tenth / 10, 0, 0), Vec3::zero()).unwrap();
        assert!(f.x <= 0);
        assert!(f.x.abs() <= last);
        last = f.x.abs();
    }
}

#[test]
fn magnitude_never_grows_past_the_inflection_point() {
    // (26/7)^(1/6) is about 1.2445 units; scan every raw position out to 12 units.
    let start = SCALE * 1245 / 1000 + 1;
    let mut last = i64::MAX;
    for x in start..(12 * SCALE) {
        let f = force(Vec3::new(x, 0, 0), Vec3::zero()).unwrap();
        assert!(f.x <= 0);
        assert!(f.x.abs() <= last, "magnitude grows at raw distance {}", x);
        last = f.x.abs();
    }
}

#[test]
fn sign_on_both_sides_of_the_crossover() {
    // 2^(1/6) is about 1.1225 units, that is 143.7 raw.
    let inside = force(Vec3::new(143, 0, 0), Vec3::zero()).unwrap();
    let outside = force(Vec3::new(144, 0, 0), Vec3::zero()).unwrap();
    assert_eq!(inside.x, 40);
    assert_eq!(outside.x, -18);
    // Still attractive at 2.5 units: about -4 raw.
    let far = force(Vec3::new(SCALE * 5 / 2, 0, 0), Vec3::zero()).unwrap();
    assert_eq!(far.x, -4);
}

#[test]
fn opposite_forces_give_opposite_momentum() {
    let p = at(1, 0, 0, 0, units(3));
    let q = at(2, units(5), 0, 0, units(3));
    let f = Vec3::new(1234, -567, 89);
    let g = Vec3::new(-1234, 567, -89);
    let p1 = integrate(&p, f, SCALE).unwrap();
    let q1 = integrate(&q, g, SCALE).unwrap();
    assert_eq!(p1.velocity.x - p.velocity.x, -(q1.velocity.x - q.velocity.x));
    assert_eq!(p1.velocity.y - p.velocity.y, -(q1.velocity.y - q.velocity.y));
    assert_eq!(p1.velocity.z - p.velocity.z, -(q1.velocity.z - q.velocity.z));
    assert_ne!(p1.velocity.x, 0);
}

#[test]
fn velocity_is_updated_before_position() {
    let p = Particle::new(9, Vec3::zero(), Vec3::new(units(1), 0, 0), units(2));
    let q = integrate(&p, Vec3::new(units(4), 0, 0), SCALE).unwrap();
    assert_eq!(q.velocity.x, units(3));
    assert_eq!(q.position.x, units(3));
    let half = integrate(&p, Vec3::new(units(4), 0, 0), SCALE / 2).unwrap();
    assert_eq!(half.velocity.x, units(2));
    assert_eq!(half.position.x, units(1));
}

#[test]
fn at_rest_without_force_stays_put() {
    let mut p = at(4, units(7), -units(2), 3, units(1));
    for _ in 0..25 {
        p = integrate(&p, Vec3::zero(), SCALE).unwrap();
    }
    assert_eq!(p.position, Vec3::new(units(7), -units(2), 3));
    assert_eq!(p.velocity, Vec3::zero());
}

#[test]
fn zero_jitter_is_identity() {
    let p = Particle::new(1, Vec3::new(10, 20, 30), Vec3::new(-1, -2, -3), 5);
    assert_eq!(apply_jitter(&p, &Jitter::zero()), Some(p));
    let mut src = NoiseSource::from_seed(11);
    assert_eq!(src.jitter(0), Jitter::zero());
}

#[test]
fn jitter_adds_each_component() {
    let p = Particle::new(1, Vec3::new(10, 20, 30), Vec3::new(-1, -2, -3), 5);
    let j = Jitter { position: Vec3::new(1, 2, 3), velocity: Vec3::new(4, 5, 6) };
    let q = apply_jitter(&p, &j).unwrap();
    assert_eq!(q.position, Vec3::new(11, 22, 33));
    assert_eq!(q.velocity, Vec3::new(3, 3, 3));
}

#[test]
fn zero_temperature_is_identity() {
    let p = Particle::new(1, Vec3::new(10, 20, 30), Vec3::new(-1, -2, -3), 5);
    assert_eq!(thermal_bias(&p, 0), Some(p));
}

#[test]
fn thermal_bias_shifts_velocity() {
    let p = Particle::new(1, Vec3::new(10, 20, 30), Vec3::new(-1, -2, -3), 5);
    let q = thermal_bias(&p, units(300)).unwrap();
    assert_eq!(q.velocity, Vec3::new(units(3) - 1, units(3) - 2, units(3) - 3));
    assert_eq!(q.position, p.position);
}

#[test]
fn drawn_offsets_stay_in_bounds_and_vary() {
    let mut src = NoiseSource::from_seed(42);
    let mut seen_other = false;
    for _ in 0..200 {
        let v = src.offset(100);
        assert!(-100 <= v && v < 100);
        if v != -100 && v != 100 {
            seen_other = true;
        }
    }
    assert!(seen_other);
    let j = src.jitter(5);
    assert!(j.position.x >= -5 && j.position.x < 5);
    assert!(j.velocity.z >= -5 && j.velocity.z < 5);
}

#[test]
fn same_seed_same_stream() {
    let mut s1 = NoiseSource::from_seed(99);
    let mut s2 = NoiseSource::from_seed(99);
    for _ in 0..10 {
        assert_eq!(s1.jitter(1000), s2.jitter(1000));
    }
}

#[test]
fn entropy_source_draws() {
    let mut src = NoiseSource::from_entropy().unwrap();
    let v = src.offset(10);
    assert!(-10 <= v && v < 10);
}

#[test]
fn jittered_run_stays_near_quiet_run() {
    let a = vec![at(1, 0, 0, 0, units(1))];
    let b = vec![at(2, units(2), 0, 0, units(1))];
    let mut quiet = Simulation::new(a.clone(), b.clone(), SimulationConfig::new(0, 0, 1)).unwrap();
    let mut noisy = Simulation::new(a, b, SimulationConfig::new(0, 3, 1)).unwrap();
    let mut src = NoiseSource::from_seed(5);
    quiet.run(&mut src);
    noisy.run(&mut src);
    let dq = quiet.molecule_a()[0].position.x - noisy.molecule_a()[0].position.x;
    assert!(dq.abs() <= 3);
}

#[test]
fn step_with_given_jitters() {
    let a = vec![at(1, 0, 0, 0, units(1))];
    let b = vec![at(2, units(2), 0, 0, units(1))];
    let mut sim = Simulation::new(a, b, SimulationConfig::new(0, 10, 1)).unwrap();
    let ja = Jitter { position: Vec3::new(1, 1, 1), velocity: Vec3::zero() };
    let faults = sim.step_with(0, &vec![(ja, Jitter::zero())]);
    assert!(faults.is_empty());
    let p = sim.molecule_a()[0];
    assert_eq!(p.position.y, 1);
    assert_eq!(p.position.z, 1);
}

#[test]
fn nested_pair_order() {
    let a = vec![at(1, 0, 0, 0, units(1)), at(2, 0, units(5), 0, units(1))];
    let b = vec![at(3, units(5), 0, 0, units(1)), at(4, units(5), units(5), 0, units(1))];
    let mut sim = Simulation::new(a, b, SimulationConfig::new(0, 0, 1)).unwrap();
    let faults = sim.step_with(0, &vec![(Jitter::zero(), Jitter::zero()); 4]);
    assert!(faults.is_empty());
    let pos = sim.positions();
    assert_eq!(pos.len(), 4);
    assert_eq!(pos[0], sim.molecule_a()[0].position);
    assert_eq!(pos[3], sim.molecule_b()[1].position);
}

#[test]
fn setup_errors() {
    let good = vec![at(1, 0, 0, 0, units(1))];
    let cfg = SimulationConfig::new(0, 0, 1);
    assert_eq!(
        Simulation::new(good.clone(), good.clone(), SimulationConfig::new(-1, 0, 1)).err(),
        Some(ConfigError::TemperatureOutOfRange)
    );
    assert_eq!(
        Simulation::new(good.clone(), good.clone(), SimulationConfig::new(0, -1, 1)).err(),
        Some(ConfigError::UncertaintyOutOfRange)
    );
    assert_eq!(
        Simulation::new(good.clone(), good.clone(), cfg.with_dt(0)).err(),
        Some(ConfigError::TimeStepOutOfRange)
    );
    let big = vec![at(1, 0, 0, 0, units(1)); 4097];
    assert_eq!(
        Simulation::new(good.clone(), big, cfg).err(),
        Some(ConfigError::MoleculeTooLarge { molecule: 1 })
    );
    let massless = vec![at(1, 0, 0, 0, units(1)), at(2, 0, 0, 0, 0)];
    assert_eq!(
        Simulation::new(massless, good.clone(), cfg).err(),
        Some(ConfigError::NonPositiveMass { molecule: 0, index: 1 })
    );
    let far = vec![at(1, i64::MAX, 0, 0, units(1))];
    assert_eq!(
        Simulation::new(good.clone(), far, cfg).err(),
        Some(ConfigError::StateOutOfRange { molecule: 1, index: 0 })
    );
    assert!(Simulation::new(good.clone(), vec![], cfg).is_ok());
}

#[test]
fn duplicate_ids_are_rejected() {
    let cfg = SimulationConfig::new(0, 0, 1);
    let a = vec![at(1, 0, 0, 0, units(1)), at(2, units(3), 0, 0, units(1))];
    let b = vec![at(3, units(6), 0, 0, units(1)), at(2, units(9), 0, 0, units(1))];
    assert_eq!(
        Simulation::new(a.clone(), b, cfg).err(),
        Some(ConfigError::DuplicateId { molecule: 1, index: 1 })
    );
    let twice = vec![at(5, 0, 0, 0, units(1)), at(5, units(3), 0, 0, units(1))];
    assert_eq!(
        Simulation::new(twice, vec![], cfg).err(),
        Some(ConfigError::DuplicateId { molecule: 0, index: 1 })
    );
}

#[test]
fn leaving_the_range_skips_the_pair() {
    let limit = ljdyn::fixed::LIMIT;
    let a = vec![Particle::new(1, Vec3::new(limit, 0, 0), Vec3::new(limit, 0, 0), units(1))];
    let b = vec![at(2, 0, 0, 0, units(1))];
    let mut sim = Simulation::new(a.clone(), b, SimulationConfig::new(0, 0, 1)).unwrap();
    let mut src = NoiseSource::from_seed(2);
    let report = sim.run(&mut src);
    assert_eq!(report.faults.len(), 1);
    assert_eq!(report.faults[0].kind, FaultKind::OutOfRange);
    assert_eq!(sim.molecule_a(), &a);
}

#[test]
fn empty_molecule_runs() {
    let a = vec![at(1, 0, 0, 0, units(1))];
    let mut sim = Simulation::new(a.clone(), vec![], SimulationConfig::new(10, 10, 5)).unwrap();
    let mut src = NoiseSource::from_seed(2);
    let report = sim.run(&mut src);
    assert_eq!(report.ticks, 5);
    assert!(report.faults.is_empty());
    assert_eq!(sim.molecule_a(), &a);
}
