use particle_swarm::config::{Config, ConfigError};
use particle_swarm::fixed::ONE;
use particle_swarm::objective::{Himmelblau, Objective};
use particle_swarm::optimizer::{optimize, Outcome, Termination};
use particle_swarm::particle::Particle;
use particle_swarm::random::{RandomSource, UniformSource};
use particle_swarm::swarm::Swarm;
use particle_swarm::vector::Vector;

fn base_config() -> Config {
    Config {
        n_particles: 40,
        x_min: -5 * ONE,
        x_max: 5 * ONE,
        c1: ONE,
        c2: 100_000,
        alpha: ONE,
        delta_t: ONE,
        inertia: 1_500_000,
        beta: 990_000,
        inertia_floor: 400_000,
        v_max: 150_000,
        threshold: 100,
        iterations: 2_000,
        seed_best: Vector::new(5 * ONE, 5 * ONE),
    }
}

fn particle(pos: (i64, i64), vel: (i64, i64), best: (i64, i64)) -> Particle {
    Particle {
        position: Vector::new(pos.0, pos.1),
        velocity: Vector::new(vel.0, vel.1),
        personal_best: Vector::new(best.0, best.1),
    }
}

#[test]
fn config_errors() {
    let mut c = base_config();
    assert_eq!(c.error(), None);
    c.n_particles = 0;
    assert_eq!(c.error(), Some(ConfigError::NoParticles));
    let mut c = base_config();
    c.x_max = c.x_min;
    assert_eq!(c.error(), Some(ConfigError::EmptyDomain));
    let mut c = base_config();
    c.v_max = -1;
    assert_eq!(c.error(), Some(ConfigError::NegativeVelocityLimit));
    let mut c = base_config();
    c.delta_t = 0;
    assert_eq!(c.error(), Some(ConfigError::NonPositiveTimeStep));
    let mut c = base_config();
    c.c1 = i64::MAX;
    assert_eq!(c.error(), Some(ConfigError::OutOfRange));
    let mut c = base_config();
    c.v_max = 0;
    assert_eq!(c.error(), None);
}

#[test]
fn first_error_wins() {
    let mut c = base_config();
    c.n_particles = 0;
    c.delta_t = -1;
    assert_eq!(c.error(), Some(ConfigError::NoParticles));
}

#[test]
fn optimize_refuses_a_bad_config() {
    let mut c = base_config();
    c.delta_t = 0;
    let mut rng = UniformSource::seeded(1);
    assert_eq!(optimize(&c, &Himmelblau, &mut rng), Err(ConfigError::NonPositiveTimeStep));
}

#[test]
fn spawn_exact_values() {
    let c = base_config();
    let p = Particle::spawn(&c, (0, 500_000, 0, 999_999));
    assert_eq!(p.position, Vector::new(-5 * ONE, 0));
    assert_eq!(p.velocity, Vector::new(-5 * ONE, 4_999_990));
    assert_eq!(p.personal_best, p.position);
}

#[test]
fn spawn_scales_velocity_by_alpha_over_delta_t() {
    let mut c = base_config();
    c.alpha = 500_000;
    c.delta_t = 2 * ONE;
    let p = Particle::spawn(&c, (250_000, 750_000, 0, 750_000));
    assert_eq!(p.position, Vector::new(-2_500_000, 2_500_000));
    // 0.25 * (-5) and 0.25 * 2.5
    assert_eq!(p.velocity, Vector::new(-1_250_000, 625_000));
}

#[test]
fn initialized_particles_within_bounds() {
    let c = base_config();
    let mut rng = UniformSource::seeded(42);
    let s = Swarm::initialize(&c, &mut rng);
    assert_eq!(s.particles.len(), 40);
    assert_eq!(s.global_best, c.seed_best);
    for p in s.particles.iter() {
        assert!(c.x_min <= p.position.x && p.position.x <= c.x_max);
        assert!(c.x_min <= p.position.y && p.position.y <= c.x_max);
        assert!(p.velocity.x.abs() <= 5 * ONE);
        assert!(p.velocity.y.abs() <= 5 * ONE);
        assert_eq!(p.personal_best, p.position);
    }
}

#[test]
fn spawn_with_uses_each_draw() {
    let c = base_config();
    let draws = vec![(0, 0, 0, 0), (500_000, 500_000, 500_000, 500_000)];
    let s = Swarm::spawn_with(&c, &draws);
    assert_eq!(s.particles.len(), 2);
    assert_eq!(s.particles[0].position, Vector::new(-5 * ONE, -5 * ONE));
    assert_eq!(s.particles[1].position, Vector::new(0, 0));
    assert_eq!(s.particles[1].velocity, Vector::new(0, 0));
}

#[test]
fn advance_exact_values() {
    let c = base_config();
    let p = particle((0, 0), (100_000, -100_000), (ONE, 0));
    let g = Vector::new(2 * ONE, 2 * ONE);
    let n = p.advance(g, &c, 1_500_000, 500_000, 200_000);
    // x: 0.15 + 0.5 + 0.04 = 0.69, clamped to 0.15; y: -0.15 + 0 + 0.04
    assert_eq!(n.velocity, Vector::new(150_000, -110_000));
    assert_eq!(n.position, Vector::new(150_000, -110_000));
    assert_eq!(n.personal_best, p.personal_best);
}

#[test]
fn clamp_snaps_to_positive_limit() {
    let c = base_config();
    let p = particle((0, 0), (-ONE, 0), (0, 0));
    let n = p.advance(Vector::new(0, 0), &c, ONE, 0, 0);
    assert_eq!(n.velocity, Vector::new(150_000, 0));
    assert_eq!(n.position, Vector::new(150_000, 0));
}

#[test]
fn clamp_at_exactly_the_limit() {
    let c = base_config();
    let p = particle((0, 0), (150_000, 149_999), (0, 0));
    let n = p.advance(Vector::new(0, 0), &c, ONE, 0, 0);
    assert_eq!(n.velocity, Vector::new(150_000, 149_999));
}

#[test]
fn velocities_stay_clamped_after_update() {
    let c = base_config();
    let mut rng = UniformSource::seeded(9);
    let mut s = Swarm::initialize(&c, &mut rng);
    let mut w = c.inertia;
    for _ in 0..20 {
        w = s.update_position_and_velocity(&c, w, &mut rng);
        for p in s.particles.iter() {
            assert!(p.velocity.x.abs() <= c.v_max);
            assert!(p.velocity.y.abs() <= c.v_max);
        }
    }
    assert!(w >= c.inertia_floor && w < c.inertia);
}

#[test]
fn advance_with_keeps_global_best() {
    let c = base_config();
    let mut s = Swarm {
        particles: vec![particle((0, 0), (0, 0), (ONE, ONE))],
        global_best: Vector::new(ONE, ONE),
    };
    s.advance_with(&c, ONE, &vec![(ONE - 1, 0)]);
    assert_eq!(s.global_best, Vector::new(ONE, ONE));
    // c1 * q * (1 - 0) = 0.999999, clamped to 0.15
    assert_eq!(s.particles[0].velocity, Vector::new(150_000, 150_000));
}

#[test]
fn best_update_strict_and_last_wins() {
    let mut s = Swarm {
        particles: vec![
            particle((1, 1), (0, 0), (10, 10)),
            particle((2, 2), (0, 0), (20, 20)),
            particle((3, 3), (0, 0), (30, 30)),
            particle((4, 4), (0, 0), (40, 40)),
        ],
        global_best: Vector::new(99, 99),
    };
    // particle 0: tie, keeps its best (cost 50); particle 1 improves to 40;
    // particle 2 improves to 30; particle 3 does not improve (cost 60 vs 45)
    let r = s.update_best_positions(&vec![50, 40, 30, 60], &vec![50, 45, 35, 45], 100);
    assert_eq!(s.particles[0].personal_best, Vector::new(10, 10));
    assert_eq!(s.particles[1].personal_best, Vector::new(2, 2));
    assert_eq!(s.particles[2].personal_best, Vector::new(3, 3));
    assert_eq!(s.particles[3].personal_best, Vector::new(40, 40));
    assert_eq!(s.global_best, Vector::new(3, 3));
    assert_eq!(r, 30);
}

#[test]
fn best_update_compares_with_improvements_of_the_same_pass() {
    let mut s = Swarm {
        particles: vec![particle((1, 1), (0, 0), (1, 1)), particle((2, 2), (0, 0), (2, 2))],
        global_best: Vector::new(9, 9),
    };
    // both beat the old best (100); the second does not beat the first
    let r = s.update_best_positions(&vec![10, 20], &vec![10, 20], 100);
    assert_eq!(s.global_best, Vector::new(1, 1));
    assert_eq!(r, 10);
}

#[test]
fn best_update_equal_to_global_does_not_replace() {
    let mut s = Swarm {
        particles: vec![particle((1, 1), (0, 0), (5, 5))],
        global_best: Vector::new(9, 9),
    };
    let r = s.update_best_positions(&vec![7], &vec![8], 7);
    assert_eq!(s.particles[0].personal_best, Vector::new(1, 1));
    assert_eq!(s.global_best, Vector::new(9, 9));
    assert_eq!(r, 7);
}

#[test]
fn best_update_on_empty_swarm() {
    let mut s = Swarm { particles: vec![], global_best: Vector::new(9, 9) };
    assert_eq!(s.update_best_positions(&vec![], &vec![], 3), 3);
    assert_eq!(s.global_best, Vector::new(9, 9));
}

#[test]
fn tracked_costs_never_regress() {
    let c = base_config();
    let f = Himmelblau;
    let mut rng = UniformSource::seeded(5);
    let mut s = Swarm::initialize(&c, &mut rng);
    let mut w = c.inertia;
    let mut best = f.evaluate(s.global_best);
    for _ in 0..30 {
        let before: Vec<i128> = s.particles.iter().map(|p| f.evaluate(p.personal_best)).collect();
        let r = s.track_bests(&f);
        assert!(r <= best);
        assert_eq!(r, f.evaluate(s.global_best));
        for (p, b) in s.particles.iter().zip(before.iter()) {
            assert!(f.evaluate(p.personal_best) <= *b);
        }
        best = r;
        w = s.update_position_and_velocity(&c, w, &mut rng);
    }
}

#[test]
fn converges_at_once_from_a_root() {
    let mut c = base_config();
    c.seed_best = Vector::new(3 * ONE, 2 * ONE);
    c.threshold = 1;
    let mut rng = UniformSource::seeded(3);
    let o = optimize(&c, &Himmelblau, &mut rng).unwrap();
    assert_eq!(o.termination, Termination::Converged { iteration: 0 });
    assert_eq!(o.best, Vector::new(3 * ONE, 2 * ONE));
    assert_eq!(o.best_cost, 0);
}

#[test]
fn zero_iterations_exhausts_at_once() {
    let mut c = base_config();
    c.iterations = 0;
    let mut rng = UniformSource::seeded(3);
    let o = optimize(&c, &Himmelblau, &mut rng).unwrap();
    assert_eq!(o.termination, Termination::Exhausted);
    assert_eq!(o.best, c.seed_best);
    assert_eq!(o.best_cost, 890 * ONE as i128);
}

#[test]
fn run_finds_a_minimum() {
    let c = base_config();
    let mut rng = UniformSource::seeded(2024);
    let o = optimize(&c, &Himmelblau, &mut rng).unwrap();
    assert!(o.best_cost <= 890 * ONE as i128);
    assert_eq!(o.best_cost, Himmelblau.evaluate(o.best));
    match o.termination {
        Termination::Converged { iteration } => {
            assert!(iteration < c.iterations);
            assert!(o.best_cost < c.threshold);
        }
        Termination::Exhausted => assert!(o.best_cost >= c.threshold),
    }
}

#[test]
fn same_seed_same_run() {
    let c = base_config();
    let mut a = UniformSource::seeded(77);
    let mut b = UniformSource::seeded(77);
    let oa: Outcome = optimize(&c, &Himmelblau, &mut a).unwrap();
    let ob: Outcome = optimize(&c, &Himmelblau, &mut b).unwrap();
    assert_eq!(oa, ob);
}

#[test]
fn same_seed_same_trajectory() {
    let c = base_config();
    let mut a = UniformSource::seeded(11);
    let mut b = UniformSource::seeded(11);
    let mut sa = Swarm::initialize(&c, &mut a);
    let mut sb = Swarm::initialize(&c, &mut b);
    let mut wa = c.inertia;
    let mut wb = c.inertia;
    for _ in 0..25 {
        assert_eq!(sa.particles, sb.particles);
        assert_eq!(sa.track_bests(&Himmelblau), sb.track_bests(&Himmelblau));
        assert_eq!(sa.global_best, sb.global_best);
        wa = sa.update_position_and_velocity(&c, wa, &mut a);
        wb = sb.update_position_and_velocity(&c, wb, &mut b);
        assert_eq!(wa, wb);
    }
    assert_eq!(sa.particles, sb.particles);
}

#[test]
fn uniform_draws_in_unit_range_and_repeatable() {
    let mut a = UniformSource::seeded(1);
    let mut b = UniformSource::seeded(1);
    let mut c = UniformSource::seeded(2);
    let mut differs = false;
    for _ in 0..64 {
        let x = a.next_unit();
        assert!(0 <= x && x < ONE);
        assert_eq!(x, b.next_unit());
        if x != c.next_unit() {
            differs = true;
        }
    }
    assert!(differs);
}

#[test]
fn spawn_speed_within_half_span() {
    let mut c = base_config();
    c.x_min = 0;
    c.x_max = ONE;
    let p = Particle::spawn(&c, (0, 0, 0, 0));
    assert_eq!(p.velocity, Vector::new(-500_000, -500_000));
    let q = Particle::spawn(&c, (0, 0, 999_999, 500_000));
    assert_eq!(q.velocity, Vector::new(499_999, 0));
}

#[test]
fn initialize_takes_the_next_draws_in_order() {
    let c = base_config();
    let mut a = UniformSource::seeded(21);
    let mut b = UniformSource::seeded(21);
    let mut draws = Vec::new();
    for _ in 0..c.n_particles {
        let p = a.next_unit();
        let q = a.next_unit();
        let r = a.next_unit();
        let s = a.next_unit();
        draws.push((p, q, r, s));
    }
    let expected = Swarm::spawn_with(&c, &draws);
    let got = Swarm::initialize(&c, &mut b);
    assert_eq!(got.particles, expected.particles);
    assert_eq!(a.next_unit(), b.next_unit());
}

#[test]
fn step_takes_the_next_pairs_in_order() {
    let c = base_config();
    let mut a = UniformSource::seeded(33);
    let mut b = UniformSource::seeded(33);
    let start = Swarm::initialize(&c, &mut UniformSource::seeded(1));
    let mut manual = Swarm { particles: start.particles.clone(), global_best: start.global_best };
    let mut drawn = Swarm { particles: start.particles.clone(), global_best: start.global_best };
    let mut pairs = Vec::new();
    for _ in 0..c.n_particles {
        let q = a.next_unit();
        let r = a.next_unit();
        pairs.push((q, r));
    }
    manual.advance_with(&c, c.inertia, &pairs);
    let w = drawn.update_position_and_velocity(&c, c.inertia, &mut b);
    assert_eq!(drawn.particles, manual.particles);
    assert_eq!(w, 1_485_000);
    assert_eq!(a.next_unit(), b.next_unit());
}

#[test]
fn best_update_accepts_longer_cost_arrays() {
    let mut s = Swarm {
        particles: vec![particle((1, 1), (0, 0), (5, 5))],
        global_best: Vector::new(9, 9),
    };
    let r = s.update_best_positions(&vec![3, 0, 0], &vec![4, 0], 10);
    assert_eq!(s.particles[0].personal_best, Vector::new(1, 1));
    assert_eq!(s.global_best, Vector::new(1, 1));
    assert_eq!(r, 3);
}

#[test]
fn config_error_leaves_the_source_untouched() {
    let mut c = base_config();
    c.n_particles = 0;
    let mut a = UniformSource::seeded(4);
    let mut b = UniformSource::seeded(4);
    assert_eq!(optimize(&c, &Himmelblau, &mut a), Err(ConfigError::NoParticles));
    assert_eq!(a.next_unit(), b.next_unit());
}

fn run_by_hand(c: &Config, seed: u64) -> Outcome {
    let mut rng = UniformSource::seeded(seed);
    let mut s = Swarm::initialize(c, &mut rng);
    let mut w = c.inertia;
    let mut cost = Himmelblau.evaluate(s.global_best);
    for t in 0..c.iterations {
        cost = s.track_bests(&Himmelblau);
        if cost < c.threshold {
            return Outcome {
                termination: Termination::Converged { iteration: t },
                best: s.global_best,
                best_cost: cost,
            };
        }
        w = s.update_position_and_velocity(c, w, &mut rng);
    }
    Outcome { termination: Termination::Exhausted, best: s.global_best, best_cost: cost }
}

#[test]
fn optimize_follows_the_run() {
    let mut c = base_config();
    c.iterations = 60;
    let mut rng = UniformSource::seeded(8);
    assert_eq!(optimize(&c, &Himmelblau, &mut rng).unwrap(), run_by_hand(&c, 8));
    let c = base_config();
    let mut rng = UniformSource::seeded(8);
    assert_eq!(optimize(&c, &Himmelblau, &mut rng).unwrap(), run_by_hand(&c, 8));
}

#[test]
fn spawn_speed_rounds_toward_zero() {
    let mut c = base_config();
    c.x_min = -5 * ONE;
    c.x_max = 5 * ONE + 1;
    c.alpha = ONE + 1;
    let p = Particle::spawn(&c, (0, 0, 0, 0));
    // (1.000001 * -10.000001) / 2 = -5.0000055..., rounded towards zero
    assert_eq!(p.velocity, Vector::new(-5_000_005, -5_000_005));
}

#[test]
fn spawn_speed_with_negative_alpha() {
    let mut c = base_config();
    c.x_min = 0;
    c.x_max = 10 * ONE;
    c.alpha = -ONE;
    c.delta_t = 3 * ONE;
    let p = Particle::spawn(&c, (0, 0, 0, 999_999));
    // -1/3 * -5 = 1.666666...; -1/3 * 4.99999 = -1.6666633...
    assert_eq!(p.velocity, Vector::new(1_666_666, -1_666_663));
    for v in [p.velocity.x, p.velocity.y] {
        assert!(2 * (v.abs() as i128) * (c.delta_t as i128) <= (c.alpha.abs() as i128) * 10 * ONE as i128);
    }
}
