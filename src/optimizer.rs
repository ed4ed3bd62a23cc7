//! The optimiser loop: a state machine from running to converged or
//! exhausted.
use vstd::prelude::*;
use crate::config::{Config, ConfigError};
use crate::fixed::in_range;
use crate::inertia::decayed_times;
use crate::objective::{lemma_himmelblau_root, Himmelblau, Objective};
use crate::particle::{draws_ok, unit_draw, Particle};
use crate::random::RandomSource;
use crate::swarm::{
    advanced_all, advanced_by, best_costs, best_pass, flat2, flat4, improved_all,
    lemma_best_after_kept, position_costs, spawned_all, spawned_by, Swarm,
};
use crate::vector::Vector;

verus! {

/// How a run ended.
#[derive(Clone, Copy, Debug, PartialEq, Eq, Structural)]
pub enum Termination {
    /// The best cost fell below the threshold after the best-tracking step
    /// of this iteration (counted from zero), before the particles moved.
    Converged { iteration: u64 },
    /// The iteration budget ran out first.
    Exhausted,
}

/// The result of a run: how it ended, the best position and its cost.
#[derive(Clone, Copy, Debug, PartialEq, Eq, Structural)]
pub struct Outcome {
    pub termination: Termination,
    pub best: Vector,
    pub best_cost: i128,
}

/// What holds of every run on a valid configuration, whatever the draws.
pub open spec fn run_outcome<O: Objective>(cfg: Config, obj: O, o: Outcome) -> bool {
    &&& o.best_cost == obj.value(o.best)
    &&& o.best_cost <= obj.value(cfg.seed_best)
    &&& o.termination is Converged ==> o.termination->iteration < cfg.iterations && o.best_cost
        < cfg.threshold
    &&& o.termination is Exhausted ==> (cfg.iterations == 0 ==> o.best == cfg.seed_best) && (
    cfg.iterations > 0 ==> o.best_cost >= cfg.threshold)
    &&& cfg.iterations == 0 ==> o.termination is Exhausted
    &&& cfg.iterations > 0 && obj.value(cfg.seed_best) < cfg.threshold ==> o.termination
        == Termination::Converged { iteration: 0 }
}

/// The inertia weight used by the step of iteration `t`.
pub open spec fn inertia_at(cfg: Config, t: nat) -> int {
    decayed_times(cfg.inertia as int, cfg.beta as int, cfg.inertia_floor as int, t)
}

/// The particles and the swarm best at the start of iteration `t`, for the
/// initial draws `init` and the per-iteration step draws `steps`.
pub open spec fn state_at<O: Objective>(
    cfg: Config,
    obj: O,
    init: Seq<(i64, i64, i64, i64)>,
    steps: Seq<Seq<(i64, i64)>>,
    t: nat,
) -> (Seq<Particle>, Vector)
    decreases t,
{
    if t == 0 {
        (spawned_all(cfg, init), cfg.seed_best)
    } else {
        let prev = state_at(cfg, obj, init, steps, (t - 1) as nat);
        let g = best_pass(obj, prev.0, prev.1).0;
        (
            advanced_all(
                improved_all(obj, prev.0),
                g,
                cfg,
                inertia_at(cfg, (t - 1) as nat),
                steps[t - 1],
            ),
            g,
        )
    }
}

/// The best position after the best-tracking pass of iteration `t`.
pub open spec fn best_at<O: Objective>(
    cfg: Config,
    obj: O,
    init: Seq<(i64, i64, i64, i64)>,
    steps: Seq<Seq<(i64, i64)>>,
    t: nat,
) -> Vector {
    best_pass(obj, state_at(cfg, obj, init, steps, t).0, state_at(cfg, obj, init, steps, t).1).0
}

/// The cost of the best position after the best-tracking pass of
/// iteration `t`.
pub open spec fn cost_at<O: Objective>(
    cfg: Config,
    obj: O,
    init: Seq<(i64, i64, i64, i64)>,
    steps: Seq<Seq<(i64, i64)>>,
    t: nat,
) -> int {
    best_pass(obj, state_at(cfg, obj, init, steps, t).0, state_at(cfg, obj, init, steps, t).1).1
}

/// The step draws in the order they are taken.
pub open spec fn flat_steps(steps: Seq<Seq<(i64, i64)>>) -> Seq<i64>
    decreases steps.len(),
{
    if steps.len() == 0 {
        Seq::empty()
    } else {
        flat_steps(steps.drop_last()) + flat2(steps.last())
    }
}

/// Four unit draws per particle to create the swarm, and two per particle
/// for each step.
pub open spec fn draws_valid(
    cfg: Config,
    init: Seq<(i64, i64, i64, i64)>,
    steps: Seq<Seq<(i64, i64)>>,
) -> bool {
    &&& init.len() == cfg.n_particles
    &&& forall|i: int| 0 <= i < init.len() ==> draws_ok(#[trigger] init[i])
    &&& forall|t: int| 0 <= t < steps.len() ==> (#[trigger] steps[t]).len() == cfg.n_particles
    &&& forall|t: int, i: int|
        0 <= t < steps.len() && 0 <= i < cfg.n_particles ==> unit_draw(
            #[trigger] steps[t][i].0 as int,
        ) && unit_draw(steps[t][i].1 as int)
}

/// The outcome of the run with the initial draws `init` and one set of step
/// draws per step taken: it converges at the first iteration whose
/// best-tracking pass leaves the best cost below the threshold, and is
/// exhausted when there is none within the budget.
pub open spec fn runs_to<O: Objective>(
    cfg: Config,
    obj: O,
    init: Seq<(i64, i64, i64, i64)>,
    steps: Seq<Seq<(i64, i64)>>,
    o: Outcome,
) -> bool {
    match o.termination {
        Termination::Converged { iteration } => {
            &&& steps.len() == iteration
            &&& iteration < cfg.iterations
            &&& cost_at(cfg, obj, init, steps, iteration as nat) < cfg.threshold
            &&& forall|j: nat|
                j < iteration ==> #[trigger] cost_at(cfg, obj, init, steps, j) >= cfg.threshold
            &&& o.best == best_at(cfg, obj, init, steps, iteration as nat)
            &&& o.best_cost == cost_at(cfg, obj, init, steps, iteration as nat)
        },
        Termination::Exhausted => {
            &&& steps.len() == cfg.iterations
            &&& forall|j: nat|
                j < cfg.iterations ==> #[trigger] cost_at(cfg, obj, init, steps, j)
                    >= cfg.threshold
            &&& o.best == state_at(cfg, obj, init, steps, cfg.iterations as nat).1
            &&& o.best_cost == obj.value(o.best)
        },
    }
}

/// A run is fixed by its configuration, objective and draws: two outcomes of
/// runs with the same initial and step draws are equal bit for bit.
pub proof fn lemma_run_determined<O: Objective>(
    cfg: Config,
    obj: O,
    init: Seq<(i64, i64, i64, i64)>,
    steps: Seq<Seq<(i64, i64)>>,
    a: Outcome,
    b: Outcome,
)
    requires
        runs_to(cfg, obj, init, steps, a),
        runs_to(cfg, obj, init, steps, b),
    ensures
        a == b,
{
}

/// A run on Himmelblau's function seeded at its root (3, 2), with a positive
/// threshold and a non-zero budget, converges at iteration 0, before any
/// particle moves, and reports the root, whatever the draws.
pub proof fn lemma_root_seed_converges(
    cfg: Config,
    init: Seq<(i64, i64, i64, i64)>,
    steps: Seq<Seq<(i64, i64)>>,
    o: Outcome,
)
    requires
        cfg.seed_best == (Vector { x: 3_000_000i64, y: 2_000_000i64 }),
        cfg.threshold > 0,
        cfg.iterations > 0,
        runs_to(cfg, Himmelblau, init, steps, o),
    ensures
        o.termination == (Termination::Converged { iteration: 0 }),
        o.best == cfg.seed_best,
        o.best_cost == 0,
{
    let obj = Himmelblau;
    let ps = state_at(cfg, obj, init, steps, 0).0;
    let g = cfg.seed_best;
    lemma_himmelblau_root(g);
    assert forall|i: int| 0 <= i < ps.len() implies #[trigger] position_costs(obj, ps)[i] >= 0
        && best_costs(obj, ps)[i] >= 0 by {
        lemma_himmelblau_root(ps[i].position);
        lemma_himmelblau_root(ps[i].personal_best);
    }
    lemma_best_after_kept(ps, position_costs(obj, ps), best_costs(obj, ps), g, 0, ps.len());
    assert(cost_at(cfg, obj, init, steps, 0) == 0);
    match o.termination {
        Termination::Converged { iteration } => {
            if iteration > 0 {
                assert(cost_at(cfg, obj, init, steps, 0) >= cfg.threshold);
            }
        },
        Termination::Exhausted => {
            assert(cost_at(cfg, obj, init, steps, 0) >= cfg.threshold);
        },
    }
}

/// The state at iteration `t` reads only the step draws before `t`.
proof fn lemma_state_prefix<O: Objective>(
    cfg: Config,
    obj: O,
    init: Seq<(i64, i64, i64, i64)>,
    steps: Seq<Seq<(i64, i64)>>,
    x: Seq<(i64, i64)>,
    t: nat,
)
    requires
        t <= steps.len(),
    ensures
        state_at(cfg, obj, init, steps.push(x), t) == state_at(cfg, obj, init, steps, t),
    decreases t,
{
    if t > 0 {
        lemma_state_prefix(cfg, obj, init, steps, x, (t - 1) as nat);
        assert(steps.push(x)[t - 1] == steps[t - 1]);
    }
}

/// Runs the swarm on `obj` with draws from `rng`. Each iteration tracks the
/// bests, stops if the best cost is below the threshold, and otherwise moves
/// the particles and decays the inertia weight.
pub fn optimize<O: Objective, R: RandomSource>(cfg: &Config, obj: &O, rng: &mut R) -> (r: Result<
    Outcome,
    ConfigError,
>)
    ensures
        match r {
            Err(e) => cfg.spec_error() == Some(e) && *final(rng) == *old(rng),
            Ok(o) => cfg.valid() && run_outcome(*cfg, *obj, o) && exists|
                init: Seq<(i64, i64, i64, i64)>,
                steps: Seq<Seq<(i64, i64)>>,
            |
                #[trigger] runs_to(*cfg, *obj, init, steps, o) && draws_valid(*cfg, init, steps)
                    && final(rng).drawn() == old(rng).drawn() + flat4(init) + flat_steps(steps),
        },
{
    if let Some(e) = cfg.error() {
        return Err(e);
    }
    let ghost h0 = rng.drawn();
    let mut swarm = Swarm::initialize(cfg, rng);
    let ghost init = choose|d: Seq<(i64, i64, i64, i64)>|
        #[trigger] spawned_by(*cfg, swarm.particles@, d) && rng.drawn() == h0 + flat4(d);
    let ghost mut taken: Seq<Seq<(i64, i64)>> = Seq::empty();
    proof {
        assert(swarm.particles@ =~= spawned_all(*cfg, init));
        assert(rng.drawn() =~= h0 + flat4(init) + flat_steps(taken));
    }
    let mut w = cfg.inertia;
    let mut best_cost = obj.evaluate(swarm.global_best);
    let mut t: u64 = 0;
    while t < cfg.iterations
        invariant
            cfg.valid(),
            swarm.wf(),
            in_range(w as int),
            best_cost == obj.value(swarm.global_best),
            best_cost <= obj.value(cfg.seed_best),
            t <= cfg.iterations,
            t == 0 ==> swarm.global_best == cfg.seed_best,
            t > 0 ==> best_cost >= cfg.threshold,
            taken.len() == t,
            swarm.particles@.len() == cfg.n_particles,
            draws_valid(*cfg, init, taken),
            (swarm.particles@, swarm.global_best) == state_at(*cfg, *obj, init, taken, t as nat),
            w == inertia_at(*cfg, t as nat),
            forall|j: nat| j < t ==> #[trigger] cost_at(*cfg, *obj, init, taken, j) >= cfg.threshold,
            rng.drawn() == h0 + flat4(init) + flat_steps(taken),
            h0 == old(rng).drawn(),
        decreases cfg.iterations - t,
    {
        let ghost ps0 = swarm.particles@;
        let ghost g0 = swarm.global_best;
        best_cost = swarm.track_bests(obj);
        proof {
            assert(swarm.particles@ =~= improved_all(*obj, ps0));
        }
        if best_cost < cfg.threshold {
            let out = Outcome {
                termination: Termination::Converged { iteration: t },
                best: swarm.global_best,
                best_cost,
            };
            proof {
                assert(runs_to(*cfg, *obj, init, taken, out) && draws_valid(*cfg, init, taken)
                    && rng.drawn() == old(rng).drawn() + flat4(init) + flat_steps(taken));
            }
            return Ok(out);
        }
        let ghost ps1 = swarm.particles@;
        let ghost g1 = swarm.global_best;
        let ghost w0 = w;
        let ghost hb = rng.drawn();
        w = swarm.update_position_and_velocity(cfg, w, rng);
        proof {
            let d = choose|d: Seq<(i64, i64)>|
                #[trigger] advanced_by(ps1, swarm.particles@, g1, *cfg, w0 as int, d)
                    && rng.drawn() == hb + flat2(d);
            let old_taken = taken;
            taken = taken.push(d);
            assert forall|j: nat| j <= t implies state_at(*cfg, *obj, init, taken, j) == state_at(
                *cfg,
                *obj,
                init,
                old_taken,
                j,
            ) by {
                lemma_state_prefix(*cfg, *obj, init, old_taken, d, j);
            }
            assert(swarm.particles@ =~= advanced_all(ps1, g1, *cfg, w0 as int, d));
            assert(taken[t as int] == d);
            assert(taken.drop_last() =~= old_taken);
            assert(rng.drawn() =~= h0 + flat4(init) + flat_steps(taken));
            assert forall|j: nat| j < t + 1 implies #[trigger] cost_at(*cfg, *obj, init, taken, j)
                >= cfg.threshold by {
                if j < t {
                    assert(cost_at(*cfg, *obj, init, old_taken, j) >= cfg.threshold);
                }
            }
            assert forall|tt: int, i: int|
                0 <= tt < taken.len() && 0 <= i < cfg.n_particles implies unit_draw(
                #[trigger] taken[tt][i].0 as int,
            ) && unit_draw(taken[tt][i].1 as int) by {
                if tt < t {
                    assert(taken[tt] == old_taken[tt]);
                } else {
                    assert(taken[tt] == d);
                    assert(unit_draw(d[i].0 as int));
                }
            }
        }
        t += 1;
    }
    proof {
        let o = Outcome { termination: Termination::Exhausted, best: swarm.global_best, best_cost };
        assert(runs_to(*cfg, *obj, init, taken, o));
    }
    Ok(Outcome { termination: Termination::Exhausted, best: swarm.global_best, best_cost })
}

} // verus!
