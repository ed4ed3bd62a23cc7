//! The swarm: its particles and the best position any of them has found.
use vstd::prelude::*;
use crate::config::Config;
use crate::fixed::{abs, in_range};
use crate::inertia::{decay_inertia, decayed};
use crate::objective::Objective;
use crate::particle::{draws_ok, spawned, unit_draw, Particle};
use crate::random::RandomSource;
use crate::vector::Vector;

verus! {

/// The particles and the swarm's best position.
pub struct Swarm {
    pub particles: Vec<Particle>,
    pub global_best: Vector,
}

/// The particle after its best-tracking step, given the cost `fp` of its
/// position and `fb` of its personal best: a strictly lower cost moves the
/// personal best to the position; a tie does not.
pub open spec fn improved(p: Particle, fp: int, fb: int) -> Particle {
    if fp < fb {
        Particle { position: p.position, velocity: p.velocity, personal_best: p.position }
    } else {
        p
    }
}

/// The cost of the personal best after the best-tracking step.
pub open spec fn kept_cost(fp: int, fb: int) -> int {
    if fp < fb {
        fp
    } else {
        fb
    }
}

/// The swarm's best position and its cost after the first `n` particles,
/// taken in index order, have been compared with it. A particle whose
/// personal best is strictly cheaper than the best so far replaces it, so
/// later particles compare against earlier improvements of the same pass.
pub open spec fn best_after(
    ps: Seq<Particle>,
    fp: Seq<int>,
    fb: Seq<int>,
    g: Vector,
    gf: int,
    n: nat,
) -> (Vector, int)
    decreases n,
{
    if n == 0 {
        (g, gf)
    } else {
        let prev = best_after(ps, fp, fb, g, gf, (n - 1) as nat);
        let i = n - 1;
        let f = kept_cost(fp[i], fb[i]);
        if f < prev.1 {
            (improved(ps[i], fp[i], fb[i]).personal_best, f)
        } else {
            prev
        }
    }
}

/// The costs as mathematical integers.
pub open spec fn wide(s: Seq<i128>) -> Seq<int> {
    Seq::new(s.len(), |i: int| s[i] as int)
}

/// Costs of the particles' positions.
pub open spec fn position_costs<O: Objective>(obj: O, ps: Seq<Particle>) -> Seq<int> {
    Seq::new(ps.len(), |i: int| obj.value(ps[i].position))
}

/// Costs of the particles' personal bests.
pub open spec fn best_costs<O: Objective>(obj: O, ps: Seq<Particle>) -> Seq<int> {
    Seq::new(ps.len(), |i: int| obj.value(ps[i].personal_best))
}

/// The draws of `d` in the order they are taken: four per particle.
pub open spec fn flat4(d: Seq<(i64, i64, i64, i64)>) -> Seq<i64>
    decreases d.len(),
{
    if d.len() == 0 {
        Seq::empty()
    } else {
        let x = d.last();
        flat4(d.drop_last()) + seq![x.0, x.1, x.2, x.3]
    }
}

/// The draws of `d` in the order they are taken: `q` then `r` per particle.
pub open spec fn flat2(d: Seq<(i64, i64)>) -> Seq<i64>
    decreases d.len(),
{
    if d.len() == 0 {
        Seq::empty()
    } else {
        let x = d.last();
        flat2(d.drop_last()) + seq![x.0, x.1]
    }
}

/// The particles created from the draws `d`.
pub open spec fn spawned_all(cfg: Config, d: Seq<(i64, i64, i64, i64)>) -> Seq<Particle> {
    Seq::new(d.len(), |i: int| spawned(cfg, d[i]))
}

/// The particles `ps` moved one step with the draws `d`.
pub open spec fn advanced_all(
    ps: Seq<Particle>,
    g: Vector,
    cfg: Config,
    w: int,
    d: Seq<(i64, i64)>,
) -> Seq<Particle> {
    Seq::new(ps.len(), |i: int| ps[i].advanced(g, cfg, w, d[i].0 as int, d[i].1 as int))
}

/// The particles `ps` after a best-tracking pass with the costs of `obj`.
pub open spec fn improved_all<O: Objective>(obj: O, ps: Seq<Particle>) -> Seq<Particle> {
    Seq::new(
        ps.len(),
        |i: int| improved(ps[i], obj.value(ps[i].position), obj.value(ps[i].personal_best)),
    )
}

/// The swarm best and its cost after a best-tracking pass with the costs of
/// `obj`, from the swarm best `g`.
pub open spec fn best_pass<O: Objective>(obj: O, ps: Seq<Particle>, g: Vector) -> (Vector, int) {
    best_after(ps, position_costs(obj, ps), best_costs(obj, ps), g, obj.value(g), ps.len())
}

/// `after` is `before` with every particle moved one step with the draws `d`.
pub open spec fn advanced_by(
    before: Seq<Particle>,
    after: Seq<Particle>,
    g: Vector,
    cfg: Config,
    w: int,
    d: Seq<(i64, i64)>,
) -> bool {
    &&& d.len() == before.len()
    &&& after.len() == before.len()
    &&& forall|i: int| 0 <= i < d.len() ==> unit_draw(#[trigger] d[i].0 as int) && unit_draw(d[i].1 as int)
    &&& forall|i: int|
        0 <= i < before.len() ==> #[trigger] after[i] == before[i].advanced(
            g,
            cfg,
            w,
            d[i].0 as int,
            d[i].1 as int,
        )
}

/// `ps` are the particles created from the draws `d`.
pub open spec fn spawned_by(cfg: Config, ps: Seq<Particle>, d: Seq<(i64, i64, i64, i64)>) -> bool {
    &&& d.len() == ps.len()
    &&& forall|i: int| 0 <= i < d.len() ==> draws_ok(#[trigger] d[i])
    &&& forall|i: int| 0 <= i < ps.len() ==> #[trigger] ps[i] == spawned(cfg, d[i])
}

/// The cost of the best position never increases in a best-tracking pass,
/// and the reported cost is that of the reported position, when the costs
/// handed in are those of the objective.
pub proof fn lemma_best_after_cost<O: Objective>(obj: O, ps: Seq<Particle>, g: Vector, n: nat)
    requires
        n <= ps.len(),
    ensures
        best_after(ps, position_costs(obj, ps), best_costs(obj, ps), g, obj.value(g), n).1 <= obj.value(
            g,
        ),
        best_after(ps, position_costs(obj, ps), best_costs(obj, ps), g, obj.value(g), n).1 == obj.value(
            best_after(ps, position_costs(obj, ps), best_costs(obj, ps), g, obj.value(g), n).0,
        ),
    decreases n,
{
    if n > 0 {
        lemma_best_after_cost(obj, ps, g, (n - 1) as nat);
    }
}

/// The particles created are fixed by the configuration and the draws:
/// two initialisations that took the same draws agree bit for bit.
pub proof fn lemma_spawn_determined(
    cfg: Config,
    d: Seq<(i64, i64, i64, i64)>,
    a: Seq<Particle>,
    b: Seq<Particle>,
)
    requires
        spawned_by(cfg, a, d),
        spawned_by(cfg, b, d),
    ensures
        a == spawned_all(cfg, d),
        a == b,
{
    assert(a =~= spawned_all(cfg, d));
    assert(b =~= spawned_all(cfg, d));
}

/// A step is fixed by the particles, the swarm best, the configuration, the
/// inertia weight and the draws: two steps that took the same draws from the
/// same state agree bit for bit.
pub proof fn lemma_step_determined(
    before: Seq<Particle>,
    g: Vector,
    cfg: Config,
    w: int,
    d: Seq<(i64, i64)>,
    a: Seq<Particle>,
    b: Seq<Particle>,
)
    requires
        advanced_by(before, a, g, cfg, w, d),
        advanced_by(before, b, g, cfg, w, d),
    ensures
        a == advanced_all(before, g, cfg, w, d),
        a == b,
{
    assert(a =~= advanced_all(before, g, cfg, w, d));
    assert(b =~= advanced_all(before, g, cfg, w, d));
}

impl Swarm {
    /// Every stored coordinate lies in the stored range.
    pub open spec fn wf(&self) -> bool {
        &&& self.global_best.bounded()
        &&& forall|i: int| 0 <= i < self.particles@.len() ==> (#[trigger] self.particles@[i]).bounded()
    }

    /// Creates the swarm from one set of four draws per particle, its best
    /// position at the configured seed.
    pub fn spawn_with(cfg: &Config, draws: &Vec<(i64, i64, i64, i64)>) -> (s: Swarm)
        requires
            cfg.valid(),
            forall|i: int| 0 <= i < draws@.len() ==> draws_ok(#[trigger] draws@[i]),
        ensures
            s.wf(),
            s.global_best == cfg.seed_best,
            s.particles@.len() == draws@.len(),
            forall|i: int|
                0 <= i < draws@.len() ==> #[trigger] s.particles@[i] == spawned(*cfg, draws@[i]),
            forall|i: int|
                0 <= i < draws@.len() ==> (#[trigger] s.particles@[i]).starts_within(*cfg),
    {
        let mut particles: Vec<Particle> = Vec::new();
        let mut i: usize = 0;
        while i < draws.len()
            invariant
                cfg.valid(),
                forall|j: int| 0 <= j < draws@.len() ==> draws_ok(#[trigger] draws@[j]),
                i <= draws@.len(),
                particles@.len() == i,
                forall|j: int| 0 <= j < i ==> #[trigger] particles@[j] == spawned(*cfg, draws@[j]),
                forall|j: int|
                    0 <= j < i ==> (#[trigger] particles@[j]).starts_within(*cfg)
                        && particles@[j].bounded(),
            decreases draws@.len() - i,
        {
            let p = Particle::spawn(cfg, draws[i]);
            particles.push(p);
            i += 1;
        }
        Swarm { particles, global_best: cfg.seed_best }
    }

    /// Creates `n_particles` particles from fresh draws of `rng`.
    pub fn initialize<R: RandomSource>(cfg: &Config, rng: &mut R) -> (s: Swarm)
        requires
            cfg.valid(),
        ensures
            s.wf(),
            s.global_best == cfg.seed_best,
            s.particles@.len() == cfg.n_particles,
            exists|d: Seq<(i64, i64, i64, i64)>|
                #[trigger] spawned_by(*cfg, s.particles@, d) && final(rng).drawn() == old(
                    rng,
                ).drawn() + flat4(d),
            forall|i: int|
                0 <= i < s.particles@.len() ==> (#[trigger] s.particles@[i]).starts_within(*cfg),
    {
        let ghost h0 = rng.drawn();
        let mut draws: Vec<(i64, i64, i64, i64)> = Vec::new();
        let mut i: usize = 0;
        while i < cfg.n_particles
            invariant
                i <= cfg.n_particles,
                draws@.len() == i,
                forall|j: int| 0 <= j < i ==> draws_ok(#[trigger] draws@[j]),
                rng.drawn() == h0 + flat4(draws@),
            decreases cfg.n_particles - i,
        {
            let ghost before = draws@;
            let a = rng.next_unit();
            let b = rng.next_unit();
            let c = rng.next_unit();
            let d = rng.next_unit();
            draws.push((a, b, c, d));
            proof {
                assert(draws@.drop_last() =~= before);
                assert(rng.drawn() =~= h0 + flat4(draws@));
            }
            i += 1;
        }
        let s = Swarm::spawn_with(cfg, &draws);
        assert(spawned_by(*cfg, s.particles@, draws@));
        s
    }

    /// One best-tracking pass, given the cost of every particle's position
    /// (`f_particles`) and personal best (`f_best_particles`) and the cost of
    /// the swarm's best (`f_global`). Returns the cost of the new swarm best.
    pub fn update_best_positions(
        &mut self,
        f_particles: &Vec<i128>,
        f_best_particles: &Vec<i128>,
        f_global: i128,
    ) -> (r: i128)
        requires
            f_particles@.len() >= old(self).particles@.len(),
            f_best_particles@.len() >= old(self).particles@.len(),
        ensures
            final(self).particles@.len() == old(self).particles@.len(),
            forall|i: int|
                0 <= i < old(self).particles@.len() ==> #[trigger] final(self).particles@[i]
                    == improved(old(self).particles@[i], f_particles@[i] as int, f_best_particles@[i] as int),
            (final(self).global_best, r as int) == best_after(
                old(self).particles@,
                wide(f_particles@),
                wide(f_best_particles@),
                old(self).global_best,
                f_global as int,
                old(self).particles@.len(),
            ),
    {
        let ghost ps = self.particles@;
        let ghost fp = wide(f_particles@);
        let ghost fb = wide(f_best_particles@);
        let n = self.particles.len();
        let mut next: Vec<Particle> = Vec::new();
        let mut best = self.global_best;
        let mut best_f = f_global;
        let mut i: usize = 0;
        while i < n
            invariant
                n == ps.len(),
                self.particles@ == ps,
                f_particles@.len() >= n,
                f_best_particles@.len() >= n,
                fp == wide(f_particles@),
                fb == wide(f_best_particles@),
                i <= n,
                next@.len() == i,
                forall|j: int|
                    0 <= j < i ==> #[trigger] next@[j] == improved(
                        ps[j],
                        f_particles@[j] as int,
                        f_best_particles@[j] as int,
                    ),
                (best, best_f as int) == best_after(ps, fp, fb, self.global_best, f_global as int, i as nat),
            decreases n - i,
        {
            let p = self.particles[i];
            let fp_i = f_particles[i];
            let fb_i = f_best_particles[i];
            let (q, f) = if fp_i < fb_i {
                (Particle { position: p.position, velocity: p.velocity, personal_best: p.position }, fp_i)
            } else {
                (p, fb_i)
            };
            if f < best_f {
                best = q.personal_best;
                best_f = f;
            }
            next.push(q);
            i += 1;
        }
        self.particles = next;
        self.global_best = best;
        best_f
    }

    /// Evaluates every particle with `obj` and runs one best-tracking pass.
    /// Returns the cost of the new swarm best, which is never above the old
    /// one; no particle's personal best gets more expensive.
    pub fn track_bests<O: Objective>(&mut self, obj: &O) -> (r: i128)
        requires
            old(self).wf(),
        ensures
            final(self).wf(),
            final(self).particles@.len() == old(self).particles@.len(),
            forall|i: int|
                0 <= i < old(self).particles@.len() ==> #[trigger] final(self).particles@[i]
                    == improved(
                    old(self).particles@[i],
                    obj.value(old(self).particles@[i].position),
                    obj.value(old(self).particles@[i].personal_best),
                ),
            (final(self).global_best, r as int) == best_after(
                old(self).particles@,
                position_costs(*obj, old(self).particles@),
                best_costs(*obj, old(self).particles@),
                old(self).global_best,
                obj.value(old(self).global_best),
                old(self).particles@.len(),
            ),
            r == obj.value(final(self).global_best),
            r <= obj.value(old(self).global_best),
            forall|i: int|
                0 <= i < old(self).particles@.len() ==> obj.value(
                    (#[trigger] final(self).particles@[i]).personal_best,
                ) <= obj.value(old(self).particles@[i].personal_best),
    {
        let ghost ps = self.particles@;
        let n = self.particles.len();
        let mut fp: Vec<i128> = Vec::new();
        let mut fb: Vec<i128> = Vec::new();
        let mut i: usize = 0;
        while i < n
            invariant
                n == ps.len(),
                self.particles@ == ps,
                self.wf(),
                i <= n,
                fp@.len() == i,
                fb@.len() == i,
                forall|j: int| 0 <= j < i ==> #[trigger] fp@[j] == obj.value(ps[j].position),
                forall|j: int| 0 <= j < i ==> #[trigger] fb@[j] == obj.value(ps[j].personal_best),
            decreases n - i,
        {
            let p = self.particles[i];
            fp.push(obj.evaluate(p.position));
            fb.push(obj.evaluate(p.personal_best));
            i += 1;
        }
        let g = self.global_best;
        let fg = obj.evaluate(g);
        proof {
            assert(wide(fp@) =~= position_costs(*obj, ps));
            assert(wide(fb@) =~= best_costs(*obj, ps));
            lemma_best_after_cost(*obj, ps, g, n as nat);
            lemma_best_after_bounded(ps, position_costs(*obj, ps), best_costs(*obj, ps), g, fg as int, n as nat);
        }
        let r = self.update_best_positions(&fp, &fb, fg);
        proof {
            assert forall|j: int| 0 <= j < self.particles@.len() implies (#[trigger] self.particles@[j]).bounded() by {
                assert(ps[j].bounded());
            }
        }
        r
    }

    /// Moves every particle one step towards the swarm best, with inertia
    /// `w` and one pair of draws per particle.
    pub fn advance_with(&mut self, cfg: &Config, w: i64, draws: &Vec<(i64, i64)>)
        requires
            old(self).wf(),
            cfg.valid(),
            in_range(w as int),
            draws@.len() == old(self).particles@.len(),
            forall|i: int|
                0 <= i < draws@.len() ==> unit_draw(#[trigger] draws@[i].0 as int) && unit_draw(
                    draws@[i].1 as int,
                ),
        ensures
            final(self).wf(),
            final(self).global_best == old(self).global_best,
            advanced_by(
                old(self).particles@,
                final(self).particles@,
                old(self).global_best,
                *cfg,
                w as int,
                draws@,
            ),
            forall|i: int|
                0 <= i < final(self).particles@.len() ==> abs(
                    (#[trigger] final(self).particles@[i]).velocity.x as int,
                ) <= cfg.v_max && abs(final(self).particles@[i].velocity.y as int) <= cfg.v_max,
    {
        let ghost ps = self.particles@;
        let g = self.global_best;
        let n = self.particles.len();
        let mut next: Vec<Particle> = Vec::new();
        let mut i: usize = 0;
        while i < n
            invariant
                n == ps.len(),
                self.particles@ == ps,
                self.global_best == g,
                self.wf(),
                cfg.valid(),
                in_range(w as int),
                draws@.len() == n,
                forall|j: int|
                    0 <= j < draws@.len() ==> unit_draw(#[trigger] draws@[j].0 as int) && unit_draw(
                        draws@[j].1 as int,
                    ),
                i <= n,
                next@.len() == i,
                forall|j: int|
                    0 <= j < i ==> #[trigger] next@[j] == ps[j].advanced(
                        g,
                        *cfg,
                        w as int,
                        draws@[j].0 as int,
                        draws@[j].1 as int,
                    ),
                forall|j: int|
                    0 <= j < i ==> (#[trigger] next@[j]).bounded() && abs(next@[j].velocity.x as int)
                        <= cfg.v_max && abs(next@[j].velocity.y as int) <= cfg.v_max,
            decreases n - i,
        {
            let p = self.particles[i];
            let (q, r) = draws[i];
            let moved = p.advance(g, cfg, w, q, r);
            next.push(moved);
            i += 1;
        }
        self.particles = next;
    }

    /// Moves every particle one step with fresh draws of `rng`, then returns
    /// the decayed inertia weight for the next step.
    pub fn update_position_and_velocity<R: RandomSource>(
        &mut self,
        cfg: &Config,
        w: i64,
        rng: &mut R,
    ) -> (w_next: i64)
        requires
            old(self).wf(),
            cfg.valid(),
            in_range(w as int),
        ensures
            final(self).wf(),
            final(self).global_best == old(self).global_best,
            exists|d: Seq<(i64, i64)>|
                #[trigger] advanced_by(
                    old(self).particles@,
                    final(self).particles@,
                    old(self).global_best,
                    *cfg,
                    w as int,
                    d,
                ) && final(rng).drawn() == old(rng).drawn() + flat2(d),
            forall|i: int|
                0 <= i < final(self).particles@.len() ==> abs(
                    (#[trigger] final(self).particles@[i]).velocity.x as int,
                ) <= cfg.v_max && abs(final(self).particles@[i].velocity.y as int) <= cfg.v_max,
            w_next == decayed(w as int, cfg.beta as int, cfg.inertia_floor as int),
            in_range(w_next as int),
    {
        let ghost h0 = rng.drawn();
        let n = self.particles.len();
        let mut draws: Vec<(i64, i64)> = Vec::new();
        let mut i: usize = 0;
        while i < n
            invariant
                i <= n,
                draws@.len() == i,
                rng.drawn() == h0 + flat2(draws@),
                forall|j: int|
                    0 <= j < i ==> unit_draw(#[trigger] draws@[j].0 as int) && unit_draw(
                        draws@[j].1 as int,
                    ),
            decreases n - i,
        {
            let ghost before = draws@;
            let q = rng.next_unit();
            let r = rng.next_unit();
            draws.push((q, r));
            proof {
                assert(draws@.drop_last() =~= before);
                assert(rng.drawn() =~= h0 + flat2(draws@));
            }
            i += 1;
        }
        let ghost before = self.particles@;
        let ghost g = self.global_best;
        self.advance_with(cfg, w, &draws);
        assert(advanced_by(before, self.particles@, g, *cfg, w as int, draws@));
        decay_inertia(w, cfg.beta, cfg.inertia_floor)
    }
}

/// A pass in which no cost is below the swarm best's keeps the swarm best.
pub proof fn lemma_best_after_kept(
    ps: Seq<Particle>,
    fp: Seq<int>,
    fb: Seq<int>,
    g: Vector,
    gf: int,
    n: nat,
)
    requires
        n <= ps.len(),
        forall|i: int| 0 <= i < n ==> #[trigger] fp[i] >= gf && fb[i] >= gf,
    ensures
        best_after(ps, fp, fb, g, gf, n) == (g, gf),
    decreases n,
{
    if n > 0 {
        lemma_best_after_kept(ps, fp, fb, g, gf, (n - 1) as nat);
        assert(fp[n - 1] >= gf);
    }
}

/// The position that a best-tracking pass reports is the old best or one of
/// the particles' personal bests after the pass.
proof fn lemma_best_after_bounded(
    ps: Seq<Particle>,
    fp: Seq<int>,
    fb: Seq<int>,
    g: Vector,
    gf: int,
    n: nat,
)
    requires
        n <= ps.len(),
        g.bounded(),
        forall|i: int| 0 <= i < ps.len() ==> (#[trigger] ps[i]).bounded(),
    ensures
        best_after(ps, fp, fb, g, gf, n).0.bounded(),
    decreases n,
{
    if n > 0 {
        lemma_best_after_bounded(ps, fp, fb, g, gf, (n - 1) as nat);
        assert(ps[n - 1].bounded());
    }
}

} // verus!
