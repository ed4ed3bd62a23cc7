//! One member of the swarm: how it is created and how it moves.
use vstd::prelude::*;
use crate::config::Config;
use crate::fixed::{
    abs, div_fx, div_toward_zero, fx_div, fx_mul, in_range, lemma_fraction_of, lemma_fx_div_bound,
    lemma_fx_mul_bound, mul_fx, quot_toward_zero, saturate, saturate_wide, ONE,
};
use crate::vector::Vector;

verus! {

/// A candidate solution with its velocity and the best point it has visited.
#[derive(Clone, Copy, Debug, PartialEq, Eq, Structural)]
pub struct Particle {
    pub position: Vector,
    pub velocity: Vector,
    pub personal_best: Vector,
}

/// A uniform draw from `[0, 1)`, as a fixed-point number.
pub open spec fn unit_draw(r: int) -> bool {
    0 <= r < ONE
}

/// Width of the search domain.
pub open spec fn span(cfg: Config) -> int {
    cfg.x_max - cfg.x_min
}

/// Initial coordinate for the draw `r`: `x_min + r * (x_max - x_min)`.
pub open spec fn start_coord(cfg: Config, r: int) -> int {
    cfg.x_min + fx_mul(r, span(cfg))
}

/// Initial speed for the draw `r`:
/// `alpha / delta_t * (-(x_max - x_min) / 2 + r * (x_max - x_min))`, computed as
/// `alpha * (2 * r * (x_max - x_min) - (x_max - x_min)) / (2 * delta_t)` with a
/// single division rounded towards zero, so that it never leaves the
/// symmetric range.
pub open spec fn start_speed(cfg: Config, r: int) -> int {
    saturate(
        quot_toward_zero(
            cfg.alpha * (2 * fx_mul(r, span(cfg)) - span(cfg)),
            2 * cfg.delta_t,
        ),
    )
}

/// `|v| <= |alpha / delta_t| * (x_max - x_min) / 2`, without rounding.
pub open spec fn within_start_range(cfg: Config, v: int) -> bool {
    2 * abs(v) * cfg.delta_t <= abs(cfg.alpha as int) * span(cfg)
}

/// The particle created from the draws `d` (two for the position, two for
/// the velocity).
pub open spec fn spawned(cfg: Config, d: (i64, i64, i64, i64)) -> Particle {
    let position = Vector {
        x: start_coord(cfg, d.0 as int) as i64,
        y: start_coord(cfg, d.1 as int) as i64,
    };
    Particle {
        position,
        velocity: Vector {
            x: start_speed(cfg, d.2 as int) as i64,
            y: start_speed(cfg, d.3 as int) as i64,
        },
        personal_best: position,
    }
}

pub open spec fn draws_ok(d: (i64, i64, i64, i64)) -> bool {
    unit_draw(d.0 as int) && unit_draw(d.1 as int) && unit_draw(d.2 as int) && unit_draw(
        d.3 as int,
    )
}

/// Velocity before the clamp:
/// `w * v + c1 * q * (pb - x) / delta_t + c2 * r * (g - x) / delta_t`.
pub open spec fn raw_speed(
    cfg: Config,
    w: int,
    v: int,
    pb: int,
    x: int,
    g: int,
    q: int,
    r: int,
) -> int {
    fx_mul(w, v) + fx_div(fx_mul(fx_mul(cfg.c1 as int, q), pb - x), cfg.delta_t as int) + fx_div(
        fx_mul(fx_mul(cfg.c2 as int, r), g - x),
        cfg.delta_t as int,
    )
}

/// A speed whose magnitude is not below `v_max` becomes `+v_max`, whatever
/// its sign: this clamp deliberately does not keep the direction.
pub open spec fn clamp_speed(v: int, v_max: int) -> int {
    if abs(v) < v_max {
        v
    } else {
        v_max
    }
}

pub open spec fn next_speed(
    cfg: Config,
    w: int,
    v: int,
    pb: int,
    x: int,
    g: int,
    q: int,
    r: int,
) -> int {
    clamp_speed(raw_speed(cfg, w, v, pb, x, g, q, r), cfg.v_max as int)
}

/// `x + v * delta_t`, saturated to the stored range.
pub open spec fn moved(x: int, v: int, dt: int) -> int {
    saturate(x + fx_mul(v, dt))
}

impl Particle {
    pub open spec fn bounded(self) -> bool {
        self.position.bounded() && self.velocity.bounded() && self.personal_best.bounded()
    }

    /// The particle after one velocity and position update towards `g`, with
    /// inertia `w` and the draws `q` and `r`, shared by both coordinates.
    pub open spec fn advanced(self, g: Vector, cfg: Config, w: int, q: int, r: int) -> Particle {
        let vx = next_speed(
            cfg,
            w,
            self.velocity.x as int,
            self.personal_best.x as int,
            self.position.x as int,
            g.x as int,
            q,
            r,
        );
        let vy = next_speed(
            cfg,
            w,
            self.velocity.y as int,
            self.personal_best.y as int,
            self.position.y as int,
            g.y as int,
            q,
            r,
        );
        Particle {
            position: Vector {
                x: moved(self.position.x as int, vx, cfg.delta_t as int) as i64,
                y: moved(self.position.y as int, vy, cfg.delta_t as int) as i64,
            },
            velocity: Vector { x: vx as i64, y: vy as i64 },
            personal_best: self.personal_best,
        }
    }

    /// What holds of a particle when it is created: its position lies in the
    /// domain, its speed within the initial range, and its personal best is
    /// its position.
    pub open spec fn starts_within(self, cfg: Config) -> bool {
        &&& cfg.x_min <= self.position.x <= cfg.x_max
        &&& cfg.x_min <= self.position.y <= cfg.x_max
        &&& within_start_range(cfg, self.velocity.x as int)
        &&& within_start_range(cfg, self.velocity.y as int)
        &&& self.personal_best == self.position
    }

    /// Creates a particle from four uniform draws.
    pub fn spawn(cfg: &Config, d: (i64, i64, i64, i64)) -> (p: Particle)
        requires
            cfg.valid(),
            draws_ok(d),
        ensures
            p == spawned(*cfg, d),
            p.bounded(),
            p.starts_within(*cfg),
    {
        proof {
            lemma_spawned_within(*cfg, d);
        }
        let x = start_coord_exec(cfg, d.0);
        let y = start_coord_exec(cfg, d.1);
        let position = Vector { x, y };
        let vx = start_speed_exec(cfg, d.2);
        let vy = start_speed_exec(cfg, d.3);
        Particle { position, velocity: Vector { x: vx, y: vy }, personal_best: position }
    }

    /// Moves the particle one step.
    pub fn advance(&self, g: Vector, cfg: &Config, w: i64, q: i64, r: i64) -> (n: Particle)
        requires
            cfg.valid(),
            self.bounded(),
            g.bounded(),
            in_range(w as int),
            unit_draw(q as int),
            unit_draw(r as int),
        ensures
            n == self.advanced(g, *cfg, w as int, q as int, r as int),
            n.bounded(),
            abs(n.velocity.x as int) <= cfg.v_max,
            abs(n.velocity.y as int) <= cfg.v_max,
    {
        let vx = speed_along(
            cfg,
            w,
            self.velocity.x,
            self.personal_best.x,
            self.position.x,
            g.x,
            q,
            r,
        );
        let vy = speed_along(
            cfg,
            w,
            self.velocity.y,
            self.personal_best.y,
            self.position.y,
            g.y,
            q,
            r,
        );
        let x = move_along(self.position.x, vx, cfg.delta_t);
        let y = move_along(self.position.y, vy, cfg.delta_t);
        Particle {
            position: Vector { x, y },
            velocity: Vector { x: vx, y: vy },
            personal_best: self.personal_best,
        }
    }
}

/// Every particle created from valid draws satisfies `starts_within`.
pub proof fn lemma_spawned_within(cfg: Config, d: (i64, i64, i64, i64))
    requires
        cfg.valid(),
        draws_ok(d),
    ensures
        spawned(cfg, d).starts_within(cfg),
        spawned(cfg, d).bounded(),
{
    lemma_start_coord(cfg, d.0 as int);
    lemma_start_coord(cfg, d.1 as int);
    lemma_start_speed(cfg, d.2 as int);
    lemma_start_speed(cfg, d.3 as int);
}

proof fn lemma_start_coord(cfg: Config, r: int)
    requires
        cfg.valid(),
        unit_draw(r),
    ensures
        cfg.x_min <= start_coord(cfg, r) <= cfg.x_max,
        0 <= r * span(cfg) <= ONE * span(cfg),
{
    lemma_fraction_of(r, span(cfg));
    assert(r * span(cfg) >= 0) by (nonlinear_arith)
        requires
            r >= 0,
            span(cfg) >= 0,
    ;
}

proof fn lemma_start_speed(cfg: Config, r: int)
    requires
        cfg.valid(),
        unit_draw(r),
    ensures
        within_start_range(cfg, start_speed(cfg, r)),
        in_range(start_speed(cfg, r)),
        abs(2 * fx_mul(r, span(cfg)) - span(cfg)) <= span(cfg),
        span(cfg) <= 2_000_000_000_000,
{
    let s = span(cfg);
    let t = 2 * fx_mul(r, s) - s;
    let a = cfg.alpha * t;
    let d = 2 * cfg.delta_t;
    lemma_fraction_of(r, s);
    assert(abs(t) <= s);
    crate::fixed::lemma_mul_bound(cfg.alpha as int, t, abs(cfg.alpha as int), s);
    crate::fixed::lemma_quot_toward_zero(a, d);
    let q = quot_toward_zero(a, d);
    let v = saturate(q);
    assert(abs(v) <= abs(q));
    assert(2 * abs(v) * cfg.delta_t <= d * abs(q)) by (nonlinear_arith)
        requires
            0 <= abs(v) <= abs(q),
            d == 2 * cfg.delta_t,
            cfg.delta_t > 0,
    ;
}

/// Exec form of `start_coord`.
fn start_coord_exec(cfg: &Config, r: i64) -> (c: i64)
    requires
        cfg.valid(),
        unit_draw(r as int),
    ensures
        c == start_coord(*cfg, r as int),
{
    proof {
        lemma_start_coord(*cfg, r as int);
    }
    let s = cfg.x_max as i128 - cfg.x_min as i128;
    (cfg.x_min as i128 + mul_fx(r as i128, s)) as i64
}

/// Exec form of `start_speed`.
fn start_speed_exec(cfg: &Config, r: i64) -> (v: i64)
    requires
        cfg.valid(),
        unit_draw(r as int),
    ensures
        v == start_speed(*cfg, r as int),
{
    proof {
        lemma_start_coord(*cfg, r as int);
        lemma_start_speed(*cfg, r as int);
    }
    let s = cfg.x_max as i128 - cfg.x_min as i128;
    let t = 2 * mul_fx(r as i128, s) - s;
    proof {
        crate::fixed::lemma_mul_bound(
            cfg.alpha as int,
            t as int,
            1_000_000_000_000,
            2_000_000_000_000,
        );
    }
    saturate_wide(div_toward_zero(cfg.alpha as i128 * t, 2 * cfg.delta_t as i128))
}

/// Exec form of `next_speed`.
fn speed_along(cfg: &Config, w: i64, v: i64, pb: i64, x: i64, g: i64, q: i64, r: i64) -> (s: i64)
    requires
        cfg.valid(),
        in_range(w as int),
        in_range(v as int),
        in_range(pb as int),
        in_range(x as int),
        in_range(g as int),
        unit_draw(q as int),
        unit_draw(r as int),
    ensures
        s == next_speed(*cfg, w as int, v as int, pb as int, x as int, g as int, q as int, r as int),
        abs(s as int) <= cfg.v_max,
{
    let ghost m: int = 1_000_000_000_000;
    proof {
        lemma_fx_mul_bound(w as int, v as int, m, m);
    }
    let inertial = mul_fx(w as i128, v as i128);
    let own = pull(cfg.c1, q, pb, x, cfg.delta_t);
    let social = pull(cfg.c2, r, g, x, cfg.delta_t);
    let raw = inertial + own + social;
    if -(cfg.v_max as i128) < raw && raw < cfg.v_max as i128 {
        raw as i64
    } else {
        cfg.v_max
    }
}

/// `c * q * (target - x) / dt`, the pull towards one attractor.
fn pull(c: i64, q: i64, target: i64, x: i64, dt: i64) -> (p: i128)
    requires
        in_range(c as int),
        unit_draw(q as int),
        in_range(target as int),
        in_range(x as int),
        1 <= dt,
    ensures
        p == fx_div(fx_mul(fx_mul(c as int, q as int), target - x), dt as int),
        abs(p as int) <= 5_000_000_000_000_000_000_000_001,
{
    let ghost m: int = 1_000_000_000_000;
    proof {
        lemma_fx_mul_bound(c as int, q as int, m, ONE as int);
    }
    let cq = mul_fx(c as i128, q as i128);
    let d = target as i128 - x as i128;
    proof {
        lemma_fx_mul_bound(cq as int, d as int, 2 * m, 2 * m);
    }
    let a = mul_fx(cq, d);
    proof {
        lemma_fx_div_bound(a as int, dt as int, 5_000_000_000_000_000_000);
    }
    div_fx(a, dt as i128)
}

/// Exec form of `moved`.
fn move_along(x: i64, v: i64, dt: i64) -> (n: i64)
    requires
        in_range(x as int),
        in_range(v as int),
        in_range(dt as int),
    ensures
        n == moved(x as int, v as int, dt as int),
{
    let ghost m: int = 1_000_000_000_000;
    proof {
        lemma_fx_mul_bound(v as int, dt as int, m, m);
    }
    saturate_wide(x as i128 + mul_fx(v as i128, dt as i128))
}

} // verus!
