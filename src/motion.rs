use vstd::prelude::*;
use crate::geometry::{dist_sq, distance_squared, Point};
use crate::world::{Projectile, World, MAX_ELAPSED, MAX_SPEED, OFFSET_LIMIT};

verus! {

/// One axis of one tick: a coordinate `p` moves by `s` toward `t`, and stays
/// put when it already equals `t`. Nothing stops it from passing `t`.
pub open spec fn axis_step(p: int, t: int, s: int) -> int {
    if p > t {
        p - s
    } else if p < t {
        p + s
    } else {
        p
    }
}

/// How far a projectile moves along each axis in a tick of `dt` microseconds,
/// in micro-units.
pub open spec fn step_len(pr: Projectile, dt: u64) -> int {
    pr.speed * dt
}

/// The projectile after one tick of `dt` microseconds of flight.
pub open spec fn advanced(pr: Projectile, dt: u64) -> Projectile {
    Projectile {
        position: Point {
            x: axis_step(
                pr.position.x as int,
                pr.target_translation.x as int,
                step_len(pr, dt),
            ) as i64,
            y: axis_step(
                pr.position.y as int,
                pr.target_translation.y as int,
                step_len(pr, dt),
            ) as i64,
        },
        ..pr
    }
}

/// The projectile after `n` ticks of flight, ignoring removal.
pub open spec fn advanced_n(pr: Projectile, dt: u64, n: nat) -> Projectile
    decreases n,
{
    if n == 0 {
        pr
    } else {
        advanced(advanced_n(pr, dt, (n - 1) as nat), dt)
    }
}

/// Square of the arrival radius, one unit, in micro-units.
pub const ARRIVAL_RADIUS_SQ: u128 = 1_000_000_000_000;

/// A projectile closer than one unit to its aim point has arrived.
pub open spec fn arrived(pr: Projectile) -> bool {
    dist_sq(pr.position, pr.target_translation) < ARRIVAL_RADIUS_SQ
}

/// The projectiles still in flight after every one of `ps` has moved for a
/// tick of `dt` and those that arrived were removed; order is kept.
pub open spec fn survivors(ps: Seq<Projectile>, dt: u64) -> Seq<Projectile>
    decreases ps.len(),
{
    if ps.len() == 0 {
        seq![]
    } else {
        let rest = survivors(ps.drop_last(), dt);
        let q = advanced(ps.last(), dt);
        if arrived(q) {
            rest
        } else {
            rest.push(q)
        }
    }
}

pub proof fn lemma_step_len_bound(pr: Projectile, dt: u64)
    requires
        pr.speed <= MAX_SPEED,
        dt <= MAX_ELAPSED,
    ensures
        0 <= step_len(pr, dt) <= MAX_SPEED * MAX_ELAPSED,
{
    assert(0 <= pr.speed * dt <= MAX_SPEED * MAX_ELAPSED) by (nonlinear_arith)
        requires
            pr.speed <= MAX_SPEED,
            dt <= MAX_ELAPSED,
    ;
}

/// A tick of flight keeps a projectile well formed.
pub proof fn lemma_advanced_wf(pr: Projectile, dt: u64)
    requires
        pr.wf(),
        dt <= MAX_ELAPSED,
    ensures
        advanced(pr, dt).wf(),
        advanced(pr, dt).position.x == axis_step(
            pr.position.x as int,
            pr.target_translation.x as int,
            step_len(pr, dt),
        ),
        advanced(pr, dt).position.y == axis_step(
            pr.position.y as int,
            pr.target_translation.y as int,
            step_len(pr, dt),
        ),
{
    lemma_step_len_bound(pr, dt);
}

/// Moves one projectile for a tick of `dt` microseconds.
fn advance_projectile(pr: Projectile, dt: u64) -> (r: Projectile)
    requires
        pr.wf(),
        dt <= MAX_ELAPSED,
    ensures
        r == advanced(pr, dt),
        r.wf(),
{
    proof {
        lemma_step_len_bound(pr, dt);
        lemma_advanced_wf(pr, dt);
    }
    let s: i64 = (pr.speed * dt) as i64;
    let mut x: i64 = pr.position.x;
    let mut y: i64 = pr.position.y;
    if x > pr.target_translation.x {
        x = x - s;
    } else if x < pr.target_translation.x {
        x = x + s;
    }
    if y > pr.target_translation.y {
        y = y - s;
    } else if y < pr.target_translation.y {
        y = y + s;
    }
    Projectile { position: Point { x, y }, ..pr }
}

/// Whether a well-formed projectile has come within one unit of its aim point.
pub fn projectile_arrived(pr: &Projectile) -> (r: bool)
    requires
        pr.wf(),
    ensures
        r == arrived(*pr),
{
    distance_squared(pr.position, pr.target_translation) < ARRIVAL_RADIUS_SQ
}

impl World {
    /// Moves every projectile for a tick of `dt` microseconds, each axis by
    /// `speed * dt` toward its aim point, then removes those that arrived.
    pub fn advance_projectiles(&mut self, dt: u64)
        requires
            old(self)@.wf(),
            dt <= MAX_ELAPSED,
        ensures
            final(self)@.wf(),
            final(self)@.projectiles == survivors(old(self)@.projectiles, dt),
            final(self)@.towers == old(self)@.towers,
            final(self)@.enemies == old(self)@.enemies,
    {
        let mut kept: Vec<Projectile> = Vec::new();
        let mut i: usize = 0;
        while i < self.projectiles.len()
            invariant
                *self == *old(self),
                old(self)@.wf(),
                dt <= MAX_ELAPSED,
                0 <= i <= self.projectiles@.len(),
                kept@ == survivors(self.projectiles@.subrange(0, i as int), dt),
                forall|k: int| 0 <= k < kept@.len() ==> (#[trigger] kept@[k]).wf(),
            decreases self.projectiles@.len() - i,
        {
            assert(old(self)@.projectiles[i as int].wf());
            let q = advance_projectile(self.projectiles[i], dt);
            if !projectile_arrived(&q) {
                kept.push(q);
            }
            proof {
                assert(self.projectiles@.subrange(0, i + 1).drop_last() =~= self.projectiles@.subrange(
                    0,
                    i as int,
                ));
            }
            i += 1;
        }
        proof {
            assert(self.projectiles@.subrange(0, self.projectiles@.len() as int)
                =~= self.projectiles@);
        }
        let ghost kept_view = kept@;
        self.projectiles = kept;
        assert(self@.towers == old(self)@.towers);
        assert(self@.enemies == old(self)@.enemies);
        assert(self@.projectiles == kept_view);
    }
}

} // verus!
