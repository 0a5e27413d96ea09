use vstd::prelude::*;
use crate::geometry::Point;
use crate::motion::{advanced, advanced_n, arrived, axis_step, lemma_advanced_wf, step_len, ARRIVAL_RADIUS_SQ};
use crate::world::{Projectile, Tower, WorldView, MAX_ELAPSED, PROJECTILE_SPEED};
use crate::attack::{after_attack, first_in_range, in_range, shot, shots};
use crate::cooldown::{cooled, cooled_n};
use crate::motion::survivors;
use crate::tick::fixed_step;

verus! {

pub open spec fn abs(v: int) -> int {
    if v < 0 {
        -v
    } else {
        v
    }
}

/// An offset from the aim point along one axis after `n` steps of length `s`.
pub open spec fn offset_after(o: int, s: int, n: nat) -> int
    decreases n,
{
    if n == 0 {
        o
    } else {
        axis_step(offset_after(o, s, (n - 1) as nat), 0, s)
    }
}

proof fn lemma_offset_after(o: int, s: int, n: nat)
    requires
        s >= 0,
    ensures
        n * s <= abs(o) ==> abs(offset_after(o, s, n)) == abs(o) - n * s,
        n * s >= abs(o) ==> abs(offset_after(o, s, n)) <= s,
    decreases n,
{
    if n > 0 {
        let m = (n - 1) as nat;
        lemma_offset_after(o, s, m);
        assert(n * s == m * s + s) by (nonlinear_arith)
            requires
                n == m + 1,
        ;
        assert(m * s >= 0) by (nonlinear_arith)
            requires
                s >= 0,
        ;
        let prev = offset_after(o, s, m);
        assert(offset_after(o, s, n) == axis_step(prev, 0, s));
        if m * s >= abs(o) {
            assert(abs(prev) <= s);
        } else {
            assert(abs(prev) == abs(o) - m * s);
        }
    }
}

/// Flight of a well-formed projectile keeps it well formed, and along each
/// axis its offset from the aim point follows `offset_after`.
pub proof fn lemma_advanced_n(pr: Projectile, dt: u64, n: nat)
    requires
        pr.wf(),
        dt <= MAX_ELAPSED,
    ensures
        advanced_n(pr, dt, n).wf(),
        advanced_n(pr, dt, n).target_translation == pr.target_translation,
        advanced_n(pr, dt, n).speed == pr.speed,
        advanced_n(pr, dt, n).position.x - pr.target_translation.x == offset_after(
            pr.position.x - pr.target_translation.x,
            step_len(pr, dt),
            n,
        ),
        advanced_n(pr, dt, n).position.y - pr.target_translation.y == offset_after(
            pr.position.y - pr.target_translation.y,
            step_len(pr, dt),
            n,
        ),
    decreases n,
{
    if n > 0 {
        let m = (n - 1) as nat;
        lemma_advanced_n(pr, dt, m);
        lemma_advanced_wf(advanced_n(pr, dt, m), dt);
    }
}

/// Along each axis, a projectile in flight closes on its aim point by exactly
/// one step of `speed * dt` per tick for as long as it is farther than that,
/// and from then on stays within one step of it: it may pass the point, but
/// never by more than a step.
pub proof fn lemma_axes_approach_target(pr: Projectile, dt: u64, n: nat)
    requires
        pr.wf(),
        dt <= MAX_ELAPSED,
    ensures
        ({
            let q = advanced_n(pr, dt, n);
            let s = step_len(pr, dt);
            let ox = pr.position.x - pr.target_translation.x;
            let oy = pr.position.y - pr.target_translation.y;
            &&& n * s <= abs(ox) ==> abs(q.position.x - q.target_translation.x) == abs(ox) - n * s
            &&& n * s >= abs(ox) ==> abs(q.position.x - q.target_translation.x) <= s
            &&& n * s <= abs(oy) ==> abs(q.position.y - q.target_translation.y) == abs(oy) - n * s
            &&& n * s >= abs(oy) ==> abs(q.position.y - q.target_translation.y) <= s
        }),
{
    lemma_advanced_n(pr, dt, n);
    crate::motion::lemma_step_len_bound(pr, dt);
    lemma_offset_after(pr.position.x - pr.target_translation.x, step_len(pr, dt), n);
    lemma_offset_after(pr.position.y - pr.target_translation.y, step_len(pr, dt), n);
}

/// A projectile whose step covers less than a unit even diagonally arrives,
/// and so is removed, by the tick `n` at which `n` steps cover its starting
/// offset on both axes: within `ceil(max(|dx|, |dy|) / (speed * dt))` ticks.
pub proof fn lemma_arrives_within(pr: Projectile, dt: u64, n: nat)
    requires
        pr.wf(),
        dt <= MAX_ELAPSED,
        2 * step_len(pr, dt) * step_len(pr, dt) < ARRIVAL_RADIUS_SQ,
        n * step_len(pr, dt) >= abs(pr.position.x - pr.target_translation.x),
        n * step_len(pr, dt) >= abs(pr.position.y - pr.target_translation.y),
    ensures
        arrived(advanced_n(pr, dt, n)),
{
    lemma_axes_approach_target(pr, dt, n);
    let q = advanced_n(pr, dt, n);
    let s = step_len(pr, dt);
    let dx = q.position.x - q.target_translation.x;
    let dy = q.position.y - q.target_translation.y;
    assert(dx * dx + dy * dy <= 2 * s * s) by (nonlinear_arith)
        requires
            -s <= dx <= s,
            -s <= dy <= s,
    ;
}

/// `first_in_range` picks the earliest enemy in reach, and finds none only
/// when no enemy is in reach.
pub proof fn lemma_first_in_range(t: Tower, es: Seq<Point>)
    ensures
        match first_in_range(t, es) {
            None => forall|j: int| 0 <= j < es.len() ==> !in_range(t, #[trigger] es[j]),
            Some(p) => exists|j: int|
                0 <= j < es.len() && es[j] == p && in_range(t, es[j]) && forall|k: int|
                    0 <= k < j ==> !in_range(t, #[trigger] es[k]),
        },
    decreases es.len(),
{
    if es.len() > 0 {
        let init = es.drop_last();
        lemma_first_in_range(t, init);
        assert forall|j: int| 0 <= j < init.len() implies init[j] == es[j] by {}
        match first_in_range(t, init) {
            Some(p) => {
                let j = choose|j: int|
                    0 <= j < init.len() && init[j] == p && in_range(t, init[j]) && forall|k: int|
                        0 <= k < j ==> !in_range(t, #[trigger] init[k]);
                assert(es[j] == p);
                assert forall|k: int| 0 <= k < j implies !in_range(t, #[trigger] es[k]) by {
                    assert(init[k] == es[k]);
                }
            },
            None => {
                assert(es.last() == es[es.len() - 1]);
                assert forall|k: int| 0 <= k < es.len() - 1 implies !in_range(t, #[trigger] es[k]) by {
                    assert(init[k] == es[k]);
                }
            },
        }
    }
}

/// In an attack pass a tower fires exactly one projectile when it is ready and
/// some enemy is in reach, and none otherwise. The projectile leaves from the
/// tower, at the fixed projectile speed, aimed at where the first enemy in
/// reach stands, and the tower starts its full cooldown.
pub proof fn lemma_one_shot_when_ready_and_in_range(t: Tower, es: Seq<Point>)
    ensures
        shot(t, es) is Some <==> (t.can_attack && exists|j: int|
            0 <= j < es.len() && in_range(t, #[trigger] es[j])),
        shot(t, es) matches Some(p) ==> {
            &&& p.position == t.position
            &&& p.speed == PROJECTILE_SPEED
            &&& exists|j: int|
                0 <= j < es.len() && es[j] == p.target_translation && in_range(t, es[j])
                    && forall|k: int| 0 <= k < j ==> !in_range(t, #[trigger] es[k])
            &&& !after_attack(t, es).can_attack
            &&& after_attack(t, es).cooldown_timer == t.cooldown
        },
        shot(t, es) is None ==> after_attack(t, es) == t,
{
    lemma_first_in_range(t, es);
}

/// The towers of `ts` that fire in a pass over `es`, in tower order.
pub open spec fn firing_towers(ts: Seq<Tower>, es: Seq<Point>) -> Seq<Tower> {
    ts.filter(|t: Tower| shot(t, es) is Some)
}

/// An attack pass adds exactly one projectile for each tower that fires, and
/// the `k`-th projectile added comes from the `k`-th such tower.
pub proof fn lemma_one_projectile_per_firing_tower(ts: Seq<Tower>, es: Seq<Point>)
    ensures
        shots(ts, es).len() == firing_towers(ts, es).len(),
        forall|k: int|
            0 <= k < shots(ts, es).len() ==> shot(#[trigger] firing_towers(ts, es)[k], es) == Some(
                shots(ts, es)[k],
            ),
    decreases ts.len(),
{
    reveal(Seq::filter);
    if ts.len() > 0 {
        lemma_one_projectile_per_firing_tower(ts.drop_last(), es);
        let f = firing_towers(ts, es);
        let f0 = firing_towers(ts.drop_last(), es);
        let s0 = shots(ts.drop_last(), es);
        assert(shots(ts, es) == match shot(ts.last(), es) {
            Some(p) => s0 + seq![p],
            None => s0,
        });
        if let Some(p) = shot(ts.last(), es) {
            assert(f == f0.push(ts.last()));
            assert forall|k: int| 0 <= k < shots(ts, es).len() implies shot(#[trigger] f[k], es)
                == Some(shots(ts, es)[k]) by {
                if k < s0.len() {
                    assert(f[k] == f0[k]);
                }
            }
        } else {
            assert(f == f0);
        }
    }
}

/// Without flight, a projectile stays where it is.
proof fn lemma_survivors_zero(ps: Seq<Projectile>)
    requires
        forall|i: int| 0 <= i < ps.len() ==> (#[trigger] ps[i]).wf() && !arrived(ps[i]),
    ensures
        survivors(ps, 0) == ps,
    decreases ps.len(),
{
    if ps.len() > 0 {
        lemma_survivors_zero(ps.drop_last());
        let q = ps.last();
        assert(q == ps[ps.len() - 1]);
        assert(step_len(q, 0) == 0);
        assert(advanced(q, 0) == q);
        assert(ps.drop_last().push(q) =~= ps);
    }
}

/// A fixed tick of zero elapsed time changes nothing, provided no projectile
/// already lies within arrival distance of its aim point (such a projectile
/// is removed by any tick).
pub proof fn lemma_zero_elapsed_changes_nothing(w: WorldView)
    requires
        w.wf(),
        forall|i: int| 0 <= i < w.projectiles.len() ==> !arrived(#[trigger] w.projectiles[i]),
    ensures
        fixed_step(w, 0) == w,
{
    assert forall|i: int| 0 <= i < w.projectiles.len() implies (#[trigger] w.projectiles[i]).wf()
        && !arrived(w.projectiles[i]) by {}
    lemma_survivors_zero(w.projectiles);
    assert(w.towers.map_values(|t: Tower| cooled(t, 0)) =~= w.towers);
}

/// A cooling tower whose timer reads `c` is ready after `n` ticks of `dt`
/// exactly when `n * dt > c`; until then its timer reads `c - n * dt`.
pub proof fn lemma_cooling(t: Tower, dt: u64, n: nat)
    requires
        !t.can_attack,
    ensures
        cooled_n(t, dt, n).can_attack <==> n * dt > t.cooldown_timer,
        n * dt > t.cooldown_timer ==> cooled_n(t, dt, n).cooldown_timer == 0,
        n * dt <= t.cooldown_timer ==> cooled_n(t, dt, n).cooldown_timer == t.cooldown_timer - n
            * dt,
        cooled_n(t, dt, n).position == t.position,
        cooled_n(t, dt, n).attack_range == t.attack_range,
        cooled_n(t, dt, n).cooldown == t.cooldown,
    decreases n,
{
    if n > 0 {
        let m = (n - 1) as nat;
        lemma_cooling(t, dt, m);
        assert(n * dt == m * dt + dt) by (nonlinear_arith)
            requires
                n == m + 1,
        ;
    }
}

/// A ready tower that fires starts cooling, fires nothing while it cools, and
/// is ready again after exactly `cooldown / dt + 1` ticks of `dt` (integer
/// division): `ceil(cooldown / dt)` ticks, or one more when `dt` divides the
/// cooldown and the timer lands on zero.
pub proof fn lemma_cooldown_round_trip(t: Tower, es: Seq<Point>, dt: u64, n: nat)
    requires
        t.can_attack,
        shot(t, es) is Some,
        dt > 0,
    ensures
        !after_attack(t, es).can_attack,
        cooled_n(after_attack(t, es), dt, n).can_attack <==> n >= t.cooldown / dt + 1,
        !cooled_n(after_attack(t, es), dt, n).can_attack ==> shot(
            cooled_n(after_attack(t, es), dt, n),
            es,
        ) is None,
{
    let f = after_attack(t, es);
    lemma_cooling(f, dt, n);
    let c = t.cooldown as int;
    let d = dt as int;
    let q = c / d;
    assert(c == d * q + c % d && 0 <= c % d < d) by {
        vstd::arithmetic::div_mod::lemma_fundamental_div_mod(c, d);
    }
    assert(n * d > c <==> n >= q + 1) by (nonlinear_arith)
        requires
            c == d * q + c % d,
            0 <= c % d < d,
            d > 0,
            n >= 0,
    ;
}

} // verus!
