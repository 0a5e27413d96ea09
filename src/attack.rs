use vstd::prelude::*;
use crate::geometry::{dist_sq, distance_squared, Point};
use crate::world::{Projectile, Tower, World, WorldView, COORD_LIMIT, PROJECTILE_SPEED};

verus! {

/// Whether `e` lies strictly within the reach of tower `t`.
pub open spec fn in_range(t: Tower, e: Point) -> bool {
    dist_sq(t.position, e) < t.attack_range * t.attack_range
}

/// The first enemy of `es`, in table order, within the reach of `t`.
pub open spec fn first_in_range(t: Tower, es: Seq<Point>) -> Option<Point>
    decreases es.len(),
{
    if es.len() == 0 {
        None
    } else {
        match first_in_range(t, es.drop_last()) {
            Some(p) => Some(p),
            None => if in_range(t, es.last()) {
                Some(es.last())
            } else {
                None
            },
        }
    }
}

/// The projectile that tower `t` fires in a pass over the enemies `es`: one,
/// aimed at the first enemy in reach, if the tower is ready and any enemy is in
/// reach; none otherwise.
pub open spec fn shot(t: Tower, es: Seq<Point>) -> Option<Projectile> {
    if t.can_attack {
        match first_in_range(t, es) {
            Some(p) => Some(
                Projectile { position: t.position, target_translation: p, speed: PROJECTILE_SPEED },
            ),
            None => None,
        }
    } else {
        None
    }
}

/// The tower after a pass over the enemies `es`: a tower that fired starts
/// its full cooldown.
pub open spec fn after_attack(t: Tower, es: Seq<Point>) -> Tower {
    if shot(t, es) is Some {
        Tower { can_attack: false, cooldown_timer: t.cooldown, ..t }
    } else {
        t
    }
}

/// Everything the towers `ts` fire in one pass, in tower order.
pub open spec fn shots(ts: Seq<Tower>, es: Seq<Point>) -> Seq<Projectile> {
    ts.filter_map(|t: Tower| shot(t, es))
}

/// The world after one attack pass.
pub open spec fn attacked(w: WorldView) -> WorldView {
    WorldView {
        towers: w.towers.map_values(|t: Tower| after_attack(t, w.enemies)),
        enemies: w.enemies,
        projectiles: w.projectiles + shots(w.towers, w.enemies),
    }
}

pub open spec fn enemies_wf(es: Seq<Point>) -> bool {
    forall|i: int| 0 <= i < es.len() ==> (#[trigger] es[i]).within(COORD_LIMIT as int)
}

proof fn lemma_range_square_fits(r: u64)
    ensures
        r * r <= u128::MAX,
{
    assert(r * r <= u64::MAX * u64::MAX) by (nonlinear_arith)
        requires
            r <= u64::MAX,
    ;
}

/// Whether enemy `e` lies strictly within the reach of tower `t`.
pub fn enemy_in_range(t: &Tower, e: &Point) -> (r: bool)
    requires
        t.wf(),
        e.within(COORD_LIMIT as int),
    ensures
        r == in_range(*t, *e),
{
    proof {
        lemma_range_square_fits(t.attack_range);
    }
    let range: u128 = t.attack_range as u128;
    distance_squared(t.position, *e) < range * range
}

/// The first enemy, in table order, within the reach of `t`.
pub fn target_for(t: &Tower, enemies: &Vec<Point>) -> (r: Option<Point>)
    requires
        t.wf(),
        enemies_wf(enemies@),
    ensures
        r == first_in_range(*t, enemies@),
{
    let mut found: Option<Point> = None;
    let mut j: usize = 0;
    while j < enemies.len()
        invariant
            0 <= j <= enemies@.len(),
            t.wf(),
            enemies_wf(enemies@),
            found == first_in_range(*t, enemies@.subrange(0, j as int)),
        decreases enemies@.len() - j,
    {
        proof {
            assert(enemies@.subrange(0, j + 1).drop_last() =~= enemies@.subrange(0, j as int));
            assert(enemies@[j as int].within(COORD_LIMIT as int));
        }
        if found.is_none() && enemy_in_range(t, &enemies[j]) {
            found = Some(enemies[j]);
        }
        j += 1;
    }
    proof {
        assert(enemies@.subrange(0, enemies@.len() as int) =~= enemies@);
    }
    found
}

/// The projectile tower `t` fires in a pass over `enemies`, if any.
pub fn fire(t: &Tower, enemies: &Vec<Point>) -> (r: Option<Projectile>)
    requires
        t.wf(),
        enemies_wf(enemies@),
    ensures
        r == shot(*t, enemies@),
        r matches Some(p) ==> p.wf(),
{
    if !t.can_attack {
        return None;
    }
    match target_for(t, enemies) {
        Some(p) => {
            proof {
                crate::laws::lemma_first_in_range(*t, enemies@);
            }
            Some(Projectile { position: t.position, target_translation: p, speed: PROJECTILE_SPEED })
        },
        None => None,
    }
}

impl World {
    /// One attack pass. Each tower decides from its own state and the enemy
    /// table alone, which no tower changes, so every decision sees the state
    /// as it stood when the pass began. A ready tower with an enemy in reach
    /// fires one projectile from its own position, aimed at where the first
    /// such enemy stands, and starts its full cooldown.
    pub fn resolve_attacks(&mut self)
        requires
            old(self)@.wf(),
        ensures
            final(self)@.wf(),
            final(self)@.towers == attacked(old(self)@).towers,
            final(self)@.enemies == old(self)@.enemies,
            final(self)@.projectiles == attacked(old(self)@).projectiles,
    {
        let n = self.towers.len();
        let ghost towers0 = self.towers@;
        let mut i: usize = 0;
        assert(self@.projectiles == old(self)@.projectiles);
        assert(shots(towers0.subrange(0, 0), self.enemies@) =~= seq![]);
        assert(self.projectiles@ + seq![] =~= self.projectiles@);
        while i < n
            invariant
                n == self.towers@.len(),
                towers0 == old(self).towers@,
                n == towers0.len(),
                0 <= i <= n,
                self.enemies == old(self).enemies,
                old(self)@.wf(),
                forall|k: int| 0 <= k < i ==> self.towers@[k] == after_attack(towers0[k], self.enemies@),
                forall|k: int| i <= k < n ==> self.towers@[k] == towers0[k],
                self.projectiles@ == old(self).projectiles@ + shots(towers0.subrange(0, i as int), self.enemies@),
                forall|k: int| 0 <= k < self.projectiles@.len() ==> (#[trigger] self.projectiles@[k]).wf(),
            decreases n - i,
        {
            let t = self.towers[i];
            assert(old(self)@.towers[i as int].wf());
            assert(enemies_wf(self.enemies@)) by {
                assert forall|j: int| 0 <= j < self.enemies@.len() implies (#[trigger] self.enemies@[j]).within(COORD_LIMIT as int) by {
                    assert(old(self)@.enemies[j].within(COORD_LIMIT as int));
                }
            }
            proof {
                assert(towers0.subrange(0, i + 1).drop_last() =~= towers0.subrange(0, i as int));
                assert(towers0.subrange(0, i + 1).last() == towers0[i as int]);
            }
            match fire(&t, &self.enemies) {
                Some(p) => {
                    self.projectiles.push(p);
                    assert(self.projectiles@ =~= old(self).projectiles@ + (shots(
                        towers0.subrange(0, i as int),
                        self.enemies@,
                    ) + seq![p]));
                    self.towers.set(i, Tower { can_attack: false, cooldown_timer: t.cooldown, ..t });
                },
                None => {},
            }
            i += 1;
        }
        proof {
            assert(towers0.subrange(0, n as int) =~= towers0);
        }
        assert(self@.towers =~= attacked(old(self)@).towers);
        assert(self@.enemies == old(self)@.enemies);
        assert forall|k: int| 0 <= k < self@.towers.len() implies (#[trigger] self@.towers[k]).wf() by {
            assert(old(self)@.towers[k].wf());
        }
    }
}

} // verus!
