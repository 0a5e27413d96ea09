use vstd::prelude::*;
use crate::world::{Tower, World};

verus! {

/// The tower after a tick of `dt` microseconds of cooldown. A cooling tower's
/// timer runs down by `dt`; only when it would drop below zero does the tower
/// become ready, with its timer reset to zero. A timer that lands exactly on
/// zero leaves the tower cooling until the next tick.
pub open spec fn cooled(t: Tower, dt: u64) -> Tower {
    if t.can_attack {
        t
    } else if t.cooldown_timer < dt {
        Tower { can_attack: true, cooldown_timer: 0, ..t }
    } else {
        Tower { cooldown_timer: (t.cooldown_timer - dt) as u64, ..t }
    }
}

/// The tower after `n` ticks of `dt` microseconds of cooldown.
pub open spec fn cooled_n(t: Tower, dt: u64, n: nat) -> Tower
    decreases n,
{
    if n == 0 {
        t
    } else {
        cooled(cooled_n(t, dt, (n - 1) as nat), dt)
    }
}

/// Runs one tick of `dt` microseconds of cooldown on a tower.
pub fn cool_tower(t: Tower, dt: u64) -> (r: Tower)
    ensures
        r == cooled(t, dt),
{
    if t.can_attack {
        t
    } else if t.cooldown_timer < dt {
        Tower { can_attack: true, cooldown_timer: 0, ..t }
    } else {
        Tower { cooldown_timer: t.cooldown_timer - dt, ..t }
    }
}

impl World {
    /// Runs a tick of `dt` microseconds of cooldown on every tower.
    pub fn cool_down_towers(&mut self, dt: u64)
        requires
            old(self)@.wf(),
        ensures
            final(self)@.wf(),
            final(self)@.towers == old(self)@.towers.map_values(|t: Tower| cooled(t, dt)),
            final(self)@.enemies == old(self)@.enemies,
            final(self)@.projectiles == old(self)@.projectiles,
    {
        let n = self.towers.len();
        let mut i: usize = 0;
        while i < n
            invariant
                n == self.towers@.len(),
                n == old(self).towers@.len(),
                0 <= i <= n,
                self.enemies == old(self).enemies,
                self.projectiles == old(self).projectiles,
                old(self)@.wf(),
                forall|k: int| 0 <= k < i ==> self.towers@[k] == cooled(old(self).towers@[k], dt),
                forall|k: int| i <= k < n ==> self.towers@[k] == old(self).towers@[k],
            decreases n - i,
        {
            let t = cool_tower(self.towers[i], dt);
            self.towers.set(i, t);
            i += 1;
        }
        assert(self@.towers =~= old(self)@.towers.map_values(|t: Tower| cooled(t, dt)));
        assert(self@.enemies == old(self)@.enemies);
        assert(self@.projectiles == old(self)@.projectiles);
        assert forall|k: int| 0 <= k < self@.towers.len() implies (#[trigger] self@.towers[k]).wf() by {
            assert(old(self)@.towers[k].wf());
        }
    }
}

} // verus!
