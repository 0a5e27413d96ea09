use vstd::prelude::*;
use crate::cooldown::cooled;
use crate::motion::survivors;
use crate::world::{Tower, World, WorldView, MAX_ELAPSED};

verus! {

/// The world after one fixed tick of `dt` microseconds: projectiles move and
/// those that arrived are removed, and cooling towers run their timers down.
pub open spec fn fixed_step(w: WorldView, dt: u64) -> WorldView {
    WorldView {
        towers: w.towers.map_values(|t: Tower| cooled(t, dt)),
        enemies: w.enemies,
        projectiles: survivors(w.projectiles, dt),
    }
}

impl World {
    /// One fixed tick of `dt` microseconds of simulated time.
    pub fn fixed_update(&mut self, dt: u64)
        requires
            old(self)@.wf(),
            dt <= MAX_ELAPSED,
        ensures
            final(self)@.wf(),
            final(self)@.towers == fixed_step(old(self)@, dt).towers,
            final(self)@.enemies == fixed_step(old(self)@, dt).enemies,
            final(self)@.projectiles == fixed_step(old(self)@, dt).projectiles,
    {
        self.advance_projectiles(dt);
        self.cool_down_towers(dt);
    }
}

} // verus!
