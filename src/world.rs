use vstd::prelude::*;
use crate::geometry::{Point, MICROS_PER_UNIT};

verus! {

/// Largest magnitude of a tower, enemy or aim-point coordinate, in micro-units.
pub const COORD_LIMIT: i64 = 1_000_000_000_000_000;

/// Largest distance, on either axis, between a projectile and its aim point.
pub const OFFSET_LIMIT: i64 = 4_000_000_000_000_000;

/// Largest projectile speed, in units per second.
pub const MAX_SPEED: u64 = 1_000_000;

/// Largest elapsed time that one fixed tick may cover, in microseconds.
pub const MAX_ELAPSED: u64 = 3_600_000_000;

/// Speed of every projectile a tower fires, in units per second.
pub const PROJECTILE_SPEED: u64 = 100;

/// A stationary defender.
#[derive(Clone, Copy, Debug, PartialEq, Eq, Structural)]
pub struct Tower {
    pub position: Point,
    /// Reach of the tower, in micro-units.
    pub attack_range: u64,
    /// Whether the tower is ready to fire.
    pub can_attack: bool,
    /// Full cooldown after a shot, in microseconds.
    pub cooldown: u64,
    /// Cooldown still to run, in microseconds.
    pub cooldown_timer: u64,
}

/// A shot in flight toward a fixed point.
#[derive(Clone, Copy, Debug, PartialEq, Eq, Structural)]
pub struct Projectile {
    pub position: Point,
    /// Where the enemy stood when the shot was fired.
    pub target_translation: Point,
    /// Units per second.
    pub speed: u64,
}

/// The whole simulation state: one table per kind of entity, each entity
/// identified by its index in its table.
#[derive(Clone, Debug)]
pub struct World {
    pub towers: Vec<Tower>,
    pub enemies: Vec<Point>,
    pub projectiles: Vec<Projectile>,
}

/// The mathematical state of a [`World`].
pub struct WorldView {
    pub towers: Seq<Tower>,
    pub enemies: Seq<Point>,
    pub projectiles: Seq<Projectile>,
}

impl View for World {
    type V = WorldView;

    open spec fn view(&self) -> WorldView {
        WorldView { towers: self.towers@, enemies: self.enemies@, projectiles: self.projectiles@ }
    }
}

impl Tower {
    pub open spec fn wf(self) -> bool {
        &&& self.position.within(COORD_LIMIT as int)
        &&& self.can_attack ==> self.cooldown_timer == 0
    }
}

impl Projectile {
    pub open spec fn wf(self) -> bool {
        &&& self.target_translation.within(COORD_LIMIT as int)
        &&& -OFFSET_LIMIT <= self.position.x - self.target_translation.x <= OFFSET_LIMIT
        &&& -OFFSET_LIMIT <= self.position.y - self.target_translation.y <= OFFSET_LIMIT
        &&& 0 < self.speed <= MAX_SPEED
    }
}

impl WorldView {
    pub open spec fn wf(self) -> bool {
        &&& forall|i: int| 0 <= i < self.towers.len() ==> (#[trigger] self.towers[i]).wf()
        &&& forall|i: int|
            0 <= i < self.enemies.len() ==> (#[trigger] self.enemies[i]).within(
                COORD_LIMIT as int,
            )
        &&& forall|i: int| 0 <= i < self.projectiles.len() ==> (#[trigger] self.projectiles[i]).wf()
    }
}

impl World {
    /// The opening scene: one ready tower at the origin with a reach of 300
    /// units and a one-second cooldown, and one enemy 90 units to its left.
    pub fn startup() -> (w: World)
        ensures
            w@.wf(),
            w@.towers =~= seq![
                Tower {
                    position: Point { x: 0, y: 0 },
                    attack_range: 300_000_000,
                    can_attack: true,
                    cooldown: 1_000_000,
                    cooldown_timer: 0,
                },
            ],
            w@.enemies =~= seq![Point { x: -90_000_000i64, y: 0 }],
            w@.projectiles.len() == 0,
    {
        let tower = Tower {
            position: Point::from_units(0, 0),
            attack_range: 300 * MICROS_PER_UNIT as u64,
            can_attack: true,
            cooldown: 1_000_000,
            cooldown_timer: 0,
        };
        let enemy = Point::from_units(-90, 0);
        World { towers: vec![tower], enemies: vec![enemy], projectiles: Vec::new() }
    }
}

} // verus!
