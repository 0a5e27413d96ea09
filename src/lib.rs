//! A small tower-defense simulation core: towers fire projectiles at enemies
//! in range, projectiles fly toward the point they were aimed at and vanish on
//! arrival, and a cooldown gates how often a tower fires.
//!
//! Distances are measured in micro-units (a millionth of a world unit) and time
//! in microseconds, so that a speed in units per second times an elapsed time in
//! microseconds is a distance in micro-units, exactly.
mod geometry;
mod world;
mod motion;
mod cooldown;
mod attack;
mod tick;
mod laws;

pub use geometry::{distance_squared, dist_sq, Point, MICROS_PER_UNIT, POSITION_LIMIT};
pub use world::{Projectile, Tower, World, WorldView, COORD_LIMIT, MAX_ELAPSED, MAX_SPEED, OFFSET_LIMIT, PROJECTILE_SPEED};
pub use motion::{ARRIVAL_RADIUS_SQ, advanced, advanced_n, arrived, axis_step, projectile_arrived, step_len, survivors};
pub use cooldown::{cool_tower, cooled, cooled_n};
pub use attack::{after_attack, attacked, enemies_wf, enemy_in_range, fire, first_in_range, in_range, shot, shots, target_for};
pub use tick::fixed_step;
pub use laws::{firing_towers, lemma_one_projectile_per_firing_tower, lemma_cooldown_round_trip, lemma_cooling, lemma_first_in_range, lemma_one_shot_when_ready_and_in_range, lemma_zero_elapsed_changes_nothing, abs, lemma_advanced_n, lemma_arrives_within, lemma_axes_approach_target, offset_after};
