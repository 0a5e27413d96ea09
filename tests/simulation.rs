use tower_defense::{
    distance_squared, enemy_in_range, fire, projectile_arrived, target_for, Point, Projectile,
    Tower, World, PROJECTILE_SPEED,
};

const TICK: u64 = 16_667;

fn tower_at(x: i64, y: i64, range_units: u64) -> Tower {
    Tower {
        position: Point { x, y },
        attack_range: range_units * 1_000_000,
        can_attack: true,
        cooldown: 1_000_000,
        cooldown_timer: 0,
    }
}

fn world_with(towers: Vec<Tower>, enemies: Vec<Point>, projectiles: Vec<Projectile>) -> World {
    World { towers, enemies, projectiles }
}

#[test]
fn startup_builds_the_opening_scene() {
    let w = World::startup();
    assert_eq!(w.towers, vec![tower_at(0, 0, 300)]);
    assert_eq!(w.enemies, vec![Point { x: -90_000_000, y: 0 }]);
    assert!(w.projectiles.is_empty());
}

#[test]
fn first_pass_spawns_one_projectile() {
    let mut w = World::startup();
    w.resolve_attacks();
    assert_eq!(
        w.projectiles,
        vec![Projectile {
            position: Point { x: 0, y: 0 },
            target_translation: Point { x: -90_000_000, y: 0 },
            speed: 100,
        }]
    );
    assert!(!w.towers[0].can_attack);
    assert_eq!(w.towers[0].cooldown_timer, 1_000_000);
}

#[test]
fn one_tick_moves_projectile_by_one_step() {
    let mut w = World::startup();
    w.resolve_attacks();
    w.fixed_update(TICK);
    // 100 units/s for 16 667 us: about -1.667 units.
    assert_eq!(w.projectiles[0].position, Point { x: -1_666_700, y: 0 });
}

#[test]
fn projectile_removed_once_within_a_unit() {
    let mut w = World::startup();
    w.resolve_attacks();
    for _ in 0..53 {
        w.fixed_update(TICK);
    }
    assert_eq!(w.projectiles.len(), 1);
    let x = w.projectiles[0].position.x;
    assert_eq!(x, -88_335_100);
    assert!(x > -89_000_000);
    w.fixed_update(TICK);
    // The next position, -90.0018 units, lies in (-91, -89].
    let next = x - 1_666_700;
    assert!(next > -91_000_000 && next <= -89_000_000);
    assert!(w.projectiles.is_empty());
}

#[test]
fn tower_ready_again_after_sixty_ticks() {
    let mut w = World::startup();
    w.resolve_attacks();
    for _ in 0..59 {
        w.fixed_update(TICK);
        w.resolve_attacks();
        assert!(!w.towers[0].can_attack);
    }
    w.fixed_update(TICK);
    assert!(w.towers[0].can_attack);
    assert_eq!(w.towers[0].cooldown_timer, 0);
}

#[test]
fn cooling_tower_never_fires() {
    let mut w = World::startup();
    w.resolve_attacks();
    w.resolve_attacks();
    w.resolve_attacks();
    assert_eq!(w.projectiles.len(), 1);
}

#[test]
fn timer_landing_on_zero_rearms_one_tick_late() {
    let mut w = World::startup();
    w.resolve_attacks();
    w.fixed_update(500_000);
    assert_eq!(w.towers[0].cooldown_timer, 500_000);
    w.fixed_update(500_000);
    assert_eq!(w.towers[0].cooldown_timer, 0);
    assert!(!w.towers[0].can_attack);
    w.fixed_update(500_000);
    assert!(w.towers[0].can_attack);
    assert_eq!(w.towers[0].cooldown_timer, 0);
}

#[test]
fn zero_elapsed_tick_changes_nothing() {
    let mut w = World::startup();
    w.resolve_attacks();
    let before = w.clone();
    w.fixed_update(0);
    assert_eq!(w.towers, before.towers);
    assert_eq!(w.enemies, before.enemies);
    assert_eq!(w.projectiles, before.projectiles);
}

#[test]
fn two_enemies_in_range_give_one_shot_at_the_first() {
    let mut w = world_with(
        vec![tower_at(0, 0, 300)],
        vec![Point { x: 0, y: 500_000_000 }, Point { x: 50_000_000, y: 0 }, Point { x: -20_000_000, y: 0 }],
        vec![],
    );
    w.resolve_attacks();
    assert_eq!(w.projectiles.len(), 1);
    assert_eq!(w.projectiles[0].target_translation, Point { x: 50_000_000, y: 0 });
}

#[test]
fn enemy_at_exact_range_is_out_of_reach() {
    let t = tower_at(0, 0, 300);
    assert!(!enemy_in_range(&t, &Point { x: 300_000_000, y: 0 }));
    assert!(enemy_in_range(&t, &Point { x: 299_999_999, y: 0 }));
    let mut w = world_with(vec![t], vec![Point { x: 0, y: -300_000_000 }], vec![]);
    w.resolve_attacks();
    assert!(w.projectiles.is_empty());
    assert!(w.towers[0].can_attack);
}

#[test]
fn each_ready_tower_fires_once() {
    let mut cooling = tower_at(1_000_000, 0, 300);
    cooling.can_attack = false;
    cooling.cooldown_timer = 400_000;
    let mut w = world_with(
        vec![tower_at(0, 0, 300), cooling, tower_at(0, 10_000_000, 300)],
        vec![Point { x: 5_000_000, y: 5_000_000 }],
        vec![],
    );
    w.resolve_attacks();
    assert_eq!(w.projectiles.len(), 2);
    assert_eq!(w.projectiles[0].position, Point { x: 0, y: 0 });
    assert_eq!(w.projectiles[1].position, Point { x: 0, y: 10_000_000 });
    assert_eq!(w.towers[1].cooldown_timer, 400_000);
    assert!(!w.towers[0].can_attack && !w.towers[2].can_attack);
}

#[test]
fn target_for_picks_first_in_table_order() {
    let t = tower_at(0, 0, 10);
    let es = vec![Point { x: 20_000_000, y: 0 }, Point { x: 0, y: 3_000_000 }, Point { x: 1, y: 1 }];
    assert_eq!(target_for(&t, &es), Some(Point { x: 0, y: 3_000_000 }));
    assert_eq!(target_for(&t, &vec![]), None);
}

#[test]
fn fire_builds_projectile_from_tower() {
    let t = tower_at(7, -3, 10);
    let es = vec![Point { x: 2_000_000, y: 0 }];
    let p = fire(&t, &es).unwrap();
    assert_eq!(p.position, Point { x: 7, y: -3 });
    assert_eq!(p.target_translation, Point { x: 2_000_000, y: 0 });
    assert_eq!(p.speed, PROJECTILE_SPEED);
}

#[test]
fn diagonal_motion_moves_both_axes() {
    let p = Projectile {
        position: Point { x: 0, y: 0 },
        target_translation: Point { x: 10_000_000, y: -10_000_000 },
        speed: 100,
    };
    let mut w = world_with(vec![], vec![], vec![p]);
    w.fixed_update(10_000);
    assert_eq!(w.projectiles[0].position, Point { x: 1_000_000, y: -1_000_000 });
}

#[test]
fn axis_at_target_stays_and_overshoot_is_one_step_at_most() {
    let p = Projectile {
        position: Point { x: 5_500_000, y: 0 },
        target_translation: Point { x: 0, y: 0 },
        speed: 300,
    };
    let mut w = world_with(vec![], vec![], vec![p]);
    w.fixed_update(10_000);
    assert_eq!(w.projectiles[0].position, Point { x: 2_500_000, y: 0 });
    // At exactly one unit off the projectile is not yet close enough.
    let mut edge = world_with(
        vec![],
        vec![],
        vec![Projectile { position: Point { x: 4_000_000, y: 0 }, ..p }],
    );
    edge.fixed_update(10_000);
    assert_eq!(edge.projectiles[0].position, Point { x: 1_000_000, y: 0 });
    w.fixed_update(10_000);
    // Passes the aim point by half a unit, and is close enough to go.
    assert!(w.projectiles.is_empty());
}

#[test]
fn each_axis_approaches_by_one_step_per_tick() {
    let p = Projectile {
        position: Point { x: -4_000_000, y: 9_000_000 },
        target_translation: Point { x: 0, y: 0 },
        speed: 100,
    };
    let mut w = world_with(vec![], vec![], vec![p]);
    let mut last = w.projectiles[0].position;
    for _ in 0..7 {
        w.fixed_update(10_000);
        let now = w.projectiles[0].position;
        if last.x.abs() > 1_000_000 {
            assert_eq!(now.x.abs(), last.x.abs() - 1_000_000);
        } else {
            assert!(now.x.abs() <= 1_000_000);
        }
        assert_eq!(now.y.abs(), last.y.abs() - 1_000_000);
        last = now;
    }
}

#[test]
fn small_steps_arrive_within_bound() {
    // Step of half a unit; offsets of 5 and 3 units: arrival by tick 10.
    let p = Projectile {
        position: Point { x: 0, y: 0 },
        target_translation: Point { x: 5_000_000, y: -3_000_000 },
        speed: 100,
    };
    let mut w = world_with(vec![], vec![], vec![p]);
    let mut ticks: u32 = 0;
    while !w.projectiles.is_empty() {
        w.fixed_update(5_000);
        ticks += 1;
        assert!(ticks <= 10);
    }
}

#[test]
fn oscillating_projectile_may_never_arrive() {
    // Offsets of 0.9 units on both axes with a 1.667-unit step swing around the
    // aim point without coming within a unit of it.
    let p = Projectile {
        position: Point { x: 900_000, y: 900_000 },
        target_translation: Point { x: 0, y: 0 },
        speed: 100,
    };
    let mut w = world_with(vec![], vec![], vec![p]);
    for _ in 0..100 {
        w.fixed_update(TICK);
    }
    assert_eq!(w.projectiles.len(), 1);
}

#[test]
fn distance_squared_is_exact() {
    let a = Point { x: -3_000_000, y: 4 };
    let b = Point { x: 0, y: 4_000_004 };
    assert_eq!(distance_squared(a, b), 25_000_000_000_000);
    assert!(!projectile_arrived(&Projectile { position: a, target_translation: b, speed: 1 }));
    assert!(projectile_arrived(&Projectile { position: a, target_translation: Point { x: -3_500_000, y: 4 }, speed: 1 }));
}

#[test]
fn point_from_units_scales() {
    assert_eq!(Point::from_units(-90, 3), Point { x: -90_000_000, y: 3_000_000 });
}
