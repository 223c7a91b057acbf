use fundies_game::vec2::{Vec2, Rect};
use fundies_game::components::{Pos, Vel, Bullet, Ship};
use fundies_game::world::{World, Bundle};
use fundies_game::systems::{
    move_balls, remove_offscreen, handle_collision, shoot_bullet, spawn_ships,
    spawn_ships_with, bullets_on_screen,
};
use fundies_game::game::GameState;

fn rect_1000x600() -> Rect {
    // the 1000 x 600 unit window, in milli-units
    Rect { x: 0, y: 0, w: 1_000_000, h: 600_000 }
}

/// A direction table whose rows have the right lengths; every entry is the
/// zero vector unless a test overrides a row.
fn zero_dirs() -> Vec<Vec<Vec2>> {
    let mut dirs: Vec<Vec<Vec2>> = Vec::new();
    for c in 0..=10u32 {
        let mut row: Vec<Vec2> = Vec::new();
        for _ in 0..c {
            row.push(Vec2 { x: 0, y: 0 });
        }
        dirs.push(row);
    }
    dirs
}

fn bullet_bundle_at(x: i64, y: i64, generation: u32) -> Bundle {
    Bundle {
        pos: Some(Pos(Vec2 { x, y })),
        vel: Some(Vel(Vec2 { x: 0, y: 0 })),
        bullet: Some(Bullet(generation)),
        ship: None,
    }
}

fn ship_bundle_at(x: i64, y: i64) -> Bundle {
    Bundle {
        pos: Some(Pos(Vec2 { x, y })),
        vel: Some(Vel(Vec2 { x: 0, y: 0 })),
        bullet: None,
        ship: Some(Ship),
    }
}

#[test]
fn move_is_exactly_velocity_times_time() {
    let mut w = World::new();
    let mut b = bullet_bundle_at(1000, 2000, 0);
    b.vel = Some(Vel(Vec2 { x: 3, y: -4 }));
    w.append_components(vec![b]);
    move_balls(&mut w, 500);
    assert_eq!(w.ents[0].pos, Some(Pos(Vec2 { x: 1000 + 3 * 500, y: 2000 - 4 * 500 })));
    assert_eq!(w.ents[0].vel, Some(Vel(Vec2 { x: 3, y: -4 })));
}

#[test]
fn move_needs_both_position_and_velocity() {
    let mut w = World::new();
    let mut b = bullet_bundle_at(7, 9, 0);
    b.vel = None;
    w.append_components(vec![b]);
    move_balls(&mut w, 1000);
    assert_eq!(w.ents[0].pos, Some(Pos(Vec2 { x: 7, y: 9 })));
}

#[test]
fn boundary_entity_is_retained() {
    let rect = rect_1000x600();
    let mut w = World::new();
    w.append_components(vec![
        bullet_bundle_at(1_000_000, 600_000, 0), // exactly the far corner
        bullet_bundle_at(0, 0, 0),               // exactly the near corner
    ]);
    remove_offscreen(&mut w, rect);
    assert_eq!(w.ents.len(), 2);
}

#[test]
fn entity_one_unit_beyond_any_edge_is_removed() {
    let rect = rect_1000x600();
    let mut w = World::new();
    w.append_components(vec![
        bullet_bundle_at(1_000_001, 300_000, 0), // beyond the right edge
        bullet_bundle_at(-1, 300_000, 0),        // beyond the left edge
        bullet_bundle_at(500_000, -1, 0),        // beyond the top edge
        bullet_bundle_at(500_000, 600_001, 0),   // beyond the bottom edge
        bullet_bundle_at(500_000, 300_000, 0),   // inside
    ]);
    remove_offscreen(&mut w, rect);
    assert_eq!(w.ents.len(), 1);
    assert_eq!(w.ents[0].pos, Some(Pos(Vec2 { x: 500_000, y: 300_000 })));
}

#[test]
fn collision_at_exact_sum_of_sizes_counts() {
    // ship size = 350_000 / 35 = 10_000; generation-0 bullet size = 0
    let rect = Rect { x: 0, y: 0, w: 1_000_000, h: 350_000 };
    let dirs = zero_dirs();
    let mut w = World::new();
    w.append_components(vec![
        ship_bundle_at(0, 0),
        bullet_bundle_at(10_000, 0, 0),
    ]);
    let destroyed = handle_collision(&mut w, rect, &dirs);
    assert_eq!(destroyed, 1);
}

#[test]
fn collision_one_unit_past_the_sum_does_not_count() {
    let rect = Rect { x: 0, y: 0, w: 1_000_000, h: 350_000 };
    let dirs = zero_dirs();
    let mut w = World::new();
    w.append_components(vec![
        ship_bundle_at(0, 0),
        bullet_bundle_at(10_001, 0, 0),
    ]);
    let destroyed = handle_collision(&mut w, rect, &dirs);
    assert_eq!(destroyed, 0);
    assert_eq!(w.ents.len(), 2);
}

#[test]
fn destroying_generation_g_spawns_min_g_plus_1_capped_plus_one_children() {
    // generation 3 bursts into min(3 + 1, 9) + 1 = 5 bullets of generation 4
    let rect = Rect { x: 0, y: 0, w: 1_000_000, h: 350_000 };
    let mut dirs = zero_dirs();
    dirs[5] = vec![
        Vec2 { x: 400, y: 0 },
        Vec2 { x: 124, y: 380 },
        Vec2 { x: -324, y: 235 },
        Vec2 { x: -324, y: -235 },
        Vec2 { x: 124, y: -380 },
    ];
    let mut w = World::new();
    w.append_components(vec![
        ship_bundle_at(100_000, 100_000),
        bullet_bundle_at(100_000, 100_000, 3),
    ]);
    let destroyed = handle_collision(&mut w, rect, &dirs);
    assert_eq!(destroyed, 1);
    assert_eq!(w.ents.len(), 5);
    for (i, rec) in w.ents.iter().enumerate() {
        assert_eq!(rec.bullet, Some(Bullet(4)));
        assert_eq!(rec.ship, None);
        assert_eq!(rec.pos, Some(Pos(Vec2 { x: 100_000, y: 100_000 })));
        assert_eq!(rec.vel, Some(Vel(dirs[5][i])));
    }
}

#[test]
fn generation_nine_children_stay_at_nine() {
    // generation 9 bursts into min(9 + 1, 9) + 1 = 10 bullets of generation 9
    let rect = Rect { x: 0, y: 0, w: 1_000_000, h: 350_000 };
    let dirs = zero_dirs();
    let mut w = World::new();
    w.append_components(vec![
        ship_bundle_at(100_000, 100_000),
        bullet_bundle_at(100_000, 100_000, 9),
    ]);
    let destroyed = handle_collision(&mut w, rect, &dirs);
    assert_eq!(destroyed, 1);
    assert_eq!(w.ents.len(), 10);
    for rec in w.ents.iter() {
        assert_eq!(rec.bullet, Some(Bullet(9)));
    }
}

#[test]
fn bulk_remove_is_idempotent_and_tolerates_unknown_ids() {
    let mut w = World::new();
    w.append_components(vec![
        bullet_bundle_at(1, 1, 0),
        bullet_bundle_at(2, 2, 0),
        bullet_bundle_at(3, 3, 0),
    ]);
    let id1 = w.ents[1].id;
    // the same identifier listed twice removes one entity, once
    w.remove_entities(&vec![id1, id1]);
    assert_eq!(w.ents.len(), 2);
    let snapshot = w.clone();
    // removing it again is a no-op
    w.remove_entities(&vec![id1]);
    assert_eq!(w, snapshot);
    // removing a never-inserted identifier is a no-op
    w.remove_entities(&vec![9999]);
    assert_eq!(w, snapshot);
    // the survivors are untouched
    assert_eq!(w.ents[0].pos, Some(Pos(Vec2 { x: 1, y: 1 })));
    assert_eq!(w.ents[1].pos, Some(Pos(Vec2 { x: 3, y: 3 })));
}

#[test]
fn scenario_a_last_bullet_leaves_the_screen_and_the_game_ends() {
    let rect = rect_1000x600();
    let dirs = zero_dirs();
    let mut g = GameState::new(1);
    g.fire(rect);
    assert_eq!(g.bullets_left, 0);
    assert_eq!(bullets_on_screen(&g.world), 1);
    // the bullet starts at the bottom centre, moving straight up at 400/sec
    assert_eq!(g.world.ents[0].pos, Some(Pos(Vec2 { x: 500_000, y: 600_000 })));
    assert_eq!(g.world.ents[0].vel, Some(Vel(Vec2 { x: 0, y: -400 })));
    // 1501 ms move the bullet 600_400 milli-units up: off the top edge
    let done = g.tick(1501, rect, &dirs);
    assert!(done);
    assert_eq!(bullets_on_screen(&g.world), 0);
    assert_eq!(g.ships_destroyed, 0);
    assert_eq!(g.bullets_left, 0);
}

#[test]
fn scenario_b_head_on_kill_spawns_two_generation_one_bullets() {
    let rect = rect_1000x600();
    let mut dirs = zero_dirs();
    // ring of two: angles 0 and pi, scaled to speed 400
    dirs[2] = vec![Vec2 { x: 400, y: 0 }, Vec2 { x: -400, y: 0 }];
    let mut w = World::new();
    w.append_components(vec![
        ship_bundle_at(200_000, 300_000),
        bullet_bundle_at(200_000, 300_000, 0),
    ]);
    let destroyed = handle_collision(&mut w, rect, &dirs);
    assert_eq!(destroyed, 1);
    assert_eq!(w.ents.len(), 2);
    assert_eq!(w.ents[0].bullet, Some(Bullet(1)));
    assert_eq!(w.ents[1].bullet, Some(Bullet(1)));
    assert_eq!(w.ents[0].pos, Some(Pos(Vec2 { x: 200_000, y: 300_000 })));
    assert_eq!(w.ents[1].pos, Some(Pos(Vec2 { x: 200_000, y: 300_000 })));
    assert_eq!(w.ents[0].vel, Some(Vel(Vec2 { x: 400, y: 0 })));
    assert_eq!(w.ents[1].vel, Some(Vel(Vec2 { x: -400, y: 0 })));
    assert!(w.ents.iter().all(|r| r.ship.is_none()));
}

#[test]
fn scenario_c_three_drawn_ships_enter_moving_inward() {
    let rect = rect_1000x600();
    let mut w = World::new();
    let sides = vec![false, true, false];
    let ys = vec![100_000, 200_000, 150_000];
    spawn_ships_with(&mut w, rect, &sides, &ys);
    assert_eq!(w.ents.len(), 3);
    // left-edge ships move right, right-edge ships move left
    assert_eq!(w.ents[0].pos, Some(Pos(Vec2 { x: 0, y: 100_000 })));
    assert_eq!(w.ents[0].vel, Some(Vel(Vec2 { x: 300, y: 0 })));
    assert_eq!(w.ents[1].pos, Some(Pos(Vec2 { x: 1_000_000, y: 200_000 })));
    assert_eq!(w.ents[1].vel, Some(Vel(Vec2 { x: -300, y: 0 })));
    assert_eq!(w.ents[2].pos, Some(Pos(Vec2 { x: 0, y: 150_000 })));
    assert_eq!(w.ents[2].vel, Some(Vel(Vec2 { x: 300, y: 0 })));
    for rec in w.ents.iter() {
        assert_eq!(rec.ship, Some(Ship));
        assert_eq!(rec.bullet, None);
    }
}

#[test]
fn random_spawn_lands_in_the_middle_band_moving_inward() {
    let rect = rect_1000x600();
    let mut w = World::new();
    spawn_ships(&mut w, rect);
    let n = w.ents.len();
    assert!((1..=5).contains(&n));
    for rec in w.ents.iter() {
        assert_eq!(rec.ship, Some(Ship));
        let p = rec.pos.unwrap().0;
        let v = rec.vel.unwrap().0;
        // drawn height lies in the middle five sevenths of the screen
        assert!(p.y >= 600_000 / 7 && p.y < 6 * 600_000 / 7);
        if p.x == 0 {
            assert_eq!(v, Vec2 { x: 300, y: 0 });
        } else {
            assert_eq!(p.x, 1_000_000);
            assert_eq!(v, Vec2 { x: -300, y: 0 });
        }
    }
}

#[test]
fn sizes_follow_the_documented_formulas() {
    assert_eq!(Bullet(0).size(), 0);
    assert_eq!(Bullet(3).size(), 3_000);
    assert_eq!(Bullet(9).size(), 9_000);
    assert_eq!(Bullet(12).size(), 10_000);
    assert_eq!(Ship::size(rect_1000x600()), 600_000 / 35);
}

#[test]
fn shoot_bullet_inserts_exactly_one_generation_zero_bullet() {
    let rect = rect_1000x600();
    let mut w = World::new();
    shoot_bullet(&mut w, rect);
    assert_eq!(w.ents.len(), 1);
    assert_eq!(w.ents[0].bullet, Some(Bullet(0)));
    assert_eq!(w.ents[0].ship, None);
    assert_eq!(w.ents[0].pos, Some(Pos(Vec2 { x: 500_000, y: 600_000 })));
    assert_eq!(w.ents[0].vel, Some(Vel(Vec2 { x: 0, y: -400 })));
}

#[test]
fn bullets_on_screen_counts_only_bullets() {
    let mut w = World::new();
    w.append_components(vec![
        bullet_bundle_at(1, 1, 0),
        ship_bundle_at(2, 2),
        bullet_bundle_at(3, 3, 5),
    ]);
    assert_eq!(bullets_on_screen(&w), 2);
}

#[test]
fn firing_with_no_ammunition_is_a_no_op() {
    let rect = rect_1000x600();
    let mut g = GameState::new(0);
    g.fire(rect);
    assert_eq!(g.bullets_left, 0);
    assert_eq!(g.world.ents.len(), 0);
}

#[test]
fn a_doomed_ship_is_destroyed_once_even_with_two_bullets_in_range() {
    // the first bullet in store order wins; the second stays alive and
    // uncredited
    let rect = Rect { x: 0, y: 0, w: 1_000_000, h: 350_000 };
    let mut dirs = zero_dirs();
    dirs[2] = vec![Vec2 { x: 400, y: 0 }, Vec2 { x: -400, y: 0 }];
    let mut w = World::new();
    w.append_components(vec![
        ship_bundle_at(50_000, 50_000),
        bullet_bundle_at(50_000, 50_000, 0),
        bullet_bundle_at(51_000, 50_000, 0),
    ]);
    let second_bullet_id = w.ents[2].id;
    let destroyed = handle_collision(&mut w, rect, &dirs);
    assert_eq!(destroyed, 1);
    // survivors: the uncredited second bullet, then the two children
    assert_eq!(w.ents.len(), 3);
    assert_eq!(w.ents[0].id, second_bullet_id);
    assert_eq!(w.ents[1].bullet, Some(Bullet(1)));
    assert_eq!(w.ents[2].bullet, Some(Bullet(1)));
}

#[test]
fn one_bullet_can_destroy_two_ships_in_one_pass() {
    // both ships are in range of the same bullet; the bullet's identifier is
    // queued twice, which the bulk removal tolerates
    let rect = Rect { x: 0, y: 0, w: 1_000_000, h: 350_000 };
    let mut dirs = zero_dirs();
    dirs[2] = vec![Vec2 { x: 400, y: 0 }, Vec2 { x: -400, y: 0 }];
    let mut w = World::new();
    w.append_components(vec![
        ship_bundle_at(50_000, 50_000),
        ship_bundle_at(52_000, 50_000),
        bullet_bundle_at(51_000, 50_000, 0),
    ]);
    let destroyed = handle_collision(&mut w, rect, &dirs);
    assert_eq!(destroyed, 2);
    // two bursts of two generation-1 bullets each
    assert_eq!(w.ents.len(), 4);
    for rec in w.ents.iter() {
        assert_eq!(rec.bullet, Some(Bullet(1)));
    }
}

#[test]
fn tick_without_spawn_keeps_the_timer_running() {
    let rect = rect_1000x600();
    let dirs = zero_dirs();
    let mut g = GameState::new(10);
    let done = g.tick(700, rect, &dirs);
    assert!(!done);
    assert_eq!(g.since_spawn_ms, 700);
    assert_eq!(g.world.ents.len(), 0);
    // the next frame crosses the 750 ms interval: ships spawn, timer resets
    let done = g.tick(100, rect, &dirs);
    assert!(!done);
    assert_eq!(g.since_spawn_ms, 0);
    let n = g.world.ents.len();
    assert!((1..=5).contains(&n));
}

#[test]
fn vector_addition_and_scaling_are_componentwise() {
    let a = Vec2 { x: 3, y: -4 };
    let b = Vec2 { x: 10, y: 20 };
    assert_eq!(a.plus(b), Vec2 { x: 13, y: 16 });
    assert_eq!(a.scale(-2), Vec2 { x: -6, y: 8 });
    assert_eq!(Vec2::new(7, 8), Vec2 { x: 7, y: 8 });
}

#[test]
fn distance_squared_and_containment_are_exact() {
    let a = Vec2 { x: 0, y: 0 };
    let b = Vec2 { x: 3, y: 4 };
    assert_eq!(a.dist_sq(b), 25);
    assert!(a.in_rect(Rect { x: 0, y: 0, w: 10, h: 10 }));
    assert!(!b.in_rect(Rect { x: 4, y: 0, w: 10, h: 10 }));
}

#[test]
fn no_termination_while_a_bullet_is_in_flight() {
    let rect = rect_1000x600();
    let dirs = zero_dirs();
    let mut g = GameState::new(1);
    g.fire(rect);
    let done = g.tick(100, rect, &dirs);
    assert!(!done);
    assert_eq!(bullets_on_screen(&g.world), 1);
}
