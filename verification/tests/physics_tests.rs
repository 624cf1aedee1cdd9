use wandersim::physics::{
    collide, collision_system, layout_split, move_step, placement_blocked, Collider, Collision,
    Mover, Moving, MovingState, Solid,
};
use wandersim::vec2::Vec2;

fn square(side: i64) -> Vec2 {
    Vec2::new(side, side)
}

#[test]
fn collide_classifies_faces() {
    let b = Vec2::new(0, 0);
    let size = square(80_000);
    assert_eq!(collide(Vec2::new(-78_000, 0), size, b, size), Some(Collision::Left));
    assert_eq!(collide(Vec2::new(78_000, 0), size, b, size), Some(Collision::Right));
    assert_eq!(collide(Vec2::new(0, -78_000), size, b, size), Some(Collision::Bottom));
    assert_eq!(collide(Vec2::new(0, 78_000), size, b, size), Some(Collision::Top));
    assert_eq!(collide(Vec2::new(0, 0), square(10_000), b, size), Some(Collision::Inside));
    assert_eq!(collide(Vec2::new(200_000, 0), size, b, size), None);
    // Touching edges do not count as overlap.
    assert_eq!(collide(Vec2::new(80_000, 0), size, b, size), None);
    // On exactly equal penetration depths the x face wins.
    assert_eq!(collide(Vec2::new(78_000, 78_000), size, b, size), Some(Collision::Right));
    assert_eq!(collide(Vec2::new(-78_000, -78_000), size, b, size), Some(Collision::Left));
}

fn overlapping_world() -> (Vec<Mover>, Vec<Solid>) {
    let moving = Moving {
        state: MovingState::Normal,
        velocity: Vec2::new(-50_000, 0),
        speed: 50_000,
        route_history: Vec::new(),
        last_delta: Some(Vec2::new(-5_000, 0)),
    };
    let mover = Mover {
        position: Vec2::new(78_000, 0),
        collider: Collider { hit: false, hit_box: square(80_000) },
        moving,
    };
    let solid = Solid {
        position: Vec2::new(0, 0),
        collider: Collider { hit: false, hit_box: square(80_000) },
        is_target: false,
    };
    (vec![mover], vec![solid])
}

#[test]
fn resolution_undoes_last_delta_and_reflects() {
    let (mut movers, mut solids) = overlapping_world();
    collision_system(&mut movers, &mut solids);
    // The mover arrived moving left; the correction undoes that movement.
    assert_eq!(movers[0].position.x, 83_000);
    assert_eq!(movers[0].position.y, 0);
    // Both parties know about the hit.
    assert!(movers[0].collider.hit);
    assert!(solids[0].collider.hit);
    // The mover penetrated the right face while moving left, so the x
    // velocity reflects.
    assert_eq!(movers[0].moving.velocity.x, 50_000);
    assert_eq!(movers[0].moving.velocity.y, 0);
}

// Collision idempotence: once the corrective step separated the boxes, an
// immediate second resolution changes nothing.
#[test]
fn second_resolution_changes_nothing() {
    let (mut movers, mut solids) = overlapping_world();
    collision_system(&mut movers, &mut solids);
    let pos_after_first = movers[0].position;
    let vel_after_first = movers[0].moving.velocity;
    collision_system(&mut movers, &mut solids);
    assert_eq!(movers[0].position, pos_after_first);
    assert_eq!(movers[0].moving.velocity, vel_after_first);
    // With no overlap left, the mover's flag clears; the solid's stays.
    assert!(!movers[0].collider.hit);
    assert!(solids[0].collider.hit);
}

#[test]
fn movement_records_visited_cells_without_adjacent_duplicates() {
    let mut mover = Mover {
        position: Vec2::new(0, 0),
        collider: Collider { hit: false, hit_box: square(80_000) },
        moving: Moving::new(Vec2::new(5_000_000, 0)),
    };
    // Five frames of a second each cross several cells left to right.
    for _ in 0..5 {
        move_step(&mut mover, 1000);
        let h = &mover.moving.route_history;
        for k in 1..h.len() {
            assert_ne!(h[k], h[k - 1]);
        }
    }
    assert!(mover.moving.route_history.len() >= 2);
    assert_eq!(mover.position.x, 25_000_000);
}

#[test]
fn retracing_pops_cells_and_walks_back() {
    let mut mover = Mover {
        position: Vec2::new(0, 0),
        collider: Collider { hit: false, hit_box: square(80_000) },
        moving: Moving::new(Vec2::new(96_000, 0)),
    };
    // Walk right for three seconds, one cell per second.
    for _ in 0..3 {
        move_step(&mut mover, 1000);
    }
    let recorded = mover.moving.route_history.len();
    assert!(recorded >= 2);
    mover.moving.state = MovingState::Retrace;
    let mut len = mover.moving.route_history.len();
    for _ in 0..200 {
        move_step(&mut mover, 250);
        let now = mover.moving.route_history.len();
        assert!(now <= len, "retracing must never grow the history");
        len = now;
        if len == 0 {
            break;
        }
    }
    assert_eq!(len, 0);
    // Fully retraced, the mover rests where it stands, even though its
    // last delta still points somewhere.
    let rest_position = mover.position;
    assert!(mover.moving.last_delta.is_some());
    for _ in 0..5 {
        move_step(&mut mover, 250);
        assert_eq!(mover.position, rest_position);
        assert!(mover.moving.route_history.is_empty());
    }
}

#[test]
fn zero_velocity_moves_nowhere() {
    let mut mover = Mover {
        position: Vec2::new(1_000, 2_000),
        collider: Collider { hit: false, hit_box: square(80_000) },
        moving: Moving::new(Vec2::new(0, 0)),
    };
    move_step(&mut mover, 1000);
    assert_eq!(mover.position.x, 1_000);
    assert_eq!(mover.position.y, 2_000);
}

#[test]
fn placement_on_top_of_a_solid_is_blocked() {
    let solids = vec![Solid {
        position: Vec2::new(0, 0),
        collider: Collider { hit: false, hit_box: square(80_000) },
        is_target: false,
    }];
    assert!(placement_blocked(Vec2::new(10_000, 0), &solids));
    assert!(placement_blocked(Vec2::new(-39_000, 39_000), &solids));
    assert!(!placement_blocked(Vec2::new(100_000, 0), &solids));
    assert!(!placement_blocked(Vec2::new(0, -41_000), &solids));
}

#[test]
fn move_system_advances_every_mover_independently() {
    let mut movers = vec![
        Mover {
            position: Vec2::new(0, 0),
            collider: Collider { hit: false, hit_box: square(80_000) },
            moving: Moving::new(Vec2::new(100_000, 0)),
        },
        Mover {
            position: Vec2::new(5_000, -5_000),
            collider: Collider { hit: false, hit_box: square(80_000) },
            moving: Moving::new(Vec2::new(0, -200_000)),
        },
    ];
    wandersim::physics::move_system(&mut movers, 500);
    assert_eq!(movers[0].position.x, 50_000);
    assert_eq!(movers[0].position.y, 0);
    assert_eq!(movers[1].position.x, 5_000);
    assert_eq!(movers[1].position.y, -105_000);
}

#[test]
fn retraced_mover_with_stale_delta_stays_put() {
    // A mover whose route is already fully retraced must not glide on
    // along its last movement; the desired direction is zero and it rests.
    let mut mover = Mover {
        position: Vec2::new(10_000, 2_000),
        collider: Collider { hit: false, hit_box: square(80_000) },
        moving: Moving {
            state: MovingState::Retrace,
            velocity: Vec2::new(100_000, 0),
            speed: 150_000,
            route_history: Vec::new(),
            last_delta: Some(Vec2::new(1_000, 0)),
        },
    };
    move_step(&mut mover, 16);
    assert_eq!(mover.position.x, 10_000);
    assert_eq!(mover.position.y, 2_000);
    assert!(mover.moving.route_history.is_empty());
    assert_eq!(mover.moving.last_delta, Some(Vec2::new(0, 0)));
}

#[test]
fn layout_split_picks_the_first_target() {
    let entry = |x: i64, target: bool| Solid {
        position: Vec2::new(x, 0),
        collider: Collider { hit: false, hit_box: square(80_000) },
        is_target: target,
    };
    let solids = vec![
        entry(-300_000, false),
        entry(0, true),
        entry(200_000, false),
        entry(400_000, true),
    ];
    let (target, rest) = layout_split(&solids);
    // Two targets are a configuration error; the first one wins.
    let t = target.expect("a target exists");
    assert_eq!(t.0, Vec2::new(0, 0));
    assert_eq!(rest.len(), 2);
    assert_eq!(rest[0].0, Vec2::new(-300_000, 0));
    assert_eq!(rest[1].0, Vec2::new(200_000, 0));

    let (none, all) = layout_split(&vec![entry(-300_000, false)]);
    assert!(none.is_none());
    assert_eq!(all.len(), 1);
}

#[test]
fn target_hit_flag_survives_the_rest_of_the_pass() {
    // The first mover strikes the tower; the second, resolved after it,
    // touches nothing.  The tower's flag must still be set at the end.
    let tower = Solid {
        position: Vec2::new(0, 0),
        collider: Collider { hit: false, hit_box: square(120_000) },
        is_target: true,
    };
    let striker = Mover {
        position: Vec2::new(90_000, 0),
        collider: Collider { hit: false, hit_box: square(80_000) },
        moving: Moving::new(Vec2::new(-100_000, 0)),
    };
    let idle = Mover {
        position: Vec2::new(500_000, 500_000),
        collider: Collider { hit: false, hit_box: square(80_000) },
        moving: Moving::new(Vec2::new(0, 0)),
    };
    let mut movers = vec![striker, idle];
    let mut solids = vec![tower];
    collision_system(&mut movers, &mut solids);
    assert!(solids[0].collider.hit);
    assert!(movers[0].collider.hit);
    assert!(!movers[1].collider.hit);
}
