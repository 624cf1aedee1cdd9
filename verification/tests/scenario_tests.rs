use wandersim::enemies::{turn_enemy, update_timer, Enemy, EnemyState};
use wandersim::force::Force;
use wandersim::pathfinding::VectorField;
use wandersim::physics::{collision_system, move_step, Collider, Mover, Moving, MovingState, Solid};
use wandersim::vec2::Vec2;

const EXTENT: i64 = 2_880_000;

// A mover spawns left of a single wall column standing directly between it
// and the tower; steered by the flow field it routes around the wall —
// never through it — and eventually strikes the tower's collider.
#[test]
fn mover_routes_around_wall_and_hits_tower() {
    let tower_pos = Vec2::new(0, 0);
    let tower_box = Vec2::new(120_000, 120_000);
    let wall_pos = Vec2::new(-300_000, 0);
    let wall_box = Vec2::new(80_000, 400_000);

    let mut field = VectorField::new(EXTENT, EXTENT);
    field.regenerate(Some((tower_pos, tower_box)), &vec![(wall_pos, wall_box)]);

    let mut solids = vec![
        Solid {
            position: tower_pos,
            collider: Collider { hit: false, hit_box: tower_box },
            is_target: true,
        },
        Solid {
            position: wall_pos,
            collider: Collider { hit: false, hit_box: wall_box },
            is_target: false,
        },
    ];
    let mut movers = vec![Mover {
        position: Vec2::new(-640_000, 10_000),
        collider: Collider { hit: false, hit_box: Vec2::new(72_000, 80_000) },
        moving: Moving::new(Vec2::new(150_000, 0)),
    }];
    let mut enemy = Enemy::new(600_000);
    let emitters: Vec<(Force, Vec2)> = Vec::new();

    let mut tower_struck = false;
    for _ in 0..60_000 {
        update_timer(&mut enemy, &mut movers[0].moving, 16);
        let flow = field.get_direction(movers[0].position);
        let position = movers[0].position;
        turn_enemy(&enemy, &mut movers[0].moving, position, flow, &emitters, 16);
        move_step(&mut movers[0], 16);
        collision_system(&mut movers, &mut solids);
        // Never through the wall: the mover's centre stays out of its box.
        let dx = movers[0].position.x - wall_pos.x;
        let dy = movers[0].position.y - wall_pos.y;
        assert!(
            !(dx.abs() < wall_box.x / 2 && dy.abs() < wall_box.y / 2),
            "mover walked through the wall",
        );
        if solids[0].collider.hit {
            tower_struck = true;
            break;
        }
    }
    assert!(tower_struck, "mover never reached the tower");
    assert_eq!(enemy.state, EnemyState::WalkToTower);
}

// An agent with a fifteen-second attention span that never reaches the
// target turns around at the fifteen-second tick, and from then on its
// route history only shrinks, down to nothing.
#[test]
fn attention_runs_out_and_route_fully_retraces() {
    let mut field = VectorField::new(EXTENT, EXTENT);
    field.regenerate(None, &Vec::new());

    let mut mover = Mover {
        position: Vec2::new(0, 0),
        collider: Collider { hit: false, hit_box: Vec2::new(72_000, 80_000) },
        moving: Moving::new(Vec2::new(100_000, 0)),
    };
    let mut enemy = Enemy::new(15_000);
    let emitters: Vec<(Force, Vec2)> = Vec::new();

    let mut switch_tick = 0usize;
    for tick in 1..=80usize {
        update_timer(&mut enemy, &mut mover.moving, 250);
        if enemy.state == EnemyState::WalkBack {
            switch_tick = tick;
            break;
        }
        let flow = field.get_direction(mover.position);
        let position = mover.position;
        turn_enemy(&enemy, &mut mover.moving, position, flow, &emitters, 250);
        move_step(&mut mover, 250);
        // While seeking, the history never holds two adjacent equal cells.
        let h = &mover.moving.route_history;
        for k in 1..h.len() {
            assert_ne!(h[k], h[k - 1]);
        }
    }
    // Fifteen seconds at two hundred fifty milliseconds a tick.
    assert_eq!(switch_tick, 60);
    assert_eq!(mover.moving.state, MovingState::Retrace);
    assert!(mover.moving.route_history.len() >= 2, "agent recorded a route");

    let mut len = mover.moving.route_history.len();
    let mut emptied = false;
    for _ in 0..5_000 {
        move_step(&mut mover, 250);
        let now = mover.moving.route_history.len();
        assert!(now <= len, "retracing must never grow the history");
        len = now;
        if len == 0 {
            emptied = true;
            break;
        }
    }
    assert!(emptied, "route history never reached zero");
}
