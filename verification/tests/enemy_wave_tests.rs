use wandersim::enemies::{update_timer, update_velocity, Enemy, EnemyState};
use wandersim::physics::{Moving, MovingState};
use wandersim::vec2::Vec2;
use wandersim::wave::{spawn_visitor_moving, tick_wave, EnemySpawn};

#[test]
fn attention_timer_switches_exactly_once() {
    let mut enemy = Enemy::new(15_000);
    let mut moving = Moving::new(Vec2::new(100_000, 0));
    for tick in 1..=14 {
        update_timer(&mut enemy, &mut moving, 1000);
        assert_eq!(enemy.state, EnemyState::WalkToTower, "tick {tick}");
        assert_eq!(moving.state, MovingState::Normal);
    }
    update_timer(&mut enemy, &mut moving, 1000);
    assert_eq!(enemy.state, EnemyState::WalkBack);
    assert_eq!(moving.state, MovingState::Retrace);
    // Further ticks change nothing: the turn happens once per lifetime.
    update_timer(&mut enemy, &mut moving, 1000);
    assert_eq!(enemy.state, EnemyState::WalkBack);
    assert_eq!(enemy.elapsed_ms, 15_000);
}

// Steering convergence: iterated against a constant desired force, the
// velocity approaches it monotonically, without overshoot, and settles
// within one turning rate.
#[test]
fn steering_converges_to_constant_force() {
    let mut moving = Moving::new(Vec2::new(0, 0));
    let desired = Vec2::new(500_000, 0);
    let mut previous = 0i64;
    for _ in 0..2000 {
        update_velocity(&mut moving, desired, 16);
        assert!(moving.velocity.x >= previous, "no oscillation");
        assert!(moving.velocity.x <= 500_000, "no overshoot");
        previous = moving.velocity.x;
        assert_eq!(moving.velocity.y, 0);
    }
    // The turning rate at sixteen milliseconds is eighty.
    assert!((500_000 - moving.velocity.x) <= 80);
}

#[test]
fn steering_decays_toward_zero_without_a_directive() {
    let mut moving = Moving::new(Vec2::new(400_000, -400_000));
    for _ in 0..2000 {
        update_velocity(&mut moving, Vec2::new(0, 0), 16);
    }
    assert!(moving.velocity.x.abs() <= 80);
    assert!(moving.velocity.y.abs() <= 80);
}

#[test]
fn wave_spawns_requests_when_their_delay_runs_out() {
    let mut queue = Vec::new();
    for delay_ms in [3_000i64, 4_000, 20_000] {
        queue.push(EnemySpawn { delay_ms, ..Default::default() });
    }
    let mut spawned_at = Vec::new();
    for tick in 1..=21i64 {
        let (won, spawned) = tick_wave(&mut queue, 1000);
        assert!(!won || spawned_at.len() == 3);
        for _ in spawned {
            spawned_at.push(tick);
        }
    }
    assert_eq!(spawned_at, vec![3, 4, 20]);
    assert!(queue.is_empty());
    let (won, spawned) = tick_wave(&mut queue, 1000);
    assert!(won);
    assert!(spawned.is_empty());
}

#[test]
fn default_spawn_request_matches_the_standard_visitor() {
    let e = EnemySpawn::default();
    assert_eq!(e.delay_ms, 0);
    assert_eq!(e.influence, 80_000);
    assert_eq!(e.attention_ms, 15_000);
    assert_eq!(e.location.x, -688_000);
    assert!((-36_000..36_000).contains(&e.location.y));
}

#[test]
fn spawned_visitors_walk_right_at_a_randomised_speed() {
    for _ in 0..20 {
        let m = spawn_visitor_moving();
        assert!((125_000..175_000).contains(&m.velocity.x));
        assert_eq!(m.velocity.y, 0);
        assert_eq!(m.speed, m.velocity.x);
        assert!(m.route_history.is_empty());
    }
}
