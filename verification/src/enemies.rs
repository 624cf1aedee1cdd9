//! The agent state machine and the steering integrator.
//!
//! A wandering visitor starts out seeking the tower, steered each frame by
//! the flow field plus every emitter force.  An attention timer ticks while
//! it seeks; when the timer expires the agent turns around for the rest of
//! its lifetime and retraces its recorded route, ignoring emitters.
//!
//! The steering integrator is a discretised one-pole low-pass filter:
//! `new_velocity = ((turning_rate - 1) * old_velocity + desired) /
//! turning_rate` with `turning_rate = 5 * dt_ms`, so velocity converges
//! toward the desired force without snapping.

use vstd::prelude::*;
use vstd::arithmetic::div_mod::{lemma_fundamental_div_mod, lemma_mod_bound};
use crate::force::{Force, ForceVector, NEWTON_LIMIT};
use crate::physics::{Moving, MovingState, VEL_LIMIT};
use crate::vec2::{div_trunc, Vec2};

verus! {

/// Largest attention span an agent may be configured with, in milliseconds.
pub const ATTENTION_LIMIT: i64 = 86_400_000;

/// Largest number of emitters the force-summing pass accepts.
pub const EMITTER_COUNT_LIMIT: usize = 100;

/// Behavioural mode of an agent: walking toward the tower, or walking back
/// out along its recorded route.
#[derive(Clone, Copy, Debug, PartialEq, Eq, Structural)]
pub enum EnemyState {
    WalkToTower,
    WalkBack,
}

/// The attention bookkeeping of a wandering visitor.
#[derive(Clone, Copy, Debug)]
pub struct Enemy {
    /// Milliseconds of attention spent while walking toward the tower.
    pub elapsed_ms: i64,
    /// The attention span: when `elapsed_ms` reaches it, the agent turns.
    pub attention_ms: i64,
    pub state: EnemyState,
}

impl Enemy {
    pub open spec fn wf(self) -> bool {
        0 <= self.elapsed_ms <= self.attention_ms && self.attention_ms <= ATTENTION_LIMIT
    }

    /// A fresh agent that will seek for `attention_ms` milliseconds.
    pub fn new(attention_ms: i64) -> (e: Enemy)
        requires
            0 <= attention_ms <= ATTENTION_LIMIT,
        ensures
            e.elapsed_ms == 0,
            e.attention_ms == attention_ms,
            e.state is WalkToTower,
            e.wf(),
    {
        Enemy { elapsed_ms: 0, attention_ms, state: EnemyState::WalkToTower }
    }
}

/// Ticks an agent's attention timer.  The timer runs only while the agent
/// seeks; on the tick where the accumulated time reaches the attention span
/// the agent flips to walking back — exactly once in its lifetime — and the
/// mover is switched to retracing.
pub fn update_timer(enemy: &mut Enemy, moving: &mut Moving, dt_ms: i64)
    requires
        old(enemy).wf(),
        1 <= dt_ms <= 1000,
    ensures
        final(enemy).wf(),
        final(enemy).attention_ms == old(enemy).attention_ms,
        old(enemy).state is WalkBack ==> *final(enemy) == *old(enemy) && *final(moving) == *old(
            moving,
        ),
        old(enemy).state is WalkToTower ==> {
            let expired = old(enemy).elapsed_ms + dt_ms >= old(enemy).attention_ms;
            &&& final(enemy).state == (if expired {
                EnemyState::WalkBack
            } else {
                EnemyState::WalkToTower
            })
            &&& final(enemy).elapsed_ms == (if expired {
                old(enemy).attention_ms as int
            } else {
                old(enemy).elapsed_ms + dt_ms
            })
            &&& final(moving).state == (if expired {
                MovingState::Retrace
            } else {
                old(moving).state
            })
            &&& final(moving).velocity == old(moving).velocity
            &&& final(moving).speed == old(moving).speed
            &&& final(moving).route_history == old(moving).route_history
            &&& final(moving).last_delta == old(moving).last_delta
        },
{
    match enemy.state {
        EnemyState::WalkToTower => {
            if enemy.elapsed_ms + dt_ms >= enemy.attention_ms {
                enemy.elapsed_ms = enemy.attention_ms;
                enemy.state = EnemyState::WalkBack;
                moving.state = MovingState::Retrace;
            } else {
                enemy.elapsed_ms = enemy.elapsed_ms + dt_ms;
            }
        },
        EnemyState::WalkBack => {},
    }
}

/// One component of the steering filter: the velocity moves a `1/tr` step
/// toward the desired force, rounded toward zero.
pub open spec fn steer1_spec(v: int, f: int, tr: int) -> int {
    div_trunc((tr - 1) * v + f, tr)
}

/// The magnitude of an integer.
pub open spec fn abs_val(a: int) -> int {
    if a >= 0 {
        a
    } else {
        -a
    }
}

/// Machine division lands within one divisor of the dividend.
proof fn lemma_div_trunc_close(a: int, b: int)
    requires
        b >= 1,
    ensures
        -(b - 1) <= a - b * div_trunc(a, b) <= b - 1,
{
    if a >= 0 {
        lemma_fundamental_div_mod(a, b);
        lemma_mod_bound(a, b);
    } else {
        lemma_fundamental_div_mod(-a, b);
        lemma_mod_bound(-a, b);
        assert(b * -((-a) / b) == -(b * ((-a) / b))) by (nonlinear_arith);
    }
}

/// One steering step never overshoots and always contracts the error
/// between velocity and the desired force: an exact fixed point stays
/// fixed, an error of at least `tr` strictly shrinks, and an error below
/// `tr` stays below `tr`.
pub proof fn lemma_steering_step(v: int, f: int, tr: int)
    requires
        tr >= 2,
    ensures
        v == f ==> steer1_spec(v, f, tr) == f,
        abs_val(steer1_spec(v, f, tr) - f) >= tr ==> abs_val(steer1_spec(v, f, tr) - f)
            <= abs_val(v - f) - 1,
        abs_val(steer1_spec(v, f, tr) - f) <= if abs_val(v - f) <= tr {
            tr - 1
        } else {
            abs_val(v - f) - 1
        },
{
    let e0 = v - f;
    let a = (tr - 1) * v + f;
    let q = div_trunc(a, tr);
    let e1 = q - f;
    lemma_div_trunc_close(a, tr);
    assert(a - tr * f == (tr - 1) * e0) by (nonlinear_arith)
        requires a == (tr - 1) * v + f && e0 == v - f;
    assert(tr * e1 == tr * q - tr * f) by (nonlinear_arith)
        requires e1 == q - f;
    // So tr * e1 lies within tr - 1 of (tr - 1) * e0.
    assert(-(tr - 1) <= tr * e1 - (tr - 1) * e0 <= tr - 1);
    if e0 == 0 {
        assert(e1 == 0) by (nonlinear_arith)
            requires tr >= 2 && -(tr - 1) <= tr * e1 - (tr - 1) * 0 <= tr - 1;
    }
    assert(abs_val(e1) <= if abs_val(e0) <= tr {
        tr - 1
    } else {
        abs_val(e0) - 1
    }) by (nonlinear_arith)
        requires
            tr >= 2,
            -(tr - 1) <= tr * e1 - (tr - 1) * e0 <= tr - 1;
    if abs_val(e1) >= tr {
        assert(abs_val(e1) <= abs_val(e0) - 1);
    }
}

/// The velocity after iterating the steering step `k` times against a
/// constant desired force.
pub open spec fn steer_iter_spec(v: int, f: int, tr: int, k: nat) -> int
    decreases k,
{
    if k == 0 {
        v
    } else {
        steer1_spec(steer_iter_spec(v, f, tr, (k - 1) as nat), f, tr)
    }
}

/// Steering converges: against a constant desired force, the error after
/// `k` steps is at most the initial error shrunk by `k`, and never worse
/// than one turning rate — with no oscillation past that band and no
/// overshoot beyond the initial error.
pub proof fn lemma_steering_converges(v: int, f: int, tr: int, k: nat)
    requires
        tr >= 2,
    ensures
        abs_val(steer_iter_spec(v, f, tr, k) - f) <= if abs_val(v - f) - k <= tr {
            tr
        } else {
            abs_val(v - f) - k
        },
    decreases k,
{
    if k > 0 {
        lemma_steering_converges(v, f, tr, (k - 1) as nat);
        lemma_steering_step(steer_iter_spec(v, f, tr, (k - 1) as nat), f, tr);
    }
}

/// One component of the steering filter, executed.
fn steer_component(v: i64, f: i64, tr: i64) -> (r: i64)
    requires
        2 <= tr <= 5000,
        -VEL_LIMIT <= v <= VEL_LIMIT,
        -VEL_LIMIT <= f <= VEL_LIMIT,
    ensures
        r == steer1_spec(v as int, f as int, tr as int),
        -VEL_LIMIT <= r <= VEL_LIMIT,
{
    proof {
        assert(-(5000 * (VEL_LIMIT as int)) <= (tr - 1) * v <= 5000 * (VEL_LIMIT as int))
            by (nonlinear_arith)
            requires 2 <= tr <= 5000 && -VEL_LIMIT <= v <= VEL_LIMIT;
        assert(-((tr as int) * VEL_LIMIT) <= (tr - 1) * v + f <= (tr as int) * VEL_LIMIT)
            by (nonlinear_arith)
            requires
                2 <= tr <= 5000,
                -VEL_LIMIT <= v <= VEL_LIMIT,
                -VEL_LIMIT <= f <= VEL_LIMIT;
    }
    let a = (tr - 1) * v + f;
    let r = crate::vec2::div_toward_zero(a, tr);
    proof {
        crate::vec2::lemma_div_shrink(a as int, tr as int, VEL_LIMIT as int);
    }
    r
}

/// The steering integrator: blends the desired force into the velocity as
/// an exponentially-smoothed step with turning rate `5 * dt_ms`.  Only the
/// velocity changes.
pub fn update_velocity(moving: &mut Moving, desired: Vec2, dt_ms: i64)
    requires
        old(moving).wf(),
        -VEL_LIMIT <= desired.x <= VEL_LIMIT,
        -VEL_LIMIT <= desired.y <= VEL_LIMIT,
        1 <= dt_ms <= 1000,
    ensures
        final(moving).velocity.x == steer1_spec(
            old(moving).velocity.x as int,
            desired.x as int,
            5 * dt_ms,
        ),
        final(moving).velocity.y == steer1_spec(
            old(moving).velocity.y as int,
            desired.y as int,
            5 * dt_ms,
        ),
        final(moving).speed == old(moving).speed,
        final(moving).state == old(moving).state,
        final(moving).route_history == old(moving).route_history,
        final(moving).last_delta == old(moving).last_delta,
        final(moving).wf(),
{
    let tr = 5 * dt_ms;
    let vx = steer_component(moving.velocity.x, desired.x, tr);
    let vy = steer_component(moving.velocity.y, desired.y, tr);
    moving.velocity = Vec2 { x: vx, y: vy };
}

/// The Cartesian x component of a force contribution.
pub open spec fn contribution_x(fv: ForceVector) -> int {
    fv.cartesian_x_spec()
}

/// The Cartesian y component of a force contribution.
pub open spec fn contribution_y(fv: ForceVector) -> int {
    fv.cartesian_y_spec()
}

/// The sum of the Cartesian forces that the first `k` emitters exert on a
/// mover standing at `pos`.
pub open spec fn sum_forces_upto(emitters: Seq<(Force, Vec2)>, pos: Vec2, k: int) -> (int, int)
    decreases k,
{
    if k <= 0 {
        (0, 0)
    } else {
        let prev = sum_forces_upto(emitters, pos, k - 1);
        match emitters[k - 1].0.get_force_spec(pos, emitters[k - 1].1) {
            Some(fv) => (prev.0 + contribution_x(fv), prev.1 + contribution_y(fv)),
            None => prev,
        }
    }
}

/// Sums the forces of every emitter that reaches the mover at `pos`.
pub fn sum_forces(emitters: &Vec<(Force, Vec2)>, pos: Vec2) -> (s: Vec2)
    requires
        pos.in_world(),
        emitters@.len() <= EMITTER_COUNT_LIMIT,
        forall|k: int|
            0 <= k < emitters@.len() ==> (#[trigger] emitters@[k]).0.wf()
                && emitters@[k].1.in_world(),
    ensures
        (s.x as int, s.y as int) == sum_forces_upto(emitters@, pos, emitters@.len() as int),
        -(EMITTER_COUNT_LIMIT as int) * NEWTON_LIMIT <= s.x <= (EMITTER_COUNT_LIMIT as int)
            * NEWTON_LIMIT,
        -(EMITTER_COUNT_LIMIT as int) * NEWTON_LIMIT <= s.y <= (EMITTER_COUNT_LIMIT as int)
            * NEWTON_LIMIT,
{
    let n = emitters.len();
    let mut sx: i64 = 0;
    let mut sy: i64 = 0;
    let mut k: usize = 0;
    while k < n
        invariant
            k <= n,
            n == emitters@.len(),
            n <= EMITTER_COUNT_LIMIT,
            pos.in_world(),
            forall|j: int|
                0 <= j < emitters@.len() ==> (#[trigger] emitters@[j]).0.wf()
                    && emitters@[j].1.in_world(),
            (sx as int, sy as int) == sum_forces_upto(emitters@, pos, k as int),
            -(k as int) * NEWTON_LIMIT <= sx <= (k as int) * NEWTON_LIMIT,
            -(k as int) * NEWTON_LIMIT <= sy <= (k as int) * NEWTON_LIMIT,
        decreases n - k,
    {
        let e = &emitters[k];
        match e.0.get_force(pos, e.1) {
            Some(fv) => {
                proof {
                    assert(fv.wf()) by {
                        assert(fv.dx * fv.dx + fv.dy * fv.dy > 0 ==> !(fv.dx == 0 && fv.dy == 0));
                    }
                }
                let c = fv.cartesian();
                sx = sx + c.x;
                sy = sy + c.y;
            },
            None => {},
        }
        k = k + 1;
    }
    proof {
        assert((EMITTER_COUNT_LIMIT as int) * NEWTON_LIMIT == 1_000_000_000);
    }
    Vec2 { x: sx, y: sy }
}

/// The desired force of an agent: while seeking, the flow direction scaled
/// to the nominal speed plus every emitter force; while walking back, the
/// vector toward the most recent recorded cell, with emitters ignored, or
/// zero once the route is fully retraced.
pub open spec fn desired_force_spec(
    state: EnemyState,
    flow_dir: Vec2,
    speed: int,
    emitters: Seq<(Force, Vec2)>,
    pos: Vec2,
    h: Seq<(usize, usize)>,
) -> (int, int) {
    match state {
        EnemyState::WalkToTower => {
            let fs = sum_forces_upto(emitters, pos, emitters.len() as int);
            (
                div_trunc(flow_dir.x * speed, 1000) + fs.0,
                div_trunc(flow_dir.y * speed, 1000) + fs.1,
            )
        },
        EnemyState::WalkBack => {
            if h.len() > 0 {
                (
                    crate::grid::coordinate_of(h.last().0 as int) - pos.x,
                    crate::grid::coordinate_of(h.last().1 as int) - pos.y,
                )
            } else {
                (0, 0)
            }
        },
    }
}

/// Steers one agent for one frame: forms its desired force — flow plus
/// emitters while seeking, its recorded route while walking back — and
/// blends it into the velocity through the steering integrator.
pub fn turn_enemy(
    enemy: &Enemy,
    moving: &mut Moving,
    position: Vec2,
    flow_dir: Vec2,
    emitters: &Vec<(Force, Vec2)>,
    dt_ms: i64,
)
    requires
        old(moving).wf(),
        position.in_world(),
        -1000 <= flow_dir.x <= 1000,
        -1000 <= flow_dir.y <= 1000,
        emitters@.len() <= EMITTER_COUNT_LIMIT,
        forall|k: int|
            0 <= k < emitters@.len() ==> (#[trigger] emitters@[k]).0.wf()
                && emitters@[k].1.in_world(),
        1 <= dt_ms <= 1000,
    ensures
        ({
            let d = desired_force_spec(
                enemy.state,
                flow_dir,
                old(moving).speed as int,
                emitters@,
                position,
                old(moving).route_history@,
            );
            &&& final(moving).velocity.x == steer1_spec(
                old(moving).velocity.x as int,
                d.0,
                5 * dt_ms,
            )
            &&& final(moving).velocity.y == steer1_spec(
                old(moving).velocity.y as int,
                d.1,
                5 * dt_ms,
            )
        }),
        final(moving).speed == old(moving).speed,
        final(moving).state == old(moving).state,
        final(moving).route_history == old(moving).route_history,
        final(moving).last_delta == old(moving).last_delta,
        final(moving).wf(),
{
    let desired: Vec2 = match enemy.state {
        EnemyState::WalkToTower => {
            proof {
                crate::vec2::lemma_scale_bound(flow_dir.x as int, moving.speed as int, 1000);
                crate::vec2::lemma_scale_bound(flow_dir.y as int, moving.speed as int, 1000);
            }
            let fx = crate::vec2::div_toward_zero(flow_dir.x * moving.speed, 1000);
            let fy = crate::vec2::div_toward_zero(flow_dir.y * moving.speed, 1000);
            let fs = sum_forces(emitters, position);
            Vec2 { x: fx + fs.x, y: fy + fs.y }
        },
        EnemyState::WalkBack => {
            let hlen = moving.route_history.len();
            if hlen > 0 {
                let last = moving.route_history[hlen - 1];
                proof {
                    assert(moving.route_history@[hlen - 1].0 <= crate::physics::HIST_IDX_LIMIT);
                }
                let coord = crate::grid::get_coordinates(last.0, last.1);
                Vec2 { x: coord.x - position.x, y: coord.y - position.y }
            } else {
                Vec2 { x: 0, y: 0 }
            }
        },
    };
    update_velocity(moving, desired, dt_ms);
}

} // verus!
