//! The spawn queue: requests for wandering visitors, each with a delay,
//! drained as their timers run out.  Requests queued in one tick are handed
//! out before the next tick's movement pass, in queue order.

use vstd::prelude::*;
use crate::enemies::ATTENTION_LIMIT;
use crate::force::{ForceType, INFLUENCE_LIMIT};
use crate::physics::Moving;
use crate::vec2::Vec2;

verus! {

/// Largest spawn delay a request may carry, in milliseconds.
pub const DELAY_LIMIT: i64 = 86_400_000;

/// A request to spawn one wandering visitor.
#[derive(Clone, Copy, Debug)]
pub struct EnemySpawn {
    /// Milliseconds until the visitor appears.
    pub delay_ms: i64,
    /// The influence radius the visitor emits with.
    pub influence: i64,
    /// What kind of emitter the visitor itself is.
    pub force_type: ForceType,
    /// How long the visitor seeks before turning around.
    pub attention_ms: i64,
    /// Where the visitor appears.
    pub location: Vec2,
}

impl EnemySpawn {
    pub open spec fn wf(self) -> bool {
        &&& 0 <= self.delay_ms <= DELAY_LIMIT
        &&& 0 <= self.influence <= INFLUENCE_LIMIT
        &&& 0 <= self.attention_ms <= ATTENTION_LIMIT
        &&& self.location.in_world()
    }
}

impl Default for EnemySpawn {
    /// A visitor that appears at once at the left edge of the playfield, at
    /// a random height, passively blocking, with a fifteen-second attention
    /// span and an influence radius of eighty world units.
    fn default() -> (e: EnemySpawn)
        ensures
            e.delay_ms == 0,
            e.influence == 80_000,
            e.force_type is Passive,
            e.attention_ms == 15_000,
            e.location.x == -688_000,
            -36_000 <= e.location.y < 36_000,
            e.wf(),
    {
        let height = crate::rng::jitter(-36_000, 36_000);
        EnemySpawn {
            delay_ms: 0,
            influence: 80_000,
            force_type: ForceType::Passive,
            attention_ms: 15_000,
            location: Vec2 { x: -688_000, y: height },
        }
    }
}

/// The request with its delay reduced by one frame.
pub open spec fn ticked(e: EnemySpawn, dt: int) -> EnemySpawn {
    EnemySpawn { delay_ms: (e.delay_ms - dt) as i64, ..e }
}

/// The requests among the first `k` that stay queued after a frame of
/// `dt` milliseconds, their delays reduced, in order.
pub open spec fn kept_upto(q: Seq<EnemySpawn>, dt: int, k: int) -> Seq<EnemySpawn>
    decreases k,
{
    if k <= 0 {
        Seq::empty()
    } else {
        let prev = kept_upto(q, dt, k - 1);
        if q[k - 1].delay_ms <= dt {
            prev
        } else {
            prev.push(ticked(q[k - 1], dt))
        }
    }
}

/// The requests among the first `k` whose delay runs out within a frame of
/// `dt` milliseconds, in order.
pub open spec fn spawned_upto(q: Seq<EnemySpawn>, dt: int, k: int) -> Seq<EnemySpawn>
    decreases k,
{
    if k <= 0 {
        Seq::empty()
    } else {
        let prev = spawned_upto(q, dt, k - 1);
        if q[k - 1].delay_ms <= dt {
            prev.push(q[k - 1])
        } else {
            prev
        }
    }
}

/// Advances the spawn queue by one frame: requests whose delay has run out
/// leave the queue and are returned, in order, for the spawner to act on;
/// the rest stay with their delay reduced.  The first result reports
/// whether the queue was already empty — the wave is over.
pub fn tick_wave(queue: &mut Vec<EnemySpawn>, dt_ms: i64) -> (r: (bool, Vec<EnemySpawn>))
    requires
        1 <= dt_ms <= 1000,
        forall|k: int| 0 <= k < old(queue)@.len() ==> (#[trigger] old(queue)@[k]).wf(),
    ensures
        r.0 == (old(queue)@.len() == 0),
        final(queue)@ == kept_upto(old(queue)@, dt_ms as int, old(queue)@.len() as int),
        r.1@ == spawned_upto(old(queue)@, dt_ms as int, old(queue)@.len() as int),
        forall|k: int| 0 <= k < final(queue)@.len() ==> (#[trigger] final(queue)@[k]).wf(),
        forall|k: int| 0 <= k < r.1@.len() ==> (#[trigger] r.1@[k]).wf(),
{
    let was_empty = queue.len() == 0;
    let n = queue.len();
    let mut kept: Vec<EnemySpawn> = Vec::new();
    let mut spawned: Vec<EnemySpawn> = Vec::new();
    let mut k: usize = 0;
    while k < n
        invariant
            k <= n,
            n == queue@.len(),
            1 <= dt_ms <= 1000,
            forall|j: int| 0 <= j < queue@.len() ==> (#[trigger] queue@[j]).wf(),
            kept@ == kept_upto(queue@, dt_ms as int, k as int),
            spawned@ == spawned_upto(queue@, dt_ms as int, k as int),
            forall|j: int| 0 <= j < kept@.len() ==> (#[trigger] kept@[j]).wf(),
            forall|j: int| 0 <= j < spawned@.len() ==> (#[trigger] spawned@[j]).wf(),
        decreases n - k,
    {
        let e = queue[k];
        if e.delay_ms <= dt_ms {
            spawned.push(e);
        } else {
            kept.push(
                EnemySpawn {
                    delay_ms: e.delay_ms - dt_ms,
                    influence: e.influence,
                    force_type: e.force_type,
                    attention_ms: e.attention_ms,
                    location: e.location,
                },
            );
        }
        k = k + 1;
    }
    *queue = kept;
    (was_empty, spawned)
}

/// The movement state a freshly spawned visitor starts with: walking right
/// at a speed of one hundred fifty world units a second, give or take a
/// random quarter of that.
pub fn spawn_visitor_moving() -> (m: Moving)
    ensures
        m.state is Normal,
        m.route_history@ =~= Seq::<(usize, usize)>::empty(),
        m.last_delta is None,
        125_000 <= m.velocity.x < 175_000,
        m.velocity.y == 0,
        m.speed == m.velocity.x,
        m.wf(),
{
    let delta = crate::rng::jitter(-25_000, 25_000);
    let vx = 150_000 + delta;
    proof {
        assert(vx * vx <= crate::physics::SPEED_LIMIT * crate::physics::SPEED_LIMIT)
            by (nonlinear_arith)
            requires 0 < vx < 175_000;
    }
    let m = Moving::new(Vec2 { x: vx, y: 0 });
    proof {
        assert(crate::vec2::isqrt_spec(vx * vx + 0 * 0, vx as int)) by (nonlinear_arith)
            requires vx > 0;
        crate::vec2::lemma_sqrt_floor(vx * vx + 0 * 0, vx as int);
    }
    m
}

} // verus!
