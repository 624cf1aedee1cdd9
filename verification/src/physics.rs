//! Axis-aligned collision detection and resolution, and the mover state that
//! the movement pass integrates.
//!
//! Detection classifies which face of a solid's box the mover penetrated.
//! Resolution is a single corrective step: on the first frame a pair newly
//! overlaps, the mover's position is pushed back by its last movement delta,
//! both `hit` flags are set, and the velocity component that would drive
//! further penetration is reflected.  The correction is not retried within a
//! frame, so a pair may stay overlapped for a frame by design.

use vstd::prelude::*;
use crate::vec2::Vec2;

verus! {

/// Largest speed a mover may be configured with, in thousandths of a world
/// unit per second.
pub const SPEED_LIMIT: i64 = 10_000_000;

/// Largest velocity component magnitude the integrator lets a mover reach.
pub const VEL_LIMIT: i64 = 2_010_000_000;

/// Largest movement a mover can make in one frame along one axis.
pub const DELTA_LIMIT: i64 = 10_000_000;

/// Largest width or height of a bounding box.
pub const SIZE_LIMIT: i64 = 200_000_000;

/// Largest grid index a route-history entry may hold.
pub const HIST_IDX_LIMIT: usize = 10_500;

/// Largest coordinate magnitude the collision arithmetic accepts; far beyond
/// any position the game reaches, but safely inside the integer range.
pub const COORD_LIMIT: i64 = 4_000_000_000_000_000;

/// An axis-aligned bounding box attached to a solid or a mover.  `hit` is
/// true for the frame in which an overlap was detected.
#[derive(Clone, Copy, Debug)]
pub struct Collider {
    pub hit: bool,
    pub hit_box: Vec2,
}

impl Collider {
    pub open spec fn wf(self) -> bool {
        0 <= self.hit_box.x <= SIZE_LIMIT && 0 <= self.hit_box.y <= SIZE_LIMIT
    }
}

impl Default for Collider {
    /// An unhit collider spanning eighty world units on each side.
    fn default() -> (c: Collider)
        ensures
            !c.hit,
            c.hit_box.x == 80_000 && c.hit_box.y == 80_000,
    {
        Collider { hit: false, hit_box: Vec2 { x: 80_000, y: 80_000 } }
    }
}

/// Which face of the solid's box the mover's box penetrated, or `Inside`
/// when the mover's box straddles no edge of the solid's box.
#[derive(Clone, Copy, Debug, PartialEq, Eq, Structural)]
pub enum Collision {
    Left,
    Right,
    Top,
    Bottom,
    Inside,
}

/// Whether the two boxes strictly overlap.  Coordinates are doubled so that
/// half-extents stay integral.
pub open spec fn overlaps(a_pos: Vec2, a_size: Vec2, b_pos: Vec2, b_size: Vec2) -> bool {
    &&& 2 * a_pos.x - a_size.x < 2 * b_pos.x + b_size.x
    &&& 2 * a_pos.x + a_size.x > 2 * b_pos.x - b_size.x
    &&& 2 * a_pos.y - a_size.y < 2 * b_pos.y + b_size.y
    &&& 2 * a_pos.y + a_size.y > 2 * b_pos.y - b_size.y
}

/// The face of `b` penetrated along the x axis, with its penetration depth,
/// if `a`'s box straddles `b`'s left or right edge.
pub open spec fn x_face(a_pos: Vec2, a_size: Vec2, b_pos: Vec2, b_size: Vec2) -> Option<
    (Collision, int),
> {
    let a_min = 2 * a_pos.x - a_size.x;
    let a_max = 2 * a_pos.x + a_size.x;
    let b_min = 2 * b_pos.x - b_size.x;
    let b_max = 2 * b_pos.x + b_size.x;
    if a_min < b_min && a_max > b_min && a_max < b_max {
        Some((Collision::Left, a_max - b_min))
    } else if a_min > b_min && a_min < b_max && a_max > b_max {
        Some((Collision::Right, b_max - a_min))
    } else {
        None
    }
}

/// The face of `b` penetrated along the y axis, with its penetration depth,
/// if `a`'s box straddles `b`'s bottom or top edge.
pub open spec fn y_face(a_pos: Vec2, a_size: Vec2, b_pos: Vec2, b_size: Vec2) -> Option<
    (Collision, int),
> {
    let a_min = 2 * a_pos.y - a_size.y;
    let a_max = 2 * a_pos.y + a_size.y;
    let b_min = 2 * b_pos.y - b_size.y;
    let b_max = 2 * b_pos.y + b_size.y;
    if a_min < b_min && a_max > b_min && a_max < b_max {
        Some((Collision::Bottom, a_max - b_min))
    } else if a_min > b_min && a_min < b_max && a_max > b_max {
        Some((Collision::Top, b_max - a_min))
    } else {
        None
    }
}

/// The full collision classification: `None` when the boxes do not overlap;
/// otherwise the straddled face of `b` with the shallower penetration, the
/// x face winning ties, or `Inside` when no edge is straddled.
pub open spec fn collide_spec(a_pos: Vec2, a_size: Vec2, b_pos: Vec2, b_size: Vec2) -> Option<
    Collision,
> {
    if overlaps(a_pos, a_size, b_pos, b_size) {
        match (x_face(a_pos, a_size, b_pos, b_size), y_face(a_pos, a_size, b_pos, b_size)) {
            (Some((cx, dx)), Some((cy, dy))) => if dx <= dy {
                Some(cx)
            } else {
                Some(cy)
            },
            (Some((cx, _)), None) => Some(cx),
            (None, Some((cy, _))) => Some(cy),
            (None, None) => Some(Collision::Inside),
        }
    } else {
        None
    }
}

/// Classifies the overlap of box `a` against box `b`.
pub fn collide(a_pos: Vec2, a_size: Vec2, b_pos: Vec2, b_size: Vec2) -> (r: Option<Collision>)
    requires
        -COORD_LIMIT <= a_pos.x <= COORD_LIMIT && -COORD_LIMIT <= a_pos.y <= COORD_LIMIT,
        -COORD_LIMIT <= b_pos.x <= COORD_LIMIT && -COORD_LIMIT <= b_pos.y <= COORD_LIMIT,
        0 <= a_size.x <= SIZE_LIMIT && 0 <= a_size.y <= SIZE_LIMIT,
        0 <= b_size.x <= SIZE_LIMIT && 0 <= b_size.y <= SIZE_LIMIT,
    ensures
        r == collide_spec(a_pos, a_size, b_pos, b_size),
        r is Some <==> overlaps(a_pos, a_size, b_pos, b_size),
{
    let a_min_x = 2 * a_pos.x - a_size.x;
    let a_max_x = 2 * a_pos.x + a_size.x;
    let b_min_x = 2 * b_pos.x - b_size.x;
    let b_max_x = 2 * b_pos.x + b_size.x;
    let a_min_y = 2 * a_pos.y - a_size.y;
    let a_max_y = 2 * a_pos.y + a_size.y;
    let b_min_y = 2 * b_pos.y - b_size.y;
    let b_max_y = 2 * b_pos.y + b_size.y;
    if !(a_min_x < b_max_x && a_max_x > b_min_x && a_min_y < b_max_y && a_max_y > b_min_y) {
        return None;
    }
    let xf: Option<(Collision, i64)> = if a_min_x < b_min_x && a_max_x > b_min_x && a_max_x
        < b_max_x {
        Some((Collision::Left, a_max_x - b_min_x))
    } else if a_min_x > b_min_x && a_min_x < b_max_x && a_max_x > b_max_x {
        Some((Collision::Right, b_max_x - a_min_x))
    } else {
        None
    };
    let yf: Option<(Collision, i64)> = if a_min_y < b_min_y && a_max_y > b_min_y && a_max_y
        < b_max_y {
        Some((Collision::Bottom, a_max_y - b_min_y))
    } else if a_min_y > b_min_y && a_min_y < b_max_y && a_max_y > b_max_y {
        Some((Collision::Top, b_max_y - a_min_y))
    } else {
        None
    };
    match (xf, yf) {
        (Some((cx, dx)), Some((cy, dy))) => if dx <= dy {
            Some(cx)
        } else {
            Some(cy)
        },
        (Some((cx, _)), None) => Some(cx),
        (None, Some((cy, _))) => Some(cy),
        (None, None) => Some(Collision::Inside),
    }
}

/// Behavioural mode of a mover: moving normally toward where it is steered,
/// or retracing its recorded route backward.
#[derive(Clone, Copy, Debug, PartialEq, Eq, Structural)]
pub enum MovingState {
    Normal,
    Retrace,
}

/// The integrated state of a mobile entity.
#[derive(Clone, Debug)]
pub struct Moving {
    pub state: MovingState,
    /// Current velocity, in thousandths of a world unit per second.
    pub velocity: Vec2,
    /// Nominal speed: the length the movement pass scales velocity to.
    pub speed: i64,
    /// Grid cells visited while moving normally, most recent last, with no
    /// two adjacent equal entries.
    pub route_history: Vec<(usize, usize)>,
    /// The movement applied on the most recent frame, if any.
    pub last_delta: Option<Vec2>,
}

/// Route histories hold in-range cells and never two adjacent equal entries.
pub open spec fn history_wf(h: Seq<(usize, usize)>) -> bool {
    &&& forall|i: int|
        0 <= i < h.len() ==> #[trigger] h[i].0 <= HIST_IDX_LIMIT && h[i].1 <= HIST_IDX_LIMIT
    &&& forall|i: int| 0 < i < h.len() ==> #[trigger] h[i] != h[i - 1]
}

impl Moving {
    pub open spec fn wf(self) -> bool {
        &&& -VEL_LIMIT <= self.velocity.x <= VEL_LIMIT
        &&& -VEL_LIMIT <= self.velocity.y <= VEL_LIMIT
        &&& 0 <= self.speed <= SPEED_LIMIT
        &&& match self.last_delta {
            Some(d) => -DELTA_LIMIT <= d.x <= DELTA_LIMIT && -DELTA_LIMIT <= d.y <= DELTA_LIMIT,
            None => true,
        }
        &&& history_wf(self.route_history@)
    }

    /// A fresh mover with empty history, pointing along the x axis.
    pub fn new(velocity: Vec2) -> (m: Moving)
        requires
            velocity.x * velocity.x + velocity.y * velocity.y <= SPEED_LIMIT * SPEED_LIMIT,
        ensures
            m.velocity == velocity,
            m.speed == crate::vec2::sqrt_floor(velocity.x * velocity.x + velocity.y * velocity.y),
            m.state is Normal,
            m.route_history@ =~= Seq::<(usize, usize)>::empty(),
            m.last_delta is None,
            m.wf(),
    {
        proof {
            assert(velocity.x * velocity.x >= 0 && velocity.y * velocity.y >= 0)
                by (nonlinear_arith);
            assert(-SPEED_LIMIT <= velocity.x <= SPEED_LIMIT && -SPEED_LIMIT <= velocity.y
                <= SPEED_LIMIT) by (nonlinear_arith)
                requires
                    velocity.x * velocity.x + velocity.y * velocity.y <= SPEED_LIMIT * SPEED_LIMIT,
                    velocity.x * velocity.x >= 0 && velocity.y * velocity.y >= 0;
        }
        let speed = crate::vec2::length(velocity.x, velocity.y);
        proof {
            assert(speed <= SPEED_LIMIT) by (nonlinear_arith)
                requires
                    speed >= 0,
                    speed * speed <= velocity.x * velocity.x + velocity.y * velocity.y,
                    velocity.x * velocity.x + velocity.y * velocity.y <= SPEED_LIMIT * SPEED_LIMIT;
        }
        Moving {
            state: MovingState::Normal,
            velocity,
            speed,
            route_history: Vec::new(),
            last_delta: None,
        }
    }
}

impl Default for Moving {
    /// A mover at rest, pointing along the x axis, with empty history.
    fn default() -> (m: Moving)
        ensures
            m.state is Normal,
            m.velocity.x == 1000 && m.velocity.y == 0,
            m.speed == 0,
            m.route_history@ =~= Seq::<(usize, usize)>::empty(),
            m.last_delta is None,
            m.wf(),
    {
        Moving {
            state: MovingState::Normal,
            velocity: Vec2 { x: 1000, y: 0 },
            speed: 0,
            route_history: Vec::new(),
            last_delta: None,
        }
    }
}

/// A static obstacle: a positioned box, optionally the target ("tower").
#[derive(Clone, Debug)]
pub struct Solid {
    pub position: Vec2,
    pub collider: Collider,
    pub is_target: bool,
}

impl Solid {
    pub open spec fn wf(self) -> bool {
        &&& -COORD_LIMIT <= self.position.x <= COORD_LIMIT
        &&& -COORD_LIMIT <= self.position.y <= COORD_LIMIT
        &&& self.collider.wf()
    }
}

/// Positions the per-frame passes accept: far enough inside the world bound
/// that one frame of movement or correction cannot leave it.
pub open spec fn pos_ok(v: Vec2) -> bool {
    -990_000_000 <= v.x <= 990_000_000 && -990_000_000 <= v.y <= 990_000_000
}

/// A mobile entity: a positioned box with movement state.
#[derive(Clone, Debug)]
pub struct Mover {
    pub position: Vec2,
    pub collider: Collider,
    pub moving: Moving,
}

impl Mover {
    pub open spec fn wf(self) -> bool {
        self.collider.wf() && self.moving.wf()
    }

    /// Positions the collision arithmetic accepts.
    pub open spec fn pos_in_range(self) -> bool {
        -COORD_LIMIT <= self.position.x <= COORD_LIMIT && -COORD_LIMIT <= self.position.y
            <= COORD_LIMIT
    }
}

/// Which velocity components a face classification reflects: the component
/// whose sign would drive further penetration; both for `Inside`.
pub open spec fn reflect_flags(c: Collision, v: Vec2) -> (bool, bool) {
    match c {
        Collision::Left => (v.x > 0, false),
        Collision::Right => (v.x < 0, false),
        Collision::Bottom => (false, v.y > 0),
        Collision::Top => (false, v.y < 0),
        Collision::Inside => (true, true),
    }
}

/// The velocity after reflection against the given face.
pub open spec fn reflect_spec(c: Collision, v: Vec2) -> Vec2 {
    let flags = reflect_flags(c, v);
    Vec2 {
        x: if flags.0 {
            (-v.x) as i64
        } else {
            v.x
        },
        y: if flags.1 {
            (-v.y) as i64
        } else {
            v.y
        },
    }
}

/// One resolution step for a mover/solid pair.  On a new overlap the mover
/// is pushed back by its last movement delta and reflected; on a repeated
/// overlap only the flags and reflection apply; with no overlap the mover's
/// `hit` flag clears and nothing else changes.
pub open spec fn resolve_pair_spec(m: Mover, s: Solid) -> (Mover, Solid) {
    match collide_spec(m.position, m.collider.hit_box, s.position, s.collider.hit_box) {
        Some(c) => {
            let position = if m.collider.hit {
                m.position
            } else {
                match m.moving.last_delta {
                    Some(d) => Vec2 {
                        x: (m.position.x - d.x) as i64,
                        y: (m.position.y - d.y) as i64,
                    },
                    None => m.position,
                }
            };
            (
                Mover {
                    position,
                    collider: Collider { hit: true, hit_box: m.collider.hit_box },
                    moving: Moving {
                        velocity: reflect_spec(c, m.moving.velocity),
                        ..m.moving
                    },
                },
                Solid { collider: Collider { hit: true, hit_box: s.collider.hit_box }, ..s },
            )
        },
        None => (
            Mover { collider: Collider { hit: false, hit_box: m.collider.hit_box }, ..m },
            s,
        ),
    }
}

/// Resolves one mover/solid pair in place.
pub fn resolve_pair(m: &mut Mover, s: &mut Solid)
    requires
        old(m).wf(),
        old(s).wf(),
        old(m).pos_in_range(),
    ensures
        (*final(m), *final(s)) == resolve_pair_spec(*old(m), *old(s)),
        final(m).wf(),
        final(s).wf(),
        old(m).position.x - DELTA_LIMIT <= final(m).position.x <= old(m).position.x + DELTA_LIMIT,
        old(m).position.y - DELTA_LIMIT <= final(m).position.y <= old(m).position.y + DELTA_LIMIT,
        final(m).moving.route_history == old(m).moving.route_history,
        final(m).moving.state == old(m).moving.state,
        final(s).position == old(s).position,
{
    let c = collide(m.position, m.collider.hit_box, s.position, s.collider.hit_box);
    match c {
        Some(face) => {
            if m.collider.hit {
                // Repeated overlap: the single corrective step did not
                // separate the pair; only flags and reflection apply.
            } else {
                match m.moving.last_delta {
                    Some(d) => {
                        m.position = Vec2 { x: m.position.x - d.x, y: m.position.y - d.y };
                    },
                    None => {},
                }
            }
            s.collider.hit = true;
            m.collider.hit = true;
            let reflect_x = match face {
                Collision::Left => m.moving.velocity.x > 0,
                Collision::Right => m.moving.velocity.x < 0,
                Collision::Bottom => false,
                Collision::Top => false,
                Collision::Inside => true,
            };
            let reflect_y = match face {
                Collision::Left => false,
                Collision::Right => false,
                Collision::Bottom => m.moving.velocity.y > 0,
                Collision::Top => m.moving.velocity.y < 0,
                Collision::Inside => true,
            };
            if reflect_x {
                m.moving.velocity.x = -m.moving.velocity.x;
            }
            if reflect_y {
                m.moving.velocity.y = -m.moving.velocity.y;
            }
        },
        None => {
            m.collider.hit = false;
        },
    }
}

/// The movement applied in one frame: the velocity normalised by its floored
/// length, scaled by the nominal speed, then by the frame time in
/// milliseconds.  A zero velocity moves nowhere.
pub open spec fn move_delta_spec(v: Vec2, speed: int, dt: int) -> (int, int) {
    let n = crate::vec2::sqrt_floor(v.x * v.x + v.y * v.y);
    if n == 0 {
        (0, 0)
    } else {
        (
            crate::vec2::div_trunc(crate::vec2::div_trunc(v.x * speed, n) * dt, 1000),
            crate::vec2::div_trunc(crate::vec2::div_trunc(v.y * speed, n) * dt, 1000),
        )
    }
}

/// Computes one frame of movement along the given velocity.
pub fn move_delta(v: Vec2, speed: i64, dt_ms: i64) -> (d: Vec2)
    requires
        -VEL_LIMIT <= v.x <= VEL_LIMIT,
        -VEL_LIMIT <= v.y <= VEL_LIMIT,
        0 <= speed <= SPEED_LIMIT,
        1 <= dt_ms <= 1000,
    ensures
        (d.x as int, d.y as int) == move_delta_spec(v, speed as int, dt_ms as int),
        -DELTA_LIMIT <= d.x <= DELTA_LIMIT,
        -DELTA_LIMIT <= d.y <= DELTA_LIMIT,
{
    let n = crate::vec2::length(v.x, v.y);
    if n == 0 {
        return Vec2 { x: 0, y: 0 };
    }
    proof {
        let d2 = v.x * v.x + v.y * v.y;
        assert(-(n as int) <= v.x <= n as int && -(n as int) <= v.y <= n as int)
            by (nonlinear_arith)
            requires
                n >= 0,
                (n as int) * (n as int) <= d2 < (n as int + 1) * (n as int + 1),
                d2 == v.x * v.x + v.y * v.y;
        assert(-(VEL_LIMIT as int) * SPEED_LIMIT <= v.x * speed <= (VEL_LIMIT as int) * SPEED_LIMIT
            && -(VEL_LIMIT as int) * SPEED_LIMIT <= v.y * speed <= (VEL_LIMIT as int) * SPEED_LIMIT)
            by (nonlinear_arith)
            requires
                -VEL_LIMIT <= v.x <= VEL_LIMIT,
                -VEL_LIMIT <= v.y <= VEL_LIMIT,
                0 <= speed <= SPEED_LIMIT;
    }
    let px = crate::vec2::div_toward_zero(v.x * speed, n);
    let py = crate::vec2::div_toward_zero(v.y * speed, n);
    proof {
        crate::vec2::lemma_scale_bound(v.x as int, speed as int, n as int);
        crate::vec2::lemma_scale_bound(v.y as int, speed as int, n as int);
        assert(-(1000 * (speed as int)) <= px * dt_ms <= 1000 * (speed as int)
            && -(1000 * (speed as int)) <= py * dt_ms <= 1000 * (speed as int))
            by (nonlinear_arith)
            requires
                -speed <= px <= speed,
                -speed <= py <= speed,
                1 <= dt_ms <= 1000,
                speed >= 0;
    }
    let dx = crate::vec2::div_toward_zero(px * dt_ms, 1000);
    let dy = crate::vec2::div_toward_zero(py * dt_ms, 1000);
    proof {
        crate::vec2::lemma_div_shrink(px * dt_ms, 1000, speed as int);
        crate::vec2::lemma_div_shrink(py * dt_ms, 1000, speed as int);
    }
    Vec2 { x: dx, y: dy }
}

/// The pair of grid indices of a world position.
pub open spec fn cell_of(pos: Vec2) -> (usize, usize) {
    (
        crate::grid::index_of(pos.x as int) as usize,
        crate::grid::index_of(pos.y as int) as usize,
    )
}

/// The route history after a normal movement frame: the cell arrived in is
/// appended when it differs from the most recent entry.
pub open spec fn normal_history_spec(h: Seq<(usize, usize)>, cell: (usize, usize)) -> Seq<
    (usize, usize),
> {
    if h.len() == 0 || h.last() != cell {
        h.push(cell)
    } else {
        h
    }
}

/// The route history after a retracing frame: the most recent entry is
/// popped once the mover stands in its cell.
pub open spec fn retrace_history_spec(h: Seq<(usize, usize)>, cell: (usize, usize)) -> Seq<
    (usize, usize),
> {
    if h.len() > 0 && h.last() == cell {
        h.drop_last()
    } else {
        h
    }
}

/// The direction a retracing mover moves along: toward the centre of the
/// most recent recorded cell, or nowhere once the route is fully retraced —
/// the mover then rests where it stands, by design.
pub open spec fn retrace_dir_spec(h: Seq<(usize, usize)>, pos: Vec2) -> Vec2 {
    if h.len() > 0 {
        Vec2 {
            x: (crate::grid::coordinate_of(h.last().0 as int) - pos.x) as i64,
            y: (crate::grid::coordinate_of(h.last().1 as int) - pos.y) as i64,
        }
    } else {
        Vec2 { x: 0, y: 0 }
    }
}

/// How one frame of movement relates a mover's state to its next state.
pub open spec fn move_step_rel(m0: Mover, m1: Mover, dt: int) -> bool {
    match m0.moving.state {
        MovingState::Normal => {
            let d = move_delta_spec(m0.moving.velocity, m0.moving.speed as int, dt);
            let pos1 = Vec2 { x: (m0.position.x + d.0) as i64, y: (m0.position.y + d.1) as i64 };
            &&& m1.position == pos1
            &&& m1.moving.last_delta == Some(Vec2 { x: d.0 as i64, y: d.1 as i64 })
            &&& m1.moving.route_history@ == normal_history_spec(
                m0.moving.route_history@,
                cell_of(pos1),
            )
            &&& m1.moving.velocity == m0.moving.velocity
            &&& m1.moving.speed == m0.moving.speed
            &&& m1.moving.state == m0.moving.state
            &&& m1.collider == m0.collider
        },
        MovingState::Retrace => {
            let h1 = retrace_history_spec(m0.moving.route_history@, cell_of(m0.position));
            let dir = retrace_dir_spec(h1, m0.position);
            let d = move_delta_spec(dir, m0.moving.speed as int, dt);
            let pos1 = Vec2 { x: (m0.position.x + d.0) as i64, y: (m0.position.y + d.1) as i64 };
            &&& m1.position == pos1
            &&& m1.moving.last_delta == Some(Vec2 { x: d.0 as i64, y: d.1 as i64 })
            &&& m1.moving.route_history@ == h1
            &&& m1.moving.velocity == m0.moving.velocity
            &&& m1.moving.speed == m0.moving.speed
            &&& m1.moving.state == m0.moving.state
            &&& m1.collider == m0.collider
        },
    }
}

/// Applies one frame of movement to a mover: normal movers advance along
/// their velocity and record the cell they arrive in; retracing movers pop
/// the cell they stand in and walk toward the previous one, coming to rest
/// once the route is fully retraced.  The history of a normal mover never
/// shrinks and keeps no two adjacent equal entries; the history of a
/// retracing mover never grows.
pub fn move_step(m: &mut Mover, dt_ms: i64)
    requires
        old(m).wf(),
        pos_ok(old(m).position),
        1 <= dt_ms <= 1000,
    ensures
        move_step_rel(*old(m), *final(m), dt_ms as int),
        final(m).wf(),
        final(m).position.in_world(),
        old(m).position.x - DELTA_LIMIT <= final(m).position.x <= old(m).position.x + DELTA_LIMIT,
        old(m).position.y - DELTA_LIMIT <= final(m).position.y <= old(m).position.y + DELTA_LIMIT,
        old(m).moving.state is Normal ==> final(m).moving.route_history@.len() >= old(
            m,
        ).moving.route_history@.len(),
        old(m).moving.state is Retrace ==> final(m).moving.route_history@.len() <= old(
            m,
        ).moving.route_history@.len(),
{
    match m.moving.state {
        MovingState::Normal => {
            let d = move_delta(m.moving.velocity, m.moving.speed, dt_ms);
            m.moving.last_delta = Some(d);
            m.position = Vec2 { x: m.position.x + d.x, y: m.position.y + d.y };
            let idx = crate::grid::get_indeces(m.position);
            proof {
                crate::grid::lemma_index_of_range(m.position.x as int);
                crate::grid::lemma_index_of_range(m.position.y as int);
            }
            let hlen = m.moving.route_history.len();
            if hlen == 0 {
                m.moving.route_history.push(idx);
            } else {
                let last = m.moving.route_history[hlen - 1];
                if last.0 != idx.0 || last.1 != idx.1 {
                    m.moving.route_history.push(idx);
                }
            }
        },
        MovingState::Retrace => {
            let hlen = m.moving.route_history.len();
            if hlen > 0 {
                let last = m.moving.route_history[hlen - 1];
                let cur = crate::grid::get_indeces(m.position);
                if last.0 == cur.0 && last.1 == cur.1 {
                    m.moving.route_history.pop();
                }
            }
            let hlen2 = m.moving.route_history.len();
            let dir: Vec2 = if hlen2 > 0 {
                let last = m.moving.route_history[hlen2 - 1];
                let coord = crate::grid::get_coordinates(last.0, last.1);
                Vec2 { x: coord.x - m.position.x, y: coord.y - m.position.y }
            } else {
                Vec2 { x: 0, y: 0 }
            };
            let d = move_delta(dir, m.moving.speed, dt_ms);
            m.moving.last_delta = Some(d);
            m.position = Vec2 { x: m.position.x + d.x, y: m.position.y + d.y };
        },
    }
}

/// Applies one frame of movement to every mover, independently.
pub fn move_system(movers: &mut Vec<Mover>, dt_ms: i64)
    requires
        1 <= dt_ms <= 1000,
        forall|i: int|
            0 <= i < old(movers)@.len() ==> (#[trigger] old(movers)@[i]).wf() && pos_ok(
                old(movers)@[i].position,
            ),
    ensures
        final(movers)@.len() == old(movers)@.len(),
        forall|i: int|
            0 <= i < old(movers)@.len() ==> move_step_rel(
                old(movers)@[i],
                #[trigger] final(movers)@[i],
                dt_ms as int,
            ),
        forall|i: int|
            0 <= i < old(movers)@.len() ==> (#[trigger] final(movers)@[i]).wf()
                && final(movers)@[i].position.in_world(),
{
    let n = movers.len();
    let mut i: usize = 0;
    while i < n
        invariant
            i <= n,
            movers@.len() == n,
            old(movers)@.len() == n,
            1 <= dt_ms <= 1000,
            forall|k: int|
                i <= k < n ==> #[trigger] movers@[k] == old(movers)@[k],
            forall|k: int|
                0 <= k < old(movers)@.len() ==> (#[trigger] old(movers)@[k]).wf() && pos_ok(
                    old(movers)@[k].position,
                ),
            forall|k: int|
                0 <= k < i ==> move_step_rel(old(movers)@[k], #[trigger] movers@[k], dt_ms as int),
            forall|k: int|
                0 <= k < i ==> (#[trigger] movers@[k]).wf() && movers@[k].position.in_world(),
        decreases n - i,
    {
        move_step(&mut movers[i], dt_ms);
        i = i + 1;
    }
}

/// The state of a mover after resolving it, in order, against the first `j`
/// solids, together with the updated solids.
pub open spec fn resolve_row_upto(m: Mover, solids: Seq<Solid>, j: int) -> (Mover, Seq<Solid>)
    decreases j,
{
    if j <= 0 {
        (m, solids)
    } else {
        let prev = resolve_row_upto(m, solids, j - 1);
        let step = resolve_pair_spec(prev.0, prev.1[j - 1]);
        (step.0, prev.1.update(j - 1, step.1))
    }
}

/// The state of all movers and solids after resolving, in order, the first
/// `i` movers each against every solid.
pub open spec fn collision_upto(movers: Seq<Mover>, solids: Seq<Solid>, i: int) -> (
    Seq<Mover>,
    Seq<Solid>,
) decreases i {
    if i <= 0 {
        (movers, solids)
    } else {
        let prev = collision_upto(movers, solids, i - 1);
        let row = resolve_row_upto(prev.0[i - 1], prev.1, prev.1.len() as int);
        (prev.0.update(i - 1, row.0), row.1)
    }
}

/// Largest number of solids the collision pass accepts.
pub const SOLID_COUNT_LIMIT: usize = 100_000;

/// Positions the collision pass accepts on entry: enough slack under
/// `COORD_LIMIT` that one pass over at most `SOLID_COUNT_LIMIT` solids
/// cannot push a mover out of range.
pub open spec fn pass_pos_ok(v: Vec2) -> bool {
    &&& -1_000_000_000_000_000 <= v.x <= 1_000_000_000_000_000
    &&& -1_000_000_000_000_000 <= v.y <= 1_000_000_000_000_000
}

/// Resolves every mover, in order, against every solid, in order: the whole
/// collision pass of one frame.
pub fn collision_system(movers: &mut Vec<Mover>, solids: &mut Vec<Solid>)
    requires
        forall|i: int|
            0 <= i < old(movers)@.len() ==> (#[trigger] old(movers)@[i]).wf() && pass_pos_ok(
                old(movers)@[i].position,
            ),
        forall|j: int| 0 <= j < old(solids)@.len() ==> (#[trigger] old(solids)@[j]).wf(),
        old(solids)@.len() <= SOLID_COUNT_LIMIT,
    ensures
        final(movers)@.len() == old(movers)@.len(),
        final(solids)@.len() == old(solids)@.len(),
        (final(movers)@, final(solids)@) == collision_upto(
            old(movers)@,
            old(solids)@,
            old(movers)@.len() as int,
        ),
        forall|i: int| 0 <= i < final(movers)@.len() ==> (#[trigger] final(movers)@[i]).wf(),
        forall|j: int| 0 <= j < final(solids)@.len() ==> (#[trigger] final(solids)@[j]).wf(),
{
    let n = movers.len();
    let ns = solids.len();
    let mut i: usize = 0;
    while i < n
        invariant
            i <= n,
            movers@.len() == n,
            solids@.len() == ns,
            old(movers)@.len() == n,
            old(solids)@.len() == ns,
            ns <= SOLID_COUNT_LIMIT,
            (movers@, solids@) == collision_upto(old(movers)@, old(solids)@, i as int),
            forall|k: int| i <= k < n ==> #[trigger] movers@[k] == old(movers)@[k],
            forall|k: int| 0 <= k < n ==> (#[trigger] movers@[k]).wf(),
            forall|j: int| 0 <= j < ns ==> (#[trigger] solids@[j]).wf(),
            forall|k: int|
                0 <= k < n ==> (#[trigger] old(movers)@[k]).wf() && pass_pos_ok(
                    old(movers)@[k].position,
                ),
        decreases n - i,
    {
        let ghost m_outer = movers@;
        let ghost s_enter = solids@;
        let ghost m_i = movers@[i as int];
        let mut j: usize = 0;
        while j < ns
            invariant
                j <= ns,
                i < n,
                movers@.len() == n,
                solids@.len() == ns,
                ns <= SOLID_COUNT_LIMIT,
                s_enter.len() == ns,
                (movers@[i as int], solids@) == resolve_row_upto(m_i, s_enter, j as int),
                forall|k: int| 0 <= k < n && k != i ==> #[trigger] movers@[k] == m_outer[k],
                forall|k: int| 0 <= k < n ==> (#[trigger] movers@[k]).wf(),
                forall|jj: int| 0 <= jj < ns ==> (#[trigger] solids@[jj]).wf(),
                m_i.wf(),
                pass_pos_ok(m_i.position),
                m_i.position.x - (j as int) * DELTA_LIMIT <= movers@[i as int].position.x
                    <= m_i.position.x + (j as int) * DELTA_LIMIT,
                m_i.position.y - (j as int) * DELTA_LIMIT <= movers@[i as int].position.y
                    <= m_i.position.y + (j as int) * DELTA_LIMIT,
            decreases ns - j,
        {
            proof {
                assert(0 <= (j as int) * DELTA_LIMIT <= (SOLID_COUNT_LIMIT as int) * DELTA_LIMIT)
                    by (nonlinear_arith)
                    requires 0 <= j <= SOLID_COUNT_LIMIT && DELTA_LIMIT == 10_000_000;
            }
            let ghost movers_before = movers@;
            let ghost solids_before = solids@;
            resolve_pair(&mut movers[i], &mut solids[j]);
            proof {
                let prev = resolve_row_upto(m_i, s_enter, j as int);
                let step = resolve_pair_spec(prev.0, prev.1[j as int]);
                assert(solids@ =~= prev.1.update(j as int, step.1));
            }
            j = j + 1;
        }
        proof {
            let prev = collision_upto(old(movers)@, old(solids)@, i as int);
            let row = resolve_row_upto(m_i, s_enter, ns as int);
            assert(movers@ =~= prev.0.update(i as int, row.0));
        }
        i = i + 1;
    }
}

/// Whether a new emitter at `position` would sit on top of a solid: a box
/// of one world unit around the position is tested against every solid's
/// box.  A blocked placement is rejected silently by the caller.
pub fn placement_blocked(position: Vec2, solids: &Vec<Solid>) -> (b: bool)
    requires
        -COORD_LIMIT <= position.x <= COORD_LIMIT,
        -COORD_LIMIT <= position.y <= COORD_LIMIT,
        forall|j: int| 0 <= j < solids@.len() ==> (#[trigger] solids@[j]).wf(),
    ensures
        b == (exists|j: int|
            0 <= j < solids@.len() && overlaps(
                position,
                Vec2 { x: 1000, y: 1000 },
                (#[trigger] solids@[j]).position,
                solids@[j].collider.hit_box,
            )),
{
    let n = solids.len();
    let mut j: usize = 0;
    while j < n
        invariant
            j <= n,
            n == solids@.len(),
            -COORD_LIMIT <= position.x <= COORD_LIMIT,
            -COORD_LIMIT <= position.y <= COORD_LIMIT,
            forall|k: int| 0 <= k < solids@.len() ==> (#[trigger] solids@[k]).wf(),
            forall|k: int|
                0 <= k < j ==> !overlaps(
                    position,
                    Vec2 { x: 1000, y: 1000 },
                    (#[trigger] solids@[k]).position,
                    solids@[k].collider.hit_box,
                ),
        decreases n - j,
    {
        let s = &solids[j];
        let hit = collide(position, Vec2 { x: 1000, y: 1000 }, s.position, s.collider.hit_box);
        if hit.is_some() {
            proof {
                assert(overlaps(
                    position,
                    Vec2 { x: 1000, y: 1000 },
                    solids@[j as int].position,
                    solids@[j as int].collider.hit_box,
                ));
            }
            return true;
        }
        j = j + 1;
    }
    false
}

/// The target entry of a layout: position and box of the first solid
/// flagged as target, scanning from index `k` on.
pub open spec fn first_target_from(solids: Seq<Solid>, k: int) -> Option<(Vec2, Vec2)>
    decreases solids.len() - k,
{
    if k < 0 || k >= solids.len() {
        None
    } else if solids[k].is_target {
        Some((solids[k].position, solids[k].collider.hit_box))
    } else {
        first_target_from(solids, k + 1)
    }
}

/// The entries of the non-target solids among the first `k`, in order.
pub open spec fn non_target_entries(solids: Seq<Solid>, k: int) -> Seq<(Vec2, Vec2)>
    decreases k,
{
    if k <= 0 {
        Seq::empty()
    } else {
        let prev = non_target_entries(solids, k - 1);
        if solids[k - 1].is_target {
            prev
        } else {
            prev.push((solids[k - 1].position, solids[k - 1].collider.hit_box))
        }
    }
}

/// Splits the current layout for field regeneration: the first target's
/// entry — several targets are a configuration error, and the first one
/// wins — and every non-target solid's entry, in order.
pub fn layout_split(solids: &Vec<Solid>) -> (r: (Option<(Vec2, Vec2)>, Vec<(Vec2, Vec2)>))
    ensures
        r.0 == first_target_from(solids@, 0),
        r.1@ == non_target_entries(solids@, solids@.len() as int),
{
    let n = solids.len();
    let mut target: Option<(Vec2, Vec2)> = None;
    let mut rest: Vec<(Vec2, Vec2)> = Vec::new();
    let mut k: usize = 0;
    while k < n
        invariant
            k <= n,
            n == solids@.len(),
            rest@ == non_target_entries(solids@, k as int),
            target is None ==> first_target_from(solids@, 0) == first_target_from(
                solids@,
                k as int,
            ),
            target is Some ==> first_target_from(solids@, 0) == target,
        decreases n - k,
    {
        let s = &solids[k];
        if s.is_target {
            if target.is_none() {
                target = Some((s.position, s.collider.hit_box));
            }
        } else {
            rest.push((s.position, s.collider.hit_box));
        }
        k = k + 1;
    }
    (target, rest)
}

/// Resolving a mover against a row of solids never clears a solid's hit
/// flag: resolution only sets it.
proof fn lemma_row_keeps_solid_hits(m: Mover, solids: Seq<Solid>, j: int, k: int)
    requires
        0 <= j <= solids.len(),
        0 <= k < solids.len(),
        solids[k].collider.hit,
    ensures
        resolve_row_upto(m, solids, j).1.len() == solids.len(),
        resolve_row_upto(m, solids, j).1[k].collider.hit,
    decreases j,
{
    if j > 0 {
        lemma_row_keeps_solid_hits(m, solids, j - 1, k);
    }
}

/// The "target was hit" event latches: once a solid's hit flag is set,
/// resolving any number of further movers against the layout never clears
/// it, so the physical event the game-state manager consumes survives the
/// rest of the collision pass.
pub proof fn lemma_collision_pass_keeps_solid_hits(
    movers: Seq<Mover>,
    solids: Seq<Solid>,
    i: int,
    k: int,
)
    requires
        0 <= i <= movers.len(),
        0 <= k < solids.len(),
        solids[k].collider.hit,
    ensures
        collision_upto(movers, solids, i).1.len() == solids.len(),
        collision_upto(movers, solids, i).1[k].collider.hit,
    decreases i,
{
    if i > 0 {
        lemma_collision_pass_keeps_solid_hits(movers, solids, i - 1, k);
        let prev = collision_upto(movers, solids, i - 1);
        lemma_row_keeps_solid_hits(prev.0[i - 1], prev.1, prev.1.len() as int, k);
    }
}

/// Resolving a pair a second time, with no movement in between, leaves the
/// mover where the first resolution put it, provided the first step achieved
/// separation.  (When it did not, the repeated overlap is the documented
/// exception: the step is not retried within a frame.)
pub proof fn lemma_collision_idempotent(m: Mover, s: Solid)
    requires
        !overlaps(
            resolve_pair_spec(m, s).0.position,
            resolve_pair_spec(m, s).0.collider.hit_box,
            resolve_pair_spec(m, s).1.position,
            resolve_pair_spec(m, s).1.collider.hit_box,
        ),
    ensures
        resolve_pair_spec(resolve_pair_spec(m, s).0, resolve_pair_spec(m, s).1).0.position
            == resolve_pair_spec(m, s).0.position,
        resolve_pair_spec(resolve_pair_spec(m, s).0, resolve_pair_spec(m, s).1).0.moving
            == resolve_pair_spec(m, s).0.moving,
{
}

} // verus!
