//! Influence emitters.  An emitter either attracts movers toward it, repels
//! them away from it, or is passive and exerts no force at all.  An active
//! emitter contributes a force of magnitude `newton` whenever the scaled
//! distance between it and the queried point lies strictly between zero and
//! its influence radius.

use vstd::prelude::*;
use crate::vec2::{Vec2, div_trunc, length, mag2, sqrt_floor, MAG_LIMIT};

verus! {

/// Largest strength an emitter may have, in thousandths of a newton.
pub const NEWTON_LIMIT: i64 = 10_000_000;

/// Largest influence radius an emitter may have, in thousandths of a world
/// unit.
pub const INFLUENCE_LIMIT: i64 = 500_000_000;

#[derive(Clone, Copy, Debug, PartialEq, Eq, Structural)]
pub enum ForceType {
    Passive,
    Attract,
    Repel,
}

impl ForceType {
    /// What placing an emitter of this type costs, in points.
    pub open spec fn price_spec(self) -> int {
        match self {
            ForceType::Passive => 30,
            ForceType::Attract => 50,
            ForceType::Repel => 45,
        }
    }

    pub fn price(&self) -> (p: i64)
        ensures
            p == self.price_spec(),
    {
        match self {
            ForceType::Passive => 30,
            ForceType::Attract => 50,
            ForceType::Repel => 45,
        }
    }
}

/// A point-like influence source.
#[derive(Clone, Copy, Debug)]
pub struct Force {
    /// Strength of the contributed force, in thousandths of a newton.
    pub newton: i64,
    /// Influence radius, in thousandths of a world unit.
    pub influence: i64,
    pub force_type: ForceType,
}

/// A force contribution: a direction given by an unnormalised vector
/// `(dx, dy)`, and the magnitude `newton` of the force along it.
#[derive(Clone, Copy, Debug, PartialEq, Eq, Structural)]
pub struct ForceVector {
    pub dx: i64,
    pub dy: i64,
    pub newton: i64,
}

impl Force {
    pub open spec fn wf(self) -> bool {
        &&& 0 <= self.newton <= NEWTON_LIMIT
        &&& 0 <= self.influence <= INFLUENCE_LIMIT
    }

    /// The displacement along which this emitter pushes a mover standing at
    /// `position`: toward the emitter when attracting, away when repelling.
    pub open spec fn displacement_spec(self, position: Vec2, force_position: Vec2) -> (int, int) {
        if self.force_type is Attract {
            (force_position.x - position.x, force_position.y - position.y)
        } else {
            (position.x - force_position.x, position.y - force_position.y)
        }
    }

    /// Whether the emitter reaches a point at squared displacement `d2`: the
    /// distance, scaled down by the grid-to-world factor of four, must lie
    /// strictly between zero and the influence radius.
    pub open spec fn reaches_spec(self, d2: int) -> bool {
        0 < d2 < 16 * self.influence * self.influence
    }

    /// What `get_force` returns.
    pub open spec fn get_force_spec(self, position: Vec2, force_position: Vec2) -> Option<
        ForceVector,
    > {
        let (dx, dy) = self.displacement_spec(position, force_position);
        if self.force_type is Passive {
            None
        } else if self.reaches_spec(dx * dx + dy * dy) {
            Some(ForceVector { dx: dx as i64, dy: dy as i64, newton: self.newton })
        } else {
            None
        }
    }

    /// The force this emitter exerts on a mover at `position`, or `None` when
    /// it exerts none: a passive emitter never pushes, and an active one only
    /// pushes at a scaled distance strictly between zero and its radius.
    pub fn get_force(&self, position: Vec2, force_position: Vec2) -> (r: Option<ForceVector>)
        requires
            self.wf(),
            position.in_world(),
            force_position.in_world(),
        ensures
            r == self.get_force_spec(position, force_position),
            self.force_type is Passive ==> r is None,
            r is Some ==> r->Some_0.newton == self.newton,
            r is Some ==> (r->Some_0.dx as int, r->Some_0.dy as int) == self.displacement_spec(
                position,
                force_position,
            ),
    {
        let (dx, dy): (i64, i64) = match self.force_type {
            ForceType::Attract => (force_position.x - position.x, force_position.y - position.y),
            ForceType::Repel => (position.x - force_position.x, position.y - force_position.y),
            ForceType::Passive => {
                return None;
            },
        };
        let d2 = mag2(dx, dy);
        let reach = 4 * self.influence;
        proof {
            assert((reach as int) * (reach as int) == 16 * self.influence * self.influence
                && (reach as int) * (reach as int) <= 4_000_000_000_000_000_000)
                by (nonlinear_arith)
                requires 0 <= self.influence <= INFLUENCE_LIMIT && reach == 4 * self.influence;
        }
        if 0 < d2 && d2 < (reach as u64) * (reach as u64) {
            Some(ForceVector { dx, dy, newton: self.newton })
        } else {
            None
        }
    }
}

impl ForceVector {
    pub open spec fn wf(self) -> bool {
        &&& -MAG_LIMIT <= self.dx <= MAG_LIMIT
        &&& -MAG_LIMIT <= self.dy <= MAG_LIMIT
        &&& !(self.dx == 0 && self.dy == 0)
        &&& 0 <= self.newton <= NEWTON_LIMIT
    }

    /// The x component of the force in Cartesian form: the direction is
    /// normalised by the floored length and scaled by the magnitude.
    pub open spec fn cartesian_x_spec(self) -> int {
        div_trunc(self.dx * self.newton, sqrt_floor(self.dx * self.dx + self.dy * self.dy))
    }

    /// The y component of the force in Cartesian form.
    pub open spec fn cartesian_y_spec(self) -> int {
        div_trunc(self.dy * self.newton, sqrt_floor(self.dx * self.dx + self.dy * self.dy))
    }

    /// Converts the force to Cartesian components.  Each component is bounded
    /// by the force's magnitude.
    pub fn cartesian(&self) -> (c: Vec2)
        requires
            self.wf(),
        ensures
            c.x == self.cartesian_x_spec(),
            c.y == self.cartesian_y_spec(),
            -self.newton <= c.x <= self.newton,
            -self.newton <= c.y <= self.newton,
    {
        let n = length(self.dx, self.dy);
        proof {
            let d2 = self.dx * self.dx + self.dy * self.dy;
            assert(d2 > 0) by (nonlinear_arith)
                requires
                    d2 == self.dx * self.dx + self.dy * self.dy,
                    !(self.dx == 0 && self.dy == 0);
            assert(n >= 1) by (nonlinear_arith)
                requires
                    n >= 0,
                    d2 > 0,
                    (n as int + 1) * (n as int + 1) > d2,
                    d2 == self.dx * self.dx + self.dy * self.dy,
                    !(self.dx == 0 && self.dy == 0);
            assert(-(n as int) <= self.dx <= n as int && -(n as int) <= self.dy <= n as int)
                by (nonlinear_arith)
                requires
                    n >= 0,
                    (n as int) * (n as int) <= d2 < (n as int + 1) * (n as int + 1),
                    d2 == self.dx * self.dx + self.dy * self.dy;
            assert(-(n as int) * NEWTON_LIMIT <= self.dx * self.newton <= (n as int) * NEWTON_LIMIT
                && -(n as int) * NEWTON_LIMIT <= self.dy * self.newton <= (n as int) * NEWTON_LIMIT)
                by (nonlinear_arith)
                requires
                    -(n as int) <= self.dx <= n as int,
                    -(n as int) <= self.dy <= n as int,
                    0 <= self.newton <= NEWTON_LIMIT;
            assert(n as int * NEWTON_LIMIT <= 4_000_000_000 * NEWTON_LIMIT) by (nonlinear_arith)
                requires 0 <= n <= 3_000_000_000;
        }
        let cx = div_toward_zero_scaled(self.dx, self.newton, n);
        let cy = div_toward_zero_scaled(self.dy, self.newton, n);
        proof {
            crate::vec2::lemma_scale_bound(self.dx as int, self.newton as int, n as int);
            crate::vec2::lemma_scale_bound(self.dy as int, self.newton as int, n as int);
        }
        Vec2 { x: cx, y: cy }
    }
}

/// `d * s / n`, rounded toward zero.
fn div_toward_zero_scaled(d: i64, s: i64, n: i64) -> (q: i64)
    requires
        n >= 1,
        -4_000_000_000 <= d <= 4_000_000_000,
        0 <= s <= NEWTON_LIMIT,
    ensures
        q == div_trunc(d * s, n as int),
{
    proof {
        assert(-4_000_000_000 * (NEWTON_LIMIT as int) <= d * s <= 4_000_000_000 * (
        NEWTON_LIMIT as int)) by (nonlinear_arith)
            requires -4_000_000_000 <= d <= 4_000_000_000 && 0 <= s <= NEWTON_LIMIT;
    }
    crate::vec2::div_toward_zero(d * s, n)
}

} // verus!
