//! The interpolatable unit of state, and its blend and mirror transforms.
use vstd::prelude::*;
use crate::record::Sample;
use crate::units::{
    blend, blend_i64, lemma_blend_at_start, lemma_blend_close, near_blend, Angle, AngularVelocity, Length, Velocity, HALF_TURN,
};

verus! {

/// Position, heading, angular velocity and linear velocity at one instant.
#[derive(Clone, Copy, Debug, PartialEq, Eq, Structural)]
pub struct Pose {
    pub x: Length,
    pub y: Length,
    pub heading: Angle,
    pub angular_velocity: AngularVelocity,
    pub velocity_x: Velocity,
    pub velocity_y: Velocity,
}

/// The field-wise blend of two poses over the fraction `num / den`; the
/// heading is blended as a plain number, with no wraparound.
pub open spec fn pose_blend(p: Pose, q: Pose, num: int, den: int) -> Pose {
    Pose {
        x: Length { micrometers: blend(p.x.micrometers as int, q.x.micrometers as int, num, den) as i64 },
        y: Length { micrometers: blend(p.y.micrometers as int, q.y.micrometers as int, num, den) as i64 },
        heading: Angle {
            microradians: blend(p.heading.microradians as int, q.heading.microradians as int, num, den) as i64,
        },
        angular_velocity: AngularVelocity {
            microradians_per_second: blend(
                p.angular_velocity.microradians_per_second as int,
                q.angular_velocity.microradians_per_second as int,
                num,
                den,
            ) as i64,
        },
        velocity_x: Velocity {
            micrometers_per_second: blend(
                p.velocity_x.micrometers_per_second as int,
                q.velocity_x.micrometers_per_second as int,
                num,
                den,
            ) as i64,
        },
        velocity_y: Velocity {
            micrometers_per_second: blend(
                p.velocity_y.micrometers_per_second as int,
                q.velocity_y.micrometers_per_second as int,
                num,
                den,
            ) as i64,
        },
    }
}

/// Whether mirroring `p` about `(rx, ry)` stays within the fixed-point range.
pub open spec fn mirrorable(p: Pose, rx: Length, ry: Length) -> bool {
    &&& i64::MIN <= 2 * rx.micrometers - p.x.micrometers <= i64::MAX
    &&& i64::MIN <= 2 * ry.micrometers - p.y.micrometers <= i64::MAX
    &&& p.heading.microradians + HALF_TURN <= i64::MAX
    &&& p.angular_velocity.microradians_per_second != i64::MIN
}

/// `p` reflected through the point `(rx, ry)`: a half turn is added to the
/// heading and the angular velocity is negated. The linear velocity is kept
/// as it is, an approximation that the consumers of mirrored poses accept.
pub open spec fn mirrored(p: Pose, rx: Length, ry: Length) -> Pose {
    Pose {
        x: Length { micrometers: (2 * rx.micrometers - p.x.micrometers) as i64 },
        y: Length { micrometers: (2 * ry.micrometers - p.y.micrometers) as i64 },
        heading: Angle { microradians: (p.heading.microradians + HALF_TURN) as i64 },
        angular_velocity: AngularVelocity {
            microradians_per_second: (-p.angular_velocity.microradians_per_second) as i64,
        },
        velocity_x: p.velocity_x,
        velocity_y: p.velocity_y,
    }
}

impl Pose {
    /// Blends `self` toward `other` over the fraction `num / den`.
    pub fn lerp(&self, other: &Pose, num: u64, den: u64) -> (r: Pose)
        requires
            num <= den,
            den > 0,
        ensures
            r == pose_blend(*self, *other, num as int, den as int),
    {
        Pose {
            x: Length { micrometers: blend_i64(self.x.micrometers, other.x.micrometers, num, den) },
            y: Length { micrometers: blend_i64(self.y.micrometers, other.y.micrometers, num, den) },
            heading: Angle {
                microradians: blend_i64(self.heading.microradians, other.heading.microradians, num, den),
            },
            angular_velocity: AngularVelocity {
                microradians_per_second: blend_i64(
                    self.angular_velocity.microradians_per_second,
                    other.angular_velocity.microradians_per_second,
                    num,
                    den,
                ),
            },
            velocity_x: Velocity {
                micrometers_per_second: blend_i64(
                    self.velocity_x.micrometers_per_second,
                    other.velocity_x.micrometers_per_second,
                    num,
                    den,
                ),
            },
            velocity_y: Velocity {
                micrometers_per_second: blend_i64(
                    self.velocity_y.micrometers_per_second,
                    other.velocity_y.micrometers_per_second,
                    num,
                    den,
                ),
            },
        }
    }

    /// The pose as seen from the other side of a symmetric field; `x` and
    /// `y` are half the field's length and width.
    pub fn mirror(&self, x: Length, y: Length) -> (r: Pose)
        requires
            mirrorable(*self, x, y),
        ensures
            r == mirrored(*self, x, y),
    {
        Pose {
            x: Length { micrometers: (2 * (x.micrometers as i128) - self.x.micrometers as i128) as i64 },
            y: Length { micrometers: (2 * (y.micrometers as i128) - self.y.micrometers as i128) as i64 },
            heading: Angle { microradians: self.heading.microradians + HALF_TURN },
            angular_velocity: AngularVelocity {
                microradians_per_second: -self.angular_velocity.microradians_per_second,
            },
            velocity_x: self.velocity_x,
            velocity_y: self.velocity_y,
        }
    }
}

/// Blending over an empty fraction gives back the starting pose exactly.
pub proof fn lemma_pose_blend_at_start(p: Pose, q: Pose, den: int)
    requires
        den > 0,
    ensures
        pose_blend(p, q, 0, den) == p,
{
    lemma_blend_at_start(p.x.micrometers as int, q.x.micrometers as int, den);
    lemma_blend_at_start(p.y.micrometers as int, q.y.micrometers as int, den);
    lemma_blend_at_start(p.heading.microradians as int, q.heading.microradians as int, den);
    lemma_blend_at_start(
        p.angular_velocity.microradians_per_second as int,
        q.angular_velocity.microradians_per_second as int,
        den,
    );
    lemma_blend_at_start(
        p.velocity_x.micrometers_per_second as int,
        q.velocity_x.micrometers_per_second as int,
        den,
    );
    lemma_blend_at_start(
        p.velocity_y.micrometers_per_second as int,
        q.velocity_y.micrometers_per_second as int,
        den,
    );
}

/// Blending over the whole interval gives the end pose exactly.
pub proof fn lemma_pose_blend_at_end(p: Pose, q: Pose, den: int)
    requires
        den > 0,
    ensures
        pose_blend(p, q, den, den) == q,
{
    crate::units::lemma_blend_at_end(p.x.micrometers as int, q.x.micrometers as int, den);
    crate::units::lemma_blend_at_end(p.y.micrometers as int, q.y.micrometers as int, den);
    crate::units::lemma_blend_at_end(p.heading.microradians as int, q.heading.microradians as int, den);
    crate::units::lemma_blend_at_end(
        p.angular_velocity.microradians_per_second as int,
        q.angular_velocity.microradians_per_second as int,
        den,
    );
    crate::units::lemma_blend_at_end(
        p.velocity_x.micrometers_per_second as int,
        q.velocity_x.micrometers_per_second as int,
        den,
    );
    crate::units::lemma_blend_at_end(
        p.velocity_y.micrometers_per_second as int,
        q.velocity_y.micrometers_per_second as int,
        den,
    );
}

/// Mirroring twice about the same point restores position, angular velocity
/// and linear velocity exactly, and turns the heading by one full turn.
pub proof fn lemma_mirror_twice(p: Pose, rx: Length, ry: Length)
    requires
        mirrorable(p, rx, ry),
        p.heading.microradians + 2 * HALF_TURN <= i64::MAX,
    ensures
        mirrorable(mirrored(p, rx, ry), rx, ry),
        mirrored(mirrored(p, rx, ry), rx, ry).x == p.x,
        mirrored(mirrored(p, rx, ry), rx, ry).y == p.y,
        mirrored(mirrored(p, rx, ry), rx, ry).heading.microradians == p.heading.microradians + 2
            * HALF_TURN,
        mirrored(mirrored(p, rx, ry), rx, ry).angular_velocity == p.angular_velocity,
        mirrored(mirrored(p, rx, ry), rx, ry).velocity_x == p.velocity_x,
        mirrored(mirrored(p, rx, ry), rx, ry).velocity_y == p.velocity_y,
{
}

} // verus!

verus! {

/// The pose that a sample describes, each field carried in its unit.
pub open spec fn pose_of(s: Sample) -> Pose {
    Pose {
        x: Length { micrometers: s.x },
        y: Length { micrometers: s.y },
        heading: Angle { microradians: s.heading },
        angular_velocity: AngularVelocity { microradians_per_second: s.angular_velocity },
        velocity_x: Velocity { micrometers_per_second: s.velocity_x },
        velocity_y: Velocity { micrometers_per_second: s.velocity_y },
    }
}

impl From<Sample> for Pose {
    fn from(value: Sample) -> (r: Pose)
        ensures
            r == pose_of(value),
    {
        Pose {
            x: Length { micrometers: value.x },
            y: Length { micrometers: value.y },
            heading: Angle { microradians: value.heading },
            angular_velocity: AngularVelocity { microradians_per_second: value.angular_velocity },
            velocity_x: Velocity { micrometers_per_second: value.velocity_x },
            velocity_y: Velocity { micrometers_per_second: value.velocity_y },
        }
    }
}

impl vstd::std_specs::convert::FromSpecImpl<Sample> for Pose {
    open spec fn obeys_from_spec() -> bool {
        true
    }

    open spec fn from_spec(v: Sample) -> Pose {
        pose_of(v)
    }
}

/// Every field of `r` is within one fixed-point unit of the exact affine
/// blend of the same field of `p` and `q` over `num / den`.
pub open spec fn near_pose_blend(r: Pose, p: Pose, q: Pose, num: int, den: int) -> bool {
    &&& near_blend(r.x.micrometers as int, p.x.micrometers as int, q.x.micrometers as int, num, den)
    &&& near_blend(r.y.micrometers as int, p.y.micrometers as int, q.y.micrometers as int, num, den)
    &&& near_blend(
        r.heading.microradians as int,
        p.heading.microradians as int,
        q.heading.microradians as int,
        num,
        den,
    )
    &&& near_blend(
        r.angular_velocity.microradians_per_second as int,
        p.angular_velocity.microradians_per_second as int,
        q.angular_velocity.microradians_per_second as int,
        num,
        den,
    )
    &&& near_blend(
        r.velocity_x.micrometers_per_second as int,
        p.velocity_x.micrometers_per_second as int,
        q.velocity_x.micrometers_per_second as int,
        num,
        den,
    )
    &&& near_blend(
        r.velocity_y.micrometers_per_second as int,
        p.velocity_y.micrometers_per_second as int,
        q.velocity_y.micrometers_per_second as int,
        num,
        den,
    )
}

/// The blended pose is, field by field, within one unit of the exact blend.
pub proof fn lemma_pose_blend_close(p: Pose, q: Pose, num: int, den: int)
    requires
        0 <= num <= den,
        den > 0,
    ensures
        near_pose_blend(pose_blend(p, q, num, den), p, q, num, den),
{
    crate::units::lemma_blend_between(p.x.micrometers as int, q.x.micrometers as int, num, den);
    crate::units::lemma_blend_between(p.y.micrometers as int, q.y.micrometers as int, num, den);
    crate::units::lemma_blend_between(p.heading.microradians as int, q.heading.microradians as int, num, den);
    crate::units::lemma_blend_between(
        p.angular_velocity.microradians_per_second as int,
        q.angular_velocity.microradians_per_second as int,
        num,
        den,
    );
    crate::units::lemma_blend_between(
        p.velocity_x.micrometers_per_second as int,
        q.velocity_x.micrometers_per_second as int,
        num,
        den,
    );
    crate::units::lemma_blend_between(
        p.velocity_y.micrometers_per_second as int,
        q.velocity_y.micrometers_per_second as int,
        num,
        den,
    );
    lemma_blend_close(p.x.micrometers as int, q.x.micrometers as int, num, den);
    lemma_blend_close(p.y.micrometers as int, q.y.micrometers as int, num, den);
    lemma_blend_close(p.heading.microradians as int, q.heading.microradians as int, num, den);
    lemma_blend_close(
        p.angular_velocity.microradians_per_second as int,
        q.angular_velocity.microradians_per_second as int,
        num,
        den,
    );
    lemma_blend_close(
        p.velocity_x.micrometers_per_second as int,
        q.velocity_x.micrometers_per_second as int,
        num,
        den,
    );
    lemma_blend_close(
        p.velocity_y.micrometers_per_second as int,
        q.velocity_y.micrometers_per_second as int,
        num,
        den,
    );
}

} // verus!
