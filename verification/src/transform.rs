use vstd::prelude::*;

verus! {

/// One whole tick, and the unit of a vector's or a quaternion's components, in
/// fixed-point units.
pub const ONE: i64 = 1_000_000_000;

/// Full blend weight, in fixed-point units. Weights are counted finer than ticks, so
/// that the rate of a fade that lasts minutes is still exact to a millionth.
pub const FULL_WEIGHT: i64 = 1_000_000_000_000_000;

/// A vector of three fixed-point components.
#[derive(Clone, Copy, Debug, PartialEq, Eq, Structural)]
pub struct Vector3 {
    pub x: i64,
    pub y: i64,
    pub z: i64,
}

impl Vector3 {
    pub fn new(x: i64, y: i64, z: i64) -> (r: Self)
        ensures
            r == (Vector3 { x, y, z }),
    {
        Vector3 { x, y, z }
    }
}

/// A rotation quaternion of four fixed-point components.
#[derive(Clone, Copy, Debug, PartialEq, Eq, Structural)]
pub struct Quaternion {
    pub x: i64,
    pub y: i64,
    pub z: i64,
    pub w: i64,
}

impl Quaternion {
    pub fn new(x: i64, y: i64, z: i64, w: i64) -> (r: Self)
        ensures
            r == (Quaternion { x, y, z, w }),
    {
        Quaternion { x, y, z, w }
    }
}

/// A translation, rotation and scale, as authored.
#[derive(Clone, Copy, Debug, PartialEq, Eq, Structural)]
pub struct Transform {
    pub translation: Vector3,
    pub rotation: Quaternion,
    pub scale: Vector3,
}

impl Transform {
    pub fn new(translation: Vector3, rotation: Quaternion, scale: Vector3) -> (r: Self)
        ensures
            r == (Transform { translation, rotation, scale }),
    {
        Transform { translation, rotation, scale }
    }

    /// The transform that moves nothing: no translation, the unit rotation, unit scale.
    pub open spec fn spec_identity() -> Transform {
        Transform {
            translation: Vector3 { x: 0, y: 0, z: 0 },
            rotation: Quaternion { x: 0, y: 0, z: 0, w: ONE },
            scale: Vector3 { x: ONE, y: ONE, z: ONE },
        }
    }

    #[verifier::when_used_as_spec(spec_identity)]
    pub fn identity() -> (r: Self)
        ensures
            r == Self::spec_identity(),
    {
        Transform {
            translation: Vector3 { x: 0, y: 0, z: 0 },
            rotation: Quaternion { x: 0, y: 0, z: 0, w: ONE },
            scale: Vector3 { x: ONE, y: ONE, z: ONE },
        }
    }
}

/// How far a tick lies between two keys: `elapsed` ticks into a gap of `span` ticks.
/// The interpolation factor is the quotient of the two.
#[derive(Clone, Copy, Debug, PartialEq, Eq, Structural)]
pub struct Factor {
    pub elapsed: i128,
    pub span: i128,
}

/// The value of a position or scale channel at one tick.
#[derive(Clone, Copy, Debug, PartialEq, Eq, Structural)]
pub enum VectorSample {
    /// The channel's only key, taken as it is.
    Held(Vector3),
    /// The linear interpolation from `from` to `to` by `factor`.
    Between { from: Vector3, to: Vector3, factor: Factor },
}

/// The value of a rotation channel at one tick.
#[derive(Clone, Copy, Debug, PartialEq, Eq, Structural)]
pub enum RotationSample {
    /// The channel's only key, taken as it is.
    Held(Quaternion),
    /// The spherical interpolation from `from` to `to` by `factor`.
    Between { from: Quaternion, to: Quaternion, factor: Factor },
}

/// A track sampled at one tick: each of the three channels on its own.
#[derive(Clone, Copy, Debug, PartialEq, Eq, Structural)]
pub struct TrackSample {
    pub position: VectorSample,
    pub rotation: RotationSample,
    pub scale: VectorSample,
}

/// A pose, written as an expression over authored transforms and sampled tracks.
#[derive(Debug, PartialEq, Eq)]
pub enum Pose {
    /// A transform given as data.
    Fixed(Transform),
    /// A track's local transform at one tick.
    Sampled(TrackSample),
    /// The second pose expressed in the frame of the first: the translation of the
    /// child is scaled and rotated by the parent and added to the parent's, rotations
    /// are multiplied parent first, scales are multiplied by component.
    Compose(Box<Pose>, Box<Pose>),
    /// The second pose blended into the first at the given weight, counted in units of
    /// which [`FULL_WEIGHT`] is the whole: translation and scale interpolated linearly,
    /// rotation spherically.
    Blend(Box<Pose>, Box<Pose>, i64),
}

impl Clone for Pose {
    fn clone(&self) -> (r: Self)
        ensures
            r == *self,
        decreases *self,
    {
        match self {
            Pose::Fixed(t) => Pose::Fixed(*t),
            Pose::Sampled(s) => Pose::Sampled(*s),
            Pose::Compose(a, b) => {
                let a2 = (**a).clone();
                let b2 = (**b).clone();
                Pose::Compose(Box::new(a2), Box::new(b2))
            },
            Pose::Blend(a, b, w) => {
                let a2 = (**a).clone();
                let b2 = (**b).clone();
                Pose::Blend(Box::new(a2), Box::new(b2), *w)
            },
        }
    }
}

impl Pose {
    /// Composes `child` under `self`.
    pub fn mul_transform(self, child: Pose) -> (r: Pose)
        ensures
            r == Pose::Compose(Box::new(self), Box::new(child)),
    {
        Pose::Compose(Box::new(self), Box::new(child))
    }

    /// Blends `other` into `self` at `weight`.
    pub fn mul_transform_weighted(self, other: Pose, weight: i64) -> (r: Pose)
        ensures
            r == Pose::Blend(Box::new(self), Box::new(other), weight),
    {
        Pose::Blend(Box::new(self), Box::new(other), weight)
    }
}

} // verus!
