use vstd::prelude::*;
use vstd::std_specs::convert::FromSpecImpl;
use crate::geometry::scalar::Scalar;

verus! {

/// Four scalars `(x, y, z, w)` that stand for a rotation. A rotation has
/// length one; the type does not enforce it.
#[derive(Clone, Copy, Debug, PartialEq, Eq, Structural)]
pub struct Quaternion {
    pub x: Scalar,
    pub y: Scalar,
    pub z: Scalar,
    pub w: Scalar,
}

impl From<[Scalar; 4]> for Quaternion {
    fn from(value: [Scalar; 4]) -> (r: Quaternion) {
        Quaternion { x: value[0], y: value[1], z: value[2], w: value[3] }
    }
}

impl FromSpecImpl<[Scalar; 4]> for Quaternion {
    open spec fn obeys_from_spec() -> bool {
        true
    }

    open spec fn from_spec(value: [Scalar; 4]) -> Quaternion {
        Quaternion { x: value[0], y: value[1], z: value[2], w: value[3] }
    }
}

} // verus!
