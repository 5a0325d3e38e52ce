use vstd::prelude::*;
use vstd::std_specs::convert::FromSpecImpl;
use crate::geometry::scalar::Scalar;

verus! {

/// Three scalars: a position, a direction or a per-axis scale.
#[derive(Clone, Copy, Debug, PartialEq, Eq, Structural)]
pub struct Vec3 {
    pub x: Scalar,
    pub y: Scalar,
    pub z: Scalar,
}

/// The four bytes of a 32-bit pattern, least significant first.
pub open spec fn le_bytes(bits: u32) -> Seq<u8> {
    seq![
        (bits % 0x100) as u8,
        (bits / 0x100 % 0x100) as u8,
        (bits / 0x1_0000 % 0x100) as u8,
        (bits / 0x100_0000 % 0x100) as u8,
    ]
}

impl Vec3 {
    /// The twelve bytes of the vector as it lies in a vertex buffer: `x`, `y`
    /// and `z` in turn, each with its least significant byte first.
    pub fn to_bytes(self) -> (r: [u8; 12])
        ensures
            r@ == le_bytes(self.x.bits) + le_bytes(self.y.bits) + le_bytes(self.z.bits),
    {
        let x: [u8; 4] = scalar_bytes(self.x);
        let y: [u8; 4] = scalar_bytes(self.y);
        let z: [u8; 4] = scalar_bytes(self.z);
        let r: [u8; 12] = [x[0], x[1], x[2], x[3], y[0], y[1], y[2], y[3], z[0], z[1], z[2], z[3]];
        assert(r@ =~= le_bytes(self.x.bits) + le_bytes(self.y.bits) + le_bytes(self.z.bits));
        r
    }
}

fn scalar_bytes(value: Scalar) -> (r: [u8; 4])
    ensures
        r@ == le_bytes(value.bits),
{
    let bits: u32 = value.bits;
    let r: [u8; 4] = [
        (bits % 0x100) as u8,
        (bits / 0x100 % 0x100) as u8,
        (bits / 0x1_0000 % 0x100) as u8,
        (bits / 0x100_0000 % 0x100) as u8,
    ];
    assert(r@ =~= le_bytes(value.bits));
    r
}

impl From<[Scalar; 3]> for Vec3 {
    fn from(value: [Scalar; 3]) -> (r: Vec3) {
        Vec3 { x: value[0], y: value[1], z: value[2] }
    }
}

impl FromSpecImpl<[Scalar; 3]> for Vec3 {
    open spec fn obeys_from_spec() -> bool {
        true
    }

    open spec fn from_spec(value: [Scalar; 3]) -> Vec3 {
        Vec3 { x: value[0], y: value[1], z: value[2] }
    }
}

} // verus!
