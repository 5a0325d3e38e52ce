use vstd::prelude::*;
use crate::animation_system::hierarchy::NO_JOINT;

verus! {

/// How a texture is sampled.
#[derive(Clone, Copy, Debug, PartialEq, Eq, Structural)]
pub enum SamplerMode {
    Default,
}

/// The four joints that move one vertex, by internal id.
#[derive(Clone, Copy, Debug, PartialEq, Eq)]
pub struct Joint {
    pub joints: [u32; 4],
}

/// The internal id that a vertex is given for the table entry `entry`: the
/// entry cut to 32 bits, and the first joint where the entry holds no id.
pub open spec fn vertex_joint(entry: usize) -> u32 {
    if entry != NO_JOINT {
        (entry & 0xffff_ffff) as u32
    } else {
        0
    }
}

impl Joint {
    /// The joints of one vertex: the four places in the skin's list of
    /// joints that the vertex names, each led through `mapping` to an
    /// internal id. `None` if the vertex names a place that `mapping` does
    /// not have.
    pub fn remap(indices: [u16; 4], mapping: &[usize]) -> (r: Option<Joint>)
        ensures
            r is Some <==> forall|k: int| 0 <= k < 4 ==> (#[trigger] indices[k]) < mapping@.len(),
            r matches Some(joint) ==> forall|k: int|
                0 <= k < 4 ==> #[trigger] joint.joints[k] == vertex_joint(
                    mapping@[indices[k] as int],
                ),
    {
        let count: usize = mapping.len();
        let i0: usize = indices[0] as usize;
        let i1: usize = indices[1] as usize;
        let i2: usize = indices[2] as usize;
        let i3: usize = indices[3] as usize;
        if i0 >= count || i1 >= count || i2 >= count || i3 >= count {
            return None;
        }
        Some(
            Joint {
                joints: [
                    narrow(mapping[i0]),
                    narrow(mapping[i1]),
                    narrow(mapping[i2]),
                    narrow(mapping[i3]),
                ],
            },
        )
    }
}

fn narrow(entry: usize) -> (r: u32)
    ensures
        r == vertex_joint(entry),
{
    if entry != NO_JOINT {
        (entry & 0xffff_ffff) as u32
    } else {
        0
    }
}

} // verus!
