pub mod quaternion;
pub mod scalar;
pub mod transform;
pub mod vec3;

pub use quaternion::Quaternion;
pub use scalar::Scalar;
pub use transform::Transform;
pub use vec3::Vec3;
