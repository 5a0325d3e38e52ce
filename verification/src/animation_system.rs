pub mod animation;
pub mod animator;
pub mod hierarchy;
pub mod loader;
