pub mod collide;
pub mod math;
pub mod particle;
pub mod rng;
pub mod sim;
pub mod sweep;
