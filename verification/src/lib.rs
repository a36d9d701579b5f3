use vstd::prelude::*;

pub mod hashing;
pub mod text;
pub mod assoc;
pub mod build;
pub mod ecs;
pub mod events;
pub mod inputs;
pub mod assets;
pub mod shaders;
pub mod position2d;
