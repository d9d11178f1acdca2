//! Client-side world engine of a voxel sandbox: a partial local replica of
//! the world, greedy meshing of its chunks, collision against it, and the
//! message protocol and per-tick scheduler that keep it up to date.

pub mod block;
pub mod chunk;
pub mod world;
pub mod greedy;
pub mod meshing;
pub mod physics;
pub mod item;
pub mod network;
pub mod session;
pub mod fps;
pub mod settings;
pub mod window;
pub mod ui;
pub mod registry;
pub mod data;
pub mod texture;
pub mod input;
