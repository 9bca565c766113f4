//! EdgeBot: sensor buffers, path planning, deployment planning and licensing
//! logic for edge robotics, with their contracts proved.

pub mod grid;
pub mod table;
pub mod task;
pub mod buffer;
pub mod camera;
pub mod lidar;
pub mod text;
pub mod ros2;
pub mod compile;
pub mod deploy;
pub mod inference;
pub mod webots;
pub mod services;
pub mod dashboard;
pub mod cli;
pub mod jobs;
pub mod wasm;
pub mod licensing;
