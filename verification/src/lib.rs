use vstd::prelude::*;

pub mod text;
pub mod layout;
pub mod skydimo;
pub mod led_matrix;
pub mod params;
pub mod scope;
pub mod segments;
pub mod snapshot;
pub mod switching;
pub mod render;
pub mod drgb;
pub mod app_config;
pub mod screen;
pub mod lut;
pub mod audio;
pub mod effects;
pub mod border;
pub mod serial_throttle;
pub mod persist;
pub mod hex_text;
pub mod skydimo_device;

verus! {

} // verus!
