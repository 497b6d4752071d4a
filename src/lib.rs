pub mod cpu;
pub mod display;
pub mod keyboard;
pub mod laws;
