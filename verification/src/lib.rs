//! A verified CHIP-8 virtual-machine core: a 64x32 monochrome framebuffer
//! with XOR sprite drawing, an edge-triggered 16-key keypad tracker, and a
//! fetch-decode-execute engine over a 4096-byte memory image.

pub mod display;
pub mod keypad;
pub mod cpu;
