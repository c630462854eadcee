//! A verified interpreter for a small 8-bit virtual machine with a fixed
//! 35-instruction architecture: 16 general registers, a 4096-byte memory,
//! a 64x32 monochrome frame buffer, a bounded call stack and two timers.
//!
//! The machine is modeled by [`cpu::CpuState`] and the transition function
//! [`cpu::spec_step`]; [`cpu::Cpu::tick`] is proved to realize it. Program
//! loading from storage, rendering, audio and keyboard mapping are external
//! collaborators that exchange plain values with the interpreter.

pub mod cpu;
pub mod decode;
pub mod draw;
pub mod ops;
pub mod type_defs;
