//! A CHIP-8 virtual machine: the fetch-decode-execute cycle, the
//! register/memory/stack model, the framebuffer with its XOR sprite
//! drawing, the timers, the key latch and the vertical-blank gate.
//!
//! Every observable transition of the machine is specified against the
//! ghost [`state::State`] and its step semantics [`state::spec_step`];
//! [`laws`] holds the proved general properties of the instruction set.

pub mod decode;
pub mod emulator;
pub mod keymap;
pub mod laws;
pub mod options;
pub mod rng;
pub mod state;
