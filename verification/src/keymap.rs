use vstd::prelude::*;

verus! {

/// Which key bindings are in effect.
pub enum Keymap {
    /// The classic 4x4 pad laid over the left of a QWERTY keyboard.
    Chip8,
}

/// What the shell should do with one input event.
pub enum Action {
    /// Forward a key transition to the machine: key index and pressed state.
    EmulateKeyState(usize, bool),
    /// Pause or resume the simulation.
    TogglePause,
    /// Leave the application.
    Quit,
}

} // verus!
