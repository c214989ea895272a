//! The model behind langviewer's DFA editor: the automaton that the user draws,
//! the transitions between its states, and the decisions that the editor takes
//! when the user presses or releases the mouse.
//!
//! Everything here works on plain values (state indices, transition symbols,
//! flags); the window, the canvas and the floating-point geometry are left to
//! the program that draws them.

/// The editor: its modes, the DFA editor and the transitions between states.
pub mod graphics;
