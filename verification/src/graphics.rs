use vstd::prelude::*;

/// The state of the DFA editor and its reaction to input.
pub mod dfa_mode;

/// Transitions between states: duplicates, parallel groups and labels.
pub mod connection;

use dfa_mode::{DfaInstance, DfaWindow, edges_after, nodes_after};

verus! {

/// The different Messages for the overarching graphical instance
#[derive(Debug, Clone, Copy, PartialEq, Eq, Structural)]
pub enum Message {
    /// Message to switch to DFA creation mode
    DfaMode,
    /// Messages specific to the DFA editor, wrapped in a variant to be handled by the main graphical instance
    DfaMessage(dfa_mode::Message),
}

/// What is currently being displayed for the user to edit
pub enum EditorMode {
    /// A DFA is currently being edited
    Dfa {
        /// The window containing the DFA editor
        dfa_win: Box<DfaWindow>,
    },
    /// An empty canvas with no editor active
    Empty,
}

/// The graphical instance of the application
pub struct GraphicsInstance {
    /// What is currently being displayed for the user to edit, such as a DFA editor or an empty canvas
    pub mode: EditorMode,
}

impl GraphicsInstance {
    /// Generates a new graphical instance with an empty editor.
    pub fn new() -> (g: Self)
        ensures
            g.mode is Empty,
    {
        GraphicsInstance { mode: EditorMode::Empty }
    }

    /// Handles a message, updating the state of the application accordingly.
    ///
    /// `DfaMode` opens a DFA editor on an empty DFA, in place of whatever was being
    /// edited. A message of the DFA editor goes to the DFA being edited; where no
    /// DFA is being edited it is ignored.
    pub fn update(&mut self, message: Message)
        ensures
            match message {
                Message::DfaMode => {
                    &&& final(self).mode is Dfa
                    &&& final(self).mode->dfa_win.dfa.nodes@ == Seq::<dfa_mode::Node>::empty()
                    &&& final(self).mode->dfa_win.dfa.edges@ == Seq::<connection::Connection>::empty()
                    &&& final(self).mode->dfa_win.dfa.wf()
                },
                Message::DfaMessage(m) => match old(self).mode {
                    EditorMode::Dfa { dfa_win } => {
                        &&& final(self).mode is Dfa
                        &&& final(self).mode->dfa_win.dfa.nodes@ == nodes_after(
                            dfa_win.dfa.nodes@,
                            m,
                        )
                        &&& final(self).mode->dfa_win.dfa.edges@ == edges_after(
                            dfa_win.dfa.nodes@,
                            dfa_win.dfa.edges@,
                            m,
                        )
                        &&& dfa_win.dfa.wf() ==> final(self).mode->dfa_win.dfa.wf()
                    },
                    EditorMode::Empty => final(self).mode is Empty,
                },
            },
    {
        match message {
            Message::DfaMode => {
                self.mode = EditorMode::Dfa {
                    dfa_win: Box::new(DfaWindow { dfa: DfaInstance::default() }),
                };
            },
            Message::DfaMessage(m) => {
                match &mut self.mode {
                    EditorMode::Dfa { dfa_win } => {
                        dfa_win.dfa.update(m);
                    },
                    EditorMode::Empty => {},
                }
            },
        }
    }
}

} // verus!
