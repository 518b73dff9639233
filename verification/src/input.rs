use vstd::prelude::*;

verus! {

/// One abstract command from the input collaborator: a directional move,
/// a melee attack, quitting, or anything else (ignored).
#[derive(Debug, Clone, Copy, PartialEq, Eq, Structural)]
pub enum Command {
    MoveUp,
    MoveDown,
    MoveLeft,
    MoveRight,
    Attack,
    Quit,
    Other,
}

/// The blocking input collaborator: the turn scheduler waits on it for the
/// player's next command. The embedding program implements it over its
/// real input source.
pub trait InputHandler {
    fn wait_for_keypress(&mut self) -> Command;
}

} // verus!
