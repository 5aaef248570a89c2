use vstd::prelude::*;

verus! {

/// Why a program could not be translated, prepared or run.
#[derive(Clone, Copy, Debug, PartialEq, Eq, Structural)]
pub enum EngineError {
    /// The character at `position` is not one of the eight commands.
    TranslationError { position: usize },
    /// The bracket at `position` has no partner.
    UnbalancedLoopError { position: usize },
    /// The instruction at `position` moved the data pointer off the tape.
    OutOfBoundsError { position: usize },
}

} // verus!
