use vstd::prelude::*;

verus! {

/// Why an intent was rejected. A rejected intent leaves every piece of state
/// as it was.
#[derive(Clone, Copy, Debug, PartialEq, Eq)]
pub enum ProgressError {
    /// The action costs more than is stored.
    InsufficientResource,
    /// The intent names a hand or clicker that does not exist (any more).
    EntityNotFound,
    /// The cooldown of the clicker or hand has not run out yet.
    TimerNotReady,
    /// No further prestige level is offered.
    PrestigeExhausted,
    /// A counter or the id supply would leave the range of its type.
    ArithmeticOverflow,
    /// The hand is not in a state that offers this action.
    WrongHandState,
    /// The game is not in its running phase.
    NotRunning,
}

} // verus!
