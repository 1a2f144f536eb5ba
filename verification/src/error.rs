use vstd::prelude::*;

verus! {

/// Outcome of a failed gauge operation.  Every failure leaves the engine
/// state exactly as it was before the call.
#[derive(Clone, Copy, Debug, PartialEq, Eq, Structural)]
pub enum GaugeError {
    /// The gauge id does not name a created gauge.
    GaugeNotFound,
    /// The gauge is stopped; it rejects every mutation.
    GaugeStopped,
    /// A stop was requested for a gauge that is already stopped.
    AlreadyStopped,
    /// The option is already registered in the gauge.
    DuplicateOption,
    /// A vote referenced an option that is not registered in the gauge.
    OptionNotFound,
    /// A vote carried a zero weight, a duplicated option, or weights
    /// summing to more than one.
    InvalidVoteWeight,
    /// An owner-only operation was attempted by someone else.
    Unauthorized,
    /// Execution was attempted before the gauge's next epoch.
    EpochNotReached,
    /// A tallied total or an advanced schedule left the representable range.
    Overflow,
}

} // verus!
