//! Terminal outcomes of the bootstrap subsystem.
//!
//! A freestanding image has no facility to report an error upward: there is
//! no console, no unwinder and no caller able to recover. Every failure
//! therefore ends in an immediate, unrecoverable process halt. The halt
//! itself is outside any model; what this module keeps is the *reason*, as a
//! small enumeration, so that each termination stand-in names the class of
//! fault that reached it.

use vstd::prelude::*;

verus! {

/// The reason a process was fatally terminated.
#[derive(PartialEq, Eq, Structural, Clone, Copy, Debug)]
pub enum FatalReason {
    /// An unrecoverable logic fault (the panic path).
    LogicFault,
    /// The allocator backend could not satisfy a mandatory request.
    AllocationFailure,
    /// Some code path attempted to propagate a structured exception.
    UnwindAttempt,
}

/// A malformed relocation input, fatal before any runtime exists.
#[derive(PartialEq, Eq, Structural, Clone, Copy, Debug)]
pub enum RelocError {
    /// A relocation entry carries a kind the relocator does not implement.
    UnsupportedKind,
    /// A relocation entry's target lies outside the mapped image.
    TargetOutOfBounds,
    /// The relocation table itself is not where or what its metadata says.
    MalformedTable,
}

/// Stand-in for the panic handler: an unrecoverable logic fault.
pub fn logic_fault() -> (r: FatalReason)
    ensures
        r == FatalReason::LogicFault,
{
    FatalReason::LogicFault
}

/// Stand-in for the allocation-error handler: the backend was exhausted.
pub fn alloc_fail() -> (r: FatalReason)
    ensures
        r == FatalReason::AllocationFailure,
{
    FatalReason::AllocationFailure
}

/// Stand-in for the unwinder's personality routine. The compiled output
/// format requires the symbol to exist even though this system never
/// raises an exception on purpose; reaching it is fatal.
pub fn rust_eh_personality() -> (r: FatalReason)
    ensures
        r == FatalReason::UnwindAttempt,
{
    FatalReason::UnwindAttempt
}

/// Stand-in for the unwind-resume symbol, fatal for the same reason.
pub fn unwind_resume() -> (r: FatalReason)
    ensures
        r == FatalReason::UnwindAttempt,
{
    FatalReason::UnwindAttempt
}

/// Stand-in for the structured-exception frame handler on the PE path.
pub fn cxx_frame_handler() -> (r: FatalReason)
    ensures
        r == FatalReason::UnwindAttempt,
{
    FatalReason::UnwindAttempt
}

} // verus!
