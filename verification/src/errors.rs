//! The closed set of failure categories that every fallible operation of this
//! crate reports. Lower-level failures (malformed integers, process errors)
//! are mapped into exactly one of these categories; no further detail is kept.

use vstd::prelude::*;

verus! {

/// Why an operation against the VM manager failed.
#[derive(Debug, Clone, Copy, PartialEq, Eq, Structural)]
pub enum VmctlControllerErrorCause {
    /// A status line (or the whole listing) could not be parsed.
    Parsing,
    /// The external command could not be launched or its output not captured.
    Shell,
    /// The start command ran but its diagnostics lack the success phrase.
    Start,
    /// A stop, pause or unpause command ran but its diagnostics lack the
    /// success phrase.
    Stop,
    /// No record of the current snapshot carries the requested name.
    VmNotFound,
    /// The status query itself failed.
    Vmctl,
}

/// The single error type surfaced by the controller.
#[derive(Debug, Clone, Copy, PartialEq, Eq, Structural)]
pub struct VmctlControllerError {
    pub cause: VmctlControllerErrorCause,
}

impl VmctlControllerErrorCause {
    /// A short human-readable message for this failure category.
    pub fn message(&self) -> (r: &'static str)
        ensures
            *self == VmctlControllerErrorCause::Parsing ==> r@ == "Parser error!"@,
            *self == VmctlControllerErrorCause::Shell ==> r@ == "Shell error!"@,
            *self == VmctlControllerErrorCause::Start ==> r@ == "VM not started!"@,
            *self == VmctlControllerErrorCause::Stop ==> r@ == "VM not stopped!"@,
            *self == VmctlControllerErrorCause::VmNotFound ==> r@ == "VM not found!"@,
            *self == VmctlControllerErrorCause::Vmctl ==> r@ == "Vmctl error!"@,
    {
        match self {
            VmctlControllerErrorCause::Parsing => "Parser error!",
            VmctlControllerErrorCause::Shell => "Shell error!",
            VmctlControllerErrorCause::Start => "VM not started!",
            VmctlControllerErrorCause::Stop => "VM not stopped!",
            VmctlControllerErrorCause::VmNotFound => "VM not found!",
            VmctlControllerErrorCause::Vmctl => "Vmctl error!",
        }
    }

    /// A one-line description shared by every category.
    pub fn description(&self) -> (r: &'static str)
        ensures
            r@ == "Error in the vmctl controller, shell or parsing!"@,
    {
        "Error in the vmctl controller, shell or parsing!"
    }
}

impl VmctlControllerError {
    /// Builds an error from its failure category.
    pub fn from_cause(cause: VmctlControllerErrorCause) -> (r: VmctlControllerError)
        ensures
            r.cause == cause,
    {
        VmctlControllerError { cause }
    }

    /// A short human-readable message for this error.
    pub fn message(&self) -> (r: &'static str)
        ensures
            r@ == "VmctlControllerError!"@,
    {
        "VmctlControllerError!"
    }
}

} // verus!
