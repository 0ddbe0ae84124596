//! The boundary to tokio: the executor's underlying execution context is a
//! tokio runtime, and the end-of-cycle checkpoint is a tokio cooperative
//! yield. Nothing here is verified; the contracts of the callers state what
//! holds of every outcome of these calls.

use vstd::prelude::*;

verus! {

#[verifier::external_type_specification]
#[verifier::external_body]
pub struct ExRuntime(tokio::runtime::Runtime);

#[verifier::external_type_specification]
#[verifier::external_body]
pub struct ExIoError(std::io::Error);

/// Relies on tokio::runtime::Runtime::new: builds a fresh execution context,
/// returning the I/O error when the operating system refuses the resources.
/// Whether it succeeds depends on the machine, so nothing is promised of the
/// outcome.
#[verifier::external_body]
pub(crate) fn new_runtime() -> Result<tokio::runtime::Runtime, std::io::Error> {
    tokio::runtime::Runtime::new()
}

/// Relies on tokio::runtime::Runtime::block_on and tokio::task::yield_now:
/// drives one deliberate cooperative yield to completion, giving the cycle a
/// well-defined end, and returns nothing.
#[verifier::external_body]
pub(crate) fn yield_checkpoint(rt: &tokio::runtime::Runtime) {
    rt.block_on(tokio::task::yield_now());
}

} // verus!
