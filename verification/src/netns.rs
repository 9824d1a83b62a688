//! Network namespaces for the tunnel interface.
use vstd::prelude::*;

verus! {

/// How the creation of a network namespace failed.
#[derive(Debug, Clone, Copy)]
pub enum CreateFailure {
    /// The namespace itself could not be created. This is the error code of the operating system, if there is one.
    Create(Option<i32>),
    /// Something else failed.
    Other,
}

/// The error code of the operating system for an operation that is not permitted: `libc::EPERM`, which is one on Linux.
#[verifier::external_body]
fn not_permitted() -> (code: i32)
    ensures
        code == 1,
{
    libc::EPERM
}

/// Whether to go on with the existing network namespace of that name, after the creation of one has failed.
///
/// A namespace that exists already can not be created again: the operating system does not permit it.
pub fn opens_existing(failure: CreateFailure) -> (open: bool)
    ensures
        open == (failure matches CreateFailure::Create(Some(code)) && code == 1),
{
    match failure {
        CreateFailure::Create(Some(code)) => code == not_permitted(),
        _ => false,
    }
}

} // verus!
