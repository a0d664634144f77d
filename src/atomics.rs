//! Compiler ordering barriers used at the points where one side of a ring
//! publishes or observes the other side's cursor.
use vstd::prelude::*;

verus! {

/// Relies on `std::sync::atomic::compiler_fence` with acquire ordering: it only
/// restrains the compiler's reordering and has no other effect.
#[verifier::external_body]
pub fn compiler_fence_acquire() {
    std::sync::atomic::compiler_fence(std::sync::atomic::Ordering::Acquire);
}

/// Relies on `std::sync::atomic::compiler_fence` with release ordering: it only
/// restrains the compiler's reordering and has no other effect.
#[verifier::external_body]
pub fn compiler_fence_release() {
    std::sync::atomic::compiler_fence(std::sync::atomic::Ordering::Release);
}

} // verus!
