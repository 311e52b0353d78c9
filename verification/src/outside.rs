//! Types of other crates that pass through this one unopened.

use vstd::prelude::*;

verus! {

/// The error of `self_encryption`: carried out of the calls into that crate
/// and turned into a cipher failure, never looked into.
#[verifier::external_type_specification]
#[verifier::external_body]
pub struct ExCipherError(self_encryption::Error);

} // verus!
