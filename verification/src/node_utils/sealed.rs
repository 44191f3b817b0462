//! The seal of `AllowedTypes`: only this crate can name `Sealed`, so only it
//! can implement `AllowedTypes`.
use vstd::prelude::*;

verus! {

/// Implemented by the request types that may travel in a proposal.
pub trait Sealed {}

} // verus!
