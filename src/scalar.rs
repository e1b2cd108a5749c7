//! Scalars of curve25519 as search states: each worker starts from a random
//! scalar, and a step adds one modulo the group order.
use crate::space::{Advance, Start};
use curve25519_dalek::scalar::Scalar;
use vstd::prelude::*;

verus! {

/// Declares curve25519-dalek's `Scalar`, so that it can be a search state.
/// Its value is opaque here.
#[verifier::external_type_specification]
#[verifier::external_body]
pub struct ExScalar(Scalar);

/// Relies on curve25519-dalek's `Scalar::random` over rand's `OsRng`: a
/// uniformly drawn scalar. Nothing is known of which.
#[verifier::external_body]
fn random_scalar() -> Scalar {
    Scalar::random(&mut rand::rngs::OsRng)
}

/// The successor of a scalar modulo the group order.
pub uninterp spec fn scalar_succ(s: Scalar) -> Scalar;

/// Relies on curve25519-dalek's `Scalar + Scalar` with `Scalar::ONE`: the
/// successor of `s` modulo the group order, a function of `s` alone.
#[verifier::external_body]
fn scalar_plus_one(s: &Scalar) -> (r: Scalar)
    ensures
        r == scalar_succ(*s),
{
    s + Scalar::ONE
}

impl Start for Scalar {
    fn start_for_thread(_thread: usize, _thread_count: usize) -> (r: Scalar) {
        random_scalar()
    }
}

impl Advance for Scalar {
    open spec fn succ(self) -> Scalar {
        scalar_succ(self)
    }

    fn advance(&mut self) {
        *self = scalar_plus_one(self);
    }
}

} // verus!
