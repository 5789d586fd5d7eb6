//! Stand-ins for the session and offence hooks of a host, for hosts that are
//! put together to try the engine out.
use vstd::prelude::*;
use crate::address::AccountId;

verus! {

/// A session handler that does nothing.
pub struct TestSessionHandler;

impl TestSessionHandler {
    /// Takes note that a validator was disabled: nothing is kept.
    pub fn on_disabled(_validator_index: u32) {
    }
}

/// Takes every account for its own validator.
pub struct IdentityValidator;

impl IdentityValidator {
    /// The validator that stands for `a`: `a` itself.
    pub fn convert(a: AccountId) -> (validator: Option<AccountId>)
        ensures
            validator == Some(a),
    {
        Some(a)
    }
}

/// Marks the host's estimate of when the session rotates next.
pub struct TestNextSessionRotation;

/// An offence handler that knows of no offence.
pub struct OffenceHandler;

impl OffenceHandler {
    /// Whether an offence of `_offenders` at `_time_slot` was reported
    /// before: never.
    pub fn is_known_offence(_offenders: &Vec<(AccountId, ())>, _time_slot: &u32) -> (known: bool)
        ensures
            !known,
    {
        false
    }
}

/// A four-byte name for a reserve, a freeze or a hold.
pub struct SomeIdentifier(pub [u8; 4]);

} // verus!
