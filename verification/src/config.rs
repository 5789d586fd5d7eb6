use vstd::prelude::*;

verus! {

/// Capacity limits of the authorization engine.
#[derive(Clone, Copy, Debug)]
pub struct Config {
    /// Most signers one account may have.
    pub max_signatories: u32,
    /// Most calls that may wait on one account.
    pub max_pending_calls: u32,
    /// Most accounts one signer may belong to.
    pub max_multi_sigs_per_account_id: u32,
    /// Most bytes an encoded call may have.
    pub max_call_size: u32,
}

} // verus!
