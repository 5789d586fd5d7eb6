//! Multi-party authorization: a group of signers jointly controls an account,
//! and a call queued on that account runs only once enough of them approve it.
//!
//! The crate is a deterministic state machine. [`Pallet`] holds the accounts,
//! the per-signer membership index and the quorum-change proposals; each
//! operation validates, mutates that state and returns an [`Outcome`] with
//! the events to publish and the calls that left the queue for execution.
//! The host performs the execution itself, under the account's identity.
pub mod config;
pub mod hashing;
pub mod encoding;
pub mod address;
pub mod pending_call;
pub mod multi_signature_account;
pub mod errors;
pub mod events;
pub mod min_approval_proposal;
pub mod state;
pub mod pallet;
pub mod laws;
pub mod mock;

pub use address::{AccountId, derive_address};
pub use config::Config;
pub use errors::Error;
pub use events::{settle, Event, Outcome, Settlement};
pub use min_approval_proposal::MinimumApprovalProposal;
pub use mock::{
    IdentityValidator, OffenceHandler, SomeIdentifier, TestNextSessionRotation, TestSessionHandler,
};
pub use multi_signature_account::{MultiSigAcctError, MultiSignatureAccount};
pub use pallet::Pallet;
pub use pending_call::{PendingCall, PendingCallError};
