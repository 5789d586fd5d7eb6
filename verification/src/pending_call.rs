//! A call that waits on an account for enough approvals.
use vstd::prelude::*;
use vstd::bytes::{lemma_auto_spec_u64_to_from_le_bytes, spec_u64_to_le_bytes};
use std::collections::BTreeSet;
use vstd::std_specs::iter::IteratorSpec;
use crate::address::AccountId;
use crate::config::Config;
use crate::encoding::{scale_encode_bytes, scale_encode_u64, scale_encoded_bytes};
use crate::hashing::{blake2_256_digest, digest, digest_of};

verus! {

broadcast use vstd::std_specs::btree::group_btree_axioms;

/// Why an operation on a pending call was refused.
#[derive(Clone, Copy, Debug, PartialEq, Eq, Structural)]
pub enum PendingCallError {
    /// The approval set is full.
    ReachedBoundedApprovalLimit,
    /// The encoded call is longer than the limit.
    FailureEncodingCall,
    /// The stored bytes are no call.
    FailureDecodingCall,
}

/// A queued call: the encoded command, the identifier derived from it, and
/// the signers that have approved it so far.
#[derive(Clone, Debug)]
pub struct PendingCall {
    /// Digest of the call tag, the encoded command and the authoring time.
    pub id: [u8; 32],
    /// The encoded command. The engine never looks inside.
    pub call: Vec<u8>,
    /// The signers that approve the call.
    pub approvals: BTreeSet<AccountId>,
}

/// What a [`PendingCall`] holds, as mathematical values.
pub struct PendingCallView {
    pub id: [u8; 32],
    pub call: Seq<u8>,
    pub approvals: Set<AccountId>,
}

impl View for PendingCall {
    type V = PendingCallView;

    open spec fn view(&self) -> PendingCallView {
        PendingCallView { id: self.id, call: self.call@, approvals: self.approvals@ }
    }
}

/// The tag that sets call-id digests apart from every other digest.
pub open spec fn call_id_tag() -> Seq<u8> {
    seq![0x63u8, 0x61u8, 0x6cu8, 0x6cu8, 0x2du8, 0x69u8, 0x64u8]
}

/// The bytes that are hashed for the identifier of a call authored at `now`.
pub open spec fn call_id_preimage(call: Seq<u8>, now: u64) -> Seq<u8> {
    call_id_tag() + scale_encoded_bytes(call) + scale_encoded_bytes(spec_u64_to_le_bytes(now))
}

/// The identifier of the call with the encoded command `call`, authored at
/// `now`. The same command at the same time has the same identifier.
pub open spec fn call_id_of(call: Seq<u8>, now: u64) -> [u8; 32] {
    digest_of(call_id_preimage(call, now))
}

/// The call that `author` authors at `now` with the encoded command `call`:
/// the author's approval is in it from the start.
pub open spec fn authored_call(
    call: Seq<u8>,
    author: AccountId,
    now: u64,
    config: Config,
) -> PendingCallView {
    PendingCallView {
        id: call_id_of(call, now),
        call,
        approvals: initial_approvals(author, config.max_signatories),
    }
}

/// The approvals of a call that `author` just created, under a limit of
/// `max_signatories` approvals.
pub open spec fn initial_approvals(author: AccountId, max_signatories: u32) -> Set<AccountId> {
    if max_signatories > 0 {
        Set::<AccountId>::empty().insert(author)
    } else {
        Set::<AccountId>::empty()
    }
}

/// Whether a set that holds `approvals` admits `signatory` under a limit of
/// `max_signatories`: there is room, or the signer is in it already.
pub open spec fn admits_approval(
    approvals: Set<AccountId>,
    signatory: AccountId,
    max_signatories: u32,
) -> bool {
    approvals.len() < max_signatories || approvals.contains(signatory)
}

/// Whether a call respects the limits of `config`: its command is no longer
/// than a call may be, and it has no more approvals than an account may have
/// signers.
pub open spec fn call_well_formed(call: PendingCallView, config: Config) -> bool {
    &&& call.call.len() <= config.max_call_size
    &&& call.approvals.finite()
    &&& call.approvals.len() <= config.max_signatories
}

/// A stored set of approvals holds finitely many signers.
pub proof fn lemma_approvals_finite(approvals: &BTreeSet<AccountId>)
    ensures
        approvals@.finite(),
{
    vstd::std_specs::btree::axiom_spec_btree_keys_iter(approvals);
    let keys = vstd::std_specs::btree::spec_btree_keys_iter(approvals).remaining().unref();
    vstd::seq_lib::seq_to_set_is_finite(keys);
}

/// Whether every approver in `approvals` is one of `signers`.
pub fn approvals_among(approvals: &BTreeSet<AccountId>, signers: &Vec<AccountId>) -> (ok: bool)
    requires
        signers@.no_duplicates(),
    ensures
        ok == approvals@.subset_of(signers@.to_set()),
{
    proof {
        lemma_approvals_finite(approvals);
    }
    let mut count: usize = 0;
    let mut i: usize = 0;
    assert(signers@.take(0).to_set().intersect(approvals@) =~= Set::<AccountId>::empty());
    while i < signers.len()
        invariant
            i <= signers@.len(),
            count <= i,
            approvals@.finite(),
            signers@.no_duplicates(),
            count == signers@.take(i as int).to_set().intersect(approvals@).len(),
        decreases signers@.len() - i,
    {
        let signer: AccountId = signers[i];
        let approves: bool = approvals.contains(&signer);
        proof {
            let done = signers@.take(i as int);
            let next = signers@.take(i + 1);
            assert(next =~= done.push(signer));
            assert(!done.contains(signer)) by {
                if done.contains(signer) {
                    let k = choose|k: int| 0 <= k < done.len() && done[k] == signer;
                    assert(signers@[k] == signers@[i as int]);
                }
            }
            assert forall|id: AccountId| next.contains(id) <==> (done.contains(id) || id
                == signer) by {
                if done.contains(id) {
                    let k = choose|k: int| 0 <= k < done.len() && done[k] == id;
                    assert(next[k] == id);
                }
                if id == signer {
                    assert(next[i as int] == id);
                }
            }
            vstd::seq_lib::seq_to_set_is_finite(done);
            let hit = done.to_set().intersect(approvals@);
            vstd::set::axiom_set_intersect_finite(done.to_set(), approvals@);
            if approves {
                assert(next.to_set().intersect(approvals@) =~= hit.insert(signer));
                assert(!hit.contains(signer));
            } else {
                assert(next.to_set().intersect(approvals@) =~= hit);
            }
        }
        if approves {
            count += 1;
        }
        i += 1;
    }
    proof {
        assert(signers@.take(signers@.len() as int) =~= signers@);
        let hit = signers@.to_set().intersect(approvals@);
        vstd::seq_lib::seq_to_set_is_finite(signers@);
        vstd::set::axiom_set_intersect_finite(signers@.to_set(), approvals@);
        if count == approvals@.len() {
            vstd::set_lib::lemma_subset_equality(hit, approvals@);
            assert(approvals@.subset_of(signers@.to_set()));
        }
        if approvals@.subset_of(signers@.to_set()) {
            assert(hit =~= approvals@);
        }
    }
    count == approvals.len()
}

/// Whether two identifiers are the same.
pub fn same_call_id(a: &[u8; 32], b: &[u8; 32]) -> (same: bool)
    ensures
        same == (*a == *b),
{
    broadcast use vstd::array::group_array_axioms;

    let mut i: usize = 0;
    while i < 32
        invariant
            i <= 32,
            forall|k: int| 0 <= k < i ==> a@[k] == b@[k],
        decreases 32 - i,
    {
        if a[i] != b[i] {
            return false;
        }
        i += 1;
    }
    assert(*a =~= *b);
    true
}

impl PendingCall {
    /// The call respects the limits of `config`.
    pub open spec fn well_formed(&self, config: Config) -> bool {
        call_well_formed(self@, config)
    }

    /// Whether the call respects the limits of `config`.
    pub fn is_well_formed(&self, config: &Config) -> (ok: bool)
        ensures
            ok == self.well_formed(*config),
    {
        proof {
            lemma_approvals_finite(&self.approvals);
        }
        self.call.len() <= config.max_call_size as usize && self.approvals.len()
            <= config.max_signatories as usize
    }

    /// The bytes of the call-id tag.
    pub fn call_id_tag_bytes() -> (tag: Vec<u8>)
        ensures
            tag@ == call_id_tag(),
    {
        let tag: Vec<u8> = vec![0x63u8, 0x61u8, 0x6cu8, 0x6cu8, 0x2du8, 0x69u8, 0x64u8];
        assert(tag@ =~= call_id_tag());
        tag
    }

    /// The identifier of the call with the encoded command `call`, authored
    /// at the logical time `now`.
    pub fn generate_call_id(call: &Vec<u8>, now: u64) -> (id: [u8; 32])
        requires
            call@.len() <= u32::MAX,
        ensures
            id == call_id_of(call@, now),
            id@ == blake2_256_digest(call_id_preimage(call@, now)),
    {
        let mut preimage: Vec<u8> = Self::call_id_tag_bytes();
        let mut encoded_call: Vec<u8> = scale_encode_bytes(call);
        preimage.append(&mut encoded_call);
        let time_bytes: Vec<u8> = scale_encode_u64(now);
        proof {
            lemma_auto_spec_u64_to_from_le_bytes();
        }
        let mut encoded_time: Vec<u8> = scale_encode_bytes(&time_bytes);
        preimage.append(&mut encoded_time);
        digest(&preimage)
    }

    /// Checks an encoded command against the size limit and hands it back.
    pub fn encode_call(call: Vec<u8>, config: &Config) -> (res: Result<Vec<u8>, PendingCallError>)
        ensures
            call@.len() <= config.max_call_size ==> res == Ok::<Vec<u8>, PendingCallError>(call),
            call@.len() > config.max_call_size ==> res == Err::<Vec<u8>, PendingCallError>(
                PendingCallError::FailureEncodingCall,
            ),
    {
        if call.len() <= config.max_call_size as usize {
            Ok(call)
        } else {
            Err(PendingCallError::FailureEncodingCall)
        }
    }

    /// A new pending call with the encoded command `call`, authored by
    /// `author` at the logical time `now`. The author's approval is in it
    /// from the start.
    ///
    /// Fails with `FailureEncodingCall` exactly when the command is longer
    /// than `config.max_call_size`.
    pub fn new(call: Vec<u8>, author: AccountId, now: u64, config: &Config) -> (res: Result<
        Self,
        PendingCallError,
    >)
        ensures
            call@.len() > config.max_call_size <==> res == Err::<Self, PendingCallError>(
                PendingCallError::FailureEncodingCall,
            ),
            call@.len() <= config.max_call_size <==> res is Ok,
            res matches Ok(pending) ==> {
                &&& pending@ == authored_call(call@, author, now, *config)
                &&& pending.id@ == blake2_256_digest(call_id_preimage(call@, now))
                &&& pending.well_formed(*config)
            },
    {
        let mut approvals: BTreeSet<AccountId> = BTreeSet::new();
        if config.max_signatories > 0 {
            approvals.insert(author);
        }
        match Self::encode_call(call, config) {
            Ok(call) => {
                let id: [u8; 32] = Self::generate_call_id(&call, now);
                Ok(PendingCall { id, call, approvals })
            },
            Err(e) => Err(e),
        }
    }

    /// Adds the approval of `signatory` and returns how many approvals the
    /// call then has. Adding an approval that is already there changes
    /// nothing and succeeds.
    ///
    /// Fails with `ReachedBoundedApprovalLimit`, leaving the call as it was,
    /// exactly when the set holds `config.max_signatories` approvals or more
    /// and `signatory` is not among them.
    pub fn add_approval(&mut self, signatory: AccountId, config: &Config) -> (res: Result<
        u32,
        PendingCallError,
    >)
        requires
            old(self).well_formed(*config),
        ensures
            final(self).well_formed(*config),
            final(self).id == old(self).id,
            final(self).call == old(self).call,
            admits_approval(old(self).approvals@, signatory, config.max_signatories) ==> {
                &&& final(self).approvals@ == old(self).approvals@.insert(signatory)
                &&& res == Ok::<u32, PendingCallError>(final(self).approvals@.len() as u32)
            },
            !admits_approval(old(self).approvals@, signatory, config.max_signatories) ==> {
                &&& final(self).approvals@ == old(self).approvals@
                &&& res == Err::<u32, PendingCallError>(
                    PendingCallError::ReachedBoundedApprovalLimit,
                )
            },
    {
        if self.approvals.len() < config.max_signatories as usize || self.approvals.contains(
            &signatory,
        ) {
            self.approvals.insert(signatory);
            Ok(self.approvals.len() as u32)
        } else {
            Err(PendingCallError::ReachedBoundedApprovalLimit)
        }
    }

    /// Takes the approval of `author` away, if it is there. Never fails, and
    /// keeps a well-formed call well formed.
    pub fn remove_approval(&mut self, author: AccountId) -> (res: Result<(), PendingCallError>)
        ensures
            res is Ok,
            final(self).id == old(self).id,
            final(self).call == old(self).call,
            final(self).approvals@ == old(self).approvals@.remove(author),
            forall|config: Config|
                old(self).well_formed(config) ==> #[trigger] final(self).well_formed(config),
    {
        proof {
            lemma_approvals_finite(&self.approvals);
        }
        let _ = self.approvals.remove(&author);
        Ok(())
    }
}

} // verus!
