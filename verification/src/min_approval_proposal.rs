//! A request to change the quorum of an account, and the approvals it has
//! gathered.
use vstd::prelude::*;
use crate::address::AccountId;
use crate::config::Config;
use crate::errors::Error;
use crate::multi_signature_account::{
    account_well_formed, contains_id, MINIMUM_QUORUM, MultiSignatureAccount,
    MultiSignatureAccountView, quorum_in_range,
};

verus! {

/// A proposed quorum that waits for approvals.
#[derive(Clone, Debug)]
pub struct MinimumApprovalProposal {
    /// Address of the account.
    pub msa_address: AccountId,
    /// The proposed quorum.
    pub new_minimum: u32,
    /// Who proposed it.
    pub proposer: AccountId,
    /// Who approves it, in the order in which they did.
    pub approvals: Vec<AccountId>,
    /// How many approvals apply the proposal. Fixed when it is made.
    pub pass_requirement: u32,
}

/// What a [`MinimumApprovalProposal`] holds, as mathematical values.
pub struct MinimumApprovalProposalView {
    pub msa_address: AccountId,
    pub new_minimum: u32,
    pub proposer: AccountId,
    pub approvals: Seq<AccountId>,
    pub pass_requirement: u32,
}

impl View for MinimumApprovalProposal {
    type V = MinimumApprovalProposalView;

    open spec fn view(&self) -> MinimumApprovalProposalView {
        MinimumApprovalProposalView {
            msa_address: self.msa_address,
            new_minimum: self.new_minimum,
            proposer: self.proposer,
            approvals: self.approvals@,
            pass_requirement: self.pass_requirement,
        }
    }
}

/// How many approvals a proposal needs to pass, on an account with
/// `signer_count` signers and the quorum `current_quorum`.
///
/// To lower the quorum takes a majority of all signers, whatever the quorum
/// is; to raise it takes the quorum that holds now.
pub open spec fn pass_requirement_for(
    signer_count: nat,
    current_quorum: u32,
    new_minimum: u32,
) -> nat {
    if new_minimum < current_quorum {
        signer_count / 2 + 1
    } else {
        current_quorum as nat
    }
}

/// Why `new_minimum` cannot be proposed for `account`, if it cannot: it is
/// out of range, or it is the quorum that holds already.
pub open spec fn new_minimum_fault(account: MultiSignatureAccountView, new_minimum: u32) -> Option<
    Error,
> {
    if !quorum_in_range(new_minimum, account.signatories.len()) {
        Some(Error::MinApprovalOutOfRange)
    } else if new_minimum == account.minimum_signatories {
        Some(Error::NewMinimumEqualsCurrentMinimum)
    } else {
        None
    }
}

/// The proposal that `proposer` makes for `account`, with the proposer's own
/// approval in it.
pub open spec fn new_proposal(
    account: MultiSignatureAccountView,
    new_minimum: u32,
    proposer: AccountId,
) -> MinimumApprovalProposalView {
    MinimumApprovalProposalView {
        msa_address: account.address,
        new_minimum,
        proposer,
        approvals: seq![proposer],
        pass_requirement: pass_requirement_for(
            account.signatories.len(),
            account.minimum_signatories,
            new_minimum,
        ) as u32,
    }
}

/// Why `signer` cannot approve `proposal`, if it cannot: it approves already,
/// or the approvals are full.
pub open spec fn approval_fault(
    proposal: MinimumApprovalProposalView,
    signer: AccountId,
    config: Config,
) -> Option<Error> {
    if proposal.approvals.contains(signer) {
        Some(Error::ApprovalExists)
    } else if proposal.approvals.len() >= config.max_signatories {
        Some(Error::ApprovalsLimitReached)
    } else {
        None
    }
}

/// `proposal` with the approval of `signer` added.
pub open spec fn approved_proposal(
    proposal: MinimumApprovalProposalView,
    signer: AccountId,
) -> MinimumApprovalProposalView {
    MinimumApprovalProposalView { approvals: proposal.approvals.push(signer), ..proposal }
}

/// `proposal` with the approval of `signer` taken away.
pub open spec fn revoked_proposal(
    proposal: MinimumApprovalProposalView,
    signer: AccountId,
) -> MinimumApprovalProposalView {
    MinimumApprovalProposalView { approvals: proposal.approvals.remove_value(signer), ..proposal }
}

/// Whether `proposal` has the approvals it needs to be applied.
pub open spec fn passes(proposal: MinimumApprovalProposalView) -> bool {
    proposal.approvals.len() >= proposal.pass_requirement
}

/// Whether `proposal` is a sound proposal for `account`: it names the
/// account, the quorum it proposes is one the account may have, and its
/// approvals are at least one, by different signers of the account, within
/// the limit.
pub open spec fn proposal_well_formed(
    proposal: MinimumApprovalProposalView,
    account: MultiSignatureAccountView,
    config: Config,
) -> bool {
    &&& proposal.msa_address == account.address
    &&& quorum_in_range(proposal.new_minimum, account.signatories.len())
    &&& proposal.approvals.no_duplicates()
    &&& 1 <= proposal.approvals.len() <= config.max_signatories
    &&& forall|i: int|
        0 <= i < proposal.approvals.len() ==> account.signatories.contains(
            #[trigger] proposal.approvals[i],
        )
}

/// The first place of `id` in `ids`.
pub fn position_of(ids: &Vec<AccountId>, id: AccountId) -> (res: Option<usize>)
    ensures
        match res {
            Some(i) => {
                &&& ids@.index_of_first(id) == Some(i as int)
                &&& i < ids@.len()
                &&& ids@.contains(id)
            },
            None => !ids@.contains(id),
        },
{
    let mut i: usize = 0;
    while i < ids.len()
        invariant
            i <= ids@.len(),
            forall|k: int| 0 <= k < i ==> ids@[k] != id,
        decreases ids@.len() - i,
    {
        if ids[i] == id {
            proof {
                ids@.index_of_first_ensures(id);
            }
            return Some(i);
        }
        i += 1;
    }
    None
}

impl MinimumApprovalProposal {
    /// The proposal is sound for `account`.
    pub open spec fn well_formed(&self, account: MultiSignatureAccountView, config: Config) -> bool {
        proposal_well_formed(self@, account, config)
    }

    /// Whether the proposal is sound for `msa` under the limits of `config`.
    pub fn is_well_formed(&self, msa: &MultiSignatureAccount, config: &Config) -> (ok: bool)
        ensures
            ok == self.well_formed(msa@, *config),
    {
        if self.msa_address != msa.address {
            return false;
        }
        if self.new_minimum < MINIMUM_QUORUM || self.new_minimum as usize > msa.signatories.len() {
            return false;
        }
        if self.approvals.len() < 1 || self.approvals.len() > config.max_signatories as usize {
            return false;
        }
        let mut i: usize = 0;
        while i < self.approvals.len()
            invariant
                i <= self.approvals@.len(),
                self.approvals@.take(i as int).no_duplicates(),
                forall|k: int|
                    0 <= k < i ==> msa@.signatories.contains(#[trigger] self.approvals@[k]),
            decreases self.approvals@.len() - i,
        {
            let approver: AccountId = self.approvals[i];
            if !contains_id(&msa.signatories, approver) {
                return false;
            }
            let mut j: usize = 0;
            while j < i
                invariant
                    j <= i < self.approvals@.len(),
                    approver == self.approvals@[i as int],
                    forall|k: int| 0 <= k < j ==> self.approvals@[k] != approver,
                decreases i - j,
            {
                if self.approvals[j] == approver {
                    return false;
                }
                j += 1;
            }
            assert(self.approvals@.take(i + 1) =~= self.approvals@.take(i as int).push(approver));
            i += 1;
        }
        assert(self.approvals@.take(self.approvals@.len() as int) =~= self.approvals@);
        true
    }

    /// The proposal of `proposer` to make `new_minimum` the quorum of `msa`.
    /// The proposer's approval is in it from the start, and the number of
    /// approvals that it needs is fixed here, by [`pass_requirement_for`].
    ///
    /// Fails with `MinApprovalOutOfRange` exactly when `new_minimum` is under
    /// 2 or over the number of signatories, and else with
    /// `NewMinimumEqualsCurrentMinimum` exactly when it is the quorum that
    /// holds.
    pub fn construct_min_approval_proposal(
        msa: &MultiSignatureAccount,
        new_minimum: u32,
        proposer: AccountId,
        config: &Config,
    ) -> (res: Result<Self, Error>)
        requires
            1 <= config.max_signatories,
            msa@.signatories.len() <= config.max_signatories,
        ensures
            match new_minimum_fault(msa@, new_minimum) {
                Some(fault) => res == Err::<Self, Error>(fault),
                None => res matches Ok(proposal) && proposal@ == new_proposal(
                    msa@,
                    new_minimum,
                    proposer,
                ),
            },
    {
        let signatories_count: u32 = msa.signatories.len() as u32;
        if new_minimum < MINIMUM_QUORUM || new_minimum > signatories_count {
            return Err(Error::MinApprovalOutOfRange);
        }
        if new_minimum == msa.minimum_signatories {
            return Err(Error::NewMinimumEqualsCurrentMinimum);
        }
        let min_approvals_to_change: u32 = if new_minimum < msa.minimum_signatories {
            (signatories_count / 2).saturating_add(1)
        } else {
            msa.minimum_signatories
        };
        if config.max_signatories < 1 {
            return Err(Error::FailedToBuildBoundedVec);
        }
        let mut approvals: Vec<AccountId> = Vec::new();
        approvals.push(proposer);
        assert(approvals@ =~= seq![proposer]);
        Ok(
            MinimumApprovalProposal {
                msa_address: msa.address,
                new_minimum,
                proposer,
                approvals,
                pass_requirement: min_approvals_to_change,
            },
        )
    }

    /// Adds the approval of `signer` and tells whether the proposal now has
    /// the approvals it needs.
    ///
    /// Fails, leaving the proposal as it was, with `ApprovalExists` exactly
    /// when `signer` approves already, and else with `ApprovalsLimitReached`
    /// exactly when the approvals are `config.max_signatories` or more.
    pub fn add_approval(&mut self, signer: AccountId, config: &Config) -> (res: Result<
        bool,
        Error,
    >)
        ensures
            match approval_fault(old(self)@, signer, *config) {
                Some(fault) => res == Err::<bool, Error>(fault) && final(self)@ == old(self)@,
                None => {
                    &&& final(self)@ == approved_proposal(old(self)@, signer)
                    &&& res == Ok::<bool, Error>(passes(final(self)@))
                },
            },
    {
        if contains_id(&self.approvals, signer) {
            return Err(Error::ApprovalExists);
        }
        if self.approvals.len() >= config.max_signatories as usize {
            return Err(Error::ApprovalsLimitReached);
        }
        self.approvals.push(signer);
        Ok(self.approvals.len() >= self.pass_requirement as usize)
    }

    /// Takes the approval of `signer` away and tells whether no approval is
    /// left.
    ///
    /// Fails with `ApprovalDoesntExist`, leaving the proposal as it was,
    /// exactly when `signer` does not approve.
    pub fn remove_approval(&mut self, signer: AccountId) -> (res: Result<bool, Error>)
        ensures
            !old(self)@.approvals.contains(signer) ==> {
                &&& res == Err::<bool, Error>(Error::ApprovalDoesntExist)
                &&& final(self)@ == old(self)@
            },
            old(self)@.approvals.contains(signer) ==> {
                &&& final(self)@ == revoked_proposal(old(self)@, signer)
                &&& res == Ok::<bool, Error>(final(self)@.approvals.len() == 0)
            },
    {
        match position_of(&self.approvals, signer) {
            None => Err(Error::ApprovalDoesntExist),
            Some(index) => {
                self.approvals.remove(index);
                Ok(self.approvals.len() == 0)
            },
        }
    }
}

/// A proposal that was just made is sound, and does not pass by the
/// proposer's approval alone.
pub proof fn lemma_new_proposal_well_formed(
    account: MultiSignatureAccountView,
    new_minimum: u32,
    proposer: AccountId,
    config: Config,
)
    requires
        account_well_formed(account, config),
        account.signatories.contains(proposer),
        new_minimum_fault(account, new_minimum) is None,
    ensures
        proposal_well_formed(new_proposal(account, new_minimum, proposer), account, config),
        !passes(new_proposal(account, new_minimum, proposer)),
        new_proposal(account, new_minimum, proposer).pass_requirement == pass_requirement_for(
            account.signatories.len(),
            account.minimum_signatories,
            new_minimum,
        ),
{
}

/// Approving keeps a sound proposal sound.
pub proof fn lemma_approved_proposal_well_formed(
    proposal: MinimumApprovalProposalView,
    account: MultiSignatureAccountView,
    signer: AccountId,
    config: Config,
)
    requires
        proposal_well_formed(proposal, account, config),
        account.signatories.contains(signer),
        approval_fault(proposal, signer, config) is None,
    ensures
        proposal_well_formed(approved_proposal(proposal, signer), account, config),
{
    let after = approved_proposal(proposal, signer).approvals;
    assert forall|i: int, j: int| 0 <= i < after.len() && 0 <= j < after.len() && i != j implies after[i]
        != after[j] by {
        if i < proposal.approvals.len() {
            assert(proposal.approvals.contains(after[i]));
        }
        if j < proposal.approvals.len() {
            assert(proposal.approvals.contains(after[j]));
        }
    }
    assert forall|i: int| 0 <= i < after.len() implies account.signatories.contains(
        #[trigger] after[i],
    ) by {
        if i < proposal.approvals.len() {
            assert(after[i] == proposal.approvals[i]);
        }
    }
}

/// Revoking keeps a sound proposal sound as long as an approval is left, and
/// the revoker's approval is gone.
pub proof fn lemma_revoked_proposal_well_formed(
    proposal: MinimumApprovalProposalView,
    account: MultiSignatureAccountView,
    signer: AccountId,
    config: Config,
)
    requires
        proposal_well_formed(proposal, account, config),
        proposal.approvals.contains(signer),
    ensures
        revoked_proposal(proposal, signer).approvals.len() == proposal.approvals.len() - 1,
        !revoked_proposal(proposal, signer).approvals.contains(signer),
        revoked_proposal(proposal, signer).approvals.len() > 0 ==> proposal_well_formed(
            revoked_proposal(proposal, signer),
            account,
            config,
        ),
{
    proposal.approvals.index_of_first_ensures(signer);
    let index = proposal.approvals.index_of_first(signer).unwrap();
    let after = revoked_proposal(proposal, signer).approvals;
    assert(after == proposal.approvals.remove(index));
    assert forall|i: int| 0 <= i < after.len() implies #[trigger] after[i] == proposal.approvals[if i
        < index {
        i
    } else {
        i + 1
    }] by {}
    if after.contains(signer) {
        let k = choose|k: int| 0 <= k < after.len() && after[k] == signer;
        assert(after[k] == proposal.approvals[if k < index {
            k
        } else {
            k + 1
        }]);
    }
    assert forall|i: int| 0 <= i < after.len() implies account.signatories.contains(
        #[trigger] after[i],
    ) by {
        assert(after[i] == proposal.approvals[if i < index {
            i
        } else {
            i + 1
        }]);
    }
}

} // verus!
