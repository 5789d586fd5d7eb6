//! What holds of the engine across its operations, proved from the
//! contracts of the operations themselves.
use vstd::prelude::*;
use crate::address::{
    address_of, AccountId, lemma_address_ignores_order, lemma_sorted_ids_ignores_order,
    lemma_sorted_ids_of_sorted,
};
use crate::config::Config;
use crate::errors::Error;
use crate::min_approval_proposal::{
    lemma_revoked_proposal_well_formed, pass_requirement_for, passes,
};
use crate::multi_signature_account::{
    account_well_formed, may_author, MultiSignatureAccountView, quorum_in_range,
};
use crate::state::{
    approval_applies, authoring_fault, call_approval_fault, call_approval_removal_fault,
    call_removal_fault, created_account, creation_fault, lemma_waiting_calls, memberships_of,
    PalletView, proposal_fault, quorum_adjustment_fault, quorum_approval_fault, revocation_fault,
    state_after_authoring, state_after_call_approval, state_after_call_approval_removal,
    state_after_call_removal, state_after_proposal, state_after_quorum_adjustment,
    state_after_quorum_approval, state_after_revocation, state_well_formed,
    state_with_new_account,
};

verus! {

/// Two accounts that are created for the same signers have the same address,
/// in whatever order the signers are given, and whatever their authors and
/// quorum are.
pub proof fn lemma_same_signers_same_account_address(
    first: Seq<AccountId>,
    second: Seq<AccountId>,
    first_authors: Option<Seq<AccountId>>,
    second_authors: Option<Seq<AccountId>>,
    first_quorum: u32,
    second_quorum: u32,
)
    requires
        first.to_multiset() == second.to_multiset(),
    ensures
        created_account(first, first_authors, first_quorum).address == created_account(
            second,
            second_authors,
            second_quorum,
        ).address,
        created_account(first, first_authors, first_quorum).signatories == created_account(
            second,
            second_authors,
            second_quorum,
        ).signatories,
{
    lemma_address_ignores_order(first, second);
    lemma_sorted_ids_ignores_order(first, second);
}

/// The address of a well-formed account is the address that its signers
/// give, in whatever order they are listed.
pub proof fn lemma_account_address_is_derived(
    account: MultiSignatureAccountView,
    config: Config,
    signers: Seq<AccountId>,
)
    requires
        account_well_formed(account, config),
        signers.to_multiset() == account.signatories.to_multiset(),
    ensures
        account.address == address_of(signers),
{
    lemma_sorted_ids_of_sorted(account.signatories);
    lemma_address_ignores_order(signers, account.signatories);
}

/// Whether `after` has the accounts of `before`, each with the address, the
/// signers and the authors it had, and the same index of memberships: only
/// quorums, queues and proposals may differ.
pub open spec fn keeps_identities(before: PalletView, after: PalletView) -> bool {
    &&& after.config == before.config
    &&& after.memberships == before.memberships
    &&& forall|address: AccountId|
        after.accounts.contains_key(address) <==> before.accounts.contains_key(address)
    &&& forall|address: AccountId| #[trigger]
        before.accounts.contains_key(address) ==> {
            &&& after.accounts[address].address == before.accounts[address].address
            &&& after.accounts[address].signatories == before.accounts[address].signatories
            &&& after.accounts[address].authors == before.accounts[address].authors
        }
}

/// Whether `after` differs from `before` in the account at `address` alone,
/// if at all, and in no proposal but the one for that account.
pub open spec fn touches_only(before: PalletView, after: PalletView, address: AccountId) -> bool {
    &&& forall|other: AccountId|
        other != address && #[trigger] before.accounts.contains_key(other)
            ==> after.accounts[other] == before.accounts[other]
    &&& forall|other: AccountId|
        other != address ==> (#[trigger] after.proposals.contains_key(other)
            <==> before.proposals.contains_key(other))
    &&& forall|other: AccountId|
        other != address && #[trigger] before.proposals.contains_key(other)
            ==> after.proposals[other] == before.proposals[other]
}

/// An account is created once and stays: no operation on an account deletes
/// an account, changes an address, a signer or an author, or touches the
/// index of memberships, and none reaches beyond the account it names.
pub proof fn lemma_operations_keep_identities(
    state: PalletView,
    origin: AccountId,
    address: AccountId,
    call: Seq<u8>,
    now: u64,
    call_id: [u8; 32],
    new_minimum: u32,
)
    requires
        state_well_formed(state),
    ensures
        authoring_fault(state, origin, address, call) is None ==> {
            let after = state_after_authoring(state, origin, address, call, now);
            keeps_identities(state, after) && touches_only(state, after, address)
        },
        call_approval_fault(state, origin, address, call_id) is None ==> {
            let after = state_after_call_approval(state, origin, address, call_id);
            keeps_identities(state, after) && touches_only(state, after, address)
        },
        call_approval_removal_fault(state, origin, address, call_id) is None ==> {
            let after = state_after_call_approval_removal(state, origin, address, call_id);
            keeps_identities(state, after) && touches_only(state, after, address)
        },
        call_removal_fault(state, origin, address, call_id) is None ==> {
            let after = state_after_call_removal(state, address, call_id);
            keeps_identities(state, after) && touches_only(state, after, address)
        },
        quorum_adjustment_fault(state, origin, address, new_minimum) is None ==> {
            let after = state_after_quorum_adjustment(state, address, new_minimum);
            keeps_identities(state, after) && touches_only(state, after, address)
        },
        proposal_fault(state, origin, address, new_minimum) is None ==> {
            let after = state_after_proposal(state, origin, address, new_minimum);
            keeps_identities(state, after) && touches_only(state, after, address)
        },
        quorum_approval_fault(state, origin, address) is None ==> {
            let after = state_after_quorum_approval(state, origin, address);
            keeps_identities(state, after) && touches_only(state, after, address)
        },
        revocation_fault(state, origin, address) is None ==> {
            let after = state_after_revocation(state, origin, address);
            keeps_identities(state, after) && touches_only(state, after, address)
        },
{
    if state.accounts.contains_key(address) {
        assert(state.accounts[address].address == address);
    }
}

/// To create an account leaves every other account and every proposal as
/// they were, and adds the new address to the memberships of the new
/// account's signers and of nobody else.
pub proof fn lemma_creation_keeps_other_accounts(
    state: PalletView,
    origin: AccountId,
    signatories: Seq<AccountId>,
    authors_opt: Option<Seq<AccountId>>,
    min_approvals: u32,
)
    requires
        state_well_formed(state),
        creation_fault(state, origin, signatories, authors_opt, min_approvals) is None,
    ensures
        ({
            let created = created_account(signatories, authors_opt, min_approvals);
            let after = state_with_new_account(state, created);
            &&& !state.accounts.contains_key(created.address)
            &&& after.accounts.contains_key(created.address)
            &&& after.accounts[created.address] == created
            &&& after.proposals == state.proposals
            &&& forall|other: AccountId| #[trigger]
                state.accounts.contains_key(other) ==> after.accounts.contains_key(other)
                    && after.accounts[other] == state.accounts[other]
            &&& forall|id: AccountId|
                !created.signatories.contains(id) ==> (#[trigger] after.memberships.contains_key(
                    id,
                ) <==> state.memberships.contains_key(id))
            &&& forall|id: AccountId|
                !created.signatories.contains(id) && #[trigger] state.memberships.contains_key(id)
                    ==> after.memberships[id] == state.memberships[id]
            &&& forall|id: AccountId| #[trigger]
                created.signatories.contains(id) ==> after.memberships.contains_key(id)
                    && after.memberships[id] == memberships_of(state.memberships, id).push(
                    created.address,
                )
        }),
{
}

/// A well-formed account is never without an author: where authors are
/// listed the list names at least one, and every listed author is a signer;
/// where none is listed every signer is an author.
pub proof fn lemma_account_has_an_author(account: MultiSignatureAccountView, config: Config)
    requires
        account_well_formed(account, config),
    ensures
        exists|id: AccountId|
            may_author(account.authors, account.signatories, id) && account.signatories.contains(
                id,
            ),
        account.authors matches Some(list) ==> list.len() > 0 && list.no_duplicates(),
{
    let id = match account.authors {
        Some(list) => list[0],
        None => account.signatories[0],
    };
    if let Some(list) = account.authors {
        assert(list.contains(list[0]));
        assert(account.signatories.contains(list[0]));
    } else {
        assert(account.signatories.contains(account.signatories[0]));
    }
    assert(may_author(account.authors, account.signatories, id) && account.signatories.contains(
        id,
    ));
}

/// An approval that is accepted in a sound state never leaves the account
/// with a quorum under the floor or over the number of its signers, whether
/// it applies the proposal or not; and it never changes the signers.
pub proof fn lemma_applied_quorum_in_range(
    state: PalletView,
    origin: AccountId,
    address: AccountId,
)
    requires
        state_well_formed(state),
        quorum_approval_fault(state, origin, address) is None,
    ensures
        state_after_quorum_approval(state, origin, address).accounts.contains_key(address),
        state_after_quorum_approval(state, origin, address).accounts[address].signatories
            == state.accounts[address].signatories,
        quorum_in_range(
            state_after_quorum_approval(state, origin, address).accounts[address].minimum_signatories,
            state.accounts[address].signatories.len(),
        ),
        approval_applies(state, origin, address) ==> state_after_quorum_approval(
            state,
            origin,
            address,
        ).accounts[address].minimum_signatories == state.proposals[address].new_minimum,
{
    assert(state.accounts.contains_key(address));
    assert(state.proposals.contains_key(address));
}

/// When an approval applies a proposal, no call with as many approvals as
/// the new quorum stays in the queue: the cascade takes them all in the
/// same step.
pub proof fn lemma_cascade_is_exhaustive(state: PalletView, origin: AccountId, address: AccountId)
    requires
        state_well_formed(state),
        quorum_approval_fault(state, origin, address) is None,
        approval_applies(state, origin, address),
    ensures
        forall|i: int|
            0 <= i < state_after_quorum_approval(
                state,
                origin,
                address,
            ).accounts[address].pending_calls.len() ==> (#[trigger] state_after_quorum_approval(
                state,
                origin,
                address,
            ).accounts[address].pending_calls[i]).approvals.len()
                < state.proposals[address].new_minimum,
{
    lemma_waiting_calls(
        state.accounts[address].pending_calls,
        state.proposals[address].new_minimum,
    );
}

/// The number of approvals a new proposal needs: to lower the quorum, more
/// than half of all signers; to raise it, the quorum that holds. Either way
/// the proposer's own approval is not enough.
pub proof fn lemma_pass_requirement(state: PalletView, origin: AccountId, address: AccountId, new_minimum: u32)
    requires
        state_well_formed(state),
        proposal_fault(state, origin, address, new_minimum) is None,
    ensures
        state_after_proposal(state, origin, address, new_minimum).proposals[address].pass_requirement
            == pass_requirement_for(
            state.accounts[address].signatories.len(),
            state.accounts[address].minimum_signatories,
            new_minimum,
        ),
        new_minimum < state.accounts[address].minimum_signatories ==> state_after_proposal(
            state,
            origin,
            address,
            new_minimum,
        ).proposals[address].pass_requirement == state.accounts[address].signatories.len() / 2 + 1,
        new_minimum > state.accounts[address].minimum_signatories ==> state_after_proposal(
            state,
            origin,
            address,
            new_minimum,
        ).proposals[address].pass_requirement == state.accounts[address].minimum_signatories,
        !passes(state_after_proposal(state, origin, address, new_minimum).proposals[address]),
{
    assert(state.accounts.contains_key(address));
}

/// While a proposal is outstanding for an account, every further proposal
/// by one of its authors is refused with `ProposalAlreadyPending`, whoever
/// makes it and whatever quorum it asks for.
pub proof fn lemma_at_most_one_proposal(
    state: PalletView,
    first_proposer: AccountId,
    first_minimum: u32,
    second_proposer: AccountId,
    second_minimum: u32,
    address: AccountId,
)
    requires
        proposal_fault(state, first_proposer, address, first_minimum) is None,
        may_author(
            state.accounts[address].authors,
            state.accounts[address].signatories,
            second_proposer,
        ),
    ensures
        proposal_fault(
            state_after_proposal(state, first_proposer, address, first_minimum),
            second_proposer,
            address,
            second_minimum,
        ) == Some(Error::ProposalAlreadyPending),
{
}

/// An author that authors a call of admissible size on an account whose
/// queue is full is refused with `CallLimit`.
pub proof fn lemma_full_queue_refuses_call(
    state: PalletView,
    origin: AccountId,
    address: AccountId,
    call: Seq<u8>,
)
    requires
        state.accounts.contains_key(address),
        may_author(state.accounts[address].authors, state.accounts[address].signatories, origin),
        call.len() <= state.config.max_call_size,
        state.accounts[address].pending_calls.len() >= state.config.max_pending_calls,
    ensures
        authoring_fault(state, origin, address, call) == Some(Error::CallLimit),
{
}

/// To revoke the last approval of a proposal deletes the proposal: after
/// it, the approval of any signer of the account is refused with
/// `ProposalNotFound`, and a new proposal can be made.
pub proof fn lemma_last_revocation_deletes_proposal(
    state: PalletView,
    origin: AccountId,
    address: AccountId,
    next_signer: AccountId,
)
    requires
        state_well_formed(state),
        revocation_fault(state, origin, address) is None,
        state.proposals[address].approvals.len() == 1,
        state.accounts[address].signatories.contains(next_signer),
    ensures
        !state_after_revocation(state, origin, address).proposals.contains_key(address),
        quorum_approval_fault(state_after_revocation(state, origin, address), next_signer, address)
            == Some(Error::ProposalNotFound),
{
    assert(state.proposals.contains_key(address));
    lemma_revoked_proposal_well_formed(
        state.proposals[address],
        state.accounts[address],
        origin,
        state.config,
    );
}

/// A revocation that leaves an approval behind keeps the proposal.
pub proof fn lemma_revocation_keeps_supported_proposal(
    state: PalletView,
    origin: AccountId,
    address: AccountId,
)
    requires
        state_well_formed(state),
        revocation_fault(state, origin, address) is None,
        state.proposals[address].approvals.len() > 1,
    ensures
        state_after_revocation(state, origin, address).proposals.contains_key(address),
        state_after_revocation(state, origin, address).proposals[address].approvals.len()
            == state.proposals[address].approvals.len() - 1,
{
    assert(state.proposals.contains_key(address));
    lemma_revoked_proposal_well_formed(
        state.proposals[address],
        state.accounts[address],
        origin,
        state.config,
    );
}

} // verus!
