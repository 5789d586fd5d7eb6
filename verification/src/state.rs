//! The state of the engine as mathematical values, what each operation
//! refuses and what it does to the state.
use vstd::prelude::*;
use crate::address::{AccountId, address_of, sorted_ids};
use crate::config::Config;
use crate::errors::Error;
use crate::events::{Event, execution_events, OutcomeView};
use crate::min_approval_proposal::{
    approval_fault, approved_proposal, MinimumApprovalProposalView, new_minimum_fault,
    new_proposal, passes, proposal_well_formed, revoked_proposal,
};
use crate::multi_signature_account::{
    account_well_formed, all_signers, has_call, index_of_call, may_author,
    MultiSignatureAccountView, quorum_in_range, swap_removed,
};
use crate::pending_call::{authored_call, call_well_formed, PendingCallView};

verus! {

/// What a [`Pallet`](crate::pallet::Pallet) holds, as mathematical values.
pub struct PalletView {
    pub config: Config,
    pub accounts: Map<AccountId, MultiSignatureAccountView>,
    pub memberships: Map<AccountId, Seq<AccountId>>,
    pub proposals: Map<AccountId, MinimumApprovalProposalView>,
}

/// Whether a state is sound: every account is well formed and stored under
/// its own address; every proposal belongs to an account and is sound for
/// it; no signer belongs to more accounts than the limit allows.
pub open spec fn state_well_formed(state: PalletView) -> bool {
    &&& forall|address: AccountId| #[trigger]
        state.accounts.contains_key(address) ==> {
            &&& account_well_formed(state.accounts[address], state.config)
            &&& state.accounts[address].address == address
        }
    &&& forall|address: AccountId| #[trigger]
        state.proposals.contains_key(address) ==> {
            &&& state.accounts.contains_key(address)
            &&& proposal_well_formed(
                state.proposals[address],
                state.accounts[address],
                state.config,
            )
        }
    &&& forall|id: AccountId| #[trigger]
        state.memberships.contains_key(id) ==> state.memberships[id].len()
            <= state.config.max_multi_sigs_per_account_id
}

/// The accounts that `id` belongs to, as far as the index knows.
pub open spec fn memberships_of(
    memberships: Map<AccountId, Seq<AccountId>>,
    id: AccountId,
) -> Seq<AccountId> {
    if memberships.contains_key(id) {
        memberships[id]
    } else {
        Seq::<AccountId>::empty()
    }
}

/// The first fault among `signatories` from place `i` on, if any: a signer
/// that stands in the list before, or one that belongs to `cap` accounts or
/// more already.
pub open spec fn signer_fault_from(
    memberships: Map<AccountId, Seq<AccountId>>,
    cap: u32,
    signatories: Seq<AccountId>,
    i: int,
) -> Option<Error>
    decreases signatories.len() - i,
{
    if i < 0 || i >= signatories.len() {
        None
    } else if signatories.take(i).contains(signatories[i]) {
        Some(Error::DuplicatesInList)
    } else if memberships_of(memberships, signatories[i]).len() >= cap {
        Some(Error::AccountAtMultiSigLimit)
    } else {
        signer_fault_from(memberships, cap, signatories, i + 1)
    }
}

/// Why `signatories` cannot be the signers of a new account that `creator`
/// creates with the quorum `min_approvals`, if they cannot.
pub open spec fn signatories_fault(
    memberships: Map<AccountId, Seq<AccountId>>,
    cap: u32,
    signatories: Seq<AccountId>,
    creator: AccountId,
    min_approvals: u32,
) -> Option<Error> {
    if signatories.len() < 2 {
        Some(Error::SignatoriesTooShort)
    } else if !quorum_in_range(min_approvals, signatories.len()) {
        Some(Error::MinApprovalOutOfRange)
    } else if signer_fault_from(memberships, cap, signatories, 0) is Some {
        signer_fault_from(memberships, cap, signatories, 0)
    } else if !signatories.contains(creator) {
        Some(Error::CallerNotSignatory)
    } else {
        None
    }
}

/// Why `authors_opt` cannot be the authors of an account with these
/// signatories, if it cannot. A list as long as the signatories stands for
/// "every signer" and is not looked into; any other list names at least one
/// author, none twice, and signers only.
pub open spec fn authors_fault(
    authors_opt: Option<Seq<AccountId>>,
    signatories: Seq<AccountId>,
    config: Config,
) -> Option<Error> {
    match authors_opt {
        None => None,
        Some(authors) => if authors.len() == signatories.len() {
            None
        } else if authors.len() == 0 {
            Some(Error::AuthorListEmpty)
        } else if !authors.no_duplicates() {
            Some(Error::DuplicatesInList)
        } else if !all_signers(authors, signatories) {
            Some(Error::AccountNotAuthor)
        } else if authors.len() > config.max_signatories {
            Some(Error::AccountErrorMaxAuthors)
        } else {
            None
        },
    }
}

/// The authors that an account is stored with: `None`, every signer, where
/// none was given or as many as there are signatories; else the given ones
/// in ascending order.
pub open spec fn prepared_authors(
    authors_opt: Option<Seq<AccountId>>,
    signatories: Seq<AccountId>,
) -> Option<Seq<AccountId>> {
    match authors_opt {
        None => None,
        Some(authors) => if authors.len() == signatories.len() {
            None
        } else {
            Some(sorted_ids(authors))
        },
    }
}

/// The index of memberships after the account at `address` was created for
/// `signers`: the address is added behind what each signer had.
pub open spec fn enrolled(
    memberships: Map<AccountId, Seq<AccountId>>,
    signers: Seq<AccountId>,
    address: AccountId,
) -> Map<AccountId, Seq<AccountId>> {
    Map::new(
        |id: AccountId| memberships.contains_key(id) || signers.contains(id),
        |id: AccountId|
            if signers.contains(id) {
                memberships_of(memberships, id).push(address)
            } else {
                memberships[id]
            },
    )
}

/// Why `origin` cannot create an account with these signers, authors and
/// quorum, if it cannot. The signers are checked in ascending order.
pub open spec fn creation_fault(
    state: PalletView,
    origin: AccountId,
    signatories: Seq<AccountId>,
    authors_opt: Option<Seq<AccountId>>,
    min_approvals: u32,
) -> Option<Error> {
    let sorted = sorted_ids(signatories);
    let signers_fault = signatories_fault(
        state.memberships,
        state.config.max_multi_sigs_per_account_id,
        sorted,
        origin,
        min_approvals,
    );
    if signatories.len() > state.config.max_signatories {
        Some(Error::SignatoriesTooLong)
    } else if signers_fault is Some {
        signers_fault
    } else if authors_fault(authors_opt, sorted, state.config) is Some {
        authors_fault(authors_opt, sorted, state.config)
    } else if state.accounts.contains_key(address_of(signatories)) {
        Some(Error::MSAAlreadyExists)
    } else {
        None
    }
}

/// The account that is created for these signers, authors and quorum: the
/// signers in ascending order, the address that they give, no pending call.
pub open spec fn created_account(
    signatories: Seq<AccountId>,
    authors_opt: Option<Seq<AccountId>>,
    min_approvals: u32,
) -> MultiSignatureAccountView {
    let sorted = sorted_ids(signatories);
    MultiSignatureAccountView {
        address: address_of(signatories),
        authors: prepared_authors(authors_opt, sorted),
        signatories: sorted,
        minimum_signatories: min_approvals,
        pending_calls: Seq::<PendingCallView>::empty(),
    }
}

/// The state after `account` was stored and its signers were enrolled.
pub open spec fn state_with_new_account(
    state: PalletView,
    account: MultiSignatureAccountView,
) -> PalletView {
    PalletView {
        accounts: state.accounts.insert(account.address, account),
        memberships: enrolled(state.memberships, account.signatories, account.address),
        ..state
    }
}

/// An outcome that holds these events and no call to execute.
pub open spec fn events_only(events: Seq<Event>) -> OutcomeView {
    OutcomeView { events, executed: Seq::<PendingCallView>::empty() }
}

/// `state` with `account` stored under its address.
pub open spec fn with_account(state: PalletView, account: MultiSignatureAccountView) -> PalletView {
    PalletView { accounts: state.accounts.insert(account.address, account), ..state }
}

/// `account` with `pending_calls` as its queue.
pub open spec fn with_pending_calls(
    account: MultiSignatureAccountView,
    pending_calls: Seq<PendingCallView>,
) -> MultiSignatureAccountView {
    MultiSignatureAccountView { pending_calls, ..account }
}

/// Why `origin` cannot author the encoded command `call` on the account at
/// `address`, if it cannot.
pub open spec fn authoring_fault(
    state: PalletView,
    origin: AccountId,
    address: AccountId,
    call: Seq<u8>,
) -> Option<Error> {
    if !state.accounts.contains_key(address) {
        Some(Error::MSANotFound)
    } else if !may_author(
        state.accounts[address].authors,
        state.accounts[address].signatories,
        origin,
    ) {
        Some(Error::AccountNotAuthor)
    } else if call.len() > state.config.max_call_size {
        Some(Error::FailedToCreatePendingCall)
    } else if state.accounts[address].pending_calls.len() >= state.config.max_pending_calls {
        Some(Error::CallLimit)
    } else {
        None
    }
}

/// The state after `origin` authored `call` at `now` on the account at
/// `address`: the new call stands last in the queue.
pub open spec fn state_after_authoring(
    state: PalletView,
    origin: AccountId,
    address: AccountId,
    call: Seq<u8>,
    now: u64,
) -> PalletView {
    let account = state.accounts[address];
    with_account(
        state,
        with_pending_calls(
            account,
            account.pending_calls.push(authored_call(call, origin, now, state.config)),
        ),
    )
}

/// The pending call of `account` that `call_id` names: the first with that
/// identifier.
pub open spec fn named_call(account: MultiSignatureAccountView, call_id: [u8; 32]) -> PendingCallView {
    account.pending_calls[index_of_call(account.pending_calls, call_id)]
}

/// Why `origin` cannot approve the call `call_id` on the account at
/// `address`, if it cannot.
pub open spec fn call_approval_fault(
    state: PalletView,
    origin: AccountId,
    address: AccountId,
    call_id: [u8; 32],
) -> Option<Error> {
    if !state.accounts.contains_key(address) {
        Some(Error::MSANotFound)
    } else if !state.accounts[address].signatories.contains(origin) {
        Some(Error::AccountNotSignatory)
    } else if !has_call(state.accounts[address].pending_calls, call_id) {
        Some(Error::CallNotFound)
    } else if named_call(state.accounts[address], call_id).approvals.contains(origin) {
        Some(Error::ApprovalExists)
    } else if named_call(state.accounts[address], call_id).approvals.len()
        >= state.config.max_signatories {
        Some(Error::ApprovalsLimitReached)
    } else {
        None
    }
}

/// `call` with the approval of `signer` added.
pub open spec fn approved_call(call: PendingCallView, signer: AccountId) -> PendingCallView {
    PendingCallView { approvals: call.approvals.insert(signer), ..call }
}

/// `call` with the approval of `signer` taken away.
pub open spec fn unapproved_call(call: PendingCallView, signer: AccountId) -> PendingCallView {
    PendingCallView { approvals: call.approvals.remove(signer), ..call }
}

/// Whether `call` has exactly the approvals that `quorum` asks for.
pub open spec fn reaches_quorum(call: PendingCallView, quorum: u32) -> bool {
    call.approvals.len() == quorum
}

/// The state after `origin` approved the call `call_id` on the account at
/// `address`. The call leaves its place in the queue, which the last call
/// takes. If it has reached the quorum it is gone; else it stands last, with
/// the new approval.
pub open spec fn state_after_call_approval(
    state: PalletView,
    origin: AccountId,
    address: AccountId,
    call_id: [u8; 32],
) -> PalletView {
    let account = state.accounts[address];
    let call = approved_call(named_call(account, call_id), origin);
    let rest = swap_removed(account.pending_calls, index_of_call(account.pending_calls, call_id));
    with_account(
        state,
        with_pending_calls(
            account,
            if reaches_quorum(call, account.minimum_signatories) {
                rest
            } else {
                rest.push(call)
            },
        ),
    )
}

/// What is reported after `origin` approved the call `call_id` on the
/// account at `address`: the approval, and before it the execution of the
/// call if it has reached the quorum.
pub open spec fn outcome_of_call_approval(
    state: PalletView,
    origin: AccountId,
    address: AccountId,
    call_id: [u8; 32],
) -> OutcomeView {
    let account = state.accounts[address];
    let call = approved_call(named_call(account, call_id), origin);
    if reaches_quorum(call, account.minimum_signatories) {
        OutcomeView {
            events: seq![Event::CallExecuted(call.id), Event::ApprovalAdded(address, origin)],
            executed: seq![call],
        }
    } else {
        events_only(seq![Event::ApprovalAdded(address, origin)])
    }
}

/// Why `origin` cannot take its approval of the call `call_id` back on the
/// account at `address`, if it cannot.
pub open spec fn call_approval_removal_fault(
    state: PalletView,
    origin: AccountId,
    address: AccountId,
    call_id: [u8; 32],
) -> Option<Error> {
    if !state.accounts.contains_key(address) {
        Some(Error::MSANotFound)
    } else if !state.accounts[address].signatories.contains(origin) {
        Some(Error::AccountNotSignatory)
    } else if !has_call(state.accounts[address].pending_calls, call_id) {
        Some(Error::CallNotFound)
    } else if !named_call(state.accounts[address], call_id).approvals.contains(origin) {
        Some(Error::ApprovalDoesntExist)
    } else {
        None
    }
}

/// The state after `origin` took its approval of the call `call_id` back.
/// The call leaves its place in the queue, which the last call takes, and
/// stands last, without the approval.
pub open spec fn state_after_call_approval_removal(
    state: PalletView,
    origin: AccountId,
    address: AccountId,
    call_id: [u8; 32],
) -> PalletView {
    let account = state.accounts[address];
    let call = unapproved_call(named_call(account, call_id), origin);
    let rest = swap_removed(account.pending_calls, index_of_call(account.pending_calls, call_id));
    with_account(state, with_pending_calls(account, rest.push(call)))
}

/// Why `origin` cannot remove the call `call_id` from the account at
/// `address`, if it cannot.
pub open spec fn call_removal_fault(
    state: PalletView,
    origin: AccountId,
    address: AccountId,
    call_id: [u8; 32],
) -> Option<Error> {
    if !state.accounts.contains_key(address) {
        Some(Error::MSANotFound)
    } else if !may_author(
        state.accounts[address].authors,
        state.accounts[address].signatories,
        origin,
    ) {
        Some(Error::AccountNotAuthor)
    } else if !has_call(state.accounts[address].pending_calls, call_id) {
        Some(Error::CallNotFound)
    } else {
        None
    }
}

/// The state after the call `call_id` was removed from the account at
/// `address`. The calls behind it keep their order.
pub open spec fn state_after_call_removal(
    state: PalletView,
    address: AccountId,
    call_id: [u8; 32],
) -> PalletView {
    let account = state.accounts[address];
    with_account(
        state,
        with_pending_calls(
            account,
            account.pending_calls.remove(index_of_call(account.pending_calls, call_id)),
        ),
    )
}

/// Why `origin` cannot set the quorum of the account at `address` to
/// `new_min_approvals`, if it cannot.
pub open spec fn quorum_adjustment_fault(
    state: PalletView,
    origin: AccountId,
    address: AccountId,
    new_min_approvals: u32,
) -> Option<Error> {
    if !state.accounts.contains_key(address) {
        Some(Error::MSANotFound)
    } else if !may_author(
        state.accounts[address].authors,
        state.accounts[address].signatories,
        origin,
    ) {
        Some(Error::AccountNotAuthor)
    } else if !quorum_in_range(new_min_approvals, state.accounts[address].signatories.len()) {
        Some(Error::MinApprovalOutOfRange)
    } else {
        None
    }
}

/// The state after the quorum of the account at `address` was set to
/// `new_min_approvals`.
pub open spec fn state_after_quorum_adjustment(
    state: PalletView,
    address: AccountId,
    new_min_approvals: u32,
) -> PalletView {
    with_account(
        state,
        MultiSignatureAccountView {
            minimum_signatories: new_min_approvals,
            ..state.accounts[address]
        },
    )
}

/// The calls with `quorum` approvals or more.
pub open spec fn is_ready(quorum: u32) -> spec_fn(PendingCallView) -> bool {
    |call: PendingCallView| call.approvals.len() >= quorum
}

/// The calls with fewer than `quorum` approvals.
pub open spec fn is_waiting(quorum: u32) -> spec_fn(PendingCallView) -> bool {
    |call: PendingCallView| call.approvals.len() < quorum
}

/// The calls of `calls` that have `quorum` approvals or more, in order.
pub open spec fn ready_calls(calls: Seq<PendingCallView>, quorum: u32) -> Seq<PendingCallView> {
    calls.filter(is_ready(quorum))
}

/// The calls of `calls` that have fewer than `quorum` approvals, in order.
pub open spec fn waiting_calls(calls: Seq<PendingCallView>, quorum: u32) -> Seq<PendingCallView> {
    calls.filter(is_waiting(quorum))
}

/// Why `origin` cannot propose `new_min_approvals` as the quorum of the
/// account at `address`, if it cannot.
pub open spec fn proposal_fault(
    state: PalletView,
    origin: AccountId,
    address: AccountId,
    new_min_approvals: u32,
) -> Option<Error> {
    if !state.accounts.contains_key(address) {
        Some(Error::MSANotFound)
    } else if !may_author(
        state.accounts[address].authors,
        state.accounts[address].signatories,
        origin,
    ) {
        Some(Error::AccountNotAuthor)
    } else if state.proposals.contains_key(address) {
        Some(Error::ProposalAlreadyPending)
    } else {
        new_minimum_fault(state.accounts[address], new_min_approvals)
    }
}

/// The state after `origin` proposed `new_min_approvals` as the quorum of
/// the account at `address`.
pub open spec fn state_after_proposal(
    state: PalletView,
    origin: AccountId,
    address: AccountId,
    new_min_approvals: u32,
) -> PalletView {
    PalletView {
        proposals: state.proposals.insert(
            address,
            new_proposal(state.accounts[address], new_min_approvals, origin),
        ),
        ..state
    }
}

/// Why `origin` cannot approve the proposal for the account at `address`,
/// if it cannot.
pub open spec fn quorum_approval_fault(
    state: PalletView,
    origin: AccountId,
    address: AccountId,
) -> Option<Error> {
    if !state.accounts.contains_key(address) {
        Some(Error::MSANotFound)
    } else if !state.accounts[address].signatories.contains(origin) {
        Some(Error::AccountNotSignatory)
    } else if !state.proposals.contains_key(address) {
        Some(Error::ProposalNotFound)
    } else {
        approval_fault(state.proposals[address], origin, state.config)
    }
}

/// Whether the approval of `origin` applies the proposal for the account at
/// `address`.
pub open spec fn approval_applies(state: PalletView, origin: AccountId, address: AccountId) -> bool {
    passes(approved_proposal(state.proposals[address], origin))
}

/// The state after `origin` approved the proposal for the account at
/// `address`.
///
/// Where the approval applies the proposal, the account has the proposed
/// quorum, the proposal is gone, and every pending call that has that many
/// approvals has left the queue; the others stay, in their order. Else the
/// proposal has one approval more.
pub open spec fn state_after_quorum_approval(
    state: PalletView,
    origin: AccountId,
    address: AccountId,
) -> PalletView {
    let account = state.accounts[address];
    let proposal = state.proposals[address];
    if approval_applies(state, origin, address) {
        PalletView {
            accounts: state.accounts.insert(
                address,
                MultiSignatureAccountView {
                    minimum_signatories: proposal.new_minimum,
                    pending_calls: waiting_calls(account.pending_calls, proposal.new_minimum),
                    ..account
                },
            ),
            proposals: state.proposals.remove(address),
            ..state
        }
    } else {
        PalletView {
            proposals: state.proposals.insert(address, approved_proposal(proposal, origin)),
            ..state
        }
    }
}

/// What is reported after `origin` approved the proposal for the account at
/// `address`: the approval; where it applies the proposal, also the new
/// quorum, and each call that leaves the queue for execution, in the order
/// of the queue.
pub open spec fn outcome_of_quorum_approval(
    state: PalletView,
    origin: AccountId,
    address: AccountId,
) -> OutcomeView {
    let account = state.accounts[address];
    let proposal = state.proposals[address];
    if approval_applies(state, origin, address) {
        let executed = ready_calls(account.pending_calls, proposal.new_minimum);
        OutcomeView {
            events: seq![
                Event::MinApprovalProposalApproved(address, origin),
                Event::MinApprovalsChanged(address, proposal.new_minimum),
            ] + execution_events(executed),
            executed,
        }
    } else {
        events_only(seq![Event::MinApprovalProposalApproved(address, origin)])
    }
}

/// Why `origin` cannot take its approval of the proposal for the account at
/// `address` back, if it cannot.
pub open spec fn revocation_fault(
    state: PalletView,
    origin: AccountId,
    address: AccountId,
) -> Option<Error> {
    if !state.accounts.contains_key(address) {
        Some(Error::MSANotFound)
    } else if !state.accounts[address].signatories.contains(origin) {
        Some(Error::AccountNotSignatory)
    } else if !state.proposals.contains_key(address) {
        Some(Error::ProposalNotFound)
    } else if !state.proposals[address].approvals.contains(origin) {
        Some(Error::ApprovalDoesntExist)
    } else {
        None
    }
}

/// The state after `origin` took its approval of the proposal for the
/// account at `address` back: the proposal is gone if that was its last
/// approval, else it has one approval fewer.
pub open spec fn state_after_revocation(
    state: PalletView,
    origin: AccountId,
    address: AccountId,
) -> PalletView {
    let revoked = revoked_proposal(state.proposals[address], origin);
    PalletView {
        proposals: if revoked.approvals.len() == 0 {
            state.proposals.remove(address)
        } else {
            state.proposals.insert(address, revoked)
        },
        ..state
    }
}

/// Every call of a well-formed account that is left after some calls were
/// taken out is still a sound call of the account.
pub proof fn lemma_kept_calls_well_formed(
    account: MultiSignatureAccountView,
    kept: Seq<PendingCallView>,
    config: Config,
)
    requires
        account_well_formed(account, config),
        kept.len() <= account.pending_calls.len(),
        forall|i: int| 0 <= i < kept.len() ==> account.pending_calls.contains(#[trigger] kept[i]),
    ensures
        account_well_formed(with_pending_calls(account, kept), config),
{
    assert forall|i: int| 0 <= i < kept.len() implies {
        &&& call_well_formed(#[trigger] kept[i], config)
        &&& kept[i].approvals.subset_of(account.signatories.to_set())
    } by {
        let k = choose|k: int|
            0 <= k < account.pending_calls.len() && account.pending_calls[k] == kept[i];
        assert(call_well_formed(account.pending_calls[k], config));
    }
}

/// The calls that stay in the queue under a quorum are calls of the queue.
pub proof fn lemma_waiting_calls(calls: Seq<PendingCallView>, quorum: u32)
    ensures
        waiting_calls(calls, quorum).len() <= calls.len(),
        forall|i: int|
            0 <= i < waiting_calls(calls, quorum).len() ==> calls.contains(
                #[trigger] waiting_calls(calls, quorum)[i],
            ) && waiting_calls(calls, quorum)[i].approvals.len() < quorum,
        forall|i: int|
            0 <= i < ready_calls(calls, quorum).len() ==> calls.contains(
                #[trigger] ready_calls(calls, quorum)[i],
            ) && ready_calls(calls, quorum)[i].approvals.len() >= quorum,
{
    let waiting = waiting_calls(calls, quorum);
    let ready = ready_calls(calls, quorum);
    calls.lemma_filter_len(is_waiting(quorum));
    assert forall|i: int| 0 <= i < waiting.len() implies calls.contains(#[trigger] waiting[i])
        && waiting[i].approvals.len() < quorum by {
        assert(waiting.contains(waiting[i]));
        calls.lemma_filter_contains_rev(is_waiting(quorum), waiting[i]);
        calls.lemma_filter_pred(is_waiting(quorum), i);
    }
    assert forall|i: int| 0 <= i < ready.len() implies calls.contains(#[trigger] ready[i])
        && ready[i].approvals.len() >= quorum by {
        assert(ready.contains(ready[i]));
        calls.lemma_filter_contains_rev(is_ready(quorum), ready[i]);
        calls.lemma_filter_pred(is_ready(quorum), i);
    }
}

/// An author of a well-formed account is one of its signers.
pub proof fn lemma_author_is_signer(
    account: MultiSignatureAccountView,
    config: Config,
    id: AccountId,
)
    requires
        account_well_formed(account, config),
        may_author(account.authors, account.signatories, id),
    ensures
        account.signatories.contains(id),
{
    if let Some(list) = account.authors {
        let k = choose|k: int| 0 <= k < list.len() && list[k] == id;
        assert(account.signatories.contains(list[k]));
    }
}

/// Proposals stay sound where every account keeps its address and its
/// signers, and no proposal changes but the one for the account at
/// `changed`, which is sound or gone.
pub proof fn lemma_proposals_stay_sound(before: PalletView, after: PalletView, changed: AccountId)
    requires
        state_well_formed(before),
        after.config == before.config,
        forall|address: AccountId| #[trigger]
            before.accounts.contains_key(address) ==> {
                &&& after.accounts.contains_key(address)
                &&& after.accounts[address].address == before.accounts[address].address
                &&& after.accounts[address].signatories == before.accounts[address].signatories
            },
        forall|address: AccountId|
            address != changed && #[trigger] after.proposals.contains_key(address) ==> {
                &&& before.proposals.contains_key(address)
                &&& after.proposals[address] == before.proposals[address]
            },
        after.proposals.contains_key(changed) ==> {
            &&& after.accounts.contains_key(changed)
            &&& proposal_well_formed(
                after.proposals[changed],
                after.accounts[changed],
                after.config,
            )
        },
    ensures
        forall|address: AccountId| #[trigger]
            after.proposals.contains_key(address) ==> {
                &&& after.accounts.contains_key(address)
                &&& proposal_well_formed(
                    after.proposals[address],
                    after.accounts[address],
                    after.config,
                )
            },
{
    assert forall|address: AccountId| #[trigger] after.proposals.contains_key(address) implies {
        &&& after.accounts.contains_key(address)
        &&& proposal_well_formed(after.proposals[address], after.accounts[address], after.config)
    } by {
        if address != changed {
            assert(before.proposals.contains_key(address));
            assert(before.accounts.contains_key(address));
        }
    }
}

/// To store a well-formed account with the same address and signers in the
/// place of the one that was there keeps a sound state sound.
pub proof fn lemma_with_account_well_formed(state: PalletView, account: MultiSignatureAccountView)
    requires
        state_well_formed(state),
        state.accounts.contains_key(account.address),
        account_well_formed(account, state.config),
        account.signatories == state.accounts[account.address].signatories,
    ensures
        state_well_formed(with_account(state, account)),
{
    let after = with_account(state, account);
    if after.proposals.contains_key(account.address) {
        assert(state.proposals.contains_key(account.address));
    }
    lemma_proposals_stay_sound(state, after, account.address);
}

/// Signers without a fault are all different, and each has room for one more
/// account.
pub proof fn lemma_no_signer_fault(
    memberships: Map<AccountId, Seq<AccountId>>,
    cap: u32,
    signatories: Seq<AccountId>,
    i: int,
)
    requires
        0 <= i,
        signer_fault_from(memberships, cap, signatories, i) is None,
    ensures
        forall|k: int|
            i <= k < signatories.len() ==> {
                &&& !signatories.take(k).contains(#[trigger] signatories[k])
                &&& memberships_of(memberships, signatories[k]).len() < cap
            },
    decreases signatories.len() - i,
{
    if i < signatories.len() {
        lemma_no_signer_fault(memberships, cap, signatories, i + 1);
    }
}

/// A list in which no item stands in the list before it has no duplicates.
pub proof fn lemma_fresh_items_no_duplicates(ids: Seq<AccountId>)
    requires
        forall|k: int| 0 <= k < ids.len() ==> !ids.take(k).contains(#[trigger] ids[k]),
    ensures
        ids.no_duplicates(),
{
    assert forall|i: int, j: int| 0 <= i < ids.len() && 0 <= j < ids.len() && i != j implies ids[i]
        != ids[j] by {
        if i < j {
            assert(ids.take(j)[i] == ids[i]);
            assert(!ids.take(j).contains(ids[j]));
        } else {
            assert(ids.take(i)[j] == ids[j]);
            assert(!ids.take(i).contains(ids[i]));
        }
    }
}

} // verus!
