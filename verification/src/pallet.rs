//! The authorization engine: the accounts, the index of memberships, the
//! quorum-change proposals, and the operations on them.
//!
//! Every operation works on the whole state at once. It either succeeds and
//! returns an [`Outcome`], or it is refused with an [`Error`] and leaves the
//! state exactly as it was.
use vstd::prelude::*;
use std::collections::BTreeMap;
use crate::address::{
    AccountId, address_of, lemma_sorted_ids_keep_no_duplicates, lemma_sorted_ids_of_sorted,
    lemma_sorted_ids_properties, sort_ids, sorted_ids,
};
use crate::config::Config;
use crate::errors::Error;
use crate::events::{Event, Outcome};
use crate::min_approval_proposal::{
    lemma_approved_proposal_well_formed, lemma_new_proposal_well_formed,
    lemma_revoked_proposal_well_formed, MinimumApprovalProposal, MinimumApprovalProposalView,
    proposal_well_formed,
};
use crate::multi_signature_account::{
    account_well_formed, are_all_signers, authors_view, call_views, contains_id, has_no_duplicates,
    index_of_call, MINIMUM_QUORUM, MultiSignatureAccount, MultiSignatureAccountView, new_account,
    new_account_fault, prefix_contains, quorum_in_range, strictly_ascending,
};
use crate::hashing::blake2_256_digest;
use crate::pending_call::{
    call_id_of, call_id_preimage, call_well_formed, PendingCall, PendingCallView,
};
use crate::state::{
    approval_applies, approved_call, authoring_fault, authors_fault, call_approval_fault,
    call_approval_removal_fault, call_removal_fault, created_account, creation_fault, enrolled,
    events_only, is_ready, is_waiting, lemma_author_is_signer, lemma_fresh_items_no_duplicates,
    lemma_kept_calls_well_formed, lemma_no_signer_fault, lemma_proposals_stay_sound,
    lemma_waiting_calls, lemma_with_account_well_formed, memberships_of, named_call,
    outcome_of_call_approval, outcome_of_quorum_approval, PalletView, prepared_authors,
    proposal_fault, quorum_adjustment_fault, quorum_approval_fault, ready_calls, revocation_fault,
    signatories_fault, signer_fault_from, state_after_authoring, state_after_call_approval,
    state_after_call_approval_removal, state_after_call_removal, state_after_proposal,
    state_after_quorum_adjustment, state_after_quorum_approval, state_after_revocation,
    state_well_formed, state_with_new_account, unapproved_call, waiting_calls, with_account,
    with_pending_calls,
};

verus! {

broadcast use vstd::std_specs::btree::group_btree_axioms;

/// The state of the engine.
#[derive(Debug)]
pub struct Pallet {
    config: Config,
    /// The accounts, by address.
    multi_signature_accounts: BTreeMap<AccountId, MultiSignatureAccount>,
    /// For each signer, the addresses of the accounts it belongs to.
    user_multi_sig_accounts: BTreeMap<AccountId, Vec<AccountId>>,
    /// The outstanding quorum-change proposals, by the account's address.
    min_approval_proposals: BTreeMap<AccountId, MinimumApprovalProposal>,
}

impl View for Pallet {
    type V = PalletView;

    closed spec fn view(&self) -> PalletView {
        PalletView {
            config: self.config,
            accounts: self.multi_signature_accounts@.map_values(|a: MultiSignatureAccount| a@),
            memberships: self.user_multi_sig_accounts@.map_values(|l: Vec<AccountId>| l@),
            proposals: self.min_approval_proposals@.map_values(|p: MinimumApprovalProposal| p@),
        }
    }
}

/// Checks that no identifier stands twice in `account_ids`.
pub fn check_duplicates(account_ids: &Vec<AccountId>) -> (res: Result<(), Error>)
    ensures
        account_ids@.no_duplicates() ==> res is Ok,
        !account_ids@.no_duplicates() ==> res == Err::<(), Error>(Error::DuplicatesInList),
{
    if has_no_duplicates(account_ids) {
        Ok(())
    } else {
        Err(Error::DuplicatesInList)
    }
}

impl Pallet {
    /// The state is sound.
    pub open spec fn well_formed(&self) -> bool {
        state_well_formed(self@)
    }

    /// An engine without accounts, under the limits of `config`.
    pub fn new(config: Config) -> (pallet: Self)
        ensures
            pallet.well_formed(),
            pallet@ == (PalletView {
                config,
                accounts: Map::<AccountId, MultiSignatureAccountView>::empty(),
                memberships: Map::<AccountId, Seq<AccountId>>::empty(),
                proposals: Map::<AccountId, MinimumApprovalProposalView>::empty(),
            }),
    {
        let pallet = Pallet {
            config,
            multi_signature_accounts: BTreeMap::new(),
            user_multi_sig_accounts: BTreeMap::new(),
            min_approval_proposals: BTreeMap::new(),
        };
        assert(pallet@.accounts =~= Map::<AccountId, MultiSignatureAccountView>::empty());
        assert(pallet@.memberships =~= Map::<AccountId, Seq<AccountId>>::empty());
        assert(pallet@.proposals =~= Map::<AccountId, MinimumApprovalProposalView>::empty());
        pallet
    }

    /// The limits that the engine was made with.
    pub fn config(&self) -> (config: Config)
        ensures
            config == self@.config,
    {
        self.config
    }

    /// The account at `address`, if there is one.
    pub fn multi_signature_accounts(&self, address: &AccountId) -> (res: Option<
        &MultiSignatureAccount,
    >)
        ensures
            res is Some <==> self@.accounts.contains_key(*address),
            res matches Some(account) ==> account@ == self@.accounts[*address],
    {
        self.multi_signature_accounts.get(address)
    }

    /// The addresses of the accounts that `id` belongs to, if it belongs to
    /// any.
    pub fn user_multi_signature_accounts(&self, id: &AccountId) -> (res: Option<&Vec<AccountId>>)
        ensures
            res is Some <==> self@.memberships.contains_key(*id),
            res matches Some(list) ==> list@ == self@.memberships[*id],
    {
        self.user_multi_sig_accounts.get(id)
    }

    /// The outstanding quorum-change proposal of the account at `address`,
    /// if there is one.
    pub fn min_approval_proposals(&self, address: &AccountId) -> (res: Option<
        &MinimumApprovalProposal,
    >)
        ensures
            res is Some <==> self@.proposals.contains_key(*address),
            res matches Some(proposal) ==> proposal@ == self@.proposals[*address],
    {
        self.min_approval_proposals.get(address)
    }

    /// Puts an account that was kept outside the engine into the store.
    ///
    /// The account is taken exactly when it is well formed under the
    /// engine's limits and no account is stored at its address; else nothing
    /// changes.
    pub fn load_account(&mut self, msa: MultiSignatureAccount) -> (loaded: bool)
        requires
            old(self).well_formed(),
        ensures
            final(self).well_formed(),
            loaded == (account_well_formed(msa@, old(self)@.config)
                && !old(self)@.accounts.contains_key(msa@.address)),
            loaded ==> final(self)@ == with_account(old(self)@, msa@),
            !loaded ==> final(self)@ == old(self)@,
    {
        if !msa.is_well_formed(&self.config) {
            return false;
        }
        if self.multi_signature_accounts.contains_key(&msa.address) {
            return false;
        }
        let ghost before = self@;
        let ghost view = msa@;
        self.store_account(msa);
        proof {
            let after = with_account(before, view);
            lemma_proposals_stay_sound(before, after, view.address);
        }
        true
    }

    /// Puts the memberships of `id`, kept outside the engine, into the index.
    ///
    /// They are taken exactly when they are no more than a signer may have
    /// and the index holds none for `id`; else nothing changes.
    pub fn load_memberships(&mut self, id: AccountId, accounts: Vec<AccountId>) -> (loaded: bool)
        requires
            old(self).well_formed(),
        ensures
            final(self).well_formed(),
            loaded == (accounts@.len() <= old(self)@.config.max_multi_sigs_per_account_id
                && !old(self)@.memberships.contains_key(id)),
            loaded ==> final(self)@ == (PalletView {
                memberships: old(self)@.memberships.insert(id, accounts@),
                ..old(self)@
            }),
            !loaded ==> final(self)@ == old(self)@,
    {
        if accounts.len() > self.config.max_multi_sigs_per_account_id as usize {
            return false;
        }
        if self.user_multi_sig_accounts.contains_key(&id) {
            return false;
        }
        let ghost list = accounts@;
        self.user_multi_sig_accounts.insert(id, accounts);
        assert(self@.memberships =~= old(self)@.memberships.insert(id, list));
        true
    }

    /// Puts a proposal that was kept outside the engine into the store.
    ///
    /// The proposal is taken exactly when its account is stored, has no
    /// proposal yet, and the proposal is sound for it; else nothing changes.
    pub fn load_proposal(&mut self, proposal: MinimumApprovalProposal) -> (loaded: bool)
        requires
            old(self).well_formed(),
        ensures
            final(self).well_formed(),
            loaded == (old(self)@.accounts.contains_key(proposal@.msa_address)
                && !old(self)@.proposals.contains_key(proposal@.msa_address)
                && proposal_well_formed(
                proposal@,
                old(self)@.accounts[proposal@.msa_address],
                old(self)@.config,
            )),
            loaded ==> final(self)@ == (PalletView {
                proposals: old(self)@.proposals.insert(proposal@.msa_address, proposal@),
                ..old(self)@
            }),
            !loaded ==> final(self)@ == old(self)@,
    {
        let address: AccountId = proposal.msa_address;
        match self.multi_signature_accounts.get(&address) {
            None => {
                return false;
            },
            Some(msa) => {
                if self.min_approval_proposals.contains_key(&address) {
                    return false;
                }
                if !proposal.is_well_formed(msa, &self.config) {
                    return false;
                }
            },
        }
        let ghost before = self@;
        let ghost view = proposal@;
        self.min_approval_proposals.insert(address, proposal);
        proof {
            assert(self@.proposals =~= before.proposals.insert(address, view));
            lemma_proposals_stay_sound(before, self@, address);
        }
        true
    }

    /// How many accounts `id` belongs to.
    fn membership_count(&self, id: AccountId) -> (count: usize)
        ensures
            count == memberships_of(self@.memberships, id).len(),
    {
        match self.user_multi_sig_accounts.get(&id) {
            Some(list) => list.len(),
            None => 0,
        }
    }

    /// Checks the signers and the quorum of an account that `creator` wants
    /// to create.
    ///
    /// The checks run in this order, and the first that fails gives the
    /// error: fewer than 2 signers (`SignatoriesTooShort`); a quorum under 2
    /// or over the number of signers (`MinApprovalOutOfRange`); then, signer
    /// by signer, one that stands in the list before (`DuplicatesInList`) or
    /// one that belongs to as many accounts as the limit allows
    /// (`AccountAtMultiSigLimit`); last, a creator that is no signer
    /// (`CallerNotSignatory`).
    pub fn validate_signatories(
        &self,
        signatories: &Vec<AccountId>,
        creator: &AccountId,
        min_approvals: u32,
    ) -> (res: Result<(), Error>)
        ensures
            match signatories_fault(
                self@.memberships,
                self@.config.max_multi_sigs_per_account_id,
                signatories@,
                *creator,
                min_approvals,
            ) {
                Some(fault) => res == Err::<(), Error>(fault),
                None => res is Ok,
            },
    {
        if signatories.len() < 2 {
            return Err(Error::SignatoriesTooShort);
        }
        if min_approvals < MINIMUM_QUORUM || min_approvals as usize > signatories.len() {
            return Err(Error::MinApprovalOutOfRange);
        }
        let cap: usize = self.config.max_multi_sigs_per_account_id as usize;
        let mut found_creator: bool = false;
        let mut i: usize = 0;
        while i < signatories.len()
            invariant
                i <= signatories@.len(),
                signatories@.len() >= 2,
                quorum_in_range(min_approvals, signatories@.len()),
                cap == self@.config.max_multi_sigs_per_account_id,
                found_creator == signatories@.take(i as int).contains(*creator),
                signer_fault_from(
                    self@.memberships,
                    self@.config.max_multi_sigs_per_account_id,
                    signatories@,
                    0,
                ) == signer_fault_from(
                    self@.memberships,
                    self@.config.max_multi_sigs_per_account_id,
                    signatories@,
                    i as int,
                ),
            decreases signatories@.len() - i,
        {
            let signatory: AccountId = signatories[i];
            if prefix_contains(signatories, i, signatory) {
                return Err(Error::DuplicatesInList);
            }
            if signatory == *creator {
                found_creator = true;
            }
            if self.membership_count(signatory) >= cap {
                return Err(Error::AccountAtMultiSigLimit);
            }
            proof {
                let before = signatories@.take(i as int);
                let after = signatories@.take(i + 1);
                assert(after =~= before.push(signatory));
                if before.contains(*creator) {
                    let k = choose|k: int| 0 <= k < before.len() && before[k] == *creator;
                    assert(after[k] == *creator);
                }
                if signatory == *creator {
                    assert(after[i as int] == *creator);
                }
            }
            i += 1;
        }
        assert(signatories@.take(signatories@.len() as int) =~= signatories@);
        if !found_creator {
            return Err(Error::CallerNotSignatory);
        }
        Ok(())
    }

    /// Checks the authors that an account is to be created with, and gives
    /// them in the form in which they are stored: see [`prepared_authors`].
    ///
    /// A list as long as the signatories means "every signer" and gives
    /// `None`. On any other list the checks run in this order, and the first
    /// that fails gives the error: a list that names nobody
    /// (`AuthorListEmpty`); an author that stands twice
    /// (`DuplicatesInList`); an author that is no signer
    /// (`AccountNotAuthor`); more authors than an account may have signers
    /// (`AccountErrorMaxAuthors`).
    pub fn prepare_authors(
        authors_opt: Option<Vec<AccountId>>,
        sorted_signatories: &Vec<AccountId>,
        config: &Config,
    ) -> (res: Result<Option<Vec<AccountId>>, Error>)
        ensures
            match authors_fault(authors_view(authors_opt), sorted_signatories@, *config) {
                Some(fault) => res == Err::<Option<Vec<AccountId>>, Error>(fault),
                None => res matches Ok(prepared) && authors_view(prepared) == prepared_authors(
                    authors_view(authors_opt),
                    sorted_signatories@,
                ),
            },
    {
        match authors_opt {
            None => Ok(None),
            Some(authors) => {
                let mut authors: Vec<AccountId> = authors;
                if authors.len() == sorted_signatories.len() {
                    return Ok(None);
                }
                if authors.len() == 0 {
                    return Err(Error::AuthorListEmpty);
                }
                match check_duplicates(&authors) {
                    Err(fault) => {
                        return Err(fault);
                    },
                    Ok(()) => {},
                }
                if !are_all_signers(&authors, sorted_signatories) {
                    return Err(Error::AccountNotAuthor);
                }
                if authors.len() > config.max_signatories as usize {
                    return Err(Error::AccountErrorMaxAuthors);
                }
                sort_ids(&mut authors);
                Ok(Some(authors))
            },
        }
    }

    /// Stores a new account and enrolls its signers in the index.
    fn add_multi_sig_account_to_storage(&mut self, msa: MultiSignatureAccount) -> (res: Result<
        (),
        Error,
    >)
        requires
            old(self).well_formed(),
            msa.well_formed(old(self)@.config),
            forall|k: int|
                0 <= k < msa@.signatories.len() ==> memberships_of(
                    old(self)@.memberships,
                    #[trigger] msa@.signatories[k],
                ).len() < old(self)@.config.max_multi_sigs_per_account_id,
        ensures
            final(self).well_formed(),
            old(self)@.accounts.contains_key(msa@.address) ==> {
                &&& res == Err::<(), Error>(Error::MSAAlreadyExists)
                &&& final(self)@ == old(self)@
            },
            !old(self)@.accounts.contains_key(msa@.address) ==> {
                &&& res is Ok
                &&& final(self)@ == state_with_new_account(old(self)@, msa@)
            },
    {
        if self.multi_signature_accounts.contains_key(&msa.address) {
            return Err(Error::MSAAlreadyExists);
        }
        let address: AccountId = msa.address;
        let ghost before = self@;
        let ghost signers = msa@.signatories;
        assert(signers.take(0) =~= Seq::<AccountId>::empty());
        assert(self@.memberships =~= enrolled(before.memberships, signers.take(0), address));
        let mut i: usize = 0;
        while i < msa.signatories.len()
            invariant
                i <= signers.len(),
                signers == msa@.signatories,
                address == msa@.address,
                strictly_ascending(signers),
                before == old(self)@,
                self.config == old(self).config,
                self.multi_signature_accounts == old(self).multi_signature_accounts,
                self.min_approval_proposals == old(self).min_approval_proposals,
                self@.memberships =~= enrolled(before.memberships, signers.take(i as int), address),
            decreases signers.len() - i,
        {
            let signatory: AccountId = msa.signatories[i];
            let ghost index_before = self.user_multi_sig_accounts@;
            let removed: Option<Vec<AccountId>> = self.user_multi_sig_accounts.remove(&signatory);
            let ghost index_without = self.user_multi_sig_accounts@;
            let mut list: Vec<AccountId> = match removed {
                Some(list) => list,
                None => Vec::new(),
            };
            let ghost had = list@;
            list.push(address);
            self.user_multi_sig_accounts.insert(signatory, list);
            proof {
                let done = signers.take(i as int);
                assert(index_without == index_before.remove(signatory));
                assert(self.user_multi_sig_accounts@ == index_without.insert(signatory, list));
                assert(index_before.contains_key(signatory) ==> had
                    == index_before[signatory]@);
                assert(!index_before.contains_key(signatory) ==> had
                    == Seq::<AccountId>::empty());
                let next = signers.take(i + 1);
                assert(next =~= done.push(signatory));
                assert(!done.contains(signatory)) by {
                    if done.contains(signatory) {
                        let k = choose|k: int| 0 <= k < done.len() && done[k] == signatory;
                        assert(signers[k] < signers[i as int]);
                    }
                }
                assert forall|id: AccountId| next.contains(id) <==> (done.contains(id) || id
                    == signatory) by {
                    if done.contains(id) {
                        let k = choose|k: int| 0 <= k < done.len() && done[k] == id;
                        assert(next[k] == id);
                    }
                    if id == signatory {
                        assert(next[i as int] == id);
                    }
                }
                let was = index_before.map_values(|l: Vec<AccountId>| l@);
                assert(was =~= enrolled(before.memberships, done, address));
                assert(was.contains_key(signatory) == index_before.contains_key(signatory));
                assert(was.contains_key(signatory) == before.memberships.contains_key(signatory));
                if was.contains_key(signatory) {
                    assert(was[signatory] == index_before[signatory]@);
                    assert(was[signatory] == before.memberships[signatory]);
                }
                assert(had == memberships_of(before.memberships, signatory));
                assert(list@ == memberships_of(before.memberships, signatory).push(address));
                let now = self@.memberships;
                let target = enrolled(before.memberships, next, address);
                assert forall|id: AccountId|
                    #![trigger now.contains_key(id)]
                    #![trigger target.contains_key(id)]
                    #![trigger now.dom().contains(id)]
                    #![trigger target.dom().contains(id)]
                    now.contains_key(id) == target.contains_key(id) && (now.contains_key(id)
                        ==> now[id] == target[id]) by {
                    if id == signatory {
                        assert(self.user_multi_sig_accounts@[id] == list);
                        assert(target[id] == memberships_of(before.memberships, id).push(address));
                    } else {
                        assert(self.user_multi_sig_accounts@.contains_key(id)
                            == index_before.contains_key(id));
                        assert(was.contains_key(id) == index_before.contains_key(id));
                        assert(next.contains(id) == done.contains(id));
                        if index_before.contains_key(id) {
                            assert(self.user_multi_sig_accounts@[id] == index_before[id]);
                            assert(now[id] == was[id]);
                        }
                    }
                }
                assert(now.dom() =~= target.dom());
                assert(now =~= target);
            }
            i += 1;
        }
        assert(signers.take(signers.len() as int) =~= signers);
        self.multi_signature_accounts.insert(address, msa);
        proof {
            let after = state_with_new_account(before, msa@);
            assert(self@.accounts =~= after.accounts);
            assert(self@.proposals =~= after.proposals);
            assert(self@ == after);
            assert forall|id: AccountId| #[trigger]
                after.memberships.contains_key(id) implies after.memberships[id].len()
                <= after.config.max_multi_sigs_per_account_id by {
                if signers.contains(id) {
                    let k = choose|k: int| 0 <= k < signers.len() && signers[k] == id;
                    assert(memberships_of(before.memberships, signers[k]).len()
                        < before.config.max_multi_sigs_per_account_id);
                } else {
                    assert(before.memberships.contains_key(id));
                }
            }
        }
        Ok(())
    }

    /// Creates the account that `signatories` control.
    ///
    /// The signers are put in ascending order, so the same set always gives
    /// the same account, whatever order it is given in. `origin` must be one
    /// of them. The account starts with the quorum
    /// `min_approving_signatories` and without pending calls, and each signer
    /// is enrolled in the index of memberships.
    ///
    /// [`creation_fault`] names the refusals, in their order.
    pub fn create_multi_sig_account(
        &mut self,
        origin: AccountId,
        signatories: Vec<AccountId>,
        authors_opt: Option<Vec<AccountId>>,
        min_approving_signatories: u32,
    ) -> (res: Result<Outcome, Error>)
        requires
            old(self).well_formed(),
        ensures
            final(self).well_formed(),
            match creation_fault(
                old(self)@,
                origin,
                signatories@,
                authors_view(authors_opt),
                min_approving_signatories,
            ) {
                Some(fault) => {
                    &&& res == Err::<Outcome, Error>(fault)
                    &&& final(self)@ == old(self)@
                },
                None => {
                    &&& res matches Ok(outcome) && outcome@ == events_only(
                        seq![
                            Event::MultiSignatureAccountCreated(origin, address_of(signatories@)),
                        ],
                    )
                    &&& final(self)@ == state_with_new_account(
                        old(self)@,
                        created_account(
                            signatories@,
                            authors_view(authors_opt),
                            min_approving_signatories,
                        ),
                    )
                },
            },
    {
        if signatories.len() > self.config.max_signatories as usize {
            return Err(Error::SignatoriesTooLong);
        }
        let ghost given = signatories@;
        let mut bounded_signatories: Vec<AccountId> = signatories;
        sort_ids(&mut bounded_signatories);
        proof {
            lemma_sorted_ids_properties(given);
        }
        match self.validate_signatories(&bounded_signatories, &origin, min_approving_signatories) {
            Err(fault) => {
                return Err(fault);
            },
            Ok(()) => {},
        }
        let authors: Option<Vec<AccountId>> = match Self::prepare_authors(
            authors_opt,
            &bounded_signatories,
            &self.config,
        ) {
            Err(fault) => {
                return Err(fault);
            },
            Ok(authors) => authors,
        };
        let ghost sorted = bounded_signatories@;
        let ghost prepared = authors_view(authors);
        proof {
            lemma_no_signer_fault(
                self@.memberships,
                self@.config.max_multi_sigs_per_account_id,
                sorted,
                0,
            );
            lemma_fresh_items_no_duplicates(sorted);
            lemma_sorted_ids_of_sorted(sorted);
            if let Some(list) = authors_view(authors_opt) {
                if list.len() != sorted.len() {
                    lemma_sorted_ids_properties(list);
                    lemma_sorted_ids_keep_no_duplicates(list);
                    let stored = sorted_ids(list);
                    assert forall|i: int| 0 <= i < stored.len() implies sorted.contains(
                        #[trigger] stored[i],
                    ) by {
                        assert(stored.contains(stored[i]));
                        assert(list.contains(stored[i]));
                        let k = choose|k: int| 0 <= k < list.len() && list[k] == stored[i];
                        assert(sorted.contains(list[k]));
                    }
                }
            }
            assert(new_account_fault(sorted, prepared, min_approving_signatories, self@.config)
                is None);
            assert(new_account(sorted, prepared, min_approving_signatories) == created_account(
                given,
                authors_view(authors_opt),
                min_approving_signatories,
            ));
        }
        let msa: MultiSignatureAccount = match MultiSignatureAccount::new(
            bounded_signatories,
            authors,
            min_approving_signatories,
            &self.config,
        ) {
            Ok(msa) => msa,
            Err(fault) => {
                return Err(Error::from(fault));
            },
        };
        let msa_address: AccountId = msa.address;
        match self.add_multi_sig_account_to_storage(msa) {
            Err(fault) => {
                return Err(fault);
            },
            Ok(()) => {},
        }
        let mut events: Vec<Event> = Vec::new();
        events.push(Event::MultiSignatureAccountCreated(origin, msa_address));
        let outcome = Outcome { events, executed: Vec::new() };
        proof {
            assert(outcome@.events =~= seq![
                Event::MultiSignatureAccountCreated(origin, address_of(given)),
            ]);
            assert(outcome@.executed =~= Seq::<PendingCallView>::empty());
        }
        Ok(outcome)
    }

    /// Takes the account at `address` out of the store.
    fn take_account(&mut self, address: AccountId) -> (msa: MultiSignatureAccount)
        requires
            old(self)@.accounts.contains_key(address),
        ensures
            msa@ == old(self)@.accounts[address],
            final(self)@ == (PalletView {
                accounts: old(self)@.accounts.remove(address),
                ..old(self)@
            }),
    {
        let taken: Option<MultiSignatureAccount> = self.multi_signature_accounts.remove(&address);
        assert(self@.accounts =~= old(self)@.accounts.remove(address));
        taken.unwrap()
    }

    /// Puts `msa` into the store, under its address.
    fn store_account(&mut self, msa: MultiSignatureAccount)
        ensures
            final(self)@ == (PalletView {
                accounts: old(self)@.accounts.insert(msa@.address, msa@),
                ..old(self)@
            }),
    {
        let ghost view = msa@;
        self.multi_signature_accounts.insert(msa.address, msa);
        assert(self@.accounts =~= old(self)@.accounts.insert(view.address, view));
    }

    /// Authors a call on the account at `multi_sig_account`: `origin` queues
    /// the encoded command `call` at the logical time `now`, with its own
    /// approval.
    ///
    /// [`authoring_fault`] names the refusals, in their order.
    pub fn author_a_call(
        &mut self,
        origin: AccountId,
        multi_sig_account: AccountId,
        call: Vec<u8>,
        now: u64,
    ) -> (res: Result<Outcome, Error>)
        requires
            old(self).well_formed(),
        ensures
            final(self).well_formed(),
            match authoring_fault(old(self)@, origin, multi_sig_account, call@) {
                Some(fault) => {
                    &&& res == Err::<Outcome, Error>(fault)
                    &&& final(self)@ == old(self)@
                },
                None => {
                    &&& res matches Ok(outcome) && outcome@ == events_only(
                        seq![Event::NewCallAuthored(origin, call_id_of(call@, now))],
                    )
                    &&& call_id_of(call@, now)@ == blake2_256_digest(
                        call_id_preimage(call@, now),
                    )
                    &&& final(self)@ == state_after_authoring(
                        old(self)@,
                        origin,
                        multi_sig_account,
                        call@,
                        now,
                    )
                },
            },
    {
        let ghost before = self@;
        let ghost given = call@;
        match self.multi_signature_accounts.get(&multi_sig_account) {
            None => {
                return Err(Error::MSANotFound);
            },
            Some(msa) => {
                if !msa.is_author(&origin) {
                    return Err(Error::AccountNotAuthor);
                }
                if call.len() > self.config.max_call_size as usize {
                    return Err(Error::FailedToCreatePendingCall);
                }
                if msa.pending_calls.len() >= self.config.max_pending_calls as usize {
                    return Err(Error::CallLimit);
                }
            },
        }
        let pending_call: PendingCall = match PendingCall::new(call, origin, now, &self.config) {
            Ok(pending_call) => pending_call,
            Err(_) => {
                return Err(Error::FailedToCreatePendingCall);
            },
        };
        let call_id: [u8; 32] = pending_call.id;
        let mut msa: MultiSignatureAccount = self.take_account(multi_sig_account);
        proof {
            lemma_author_is_signer(msa@, before.config, origin);
        }
        let _ = msa.add_call(pending_call, &self.config);
        self.store_account(msa);
        proof {
            let after = state_after_authoring(before, origin, multi_sig_account, given, now);
            assert(self@.accounts =~= after.accounts);
            let account = after.accounts[multi_sig_account];
            let old_account = before.accounts[multi_sig_account];
            assert forall|i: int| 0 <= i < account.pending_calls.len() implies {
                &&& crate::pending_call::call_well_formed(
                    #[trigger] account.pending_calls[i],
                    before.config,
                )
                &&& account.pending_calls[i].approvals.subset_of(account.signatories.to_set())
            } by {
                if i < old_account.pending_calls.len() {
                    assert(account.pending_calls[i] == old_account.pending_calls[i]);
                }
            }
            lemma_with_account_well_formed(before, account);
        }
        let mut events: Vec<Event> = Vec::new();
        events.push(Event::NewCallAuthored(origin, call_id));
        let outcome = Outcome { events, executed: Vec::new() };
        proof {
            assert(outcome@.events =~= seq![Event::NewCallAuthored(origin, call_id)]);
            assert(outcome@.executed =~= Seq::<PendingCallView>::empty());
        }
        Ok(outcome)
    }

    /// Removes the call `call_id` from the account at `multi_sig_account`,
    /// whatever approvals it has.
    ///
    /// [`call_removal_fault`] names the refusals, in their order.
    pub fn remove_call(
        &mut self,
        origin: AccountId,
        multi_sig_account: AccountId,
        call_id: [u8; 32],
    ) -> (res: Result<Outcome, Error>)
        requires
            old(self).well_formed(),
        ensures
            final(self).well_formed(),
            match call_removal_fault(old(self)@, origin, multi_sig_account, call_id) {
                Some(fault) => {
                    &&& res == Err::<Outcome, Error>(fault)
                    &&& final(self)@ == old(self)@
                },
                None => {
                    &&& res matches Ok(outcome) && outcome@ == events_only(Seq::<Event>::empty())
                    &&& final(self)@ == state_after_call_removal(
                        old(self)@,
                        multi_sig_account,
                        call_id,
                    )
                },
            },
    {
        let ghost before = self@;
        match self.multi_signature_accounts.get(&multi_sig_account) {
            None => {
                return Err(Error::MSANotFound);
            },
            Some(msa) => {
                if !msa.is_author(&origin) {
                    return Err(Error::AccountNotAuthor);
                }
                if msa.find_call(&call_id).is_none() {
                    return Err(Error::CallNotFound);
                }
            },
        }
        let mut msa: MultiSignatureAccount = self.take_account(multi_sig_account);
        let _ = msa.remove_call(call_id);
        self.store_account(msa);
        proof {
            let after = state_after_call_removal(before, multi_sig_account, call_id);
            assert(self@.accounts =~= after.accounts);
            let account = after.accounts[multi_sig_account];
            let old_account = before.accounts[multi_sig_account];
            let index = index_of_call(old_account.pending_calls, call_id);
            assert forall|i: int| 0 <= i < account.pending_calls.len() implies {
                &&& crate::pending_call::call_well_formed(
                    #[trigger] account.pending_calls[i],
                    before.config,
                )
                &&& account.pending_calls[i].approvals.subset_of(account.signatories.to_set())
            } by {
                if i < index {
                    assert(account.pending_calls[i] == old_account.pending_calls[i]);
                } else {
                    assert(account.pending_calls[i] == old_account.pending_calls[i + 1]);
                }
            }
            lemma_with_account_well_formed(before, account);
        }
        let outcome = Outcome { events: Vec::new(), executed: Vec::new() };
        proof {
            assert(outcome@.executed =~= Seq::<PendingCallView>::empty());
        }
        Ok(outcome)
    }

    /// Sets the quorum of the account at `multi_sig_account` to
    /// `new_min_approvals` at once, on the word of one author. No pending
    /// call is executed by this.
    ///
    /// [`quorum_adjustment_fault`] names the refusals, in their order.
    pub fn adjust_min_approvals(
        &mut self,
        origin: AccountId,
        multi_sig_account: AccountId,
        new_min_approvals: u32,
    ) -> (res: Result<Outcome, Error>)
        requires
            old(self).well_formed(),
        ensures
            final(self).well_formed(),
            match quorum_adjustment_fault(
                old(self)@,
                origin,
                multi_sig_account,
                new_min_approvals,
            ) {
                Some(fault) => {
                    &&& res == Err::<Outcome, Error>(fault)
                    &&& final(self)@ == old(self)@
                },
                None => {
                    &&& res matches Ok(outcome) && outcome@ == events_only(
                        seq![Event::MinApprovalsChanged(multi_sig_account, new_min_approvals)],
                    )
                    &&& final(self)@ == state_after_quorum_adjustment(
                        old(self)@,
                        multi_sig_account,
                        new_min_approvals,
                    )
                },
            },
    {
        let ghost before = self@;
        match self.multi_signature_accounts.get(&multi_sig_account) {
            None => {
                return Err(Error::MSANotFound);
            },
            Some(msa) => {
                if !msa.is_author(&origin) {
                    return Err(Error::AccountNotAuthor);
                }
                if new_min_approvals < MINIMUM_QUORUM
                    || new_min_approvals as usize > msa.signatories.len() {
                    return Err(Error::MinApprovalOutOfRange);
                }
            },
        }
        let mut msa: MultiSignatureAccount = self.take_account(multi_sig_account);
        let _ = msa.adjust_min_approvals(new_min_approvals);
        self.store_account(msa);
        proof {
            let after = state_after_quorum_adjustment(
                before,
                multi_sig_account,
                new_min_approvals,
            );
            assert(self@.accounts =~= after.accounts);
            lemma_with_account_well_formed(before, after.accounts[multi_sig_account]);
        }
        let mut events: Vec<Event> = Vec::new();
        events.push(Event::MinApprovalsChanged(multi_sig_account, new_min_approvals));
        let outcome = Outcome { events, executed: Vec::new() };
        proof {
            assert(outcome@.events =~= seq![
                Event::MinApprovalsChanged(multi_sig_account, new_min_approvals),
            ]);
            assert(outcome@.executed =~= Seq::<PendingCallView>::empty());
        }
        Ok(outcome)
    }

    /// Adds the approval of `origin` to the call `call_id` on the account at
    /// `multi_sig_account`. If the call then has exactly the approvals that
    /// the quorum asks for, it leaves the queue to be executed under the
    /// account's identity.
    ///
    /// [`call_approval_fault`] names the refusals, in their order.
    pub fn add_call_approval(
        &mut self,
        origin: AccountId,
        multi_sig_account: AccountId,
        call_id: [u8; 32],
    ) -> (res: Result<Outcome, Error>)
        requires
            old(self).well_formed(),
        ensures
            final(self).well_formed(),
            match call_approval_fault(old(self)@, origin, multi_sig_account, call_id) {
                Some(fault) => {
                    &&& res == Err::<Outcome, Error>(fault)
                    &&& final(self)@ == old(self)@
                },
                None => {
                    &&& res matches Ok(outcome) && outcome@ == outcome_of_call_approval(
                        old(self)@,
                        origin,
                        multi_sig_account,
                        call_id,
                    )
                    &&& final(self)@ == state_after_call_approval(
                        old(self)@,
                        origin,
                        multi_sig_account,
                        call_id,
                    )
                },
            },
    {
        let ghost before = self@;
        let index: usize = match self.multi_signature_accounts.get(&multi_sig_account) {
            None => {
                return Err(Error::MSANotFound);
            },
            Some(msa) => {
                if !msa.is_signatory(&origin) {
                    return Err(Error::AccountNotSignatory);
                }
                match msa.find_call(&call_id) {
                    None => {
                        return Err(Error::CallNotFound);
                    },
                    Some(index) => {
                        assert(msa@.pending_calls[index as int] == msa.pending_calls@[index as int]@);
                        if msa.pending_calls[index].approvals.contains(&origin) {
                            return Err(Error::ApprovalExists);
                        }
                        if msa.pending_calls[index].approvals.len()
                            >= self.config.max_signatories as usize {
                            return Err(Error::ApprovalsLimitReached);
                        }
                        index
                    },
                }
            },
        };
        let ghost old_account = before.accounts[multi_sig_account];
        let mut msa: MultiSignatureAccount = self.take_account(multi_sig_account);
        let mut pending_call: PendingCall = msa.take_call(index);
        let approvals: u32 = match pending_call.add_approval(origin, &self.config) {
            Ok(approvals) => approvals,
            Err(_) => {
                self.store_account(msa);
                return Err(Error::ApprovalsLimitReached);
            },
        };
        let ghost call = pending_call@;
        let ghost rest = msa@.pending_calls;
        assert(account_well_formed(old_account, before.config));
        assert(rest.len() < before.config.max_pending_calls);
        let mut events: Vec<Event> = Vec::new();
        let mut executed: Vec<PendingCall> = Vec::new();
        if approvals == msa.minimum_signatories {
            events.push(Event::CallExecuted(pending_call.id));
            executed.push(pending_call);
        } else {
            let _ = msa.add_call(pending_call, &self.config);
        }
        events.push(Event::ApprovalAdded(multi_sig_account, origin));
        self.store_account(msa);
        let outcome = Outcome { events, executed };
        proof {
            let after = state_after_call_approval(before, origin, multi_sig_account, call_id);
            let account = after.accounts[multi_sig_account];
            assert(call == approved_call(named_call(old_account, call_id), origin));
            assert(self@.accounts =~= after.accounts);
            assert forall|i: int| 0 <= i < rest.len() implies old_account.pending_calls.contains(
                #[trigger] rest[i],
            ) by {
                if i == index {
                    assert(rest[i] == old_account.pending_calls.last());
                } else {
                    assert(rest[i] == old_account.pending_calls[i]);
                }
            }
            lemma_kept_calls_well_formed(old_account, rest, before.config);
            assert(call.approvals.subset_of(old_account.signatories.to_set()));
            assert forall|i: int| 0 <= i < account.pending_calls.len() implies {
                &&& call_well_formed(#[trigger] account.pending_calls[i], before.config)
                &&& account.pending_calls[i].approvals.subset_of(account.signatories.to_set())
            } by {
                if i < rest.len() {
                    assert(account.pending_calls[i] == with_pending_calls(
                        old_account,
                        rest,
                    ).pending_calls[i]);
                }
            }
            lemma_with_account_well_formed(before, account);
            let expected = outcome_of_call_approval(before, origin, multi_sig_account, call_id);
            assert(outcome@.events =~= expected.events);
            assert(outcome@.executed =~= expected.executed);
        }
        Ok(outcome)
    }

    /// Takes the approval of `origin` away from the call `call_id` on the
    /// account at `multi_sig_account`. The call stays in the queue.
    ///
    /// [`call_approval_removal_fault`] names the refusals, in their order.
    pub fn remove_call_approval(
        &mut self,
        origin: AccountId,
        multi_sig_account: AccountId,
        call_id: [u8; 32],
    ) -> (res: Result<Outcome, Error>)
        requires
            old(self).well_formed(),
        ensures
            final(self).well_formed(),
            match call_approval_removal_fault(old(self)@, origin, multi_sig_account, call_id) {
                Some(fault) => {
                    &&& res == Err::<Outcome, Error>(fault)
                    &&& final(self)@ == old(self)@
                },
                None => {
                    &&& res matches Ok(outcome) && outcome@ == events_only(
                        seq![Event::ApprovalRemoved(multi_sig_account, origin)],
                    )
                    &&& final(self)@ == state_after_call_approval_removal(
                        old(self)@,
                        origin,
                        multi_sig_account,
                        call_id,
                    )
                },
            },
    {
        let ghost before = self@;
        let index: usize = match self.multi_signature_accounts.get(&multi_sig_account) {
            None => {
                return Err(Error::MSANotFound);
            },
            Some(msa) => {
                if !msa.is_signatory(&origin) {
                    return Err(Error::AccountNotSignatory);
                }
                match msa.find_call(&call_id) {
                    None => {
                        return Err(Error::CallNotFound);
                    },
                    Some(index) => {
                        assert(msa@.pending_calls[index as int] == msa.pending_calls@[index as int]@);
                        if !msa.pending_calls[index].approvals.contains(&origin) {
                            return Err(Error::ApprovalDoesntExist);
                        }
                        index
                    },
                }
            },
        };
        let ghost old_account = before.accounts[multi_sig_account];
        let mut msa: MultiSignatureAccount = self.take_account(multi_sig_account);
        let mut pending_call: PendingCall = msa.take_call(index);
        let _ = pending_call.remove_approval(origin);
        let ghost call = pending_call@;
        let ghost rest = msa@.pending_calls;
        assert(account_well_formed(old_account, before.config));
        assert(rest.len() < before.config.max_pending_calls);
        let _ = msa.add_call(pending_call, &self.config);
        self.store_account(msa);
        proof {
            let after = state_after_call_approval_removal(
                before,
                origin,
                multi_sig_account,
                call_id,
            );
            let account = after.accounts[multi_sig_account];
            assert(call == unapproved_call(named_call(old_account, call_id), origin));
            assert(self@.accounts =~= after.accounts);
            assert forall|i: int| 0 <= i < rest.len() implies old_account.pending_calls.contains(
                #[trigger] rest[i],
            ) by {
                if i == index {
                    assert(rest[i] == old_account.pending_calls.last());
                } else {
                    assert(rest[i] == old_account.pending_calls[i]);
                }
            }
            lemma_kept_calls_well_formed(old_account, rest, before.config);
            assert(call.approvals.subset_of(old_account.signatories.to_set()));
            assert forall|i: int| 0 <= i < account.pending_calls.len() implies {
                &&& call_well_formed(#[trigger] account.pending_calls[i], before.config)
                &&& account.pending_calls[i].approvals.subset_of(account.signatories.to_set())
            } by {
                if i < rest.len() {
                    assert(account.pending_calls[i] == with_pending_calls(
                        old_account,
                        rest,
                    ).pending_calls[i]);
                }
            }
            lemma_with_account_well_formed(before, account);
        }
        let mut events: Vec<Event> = Vec::new();
        events.push(Event::ApprovalRemoved(multi_sig_account, origin));
        let outcome = Outcome { events, executed: Vec::new() };
        proof {
            assert(outcome@.events =~= seq![Event::ApprovalRemoved(multi_sig_account, origin)]);
            assert(outcome@.executed =~= Seq::<PendingCallView>::empty());
        }
        Ok(outcome)
    }

    /// Takes every pending call with `new_min_approvals` approvals or more
    /// out of the queue of `msa` and returns them, in the order of the queue.
    /// The calls with fewer approvals stay, in their order.
    pub fn dispatch_approved(msa: &mut MultiSignatureAccount, new_min_approvals: u32) -> (ready: Vec<
        PendingCall,
    >)
        ensures
            final(msa)@ == with_pending_calls(
                old(msa)@,
                waiting_calls(old(msa)@.pending_calls, new_min_approvals),
            ),
            call_views(ready@) == ready_calls(
                old(msa)@.pending_calls,
                new_min_approvals,
            ),
    {
        let mut ready: Vec<PendingCall> = Vec::new();
        let ghost queued = msa@.pending_calls;
        let ghost mut done: int = 0;
        let mut i: usize = 0;
        proof {
            reveal(Seq::filter);
            assert(queued.take(0) =~= Seq::<PendingCallView>::empty());
            assert(msa@.pending_calls.take(0) =~= waiting_calls(
                queued.take(0),
                new_min_approvals,
            ));
            assert(msa@.pending_calls.skip(0) =~= queued.skip(0));
            assert(call_views(ready@) =~= ready_calls(
                queued.take(0),
                new_min_approvals,
            ));
        }
        while i < msa.pending_calls.len()
            invariant
                queued == old(msa)@.pending_calls,
                0 <= done <= queued.len(),
                i <= msa@.pending_calls.len(),
                msa@.pending_calls.len() - i == queued.len() - done,
                msa@.pending_calls.take(i as int) == waiting_calls(
                    queued.take(done),
                    new_min_approvals,
                ),
                msa@.pending_calls.skip(i as int) == queued.skip(done),
                call_views(ready@) == ready_calls(
                    queued.take(done),
                    new_min_approvals,
                ),
                msa@ == with_pending_calls(old(msa)@, msa@.pending_calls),
            decreases queued.len() - done,
        {
            let ghost queue = msa@.pending_calls;
            let ghost current = queue[i as int];
            proof {
                assert(current == queue.skip(i as int)[0]);
                assert(current == queued[done]);
                assert(queued.take(done + 1) =~= queued.take(done).push(current));
                queued.take(done).lemma_filter_push(current, is_waiting(new_min_approvals));
                queued.take(done).lemma_filter_push(current, is_ready(new_min_approvals));
                assert(current == msa.pending_calls@[i as int]@);
            }
            if msa.pending_calls[i].approvals.len() >= new_min_approvals as usize {
                let call: PendingCall = msa.pending_calls.remove(i);
                ready.push(call);
                proof {
                    assert(msa@.pending_calls =~= queue.remove(i as int));
                    assert(msa@.pending_calls.take(i as int) =~= queue.take(i as int));
                    assert(queue.skip(i + 1) =~= queue.skip(i as int).skip(1));
                    assert(queued.skip(done).skip(1) =~= queued.skip(done + 1));
                    assert(msa@.pending_calls.skip(i as int) =~= queue.skip(i + 1));
                    assert(msa@.pending_calls.skip(i as int) =~= queued.skip(done + 1));
                    assert(call_views(ready@) =~= ready_calls(
                        queued.take(done),
                        new_min_approvals,
                    ).push(current));
                    done = done + 1;
                }
            } else {
                proof {
                    assert(queue.take(i + 1) =~= queue.take(i as int).push(current));
                    assert(queue.skip(i + 1) =~= queue.skip(i as int).skip(1));
                    assert(queued.skip(done).skip(1) =~= queued.skip(done + 1));
                    assert(queue.skip(i + 1) =~= queued.skip(done + 1));
                    done = done + 1;
                }
                i += 1;
            }
        }
        proof {
            assert(msa@.pending_calls.take(i as int) =~= msa@.pending_calls);
            assert(queued.take(done) =~= queued);
        }
        ready
    }

    /// Proposes `new_min_approvals` as the quorum of the account at
    /// `msa_address`. The proposal starts with the approval of `origin`, and
    /// with the number of approvals that it needs: see
    /// [`pass_requirement_for`](crate::min_approval_proposal::pass_requirement_for).
    ///
    /// [`proposal_fault`] names the refusals, in their order.
    pub fn proposal_msa_new_minimum(
        &mut self,
        origin: AccountId,
        msa_address: AccountId,
        new_min_approvals: u32,
    ) -> (res: Result<Outcome, Error>)
        requires
            old(self).well_formed(),
        ensures
            final(self).well_formed(),
            match proposal_fault(old(self)@, origin, msa_address, new_min_approvals) {
                Some(fault) => {
                    &&& res == Err::<Outcome, Error>(fault)
                    &&& final(self)@ == old(self)@
                },
                None => {
                    &&& res matches Ok(outcome) && outcome@ == events_only(
                        seq![Event::MinApprovalProposed(msa_address, origin, new_min_approvals)],
                    )
                    &&& final(self)@ == state_after_proposal(
                        old(self)@,
                        origin,
                        msa_address,
                        new_min_approvals,
                    )
                },
            },
    {
        let ghost before = self@;
        let proposal: MinimumApprovalProposal = match self.multi_signature_accounts.get(
            &msa_address,
        ) {
            None => {
                return Err(Error::MSANotFound);
            },
            Some(msa) => {
                if !msa.is_author(&origin) {
                    return Err(Error::AccountNotAuthor);
                }
                if self.min_approval_proposals.contains_key(&msa_address) {
                    return Err(Error::ProposalAlreadyPending);
                }
                match MinimumApprovalProposal::construct_min_approval_proposal(
                    msa,
                    new_min_approvals,
                    origin,
                    &self.config,
                ) {
                    Err(fault) => {
                        return Err(fault);
                    },
                    Ok(proposal) => proposal,
                }
            },
        };
        let ghost view = proposal@;
        self.min_approval_proposals.insert(msa_address, proposal);
        proof {
            let after = state_after_proposal(before, origin, msa_address, new_min_approvals);
            assert(self@.proposals =~= after.proposals);
            lemma_author_is_signer(before.accounts[msa_address], before.config, origin);
            lemma_new_proposal_well_formed(
                before.accounts[msa_address],
                new_min_approvals,
                origin,
                before.config,
            );
            lemma_proposals_stay_sound(before, after, msa_address);
        }
        let mut events: Vec<Event> = Vec::new();
        events.push(Event::MinApprovalProposed(msa_address, origin, new_min_approvals));
        let outcome = Outcome { events, executed: Vec::new() };
        proof {
            assert(outcome@.events =~= seq![
                Event::MinApprovalProposed(msa_address, origin, new_min_approvals),
            ]);
            assert(outcome@.executed =~= Seq::<PendingCallView>::empty());
        }
        Ok(outcome)
    }

    /// Sets the quorum of `msa` to `new_min_approvals` and drops the proposal
    /// that asked for it.
    fn update_msa_approval(&mut self, msa: &mut MultiSignatureAccount, new_min_approvals: u32)
        ensures
            final(msa)@ == (MultiSignatureAccountView {
                minimum_signatories: new_min_approvals,
                ..old(msa)@
            }),
            final(self)@ == (PalletView {
                proposals: old(self)@.proposals.remove(old(msa)@.address),
                ..old(self)@
            }),
    {
        msa.minimum_signatories = new_min_approvals;
        let _ = self.min_approval_proposals.remove(&msa.address);
        assert(self@.proposals =~= old(self)@.proposals.remove(msa@.address));
    }

    /// Adds the approval of `origin` to the proposal for the account at
    /// `msa_address`. If the proposal then has the approvals it needs, the
    /// account gets the proposed quorum, the proposal is deleted, and every
    /// pending call that has that many approvals leaves the queue to be
    /// executed under the account's identity, in the same step.
    ///
    /// The quorum that is applied was checked when the proposal was made: in
    /// a sound state it is never under 2 or over the number of signers.
    ///
    /// [`quorum_approval_fault`] names the refusals, in their order.
    pub fn approve_msa_new_minimum(&mut self, origin: AccountId, msa_address: AccountId) -> (res:
        Result<Outcome, Error>)
        requires
            old(self).well_formed(),
        ensures
            final(self).well_formed(),
            match quorum_approval_fault(old(self)@, origin, msa_address) {
                Some(fault) => {
                    &&& res == Err::<Outcome, Error>(fault)
                    &&& final(self)@ == old(self)@
                },
                None => {
                    &&& res matches Ok(outcome) && outcome@ == outcome_of_quorum_approval(
                        old(self)@,
                        origin,
                        msa_address,
                    )
                    &&& final(self)@ == state_after_quorum_approval(
                        old(self)@,
                        origin,
                        msa_address,
                    )
                },
            },
    {
        let ghost before = self@;
        match self.multi_signature_accounts.get(&msa_address) {
            None => {
                return Err(Error::MSANotFound);
            },
            Some(msa) => {
                if !msa.is_signatory(&origin) {
                    return Err(Error::AccountNotSignatory);
                }
            },
        }
        match self.min_approval_proposals.get(&msa_address) {
            None => {
                return Err(Error::ProposalNotFound);
            },
            Some(proposal) => {
                if contains_id(&proposal.approvals, origin) {
                    return Err(Error::ApprovalExists);
                }
                if proposal.approvals.len() >= self.config.max_signatories as usize {
                    return Err(Error::ApprovalsLimitReached);
                }
            },
        }
        let ghost old_account = before.accounts[msa_address];
        let ghost old_proposal = before.proposals[msa_address];
        let taken: Option<MinimumApprovalProposal> = self.min_approval_proposals.remove(
            &msa_address,
        );
        let mut min_approval_proposal: MinimumApprovalProposal = taken.unwrap();
        let applies: bool = match min_approval_proposal.add_approval(origin, &self.config) {
            Ok(applies) => applies,
            Err(fault) => {
                self.min_approval_proposals.insert(msa_address, min_approval_proposal);
                assert(self@.proposals =~= before.proposals);
                return Err(fault);
            },
        };
        let mut events: Vec<Event> = Vec::new();
        events.push(Event::MinApprovalProposalApproved(msa_address, origin));
        if !applies {
            self.min_approval_proposals.insert(msa_address, min_approval_proposal);
            let outcome = Outcome { events, executed: Vec::new() };
            proof {
                let after = state_after_quorum_approval(before, origin, msa_address);
                assert(self@.proposals =~= after.proposals);
                lemma_approved_proposal_well_formed(
                    old_proposal,
                    old_account,
                    origin,
                    before.config,
                );
                lemma_proposals_stay_sound(before, after, msa_address);
                assert(outcome@.events =~= seq![
                    Event::MinApprovalProposalApproved(msa_address, origin),
                ]);
                assert(outcome@.executed =~= Seq::<PendingCallView>::empty());
            }
            return Ok(outcome);
        }
        let new_min_approvals: u32 = min_approval_proposal.new_minimum;
        let mut msa: MultiSignatureAccount = self.take_account(msa_address);
        self.update_msa_approval(&mut msa, new_min_approvals);
        events.push(Event::MinApprovalsChanged(msa_address, new_min_approvals));
        let executed: Vec<PendingCall> = Self::dispatch_approved(&mut msa, new_min_approvals);
        self.store_account(msa);
        let ghost ready = ready_calls(old_account.pending_calls, new_min_approvals);
        let mut k: usize = 0;
        while k < executed.len()
            invariant
                k <= executed@.len(),
                call_views(executed@) == ready,
                events@.len() == 2 + k,
                events@[0] == Event::MinApprovalProposalApproved(msa_address, origin),
                events@[1] == Event::MinApprovalsChanged(msa_address, new_min_approvals),
                forall|j: int| 0 <= j < k ==> events@[2 + j] == Event::CallExecuted(ready[j].id),
            decreases executed@.len() - k,
        {
            assert(ready[k as int] == executed@[k as int]@);
            events.push(Event::CallExecuted(executed[k].id));
            k += 1;
        }
        let outcome = Outcome { events, executed };
        proof {
            let after = state_after_quorum_approval(before, origin, msa_address);
            let expected = outcome_of_quorum_approval(before, origin, msa_address);
            assert(approval_applies(before, origin, msa_address));
            assert(self@.accounts =~= after.accounts);
            assert(self@.proposals =~= after.proposals);
            assert(outcome@.events =~= expected.events);
            assert(outcome@.executed =~= expected.executed);
            let account = after.accounts[msa_address];
            let waiting = waiting_calls(old_account.pending_calls, new_min_approvals);
            lemma_waiting_calls(old_account.pending_calls, new_min_approvals);
            lemma_kept_calls_well_formed(old_account, waiting, before.config);
            assert(account_well_formed(account, before.config));
            lemma_proposals_stay_sound(before, after, msa_address);
        }
        Ok(outcome)
    }

    /// Takes the approval of `origin` away from the proposal for the account
    /// at `msa_address`. A proposal that has no approval left is deleted.
    ///
    /// [`revocation_fault`] names the refusals, in their order.
    pub fn revoke_approval_for_msa_new_minimum(
        &mut self,
        origin: AccountId,
        msa_address: AccountId,
    ) -> (res: Result<Outcome, Error>)
        requires
            old(self).well_formed(),
        ensures
            final(self).well_formed(),
            match revocation_fault(old(self)@, origin, msa_address) {
                Some(fault) => {
                    &&& res == Err::<Outcome, Error>(fault)
                    &&& final(self)@ == old(self)@
                },
                None => {
                    &&& res matches Ok(outcome) && outcome@ == events_only(
                        seq![Event::MinApprovalProposalRevoked(msa_address, origin)],
                    )
                    &&& final(self)@ == state_after_revocation(old(self)@, origin, msa_address)
                },
            },
    {
        let ghost before = self@;
        match self.multi_signature_accounts.get(&msa_address) {
            None => {
                return Err(Error::MSANotFound);
            },
            Some(msa) => {
                if !msa.is_signatory(&origin) {
                    return Err(Error::AccountNotSignatory);
                }
            },
        }
        match self.min_approval_proposals.get(&msa_address) {
            None => {
                return Err(Error::ProposalNotFound);
            },
            Some(proposal) => {
                if !contains_id(&proposal.approvals, origin) {
                    return Err(Error::ApprovalDoesntExist);
                }
            },
        }
        let ghost old_account = before.accounts[msa_address];
        let ghost old_proposal = before.proposals[msa_address];
        let taken: Option<MinimumApprovalProposal> = self.min_approval_proposals.remove(
            &msa_address,
        );
        let mut min_approval_proposal: MinimumApprovalProposal = taken.unwrap();
        let emptied: bool = match min_approval_proposal.remove_approval(origin) {
            Ok(emptied) => emptied,
            Err(fault) => {
                self.min_approval_proposals.insert(msa_address, min_approval_proposal);
                assert(self@.proposals =~= before.proposals);
                return Err(fault);
            },
        };
        if !emptied {
            self.min_approval_proposals.insert(msa_address, min_approval_proposal);
        }
        proof {
            let after = state_after_revocation(before, origin, msa_address);
            assert(self@.proposals =~= after.proposals);
            lemma_revoked_proposal_well_formed(old_proposal, old_account, origin, before.config);
            lemma_proposals_stay_sound(before, after, msa_address);
        }
        let mut events: Vec<Event> = Vec::new();
        events.push(Event::MinApprovalProposalRevoked(msa_address, origin));
        let outcome = Outcome { events, executed: Vec::new() };
        proof {
            assert(outcome@.events =~= seq![
                Event::MinApprovalProposalRevoked(msa_address, origin),
            ]);
            assert(outcome@.executed =~= Seq::<PendingCallView>::empty());
        }
        Ok(outcome)
    }
}

} // verus!
