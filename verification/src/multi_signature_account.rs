//! A jointly controlled account: its signers, its authors, its quorum and
//! the calls that wait on it.
use vstd::prelude::*;
use crate::address::{
    AccountId, address_of, address_of_sorted, construct_address, derive_address,
    lemma_sorted_ids_keep_no_duplicates, lemma_sorted_ids_of_sorted, lemma_sorted_ids_properties,
    sort_ids, sorted_ids,
};
use crate::config::Config;
use crate::pending_call::{
    approvals_among, call_well_formed, PendingCall, PendingCallView, same_call_id,
};

verus! {

/// Why an operation on an account was refused.
#[derive(Clone, Copy, Debug, PartialEq, Eq, Structural)]
pub enum MultiSigAcctError {
    /// Minimum of 2 signatories required.
    SignatoriesListTooShort,
    /// Account already in the author list.
    AccountAlreadyAuthor,
    /// Too many authors for the slots that are open.
    AuthorVecTooLong,
    /// Not one of the account's signatories.
    AccountNotSignatory,
    /// The author list is full.
    AtMaxAuthors,
    /// The queue of pending calls is full.
    AtPendingCallLimit,
    /// A quorum must lie between 2 and the number of signatories.
    MinApprovalsOutOfRange,
    /// No pending call has that identifier.
    CallNotFound,
    /// A signatory or an author stands twice in its list.
    DuplicatesInList,
    /// More signatories than an account may have.
    SignatoriesListTooLong,
    /// A list of authors names nobody.
    AuthorListEmpty,
}

/// A jointly controlled account.
#[derive(Clone, Debug)]
pub struct MultiSignatureAccount {
    /// The address of this account, derived from its signatories.
    pub address: AccountId,
    /// The signatories that may author and remove calls and propose a new
    /// quorum. If `None`, every signatory may.
    pub authors: Option<Vec<AccountId>>,
    /// The signatories, in ascending order.
    pub signatories: Vec<AccountId>,
    /// The quorum: how many approvals a call needs to run.
    pub minimum_signatories: u32,
    /// The calls that wait for approvals.
    pub pending_calls: Vec<PendingCall>,
}

/// What a [`MultiSignatureAccount`] holds, as mathematical values.
pub struct MultiSignatureAccountView {
    pub address: AccountId,
    pub authors: Option<Seq<AccountId>>,
    pub signatories: Seq<AccountId>,
    pub minimum_signatories: u32,
    pub pending_calls: Seq<PendingCallView>,
}

/// The views of a list of optional authors.
pub open spec fn authors_view(authors: Option<Vec<AccountId>>) -> Option<Seq<AccountId>> {
    match authors {
        Some(list) => Some(list@),
        None => None,
    }
}

/// The views of a queue of calls, in order.
pub open spec fn call_views(calls: Seq<PendingCall>) -> Seq<PendingCallView> {
    calls.map_values(|c: PendingCall| c@)
}

impl View for MultiSignatureAccount {
    type V = MultiSignatureAccountView;

    open spec fn view(&self) -> MultiSignatureAccountView {
        MultiSignatureAccountView {
            address: self.address,
            authors: authors_view(self.authors),
            signatories: self.signatories@,
            minimum_signatories: self.minimum_signatories,
            pending_calls: call_views(self.pending_calls@),
        }
    }
}

/// Whether `ids` is in strictly ascending order: sorted, and free of
/// duplicates.
pub open spec fn strictly_ascending(ids: Seq<AccountId>) -> bool {
    forall|i: int, j: int| 0 <= i < j < ids.len() ==> ids[i] < ids[j]
}

/// The least quorum an account may have. One approval alone never runs a
/// call: the floor holds when an account is created, when its quorum is set
/// directly and when a new quorum is proposed.
pub const MINIMUM_QUORUM: u32 = 2;

/// Whether `quorum` is a quorum that an account with `signer_count` signers
/// may have: at least [`MINIMUM_QUORUM`], at most every signer.
pub open spec fn quorum_in_range(quorum: u32, signer_count: nat) -> bool {
    MINIMUM_QUORUM <= quorum <= signer_count
}

/// Whether some call in `calls` has the identifier `id`.
pub open spec fn has_call(calls: Seq<PendingCallView>, id: [u8; 32]) -> bool {
    exists|i: int| 0 <= i < calls.len() && #[trigger] calls[i].id == id
}

/// Whether the call at `i` is the first in `calls` with the identifier `id`.
pub open spec fn is_first_call_with(calls: Seq<PendingCallView>, id: [u8; 32], i: int) -> bool {
    &&& 0 <= i < calls.len()
    &&& calls[i].id == id
    &&& forall|j: int| 0 <= j < i ==> (#[trigger] calls[j]).id != id
}

/// The place of the first call in `calls` with the identifier `id`. It means
/// something only where [`has_call`] holds.
pub open spec fn index_of_call(calls: Seq<PendingCallView>, id: [u8; 32]) -> int {
    choose|i: int| is_first_call_with(calls, id, i)
}

/// The first call with an identifier is at one place only.
pub proof fn lemma_index_of_call(calls: Seq<PendingCallView>, id: [u8; 32], i: int)
    requires
        is_first_call_with(calls, id, i),
    ensures
        has_call(calls, id),
        index_of_call(calls, id) == i,
{
    let k = index_of_call(calls, id);
    assert(is_first_call_with(calls, id, k));
    if k < i {
        assert(calls[k].id != id);
    }
    if i < k {
        assert(calls[i].id != id);
    }
}

/// Whether `id` may act as an author on an account with these authors and
/// signers: it is a listed author, or none is listed and it is a signer.
pub open spec fn may_author(
    authors: Option<Seq<AccountId>>,
    signatories: Seq<AccountId>,
    id: AccountId,
) -> bool {
    match authors {
        Some(list) => list.contains(id),
        None => signatories.contains(id),
    }
}

/// The authors that are listed: none where every signer is an author.
pub open spec fn listed_authors(authors: Option<Seq<AccountId>>) -> Seq<AccountId> {
    match authors {
        Some(list) => list,
        None => Seq::<AccountId>::empty(),
    }
}

/// Whether every one of `authors` is among `signatories`.
pub open spec fn all_signers(authors: Seq<AccountId>, signatories: Seq<AccountId>) -> bool {
    forall|i: int| 0 <= i < authors.len() ==> signatories.contains(#[trigger] authors[i])
}

/// The first fault among `candidates` from place `i` on, if any: a candidate
/// that is listed already or stands among the candidates before it, or one
/// that is no signer.
pub open spec fn author_fault_from(
    listed: Seq<AccountId>,
    signatories: Seq<AccountId>,
    candidates: Seq<AccountId>,
    i: int,
) -> Option<MultiSigAcctError>
    decreases candidates.len() - i,
{
    if i < 0 || i >= candidates.len() {
        None
    } else if listed.contains(candidates[i]) || candidates.take(i).contains(candidates[i]) {
        Some(MultiSigAcctError::AccountAlreadyAuthor)
    } else if !signatories.contains(candidates[i]) {
        Some(MultiSigAcctError::AccountNotSignatory)
    } else {
        author_fault_from(listed, signatories, candidates, i + 1)
    }
}

/// Why `candidates` cannot become authors of `account`, if they cannot: the
/// list is empty, or it would fill every slot that the signers leave open,
/// or one of the candidates is at fault.
pub open spec fn candidates_fault(
    account: MultiSignatureAccountView,
    candidates: Seq<AccountId>,
) -> Option<MultiSigAcctError> {
    let listed = listed_authors(account.authors);
    if candidates.len() == 0 {
        Some(MultiSigAcctError::AuthorListEmpty)
    } else if candidates.len() + listed.len() >= account.signatories.len() {
        Some(MultiSigAcctError::AuthorVecTooLong)
    } else {
        author_fault_from(listed, account.signatories, candidates, 0)
    }
}

/// Why `candidates` cannot be added to the authors of `account`, if they
/// cannot: a fault of the candidates, or more authors in all than an account
/// may have signers.
pub open spec fn new_authors_fault(
    account: MultiSignatureAccountView,
    candidates: Seq<AccountId>,
    config: Config,
) -> Option<MultiSigAcctError> {
    if candidates_fault(account, candidates) is Some {
        candidates_fault(account, candidates)
    } else if listed_authors(account.authors).len() + candidates.len() > config.max_signatories {
        Some(MultiSigAcctError::AuthorVecTooLong)
    } else {
        None
    }
}

/// Why `authors` cannot be the listed authors of an account with these
/// signers, if they cannot. A list names at least one author, none twice,
/// signers only, and no more than an account may have signers.
pub open spec fn listed_authors_fault(
    authors: Option<Seq<AccountId>>,
    signatories: Seq<AccountId>,
    config: Config,
) -> Option<MultiSigAcctError> {
    match authors {
        None => None,
        Some(list) => if list.len() == 0 {
            Some(MultiSigAcctError::AuthorListEmpty)
        } else if !list.no_duplicates() {
            Some(MultiSigAcctError::DuplicatesInList)
        } else if !all_signers(list, signatories) {
            Some(MultiSigAcctError::AccountNotSignatory)
        } else if list.len() > config.max_signatories {
            Some(MultiSigAcctError::AtMaxAuthors)
        } else {
            None
        },
    }
}

/// Why no account can be made of these signers, authors and quorum, if none
/// can. The checks run in this order: fewer than 2 signers; a quorum under
/// [`MINIMUM_QUORUM`] or over the number of signers; a signer that stands
/// twice; more signers than an account may have; a fault of the authors.
pub open spec fn new_account_fault(
    signatories: Seq<AccountId>,
    authors: Option<Seq<AccountId>>,
    min_approvals: u32,
    config: Config,
) -> Option<MultiSigAcctError> {
    if signatories.len() < 2 {
        Some(MultiSigAcctError::SignatoriesListTooShort)
    } else if !quorum_in_range(min_approvals, signatories.len()) {
        Some(MultiSigAcctError::MinApprovalsOutOfRange)
    } else if !signatories.no_duplicates() {
        Some(MultiSigAcctError::DuplicatesInList)
    } else if signatories.len() > config.max_signatories {
        Some(MultiSigAcctError::SignatoriesListTooLong)
    } else {
        listed_authors_fault(authors, signatories, config)
    }
}

/// The account that is made of these signers, authors and quorum: the
/// signers in ascending order, the address that they give, no pending call.
pub open spec fn new_account(
    signatories: Seq<AccountId>,
    authors: Option<Seq<AccountId>>,
    min_approvals: u32,
) -> MultiSignatureAccountView {
    MultiSignatureAccountView {
        address: address_of(signatories),
        authors,
        signatories: sorted_ids(signatories),
        minimum_signatories: min_approvals,
        pending_calls: Seq::<PendingCallView>::empty(),
    }
}

/// Whether an account respects the limits of `config`, its signers are in
/// strictly ascending order, its quorum is in range, its address is the one
/// its signers give, its listed authors are a set of at least one signer,
/// and every approver of a pending call is a signer.
pub open spec fn account_well_formed(account: MultiSignatureAccountView, config: Config) -> bool {
    &&& strictly_ascending(account.signatories)
    &&& 2 <= account.signatories.len() <= config.max_signatories
    &&& quorum_in_range(account.minimum_signatories, account.signatories.len())
    &&& account.address == address_of_sorted(account.signatories)
    &&& account.authors matches Some(list) ==> {
        &&& 0 < list.len() <= config.max_signatories
        &&& list.no_duplicates()
        &&& all_signers(list, account.signatories)
    }
    &&& account.pending_calls.len() <= config.max_pending_calls
    &&& forall|i: int|
        0 <= i < account.pending_calls.len() ==> {
            &&& call_well_formed(#[trigger] account.pending_calls[i], config)
            &&& account.pending_calls[i].approvals.subset_of(account.signatories.to_set())
        }
}

/// `items` with the item at `i` taken out and the last item put in its place.
pub open spec fn swap_removed<T>(items: Seq<T>, i: int) -> Seq<T> {
    items.update(i, items.last()).drop_last()
}

/// Whether `ids` is in strictly ascending order.
pub fn is_strictly_ascending(ids: &Vec<AccountId>) -> (ok: bool)
    ensures
        ok == strictly_ascending(ids@),
{
    let mut i: usize = 1;
    while i < ids.len()
        invariant
            1 <= i,
            forall|a: int, b: int| 0 <= a < b < i && b < ids@.len() ==> ids@[a] < ids@[b],
        decreases ids@.len() - i,
    {
        if ids[i - 1] >= ids[i] {
            return false;
        }
        assert forall|a: int, b: int| 0 <= a < b < i + 1 && b < ids@.len() implies ids@[a]
            < ids@[b] by {
            if b == i && a < i - 1 {
                assert(ids@[a] < ids@[i - 1]);
            }
        }
        i += 1;
    }
    true
}

/// Whether `id` stands among the first `end` items of `ids`.
pub fn prefix_contains(ids: &Vec<AccountId>, end: usize, id: AccountId) -> (found: bool)
    requires
        end <= ids@.len(),
    ensures
        found == ids@.take(end as int).contains(id),
{
    let mut j: usize = 0;
    while j < end
        invariant
            j <= end <= ids@.len(),
            forall|k: int| 0 <= k < j ==> ids@[k] != id,
        decreases end - j,
    {
        if ids[j] == id {
            assert(ids@.take(end as int)[j as int] == id);
            return true;
        }
        j += 1;
    }
    false
}

/// Whether no identifier stands twice in `ids`.
pub fn has_no_duplicates(ids: &Vec<AccountId>) -> (ok: bool)
    ensures
        ok == ids@.no_duplicates(),
{
    let mut i: usize = 0;
    while i < ids.len()
        invariant
            i <= ids@.len(),
            ids@.take(i as int).no_duplicates(),
        decreases ids@.len() - i,
    {
        if prefix_contains(ids, i, ids[i]) {
            let ghost k = choose|k: int|
                0 <= k < ids@.take(i as int).len() && ids@.take(i as int)[k] == ids@[i as int];
            assert(ids@[k] == ids@[i as int]);
            return false;
        }
        assert(ids@.take(i + 1) =~= ids@.take(i as int).push(ids@[i as int]));
        i += 1;
    }
    assert(ids@.take(ids@.len() as int) =~= ids@);
    true
}

/// Whether every one of `authors` is among `signatories`.
pub fn are_all_signers(authors: &Vec<AccountId>, signatories: &Vec<AccountId>) -> (ok: bool)
    ensures
        ok == all_signers(authors@, signatories@),
{
    let mut i: usize = 0;
    while i < authors.len()
        invariant
            i <= authors@.len(),
            forall|k: int| 0 <= k < i ==> signatories@.contains(#[trigger] authors@[k]),
        decreases authors@.len() - i,
    {
        if !contains_id(signatories, authors[i]) {
            assert(!signatories@.contains(authors@[i as int]));
            return false;
        }
        i += 1;
    }
    true
}

/// Whether `ids` holds `id`.
pub fn contains_id(ids: &Vec<AccountId>, id: AccountId) -> (found: bool)
    ensures
        found == ids@.contains(id),
{
    let mut i: usize = 0;
    while i < ids.len()
        invariant
            i <= ids@.len(),
            forall|k: int| 0 <= k < i ==> ids@[k] != id,
        decreases ids@.len() - i,
    {
        if ids[i] == id {
            return true;
        }
        i += 1;
    }
    false
}

impl MultiSignatureAccount {
    /// The account respects the limits of `config`, its quorum is in range,
    /// its address is the one its signers give, and every author and every
    /// approver of a pending call is a signer.
    pub open spec fn well_formed(&self, config: Config) -> bool {
        account_well_formed(self@, config)
    }

    /// Whether the account is well formed under the limits of `config`.
    pub fn is_well_formed(&self, config: &Config) -> (ok: bool)
        ensures
            ok == self.well_formed(*config),
    {
        let count: usize = self.signatories.len();
        if count < 2 || count > config.max_signatories as usize {
            return false;
        }
        if !is_strictly_ascending(&self.signatories) {
            return false;
        }
        if self.minimum_signatories < MINIMUM_QUORUM || self.minimum_signatories as usize > count {
            return false;
        }
        if self.address != construct_address(&self.signatories) {
            return false;
        }
        match &self.authors {
            None => {},
            Some(list) => {
                if list.len() == 0 || list.len() > config.max_signatories as usize {
                    return false;
                }
                if !has_no_duplicates(list) {
                    return false;
                }
                if !are_all_signers(list, &self.signatories) {
                    return false;
                }
            },
        }
        if self.pending_calls.len() > config.max_pending_calls as usize {
            return false;
        }
        let mut i: usize = 0;
        while i < self.pending_calls.len()
            invariant
                i <= self.pending_calls@.len(),
                strictly_ascending(self.signatories@),
                forall|k: int|
                    0 <= k < i ==> {
                        &&& call_well_formed(#[trigger] self@.pending_calls[k], *config)
                        &&& self@.pending_calls[k].approvals.subset_of(
                            self@.signatories.to_set(),
                        )
                    },
            decreases self.pending_calls@.len() - i,
        {
            assert(self@.pending_calls[i as int] == self.pending_calls@[i as int]@);
            if !self.pending_calls[i].is_well_formed(config) {
                return false;
            }
            if !approvals_among(&self.pending_calls[i].approvals, &self.signatories) {
                return false;
            }
            i += 1;
        }
        true
    }

    /// A new account of these signers, authors and quorum, with no pending
    /// call. The signers are put in ascending order and the address is
    /// derived from them.
    ///
    /// Fails exactly when [`new_account_fault`] names a fault, and with that
    /// fault: `SignatoriesListTooShort` for fewer than 2 signers, else
    /// `MinApprovalsOutOfRange` for a quorum out of range, else
    /// `DuplicatesInList` for a signer that stands twice, else
    /// `SignatoriesListTooLong`, else the fault of the authors.
    pub fn new(
        signatories: Vec<AccountId>,
        authors: Option<Vec<AccountId>>,
        min_approvals: u32,
        config: &Config,
    ) -> (res: Result<Self, MultiSigAcctError>)
        ensures
            match new_account_fault(signatories@, authors_view(authors), min_approvals, *config) {
                Some(fault) => res == Err::<Self, MultiSigAcctError>(fault),
                None => res matches Ok(account) && account@ == new_account(
                    signatories@,
                    authors_view(authors),
                    min_approvals,
                ) && account.well_formed(*config),
            },
    {
        if signatories.len() < 2 {
            return Err(MultiSigAcctError::SignatoriesListTooShort);
        }
        if min_approvals < MINIMUM_QUORUM || min_approvals as usize > signatories.len() {
            return Err(MultiSigAcctError::MinApprovalsOutOfRange);
        }
        if !has_no_duplicates(&signatories) {
            return Err(MultiSigAcctError::DuplicatesInList);
        }
        if signatories.len() > config.max_signatories as usize {
            return Err(MultiSigAcctError::SignatoriesListTooLong);
        }
        match &authors {
            None => {},
            Some(list) => {
                if list.len() == 0 {
                    return Err(MultiSigAcctError::AuthorListEmpty);
                }
                if !has_no_duplicates(list) {
                    return Err(MultiSigAcctError::DuplicatesInList);
                }
                if !are_all_signers(list, &signatories) {
                    return Err(MultiSigAcctError::AccountNotSignatory);
                }
                if list.len() > config.max_signatories as usize {
                    return Err(MultiSigAcctError::AtMaxAuthors);
                }
            },
        }
        let ghost given = signatories@;
        let mut signatories: Vec<AccountId> = signatories;
        sort_ids(&mut signatories);
        proof {
            lemma_sorted_ids_properties(given);
            lemma_sorted_ids_keep_no_duplicates(given);
            lemma_sorted_ids_of_sorted(signatories@);
            if let Some(list) = authors_view(authors) {
                assert forall|i: int| 0 <= i < list.len() implies signatories@.contains(
                    #[trigger] list[i],
                ) by {
                    assert(given.contains(list[i]));
                }
            }
        }
        let address: AccountId = construct_address(&signatories);
        let account = MultiSignatureAccount {
            address,
            authors,
            signatories,
            minimum_signatories: min_approvals,
            pending_calls: Vec::new(),
        };
        assert(account@.pending_calls =~= Seq::<PendingCallView>::empty());
        Ok(account)
    }

    /// The address of the account that `signatories` control. The signers
    /// are sorted first, so the order in which they are given does not
    /// matter.
    pub fn construct_address(signatories: &Vec<AccountId>) -> (address: AccountId)
        requires
            signatories@.len() <= u32::MAX,
        ensures
            address == address_of(signatories@),
    {
        derive_address(signatories)
    }

    /// Whether `account_id` is one of the signatories.
    pub fn is_signatory(&self, account_id: &AccountId) -> (found: bool)
        ensures
            found == self@.signatories.contains(*account_id),
    {
        contains_id(&self.signatories, *account_id)
    }

    /// Whether `account_id` may author and remove calls and propose a new
    /// quorum.
    pub fn is_author(&self, account_id: &AccountId) -> (found: bool)
        ensures
            found == may_author(self@.authors, self@.signatories, *account_id),
    {
        match &self.authors {
            Some(authors) => contains_id(authors, *account_id),
            None => contains_id(&self.signatories, *account_id),
        }
    }

    /// Checks that `new_authors` can become authors of the account.
    ///
    /// Fails exactly when [`candidates_fault`] names a fault, and with that
    /// fault.
    pub fn validate_authors_list(&self, new_authors: &Vec<AccountId>) -> (res: Result<
        (),
        MultiSigAcctError,
    >)
        ensures
            match candidates_fault(self@, new_authors@) {
                Some(fault) => res == Err::<(), MultiSigAcctError>(fault),
                None => res is Ok,
            },
    {
        if new_authors.len() == 0 {
            return Err(MultiSigAcctError::AuthorListEmpty);
        }
        let current_authors_len: usize = match &self.authors {
            Some(list) => list.len(),
            None => 0,
        };
        let open_author_slots: usize = if self.signatories.len() >= current_authors_len {
            self.signatories.len() - current_authors_len
        } else {
            0
        };
        if new_authors.len() >= open_author_slots {
            return Err(MultiSigAcctError::AuthorVecTooLong);
        }
        let ghost listed = listed_authors(self@.authors);
        let mut i: usize = 0;
        while i < new_authors.len()
            invariant
                i <= new_authors@.len(),
                listed == listed_authors(self@.authors),
                new_authors@.len() > 0,
                new_authors@.len() + listed.len() < self@.signatories.len(),
                author_fault_from(listed, self@.signatories, new_authors@, 0) == author_fault_from(
                    listed,
                    self@.signatories,
                    new_authors@,
                    i as int,
                ),
            decreases new_authors@.len() - i,
        {
            let author: AccountId = new_authors[i];
            let already: bool = match &self.authors {
                Some(list) => contains_id(list, author),
                None => false,
            };
            if already || prefix_contains(new_authors, i, author) {
                return Err(MultiSigAcctError::AccountAlreadyAuthor);
            }
            if !self.is_signatory(&author) {
                return Err(MultiSigAcctError::AccountNotSignatory);
            }
            i += 1;
        }
        Ok(())
    }

    /// Adds `authors` to the authors of the account. Where no author was
    /// listed, the new ones become the only authors. A well-formed account
    /// stays well formed.
    ///
    /// Fails, leaving the account as it was, exactly when
    /// [`new_authors_fault`] names a fault, and with that fault.
    pub fn add_authors(&mut self, authors: &Vec<AccountId>, config: &Config) -> (res: Result<
        (),
        MultiSigAcctError,
    >)
        ensures
            old(self).well_formed(*config) ==> final(self).well_formed(*config),
            match new_authors_fault(old(self)@, authors@, *config) {
                Some(fault) => {
                    &&& res == Err::<(), MultiSigAcctError>(fault)
                    &&& final(self)@ == old(self)@
                },
                None => {
                    &&& res is Ok
                    &&& final(self)@ == (MultiSignatureAccountView {
                        authors: Some(listed_authors(old(self)@.authors) + authors@),
                        ..old(self)@
                    })
                },
            },
    {
        match self.validate_authors_list(authors) {
            Err(fault) => {
                return Err(fault);
            },
            Ok(()) => {},
        }
        let listed_len: usize = match &self.authors {
            Some(list) => list.len(),
            None => 0,
        };
        if listed_len > config.max_signatories as usize || authors.len()
            > config.max_signatories as usize - listed_len {
            return Err(MultiSigAcctError::AuthorVecTooLong);
        }
        let mut list: Vec<AccountId> = match self.authors.take() {
            Some(list) => list,
            None => Vec::new(),
        };
        let ghost listed = list@;
        let mut i: usize = 0;
        while i < authors.len()
            invariant
                i <= authors@.len(),
                list@ == listed + authors@.take(i as int),
            decreases authors@.len() - i,
        {
            list.push(authors[i]);
            assert(authors@.take(i + 1) =~= authors@.take(i as int).push(authors@[i as int]));
            assert(list@ =~= listed + authors@.take(i + 1));
            i += 1;
        }
        assert(authors@.take(authors@.len() as int) =~= authors@);
        self.authors = Some(list);
        proof {
            if old(self).well_formed(*config) {
                lemma_added_authors_well_formed(old(self)@, authors@, *config);
            }
        }
        Ok(())
    }

    /// Appends `call` to the queue of pending calls.
    ///
    /// Fails with `AtPendingCallLimit`, leaving the account as it was,
    /// exactly when the queue holds `config.max_pending_calls` calls or more.
    pub fn add_call(&mut self, call: PendingCall, config: &Config) -> (res: Result<
        (),
        MultiSigAcctError,
    >)
        ensures
            old(self).pending_calls@.len() < config.max_pending_calls ==> {
                &&& res is Ok
                &&& final(self)@ == (MultiSignatureAccountView {
                    pending_calls: old(self)@.pending_calls.push(call@),
                    ..old(self)@
                })
                &&& final(self).pending_calls@ == old(self).pending_calls@.push(call)
            },
            old(self).pending_calls@.len() >= config.max_pending_calls ==> {
                &&& res == Err::<(), MultiSigAcctError>(MultiSigAcctError::AtPendingCallLimit)
                &&& final(self)@ == old(self)@
                &&& final(self).pending_calls@ == old(self).pending_calls@
            },
            final(self).signatories == old(self).signatories,
            final(self).authors == old(self).authors,
            final(self).address == old(self).address,
            final(self).minimum_signatories == old(self).minimum_signatories,
    {
        if self.pending_calls.len() < config.max_pending_calls as usize {
            self.pending_calls.push(call);
            assert(call_views(self.pending_calls@) =~= call_views(old(self).pending_calls@).push(
                call@,
            ));
            Ok(())
        } else {
            Err(MultiSigAcctError::AtPendingCallLimit)
        }
    }

    /// Takes the pending call at `index` out of the queue. The last call of
    /// the queue takes its place.
    pub fn take_call(&mut self, index: usize) -> (call: PendingCall)
        requires
            index < old(self)@.pending_calls.len(),
        ensures
            call@ == old(self)@.pending_calls[index as int],
            final(self)@ == (MultiSignatureAccountView {
                pending_calls: swap_removed(old(self)@.pending_calls, index as int),
                ..old(self)@
            }),
    {
        let call: PendingCall = self.pending_calls.swap_remove(index);
        assert(call_views(self.pending_calls@) =~= swap_removed(
            call_views(old(self).pending_calls@),
            index as int,
        ));
        call
    }

    /// The place of the first pending call with the identifier `call_id`.
    pub fn find_call(&self, call_id: &[u8; 32]) -> (res: Option<usize>)
        ensures
            res is Some <==> has_call(self@.pending_calls, *call_id),
            res matches Some(i) ==> {
                &&& i == index_of_call(self@.pending_calls, *call_id)
                &&& is_first_call_with(self@.pending_calls, *call_id, i as int)
            },
    {
        let mut i: usize = 0;
        while i < self.pending_calls.len()
            invariant
                i <= self.pending_calls@.len(),
                forall|k: int| 0 <= k < i ==> (#[trigger] self@.pending_calls[k]).id != *call_id,
            decreases self.pending_calls@.len() - i,
        {
            if same_call_id(&self.pending_calls[i].id, call_id) {
                proof {
                    lemma_index_of_call(self@.pending_calls, *call_id, i as int);
                }
                return Some(i);
            }
            i += 1;
        }
        None
    }

    /// Removes the first pending call with the identifier `call_id`. The
    /// calls behind it keep their order.
    ///
    /// Fails with `CallNotFound`, leaving the account as it was, exactly when
    /// no pending call has that identifier.
    pub fn remove_call(&mut self, call_id: [u8; 32]) -> (res: Result<(), MultiSigAcctError>)
        ensures
            has_call(old(self)@.pending_calls, call_id) ==> {
                &&& res is Ok
                &&& final(self)@ == (MultiSignatureAccountView {
                    pending_calls: old(self)@.pending_calls.remove(
                        index_of_call(old(self)@.pending_calls, call_id),
                    ),
                    ..old(self)@
                })
                &&& final(self).pending_calls@ == old(self).pending_calls@.remove(
                    index_of_call(old(self)@.pending_calls, call_id),
                )
            },
            !has_call(old(self)@.pending_calls, call_id) ==> {
                &&& res == Err::<(), MultiSigAcctError>(MultiSigAcctError::CallNotFound)
                &&& final(self)@ == old(self)@
                &&& final(self).pending_calls@ == old(self).pending_calls@
            },
            final(self).signatories == old(self).signatories,
            final(self).authors == old(self).authors,
            final(self).address == old(self).address,
            final(self).minimum_signatories == old(self).minimum_signatories,
    {
        match self.find_call(&call_id) {
            Some(index) => {
                self.pending_calls.remove(index);
                assert(call_views(self.pending_calls@) =~= call_views(
                    old(self).pending_calls@,
                ).remove(index as int));
                Ok(())
            },
            None => Err(MultiSigAcctError::CallNotFound),
        }
    }

    /// Sets the quorum to `new_min_approvals`.
    ///
    /// Fails with `MinApprovalsOutOfRange`, leaving the account as it was,
    /// exactly when the new quorum is under 2 or over the number of
    /// signatories.
    pub fn adjust_min_approvals(&mut self, new_min_approvals: u32) -> (res: Result<
        (),
        MultiSigAcctError,
    >)
        ensures
            quorum_in_range(new_min_approvals, old(self)@.signatories.len()) ==> {
                &&& res is Ok
                &&& final(self)@ == (MultiSignatureAccountView {
                    minimum_signatories: new_min_approvals,
                    ..old(self)@
                })
            },
            !quorum_in_range(new_min_approvals, old(self)@.signatories.len()) ==> {
                &&& res == Err::<(), MultiSigAcctError>(MultiSigAcctError::MinApprovalsOutOfRange)
                &&& final(self)@ == old(self)@
            },
            final(self).signatories == old(self).signatories,
            final(self).authors == old(self).authors,
            final(self).address == old(self).address,
            final(self).pending_calls == old(self).pending_calls,
    {
        if new_min_approvals < MINIMUM_QUORUM || new_min_approvals as usize > self.signatories.len() {
            return Err(MultiSigAcctError::MinApprovalsOutOfRange);
        }
        self.minimum_signatories = new_min_approvals;
        Ok(())
    }
}

/// Candidates without a fault are all signers, none is listed already, and
/// none stands twice.
pub proof fn lemma_no_fault_means_signers(
    listed: Seq<AccountId>,
    signatories: Seq<AccountId>,
    candidates: Seq<AccountId>,
    i: int,
)
    requires
        0 <= i,
        author_fault_from(listed, signatories, candidates, i) is None,
    ensures
        forall|k: int|
            i <= k < candidates.len() ==> {
                &&& signatories.contains(#[trigger] candidates[k])
                &&& !listed.contains(candidates[k])
                &&& !candidates.take(k).contains(candidates[k])
            },
    decreases candidates.len() - i,
{
    if i < candidates.len() {
        lemma_no_fault_means_signers(listed, signatories, candidates, i + 1);
    }
}

/// Faultless candidates, added to the authors of a well-formed account,
/// leave a well-formed account.
pub proof fn lemma_added_authors_well_formed(
    account: MultiSignatureAccountView,
    candidates: Seq<AccountId>,
    config: Config,
)
    requires
        account_well_formed(account, config),
        new_authors_fault(account, candidates, config) is None,
    ensures
        account_well_formed(
            MultiSignatureAccountView {
                authors: Some(listed_authors(account.authors) + candidates),
                ..account
            },
            config,
        ),
{
    let listed = listed_authors(account.authors);
    let after = listed + candidates;
    lemma_no_fault_means_signers(listed, account.signatories, candidates, 0);
    assert forall|i: int| 0 <= i < after.len() implies account.signatories.contains(
        #[trigger] after[i],
    ) by {
        if i < listed.len() {
            assert(after[i] == listed[i]);
        } else {
            assert(after[i] == candidates[i - listed.len()]);
        }
    }
    assert forall|i: int, j: int| 0 <= i < after.len() && 0 <= j < after.len() && i != j implies after[i]
        != after[j] by {
        let (a, b) = if i < j {
            (i, j)
        } else {
            (j, i)
        };
        if b >= listed.len() {
            let kb = b - listed.len();
            assert(after[b] == candidates[kb]);
            if a < listed.len() {
                assert(after[a] == listed[a]);
                assert(listed.contains(listed[a]));
            } else {
                let ka = a - listed.len();
                assert(after[a] == candidates[ka]);
                assert(candidates.take(kb)[ka] == candidates[ka]);
                assert(candidates.take(kb).contains(candidates[ka]));
            }
        } else {
            assert(after[a] == listed[a] && after[b] == listed[b]);
        }
    }
}

} // verus!
