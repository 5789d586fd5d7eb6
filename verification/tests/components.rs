use multi_sig::address::{construct_address, derive_address, sort_ids};
use multi_sig::min_approval_proposal::position_of;
use multi_sig::multi_signature_account::{
    are_all_signers, contains_id, has_no_duplicates, is_strictly_ascending, prefix_contains,
    MINIMUM_QUORUM,
};
use multi_sig::pallet::check_duplicates;
use multi_sig::pending_call::same_call_id;
use multi_sig::{
    settle, Config, Error, Event, IdentityValidator, MinimumApprovalProposal, MultiSigAcctError,
    MultiSignatureAccount, OffenceHandler, Outcome, Pallet, PendingCall, PendingCallError,
    SomeIdentifier, TestSessionHandler,
};

fn limits() -> Config {
    Config {
        max_signatories: 5,
        max_pending_calls: 10,
        max_multi_sigs_per_account_id: 3,
        max_call_size: 100,
    }
}

fn account(signatories: Vec<u64>, authors: Option<Vec<u64>>, quorum: u32) -> MultiSignatureAccount {
    MultiSignatureAccount::new(signatories, authors, quorum, &limits()).unwrap()
}

fn le(value: u64) -> [u8; 8] {
    [
        value as u8,
        (value >> 8) as u8,
        (value >> 16) as u8,
        (value >> 24) as u8,
        (value >> 32) as u8,
        (value >> 40) as u8,
        (value >> 48) as u8,
        (value >> 56) as u8,
    ]
}

fn first_eight(digest: [u8; 32]) -> u64 {
    let mut value = 0u64;
    for i in (0..8).rev() {
        value = (value << 8) | digest[i] as u64;
    }
    value
}

#[test]
fn address_is_the_digest_of_the_tag_and_the_sorted_signers() {
    let mut preimage = b"multi-sig:v1".to_vec();
    preimage.push(3 << 2);
    preimage.extend(le(1));
    preimage.extend(le(2));
    preimage.extend(le(0x0102030405060708));
    let expected = first_eight(sp_io::hashing::blake2_256(&preimage));
    assert_eq!(derive_address(&vec![0x0102030405060708, 1, 2]), expected);
    assert_eq!(derive_address(&vec![2, 0x0102030405060708, 1]), expected);
    assert_eq!(construct_address(&vec![1, 2, 0x0102030405060708]), expected);
    assert_ne!(construct_address(&vec![2, 1, 0x0102030405060708]), expected);
}

#[test]
fn address_of_many_signers_has_a_two_byte_length() {
    let signers: Vec<u64> = (0..70).collect();
    let mut preimage = b"multi-sig:v1".to_vec();
    preimage.extend([((70u16 << 2) | 1) as u8, ((70u16 << 2) >> 8) as u8]);
    for signer in &signers {
        preimage.extend(le(*signer));
    }
    let expected = first_eight(sp_io::hashing::blake2_256(&preimage));
    let mut shuffled = signers.clone();
    shuffled.reverse();
    assert_eq!(derive_address(&shuffled), expected);
}

#[test]
fn call_id_is_the_digest_of_the_tag_the_call_and_the_time() {
    let call = vec![9u8, 8, 7];
    let now = 0x1122334455667788u64;
    let mut preimage = b"call-id".to_vec();
    preimage.push(3 << 2);
    preimage.extend(&call);
    preimage.push(8 << 2);
    preimage.extend(le(now));
    let expected = sp_io::hashing::blake2_256(&preimage);
    assert_eq!(PendingCall::generate_call_id(&call, now), expected);
    assert_ne!(PendingCall::generate_call_id(&call, now + 1), expected);
    assert_ne!(PendingCall::generate_call_id(&vec![9u8, 8], now), expected);
    let pending = PendingCall::new(call.clone(), 4, now, &limits()).unwrap();
    assert_eq!(pending.id, expected);
    assert_eq!(pending.call, call);
    assert_eq!(pending.approvals.iter().copied().collect::<Vec<u64>>(), vec![4]);
}

#[test]
fn call_id_of_a_long_call_has_a_four_byte_length() {
    let call = vec![0xabu8; 16384];
    let mut preimage = b"call-id".to_vec();
    preimage.extend([0x02u8, 0x00, 0x01, 0x00]);
    preimage.extend(&call);
    preimage.push(8 << 2);
    preimage.extend(le(7));
    assert_eq!(PendingCall::generate_call_id(&call, 7), sp_io::hashing::blake2_256(&preimage));

    let call = vec![0xcdu8; 64];
    let mut preimage = b"call-id".to_vec();
    preimage.extend([0x01u8, 0x01]);
    preimage.extend(&call);
    preimage.push(8 << 2);
    preimage.extend(le(7));
    assert_eq!(PendingCall::generate_call_id(&call, 7), sp_io::hashing::blake2_256(&preimage));

    let mut preimage = b"call-id".to_vec();
    preimage.push(0);
    preimage.push(8 << 2);
    preimage.extend(le(0));
    assert_eq!(PendingCall::generate_call_id(&vec![], 0), sp_io::hashing::blake2_256(&preimage));
}

#[test]
fn call_ids_are_compared_byte_by_byte() {
    let a = [5u8; 32];
    let mut b = [5u8; 32];
    assert!(same_call_id(&a, &b));
    b[31] = 6;
    assert!(!same_call_id(&a, &b));
}

#[test]
fn sort_puts_ids_in_ascending_order() {
    let mut ids = vec![5, 1, 4, 1, 3];
    sort_ids(&mut ids);
    assert_eq!(ids, vec![1, 1, 3, 4, 5]);
    let mut none: Vec<u64> = Vec::new();
    sort_ids(&mut none);
    assert!(none.is_empty());
}

#[test]
fn pending_call_respects_the_size_limit() {
    let config = limits();
    assert!(PendingCall::new(vec![0u8; 100], 1, 0, &config).is_ok());
    assert_eq!(
        PendingCall::new(vec![0u8; 101], 1, 0, &config).unwrap_err(),
        PendingCallError::FailureEncodingCall
    );
    assert_eq!(PendingCall::encode_call(vec![1, 2], &config), Ok(vec![1, 2]));
    assert_eq!(
        PendingCall::encode_call(vec![0u8; 101], &config),
        Err(PendingCallError::FailureEncodingCall)
    );
    let nobody = Config { max_signatories: 0, ..config };
    assert!(PendingCall::new(vec![1], 1, 0, &nobody).unwrap().approvals.is_empty());
}

#[test]
fn pending_call_approvals_are_a_bounded_set() {
    let config = Config { max_signatories: 2, ..limits() };
    let mut pending = PendingCall::new(vec![1], 1, 0, &config).unwrap();
    assert_eq!(pending.add_approval(1, &config), Ok(1));
    assert_eq!(pending.add_approval(2, &config), Ok(2));
    assert_eq!(pending.add_approval(2, &config), Ok(2));
    assert_eq!(
        pending.add_approval(3, &config),
        Err(PendingCallError::ReachedBoundedApprovalLimit)
    );
    assert_eq!(pending.approvals.len(), 2);
    assert_eq!(pending.remove_approval(7), Ok(()));
    assert_eq!(pending.approvals.len(), 2);
    assert_eq!(pending.remove_approval(1), Ok(()));
    assert_eq!(pending.approvals.iter().copied().collect::<Vec<u64>>(), vec![2]);
    assert_eq!(pending.add_approval(3, &config), Ok(2));
}

#[test]
fn account_is_built_from_its_parts() {
    let msa = account(vec![1, 2, 3], Some(vec![2]), 2);
    assert_eq!(msa.address, construct_address(&vec![1, 2, 3]));
    assert_eq!(MultiSignatureAccount::construct_address(&vec![1, 2, 3]), msa.address);
    assert_eq!(MultiSignatureAccount::construct_address(&vec![3, 1, 2]), msa.address);
    assert_eq!(account(vec![2, 3, 1], None, 3).address, msa.address);
    assert_eq!(account(vec![2, 3, 1], None, 3).signatories, vec![1, 2, 3]);
    assert_eq!(msa.signatories, vec![1, 2, 3]);
    assert_eq!(msa.authors, Some(vec![2]));
    assert_eq!(msa.minimum_signatories, 2);
    assert!(msa.pending_calls.is_empty());
    assert!(msa.is_signatory(&1));
    assert!(!msa.is_signatory(&4));
    assert!(msa.is_author(&2));
    assert!(!msa.is_author(&1));
    let open = account(vec![1, 2, 3], None, 2);
    assert!(open.is_author(&1));
    assert!(!open.is_author(&4));
}

#[test]
fn account_queue_is_bounded() {
    let config = Config { max_pending_calls: 2, ..limits() };
    let mut msa = account(vec![1, 2, 3], None, 2);
    let first = PendingCall::new(vec![1], 1, 0, &config).unwrap();
    let second = PendingCall::new(vec![2], 1, 0, &config).unwrap();
    let third = PendingCall::new(vec![3], 1, 0, &config).unwrap();
    assert_eq!(msa.add_call(first.clone(), &config), Ok(()));
    assert_eq!(msa.add_call(second.clone(), &config), Ok(()));
    assert_eq!(msa.add_call(third.clone(), &config), Err(MultiSigAcctError::AtPendingCallLimit));
    assert_eq!(msa.pending_calls.len(), 2);
    assert_eq!(msa.find_call(&second.id), Some(1));
    assert_eq!(msa.find_call(&third.id), None);
    assert_eq!(msa.remove_call(third.id), Err(MultiSigAcctError::CallNotFound));
    assert_eq!(msa.remove_call(first.id), Ok(()));
    assert_eq!(msa.pending_calls.len(), 1);
    assert_eq!(msa.pending_calls[0].id, second.id);
    assert_eq!(msa.add_call(third.clone(), &config), Ok(()));
    let taken = msa.take_call(0);
    assert_eq!(taken.id, second.id);
    assert_eq!(msa.pending_calls[0].id, third.id);
}

#[test]
fn account_quorum_stays_in_range() {
    assert_eq!(MINIMUM_QUORUM, 2);
    let mut msa = account(vec![1, 2, 3], None, 2);
    assert_eq!(msa.adjust_min_approvals(3), Ok(()));
    assert_eq!(msa.minimum_signatories, 3);
    assert_eq!(msa.adjust_min_approvals(1), Err(MultiSigAcctError::MinApprovalsOutOfRange));
    assert_eq!(msa.adjust_min_approvals(0), Err(MultiSigAcctError::MinApprovalsOutOfRange));
    assert_eq!(msa.adjust_min_approvals(4), Err(MultiSigAcctError::MinApprovalsOutOfRange));
    assert_eq!(msa.minimum_signatories, 3);
    assert_eq!(msa.adjust_min_approvals(2), Ok(()));
    assert_eq!(msa.minimum_signatories, 2);
}

#[test]
fn authors_are_added_from_the_signers() {
    let config = limits();
    let mut msa = account(vec![1, 2, 3, 4], Some(vec![1]), 2);
    assert_eq!(msa.add_authors(&vec![2, 3, 4], &config), Err(MultiSigAcctError::AuthorVecTooLong));
    assert_eq!(msa.add_authors(&vec![1, 2], &config), Err(MultiSigAcctError::AccountAlreadyAuthor));
    assert_eq!(msa.add_authors(&vec![2, 9], &config), Err(MultiSigAcctError::AccountNotSignatory));
    assert_eq!(msa.add_authors(&vec![9, 1], &config), Err(MultiSigAcctError::AccountNotSignatory));
    assert_eq!(msa.add_authors(&vec![], &config), Err(MultiSigAcctError::AuthorListEmpty));
    assert_eq!(msa.add_authors(&vec![2, 2], &config), Err(MultiSigAcctError::AccountAlreadyAuthor));
    assert_eq!(msa.validate_authors_list(&vec![]), Err(MultiSigAcctError::AuthorListEmpty));
    assert_eq!(
        msa.validate_authors_list(&vec![3, 3]),
        Err(MultiSigAcctError::AccountAlreadyAuthor)
    );
    let tight = Config { max_signatories: 2, ..config };
    assert_eq!(msa.add_authors(&vec![2, 3], &tight), Err(MultiSigAcctError::AuthorVecTooLong));
    assert_eq!(msa.authors, Some(vec![1]));
    assert_eq!(msa.validate_authors_list(&vec![3]), Ok(()));
    assert_eq!(msa.add_authors(&vec![3, 2], &config), Ok(()));
    assert_eq!(msa.authors, Some(vec![1, 3, 2]));

    let mut open = account(vec![1, 2, 3], None, 2);
    assert_eq!(open.add_authors(&vec![1, 2, 3], &config), Err(MultiSigAcctError::AuthorVecTooLong));
    assert_eq!(open.add_authors(&vec![], &config), Err(MultiSigAcctError::AuthorListEmpty));
    assert_eq!(open.authors, None);
    assert!(open.is_author(&1));
    assert_eq!(open.add_authors(&vec![3], &config), Ok(()));
    assert_eq!(open.authors, Some(vec![3]));
    assert!(!open.is_author(&1));
    assert!(open.is_well_formed(&config));
}

#[test]
fn proposal_needs_a_majority_to_lower_and_the_quorum_to_raise() {
    let config = limits();
    let four = account(vec![1, 2, 3, 4], None, 3);
    let lower =
        MinimumApprovalProposal::construct_min_approval_proposal(&four, 2, 1, &config).unwrap();
    assert_eq!(lower.pass_requirement, 3);
    assert_eq!(lower.new_minimum, 2);
    assert_eq!(lower.proposer, 1);
    assert_eq!(lower.approvals, vec![1]);
    assert_eq!(lower.msa_address, four.address);
    let raise =
        MinimumApprovalProposal::construct_min_approval_proposal(&four, 4, 2, &config).unwrap();
    assert_eq!(raise.pass_requirement, 3);

    let five = account(vec![1, 2, 3, 4, 5], None, 5);
    let lower =
        MinimumApprovalProposal::construct_min_approval_proposal(&five, 2, 1, &config).unwrap();
    assert_eq!(lower.pass_requirement, 3);
    let two = account(vec![1, 2, 3], None, 2);
    let raise =
        MinimumApprovalProposal::construct_min_approval_proposal(&two, 3, 1, &config).unwrap();
    assert_eq!(raise.pass_requirement, 2);

    for (minimum, fault) in [
        (3, Error::NewMinimumEqualsCurrentMinimum),
        (1, Error::MinApprovalOutOfRange),
        (0, Error::MinApprovalOutOfRange),
        (5, Error::MinApprovalOutOfRange),
    ] {
        let refused =
            MinimumApprovalProposal::construct_min_approval_proposal(&four, minimum, 1, &config);
        assert_eq!(refused.unwrap_err(), fault);
    }
}

#[test]
fn proposal_approvals_are_counted_against_the_requirement() {
    let config = limits();
    let four = account(vec![1, 2, 3, 4], None, 3);
    let mut proposal =
        MinimumApprovalProposal::construct_min_approval_proposal(&four, 2, 1, &config).unwrap();
    assert_eq!(proposal.add_approval(1, &config), Err(Error::ApprovalExists));
    assert_eq!(proposal.add_approval(3, &config), Ok(false));
    assert_eq!(proposal.add_approval(2, &config), Ok(true));
    assert_eq!(proposal.approvals, vec![1, 3, 2]);
    assert_eq!(proposal.remove_approval(4), Err(Error::ApprovalDoesntExist));
    assert_eq!(proposal.remove_approval(3), Ok(false));
    assert_eq!(proposal.approvals, vec![1, 2]);
    assert_eq!(proposal.remove_approval(1), Ok(false));
    assert_eq!(proposal.remove_approval(2), Ok(true));
    assert!(proposal.approvals.is_empty());

    let tight = Config { max_signatories: 1, ..config };
    let mut full =
        MinimumApprovalProposal::construct_min_approval_proposal(&four, 2, 1, &config).unwrap();
    assert_eq!(full.add_approval(2, &tight), Err(Error::ApprovalsLimitReached));
    assert_eq!(full.approvals, vec![1]);
}

#[test]
fn account_and_call_errors_map_into_engine_errors() {
    let pairs = [
        (MultiSigAcctError::SignatoriesListTooShort, Error::SignatoriesTooShort),
        (MultiSigAcctError::AccountAlreadyAuthor, Error::AccountAlreadyAuthor),
        (MultiSigAcctError::AuthorVecTooLong, Error::AuthorVecTooLong),
        (MultiSigAcctError::AccountNotSignatory, Error::AccountNotAuthor),
        (MultiSigAcctError::AtMaxAuthors, Error::AccountErrorMaxAuthors),
        (MultiSigAcctError::AtPendingCallLimit, Error::CallLimit),
        (MultiSigAcctError::MinApprovalsOutOfRange, Error::MinApprovalOutOfRange),
        (MultiSigAcctError::CallNotFound, Error::CallNotFound),
        (MultiSigAcctError::DuplicatesInList, Error::DuplicatesInList),
        (MultiSigAcctError::SignatoriesListTooLong, Error::SignatoriesTooLong),
        (MultiSigAcctError::AuthorListEmpty, Error::AuthorListEmpty),
    ];
    for (from, to) in pairs {
        assert_eq!(Error::from(from), to);
    }
    let pairs = [
        (PendingCallError::ReachedBoundedApprovalLimit, Error::ApprovalsLimitReached),
        (PendingCallError::FailureEncodingCall, Error::CallEncodingFailure),
        (PendingCallError::FailureDecodingCall, Error::FailureDecodingCall),
    ];
    for (from, to) in pairs {
        assert_eq!(Error::from(from), to);
    }
}

#[test]
fn signatories_are_validated_in_order() {
    let engine = Pallet::new(limits());
    assert_eq!(engine.validate_signatories(&vec![1], &1, 2), Err(Error::SignatoriesTooShort));
    assert_eq!(engine.validate_signatories(&vec![], &1, 2), Err(Error::SignatoriesTooShort));
    assert_eq!(engine.validate_signatories(&vec![1, 1], &1, 3), Err(Error::MinApprovalOutOfRange));
    assert_eq!(engine.validate_signatories(&vec![1, 2], &1, 1), Err(Error::MinApprovalOutOfRange));
    assert_eq!(engine.validate_signatories(&vec![2, 3, 2], &1, 2), Err(Error::DuplicatesInList));
    assert_eq!(engine.validate_signatories(&vec![2, 3, 4], &1, 2), Err(Error::CallerNotSignatory));
    assert_eq!(engine.validate_signatories(&vec![2, 1, 4], &1, 3), Ok(()));

    let none = Pallet::new(Config { max_multi_sigs_per_account_id: 0, ..limits() });
    assert_eq!(none.validate_signatories(&vec![1, 2], &1, 2), Err(Error::AccountAtMultiSigLimit));
    assert_eq!(none.config().max_multi_sigs_per_account_id, 0);
}

#[test]
fn authors_are_prepared_for_storage() {
    let config = limits();
    let signers = vec![1, 2, 3];
    assert_eq!(Pallet::prepare_authors(None, &signers, &config), Ok(None));
    assert_eq!(Pallet::prepare_authors(Some(vec![9, 9, 9]), &signers, &config), Ok(None));
    assert_eq!(Pallet::prepare_authors(Some(vec![3, 1]), &signers, &config), Ok(Some(vec![1, 3])));
    assert_eq!(
        Pallet::prepare_authors(Some(vec![]), &signers, &config),
        Err(Error::AuthorListEmpty)
    );
    assert_eq!(
        Pallet::prepare_authors(Some(vec![1, 1]), &signers, &config),
        Err(Error::DuplicatesInList)
    );
    assert_eq!(
        Pallet::prepare_authors(Some(vec![9, 9]), &signers, &config),
        Err(Error::DuplicatesInList)
    );
    assert_eq!(
        Pallet::prepare_authors(Some(vec![1, 9]), &signers, &config),
        Err(Error::AccountNotAuthor)
    );
    let tight = Config { max_signatories: 1, ..config };
    assert_eq!(
        Pallet::prepare_authors(Some(vec![1, 2]), &signers, &tight),
        Err(Error::AccountErrorMaxAuthors)
    );
}

#[test]
fn list_helpers() {
    assert_eq!(check_duplicates(&vec![1, 2, 3]), Ok(()));
    assert_eq!(check_duplicates(&vec![]), Ok(()));
    assert_eq!(check_duplicates(&vec![1, 2, 1]), Err(Error::DuplicatesInList));
    assert!(has_no_duplicates(&vec![3, 1, 2]));
    assert!(!has_no_duplicates(&vec![3, 1, 3]));
    assert!(are_all_signers(&vec![3, 1], &vec![1, 2, 3]));
    assert!(are_all_signers(&vec![], &vec![1, 2, 3]));
    assert!(!are_all_signers(&vec![3, 4], &vec![1, 2, 3]));
    assert!(is_strictly_ascending(&vec![1, 2, 5]));
    assert!(!is_strictly_ascending(&vec![1, 2, 2]));
    assert!(!is_strictly_ascending(&vec![2, 1]));
    assert!(prefix_contains(&vec![1, 2, 3], 2, 2));
    assert!(!prefix_contains(&vec![1, 2, 3], 2, 3));
    assert!(!prefix_contains(&vec![1, 2, 3], 0, 1));
    assert!(contains_id(&vec![4, 5], 5));
    assert!(!contains_id(&vec![4, 5], 6));
    assert_eq!(position_of(&vec![7, 8, 7], 7), Some(0));
    assert_eq!(position_of(&vec![7, 8, 7], 8), Some(1));
    assert_eq!(position_of(&vec![7, 8, 7], 9), None);
}

#[test]
fn ready_calls_leave_the_queue_in_order() {
    let config = limits();
    let mut msa = account(vec![1, 2, 3], None, 3);
    for (command, approvers) in [(1u8, vec![2]), (2u8, vec![]), (3u8, vec![2, 3]), (4u8, vec![3])] {
        let mut call = PendingCall::new(vec![command], 1, 0, &config).unwrap();
        for approver in approvers {
            assert!(call.add_approval(approver, &config).is_ok());
        }
        assert_eq!(msa.add_call(call, &config), Ok(()));
    }
    let ready = Pallet::dispatch_approved(&mut msa, 2);
    assert_eq!(ready.iter().map(|c| c.call[0]).collect::<Vec<u8>>(), vec![1, 3, 4]);
    assert_eq!(msa.pending_calls.iter().map(|c| c.call[0]).collect::<Vec<u8>>(), vec![2]);
    let ready = Pallet::dispatch_approved(&mut msa, 2);
    assert!(ready.is_empty());
    assert_eq!(msa.pending_calls.len(), 1);
    let ready = Pallet::dispatch_approved(&mut msa, 0);
    assert_eq!(ready.len(), 1);
    assert!(msa.pending_calls.is_empty());
}

#[test]
fn host_stand_ins() {
    assert_eq!(IdentityValidator::convert(5), Some(5));
    assert_eq!(IdentityValidator::convert(0), Some(0));
    assert!(!OffenceHandler::is_known_offence(&vec![(1, ()), (2, ())], &7));
    assert!(!OffenceHandler::is_known_offence(&vec![], &0));
    TestSessionHandler::on_disabled(3);
    assert_eq!(SomeIdentifier(*b"rsrv").0, [0x72, 0x73, 0x72, 0x76]);
}

#[test]
fn stored_state_is_checked_when_it_is_loaded() {
    let config = limits();
    let mut engine = Pallet::new(config);
    let mut msa = account(vec![1, 2, 3], Some(vec![2]), 2);
    let mut call = PendingCall::new(vec![7], 2, 0, &config).unwrap();
    assert!(call.add_approval(3, &config).is_ok());
    assert!(call.is_well_formed(&config));
    assert_eq!(msa.add_call(call.clone(), &config), Ok(()));
    assert!(msa.is_well_formed(&config));
    let address = msa.address;

    let proposal =
        MinimumApprovalProposal::construct_min_approval_proposal(&msa, 3, 2, &config).unwrap();
    assert!(proposal.is_well_formed(&msa, &config));
    assert!(!engine.load_proposal(proposal.clone()));
    assert!(engine.load_account(msa.clone()));
    assert!(!engine.load_account(msa.clone()));
    assert!(engine.load_proposal(proposal.clone()));
    assert!(!engine.load_proposal(proposal.clone()));
    assert!(engine.load_memberships(1, vec![address]));
    assert!(!engine.load_memberships(1, vec![address]));
    assert!(!engine.load_memberships(2, vec![1, 2, 3, 4]));
    assert!(engine.load_memberships(2, vec![1, 2, 3]));

    assert_eq!(engine.multi_signature_accounts(&address).unwrap().pending_calls.len(), 1);
    assert_eq!(engine.user_multi_signature_accounts(&2).unwrap(), &vec![1, 2, 3]);
    let outcome = engine.approve_msa_new_minimum(1, address).unwrap();
    assert_eq!(outcome.events.len(), 2);
    assert!(outcome.executed.is_empty());
    assert_eq!(engine.multi_signature_accounts(&address).unwrap().minimum_signatories, 3);
    assert_eq!(
        engine.create_multi_sig_account(2, vec![2, 4], None, 2).unwrap_err(),
        Error::AccountAtMultiSigLimit
    );
}

#[test]
fn ill_formed_accounts_are_told_apart() {
    let config = limits();
    let good = account(vec![1, 2, 3], Some(vec![2]), 2);
    assert!(good.is_well_formed(&config));

    let mut bad = good.clone();
    bad.address = good.address.wrapping_add(1);
    assert!(!bad.is_well_formed(&config));
    let mut bad = good.clone();
    bad.minimum_signatories = 1;
    assert!(!bad.is_well_formed(&config));
    let mut bad = good.clone();
    bad.minimum_signatories = 4;
    assert!(!bad.is_well_formed(&config));
    let mut bad = good.clone();
    bad.authors = Some(vec![9]);
    assert!(!bad.is_well_formed(&config));
    let mut bad = good.clone();
    bad.authors = Some(vec![]);
    assert!(!bad.is_well_formed(&config));
    let mut bad = good.clone();
    bad.authors = Some(vec![2, 2]);
    assert!(!bad.is_well_formed(&config));
    for signatories in [vec![2, 1, 3], vec![1, 1, 3], vec![1], vec![1, 2, 3, 4, 5, 6]] {
        let mut bad = good.clone();
        bad.authors = None;
        bad.address = construct_address(&signatories);
        bad.signatories = signatories;
        assert!(!bad.is_well_formed(&config));
    }

    let mut bad = good.clone();
    let mut stranger = PendingCall::new(vec![1], 1, 0, &config).unwrap();
    stranger.approvals.insert(9);
    bad.pending_calls.push(stranger);
    assert!(!bad.is_well_formed(&config));
    let mut bad = good.clone();
    let mut long = PendingCall::new(vec![1], 1, 0, &config).unwrap();
    long.call = vec![0u8; 101];
    bad.pending_calls.push(long);
    assert!(!bad.is_well_formed(&config));
    let mut full = good.clone();
    for i in 0..11u8 {
        full.pending_calls.push(PendingCall::new(vec![i], 1, 0, &config).unwrap());
    }
    assert!(!full.is_well_formed(&config));
    full.pending_calls.pop();
    assert!(full.is_well_formed(&config));
    assert!(!full.is_well_formed(&Config { max_pending_calls: 9, ..config }));

    let mut engine = Pallet::new(config);
    assert!(!engine.load_account(bad));
    assert!(engine.multi_signature_accounts(&good.address).is_none());
}

#[test]
fn ill_formed_proposals_are_told_apart() {
    let config = limits();
    let msa = account(vec![1, 2, 3], None, 2);
    let other = account(vec![1, 2, 4], None, 2);
    let good =
        MinimumApprovalProposal::construct_min_approval_proposal(&msa, 3, 1, &config).unwrap();
    assert!(good.is_well_formed(&msa, &config));
    assert!(!good.is_well_formed(&other, &config));
    let mut bad = good.clone();
    bad.new_minimum = 4;
    assert!(!bad.is_well_formed(&msa, &config));
    let mut bad = good.clone();
    bad.new_minimum = 1;
    assert!(!bad.is_well_formed(&msa, &config));
    let mut bad = good.clone();
    bad.approvals = vec![];
    assert!(!bad.is_well_formed(&msa, &config));
    let mut bad = good.clone();
    bad.approvals = vec![1, 2, 1];
    assert!(!bad.is_well_formed(&msa, &config));
    let mut bad = good.clone();
    bad.approvals = vec![1, 9];
    assert!(!bad.is_well_formed(&msa, &config));
    let mut fine = good.clone();
    fine.approvals = vec![3, 1, 2];
    assert!(fine.is_well_formed(&msa, &config));
    assert!(!fine.is_well_formed(&msa, &Config { max_signatories: 2, ..config }));
}

#[test]
fn account_constructor_checks_its_parts_in_order() {
    let config = limits();
    let refused = |signatories: Vec<u64>, authors: Option<Vec<u64>>, quorum: u32| {
        MultiSignatureAccount::new(signatories, authors, quorum, &config).unwrap_err()
    };
    assert_eq!(refused(vec![], None, 2), MultiSigAcctError::SignatoriesListTooShort);
    assert_eq!(refused(vec![1], None, 0), MultiSigAcctError::SignatoriesListTooShort);
    assert_eq!(refused(vec![3, 1, 1], None, 0), MultiSigAcctError::MinApprovalsOutOfRange);
    assert_eq!(refused(vec![3, 1, 1], None, 1), MultiSigAcctError::MinApprovalsOutOfRange);
    assert_eq!(refused(vec![3, 1, 2], None, 4), MultiSigAcctError::MinApprovalsOutOfRange);
    assert_eq!(refused(vec![3, 1, 1], None, 2), MultiSigAcctError::DuplicatesInList);
    assert_eq!(refused(vec![1, 1], Some(vec![]), 2), MultiSigAcctError::DuplicatesInList);
    assert_eq!(
        refused(vec![1, 2, 3, 4, 5, 6], None, 2),
        MultiSigAcctError::SignatoriesListTooLong
    );
    assert_eq!(
        refused(vec![1, 2, 3, 4, 5, 6, 6], None, 2),
        MultiSigAcctError::DuplicatesInList
    );
    assert_eq!(refused(vec![1, 2, 3], Some(vec![]), 2), MultiSigAcctError::AuthorListEmpty);
    assert_eq!(refused(vec![1, 2, 3], Some(vec![2, 2]), 2), MultiSigAcctError::DuplicatesInList);
    assert_eq!(refused(vec![1, 2, 3], Some(vec![2, 4]), 2), MultiSigAcctError::AccountNotSignatory);
    let tight = Config { max_signatories: 2, ..config };
    assert_eq!(
        MultiSignatureAccount::new(vec![1, 2], Some(vec![1, 2, 2]), 2, &tight).unwrap_err(),
        MultiSigAcctError::DuplicatesInList
    );

    let made = MultiSignatureAccount::new(vec![3, 1, 2], Some(vec![3, 1]), 3, &config).unwrap();
    assert_eq!(made.signatories, vec![1, 2, 3]);
    assert_eq!(made.authors, Some(vec![3, 1]));
    assert_eq!(made.minimum_signatories, 3);
    assert!(made.pending_calls.is_empty());
    assert_eq!(made.address, derive_address(&vec![2, 3, 1]));
    assert!(made.is_well_formed(&config));
    let full = MultiSignatureAccount::new(vec![5, 4, 3, 2, 1], None, 5, &config).unwrap();
    assert_eq!(full.signatories, vec![1, 2, 3, 4, 5]);
    assert!(full.is_well_formed(&config));
}

#[test]
fn settlement_reports_the_first_failure() {
    let config = limits();
    let call = |command: u8| PendingCall::new(vec![command], 1, 0, &config).unwrap();
    let same = call(1).id;
    let other = call(2).id;
    let outcome = || Outcome {
        events: vec![
            Event::MinApprovalProposalApproved(9, 1),
            Event::MinApprovalsChanged(9, 2),
            Event::CallExecuted(same),
            Event::CallExecuted(other),
            Event::CallExecuted(same),
        ],
        executed: vec![call(1), call(2), call(1)],
    };
    let all = settle(outcome(), &vec![true, true, true]);
    assert_eq!(all.events, outcome().events);
    assert_eq!(all.failed, None);

    let last = settle(outcome(), &vec![true, true, false]);
    assert_eq!(
        last.events,
        vec![
            Event::MinApprovalProposalApproved(9, 1),
            Event::MinApprovalsChanged(9, 2),
            Event::CallExecuted(same),
            Event::CallExecuted(other),
            Event::CallFailed(same),
        ]
    );
    assert_eq!(last.failed, Some(2));

    let two = settle(outcome(), &vec![true, false, false]);
    assert_eq!(two.events[2..], [
        Event::CallExecuted(same),
        Event::CallFailed(other),
        Event::CallFailed(same),
    ]);
    assert_eq!(two.failed, Some(1));

    let short = settle(outcome(), &vec![false]);
    assert_eq!(short.events[2..], [
        Event::CallFailed(same),
        Event::CallExecuted(other),
        Event::CallExecuted(same),
    ]);
    assert_eq!(short.failed, Some(0));
    let none = settle(Outcome { events: vec![], executed: vec![] }, &vec![]);
    assert!(none.events.is_empty());
    assert_eq!(none.failed, None);
}
