use multi_sig::address::{address_tag_bytes, derive_address};
use multi_sig::{Config, Event, Pallet};

#[test]
fn address_ignores_the_order_of_signers() {
    let a = derive_address(&vec![1, 2, 3]);
    let b = derive_address(&vec![3, 1, 2]);
    let c = derive_address(&vec![2, 3, 1]);
    assert_eq!(a, b);
    assert_eq!(a, c);
    assert_eq!(a, derive_address(&vec![1, 2, 3]));
}

#[test]
fn address_differs_between_signer_sets() {
    let a = derive_address(&vec![1, 2, 3]);
    assert_ne!(a, derive_address(&vec![1, 2, 4]));
    assert_ne!(a, derive_address(&vec![1, 2]));
    assert_ne!(a, derive_address(&vec![1, 2, 3, 3]));
}

#[test]
fn address_tag_is_the_domain_string() {
    assert_eq!(address_tag_bytes(), b"multi-sig:v1".to_vec());
}

#[test]
fn accounts_of_the_same_signers_have_the_same_address() {
    let config = Config {
        max_signatories: 5,
        max_pending_calls: 10,
        max_multi_sigs_per_account_id: 3,
        max_call_size: 100,
    };
    let mut first = Pallet::new(config);
    let mut second = Pallet::new(config);
    let a = first.create_multi_sig_account(1, vec![1, 2, 3], None, 2).unwrap();
    let b = second.create_multi_sig_account(3, vec![3, 2, 1], Some(vec![2]), 3).unwrap();
    let expected = derive_address(&vec![2, 1, 3]);
    assert_eq!(a.events, vec![Event::MultiSignatureAccountCreated(1, expected)]);
    assert_eq!(b.events, vec![Event::MultiSignatureAccountCreated(3, expected)]);
    assert!(a.executed.is_empty());
    assert_eq!(first.multi_signature_accounts(&expected).unwrap().signatories, vec![1, 2, 3]);
    assert_eq!(second.multi_signature_accounts(&expected).unwrap().signatories, vec![1, 2, 3]);
}
