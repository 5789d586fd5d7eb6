//! Derivation of an account's address from its signer set.
use vstd::prelude::*;
use vstd::bytes::spec_u64_from_le_bytes;
use vstd::relations::{sorted_by, total_ordering};
use vstd::seq_lib::lemma_sorted_unique;
use crate::encoding::{decode_account_id, scale_encode_ids, scale_encoded_ids};
use crate::hashing::{blake2_256, blake2_256_digest};

verus! {

/// An account identifier.
pub type AccountId = u64;

/// The order in which signers are sorted.
pub open spec fn id_leq() -> spec_fn(AccountId, AccountId) -> bool {
    |a: AccountId, b: AccountId| a <= b
}

/// Whether `ids` is in ascending order.
pub open spec fn is_sorted(ids: Seq<AccountId>) -> bool {
    forall|i: int, j: int| 0 <= i < j < ids.len() ==> ids[i] <= ids[j]
}

/// `ids` in ascending order.
pub open spec fn sorted_ids(ids: Seq<AccountId>) -> Seq<AccountId> {
    ids.sort_by(id_leq())
}

/// The tag that sets address digests apart from every other digest.
pub open spec fn address_tag() -> Seq<u8> {
    seq![
        0x6du8, 0x75u8, 0x6cu8, 0x74u8, 0x69u8, 0x2du8, 0x73u8, 0x69u8, 0x67u8, 0x3au8, 0x76u8,
        0x31u8,
    ]
}

/// The bytes that are hashed for the address of a sorted signer list.
pub open spec fn address_preimage(sorted_signers: Seq<AccountId>) -> Seq<u8> {
    address_tag() + scale_encoded_ids(sorted_signers)
}

/// The address of the account that a sorted signer list controls.
pub open spec fn address_of_sorted(sorted_signers: Seq<AccountId>) -> AccountId {
    spec_u64_from_le_bytes(blake2_256_digest(address_preimage(sorted_signers)).subrange(0, 8))
}

/// The address of the account that `signers` control, in whatever order
/// they are given.
pub open spec fn address_of(signers: Seq<AccountId>) -> AccountId {
    address_of_sorted(sorted_ids(signers))
}

pub proof fn lemma_id_leq_total()
    ensures
        total_ordering(id_leq()),
{
}

pub proof fn lemma_is_sorted_by(ids: Seq<AccountId>)
    ensures
        is_sorted(ids) <==> sorted_by(ids, id_leq()),
{
    if is_sorted(ids) {
        assert forall|i: int, j: int| 0 <= i < j < ids.len() implies #[trigger] id_leq()(
            ids[i],
            ids[j],
        ) by {}
    }
    if sorted_by(ids, id_leq()) {
        assert forall|i: int, j: int| 0 <= i < j < ids.len() implies ids[i] <= ids[j] by {
            assert(id_leq()(ids[i], ids[j]));
        }
    }
}

/// Any two lists with the same members, however ordered, sort to the same
/// list.
pub proof fn lemma_sorted_ids_ignores_order(a: Seq<AccountId>, b: Seq<AccountId>)
    requires
        a.to_multiset() == b.to_multiset(),
    ensures
        sorted_ids(a) == sorted_ids(b),
{
    lemma_id_leq_total();
    a.lemma_sort_by_ensures(id_leq());
    b.lemma_sort_by_ensures(id_leq());
    lemma_sorted_unique(sorted_ids(a), sorted_ids(b), id_leq());
}

/// Sorting a list leaves an ascending list with the same members.
pub proof fn lemma_sorted_ids_properties(ids: Seq<AccountId>)
    ensures
        is_sorted(sorted_ids(ids)),
        sorted_ids(ids).to_multiset() == ids.to_multiset(),
        sorted_ids(ids).len() == ids.len(),
        forall|id: AccountId| sorted_ids(ids).contains(id) <==> ids.contains(id),
{
    broadcast use vstd::seq_lib::group_to_multiset_ensures;

    lemma_id_leq_total();
    ids.lemma_sort_by_ensures(id_leq());
    lemma_is_sorted_by(sorted_ids(ids));
    assert(sorted_ids(ids).len() == sorted_ids(ids).to_multiset().len());
    assert(ids.len() == ids.to_multiset().len());
    assert forall|id: AccountId| sorted_ids(ids).contains(id) <==> ids.contains(id) by {
        assert(sorted_ids(ids).to_multiset().count(id) == ids.to_multiset().count(id));
    }
}

/// Sorting a list without duplicates leaves a strictly ascending list.
pub proof fn lemma_sorted_ids_keep_no_duplicates(ids: Seq<AccountId>)
    requires
        ids.no_duplicates(),
    ensures
        sorted_ids(ids).no_duplicates(),
        forall|i: int, j: int|
            0 <= i < j < sorted_ids(ids).len() ==> sorted_ids(ids)[i] < sorted_ids(ids)[j],
{
    lemma_sorted_ids_properties(ids);
    ids.lemma_multiset_has_no_duplicates();
    sorted_ids(ids).lemma_multiset_has_no_duplicates_conv();
}

/// An ascending list is its own sorted form, so its address is the one that
/// the list gives as it stands.
pub proof fn lemma_sorted_ids_of_sorted(ids: Seq<AccountId>)
    requires
        is_sorted(ids),
    ensures
        sorted_ids(ids) == ids,
        address_of(ids) == address_of_sorted(ids),
{
    lemma_id_leq_total();
    ids.lemma_sort_by_ensures(id_leq());
    lemma_is_sorted_by(ids);
    lemma_sorted_unique(sorted_ids(ids), ids, id_leq());
}

/// The address of a signer set does not depend on the order in which the
/// signers are given: two lists with the same members have one address.
pub proof fn lemma_address_ignores_order(a: Seq<AccountId>, b: Seq<AccountId>)
    requires
        a.to_multiset() == b.to_multiset(),
    ensures
        address_of(a) == address_of(b),
{
    lemma_sorted_ids_ignores_order(a, b);
}

/// The bytes of the address tag.
pub fn address_tag_bytes() -> (tag: Vec<u8>)
    ensures
        tag@ == address_tag(),
{
    let tag: Vec<u8> = vec![
        0x6du8, 0x75u8, 0x6cu8, 0x74u8, 0x69u8, 0x2du8, 0x73u8, 0x69u8, 0x67u8, 0x3au8, 0x76u8,
        0x31u8,
    ];
    assert(tag@ =~= address_tag());
    tag
}

/// Sorts `ids` into ascending order.
pub fn sort_ids(ids: &mut Vec<AccountId>)
    ensures
        final(ids)@ == sorted_ids(old(ids)@),
{
    let mut out: Vec<AccountId> = Vec::new();
    let n: usize = ids.len();
    let mut i: usize = 0;
    assert(ids@.take(0) =~= out@);
    while i < n
        invariant
            i <= n,
            n == ids@.len(),
            ids@ == old(ids)@,
            is_sorted(out@),
            out@.to_multiset() == ids@.take(i as int).to_multiset(),
        decreases n - i,
    {
        let x: AccountId = ids[i];
        let mut pos: usize = 0;
        while pos < out.len() && out[pos] <= x
            invariant
                pos <= out@.len(),
                forall|k: int| 0 <= k < pos ==> out@[k] <= x,
            decreases out@.len() - pos,
        {
            pos += 1;
        }
        let ghost before = out@;
        out.insert(pos, x);
        proof {
            broadcast use vstd::seq_lib::group_to_multiset_ensures;

            assert(ids@.take(i + 1) =~= ids@.take(i as int).push(x));
            assert(out@.to_multiset() =~= before.to_multiset().insert(x));
            assert forall|a: int, b: int| 0 <= a < b < out@.len() implies out@[a] <= out@[b] by {
                if a < pos && b > pos {
                    assert(out@[b] == before[b - 1]);
                } else if a < pos && b < pos {
                } else if a < pos && b == pos {
                } else if a == pos {
                    assert(out@[b] == before[b - 1]);
                } else {
                    assert(out@[a] == before[a - 1]);
                    assert(out@[b] == before[b - 1]);
                }
            }
        }
        i += 1;
    }
    proof {
        assert(ids@.take(n as int) =~= ids@);
        lemma_id_leq_total();
        ids@.lemma_sort_by_ensures(id_leq());
        lemma_is_sorted_by(out@);
        lemma_sorted_unique(out@, sorted_ids(ids@), id_leq());
    }
    *ids = out;
}

/// The address of the account that the signers in `sorted_signers` control.
///
/// The list is hashed as it stands, behind the address tag; the first eight
/// bytes of the digest, least significant first, are the address.
pub fn construct_address(sorted_signers: &Vec<AccountId>) -> (address: AccountId)
    requires
        sorted_signers@.len() <= u32::MAX,
    ensures
        address == address_of_sorted(sorted_signers@),
{
    let mut preimage: Vec<u8> = address_tag_bytes();
    let mut encoded: Vec<u8> = scale_encode_ids(sorted_signers);
    preimage.append(&mut encoded);
    let digest: [u8; 32] = blake2_256(&preimage);
    decode_account_id(&digest)
}

/// The address of the account that `signers` control. The signers are sorted
/// first, so the order in which they are given does not matter.
pub fn derive_address(signers: &Vec<AccountId>) -> (address: AccountId)
    requires
        signers@.len() <= u32::MAX,
    ensures
        address == address_of(signers@),
{
    let mut sorted: Vec<AccountId> = Vec::new();
    let mut i: usize = 0;
    while i < signers.len()
        invariant
            i <= signers@.len(),
            sorted@ == signers@.take(i as int),
        decreases signers@.len() - i,
    {
        sorted.push(signers[i]);
        assert(signers@.take(i + 1) =~= signers@.take(i as int).push(signers@[i as int]));
        i += 1;
    }
    assert(signers@.take(signers@.len() as int) =~= signers@);
    sort_ids(&mut sorted);
    proof {
        lemma_sorted_ids_properties(signers@);
    }
    construct_address(&sorted)
}

} // verus!
