use std::cmp::Ordering;

use polkadot_transaction_pool::{
    AccountId, Address, BlockId, Change, CheckedBlockId, Choice, Components, Error, FullComponents,
    Index, LightComponents, Nonces, Options, Readiness, Ready, Reason, Resolution, Scoring,
    TransactionPool, TransactionPoolAdapter, UncheckedExtrinsic, VerifiedTransaction, Verifier,
    H256,
};

fn account(first: u8) -> AccountId {
    let mut id = [0u8; 32];
    id[0] = first;
    id
}

fn hash(first: u8) -> H256 {
    let mut hash = [0u8; 32];
    hash[0] = first;
    hash
}

fn at_start() -> CheckedBlockId {
    CheckedBlockId::certified(BlockId::Number(0))
}

fn extrinsic(sender: AccountId, nonce: Index, encoded: Vec<u8>) -> UncheckedExtrinsic {
    UncheckedExtrinsic {
        signed: Address::Id(sender),
        index: nonce,
        function: vec![7, 7],
        signature: Some(vec![1; 64]),
        encoded,
    }
}

fn resolved(id: AccountId) -> Resolution {
    Resolution::Account { id, signature_valid: true }
}

fn full(sender: AccountId, nonce: Index, tag: u8) -> VerifiedTransaction {
    Verifier::new(at_start())
        .verify_hashed(extrinsic(sender, nonce, vec![tag; 10]), resolved(sender), hash(tag))
        .unwrap()
}

fn partial(nonce: Index, tag: u8) -> VerifiedTransaction {
    let mut uxt = extrinsic(account(0), nonce, vec![tag; 10]);
    uxt.signed = Address::Index(77);
    Verifier::new(at_start()).verify_hashed(uxt, Resolution::NoAccount, hash(tag)).unwrap()
}

const ABC_DIGEST: [u8; 32] = [
    0xbd, 0xdd, 0x81, 0x3c, 0x63, 0x42, 0x39, 0x72, 0x31, 0x71, 0xef, 0x3f, 0xee, 0x98, 0x57, 0x9b,
    0x94, 0x96, 0x4e, 0x3b, 0xb1, 0xcb, 0x3e, 0x42, 0x72, 0x62, 0xc8, 0xc0, 0x68, 0xd5, 0x23, 0x19,
];

const EMPTY_DIGEST: [u8; 32] = [
    0x0e, 0x57, 0x51, 0xc0, 0x26, 0xe5, 0x43, 0xb2, 0xe8, 0xab, 0x2e, 0xb0, 0x60, 0x99, 0xda, 0xa1,
    0xd1, 0xe5, 0xdf, 0x47, 0x77, 0x8f, 0x77, 0x87, 0xfa, 0xab, 0x45, 0xcd, 0xf1, 0x2f, 0xe3, 0xa8,
];

#[test]
fn record_reports_what_it_was_made_of() {
    let alice = account(1);
    let uxt = extrinsic(alice, 42, vec![1, 2, 3, 4, 5]);
    let tx = Verifier::new(at_start()).verify_hashed(uxt.clone(), resolved(alice), hash(9)).unwrap();
    assert_eq!(tx.sender(), Some(alice));
    assert_eq!(tx.index(), 42);
    assert_eq!(*tx.hash(), hash(9));
    assert_eq!(tx.encoded_size(), 5);
    assert_eq!(tx.mem_usage(), 5);
    assert!(tx.is_fully_verified());
    assert_eq!(tx.primitive_extrinsic(), vec![1, 2, 3, 4, 5]);
    assert_eq!(tx.as_transaction().index, 42);
    assert_eq!(tx.as_transaction().signed, Address::Id(alice));
    let checked = tx.into_inner().unwrap();
    assert_eq!(checked.signed, alice);
    assert_eq!(checked.index, 42);
    assert_eq!(checked.function, uxt.function);
}

#[test]
fn record_without_sender_has_no_checked_form() {
    let tx = partial(42, 1);
    assert_eq!(tx.sender(), None);
    assert!(!tx.is_fully_verified());
    assert!(tx.clone().into_inner().is_none());
    assert_eq!(tx.clone().index(), 42);
}

#[test]
fn content_hash_is_blake2_256_of_the_encoding() {
    let alice = account(1);
    let verifier = Verifier::new(at_start());
    let tx = verifier
        .verify_transaction(extrinsic(alice, 1, b"abc".to_vec()), resolved(alice))
        .unwrap();
    assert_eq!(*tx.hash(), ABC_DIGEST);
    assert_eq!(tx.encoded_size(), 3);

    let tx = verifier
        .verify_transaction(extrinsic(alice, 1, Vec::new()), resolved(alice))
        .unwrap();
    assert_eq!(*tx.hash(), EMPTY_DIGEST);
    assert_eq!(tx.encoded_size(), 0);
}

#[test]
fn content_hash_ignores_the_decoded_fields() {
    let verifier = Verifier::new(at_start());
    let a = verifier
        .verify_transaction(extrinsic(account(1), 1, b"abc".to_vec()), resolved(account(1)))
        .unwrap();
    let b = verifier
        .verify_transaction(extrinsic(account(2), 9, b"abc".to_vec()), Resolution::NoAccount)
        .unwrap();
    assert_eq!(a.hash(), b.hash());
}

#[test]
fn inherent_is_refused() {
    let alice = account(1);
    let mut uxt = extrinsic(alice, 1, vec![1]);
    uxt.signature = None;
    assert!(!uxt.is_signed());
    match Verifier::new(at_start()).verify_transaction(uxt, resolved(alice)) {
        Err(Error::IsInherent(inherent)) => {
            assert_eq!(inherent.index, 1);
            assert_eq!(inherent.encoded, vec![1]);
        }
        other => panic!("unexpected: {:?}", other),
    }
}

#[test]
fn inherent_is_refused_before_the_chain_is_heard() {
    let mut uxt = extrinsic(account(1), 1, vec![1]);
    uxt.signature = None;
    let verifier = Verifier::new(at_start());
    assert!(matches!(
        verifier.verify_hashed(uxt, Resolution::ApiError, hash(1)),
        Err(Error::IsInherent(_))
    ));
}

#[test]
fn failed_lookup_is_a_verification_failure() {
    let verifier = Verifier::new(at_start());
    match verifier.verify_hashed(extrinsic(account(1), 1, vec![1]), Resolution::ApiError, hash(1)) {
        Err(Error::VerificationFailed(reason)) => {
            assert_eq!(reason, Reason::ApiError);
            assert_eq!(reason.description(), "API error.");
        }
        other => panic!("unexpected: {:?}", other),
    }
}

#[test]
fn bad_signature_is_a_verification_failure() {
    let alice = account(1);
    let verifier = Verifier::new(at_start());
    let resolution = Resolution::Account { id: alice, signature_valid: false };
    match verifier.verify_hashed(extrinsic(alice, 1, vec![1]), resolution, hash(1)) {
        Err(Error::VerificationFailed(reason)) => {
            assert_eq!(reason, Reason::BadSignature);
            assert_eq!(reason.description(), "bad signature in extrinsic");
        }
        other => panic!("unexpected: {:?}", other),
    }
}

#[test]
fn missing_account_gives_a_record_without_sender() {
    let verifier = Verifier::new(at_start());
    let tx = verifier
        .verify_hashed(extrinsic(account(1), 3, vec![1, 2]), Resolution::NoAccount, hash(4))
        .unwrap();
    assert_eq!(tx.sender(), None);
    assert!(!tx.is_fully_verified());
    assert_eq!(*tx.hash(), hash(4));
    assert_eq!(tx.index(), 3);
}

#[test]
fn resolved_account_becomes_the_sender() {
    // the address is an alias, the sender is the account behind it
    let bob = account(2);
    let mut uxt = extrinsic(account(0), 3, vec![1, 2]);
    uxt.signed = Address::Index(1);
    let tx = Verifier::new(at_start()).verify_hashed(uxt, resolved(bob), hash(4)).unwrap();
    assert_eq!(tx.sender(), Some(bob));
    assert_eq!(tx.as_transaction().signed, Address::Index(1));
    assert_eq!(tx.into_inner().unwrap().signed, bob);
}

#[test]
fn verifier_keeps_its_block() {
    let at = CheckedBlockId::certified(BlockId::Hash(hash(3)));
    assert_eq!(Verifier::new(at).at_block, at);
    assert_eq!(*at.block_id(), BlockId::Hash(hash(3)));
}

#[test]
fn compare_orders_by_nonce() {
    let alice = account(1);
    assert_eq!(Scoring.compare(&full(alice, 1, 1), &full(alice, 2, 2)), Ordering::Less);
    assert_eq!(Scoring.compare(&full(alice, 2, 1), &full(alice, 2, 2)), Ordering::Equal);
    assert_eq!(Scoring.compare(&full(alice, 3, 1), &full(alice, 2, 2)), Ordering::Greater);
    assert_eq!(Scoring.compare(&partial(0, 1), &full(alice, u32::MAX, 2)), Ordering::Less);
}

#[test]
fn choice_follows_the_replacement_table() {
    let alice = account(1);
    // verified against verified
    assert_eq!(Scoring.choice(&full(alice, 5, 1), &full(alice, 5, 2)), Choice::RejectNew);
    assert_eq!(Scoring.choice(&full(alice, 5, 1), &full(alice, 6, 2)), Choice::InsertNew);
    // verified against unresolved
    assert_eq!(Scoring.choice(&full(alice, 5, 1), &partial(5, 2)), Choice::RejectNew);
    assert_eq!(Scoring.choice(&full(alice, 5, 1), &partial(6, 2)), Choice::InsertNew);
    // unresolved against anything
    assert_eq!(Scoring.choice(&partial(5, 1), &full(alice, 5, 2)), Choice::InsertNew);
    assert_eq!(Scoring.choice(&partial(5, 1), &partial(5, 2)), Choice::InsertNew);
    assert_eq!(Scoring.choice(&partial(5, 1), &partial(6, 2)), Choice::InsertNew);
}

#[test]
fn only_unresolved_records_are_replaced() {
    let alice = account(1);
    assert!(Scoring.should_replace(&partial(5, 1), &full(alice, 5, 2)));
    assert!(Scoring.should_replace(&partial(5, 1), &partial(9, 2)));
    assert!(!Scoring.should_replace(&full(alice, 5, 1), &full(alice, 6, 2)));
    assert!(!Scoring.should_replace(&full(alice, 5, 1), &partial(6, 2)));
}

#[test]
fn scores_are_one_for_verified_and_zero_for_unresolved() {
    let alice = account(1);
    let xts = vec![full(alice, 1, 1), partial(2, 2), full(alice, 3, 3)];
    let mut scores = vec![9u64, 9, 9, 9];
    Scoring.update_scores(&xts, &mut scores, Change::InsertedAt(1));
    // the score beyond the records is left alone
    assert_eq!(scores, vec![1, 0, 1, 9]);
    Scoring.update_scores(&xts, &mut scores, Change::Event);
    assert_eq!(scores, vec![1, 0, 1, 9]);
}

#[test]
fn readiness_compares_with_the_expected_nonce() {
    let alice = account(1);
    let mut nonces = Nonces::new();
    nonces.set(alice, 10);
    let fresh = Ready::create(at_start(), nonces);

    assert_eq!(fresh.clone().is_ready(&full(alice, 9, 1)), Readiness::Stale);
    assert_eq!(fresh.clone().is_ready(&full(alice, 10, 1)), Readiness::Ready);
    assert_eq!(fresh.clone().is_ready(&full(alice, 11, 1)), Readiness::Future);
    assert_eq!(fresh.clone().is_ready(&partial(10, 1)), Readiness::Future);
}

#[test]
fn expected_nonce_moves_on_with_every_judgement() {
    let alice = account(1);
    let bob = account(2);
    let mut nonces = Nonces::new();
    nonces.set(alice, 10);
    nonces.set(bob, 10);
    let mut ready = Ready::create(at_start(), nonces);

    assert_eq!(ready.is_ready(&full(alice, 10, 1)), Readiness::Ready);
    assert_eq!(ready.is_ready(&full(alice, 11, 2)), Readiness::Ready);
    // a record without a sender does not move anything
    assert_eq!(ready.is_ready(&partial(12, 3)), Readiness::Future);
    // a future record moves the expected nonce on as well: 12 was expected, now 13 is
    assert_eq!(ready.is_ready(&full(alice, 20, 4)), Readiness::Future);
    assert_eq!(ready.is_ready(&full(alice, 12, 5)), Readiness::Stale);
    assert_eq!(ready.is_ready(&full(alice, 14, 6)), Readiness::Ready);
    // Bob is judged by himself
    assert_eq!(ready.is_ready(&full(bob, 10, 7)), Readiness::Ready);
}

#[test]
fn expected_nonce_stops_at_the_largest() {
    let alice = account(1);
    let mut nonces = Nonces::new();
    nonces.set(alice, u32::MAX - 1);
    let mut ready = Ready::create(at_start(), nonces);
    assert_eq!(ready.is_ready(&full(alice, u32::MAX - 1, 1)), Readiness::Ready);
    assert_eq!(ready.is_ready(&full(alice, u32::MAX, 2)), Readiness::Ready);
    // the largest nonce is followed by itself
    assert_eq!(ready.is_ready(&full(alice, u32::MAX, 3)), Readiness::Ready);
    assert_eq!(ready.is_ready(&full(alice, u32::MAX - 1, 4)), Readiness::Stale);
}

#[test]
fn account_without_a_chain_nonce_is_expected_at_the_largest() {
    let alice = account(1);
    let mut ready = Ready::create(at_start(), Nonces::new());
    assert_eq!(ready.is_ready(&full(alice, 0, 1)), Readiness::Stale);
    assert_eq!(ready.is_ready(&full(alice, u32::MAX, 2)), Readiness::Ready);
}

#[test]
fn nonce_table_keeps_the_last_value() {
    let alice = account(1);
    let bob = account(2);
    let mut nonces = Nonces::new();
    assert_eq!(nonces.get(&alice), None);
    nonces.set(alice, 3);
    nonces.set(bob, 4);
    nonces.set(alice, 5);
    assert_eq!(nonces.get(&alice), Some(5));
    assert_eq!(nonces.get(&bob), Some(4));
    assert_eq!(nonces.clone().get(&alice), Some(5));
    assert_eq!(nonces.get(&account(3)), None);
}

#[test]
fn full_node_imports_from_peers_and_light_node_does_not() {
    let alice = account(1);
    let full = FullComponents { is_validator: false };
    let mut adapter = full.build_network_tx_pool(TransactionPool::new(Options::default()));
    let named = adapter.import(Some(extrinsic(alice, 1, b"abc".to_vec())), at_start(), resolved(alice));
    assert_eq!(named, Some(ABC_DIGEST));
    assert_eq!(adapter.pool_ref().light_status().transaction_count, 1);

    let mut adapter = LightComponents.build_network_tx_pool(TransactionPool::new(Options::default()));
    let named = adapter.import(Some(extrinsic(alice, 1, b"abc".to_vec())), at_start(), resolved(alice));
    assert_eq!(named, None);
    assert_eq!(adapter.into_pool().light_status().transaction_count, 0);
}

#[test]
fn only_a_validator_builds_consensus() {
    assert!(FullComponents { is_validator: true }.builds_consensus());
    assert!(!FullComponents { is_validator: false }.builds_consensus());
    assert!(!LightComponents.builds_consensus());
}

#[test]
fn import_of_a_known_transaction_names_its_hash_again() {
    let alice = account(1);
    let mut adapter = TransactionPoolAdapter::new(true, TransactionPool::new(Options::default()));
    let uxt = extrinsic(alice, 1, b"abc".to_vec());
    let first = adapter.import(Some(uxt.clone()), at_start(), resolved(alice));
    let before: Vec<_> = adapter.pool_ref().all().iter().map(|tx| *tx.hash()).collect();
    let second = adapter.import(Some(uxt), at_start(), resolved(alice));
    let after: Vec<_> = adapter.pool_ref().all().iter().map(|tx| *tx.hash()).collect();
    assert_eq!(first, Some(ABC_DIGEST));
    assert_eq!(second, first);
    assert_eq!(before, after);
    assert_eq!(after, vec![ABC_DIGEST]);
}

#[test]
fn import_names_the_record_that_holds_the_nonce() {
    let alice = account(1);
    let mut adapter = TransactionPoolAdapter::new(true, TransactionPool::new(Options::default()));
    adapter.import(Some(extrinsic(alice, 1, b"abc".to_vec())), at_start(), resolved(alice));
    // another extrinsic of the same sender and nonce
    let named = adapter.import(Some(extrinsic(alice, 1, b"abcd".to_vec())), at_start(), resolved(alice));
    assert_eq!(named, Some(ABC_DIGEST));
    assert_eq!(adapter.pool_ref().light_status().transaction_count, 1);
}

#[test]
fn import_swallows_what_the_pool_refuses() {
    let alice = account(1);
    let pool = TransactionPool::new(Options { max_count: 1, max_bytes: 100 });
    let mut adapter = TransactionPoolAdapter::new(true, pool);
    assert_eq!(adapter.import(None, at_start(), resolved(alice)), None);
    let mut inherent = extrinsic(alice, 1, vec![1]);
    inherent.signature = None;
    assert_eq!(adapter.import(Some(inherent), at_start(), resolved(alice)), None);
    assert_eq!(adapter.import(Some(extrinsic(alice, 1, vec![1])), at_start(), Resolution::ApiError), None);
    assert!(adapter.import(Some(extrinsic(alice, 1, vec![1])), at_start(), resolved(alice)).is_some());
    // the pool is full now
    assert_eq!(adapter.import(Some(extrinsic(alice, 2, vec![2])), at_start(), resolved(alice)), None);
    assert_eq!(adapter.pool_ref().light_status().transaction_count, 1);
}

#[test]
fn transactions_lists_hash_and_encoding_of_the_ready_ones() {
    let alice = account(1);
    let bob = account(2);
    let mut adapter = TransactionPoolAdapter::new(true, TransactionPool::new(Options::default()));
    adapter.import(Some(extrinsic(bob, 4, vec![4])), at_start(), resolved(bob));
    adapter.import(Some(extrinsic(alice, 5, b"abc".to_vec())), at_start(), resolved(alice));
    adapter.import(Some(extrinsic(alice, 7, vec![7])), at_start(), resolved(alice));

    let mut nonces = Nonces::new();
    nonces.set(alice, 5);
    nonces.set(bob, 5);
    let best = CheckedBlockId::certified(BlockId::Hash(hash(1)));
    let list = adapter.transactions(Some(best), nonces);
    assert_eq!(list, vec![(ABC_DIGEST, b"abc".to_vec())]);
    // Bob's stale record is gone
    let left: Vec<_> = adapter.pool_ref().all().iter().map(|tx| (tx.sender(), tx.index())).collect();
    assert_eq!(left, vec![(Some(alice), 5), (Some(alice), 7)]);
}

#[test]
fn listed_transaction_is_known_when_it_comes_back() {
    let alice = account(1);
    let mut adapter = TransactionPoolAdapter::new(true, TransactionPool::new(Options::default()));
    adapter.import(Some(extrinsic(alice, 5, b"abc".to_vec())), at_start(), resolved(alice));
    let mut nonces = Nonces::new();
    nonces.set(alice, 5);
    let list = adapter.transactions(Some(at_start()), nonces);
    assert_eq!(list.len(), 1);

    // a peer sends the listed bytes back; the address does not resolve any more
    let (listed_hash, bytes) = list[0].clone();
    let named = adapter.import(Some(extrinsic(alice, 5, bytes)), at_start(), Resolution::NoAccount);
    assert_eq!(named, Some(listed_hash));
    assert_eq!(adapter.pool_ref().light_status().transaction_count, 1);
}

#[test]
fn transactions_is_empty_when_the_chain_cannot_be_asked() {
    let alice = account(1);
    let mut adapter = TransactionPoolAdapter::new(true, TransactionPool::new(Options::default()));
    adapter.import(Some(extrinsic(alice, 0, vec![4])), at_start(), resolved(alice));
    let mut nonces = Nonces::new();
    nonces.set(alice, 5);
    assert_eq!(adapter.transactions(None, nonces), vec![]);
    // and nothing was culled
    assert_eq!(adapter.pool_ref().light_status().transaction_count, 1);
}

#[test]
fn broadcasts_are_recorded_for_transactions_of_the_pool() {
    let alice = account(1);
    let mut adapter = TransactionPoolAdapter::new(true, TransactionPool::new(Options::default()));
    let held = adapter
        .import(Some(extrinsic(alice, 1, b"abc".to_vec())), at_start(), resolved(alice))
        .unwrap();
    let other = hash(5);

    adapter.on_broadcasted(&vec![
        (held, vec!["peer-a".to_string(), "peer-b".to_string()]),
        (other, vec!["peer-c".to_string()]),
        (held, vec!["peer-d".to_string()]),
    ]);
    assert_eq!(adapter.pool_ref().propagated_to(&held), vec!["peer-a", "peer-b", "peer-d"]);
    assert!(adapter.pool_ref().propagated_to(&other).is_empty());

    adapter.on_broadcasted(&vec![(held, vec!["peer-e".to_string()])]);
    assert_eq!(
        adapter.pool_ref().propagated_to(&held),
        vec!["peer-a", "peer-b", "peer-d", "peer-e"]
    );
}

#[test]
fn broadcast_forgets_transactions_that_left() {
    let alice = account(1);
    let mut pool = TransactionPool::new(Options::default());
    pool.import(full(alice, 1, 1)).unwrap();
    pool.import(full(alice, 2, 2)).unwrap();
    pool.on_broadcasted(&vec![
        (hash(1), vec!["peer-a".to_string()]),
        (hash(2), vec!["peer-b".to_string()]),
    ]);
    pool.remove(&hash(1));
    // what is known stays until the next broadcast comes in
    assert_eq!(pool.propagated_to(&hash(1)), vec!["peer-a"]);
    pool.on_broadcasted(&vec![(hash(2), vec!["peer-c".to_string()])]);
    assert!(pool.propagated_to(&hash(1)).is_empty());
    assert_eq!(pool.propagated_to(&hash(2)), vec!["peer-b", "peer-c"]);
}

#[test]
fn default_options_bound_count_and_bytes() {
    let options = Options::default();
    assert_eq!(options.max_count, 1024);
    assert_eq!(options.max_bytes, 8 * 1024 * 1024);
    assert_eq!(TransactionPool::new(options).options(), options);
}
