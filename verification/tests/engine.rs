use polkadot_transaction_pool::{
    AccountId, Address, BlockId, CheckedBlockId, Error, Index, LightStatus, Nonces, Options, Ready,
    Resolution, Status, Submission, TransactionPool, UncheckedExtrinsic, VerifiedTransaction,
    Verifier, H256,
};

fn account(first: u8) -> AccountId {
    let mut id = [0u8; 32];
    id[0] = first;
    id
}

fn hash(first: u8) -> H256 {
    let mut hash = [0u8; 32];
    hash[0] = first;
    hash[31] = 0xee;
    hash
}

/// An extrinsic of `size` encoded bytes, signed in the name of `sender`.
fn signed_by(sender: AccountId, nonce: Index, size: usize) -> UncheckedExtrinsic {
    UncheckedExtrinsic {
        signed: Address::Id(sender),
        index: nonce,
        function: vec![1, 2, 3],
        signature: Some(vec![9; 64]),
        encoded: vec![nonce as u8; size],
    }
}

/// A fully verified record.
fn full(sender: AccountId, nonce: Index, size: usize, tag: u8) -> VerifiedTransaction {
    let resolution = Resolution::Account { id: sender, signature_valid: true };
    Verifier::new(at_start())
        .verify_hashed(signed_by(sender, nonce, size), resolution, hash(tag))
        .unwrap()
}

/// A record whose sender is not resolved.
fn partial(alias: u64, nonce: Index, size: usize, tag: u8) -> VerifiedTransaction {
    let mut uxt = signed_by(account(0), nonce, size);
    uxt.signed = Address::Index(alias);
    Verifier::new(at_start()).verify_hashed(uxt, Resolution::NoAccount, hash(tag)).unwrap()
}

fn at_start() -> CheckedBlockId {
    CheckedBlockId::certified(BlockId::Number(0))
}

fn chain(entries: &[(AccountId, Index)]) -> Ready {
    let mut nonces = Nonces::new();
    for (account, nonce) in entries {
        nonces.set(*account, *nonce);
    }
    Ready::create(at_start(), nonces)
}

fn nonces(pool: &mut TransactionPool, ready: Ready) -> Vec<(Option<AccountId>, Index)> {
    pool.cull_and_get_pending(ready, |p| p.iter().map(|a| (a.sender(), a.index())).collect())
}

/// The hashes of all records, in the order of the pool.
fn hashes(pool: &TransactionPool) -> Vec<H256> {
    pool.all().iter().map(|tx| *tx.hash()).collect()
}

#[test]
fn same_hash_is_not_imported_twice() {
    let alice = account(1);
    let mut pool = TransactionPool::new(Options::default());
    assert_eq!(pool.import(full(alice, 5, 10, 1)).unwrap(), hash(1));

    match pool.import(full(alice, 6, 10, 1)) {
        Err(Error::AlreadyImported(held)) => assert_eq!(held, hash(1)),
        other => panic!("unexpected: {:?}", other),
    }
    assert_eq!(pool.light_status().transaction_count, 1);
}

#[test]
fn same_sender_and_nonce_is_refused_with_the_hash_in_the_pool() {
    let alice = account(1);
    let mut pool = TransactionPool::new(Options::default());
    pool.import(full(alice, 5, 10, 1)).unwrap();

    match pool.import(full(alice, 5, 12, 2)) {
        Err(Error::AlreadyImported(held)) => assert_eq!(held, hash(1)),
        other => panic!("unexpected: {:?}", other),
    }
    assert_eq!(hashes(&pool), vec![hash(1)]);
}

#[test]
fn same_nonce_of_another_sender_is_taken() {
    let mut pool = TransactionPool::new(Options::default());
    pool.import(full(account(1), 5, 10, 1)).unwrap();
    pool.import(full(account(2), 5, 10, 2)).unwrap();
    assert_eq!(hashes(&pool), vec![hash(1), hash(2)]);
    assert_eq!(
        pool.light_status(),
        LightStatus { mem_usage: 20, transaction_count: 2, senders: 2 }
    );
}

#[test]
fn records_without_sender_may_share_a_nonce() {
    let mut pool = TransactionPool::new(Options::default());
    pool.import(partial(8, 5, 10, 1)).unwrap();
    pool.import(partial(9, 5, 10, 2)).unwrap();
    // the later one goes before the one of the same nonce
    assert_eq!(hashes(&pool), vec![hash(2), hash(1)]);
    assert_eq!(pool.light_status().senders, 1);
}

#[test]
fn records_of_one_sender_stand_together_in_nonce_order() {
    let alice = account(1);
    let bob = account(2);
    let mut pool = TransactionPool::new(Options::default());
    pool.import(full(alice, 7, 10, 1)).unwrap();
    pool.import(full(bob, 3, 10, 2)).unwrap();
    pool.import(full(alice, 5, 10, 3)).unwrap();
    pool.import(full(alice, 9, 10, 4)).unwrap();
    pool.import(full(bob, 1, 10, 5)).unwrap();
    pool.import(full(alice, 6, 10, 6)).unwrap();
    assert_eq!(
        hashes(&pool),
        vec![hash(3), hash(6), hash(1), hash(4), hash(5), hash(2)]
    );
}

#[test]
fn count_bound_refuses_when_nothing_gives_way() {
    let alice = account(1);
    let mut pool = TransactionPool::new(Options { max_count: 2, max_bytes: 1000 });
    pool.import(full(alice, 1, 10, 1)).unwrap();
    pool.import(full(alice, 2, 10, 2)).unwrap();

    assert!(matches!(pool.import(full(alice, 3, 10, 3)), Err(Error::CapacityExceeded)));
    assert_eq!(hashes(&pool), vec![hash(1), hash(2)]);
    assert_eq!(pool.light_status().mem_usage, 20);
}

#[test]
fn byte_bound_refuses_when_nothing_gives_way() {
    let alice = account(1);
    let mut pool = TransactionPool::new(Options { max_count: 10, max_bytes: 25 });
    pool.import(full(alice, 1, 10, 1)).unwrap();
    pool.import(full(alice, 2, 10, 2)).unwrap();

    assert!(matches!(pool.import(full(alice, 3, 6, 3)), Err(Error::CapacityExceeded)));
    // five bytes are left
    assert_eq!(pool.import(full(alice, 4, 5, 4)).unwrap(), hash(4));
    assert_eq!(pool.light_status().mem_usage, 25);
}

#[test]
fn record_without_sender_gives_way_to_make_room() {
    let alice = account(1);
    let mut pool = TransactionPool::new(Options { max_count: 2, max_bytes: 1000 });
    pool.import(partial(8, 1, 10, 1)).unwrap();
    pool.import(full(alice, 2, 10, 2)).unwrap();

    pool.import(full(alice, 3, 10, 3)).unwrap();
    assert_eq!(hashes(&pool), vec![hash(2), hash(3)]);
}

#[test]
fn smallest_record_without_sender_leaves_first() {
    let alice = account(1);
    let mut pool = TransactionPool::new(Options { max_count: 3, max_bytes: 1000 });
    pool.import(partial(8, 1, 30, 1)).unwrap();
    pool.import(partial(8, 2, 20, 2)).unwrap();
    pool.import(partial(8, 3, 20, 3)).unwrap();

    // of the two smallest, the one that stands first leaves
    pool.import(full(alice, 1, 10, 4)).unwrap();
    assert_eq!(hashes(&pool), vec![hash(1), hash(3), hash(4)]);
    assert_eq!(pool.light_status().mem_usage, 60);
}

#[test]
fn eviction_goes_on_until_the_bytes_fit() {
    let alice = account(1);
    let mut pool = TransactionPool::new(Options { max_count: 10, max_bytes: 60 });
    pool.import(partial(8, 1, 10, 1)).unwrap();
    pool.import(partial(8, 2, 20, 2)).unwrap();
    pool.import(full(alice, 1, 25, 3)).unwrap();

    // 35 bytes need two evictions
    pool.import(full(alice, 2, 35, 4)).unwrap();
    assert_eq!(hashes(&pool), vec![hash(3), hash(4)]);
    assert_eq!(pool.light_status().mem_usage, 60);
}

#[test]
fn failed_import_evicts_nothing() {
    let alice = account(1);
    let mut pool = TransactionPool::new(Options { max_count: 10, max_bytes: 60 });
    pool.import(partial(8, 1, 10, 1)).unwrap();
    pool.import(full(alice, 1, 25, 2)).unwrap();

    // 36 bytes do not fit beside the 25 of the verified record
    assert!(matches!(pool.import(full(alice, 2, 36, 3)), Err(Error::CapacityExceeded)));
    assert_eq!(hashes(&pool), vec![hash(1), hash(2)]);
}

#[test]
fn new_record_without_sender_pushes_out_an_old_one() {
    let mut pool = TransactionPool::new(Options { max_count: 1, max_bytes: 1000 });
    pool.import(partial(8, 1, 10, 1)).unwrap();
    pool.import(partial(9, 1, 10, 2)).unwrap();
    assert_eq!(hashes(&pool), vec![hash(2)]);
}

#[test]
fn pool_of_no_capacity_takes_nothing() {
    let mut pool = TransactionPool::new(Options { max_count: 0, max_bytes: 1000 });
    assert!(matches!(pool.import(full(account(1), 1, 10, 1)), Err(Error::CapacityExceeded)));
    assert_eq!(pool.light_status().transaction_count, 0);
}

#[test]
fn remove_takes_the_record_out() {
    let alice = account(1);
    let mut pool = TransactionPool::new(Options::default());
    pool.import(full(alice, 1, 10, 1)).unwrap();
    pool.import(full(alice, 2, 11, 2)).unwrap();

    let removed = pool.remove(&hash(1)).unwrap();
    assert_eq!(removed.index(), 1);
    assert_eq!(*removed.hash(), hash(1));
    assert_eq!(hashes(&pool), vec![hash(2)]);
    assert_eq!(pool.light_status().mem_usage, 11);
}

#[test]
fn remove_of_unknown_hash_changes_nothing() {
    let mut pool = TransactionPool::new(Options::default());
    pool.import(full(account(1), 1, 10, 1)).unwrap();
    assert!(pool.remove(&hash(7)).is_none());
    assert_eq!(hashes(&pool), vec![hash(1)]);
}

#[test]
fn removed_nonce_can_come_again() {
    let alice = account(1);
    let mut pool = TransactionPool::new(Options::default());
    pool.import(full(alice, 1, 10, 1)).unwrap();
    pool.remove(&hash(1));
    assert_eq!(pool.import(full(alice, 1, 10, 2)).unwrap(), hash(2));
}

#[test]
fn sweep_culls_stale_and_keeps_ready_and_future() {
    let alice = account(1);
    let bob = account(2);
    let mut pool = TransactionPool::new(Options::default());
    pool.import(full(alice, 4, 10, 1)).unwrap();
    pool.import(full(bob, 10, 10, 2)).unwrap();
    pool.import(full(bob, 11, 10, 3)).unwrap();
    pool.import(full(bob, 13, 10, 4)).unwrap();
    pool.import(partial(8, 0, 10, 5)).unwrap();

    let ready = nonces(&mut pool, chain(&[(alice, 5), (bob, 10)]));
    assert_eq!(ready, vec![(Some(bob), 10), (Some(bob), 11)]);
    // Alice's stale record is gone; the ready ones stay until a later block makes them stale
    assert_eq!(hashes(&pool), vec![hash(2), hash(3), hash(4), hash(5)]);
    assert_eq!(pool.light_status().mem_usage, 40);
}

#[test]
fn no_record_below_the_chain_nonce_survives_a_sweep() {
    let alice = account(1);
    let mut pool = TransactionPool::new(Options::default());
    for (i, nonce) in [3u32, 9, 4, 7, 5, 12].iter().enumerate() {
        pool.import(full(alice, *nonce, 10, i as u8)).unwrap();
    }
    let _ = nonces(&mut pool, chain(&[(alice, 7)]));
    for tx in pool.all() {
        assert!(tx.index() >= 7);
    }
}

#[test]
fn gap_stops_the_ready_run() {
    let alice = account(1);
    let mut pool = TransactionPool::new(Options::default());
    for (i, nonce) in [5u32, 6, 8, 9].iter().enumerate() {
        pool.import(full(alice, *nonce, 10, i as u8)).unwrap();
    }
    let ready = nonces(&mut pool, chain(&[(alice, 5)]));
    assert_eq!(ready, vec![(Some(alice), 5), (Some(alice), 6)]);
    assert_eq!(pool.light_status().transaction_count, 4);
}

#[test]
fn sender_unknown_to_the_chain_is_judged_by_the_largest_nonce() {
    let alice = account(1);
    let mut pool = TransactionPool::new(Options::default());
    pool.import(full(alice, 5, 10, 1)).unwrap();
    pool.import(full(alice, u32::MAX, 10, 2)).unwrap();

    // the chain gives no nonce for Alice: anything below the largest nonce is stale
    let ready = nonces(&mut pool, chain(&[]));
    assert_eq!(ready, vec![(Some(alice), u32::MAX)]);
    assert_eq!(hashes(&pool), vec![hash(2)]);
}

#[test]
fn status_counts_each_verdict() {
    let alice = account(1);
    let bob = account(2);
    let mut pool = TransactionPool::new(Options::default());
    pool.import(full(alice, 4, 10, 1)).unwrap();
    pool.import(full(bob, 10, 10, 2)).unwrap();
    pool.import(full(bob, 11, 10, 3)).unwrap();
    pool.import(full(bob, 13, 10, 4)).unwrap();
    pool.import(partial(8, 0, 10, 5)).unwrap();

    let status = pool.status(chain(&[(alice, 5), (bob, 10)]));
    assert_eq!(status, Status { mem_usage: 50, stalled: 1, pending: 2, future: 2 });
    // nothing was culled
    assert_eq!(pool.light_status().transaction_count, 5);
}

#[test]
fn nonce_that_came_late_is_handed_out_first() {
    let alice = account(1);
    let mut pool = TransactionPool::new(Options::default());
    pool.import(full(alice, 21, 10, 1)).unwrap();
    assert_eq!(nonces(&mut pool, chain(&[(alice, 20)])), vec![]);

    pool.import(full(alice, 20, 10, 2)).unwrap();
    assert_eq!(
        nonces(&mut pool, chain(&[(alice, 20)])),
        vec![(Some(alice), 20), (Some(alice), 21)]
    );
}

#[test]
fn submit_reports_on_each_item() {
    let alice = account(1);
    let verifier = Verifier::new(at_start());
    let mut pool = TransactionPool::new(Options::default());
    let resolved = Resolution::Account { id: alice, signature_valid: true };
    let mut inherent = signed_by(alice, 3, 10);
    inherent.signature = None;
    let batch = vec![
        Submission { extrinsic: Some(signed_by(alice, 1, 10)), resolution: resolved },
        Submission { extrinsic: None, resolution: resolved },
        Submission { extrinsic: Some(inherent), resolution: resolved },
        Submission { extrinsic: Some(signed_by(alice, 1, 10)), resolution: resolved },
        Submission {
            extrinsic: Some(signed_by(alice, 2, 10)),
            resolution: Resolution::Account { id: alice, signature_valid: false },
        },
        Submission { extrinsic: Some(signed_by(alice, 4, 10)), resolution: Resolution::ApiError },
        Submission { extrinsic: Some(signed_by(alice, 5, 10)), resolution: Resolution::NoAccount },
        Submission { extrinsic: Some(signed_by(alice, 6, 10)), resolution: resolved },
    ];
    let results = pool.submit(&verifier, &batch);
    assert_eq!(results.len(), 8);
    let first = *results[0].as_ref().unwrap();
    assert!(matches!(results[1], Err(Error::InvalidExtrinsicFormat)));
    match &results[2] {
        Err(Error::IsInherent(uxt)) => assert_eq!(uxt.index, 3),
        other => panic!("unexpected: {:?}", other),
    }
    match &results[3] {
        Err(Error::AlreadyImported(held)) => assert_eq!(*held, first),
        other => panic!("unexpected: {:?}", other),
    }
    match &results[4] {
        Err(Error::VerificationFailed(reason)) => {
            assert_eq!(reason.description(), "bad signature in extrinsic")
        }
        other => panic!("unexpected: {:?}", other),
    }
    match &results[5] {
        Err(Error::VerificationFailed(reason)) => assert_eq!(reason.description(), "API error."),
        other => panic!("unexpected: {:?}", other),
    }
    assert!(results[6].is_ok());
    assert!(results[7].is_ok());
    // the two of Alice, then the one without a sender
    let kept: Vec<_> = pool.all().iter().map(|tx| (tx.sender(), tx.index())).collect();
    assert_eq!(kept, vec![(Some(alice), 1), (Some(alice), 6), (None, 5)]);
}

#[test]
fn promotion_moves_the_record_to_its_sender() {
    let alice = account(1);
    let verifier = Verifier::new(CheckedBlockId::certified(BlockId::Number(1)));
    let mut pool = TransactionPool::new(Options::default());
    pool.import(full(alice, 5, 10, 1)).unwrap();
    pool.import(partial(8, 6, 10, 2)).unwrap();
    pool.import(full(alice, 7, 10, 3)).unwrap();
    assert_eq!(pool.unresolved(), vec![(hash(2), Address::Index(8))]);

    let promoted = pool.retry_verification(
        &verifier,
        &vec![(hash(2), Resolution::Account { id: alice, signature_valid: true })],
    );
    assert_eq!(promoted, 1);
    assert_eq!(hashes(&pool), vec![hash(1), hash(2), hash(3)]);
    assert!(pool.unresolved().is_empty());
    assert_eq!(
        nonces(&mut pool, chain(&[(alice, 5)])),
        vec![(Some(alice), 5), (Some(alice), 6), (Some(alice), 7)]
    );
}

#[test]
fn record_stays_unresolved_when_nothing_new_is_known() {
    let alice = account(1);
    let verifier = Verifier::new(at_start());
    let mut pool = TransactionPool::new(Options::default());
    pool.import(full(alice, 5, 10, 1)).unwrap();
    pool.import(partial(8, 5, 10, 2)).unwrap();
    pool.import(partial(9, 6, 10, 3)).unwrap();

    let promoted = pool.retry_verification(
        &verifier,
        &vec![
            // the sender already has a record of nonce 5
            (hash(2), Resolution::Account { id: alice, signature_valid: true }),
            (hash(3), Resolution::NoAccount),
            (hash(3), Resolution::ApiError),
            (hash(3), Resolution::Account { id: alice, signature_valid: false }),
            // no such record
            (hash(9), Resolution::Account { id: alice, signature_valid: true }),
            // resolved already
            (hash(1), Resolution::Account { id: account(2), signature_valid: true }),
        ],
    );
    assert_eq!(promoted, 0);
    assert_eq!(hashes(&pool), vec![hash(1), hash(2), hash(3)]);
    assert_eq!(pool.unresolved().len(), 2);
}
