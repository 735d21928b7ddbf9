//! Tests of the best-transactions iterator, its fee wrapper and the
//! predicate filter.

use pending_block::best::{BestTransactionFilter, BestTransactions, BestTransactionsWithFees};
use pending_block::primitives::{Address, B256};
use pending_block::tx::{PendingTransaction, PoolTransaction, TxKind};

fn hash(n: u64) -> B256 {
    B256 { w0: 0xaa, w1: 0xbb, w2: n, w3: n.wrapping_mul(7) }
}

fn sender(n: u128) -> Address {
    Address { hi: 0, lo: n }
}

fn eip1559(nonce: u64, max_fee: u128) -> PoolTransaction {
    PoolTransaction {
        hash: hash(1000 + nonce),
        sender: sender(1),
        nonce,
        gas_limit: 21000,
        max_fee_per_gas: max_fee,
        max_fee_per_blob_gas: None,
        kind: TxKind::Eip1559,
        blob_gas: 0,
        is_private: false,
    }
}

fn eip4844(nonce: u64, max_fee: u128, blob_fee: u128) -> PoolTransaction {
    PoolTransaction {
        hash: hash(2000 + nonce),
        sender: sender(1),
        nonce,
        gas_limit: 21000,
        max_fee_per_gas: max_fee,
        max_fee_per_blob_gas: Some(blob_fee),
        kind: TxKind::Eip4844,
        blob_gas: 131072,
        is_private: false,
    }
}

fn pending(tx: PoolTransaction) -> PendingTransaction {
    PendingTransaction { submission_id: tx.nonce, priority: 0, transaction: tx }
}

#[test]
fn test_best_iter() {
    let num_tx: u64 = 10;
    let mut all = Vec::new();
    for nonce in 0..num_tx {
        all.push(pending(eip1559(nonce, 10)));
    }
    let mut best = BestTransactions::new(all);

    assert_eq!(best.all_len(), num_tx as usize);
    assert_eq!(best.independent_len(), 1);

    // check tx are returned in order
    for nonce in 0..num_tx {
        assert_eq!(best.independent_len(), 1);
        let tx = best.next().unwrap();
        assert_eq!(tx.nonce, nonce);
    }
}

#[test]
fn test_best_iter_invalid() {
    let num_tx: u64 = 10;
    let mut all = Vec::new();
    for nonce in 0..num_tx {
        all.push(pending(eip1559(nonce, 10)));
    }
    let mut best = BestTransactions::new(all);

    // mark the first tx as invalid
    let invalid = *best.independent_at(0);
    best.mark_invalid(&invalid.transaction);

    // iterator is empty
    assert!(best.next().is_none());
}

#[test]
fn test_best_with_fees_iter_base_fee_satisfied() {
    let num_tx: u64 = 5;
    let base_fee: u64 = 10;
    let base_fee_per_blob_gas: u64 = 15;

    let mut all = Vec::new();
    for nonce in 0..num_tx {
        all.push(pending(eip1559(nonce, base_fee as u128 + 5)));
    }
    let best = BestTransactions::new(all);
    let mut best = BestTransactionsWithFees::new(best, base_fee, base_fee_per_blob_gas);

    for nonce in 0..num_tx {
        let tx = best.next().expect("Transaction should be returned");
        assert_eq!(tx.nonce, nonce);
        assert!(tx.max_fee_per_gas >= base_fee as u128);
    }
}

#[test]
fn test_best_with_fees_iter_base_fee_violated() {
    let num_tx: u64 = 5;
    let base_fee: u64 = 20;
    let base_fee_per_blob_gas: u64 = 15;

    let mut all = Vec::new();
    for nonce in 0..num_tx {
        all.push(pending(eip1559(nonce, base_fee as u128 - 5)));
    }
    let best = BestTransactions::new(all);
    let mut best = BestTransactionsWithFees::new(best, base_fee, base_fee_per_blob_gas);

    // No transaction should be returned since all violate the base fee
    assert!(best.next().is_none());
}

#[test]
fn test_best_with_fees_iter_blob_fee_satisfied() {
    let num_tx: u64 = 5;
    let base_fee: u64 = 10;
    let base_fee_per_blob_gas: u64 = 20;

    let mut all = Vec::new();
    for nonce in 0..num_tx {
        all.push(pending(eip4844(nonce, base_fee as u128 + 5, base_fee_per_blob_gas as u128 + 5)));
    }
    let best = BestTransactions::new(all);
    let mut best = BestTransactionsWithFees::new(best, base_fee, base_fee_per_blob_gas);

    // All transactions should be returned in order since they satisfy
    // both base fee and blob fee
    for nonce in 0..num_tx {
        let tx = best.next().expect("Transaction should be returned");
        assert_eq!(tx.nonce, nonce);
        assert!(tx.max_fee_per_gas >= base_fee as u128);
        assert!(tx.max_fee_per_blob_gas.unwrap() >= base_fee_per_blob_gas as u128);
    }

    // No more transactions should be returned
    assert!(best.next().is_none());
}

#[test]
fn test_best_with_fees_iter_blob_fee_violated() {
    let num_tx: u64 = 5;
    let base_fee: u64 = 10;
    let base_fee_per_blob_gas: u64 = 20;

    let mut all = Vec::new();
    for nonce in 0..num_tx {
        all.push(pending(eip4844(nonce, base_fee as u128 + 5, base_fee_per_blob_gas as u128 - 5)));
    }
    let best = BestTransactions::new(all);
    let mut best = BestTransactionsWithFees::new(best, base_fee, base_fee_per_blob_gas);

    // No transaction should be returned since all violate the blob fee
    assert!(best.next().is_none());
}

#[test]
fn test_best_with_fees_iter_mixed_fees() {
    let base_fee: u64 = 10;
    let base_fee_per_blob_gas: u64 = 20;

    let tx1 = eip1559(0, base_fee as u128 + 5);
    let tx2 = eip4844(1, base_fee as u128 + 5, base_fee_per_blob_gas as u128 + 5);
    let tx3 = eip4844(2, base_fee as u128 + 5, base_fee_per_blob_gas as u128 - 5);
    let tx4 = eip1559(3, base_fee as u128 - 5);

    let all = vec![
        pending(tx1.clone()),
        pending(tx2.clone()),
        pending(tx3),
        pending(tx4),
    ];
    let best = BestTransactions::new(all);
    let mut best = BestTransactionsWithFees::new(best, base_fee, base_fee_per_blob_gas);

    let expected_order = vec![tx1, tx2];
    for expected_tx in expected_order {
        let tx = best.next().expect("Transaction should be returned");
        assert_eq!(tx, expected_tx);
    }

    // No more transactions should be returned
    assert!(best.next().is_none());
}

#[test]
fn two_senders_yield_by_priority_and_nonce() {
    let mut a0 = eip1559(0, 50);
    a0.sender = sender(7);
    a0.hash = hash(70);
    let mut a1 = eip1559(1, 50);
    a1.sender = sender(7);
    a1.hash = hash(71);
    let b0 = eip1559(0, 40);

    let all = vec![
        PendingTransaction { submission_id: 1, priority: 5, transaction: a0 },
        PendingTransaction { submission_id: 2, priority: 5, transaction: a1 },
        PendingTransaction { submission_id: 3, priority: 1, transaction: b0 },
    ];
    let mut best = BestTransactions::new(all);
    // sender 7 has the higher priority; its chain is walked in nonce
    // order before the other sender's base transaction
    assert_eq!(best.next().unwrap().hash, hash(70));
    assert_eq!(best.next().unwrap().hash, hash(71));
    assert_eq!(best.next().unwrap().sender, sender(1));
    assert!(best.next().is_none());
}

#[test]
fn late_arrival_through_channel_is_absorbed() {
    // snapshot with one sender; a second sender's base transaction
    // arrives through the broadcast channel before the next yield
    let mut all = Vec::new();
    all.push(pending(eip1559(0, 30)));
    let mut best = BestTransactions::new(all);

    let (tx_send, rx) = tokio::sync::broadcast::channel(8);
    best.subscribe_new_transactions(rx);

    let arrival_tx = PoolTransaction {
        hash: hash(555),
        sender: sender(2),
        nonce: 0,
        gas_limit: 21000,
        max_fee_per_gas: 99,
        max_fee_per_blob_gas: None,
        kind: TxKind::Eip1559,
        blob_gas: 0,
        is_private: false,
    };
    let arrival = PendingTransaction { submission_id: 100, priority: 9, transaction: arrival_tx };
    tx_send.send(arrival).unwrap();

    // the arrival has the higher priority, so it is yielded first
    let first = best.next().unwrap();
    assert_eq!(first.sender, sender(2));
    let second = best.next().unwrap();
    assert_eq!(second.sender, sender(1));
    assert!(best.next().is_none());
    assert_eq!(best.all_len(), 2);
}

#[test]
fn insert_arrival_without_ancestor_becomes_candidate() {
    let mut best = BestTransactions::new(Vec::new());
    let t = pending(eip1559(0, 10));
    best.insert_arrival(t);
    assert_eq!(best.all_len(), 1);
    assert_eq!(best.independent_len(), 1);
    // a gapped follower goes to the snapshot but not to the candidates
    let follower = pending(eip1559(2, 10));
    best.insert_arrival(follower);
    assert_eq!(best.all_len(), 2);
    // its direct ancestor (nonce 1) is absent from the snapshot, so the
    // arrival counts as its own chain base and becomes a candidate too
    assert_eq!(best.independent_len(), 2);
}

#[test]
fn skip_blobs_drops_blob_transactions_and_descendants() {
    let mut all = Vec::new();
    all.push(pending(eip4844(0, 15, 30)));
    all.push(pending(eip1559(1, 15)));
    let mut best = BestTransactions::new(all);
    best.set_skip_blobs(true);
    // the blob transaction is dropped; its already unlocked successor
    // is still yielded
    let tx = best.next().unwrap();
    assert_eq!(tx.nonce, 1);
    assert!(best.next().is_none());
}

#[test]
fn filter_yields_only_matching_transactions() {
    let mut all = Vec::new();
    for nonce in 0..4u64 {
        all.push(pending(eip1559(nonce, 10 + nonce as u128)));
    }
    let best = BestTransactions::new(all);
    let mut filtered = BestTransactionFilter::new(best, |t: PoolTransaction| t.nonce % 2 == 0);
    // nonce 0 passes; nonce 1 fails and is marked invalid, but its
    // successor was unlocked when the inner iterator yielded it, so
    // nonce 2 still comes through; nonce 3 fails and ends the run
    let first = filtered.next().unwrap();
    assert_eq!(first.nonce, 0);
    let second = filtered.next().unwrap();
    assert_eq!(second.nonce, 2);
    assert!(filtered.next().is_none());
}

#[test]
fn ancestor_lookup_walks_one_nonce_down() {
    let all = vec![pending(eip1559(0, 10)), pending(eip1559(1, 10))];
    let best = BestTransactions::new(all);
    let anc = best
        .ancestor(&pending_block::tx::TransactionId { sender: sender(1), nonce: 1 })
        .unwrap();
    assert_eq!(anc.transaction.nonce, 0);
    // a first nonce has no ancestor, a gap has none either
    assert!(best
        .ancestor(&pending_block::tx::TransactionId { sender: sender(1), nonce: 0 })
        .is_none());
    assert!(best
        .ancestor(&pending_block::tx::TransactionId { sender: sender(1), nonce: 5 })
        .is_none());
}
