use utxo_processor::balance::{aggregate_balance, balance_of_address, balance_of_entries};
use utxo_processor::maturity::{
    is_mature, Depths, MaturityPolicy, NetworkId, NetworkType, TransactionClass,
};
use utxo_processor::utxo::{Address, Change, IndexError, Outpoint, UtxoEntry, UtxoIndex};

fn outpoint(n: u128, index: u32) -> Outpoint {
    Outpoint { transaction_id_high: 0, transaction_id_low: n, index }
}

fn entry(n: u128, address: u64, amount: u64, score: u64, coinbase: bool) -> UtxoEntry {
    UtxoEntry {
        outpoint: outpoint(n, 0),
        address: Address { id: address },
        amount,
        block_daa_score: score,
        is_coinbase: coinbase,
    }
}

fn mainnet() -> NetworkId {
    NetworkId { network_type: NetworkType::Mainnet, suffix: 0 }
}

#[test]
fn insert_then_duplicate_is_rejected() {
    let mut index = UtxoIndex::new();
    let e = entry(1, 7, 100, 5, false);
    assert_eq!(index.insert(e), Ok(()));
    assert_eq!(index.insert(e), Err(IndexError::DuplicateOutpoint));
    assert_eq!(index.len(), 1);
    assert_eq!(index.get(e.outpoint), Some(e));
}

#[test]
fn duplicate_outpoint_with_other_payload_is_rejected() {
    let mut index = UtxoIndex::new();
    assert_eq!(index.insert(entry(1, 7, 100, 5, false)), Ok(()));
    assert_eq!(index.insert(entry(1, 8, 200, 6, true)), Err(IndexError::DuplicateOutpoint));
    assert_eq!(index.all(), vec![entry(1, 7, 100, 5, false)]);
}

#[test]
fn remove_absent_is_not_found() {
    let mut index = UtxoIndex::new();
    assert_eq!(index.remove(outpoint(9, 0)), Err(IndexError::NotFound));
    let e = entry(1, 7, 100, 5, false);
    index.insert(e).unwrap();
    assert_eq!(index.remove(e.outpoint), Ok(e));
    assert_eq!(index.remove(e.outpoint), Err(IndexError::NotFound));
    assert!(index.is_empty());
}

#[test]
fn outpoints_differ_by_output_index() {
    let mut index = UtxoIndex::new();
    let mut a = entry(1, 7, 100, 5, false);
    let mut b = entry(1, 7, 50, 5, false);
    a.outpoint.index = 0;
    b.outpoint.index = 1;
    assert_eq!(index.insert(a), Ok(()));
    assert_eq!(index.insert(b), Ok(()));
    assert!(index.contains(a.outpoint));
    assert!(index.contains(b.outpoint));
    assert_eq!(index.find(b.outpoint), Some(1));
}

#[test]
fn snapshot_is_per_address_in_insertion_order() {
    let mut index = UtxoIndex::new();
    let a1 = entry(1, 7, 100, 5, false);
    let b1 = entry(2, 8, 200, 5, false);
    let a2 = entry(3, 7, 300, 6, false);
    index.insert(a1).unwrap();
    index.insert(b1).unwrap();
    index.insert(a2).unwrap();
    assert_eq!(index.snapshot(Address { id: 7 }), vec![a1, a2]);
    assert_eq!(index.snapshot(Address { id: 8 }), vec![b1]);
    assert_eq!(index.snapshot(Address { id: 9 }), Vec::<UtxoEntry>::new());
    index.remove(a1.outpoint).unwrap();
    assert_eq!(index.snapshot(Address { id: 7 }), vec![a2]);
}

#[test]
fn clear_drops_everything() {
    let mut index = UtxoIndex::new();
    index.insert(entry(1, 7, 100, 5, false)).unwrap();
    index.insert(entry(2, 8, 100, 5, false)).unwrap();
    index.clear();
    assert_eq!(index.len(), 0);
    assert!(!index.contains(outpoint(1, 0)));
}

#[test]
fn replay_equals_net_effect() {
    let a = entry(1, 7, 100, 5, false);
    let b = entry(2, 7, 200, 5, false);
    let c = entry(3, 8, 300, 5, false);
    let changes = vec![
        Change::Add(a),
        Change::Add(b),
        Change::Add(a),
        Change::Remove(b.outpoint),
        Change::Remove(b.outpoint),
        Change::Add(c),
        Change::Remove(outpoint(99, 0)),
        Change::Add(b),
    ];
    let mut index = UtxoIndex::new();
    let rejected = index.apply_all(&changes);
    assert_eq!(rejected, 3);
    assert_eq!(index.all(), vec![a, c, b]);

    let mut net = UtxoIndex::new();
    assert_eq!(net.apply_all(&vec![Change::Add(a), Change::Add(c), Change::Add(b)]), 0);
    assert_eq!(net.all(), index.all());
}

#[test]
fn apply_reports_each_rejection() {
    let mut index = UtxoIndex::new();
    let a = entry(1, 7, 100, 5, false);
    assert_eq!(index.apply(Change::Remove(a.outpoint)), Err(IndexError::NotFound));
    assert_eq!(index.apply(Change::Add(a)), Ok(()));
    assert_eq!(index.apply(Change::Add(a)), Err(IndexError::DuplicateOutpoint));
    assert_eq!(index.apply(Change::Remove(a.outpoint)), Ok(()));
}

#[test]
fn coinbase_maturity_at_depth_ten() {
    let mut policy = MaturityPolicy::new();
    let network = NetworkId { network_type: NetworkType::Testnet, suffix: 10 };
    policy.set_required_confirmations(network, TransactionClass::Coinbase, 10);
    let depths = policy.depths(network);
    let e = entry(1, 7, 100, 5, true);
    assert!(!is_mature(&e, 10, depths));
    assert!(is_mature(&e, 15, depths));
    assert!(!is_mature(&e, 14, depths));
}

#[test]
fn policy_defaults_and_overrides() {
    let mut policy = MaturityPolicy::new();
    let fast = NetworkId { network_type: NetworkType::Testnet, suffix: 11 };
    assert_eq!(policy.required_confirmations(mainnet(), TransactionClass::Coinbase), 100);
    assert_eq!(policy.required_confirmations(mainnet(), TransactionClass::User), 10);
    assert_eq!(policy.required_confirmations(fast, TransactionClass::Coinbase), 1000);
    assert_eq!(policy.required_confirmations(fast, TransactionClass::User), 100);
    policy.set_required_confirmations(mainnet(), TransactionClass::User, 3);
    policy.set_required_confirmations(mainnet(), TransactionClass::User, 4);
    assert_eq!(policy.required_confirmations(mainnet(), TransactionClass::User), 4);
    assert_eq!(policy.required_confirmations(mainnet(), TransactionClass::Coinbase), 100);
    assert_eq!(policy.required_confirmations(fast, TransactionClass::User), 100);
    assert_eq!(policy.depths(mainnet()), Depths { coinbase: 100, user: 4 });
}

#[test]
fn tip_below_block_is_never_mature() {
    let e = entry(1, 7, 100, 20, false);
    assert!(!is_mature(&e, 10, Depths { coinbase: 0, user: 0 }));
    assert!(is_mature(&e, 20, Depths { coinbase: 0, user: 0 }));
}

#[test]
fn balances_partition_the_total() {
    let mut index = UtxoIndex::new();
    index.insert(entry(1, 7, 100, 5, false)).unwrap();
    index.insert(entry(2, 7, 40, 95, false)).unwrap();
    index.insert(entry(3, 7, 1000, 50, true)).unwrap();
    index.insert(entry(4, 8, 7, 1, false)).unwrap();
    let depths = Depths { coinbase: 100, user: 10 };
    let b = balance_of_address(&index, Address { id: 7 }, 100, depths);
    assert_eq!(b.mature, 100);
    assert_eq!(b.pending, 1040);
    assert_eq!(b.total, 1140);
    assert_eq!(b.pending_count, 2);
    let all = aggregate_balance(&index, 100, depths);
    assert_eq!(all.mature, 107);
    assert_eq!(all.pending, 1040);
    assert_eq!(all.mature + all.pending, all.total);
    let zero = aggregate_balance(&index, 100, Depths { coinbase: 0, user: 0 });
    assert_eq!(zero.pending, 0);
    assert_eq!(zero.pending_count, 0);
    assert_eq!(zero.mature, 1147);
}

#[test]
fn balance_sums_do_not_overflow() {
    let entries = vec![
        entry(1, 7, u64::MAX, 0, false),
        entry(2, 7, u64::MAX, 0, false),
        entry(3, 7, u64::MAX, 90, false),
    ];
    let b = balance_of_entries(&entries, 10, Depths { coinbase: 0, user: 5 });
    assert_eq!(b.mature, 2 * (u64::MAX as u128));
    assert_eq!(b.pending, u64::MAX as u128);
    assert_eq!(b.total, 3 * (u64::MAX as u128));
    assert_eq!(b.pending_count, 1);
}

#[test]
fn policy_change_applies_to_indexed_entries() {
    let mut policy = MaturityPolicy::new();
    let mut index = UtxoIndex::new();
    index.insert(entry(1, 7, 100, 95, false)).unwrap();
    let before = aggregate_balance(&index, 100, policy.depths(mainnet()));
    assert_eq!((before.mature, before.pending), (0, 100));
    policy.set_required_confirmations(mainnet(), TransactionClass::User, 5);
    let after = aggregate_balance(&index, 100, policy.depths(mainnet()));
    assert_eq!((after.mature, after.pending), (100, 0));
}

#[test]
fn address_entries_follow_the_index() {
    let mut index = UtxoIndex::new();
    let a1 = entry(1, 7, 100, 5, false);
    let b1 = entry(2, 8, 200, 5, false);
    let a2 = entry(3, 7, 300, 6, false);
    let a3 = entry(4, 7, 300, 6, false);
    assert_eq!(index.outpoints_of_address(Address { id: 7 }), Vec::<Outpoint>::new());
    index.insert(a1).unwrap();
    index.insert(b1).unwrap();
    index.insert(a2).unwrap();
    index.insert(a3).unwrap();
    assert_eq!(index.insert(a2), Err(IndexError::DuplicateOutpoint));
    assert_eq!(
        index.outpoints_of_address(Address { id: 7 }),
        vec![a1.outpoint, a2.outpoint, a3.outpoint]
    );
    assert_eq!(index.outpoints_of_address(Address { id: 8 }), vec![b1.outpoint]);
    index.remove(a2.outpoint).unwrap();
    assert_eq!(index.outpoints_of_address(Address { id: 7 }), vec![a1.outpoint, a3.outpoint]);
    index.remove(b1.outpoint).unwrap();
    assert_eq!(index.outpoints_of_address(Address { id: 8 }), Vec::<Outpoint>::new());
    index.insert(b1).unwrap();
    assert_eq!(index.outpoints_of_address(Address { id: 8 }), vec![b1.outpoint]);
    index.clear();
    assert_eq!(index.outpoints_of_address(Address { id: 7 }), Vec::<Outpoint>::new());
    index.insert(a3).unwrap();
    assert_eq!(index.outpoints_of_address(Address { id: 7 }), vec![a3.outpoint]);
}
