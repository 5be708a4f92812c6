//! Balances derived from the index: what is mature, what is pending, and
//! their sum.

use crate::maturity::{is_mature, mature_at, Depths};
use crate::utxo::{entries_of, Address, UtxoEntry, UtxoIndex};
use vstd::prelude::*;

verus! {

/// The balance of an address, or of the whole index.
#[derive(Clone, Copy, Debug, PartialEq, Eq, Structural)]
pub struct Balance {
    pub mature: u128,
    pub pending: u128,
    pub total: u128,
    pub pending_count: usize,
}

pub open spec fn total_sum(entries: Seq<UtxoEntry>) -> nat
    decreases entries.len(),
{
    if entries.len() == 0 {
        0
    } else {
        total_sum(entries.drop_last()) + entries.last().amount as nat
    }
}

pub open spec fn mature_sum(entries: Seq<UtxoEntry>, tip_daa_score: u64, depths: Depths) -> nat
    decreases entries.len(),
{
    if entries.len() == 0 {
        0
    } else if mature_at(entries.last(), tip_daa_score, depths) {
        mature_sum(entries.drop_last(), tip_daa_score, depths) + entries.last().amount as nat
    } else {
        mature_sum(entries.drop_last(), tip_daa_score, depths)
    }
}

pub open spec fn pending_sum(entries: Seq<UtxoEntry>, tip_daa_score: u64, depths: Depths) -> nat
    decreases entries.len(),
{
    if entries.len() == 0 {
        0
    } else if mature_at(entries.last(), tip_daa_score, depths) {
        pending_sum(entries.drop_last(), tip_daa_score, depths)
    } else {
        pending_sum(entries.drop_last(), tip_daa_score, depths) + entries.last().amount as nat
    }
}

pub open spec fn pending_count(entries: Seq<UtxoEntry>, tip_daa_score: u64, depths: Depths) -> nat
    decreases entries.len(),
{
    if entries.len() == 0 {
        0
    } else if mature_at(entries.last(), tip_daa_score, depths) {
        pending_count(entries.drop_last(), tip_daa_score, depths)
    } else {
        pending_count(entries.drop_last(), tip_daa_score, depths) + 1
    }
}

/// What the tracker reports for these entries.
pub open spec fn balance_matches(
    balance: Balance,
    entries: Seq<UtxoEntry>,
    tip_daa_score: u64,
    depths: Depths,
) -> bool {
    &&& balance.mature == mature_sum(entries, tip_daa_score, depths)
    &&& balance.pending == pending_sum(entries, tip_daa_score, depths)
    &&& balance.total == total_sum(entries)
    &&& balance.pending_count == pending_count(entries, tip_daa_score, depths)
}

/// The balance of these entries as a value.
pub open spec fn reported(entries: Seq<UtxoEntry>, tip_daa_score: u64, depths: Depths) -> Balance {
    Balance {
        mature: mature_sum(entries, tip_daa_score, depths) as u128,
        pending: pending_sum(entries, tip_daa_score, depths) as u128,
        total: total_sum(entries) as u128,
        pending_count: pending_count(entries, tip_daa_score, depths) as usize,
    }
}

/// Whatever the tip and the depths, every amount is counted once: as mature
/// or as pending.
pub proof fn lemma_mature_plus_pending_is_total(
    entries: Seq<UtxoEntry>,
    tip_daa_score: u64,
    depths: Depths,
)
    ensures
        mature_sum(entries, tip_daa_score, depths) + pending_sum(entries, tip_daa_score, depths)
            == total_sum(entries),
        pending_count(entries, tip_daa_score, depths) <= entries.len(),
        total_sum(entries) <= entries.len() * 0xffff_ffff_ffff_ffff,
    decreases entries.len(),
{
    if entries.len() > 0 {
        lemma_mature_plus_pending_is_total(entries.drop_last(), tip_daa_score, depths);
    }
}

/// With both depths at zero nothing at or below the tip is pending.
pub proof fn lemma_depth_zero_leaves_nothing_pending(entries: Seq<UtxoEntry>, tip_daa_score: u64)
    requires
        forall|i: int| 0 <= i < entries.len() ==> (#[trigger] entries[i]).block_daa_score
            <= tip_daa_score,
    ensures
        pending_sum(entries, tip_daa_score, Depths { coinbase: 0, user: 0 }) == 0,
        mature_sum(entries, tip_daa_score, Depths { coinbase: 0, user: 0 }) == total_sum(entries),
    decreases entries.len(),
{
    if entries.len() > 0 {
        let rest = entries.drop_last();
        assert forall|i: int| 0 <= i < rest.len() implies (#[trigger] rest[i]).block_daa_score
            <= tip_daa_score by {
            assert(rest[i] == entries[i]);
        }
        lemma_depth_zero_leaves_nothing_pending(rest, tip_daa_score);
        assert(entries[entries.len() - 1].block_daa_score <= tip_daa_score);
    }
}

/// The balance of a run of entries.
pub fn balance_of_entries(entries: &Vec<UtxoEntry>, tip_daa_score: u64, depths: Depths) -> (balance:
    Balance)
    ensures
        balance_matches(balance, entries@, tip_daa_score, depths),
        balance == reported(entries@, tip_daa_score, depths),
        balance.mature + balance.pending == balance.total,
{
    let mut mature: u128 = 0;
    let mut pending: u128 = 0;
    let mut count: usize = 0;
    let mut i: usize = 0;
    while i < entries.len()
        invariant
            i <= entries.len(),
            mature == mature_sum(entries@.take(i as int), tip_daa_score, depths),
            pending == pending_sum(entries@.take(i as int), tip_daa_score, depths),
            count == pending_count(entries@.take(i as int), tip_daa_score, depths),
        decreases entries.len() - i,
    {
        proof {
            assert(entries@.take(i as int + 1).drop_last() =~= entries@.take(i as int));
            lemma_mature_plus_pending_is_total(entries@.take(i as int), tip_daa_score, depths);
            lemma_mature_plus_pending_is_total(entries@.take(i as int + 1), tip_daa_score, depths);
        }
        let entry = entries[i];
        if is_mature(&entry, tip_daa_score, depths) {
            mature = mature + entry.amount as u128;
        } else {
            pending = pending + entry.amount as u128;
            count = count + 1;
        }
        i += 1;
    }
    proof {
        assert(entries@.take(i as int) =~= entries@);
        lemma_mature_plus_pending_is_total(entries@, tip_daa_score, depths);
    }
    Balance { mature, pending, total: mature + pending, pending_count: count }
}

/// The balance of one address, from its own entries alone.
pub fn balance_of_address(
    index: &UtxoIndex,
    address: Address,
    tip_daa_score: u64,
    depths: Depths,
) -> (balance: Balance)
    ensures
        balance_matches(balance, entries_of(index@, address), tip_daa_score, depths),
        balance == reported(entries_of(index@, address), tip_daa_score, depths),
        balance.mature + balance.pending == balance.total,
{
    let entries = index.snapshot(address);
    balance_of_entries(&entries, tip_daa_score, depths)
}

/// The balance of the whole index.
pub fn aggregate_balance(index: &UtxoIndex, tip_daa_score: u64, depths: Depths) -> (balance:
    Balance)
    ensures
        balance_matches(balance, index@, tip_daa_score, depths),
        balance == reported(index@, tip_daa_score, depths),
        balance.mature + balance.pending == balance.total,
{
    let entries = index.all();
    balance_of_entries(&entries, tip_daa_score, depths)
}

} // verus!
