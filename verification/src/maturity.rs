//! The maturity policy: how many DAA-score units an output must lie below
//! the chain tip before it counts as spendable.

use crate::utxo::UtxoEntry;
use vstd::prelude::*;

verus! {

#[derive(Clone, Copy, Debug, PartialEq, Eq, Structural)]
pub enum NetworkType {
    Mainnet,
    Testnet,
    Devnet,
    Simnet,
}

/// A network: its type and the numeric suffix that tells test networks apart
/// (zero where the network has none).
#[derive(Clone, Copy, Debug, PartialEq, Eq, Structural)]
pub struct NetworkId {
    pub network_type: NetworkType,
    pub suffix: u32,
}

#[derive(Clone, Copy, Debug, PartialEq, Eq, Structural)]
pub enum TransactionClass {
    Coinbase,
    User,
}

/// One setting of the policy.
#[derive(Clone, Copy, Debug, PartialEq, Eq, Structural)]
pub struct DepthRule {
    pub network: NetworkId,
    pub class: TransactionClass,
    pub depth: u64,
}

/// The two depths that hold on one network.
#[derive(Clone, Copy, Debug, PartialEq, Eq, Structural)]
pub struct Depths {
    pub coinbase: u64,
    pub user: u64,
}

pub const DEFAULT_COINBASE_DEPTH: u64 = 100;

pub const DEFAULT_USER_DEPTH: u64 = 10;

pub const FAST_NETWORK_SUFFIX: u32 = 11;

pub const FAST_COINBASE_DEPTH: u64 = 1000;

pub const FAST_USER_DEPTH: u64 = 100;

/// The network that produces blocks at the higher rate.
pub open spec fn is_fast_network(network: NetworkId) -> bool {
    network.network_type == NetworkType::Testnet && network.suffix == FAST_NETWORK_SUFFIX
}

/// The depth a network starts with.
pub open spec fn default_depth(network: NetworkId, class: TransactionClass) -> u64 {
    match class {
        TransactionClass::Coinbase => if is_fast_network(network) {
            FAST_COINBASE_DEPTH
        } else {
            DEFAULT_COINBASE_DEPTH
        },
        TransactionClass::User => if is_fast_network(network) {
            FAST_USER_DEPTH
        } else {
            DEFAULT_USER_DEPTH
        },
    }
}

/// A rule speaks of this class on this network.
pub open spec fn rule_is_for(rule: DepthRule, network: NetworkId, class: TransactionClass) -> bool {
    rule.network == network && rule.class == class
}

/// The depth in force: that of the latest rule for the pair, else the
/// default.
pub open spec fn depth_in_force(
    rules: Seq<DepthRule>,
    network: NetworkId,
    class: TransactionClass,
) -> u64
    decreases rules.len(),
{
    if rules.len() == 0 {
        default_depth(network, class)
    } else if rules.last().network == network && rules.last().class == class {
        rules.last().depth
    } else {
        depth_in_force(rules.drop_last(), network, class)
    }
}

pub open spec fn class_of(entry: UtxoEntry) -> TransactionClass {
    if entry.is_coinbase {
        TransactionClass::Coinbase
    } else {
        TransactionClass::User
    }
}

pub open spec fn depth_for(entry: UtxoEntry, depths: Depths) -> u64 {
    if entry.is_coinbase {
        depths.coinbase
    } else {
        depths.user
    }
}

/// An output is mature once the tip has moved the required depth past the
/// block that holds it.
pub open spec fn mature_at(entry: UtxoEntry, tip_daa_score: u64, depths: Depths) -> bool {
    tip_daa_score - entry.block_daa_score >= depth_for(entry, depths)
}

/// Depth zero: whatever the tip has reached is mature.
pub proof fn lemma_depth_zero_is_mature(entry: UtxoEntry, tip_daa_score: u64, depths: Depths)
    requires
        depth_for(entry, depths) == 0,
        entry.block_daa_score <= tip_daa_score,
    ensures
        mature_at(entry, tip_daa_score, depths),
{
}

/// Maturity only grows with the tip.
pub proof fn lemma_maturity_is_monotonic(
    entry: UtxoEntry,
    earlier_tip: u64,
    later_tip: u64,
    depths: Depths,
)
    requires
        earlier_tip <= later_tip,
        mature_at(entry, earlier_tip, depths),
    ensures
        mature_at(entry, later_tip, depths),
{
}

pub fn is_mature(entry: &UtxoEntry, tip_daa_score: u64, depths: Depths) -> (mature: bool)
    ensures
        mature == mature_at(*entry, tip_daa_score, depths),
{
    let depth: u64 = if entry.is_coinbase {
        depths.coinbase
    } else {
        depths.user
    };
    tip_daa_score >= entry.block_daa_score && tip_daa_score - entry.block_daa_score >= depth
}

/// Replacing the latest rule of a pair changes the depth of that pair and
/// of no other.
pub proof fn lemma_depth_after_replacement(
    rules: Seq<DepthRule>,
    at: int,
    rule: DepthRule,
    network: NetworkId,
    class: TransactionClass,
)
    requires
        0 <= at < rules.len(),
        rule_is_for(rules[at], rule.network, rule.class),
        forall|k: int| at < k < rules.len() ==> !rule_is_for(#[trigger] rules[k], rule.network, rule.class),
    ensures
        depth_in_force(rules.update(at, rule), network, class) == if rule_is_for(
            rule,
            network,
            class,
        ) {
            rule.depth
        } else {
            depth_in_force(rules, network, class)
        },
    decreases rules.len(),
{
    let changed = rules.update(at, rule);
    if at == rules.len() - 1 {
        assert(changed.drop_last() =~= rules.drop_last());
    } else {
        assert(changed.drop_last() =~= rules.drop_last().update(at, rule));
        assert(changed.last() == rules.last());
        assert(!rule_is_for(rules[rules.len() - 1], rule.network, rule.class));
        lemma_depth_after_replacement(rules.drop_last(), at, rule, network, class);
    }
}

/// The policy of a process: at most one rule for a class on a network
/// decides, the latest.
pub struct MaturityPolicy {
    rules: Vec<DepthRule>,
}

impl View for MaturityPolicy {
    type V = Seq<DepthRule>;

    closed spec fn view(&self) -> Seq<DepthRule> {
        self.rules@
    }
}

impl MaturityPolicy {
    /// The depth this policy asks of a class on a network.
    pub open spec fn depth(&self, network: NetworkId, class: TransactionClass) -> u64 {
        depth_in_force(self@, network, class)
    }

    /// A policy that holds the defaults only.
    pub fn new() -> (policy: MaturityPolicy)
        ensures
            policy@ == Seq::<DepthRule>::empty(),
            forall|network: NetworkId, class: TransactionClass| #[trigger]
                policy.depth(network, class) == default_depth(network, class),
    {
        MaturityPolicy { rules: Vec::new() }
    }

    /// Sets the depth of one class on one network. Every other pair keeps
    /// its depth, and the new depth holds for all entries from now on.
    pub fn set_required_confirmations(
        &mut self,
        network: NetworkId,
        class: TransactionClass,
        depth: u64,
    )
        ensures
            final(self).depth(network, class) == depth,
            forall|other: NetworkId, other_class: TransactionClass|
                other != network || other_class != class ==> #[trigger] final(self).depth(
                    other,
                    other_class,
                ) == old(self).depth(other, other_class),
    {
        let ghost before = self.rules@;
        let rule = DepthRule { network, class, depth };
        let mut i: usize = self.rules.len();
        while i > 0
            invariant
                i <= self.rules.len(),
                self.rules@ == before,
                before == old(self)@,
                rule == (DepthRule { network, class, depth }),
                forall|k: int| i <= k < before.len() ==> !rule_is_for(#[trigger] before[k], network, class),
            decreases i,
        {
            let known = self.rules[i - 1];
            if known.network == network && known.class == class {
                let ghost at: int = i - 1;
                assert(before[at] == known);
                assert(rule_is_for(before[at], rule.network, rule.class));
                self.rules.set(i - 1, rule);
                proof {
                    assert(self.rules@ =~= before.update(at, rule));
                    lemma_depth_after_replacement(before, at, rule, network, class);
                    assert forall|other: NetworkId, other_class: TransactionClass|
                        other != network || other_class != class implies #[trigger] self.depth(
                        other,
                        other_class,
                    ) == old(self).depth(other, other_class) by {
                        lemma_depth_after_replacement(before, at, rule, other, other_class);
                    }
                }
                return ;
            }
            i -= 1;
        }
        self.rules.push(rule);
        proof {
            assert(self.rules@.drop_last() =~= before);
        }
    }

    pub fn required_confirmations(&self, network: NetworkId, class: TransactionClass) -> (depth:
        u64)
        ensures
            depth == self.depth(network, class),
    {
        let mut i: usize = self.rules.len();
        proof {
            assert(self.rules@.take(i as int) =~= self.rules@);
        }
        while i > 0
            invariant
                i <= self.rules.len(),
                depth_in_force(self.rules@, network, class) == depth_in_force(
                    self.rules@.take(i as int),
                    network,
                    class,
                ),
            decreases i,
        {
            let rule = self.rules[i - 1];
            proof {
                assert(self.rules@.take(i as int).drop_last() =~= self.rules@.take(i as int - 1));
            }
            if rule.network == network && rule.class == class {
                return rule.depth;
            }
            i -= 1;
        }
        proof {
            assert(self.rules@.take(0).len() == 0);
        }
        if network.network_type == NetworkType::Testnet && network.suffix == FAST_NETWORK_SUFFIX {
            match class {
                TransactionClass::Coinbase => FAST_COINBASE_DEPTH,
                TransactionClass::User => FAST_USER_DEPTH,
            }
        } else {
            match class {
                TransactionClass::Coinbase => DEFAULT_COINBASE_DEPTH,
                TransactionClass::User => DEFAULT_USER_DEPTH,
            }
        }
    }

    /// Both depths of one network.
    pub fn depths(&self, network: NetworkId) -> (depths: Depths)
        ensures
            depths.coinbase == self.depth(network, TransactionClass::Coinbase),
            depths.user == self.depth(network, TransactionClass::User),
    {
        Depths {
            coinbase: self.required_confirmations(network, TransactionClass::Coinbase),
            user: self.required_confirmations(network, TransactionClass::User),
        }
    }
}

} // verus!
