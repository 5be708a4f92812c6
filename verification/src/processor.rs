//! The processor: it takes the notifications of the node in the order they
//! come, changes the index where the lifecycle allows it, and says which
//! events follow.

use crate::balance::{balance_of_address, reported};
use crate::bus::{
    delivery_matches, empty_table, recipients, table_after_add, table_after_removal, table_without,
    Delivery, EventBus, Listener, Removal,
};
use crate::event::{kind_of, Event, EventKind};
use crate::lifecycle::{
    accepts_notifications, applies_notifications, is_active, next, step, LifecycleAction,
    LifecycleInput, LifecycleState,
};
use crate::maturity::{
    is_mature, mature_at, Depths, MaturityPolicy, NetworkId, TransactionClass,
};
use crate::utxo::{
    after_insert, after_remove, distinct_outpoints, entries_of, has_outpoint,
    lemma_has_outpoint_push, lemma_replay_is_net_effect, net_present, position_of, replay, Change,
    Outpoint, UtxoEntry, UtxoIndex,
};
use vstd::prelude::*;

verus! {

/// What the node reports.
#[derive(Clone, Copy, Debug, PartialEq, Eq, Structural)]
pub enum Notification {
    UtxoAdded(UtxoEntry),
    UtxoRemoved(Outpoint),
    /// The chain was reorganised; the tip now has this DAA score.
    ReorgOccurred(u64),
    ConnectionStateChanged(bool),
}

/// The event of one change: none where the index rejects the change.
pub open spec fn event_of_change(entries: Seq<UtxoEntry>, change: Change) -> Seq<Event> {
    match change {
        Change::Add(entry) => if has_outpoint(entries, entry.outpoint) {
            Seq::empty()
        } else {
            seq![Event::UtxoAdded(entry)]
        },
        Change::Remove(outpoint) => if has_outpoint(entries, outpoint) {
            seq![Event::UtxoRemoved(entries[position_of(entries, outpoint)])]
        } else {
            Seq::empty()
        },
    }
}

/// The events of a run of changes applied in order.
pub open spec fn emitted(entries: Seq<UtxoEntry>, changes: Seq<Change>) -> Seq<Event>
    decreases changes.len(),
{
    if changes.len() == 0 {
        Seq::empty()
    } else {
        emitted(entries, changes.drop_last()) + event_of_change(
            replay(entries, changes.drop_last()),
            changes.last(),
        )
    }
}

/// A removal for each local entry that the remote set lacks, in local order.
pub open spec fn removals(local: Seq<UtxoEntry>, remote: Seq<UtxoEntry>) -> Seq<Change>
    decreases local.len(),
{
    if local.len() == 0 {
        Seq::empty()
    } else {
        let rest = removals(local.drop_last(), remote);
        if has_outpoint(remote, local.last().outpoint) {
            rest
        } else {
            rest.push(Change::Remove(local.last().outpoint))
        }
    }
}

/// An addition for each remote entry that the local index lacks, in remote
/// order.
pub open spec fn additions(local: Seq<UtxoEntry>, remote: Seq<UtxoEntry>) -> Seq<Change>
    decreases remote.len(),
{
    if remote.len() == 0 {
        Seq::empty()
    } else {
        let rest = additions(local, remote.drop_last());
        if has_outpoint(local, remote.last().outpoint) {
            rest
        } else {
            rest.push(Change::Add(remote.last()))
        }
    }
}

/// What tells the kept index from the authoritative set: first what to
/// remove, then what to add.
pub open spec fn differences(local: Seq<UtxoEntry>, remote: Seq<UtxoEntry>) -> Seq<Change> {
    removals(local, remote) + additions(local, remote)
}

/// The entries that a move of the tip makes mature, in index order.
pub open spec fn newly_mature(
    entries: Seq<UtxoEntry>,
    old_tip: u64,
    new_tip: u64,
    depths: Depths,
) -> Seq<Event>
    decreases entries.len(),
{
    if entries.len() == 0 {
        Seq::empty()
    } else {
        let rest = newly_mature(entries.drop_last(), old_tip, new_tip, depths);
        if !mature_at(entries.last(), old_tip, depths) && mature_at(
            entries.last(),
            new_tip,
            depths,
        ) {
            rest.push(Event::MaturityReached(entries.last()))
        } else {
            rest
        }
    }
}

/// A run of changes emits at most one event for each of them.
pub proof fn lemma_at_most_one_event_per_change(entries: Seq<UtxoEntry>, changes: Seq<Change>)
    ensures
        emitted(entries, changes).len() <= changes.len(),
    decreases changes.len(),
{
    if changes.len() > 0 {
        lemma_at_most_one_event_per_change(entries, changes.drop_last());
    }
}

/// Every difference is a real one: what is removed is known here and
/// unknown there, what is added is known there and unknown here.
pub proof fn lemma_differences_are_real(local: Seq<UtxoEntry>, remote: Seq<UtxoEntry>, at: int)
    requires
        0 <= at < differences(local, remote).len(),
    ensures
        match differences(local, remote)[at] {
            Change::Remove(outpoint) => has_outpoint(local, outpoint) && !has_outpoint(
                remote,
                outpoint,
            ),
            Change::Add(entry) => remote.contains(entry) && !has_outpoint(local, entry.outpoint),
        },
{
    lemma_removals_are_real(local, remote);
    lemma_additions_are_real(local, remote);
    let gone = removals(local, remote);
    if at >= gone.len() {
        assert(differences(local, remote)[at] == additions(local, remote)[at - gone.len()]);
    }
}

pub proof fn lemma_removals_are_real(local: Seq<UtxoEntry>, remote: Seq<UtxoEntry>)
    ensures
        removals(local, remote).len() <= local.len(),
        forall|k: int|
            0 <= k < removals(local, remote).len() ==> match #[trigger] removals(local, remote)[k] {
                Change::Remove(outpoint) => has_outpoint(local, outpoint) && !has_outpoint(
                    remote,
                    outpoint,
                ),
                Change::Add(_) => false,
            },
    decreases local.len(),
{
    if local.len() > 0 {
        let front = local.drop_last();
        lemma_removals_are_real(front, remote);
        let all = removals(local, remote);
        assert forall|k: int| 0 <= k < all.len() implies match #[trigger] all[k] {
            Change::Remove(outpoint) => has_outpoint(local, outpoint) && !has_outpoint(
                remote,
                outpoint,
            ),
            Change::Add(_) => false,
        } by {
            if k < removals(front, remote).len() {
                match removals(front, remote)[k] {
                    Change::Remove(outpoint) => {
                        let i = position_of(front, outpoint);
                        assert(local[i].outpoint == outpoint);
                    },
                    Change::Add(_) => {},
                }
            } else {
                assert(local[local.len() - 1].outpoint == local.last().outpoint);
            }
        }
    }
}

pub proof fn lemma_additions_are_real(local: Seq<UtxoEntry>, remote: Seq<UtxoEntry>)
    ensures
        additions(local, remote).len() <= remote.len(),
        forall|k: int|
            0 <= k < additions(local, remote).len() ==> match #[trigger] additions(
                local,
                remote,
            )[k] {
                Change::Add(entry) => remote.contains(entry) && !has_outpoint(
                    local,
                    entry.outpoint,
                ),
                Change::Remove(_) => false,
            },
    decreases remote.len(),
{
    if remote.len() > 0 {
        let front = remote.drop_last();
        lemma_additions_are_real(local, front);
        let all = additions(local, remote);
        assert forall|k: int| 0 <= k < all.len() implies match #[trigger] all[k] {
            Change::Add(entry) => remote.contains(entry) && !has_outpoint(local, entry.outpoint),
            Change::Remove(_) => false,
        } by {
            if k < additions(local, front).len() {
                match additions(local, front)[k] {
                    Change::Add(entry) => {
                        let i = choose|i: int| 0 <= i < front.len() && front[i] == entry;
                        assert(remote[i] == entry);
                    },
                    Change::Remove(_) => {},
                }
            } else {
                assert(remote[remote.len() - 1] == remote.last());
            }
        }
    }
}

/// Where the authoritative set holds the outpoints of the kept index and no
/// others, nothing differs: reconciling changes nothing and emits nothing.
pub proof fn lemma_unchanged_remote_emits_nothing(local: Seq<UtxoEntry>, remote: Seq<UtxoEntry>)
    requires
        forall|i: int| 0 <= i < local.len() ==> has_outpoint(remote, (#[trigger] local[i]).outpoint),
        forall|j: int|
            0 <= j < remote.len() ==> has_outpoint(local, (#[trigger] remote[j]).outpoint),
    ensures
        differences(local, remote) == Seq::<Change>::empty(),
        replay(local, differences(local, remote)) == local,
        emitted(local, differences(local, remote)) == Seq::<Event>::empty(),
{
    lemma_no_removals(local, remote, local.len() as int);
    lemma_no_additions(local, remote, remote.len() as int);
    assert(local.take(local.len() as int) =~= local);
    assert(remote.take(remote.len() as int) =~= remote);
    assert(differences(local, remote) =~= Seq::<Change>::empty());
}

proof fn lemma_no_removals(local: Seq<UtxoEntry>, remote: Seq<UtxoEntry>, upto: int)
    requires
        0 <= upto <= local.len(),
        forall|i: int| 0 <= i < local.len() ==> has_outpoint(remote, (#[trigger] local[i]).outpoint),
    ensures
        removals(local.take(upto), remote).len() == 0,
    decreases upto,
{
    if upto > 0 {
        lemma_no_removals(local, remote, upto - 1);
        assert(local.take(upto).drop_last() =~= local.take(upto - 1));
        assert(local.take(upto).last() == local[upto - 1]);
    }
}

proof fn lemma_no_additions(local: Seq<UtxoEntry>, remote: Seq<UtxoEntry>, upto: int)
    requires
        0 <= upto <= remote.len(),
        forall|j: int|
            0 <= j < remote.len() ==> has_outpoint(local, (#[trigger] remote[j]).outpoint),
    ensures
        additions(local, remote.take(upto)).len() == 0,
    decreases upto,
{
    if upto > 0 {
        lemma_no_additions(local, remote, upto - 1);
        assert(remote.take(upto).drop_last() =~= remote.take(upto - 1));
        assert(remote.take(upto).last() == remote[upto - 1]);
    }
}

/// Over a run of changes followed by another, the second starts from what
/// the first left.
pub proof fn lemma_net_present_concat(
    initially: bool,
    first: Seq<Change>,
    second: Seq<Change>,
    outpoint: Outpoint,
)
    ensures
        net_present(initially, first + second, outpoint) == net_present(
            net_present(initially, first, outpoint),
            second,
            outpoint,
        ),
    decreases second.len(),
{
    if second.len() == 0 {
        assert(first + second =~= first);
    } else {
        lemma_net_present_concat(initially, first, second.drop_last(), outpoint);
        assert((first + second).drop_last() =~= first + second.drop_last());
        assert((first + second).last() == second.last());
    }
}

/// The removals take away what is known here and unknown there, and nothing
/// else.
pub proof fn lemma_net_present_removals(
    initially: bool,
    local: Seq<UtxoEntry>,
    remote: Seq<UtxoEntry>,
    outpoint: Outpoint,
)
    ensures
        net_present(initially, removals(local, remote), outpoint) == (initially && !(has_outpoint(
            local,
            outpoint,
        ) && !has_outpoint(remote, outpoint))),
    decreases local.len(),
{
    if local.len() > 0 {
        let front = local.drop_last();
        lemma_net_present_removals(initially, front, remote, outpoint);
        lemma_has_outpoint_push(front, local.last(), outpoint);
        assert(front.push(local.last()) =~= local);
        if !has_outpoint(remote, local.last().outpoint) {
            let rest = removals(front, remote);
            assert(removals(local, remote).drop_last() =~= rest);
        }
    }
}

/// The additions bring what is known there and unknown here, and nothing
/// else.
pub proof fn lemma_net_present_additions(
    initially: bool,
    local: Seq<UtxoEntry>,
    remote: Seq<UtxoEntry>,
    outpoint: Outpoint,
)
    ensures
        net_present(initially, additions(local, remote), outpoint) == (initially || (has_outpoint(
            remote,
            outpoint,
        ) && !has_outpoint(local, outpoint))),
    decreases remote.len(),
{
    if remote.len() > 0 {
        let front = remote.drop_last();
        lemma_net_present_additions(initially, local, front, outpoint);
        lemma_has_outpoint_push(front, remote.last(), outpoint);
        assert(front.push(remote.last()) =~= remote);
        if !has_outpoint(local, remote.last().outpoint) {
            let rest = additions(local, front);
            assert(additions(local, remote).drop_last() =~= rest);
        }
    }
}

/// After reconciling, the index holds an outpoint exactly where the
/// authoritative set holds it.
pub proof fn lemma_reconciled_matches_remote(
    local: Seq<UtxoEntry>,
    remote: Seq<UtxoEntry>,
    outpoint: Outpoint,
)
    requires
        distinct_outpoints(local),
    ensures
        distinct_outpoints(replay(local, differences(local, remote))),
        has_outpoint(replay(local, differences(local, remote)), outpoint) == has_outpoint(
            remote,
            outpoint,
        ),
{
    let here = has_outpoint(local, outpoint);
    lemma_replay_is_net_effect(local, differences(local, remote), outpoint);
    lemma_net_present_concat(here, removals(local, remote), additions(local, remote), outpoint);
    lemma_net_present_removals(here, local, remote, outpoint);
    lemma_net_present_additions(
        net_present(here, removals(local, remote), outpoint),
        local,
        remote,
        outpoint,
    );
}

proof fn lemma_each_removal_is_announced(local: Seq<UtxoEntry>, remote: Seq<UtxoEntry>, upto: int)
    requires
        distinct_outpoints(local),
        0 <= upto <= local.len(),
    ensures
        emitted(local, removals(local.take(upto), remote)).len() == removals(
            local.take(upto),
            remote,
        ).len(),
    decreases upto,
{
    if upto > 0 {
        lemma_each_removal_is_announced(local, remote, upto - 1);
        let front = local.take(upto - 1);
        let gone = removals(front, remote);
        let outpoint = local[upto - 1].outpoint;
        assert(local.take(upto).drop_last() =~= front);
        assert(local.take(upto).last() == local[upto - 1]);
        if !has_outpoint(remote, outpoint) {
            let all = removals(local.take(upto), remote);
            assert(all.drop_last() =~= gone);
            lemma_replay_is_net_effect(local, gone, outpoint);
            lemma_net_present_removals(has_outpoint(local, outpoint), front, remote, outpoint);
            assert(has_outpoint(local, outpoint));
            if has_outpoint(front, outpoint) {
                let i = position_of(front, outpoint);
                assert(local[i].outpoint != local[upto - 1].outpoint);
            }
        }
    }
}

proof fn lemma_each_addition_is_announced(local: Seq<UtxoEntry>, remote: Seq<UtxoEntry>, upto: int)
    requires
        distinct_outpoints(local),
        distinct_outpoints(remote),
        0 <= upto <= remote.len(),
    ensures
        emitted(local, removals(local, remote) + additions(local, remote.take(upto))).len()
            == removals(local, remote).len() + additions(local, remote.take(upto)).len(),
    decreases upto,
{
    let gone = removals(local, remote);
    if upto == 0 {
        lemma_each_removal_is_announced(local, remote, local.len() as int);
        assert(local.take(local.len() as int) =~= local);
        assert(gone + additions(local, remote.take(0)) =~= gone);
    } else {
        lemma_each_addition_is_announced(local, remote, upto - 1);
        let front = remote.take(upto - 1);
        let come = additions(local, front);
        let entry = remote[upto - 1];
        assert(remote.take(upto).drop_last() =~= front);
        assert(remote.take(upto).last() == entry);
        if !has_outpoint(local, entry.outpoint) {
            let all = gone + additions(local, remote.take(upto));
            assert(all.drop_last() =~= gone + come);
            assert(all.last() == Change::Add(entry));
            lemma_replay_is_net_effect(local, gone + come, entry.outpoint);
            lemma_net_present_concat(false, gone, come, entry.outpoint);
            lemma_net_present_removals(false, local, remote, entry.outpoint);
            lemma_net_present_additions(false, local, front, entry.outpoint);
            if has_outpoint(front, entry.outpoint) {
                let i = position_of(front, entry.outpoint);
                assert(remote[i].outpoint != remote[upto - 1].outpoint);
            }
        }
    }
}

/// Reconciling announces every difference, each with one event: as many
/// events as there are differences, and no more.
pub proof fn lemma_one_event_per_difference(local: Seq<UtxoEntry>, remote: Seq<UtxoEntry>)
    requires
        distinct_outpoints(local),
        distinct_outpoints(remote),
    ensures
        emitted(local, differences(local, remote)).len() == differences(local, remote).len(),
{
    lemma_each_addition_is_announced(local, remote, remote.len() as int);
    assert(remote.take(remote.len() as int) =~= remote);
}

/// Some entry of the run has this outpoint.
pub fn holds_outpoint(entries: &Vec<UtxoEntry>, outpoint: Outpoint) -> (found: bool)
    ensures
        found == has_outpoint(entries@, outpoint),
{
    let mut i: usize = 0;
    while i < entries.len()
        invariant
            i <= entries.len(),
            forall|k: int| 0 <= k < i ==> (#[trigger] entries@[k]).outpoint != outpoint,
        decreases entries.len() - i,
    {
        if entries[i].outpoint == outpoint {
            return true;
        }
        i += 1;
    }
    false
}

/// Applies a run of changes in order and gathers the events of those that
/// the index took.
pub fn apply_changes(index: &mut UtxoIndex, changes: &Vec<Change>) -> (events: Vec<Event>)
    requires
        old(index).wf(),
    ensures
        final(index).wf(),
        final(index)@ == replay(old(index)@, changes@),
        events@ == emitted(old(index)@, changes@),
{
    let mut events: Vec<Event> = Vec::new();
    let mut i: usize = 0;
    while i < changes.len()
        invariant
            i <= changes.len(),
            index.wf(),
            index@ == replay(old(index)@, changes@.take(i as int)),
            events@ == emitted(old(index)@, changes@.take(i as int)),
        decreases changes.len() - i,
    {
        proof {
            assert(changes@.take(i as int + 1).drop_last() =~= changes@.take(i as int));
        }
        match changes[i] {
            Change::Add(entry) => {
                if index.insert(entry).is_ok() {
                    events.push(Event::UtxoAdded(entry));
                }
            },
            Change::Remove(outpoint) => {
                match index.remove(outpoint) {
                    Ok(entry) => {
                        events.push(Event::UtxoRemoved(entry));
                    },
                    Err(_) => {},
                }
            },
        }
        proof {
            let before = replay(old(index)@, changes@.take(i as int));
            let so_far = emitted(old(index)@, changes@.take(i as int));
            assert(events@ =~= so_far + event_of_change(before, changes@[i as int]));
        }
        i += 1;
    }
    proof {
        assert(changes@.take(i as int) =~= changes@);
    }
    events
}

/// What tells the index from the authoritative set.
pub fn differences_with(index: &UtxoIndex, remote: &Vec<UtxoEntry>) -> (changes: Vec<Change>)
    ensures
        changes@ == differences(index@, remote@),
{
    let local = index.all();
    let mut changes: Vec<Change> = Vec::new();
    let mut i: usize = 0;
    while i < local.len()
        invariant
            i <= local.len(),
            changes@ == removals(local@.take(i as int), remote@),
        decreases local.len() - i,
    {
        proof {
            assert(local@.take(i as int + 1).drop_last() =~= local@.take(i as int));
        }
        if !holds_outpoint(remote, local[i].outpoint) {
            changes.push(Change::Remove(local[i].outpoint));
        }
        i += 1;
    }
    proof {
        assert(local@.take(i as int) =~= local@);
    }
    let mut j: usize = 0;
    while j < remote.len()
        invariant
            j <= remote.len(),
            local@ == index@,
            changes@ == removals(local@, remote@) + additions(local@, remote@.take(j as int)),
        decreases remote.len() - j,
    {
        proof {
            assert(remote@.take(j as int + 1).drop_last() =~= remote@.take(j as int));
        }
        let ghost before = changes@;
        if !holds_outpoint(&local, remote[j].outpoint) {
            changes.push(Change::Add(remote[j]));
        }
        proof {
            assert(changes@ =~= removals(local@, remote@) + additions(
                local@,
                remote@.take(j as int + 1),
            ));
        }
        j += 1;
    }
    proof {
        assert(remote@.take(j as int) =~= remote@);
    }
    changes
}

/// Brings the kept index in line with the authoritative set after a
/// reconnect: only what differs is changed, and only that is announced.
pub fn reconcile(index: &mut UtxoIndex, remote: &Vec<UtxoEntry>) -> (events: Vec<Event>)
    requires
        old(index).wf(),
    ensures
        final(index).wf(),
        final(index)@ == replay(old(index)@, differences(old(index)@, remote@)),
        events@ == emitted(old(index)@, differences(old(index)@, remote@)),
{
    let changes = differences_with(index, remote);
    apply_changes(index, &changes)
}

/// The index after a step of the lifecycle: emptied where the step ends in
/// the idle state, else as it was.
pub open spec fn index_after_step(
    state: LifecycleState,
    entries: Seq<UtxoEntry>,
    input: LifecycleInput,
) -> Seq<UtxoEntry> {
    if next(state, input).state == LifecycleState::Idle {
        Seq::empty()
    } else {
        entries
    }
}

/// The index after a notification.
pub open spec fn index_after(
    state: LifecycleState,
    entries: Seq<UtxoEntry>,
    notification: Notification,
) -> Seq<UtxoEntry> {
    match notification {
        Notification::ConnectionStateChanged(connected) => index_after_step(
            state,
            entries,
            input_of(connected),
        ),
        Notification::UtxoAdded(entry) => if accepts_notifications(state) {
            after_insert(entries, entry)
        } else {
            entries
        },
        Notification::UtxoRemoved(outpoint) => if accepts_notifications(state) {
            after_remove(entries, outpoint)
        } else {
            entries
        },
        Notification::ReorgOccurred(_) => entries,
    }
}

/// The tip after a notification.
pub open spec fn tip_after(state: LifecycleState, tip: u64, notification: Notification) -> u64 {
    match notification {
        Notification::ReorgOccurred(new_tip) => if accepts_notifications(state) {
            new_tip
        } else {
            tip
        },
        _ => tip,
    }
}

/// The lifecycle input that a notification stands for.
pub open spec fn input_of(connected: bool) -> LifecycleInput {
    if connected {
        LifecycleInput::TransportReady
    } else {
        LifecycleInput::TransportLost
    }
}

/// The state after a notification.
pub open spec fn state_after(state: LifecycleState, notification: Notification) -> LifecycleState {
    match notification {
        Notification::ConnectionStateChanged(connected) => next(state, input_of(connected)).state,
        _ => state,
    }
}

/// What a notification asks the caller to carry out.
pub open spec fn action_after(state: LifecycleState, notification: Notification) -> LifecycleAction {
    match notification {
        Notification::ConnectionStateChanged(connected) => next(state, input_of(connected)).action,
        _ => LifecycleAction::Nothing,
    }
}

/// The events of a notification. A change of the index is announced with
/// the new balance of its address; a move of the tip with the entries it
/// made mature; a change of the connection unless the processor has
/// stopped. Outside the steady state the other notifications are dropped.
pub open spec fn events_after(
    state: LifecycleState,
    entries: Seq<UtxoEntry>,
    tip: u64,
    notification: Notification,
    depths: Depths,
) -> Seq<Event> {
    match notification {
        Notification::ConnectionStateChanged(connected) => if state == LifecycleState::Stopped {
            Seq::empty()
        } else if connected {
            seq![Event::Connect]
        } else {
            seq![Event::Disconnect]
        },
        Notification::UtxoAdded(entry) => if accepts_notifications(state) && !has_outpoint(
            entries,
            entry.outpoint,
        ) {
            seq![
                Event::UtxoAdded(entry),
                Event::BalanceChanged {
                    address: entry.address,
                    balance: reported(
                        entries_of(after_insert(entries, entry), entry.address),
                        tip,
                        depths,
                    ),
                },
            ]
        } else {
            Seq::empty()
        },
        Notification::UtxoRemoved(outpoint) => if accepts_notifications(state) && has_outpoint(
            entries,
            outpoint,
        ) {
            let entry = entries[position_of(entries, outpoint)];
            seq![
                Event::UtxoRemoved(entry),
                Event::BalanceChanged {
                    address: entry.address,
                    balance: reported(
                        entries_of(after_remove(entries, outpoint), entry.address),
                        tip,
                        depths,
                    ),
                },
            ]
        } else {
            Seq::empty()
        },
        Notification::ReorgOccurred(new_tip) => if accepts_notifications(state) {
            seq![Event::DaaScoreChanged(new_tip)] + newly_mature(entries, tip, new_tip, depths)
        } else {
            Seq::empty()
        },
    }
}

/// The targets of a registration: those named, or the wildcard alone.
pub open spec fn targets_or_all(targets: Option<&Vec<EventKind>>) -> Seq<EventKind> {
    match targets {
        Some(kinds) => kinds@,
        None => seq![EventKind::All],
    }
}

/// What came of one notification.
pub struct Ingested {
    pub events: Vec<Event>,
    pub action: LifecycleAction,
}

/// The processor of one network: the index, the lifecycle, the chain tip it
/// knows, and the listeners to its events.
pub struct PyUtxoProcessor {
    pub index: UtxoIndex,
    pub state: LifecycleState,
    pub tip_daa_score: u64,
    pub network: Option<NetworkId>,
    pub callbacks: EventBus,
}

impl PyUtxoProcessor {
    /// The index stores no outpoint twice and is empty while the processor
    /// is idle, and the listener table refers to registered listeners only.
    pub open spec fn wf(&self) -> bool {
        &&& self.index.wf()
        &&& self.callbacks.wf()
        &&& self.state == LifecycleState::Idle ==> self.index@.len() == 0
    }

    /// An idle processor with an empty index and no listener.
    pub fn ctor(network_id: NetworkId) -> (processor: PyUtxoProcessor)
        ensures
            processor.wf(),
            processor.index@ == Seq::<UtxoEntry>::empty(),
            processor.state == LifecycleState::Idle,
            processor.tip_daa_score == 0,
            processor.network == Some(network_id),
            processor.callbacks.table() == empty_table(),
            processor.callbacks.listeners() == Seq::<Listener>::empty(),
    {
        PyUtxoProcessor {
            index: UtxoIndex::new(),
            state: LifecycleState::Idle,
            tip_daa_score: 0,
            network: Some(network_id),
            callbacks: EventBus::new(),
        }
    }

    /// The network of the processor, where one is set.
    pub fn get_network_id(&self) -> (network: Option<NetworkId>)
        ensures
            network == self.network,
    {
        self.network
    }

    pub fn set_network_id(&mut self, network_id: NetworkId)
        ensures
            old(self).wf() ==> final(self).wf(),
            final(self).network == Some(network_id),
            final(self).index == old(self).index,
            final(self).state == old(self).state,
            final(self).tip_daa_score == old(self).tip_daa_score,
            final(self).callbacks == old(self).callbacks,
    {
        self.network = Some(network_id);
    }

    /// Sets the depth that coinbase outputs need on a network.
    pub fn set_coinbase_transaction_maturity_daa(
        policy: &mut MaturityPolicy,
        network_id: NetworkId,
        value: u64,
    )
        ensures
            final(policy).depth(network_id, TransactionClass::Coinbase) == value,
            forall|other: NetworkId, class: TransactionClass|
                other != network_id || class != TransactionClass::Coinbase
                    ==> #[trigger] final(policy).depth(other, class)
                    == old(policy).depth(other, class),
    {
        policy.set_required_confirmations(network_id, TransactionClass::Coinbase, value);
    }

    /// Sets the depth that outputs of user transactions need on a network.
    pub fn set_user_transaction_maturity_daa(
        policy: &mut MaturityPolicy,
        network_id: NetworkId,
        value: u64,
    )
        ensures
            final(policy).depth(network_id, TransactionClass::User) == value,
            forall|other: NetworkId, class: TransactionClass|
                other != network_id || class != TransactionClass::User
                    ==> #[trigger] final(policy).depth(other, class)
                    == old(policy).depth(other, class),
    {
        policy.set_required_confirmations(network_id, TransactionClass::User, value);
    }

    /// Whether the processor is connected and running: the transport
    /// reports a connection and the processor is in its steady state.
    pub fn get_is_active(&self, transport_connected: Option<bool>) -> (active: bool)
        ensures
            active == (transport_connected == Some(true) && self.state == LifecycleState::Active),
    {
        let subscribed = applies_notifications(self.state);
        let running = self.state != LifecycleState::Idle && self.state != LifecycleState::Stopped;
        is_active(transport_connected, subscribed, running)
    }

    /// Hands one input to the lifecycle and says what to carry out. A start
    /// that failed leaves the processor idle, with an empty index.
    pub fn handle(&mut self, input: LifecycleInput) -> (action: LifecycleAction)
        requires
            old(self).wf(),
        ensures
            final(self).wf(),
            final(self).state == next(old(self).state, input).state,
            action == next(old(self).state, input).action,
            final(self).index@ == index_after_step(old(self).state, old(self).index@, input),
            final(self).tip_daa_score == old(self).tip_daa_score,
            final(self).network == old(self).network,
            final(self).callbacks == old(self).callbacks,
    {
        let transition = step(self.state, input);
        self.state = transition.state;
        if transition.state == LifecycleState::Idle {
            self.index.clear();
        }
        transition.action
    }

    /// Starts the processor. A processor that is started stays as it is.
    pub fn start(&mut self) -> (action: LifecycleAction)
        requires
            old(self).wf(),
        ensures
            final(self).wf(),
            final(self).state == next(old(self).state, LifecycleInput::Start).state,
            action == next(old(self).state, LifecycleInput::Start).action,
            final(self).index@ == old(self).index@,
            final(self).tip_daa_score == old(self).tip_daa_score,
            final(self).network == old(self).network,
            final(self).callbacks == old(self).callbacks,
    {
        self.handle(LifecycleInput::Start)
    }

    /// Stops the processor for good. A processor that is stopped stays as
    /// it is.
    pub fn stop(&mut self) -> (action: LifecycleAction)
        requires
            old(self).wf(),
        ensures
            final(self).wf(),
            final(self).state == LifecycleState::Stopped,
            action == next(old(self).state, LifecycleInput::Stop).action,
            final(self).index@ == old(self).index@,
            final(self).tip_daa_score == old(self).tip_daa_score,
            final(self).network == old(self).network,
            final(self).callbacks == old(self).callbacks,
    {
        self.handle(LifecycleInput::Stop)
    }

    /// Registers a callback for every target, in the order given; where no
    /// target is named, for all events.
    pub fn add_event_listener(
        &mut self,
        targets: Option<&Vec<EventKind>>,
        callback: u64,
        args: Vec<u64>,
        kwargs: Vec<u64>,
    ) -> (handle: u64)
        requires
            old(self).wf(),
        ensures
            final(self).wf(),
            handle == old(self).callbacks.listeners().len(),
            final(self).callbacks.listeners() == old(self).callbacks.listeners().push(
                (Listener { callback, args, keywords: kwargs }),
            ),
            final(self).callbacks.table() == table_after_add(
                old(self).callbacks.table(),
                targets_or_all(targets),
                handle,
            ),
            final(self).index == old(self).index,
            final(self).state == old(self).state,
            final(self).tip_daa_score == old(self).tip_daa_score,
            final(self).network == old(self).network,
    {
        match targets {
            Some(kinds) => self.callbacks.add_listener(kinds, callback, args, kwargs),
            None => {
                let mut all: Vec<EventKind> = Vec::new();
                all.push(EventKind::All);
                proof {
                    assert(all@ =~= seq![EventKind::All]);
                }
                self.callbacks.add_listener(&all, callback, args, kwargs)
            },
        }
    }

    /// Removes listeners. Without targets the callback leaves every kind.
    /// With targets the removal goes by target: see
    /// [`EventBus::remove_listener`].
    pub fn remove_event_listener(&mut self, targets: Option<&Vec<EventKind>>, callback: Option<u64>)
        requires
            old(self).wf(),
        ensures
            final(self).wf(),
            final(self).callbacks.listeners() == old(self).callbacks.listeners(),
            final(self).callbacks.table() == match (targets, callback) {
                (Some(kinds), _) => table_after_removal(
                    old(self).callbacks.table(),
                    old(self).callbacks.listeners(),
                    kinds@,
                    callback,
                ),
                (None, Some(id)) => table_without(
                    old(self).callbacks.table(),
                    old(self).callbacks.listeners(),
                    Removal::Callback(id),
                ),
                (None, None) => old(self).callbacks.table(),
            },
            final(self).index == old(self).index,
            final(self).state == old(self).state,
            final(self).tip_daa_score == old(self).tip_daa_score,
            final(self).network == old(self).network,
    {
        match targets {
            Some(kinds) => {
                self.callbacks.remove_listener(kinds, callback);
            },
            None => {
                match callback {
                    Some(id) => {
                        self.callbacks.remove_callback(id);
                    },
                    None => {},
                }
            },
        }
    }

    /// Removes every listener.
    pub fn remove_all_event_listeners(&mut self)
        requires
            old(self).wf(),
        ensures
            final(self).wf(),
            final(self).callbacks.listeners() == old(self).callbacks.listeners(),
            final(self).callbacks.table() == empty_table(),
            final(self).index == old(self).index,
            final(self).state == old(self).state,
            final(self).tip_daa_score == old(self).tip_daa_score,
            final(self).network == old(self).network,
    {
        self.callbacks.remove_all_listeners();
    }

    /// The calls that publishing `event` asks for, in calling order; none
    /// once the processor has stopped.
    pub fn publish(&self, event: Event) -> (deliveries: Vec<Delivery>)
        requires
            self.wf(),
        ensures
            deliveries@.len() == if self.state == LifecycleState::Stopped {
                0
            } else {
                recipients(self.callbacks.table(), kind_of(event)).len()
            },
            forall|i: int|
                0 <= i < deliveries@.len() ==> delivery_matches(
                    #[trigger] deliveries@[i],
                    self.callbacks.listeners(),
                    recipients(self.callbacks.table(), kind_of(event))[i],
                    event,
                ),
    {
        if self.state == LifecycleState::Stopped {
            Vec::new()
        } else {
            self.callbacks.publish(event)
        }
    }

    /// The events for the entries that the move of the tip made mature.
    fn matured(&self, old_tip: u64, new_tip: u64, depths: Depths) -> (events: Vec<Event>)
        ensures
            events@ == newly_mature(self.index@, old_tip, new_tip, depths),
    {
        let entries = self.index.all();
        let mut events: Vec<Event> = Vec::new();
        let mut i: usize = 0;
        while i < entries.len()
            invariant
                i <= entries.len(),
                events@ == newly_mature(entries@.take(i as int), old_tip, new_tip, depths),
            decreases entries.len() - i,
        {
            proof {
                assert(entries@.take(i as int + 1).drop_last() =~= entries@.take(i as int));
            }
            let entry = entries[i];
            if !is_mature(&entry, old_tip, depths) && is_mature(&entry, new_tip, depths) {
                events.push(Event::MaturityReached(entry));
            }
            i += 1;
        }
        proof {
            assert(entries@.take(i as int) =~= entries@);
        }
        events
    }

    /// Takes one notification of the node.
    pub fn ingest(&mut self, notification: Notification, depths: Depths) -> (out: Ingested)
        requires
            old(self).wf(),
        ensures
            final(self).wf(),
            final(self).network == old(self).network,
            final(self).callbacks == old(self).callbacks,
            final(self).index@ == index_after(old(self).state, old(self).index@, notification),
            final(self).tip_daa_score == tip_after(
                old(self).state,
                old(self).tip_daa_score,
                notification,
            ),
            final(self).state == state_after(old(self).state, notification),
            out.action == action_after(old(self).state, notification),
            out.events@ == events_after(
                old(self).state,
                old(self).index@,
                old(self).tip_daa_score,
                notification,
                depths,
            ),
    {
        let mut events: Vec<Event> = Vec::new();
        let mut action = LifecycleAction::Nothing;
        match notification {
            Notification::ConnectionStateChanged(connected) => {
                if self.state != LifecycleState::Stopped {
                    if connected {
                        events.push(Event::Connect);
                    } else {
                        events.push(Event::Disconnect);
                    }
                }
                let input = if connected {
                    LifecycleInput::TransportReady
                } else {
                    LifecycleInput::TransportLost
                };
                action = self.handle(input);
            },
            Notification::UtxoAdded(entry) => {
                if applies_notifications(self.state) {
                    if self.index.insert(entry).is_ok() {
                        events.push(Event::UtxoAdded(entry));
                        let balance = balance_of_address(
                            &self.index,
                            entry.address,
                            self.tip_daa_score,
                            depths,
                        );
                        events.push(Event::BalanceChanged { address: entry.address, balance });
                    }
                }
            },
            Notification::UtxoRemoved(outpoint) => {
                if applies_notifications(self.state) {
                    match self.index.remove(outpoint) {
                        Ok(entry) => {
                            events.push(Event::UtxoRemoved(entry));
                            let balance = balance_of_address(
                                &self.index,
                                entry.address,
                                self.tip_daa_score,
                                depths,
                            );
                            events.push(Event::BalanceChanged { address: entry.address, balance });
                        },
                        Err(_) => {},
                    }
                }
            },
            Notification::ReorgOccurred(new_tip) => {
                if applies_notifications(self.state) {
                    events.push(Event::DaaScoreChanged(new_tip));
                    let mut matured = self.matured(self.tip_daa_score, new_tip, depths);
                    events.append(&mut matured);
                    self.tip_daa_score = new_tip;
                }
            },
        }
        proof {
            assert(events@ =~= events_after(
                old(self).state,
                old(self).index@,
                old(self).tip_daa_score,
                notification,
                depths,
            ));
        }
        Ingested { events, action }
    }
}

} // verus!
