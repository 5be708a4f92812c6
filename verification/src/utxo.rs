//! The UTXO index: unspent outputs keyed by outpoint, kept in insertion order,
//! and beside them, for each address, the outpoints it owns.

use vstd::prelude::*;

verus! {

/// Identifier of a transaction output: the 256-bit transaction id, held as
/// two halves, and the position of the output in that transaction.
#[derive(Clone, Copy, Debug, PartialEq, Eq, Structural)]
pub struct Outpoint {
    pub transaction_id_high: u128,
    pub transaction_id_low: u128,
    pub index: u32,
}

/// A tracked address, by the identifier the wallet assigned to it.
#[derive(Clone, Copy, Debug, PartialEq, Eq, Structural)]
pub struct Address {
    pub id: u64,
}

/// One unspent output as the chain reported it.
#[derive(Clone, Copy, Debug, PartialEq, Eq, Structural)]
pub struct UtxoEntry {
    pub outpoint: Outpoint,
    pub address: Address,
    pub amount: u64,
    pub block_daa_score: u64,
    pub is_coinbase: bool,
}

/// Why an index mutation was rejected.
#[derive(Clone, Copy, Debug, PartialEq, Eq, Structural)]
pub enum IndexError {
    DuplicateOutpoint,
    NotFound,
}

/// A mutation of the index as a notification reports it.
#[derive(Clone, Copy, Debug, PartialEq, Eq, Structural)]
pub enum Change {
    Add(UtxoEntry),
    Remove(Outpoint),
}

/// Some entry of `entries` has this outpoint.
pub open spec fn has_outpoint(entries: Seq<UtxoEntry>, outpoint: Outpoint) -> bool {
    exists|i: int| 0 <= i < entries.len() && (#[trigger] entries[i]).outpoint == outpoint
}

/// No outpoint occurs twice.
pub open spec fn distinct_outpoints(entries: Seq<UtxoEntry>) -> bool {
    forall|i: int, j: int|
        0 <= i < j < entries.len() ==> (#[trigger] entries[i]).outpoint != (
        #[trigger] entries[j]).outpoint
}

/// Where the entry with this outpoint stands, if there is one.
pub open spec fn position_of(entries: Seq<UtxoEntry>, outpoint: Outpoint) -> int {
    choose|i: int| 0 <= i < entries.len() && (#[trigger] entries[i]).outpoint == outpoint
}

/// The entries owned by `address`, in insertion order.
pub open spec fn entries_of(entries: Seq<UtxoEntry>, address: Address) -> Seq<UtxoEntry>
    decreases entries.len(),
{
    if entries.len() == 0 {
        Seq::empty()
    } else {
        let rest = entries_of(entries.drop_last(), address);
        if entries.last().address == address {
            rest.push(entries.last())
        } else {
            rest
        }
    }
}

/// The outpoints that the address entry of `address` refers to.
pub open spec fn outpoints_of(entries: Seq<UtxoEntry>, address: Address) -> Set<Outpoint> {
    Set::new(
        |o: Outpoint|
            exists|i: int|
                0 <= i < entries.len() && (#[trigger] entries[i]).outpoint == o
                    && entries[i].address == address,
    )
}

/// The index after an insert: unchanged where the outpoint is known.
pub open spec fn after_insert(entries: Seq<UtxoEntry>, entry: UtxoEntry) -> Seq<UtxoEntry> {
    if has_outpoint(entries, entry.outpoint) {
        entries
    } else {
        entries.push(entry)
    }
}

/// The index after a removal: unchanged where the outpoint is unknown.
pub open spec fn after_remove(entries: Seq<UtxoEntry>, outpoint: Outpoint) -> Seq<UtxoEntry> {
    if has_outpoint(entries, outpoint) {
        entries.remove(position_of(entries, outpoint))
    } else {
        entries
    }
}

/// The index after one change.
pub open spec fn after_change(entries: Seq<UtxoEntry>, change: Change) -> Seq<UtxoEntry> {
    match change {
        Change::Add(entry) => after_insert(entries, entry),
        Change::Remove(outpoint) => after_remove(entries, outpoint),
    }
}

/// The index after a run of changes, applied in order.
pub open spec fn replay(entries: Seq<UtxoEntry>, changes: Seq<Change>) -> Seq<UtxoEntry>
    decreases changes.len(),
{
    if changes.len() == 0 {
        entries
    } else {
        after_change(replay(entries, changes.drop_last()), changes.last())
    }
}

/// Whether the index takes a change: an add of an unknown outpoint, a
/// removal of a known one.
pub open spec fn accepts(entries: Seq<UtxoEntry>, change: Change) -> bool {
    match change {
        Change::Add(entry) => !has_outpoint(entries, entry.outpoint),
        Change::Remove(outpoint) => has_outpoint(entries, outpoint),
    }
}

/// How many changes of a run the index rejects.
pub open spec fn rejections(entries: Seq<UtxoEntry>, changes: Seq<Change>) -> nat
    decreases changes.len(),
{
    if changes.len() == 0 {
        0
    } else if accepts(replay(entries, changes.drop_last()), changes.last()) {
        rejections(entries, changes.drop_last())
    } else {
        rejections(entries, changes.drop_last()) + 1
    }
}

/// Whether an outpoint is present after a run of changes, read off the
/// changes alone: the last change that names it decides.
pub open spec fn net_present(initially: bool, changes: Seq<Change>, outpoint: Outpoint) -> bool
    decreases changes.len(),
{
    if changes.len() == 0 {
        initially
    } else {
        let before = net_present(initially, changes.drop_last(), outpoint);
        match changes.last() {
            Change::Add(entry) => entry.outpoint == outpoint || before,
            Change::Remove(removed) => removed != outpoint && before,
        }
    }
}

pub proof fn lemma_has_outpoint_push(entries: Seq<UtxoEntry>, entry: UtxoEntry, outpoint: Outpoint)
    ensures
        has_outpoint(entries.push(entry), outpoint) == (has_outpoint(entries, outpoint)
            || entry.outpoint == outpoint),
{
    let pushed = entries.push(entry);
    if has_outpoint(entries, outpoint) {
        let i = position_of(entries, outpoint);
        assert(pushed[i].outpoint == outpoint);
    }
    if entry.outpoint == outpoint {
        assert(pushed[entries.len() as int].outpoint == outpoint);
    }
    if has_outpoint(pushed, outpoint) {
        let i = position_of(pushed, outpoint);
        if i < entries.len() {
            assert(entries[i].outpoint == outpoint);
        }
    }
}

pub proof fn lemma_distinct_push(entries: Seq<UtxoEntry>, entry: UtxoEntry)
    requires
        distinct_outpoints(entries),
        !has_outpoint(entries, entry.outpoint),
    ensures
        distinct_outpoints(entries.push(entry)),
{
    let pushed = entries.push(entry);
    assert forall|i: int, j: int| 0 <= i < j < pushed.len() implies (#[trigger] pushed[i]).outpoint
        != (#[trigger] pushed[j]).outpoint by {
        if j == entries.len() {
            assert(entries[i].outpoint != entry.outpoint);
        } else {
            assert(entries[i].outpoint != entries[j].outpoint);
        }
    }
}

pub proof fn lemma_remove_at(entries: Seq<UtxoEntry>, at: int, outpoint: Outpoint)
    requires
        distinct_outpoints(entries),
        0 <= at < entries.len(),
    ensures
        distinct_outpoints(entries.remove(at)),
        has_outpoint(entries.remove(at), outpoint) == (has_outpoint(entries, outpoint)
            && entries[at].outpoint != outpoint),
{
    let rest = entries.remove(at);
    assert forall|i: int, j: int| 0 <= i < j < rest.len() implies (#[trigger] rest[i]).outpoint != (
    #[trigger] rest[j]).outpoint by {
        let a = if i < at { i } else { i + 1 };
        let b = if j < at { j } else { j + 1 };
        assert(entries[a].outpoint != entries[b].outpoint);
    }
    if has_outpoint(rest, outpoint) {
        let i = position_of(rest, outpoint);
        let a = if i < at { i } else { i + 1 };
        assert(entries[a].outpoint == outpoint);
        if a < at {
            assert(entries[a].outpoint != entries[at].outpoint);
        } else {
            assert(entries[at].outpoint != entries[a].outpoint);
        }
    }
    if has_outpoint(entries, outpoint) && entries[at].outpoint != outpoint {
        let a = position_of(entries, outpoint);
        let i = if a < at { a } else { a - 1 };
        assert(rest[i].outpoint == outpoint);
    }
}

/// With distinct outpoints, the position of an outpoint is the one place
/// where it stands.
pub proof fn lemma_position_unique(entries: Seq<UtxoEntry>, at: int)
    requires
        distinct_outpoints(entries),
        0 <= at < entries.len(),
    ensures
        has_outpoint(entries, entries[at].outpoint),
        position_of(entries, entries[at].outpoint) == at,
{
    let p = position_of(entries, entries[at].outpoint);
    if p < at {
        assert(entries[p].outpoint != entries[at].outpoint);
    } else if at < p {
        assert(entries[at].outpoint != entries[p].outpoint);
    }
}

/// One change keeps the outpoints distinct, and an outpoint is present
/// afterwards exactly where the change says so.
pub proof fn lemma_after_change(entries: Seq<UtxoEntry>, change: Change, outpoint: Outpoint)
    requires
        distinct_outpoints(entries),
    ensures
        distinct_outpoints(after_change(entries, change)),
        has_outpoint(after_change(entries, change), outpoint) == match change {
            Change::Add(entry) => entry.outpoint == outpoint || has_outpoint(entries, outpoint),
            Change::Remove(removed) => removed != outpoint && has_outpoint(entries, outpoint),
        },
{
    match change {
        Change::Add(entry) => {
            if !has_outpoint(entries, entry.outpoint) {
                lemma_distinct_push(entries, entry);
                lemma_has_outpoint_push(entries, entry, outpoint);
            }
        },
        Change::Remove(removed) => {
            if has_outpoint(entries, removed) {
                lemma_remove_at(entries, position_of(entries, removed), outpoint);
            }
        },
    }
}

/// Replaying any run of add and remove changes, in order, never stores an
/// outpoint twice, and leaves an outpoint in the index exactly where the net
/// effect of the changes that name it is an add: nothing is lost and nothing
/// is counted twice.
pub proof fn lemma_replay_is_net_effect(
    entries: Seq<UtxoEntry>,
    changes: Seq<Change>,
    outpoint: Outpoint,
)
    requires
        distinct_outpoints(entries),
    ensures
        distinct_outpoints(replay(entries, changes)),
        has_outpoint(replay(entries, changes), outpoint) == net_present(
            has_outpoint(entries, outpoint),
            changes,
            outpoint,
        ),
    decreases changes.len(),
{
    if changes.len() > 0 {
        lemma_replay_is_net_effect(entries, changes.drop_last(), outpoint);
        lemma_after_change(replay(entries, changes.drop_last()), changes.last(), outpoint);
    }
}

/// An add that is replayed straight after it was applied changes nothing.
pub proof fn lemma_repeated_add_is_rejected(entries: Seq<UtxoEntry>, entry: UtxoEntry)
    ensures
        has_outpoint(after_insert(entries, entry), entry.outpoint),
        after_insert(after_insert(entries, entry), entry) == after_insert(entries, entry),
{
    lemma_has_outpoint_push(entries, entry, entry.outpoint);
}

/// Every stored outpoint belongs to the outpoint set of its own address and
/// to that of no other, and an address refers to stored outpoints only.
pub proof fn lemma_outpoint_has_one_owner(entries: Seq<UtxoEntry>, at: int, address: Address)
    requires
        distinct_outpoints(entries),
        0 <= at < entries.len(),
    ensures
        outpoints_of(entries, address).contains(entries[at].outpoint) == (entries[at].address
            == address),
        forall|o: Outpoint| #[trigger]
            outpoints_of(entries, address).contains(o) ==> has_outpoint(entries, o),
{
    let o = entries[at].outpoint;
    if outpoints_of(entries, address).contains(o) {
        let i = choose|i: int|
            0 <= i < entries.len() && (#[trigger] entries[i]).outpoint == o && entries[i].address
                == address;
        if i < at {
            assert(entries[i].outpoint != entries[at].outpoint);
        } else if at < i {
            assert(entries[at].outpoint != entries[i].outpoint);
        }
    }
    assert forall|p: Outpoint| #[trigger]
        outpoints_of(entries, address).contains(p) implies has_outpoint(entries, p) by {
        let i = choose|i: int|
            0 <= i < entries.len() && (#[trigger] entries[i]).outpoint == p && entries[i].address
                == address;
        assert(entries[i].outpoint == p);
    }
}

/// The outpoints that an address owns, in insertion order.
pub open spec fn owned(entries: Seq<UtxoEntry>, address: Address) -> Seq<Outpoint>
    decreases entries.len(),
{
    if entries.len() == 0 {
        Seq::empty()
    } else {
        let rest = owned(entries.drop_last(), address);
        if entries.last().address == address {
            rest.push(entries.last().outpoint)
        } else {
            rest
        }
    }
}

/// What the index keeps for one address: the outpoints it owns.
pub struct AddressEntry {
    pub address: Address,
    pub outpoints: Vec<Outpoint>,
}

/// Some address entry is that of `address`.
pub open spec fn listed(addresses: Seq<AddressEntry>, address: Address) -> bool {
    exists|a: int| 0 <= a < addresses.len() && (#[trigger] addresses[a]).address == address
}

/// The address entries agree with the stored outputs: one entry for an
/// address, holding exactly the outpoints that the address owns, and an
/// entry for the address of every stored output.
pub open spec fn consistent(entries: Seq<UtxoEntry>, addresses: Seq<AddressEntry>) -> bool {
    &&& forall|a: int, b: int|
        0 <= a < b < addresses.len() ==> (#[trigger] addresses[a]).address != (
        #[trigger] addresses[b]).address
    &&& forall|a: int|
        0 <= a < addresses.len() ==> (#[trigger] addresses[a]).outpoints@ == owned(
            entries,
            addresses[a].address,
        )
    &&& forall|i: int| 0 <= i < entries.len() ==> listed(addresses, (#[trigger] entries[i]).address)
}

/// Whatever an address owns is stored, and is stored for that address.
pub proof fn lemma_owned_is_stored(entries: Seq<UtxoEntry>, address: Address)
    ensures
        owned(entries, address).len() <= entries.len(),
        forall|k: int|
            0 <= k < owned(entries, address).len() ==> outpoints_of(entries, address).contains(
                #[trigger] owned(entries, address)[k],
            ),
    decreases entries.len(),
{
    if entries.len() > 0 {
        let front = entries.drop_last();
        lemma_owned_is_stored(front, address);
        let all = owned(entries, address);
        assert forall|k: int| 0 <= k < all.len() implies outpoints_of(entries, address).contains(
            #[trigger] all[k],
        ) by {
            if k < owned(front, address).len() {
                let o = owned(front, address)[k];
                assert(outpoints_of(front, address).contains(o));
                let i = choose|i: int|
                    0 <= i < front.len() && (#[trigger] front[i]).outpoint == o && front[i].address
                        == address;
                assert(entries[i].outpoint == o && entries[i].address == address);
            } else {
                let i = entries.len() - 1;
                assert(entries[i].outpoint == all[k] && entries[i].address == address);
            }
        }
    }
}

/// An address without stored outputs owns nothing.
pub proof fn lemma_owned_by_stranger(entries: Seq<UtxoEntry>, address: Address)
    requires
        forall|i: int| 0 <= i < entries.len() ==> (#[trigger] entries[i]).address != address,
    ensures
        owned(entries, address) == Seq::<Outpoint>::empty(),
    decreases entries.len(),
{
    if entries.len() > 0 {
        let front = entries.drop_last();
        assert forall|i: int| 0 <= i < front.len() implies (#[trigger] front[i]).address
            != address by {
            assert(front[i] == entries[i]);
        }
        lemma_owned_by_stranger(front, address);
        assert(entries[entries.len() - 1].address != address);
    }
}

/// Taking a stored output away takes its outpoint, and nothing else, from
/// what its address owns; the other addresses own what they owned.
pub proof fn lemma_owned_after_removal(
    entries: Seq<UtxoEntry>,
    at: int,
    address: Address,
    place: int,
)
    requires
        distinct_outpoints(entries),
        0 <= at < entries.len(),
        entries[at].address == address ==> 0 <= place < owned(entries, address).len() && owned(
            entries,
            address,
        )[place] == entries[at].outpoint,
    ensures
        owned(entries.remove(at), address) == if entries[at].address == address {
            owned(entries, address).remove(place)
        } else {
            owned(entries, address)
        },
    decreases entries.len(),
{
    let front = entries.drop_last();
    let last = entries.last();
    let rest = entries.remove(at);
    let target = entries[at].outpoint;
    lemma_owned_is_stored(front, address);
    if at == entries.len() - 1 {
        assert(rest =~= front);
        if last.address == address {
            if place < owned(front, address).len() {
                let o = owned(front, address)[place];
                assert(outpoints_of(front, address).contains(o));
                let i = choose|i: int|
                    0 <= i < front.len() && (#[trigger] front[i]).outpoint == o && front[i].address
                        == address;
                assert(entries[i].outpoint != entries[at].outpoint);
            }
            assert(owned(entries, address).remove(place) =~= owned(front, address));
        }
    } else {
        assert(rest.drop_last() =~= front.remove(at));
        assert(rest.last() == last);
        assert(front[at] == entries[at]);
        assert forall|i: int, j: int| 0 <= i < j < front.len() implies (#[trigger] front[i]).outpoint
            != (#[trigger] front[j]).outpoint by {
            assert(entries[i].outpoint != entries[j].outpoint);
        }
        if entries[at].address == address {
            if last.address == address && place == owned(front, address).len() {
                assert(entries[at].outpoint != entries[entries.len() - 1].outpoint);
            }
            lemma_owned_after_removal(front, at, address, place);
            if last.address == address {
                assert(owned(entries, address).remove(place) =~= owned(front, address).remove(
                    place,
                ).push(last.outpoint));
            }
        } else {
            lemma_owned_after_removal(front, at, address, place);
        }
    }
}

/// A stored output is among what its address owns.
pub proof fn lemma_owned_holds(entries: Seq<UtxoEntry>, at: int)
    requires
        0 <= at < entries.len(),
    ensures
        owned(entries, entries[at].address).contains(entries[at].outpoint),
    decreases entries.len(),
{
    let address = entries[at].address;
    let front = entries.drop_last();
    let all = owned(entries, address);
    if at == entries.len() - 1 {
        assert(all[all.len() - 1] == entries[at].outpoint);
    } else {
        assert(front[at] == entries[at]);
        lemma_owned_holds(front, at);
        let k = choose|k: int|
            0 <= k < owned(front, address).len() && owned(front, address)[k] == entries[at].outpoint;
        assert(all[k] == entries[at].outpoint);
    }
}

/// In a consistent index every stored outpoint stands in the entry of its
/// own address and in no other, and an address entry refers to stored
/// outpoints only.
pub proof fn lemma_address_entries_are_exact(
    entries: Seq<UtxoEntry>,
    addresses: Seq<AddressEntry>,
    at: int,
    slot: int,
)
    requires
        distinct_outpoints(entries),
        consistent(entries, addresses),
        0 <= at < entries.len(),
        0 <= slot < addresses.len(),
    ensures
        listed(addresses, entries[at].address),
        addresses[slot].outpoints@.contains(entries[at].outpoint) == (addresses[slot].address
            == entries[at].address),
        forall|k: int|
            0 <= k < addresses[slot].outpoints@.len() ==> has_outpoint(
                entries,
                #[trigger] addresses[slot].outpoints@[k],
            ),
{
    let address = addresses[slot].address;
    let held = addresses[slot].outpoints@;
    assert(held == owned(entries, address));
    lemma_owned_is_stored(entries, address);
    lemma_outpoint_has_one_owner(entries, at, address);
    if address == entries[at].address {
        lemma_owned_holds(entries, at);
    }
    if held.contains(entries[at].outpoint) {
        let k = choose|k: int| 0 <= k < held.len() && held[k] == entries[at].outpoint;
        assert(outpoints_of(entries, address).contains(owned(entries, address)[k]));
    }
    assert forall|k: int| 0 <= k < held.len() implies has_outpoint(entries, #[trigger] held[k]) by {
        assert(outpoints_of(entries, address).contains(owned(entries, address)[k]));
    }
}

/// Where an outpoint stands in a run that holds it.
fn place_of(outpoints: &Vec<Outpoint>, outpoint: Outpoint) -> (place: usize)
    requires
        outpoints@.contains(outpoint),
    ensures
        place < outpoints@.len(),
        outpoints@[place as int] == outpoint,
{
    let mut i: usize = 0;
    while i < outpoints.len()
        invariant
            i <= outpoints.len(),
            outpoints@.contains(outpoint),
            forall|k: int| 0 <= k < i ==> outpoints@[k] != outpoint,
        decreases outpoints.len() - i,
    {
        if outpoints[i] == outpoint {
            return i;
        }
        i += 1;
    }
    proof {
        let k = choose|k: int| 0 <= k < outpoints@.len() && outpoints@[k] == outpoint;
        assert(false);
    }
    0
}

/// The in-memory index of unspent outputs: the outputs in insertion order,
/// and for each address the outpoints it owns.
pub struct UtxoIndex {
    entries: Vec<UtxoEntry>,
    addresses: Vec<AddressEntry>,
}

impl View for UtxoIndex {
    type V = Seq<UtxoEntry>;

    closed spec fn view(&self) -> Seq<UtxoEntry> {
        self.entries@
    }
}

impl UtxoIndex {
    /// The address entries, as they stand.
    pub closed spec fn address_entries(&self) -> Seq<AddressEntry> {
        self.addresses@
    }

    /// No outpoint is stored twice, and the address entries agree with the
    /// stored outputs.
    pub open spec fn wf(&self) -> bool {
        distinct_outpoints(self@) && consistent(self@, self.address_entries())
    }

    pub fn new() -> (index: UtxoIndex)
        ensures
            index.wf(),
            index@ == Seq::<UtxoEntry>::empty(),
            index.address_entries() == Seq::<AddressEntry>::empty(),
    {
        UtxoIndex { entries: Vec::new(), addresses: Vec::new() }
    }

    /// Where the entry of this address stands.
    fn find_address(&self, address: Address) -> (found: Option<usize>)
        ensures
            match found {
                Some(at) => at < self.addresses@.len() && self.addresses@[at as int].address
                    == address,
                None => !listed(self.addresses@, address),
            },
    {
        let mut i: usize = 0;
        while i < self.addresses.len()
            invariant
                i <= self.addresses.len(),
                forall|k: int| 0 <= k < i ==> (#[trigger] self.addresses@[k]).address != address,
            decreases self.addresses.len() - i,
        {
            if self.addresses[i].address == address {
                return Some(i);
            }
            i += 1;
        }
        None
    }

    /// The outpoints that an address owns, in insertion order, read off its
    /// address entry.
    pub fn outpoints_of_address(&self, address: Address) -> (outpoints: Vec<Outpoint>)
        requires
            self.wf(),
        ensures
            outpoints@ == owned(self@, address),
    {
        match self.find_address(address) {
            Some(at) => self.addresses[at].outpoints.clone(),
            None => {
                proof {
                    assert forall|i: int| 0 <= i < self@.len() implies (#[trigger] self@[i]).address
                        != address by {
                        assert(listed(self.addresses@, self@[i].address));
                    }
                    lemma_owned_by_stranger(self@, address);
                }
                Vec::new()
            },
        }
    }

    pub fn len(&self) -> (n: usize)
        ensures
            n == self@.len(),
    {
        self.entries.len()
    }

    pub fn is_empty(&self) -> (empty: bool)
        ensures
            empty == (self@.len() == 0),
    {
        self.entries.len() == 0
    }

    /// The first place where an entry with this outpoint stands.
    pub fn find(&self, outpoint: Outpoint) -> (found: Option<usize>)
        ensures
            match found {
                Some(at) => at < self@.len() && self@[at as int].outpoint == outpoint
                    && forall|k: int| 0 <= k < at ==> (#[trigger] self@[k]).outpoint != outpoint,
                None => !has_outpoint(self@, outpoint),
            },
    {
        let mut i: usize = 0;
        while i < self.entries.len()
            invariant
                i <= self.entries.len(),
                forall|k: int| 0 <= k < i ==> (#[trigger] self.entries@[k]).outpoint != outpoint,
            decreases self.entries.len() - i,
        {
            if self.entries[i].outpoint == outpoint {
                return Some(i);
            }
            i += 1;
        }
        None
    }

    pub fn contains(&self, outpoint: Outpoint) -> (present: bool)
        ensures
            present == has_outpoint(self@, outpoint),
    {
        self.find(outpoint).is_some()
    }

    /// The entry stored under this outpoint.
    pub fn get(&self, outpoint: Outpoint) -> (entry: Option<UtxoEntry>)
        requires
            self.wf(),
        ensures
            entry.is_some() == has_outpoint(self@, outpoint),
            entry.is_some() ==> entry.unwrap() == self@[position_of(self@, outpoint)],
    {
        match self.find(outpoint) {
            Some(at) => {
                proof {
                    lemma_position_unique(self@, at as int);
                }
                Some(self.entries[at])
            },
            None => None,
        }
    }

    /// Stores `entry` behind the entries already there, unless its outpoint
    /// is known.
    pub fn insert(&mut self, entry: UtxoEntry) -> (result: Result<(), IndexError>)
        requires
            old(self).wf(),
        ensures
            final(self).wf(),
            final(self)@ == after_insert(old(self)@, entry),
            result == if has_outpoint(old(self)@, entry.outpoint) {
                Err::<(), IndexError>(IndexError::DuplicateOutpoint)
            } else {
                Ok::<(), IndexError>(())
            },
    {
        match self.find(entry.outpoint) {
            Some(_) => Err(IndexError::DuplicateOutpoint),
            None => {
                proof {
                    lemma_distinct_push(self@, entry);
                }
                let slot: usize = match self.find_address(entry.address) {
                    Some(at) => at,
                    None => {
                        proof {
                            assert forall|i: int| 0 <= i < self@.len() implies (
                            #[trigger] self@[i]).address != entry.address by {
                                assert(listed(self.addresses@, self@[i].address));
                            }
                            lemma_owned_by_stranger(self@, entry.address);
                        }
                        self.addresses.push(
                            AddressEntry { address: entry.address, outpoints: Vec::new() },
                        );
                        self.addresses.len() - 1
                    },
                };
                let ghost listed_before = self.addresses@;
                assert(consistent(self@, listed_before)) by {
                    assert forall|i: int| 0 <= i < self@.len() implies listed(
                        listed_before,
                        (#[trigger] self@[i]).address,
                    ) by {
                        let a = choose|a: int|
                            0 <= a < old(self).addresses@.len() && (#[trigger] old(
                                self,
                            ).addresses@[a]).address == self@[i].address;
                        assert(listed_before[a].address == self@[i].address);
                    }
                }
                let mut held = self.addresses.remove(slot);
                held.outpoints.push(entry.outpoint);
                self.addresses.insert(slot, held);
                let ghost stored_before = self.entries@;
                self.entries.push(entry);
                proof {
                    let after = self.addresses@;
                    assert(after.len() == listed_before.len());
                    assert(self.entries@.drop_last() =~= stored_before);
                    assert forall|a: int| 0 <= a < after.len() implies (#[trigger] after[a]).address
                        == listed_before[a].address && after[a].outpoints@ == owned(
                        self.entries@,
                        after[a].address,
                    ) by {
                        if a != slot {
                            assert(listed_before[a].address != listed_before[slot as int].address);
                        }
                    }
                    assert forall|i: int| 0 <= i < self.entries@.len() implies listed(
                        after,
                        (#[trigger] self.entries@[i]).address,
                    ) by {
                        if i < stored_before.len() {
                            let a = choose|a: int|
                                0 <= a < listed_before.len() && (#[trigger] listed_before[a]).address
                                    == stored_before[i].address;
                            assert(after[a].address == self.entries@[i].address);
                        } else {
                            assert(after[slot as int].address == entry.address);
                        }
                    }
                }
                Ok(())
            },
        }
    }

    /// Takes the entry with this outpoint out and hands it back.
    pub fn remove(&mut self, outpoint: Outpoint) -> (result: Result<UtxoEntry, IndexError>)
        requires
            old(self).wf(),
        ensures
            final(self).wf(),
            final(self)@ == after_remove(old(self)@, outpoint),
            result == if has_outpoint(old(self)@, outpoint) {
                Ok::<UtxoEntry, IndexError>(old(self)@[position_of(old(self)@, outpoint)])
            } else {
                Err::<UtxoEntry, IndexError>(IndexError::NotFound)
            },
    {
        match self.find(outpoint) {
            Some(at) => {
                proof {
                    lemma_position_unique(self@, at as int);
                    lemma_remove_at(self@, at as int, outpoint);
                }
                let ghost stored_before = self.entries@;
                let ghost listed_before = self.addresses@;
                let entry = self.entries.remove(at);
                let found = self.find_address(entry.address);
                assert(listed(listed_before, stored_before[at as int].address));
                let slot: usize = found.unwrap();
                let mut held = self.addresses.remove(slot);
                proof {
                    lemma_owned_holds(stored_before, at as int);
                }
                let place: usize = place_of(&held.outpoints, outpoint);
                held.outpoints.remove(place);
                self.addresses.insert(slot, held);
                proof {
                    let after = self.addresses@;
                    assert(after.len() == listed_before.len());
                    assert forall|a: int| 0 <= a < after.len() implies (#[trigger] after[a]).address
                        == listed_before[a].address && after[a].outpoints@ == owned(
                        self.entries@,
                        after[a].address,
                    ) by {
                        if a != slot {
                            assert(listed_before[a].address != listed_before[slot as int].address);
                            lemma_owned_after_removal(
                                stored_before,
                                at as int,
                                listed_before[a].address,
                                0,
                            );
                        } else {
                            lemma_owned_after_removal(
                                stored_before,
                                at as int,
                                entry.address,
                                place as int,
                            );
                        }
                    }
                    assert forall|i: int| 0 <= i < self.entries@.len() implies listed(
                        after,
                        (#[trigger] self.entries@[i]).address,
                    ) by {
                        let j = if i < at { i } else { i + 1 };
                        assert(self.entries@[i] == stored_before[j]);
                        let a = choose|a: int|
                            0 <= a < listed_before.len() && (#[trigger] listed_before[a]).address
                                == stored_before[j].address;
                        assert(after[a].address == self.entries@[i].address);
                    }
                }
                Ok(entry)
            },
            None => Err(IndexError::NotFound),
        }
    }

    /// Applies one change; a rejected change leaves the index as it was.
    pub fn apply(&mut self, change: Change) -> (result: Result<(), IndexError>)
        requires
            old(self).wf(),
        ensures
            final(self).wf(),
            final(self)@ == after_change(old(self)@, change),
            result == match change {
                Change::Add(entry) => if has_outpoint(old(self)@, entry.outpoint) {
                    Err::<(), IndexError>(IndexError::DuplicateOutpoint)
                } else {
                    Ok::<(), IndexError>(())
                },
                Change::Remove(outpoint) => if has_outpoint(old(self)@, outpoint) {
                    Ok::<(), IndexError>(())
                } else {
                    Err::<(), IndexError>(IndexError::NotFound)
                },
            },
    {
        match change {
            Change::Add(entry) => self.insert(entry),
            Change::Remove(outpoint) => match self.remove(outpoint) {
                Ok(_) => Ok(()),
                Err(e) => Err(e),
            },
        }
    }

    /// Applies a run of changes in order and counts those that were rejected.
    pub fn apply_all(&mut self, changes: &Vec<Change>) -> (rejected: usize)
        requires
            old(self).wf(),
        ensures
            final(self).wf(),
            final(self)@ == replay(old(self)@, changes@),
            rejected == rejections(old(self)@, changes@),
    {
        let mut rejected: usize = 0;
        let mut i: usize = 0;
        while i < changes.len()
            invariant
                i <= changes.len(),
                rejected <= i,
                rejected == rejections(old(self)@, changes@.take(i as int)),
                self.wf(),
                self@ == replay(old(self)@, changes@.take(i as int)),
            decreases changes.len() - i,
        {
            proof {
                assert(changes@.take(i as int + 1).drop_last() =~= changes@.take(i as int));
            }
            if self.apply(changes[i]).is_err() {
                rejected += 1;
            }
            i += 1;
        }
        proof {
            assert(changes@.take(i as int) =~= changes@);
        }
        rejected
    }

    /// A copy of the entries of one address, in insertion order.
    pub fn snapshot(&self, address: Address) -> (entries: Vec<UtxoEntry>)
        ensures
            entries@ == entries_of(self@, address),
    {
        let mut out: Vec<UtxoEntry> = Vec::new();
        let mut i: usize = 0;
        while i < self.entries.len()
            invariant
                i <= self.entries.len(),
                out@ == entries_of(self.entries@.take(i as int), address),
            decreases self.entries.len() - i,
        {
            proof {
                assert(self.entries@.take(i as int + 1).drop_last() =~= self.entries@.take(
                    i as int,
                ));
            }
            if self.entries[i].address == address {
                out.push(self.entries[i]);
            }
            i += 1;
        }
        proof {
            assert(self.entries@.take(i as int) =~= self.entries@);
        }
        out
    }

    /// A copy of every entry, in insertion order.
    pub fn all(&self) -> (entries: Vec<UtxoEntry>)
        ensures
            entries@ == self@,
    {
        self.entries.clone()
    }

    /// Drops every entry, and with them the address entries.
    pub fn clear(&mut self)
        ensures
            final(self).wf(),
            final(self)@ == Seq::<UtxoEntry>::empty(),
            final(self).address_entries() == Seq::<AddressEntry>::empty(),
    {
        self.entries.clear();
        self.addresses.clear();
    }
}

} // verus!
