//! The event bus: who listens to which kind of event, in registration
//! order, and what each listener is called with.

use crate::event::{code_of, kind_of, Event, EventKind, KIND_COUNT};
use ahash::AHashMap;
use vstd::prelude::*;

verus! {

#[verifier::external_type_specification]
#[verifier::external_body]
#[verifier::reject_recursive_types(K)]
#[verifier::reject_recursive_types(V)]
#[verifier::reject_recursive_types(S)]
pub struct ExAHashMap<K, V, S>(AHashMap<K, V, S>);

#[verifier::external_type_specification]
#[verifier::external_body]
pub struct ExRandomState(ahash::RandomState);

/// What a subscription table holds: for each kind's code, the handles
/// registered under it, oldest first.
pub uninterp spec fn table_contents(table: AHashMap<u64, Vec<u64>>) -> Map<u64, Seq<u64>>;

/// The table under which nothing is filed.
pub open spec fn empty_table() -> Map<u64, Seq<u64>> {
    Map::empty()
}

/// `AHashMap::new`: a map without entries.
#[verifier::external_body]
fn table_new() -> (table: AHashMap<u64, Vec<u64>>)
    ensures
        table_contents(table) == empty_table(),
{
    AHashMap::new()
}

/// `AHashMap::get`: a copy of the value stored under `key`, where there is
/// one.
#[verifier::external_body]
fn table_get(table: &AHashMap<u64, Vec<u64>>, key: u64) -> (found: Option<Vec<u64>>)
    ensures
        found.is_some() == table_contents(*table).dom().contains(key),
        found.is_some() ==> found.unwrap()@ == table_contents(*table)[key],
{
    table.get(&key).cloned()
}

/// `AHashMap::insert`: `handles` now stands under `key`, in place of what
/// stood there; the other keys keep their values.
#[verifier::external_body]
fn table_insert(table: &mut AHashMap<u64, Vec<u64>>, key: u64, handles: Vec<u64>)
    ensures
        table_contents(*final(table)) == table_contents(*old(table)).insert(key, handles@),
{
    table.insert(key, handles);
}

/// `AHashMap::remove`: `key` and its value are gone; the other keys keep
/// their values.
#[verifier::external_body]
fn table_remove(table: &mut AHashMap<u64, Vec<u64>>, key: u64)
    ensures
        table_contents(*final(table)) == table_contents(*old(table)).remove(key),
{
    table.remove(&key);
}

/// `HashMap::clear`, reached through the map's `DerefMut`: no entry is left.
#[verifier::external_body]
fn table_clear(table: &mut AHashMap<u64, Vec<u64>>)
    ensures
        table_contents(*final(table)) == empty_table(),
{
    table.clear();
}

/// A registered callback: its identity, and the extra positional and keyword
/// values, as tokens of the host, that it asked to be called with.
#[derive(Debug)]
pub struct Listener {
    pub callback: u64,
    pub args: Vec<u64>,
    pub keywords: Vec<u64>,
}

/// One positional argument of a call.
#[derive(Clone, Copy, Debug, PartialEq, Eq, Structural)]
pub enum Argument {
    Extra(u64),
    Payload(Event),
}

/// One call that a publication asks for.
#[derive(Debug)]
pub struct Delivery {
    pub handle: u64,
    pub callback: u64,
    pub arguments: Vec<Argument>,
    pub keywords: Vec<u64>,
}

/// Which registrations a removal takes away.
#[derive(Clone, Copy, Debug, PartialEq, Eq, Structural)]
pub enum Removal {
    Callback(u64),
    Handle(u64),
}

/// The handles filed under a code; none where the code is unknown.
pub open spec fn filed_under(table: Map<u64, Seq<u64>>, code: u64) -> Seq<u64> {
    if table.dom().contains(code) {
        table[code]
    } else {
        Seq::empty()
    }
}

/// Who is called for an event of this kind: its own subscribers first, then
/// those of the wildcard, each group in registration order.
pub open spec fn recipients(table: Map<u64, Seq<u64>>, kind: EventKind) -> Seq<u64> {
    if kind == EventKind::All {
        filed_under(table, code_of(EventKind::All))
    } else {
        filed_under(table, code_of(kind)) + filed_under(table, code_of(EventKind::All))
    }
}

/// The table after one handle was filed under each target, in order.
pub open spec fn table_after_add(
    table: Map<u64, Seq<u64>>,
    targets: Seq<EventKind>,
    handle: u64,
) -> Map<u64, Seq<u64>>
    decreases targets.len(),
{
    if targets.len() == 0 {
        table
    } else {
        let before = table_after_add(table, targets.drop_last(), handle);
        let code = code_of(targets.last());
        before.insert(code, filed_under(before, code).push(handle))
    }
}

/// A registration outlives a removal that names neither its callback nor
/// its handle.
pub open spec fn survives(listeners: Seq<Listener>, handle: u64, rule: Removal) -> bool {
    match rule {
        Removal::Callback(callback) => listeners[handle as int].callback != callback,
        Removal::Handle(removed) => handle != removed,
    }
}

/// The handles that outlive a removal, in their order.
pub open spec fn kept(handles: Seq<u64>, listeners: Seq<Listener>, rule: Removal) -> Seq<u64>
    decreases handles.len(),
{
    if handles.len() == 0 {
        Seq::empty()
    } else {
        let rest = kept(handles.drop_last(), listeners, rule);
        if survives(listeners, handles.last(), rule) {
            rest.push(handles.last())
        } else {
            rest
        }
    }
}

/// The table after a removal went through every kind.
pub open spec fn table_without(
    table: Map<u64, Seq<u64>>,
    listeners: Seq<Listener>,
    rule: Removal,
) -> Map<u64, Seq<u64>> {
    Map::new(|code: u64| table.dom().contains(code), |code: u64| kept(table[code], listeners, rule))
}

/// The table after a removal went through the targets only: with a callback,
/// its registrations leave each target; without one, each target is dropped.
pub open spec fn table_after_targets(
    table: Map<u64, Seq<u64>>,
    listeners: Seq<Listener>,
    targets: Seq<EventKind>,
    callback: Option<u64>,
) -> Map<u64, Seq<u64>>
    decreases targets.len(),
{
    if targets.len() == 0 {
        table
    } else {
        let before = table_after_targets(table, listeners, targets.drop_last(), callback);
        let code = code_of(targets.last());
        match callback {
            Some(id) => if before.dom().contains(code) {
                before.insert(code, kept(before[code], listeners, Removal::Callback(id)))
            } else {
                before
            },
            None => before.remove(code),
        }
    }
}

/// The table after `remove_listener`: the wildcard among the targets reaches
/// every kind, and without a callback empties the table.
pub open spec fn table_after_removal(
    table: Map<u64, Seq<u64>>,
    listeners: Seq<Listener>,
    targets: Seq<EventKind>,
    callback: Option<u64>,
) -> Map<u64, Seq<u64>> {
    if targets.contains(EventKind::All) {
        match callback {
            Some(id) => table_without(table, listeners, Removal::Callback(id)),
            None => Map::empty(),
        }
    } else {
        table_after_targets(table, listeners, targets, callback)
    }
}

/// Every code is that of a kind, and every handle that of a listener.
pub open spec fn table_fits(table: Map<u64, Seq<u64>>, listeners: nat) -> bool {
    &&& forall|code: u64| #[trigger] table.dom().contains(code) ==> code < KIND_COUNT
    &&& forall|code: u64, i: int|
        table.dom().contains(code) && 0 <= i < table[code].len() ==> (#[trigger] table[code][i])
            < listeners
}

/// The positional arguments of a call: the listener's own, then the event.
pub open spec fn arguments_for(args: Seq<u64>, event: Event) -> Seq<Argument> {
    Seq::new(args.len(), |i: int| Argument::Extra(args[i])).push(Argument::Payload(event))
}

/// The call that one registration receives for an event.
pub open spec fn delivery_matches(
    delivery: Delivery,
    listeners: Seq<Listener>,
    handle: u64,
    event: Event,
) -> bool {
    &&& delivery.handle == handle
    &&& delivery.callback == listeners[handle as int].callback
    &&& delivery.arguments@ == arguments_for(listeners[handle as int].args@, event)
    &&& delivery.keywords@ == listeners[handle as int].keywords@
}

pub proof fn lemma_kept_is_sound(handles: Seq<u64>, listeners: Seq<Listener>, rule: Removal)
    ensures
        kept(handles, listeners, rule).len() <= handles.len(),
        forall|i: int|
            0 <= i < kept(handles, listeners, rule).len() ==> {
                let h = #[trigger] kept(handles, listeners, rule)[i];
                handles.contains(h) && survives(listeners, h, rule)
            },
        forall|j: int|
            0 <= j < handles.len() && survives(listeners, handles[j], rule) ==> kept(
                handles,
                listeners,
                rule,
            ).contains(#[trigger] handles[j]),
    decreases handles.len(),
{
    if handles.len() > 0 {
        let front = handles.drop_last();
        lemma_kept_is_sound(front, listeners, rule);
        let rest = kept(front, listeners, rule);
        let all = kept(handles, listeners, rule);
        assert forall|i: int| 0 <= i < all.len() implies {
            let h = #[trigger] all[i];
            handles.contains(h) && survives(listeners, h, rule)
        } by {
            if i < rest.len() {
                let h = rest[i];
                let j = choose|j: int| 0 <= j < front.len() && front[j] == h;
                assert(handles[j] == h);
            } else {
                assert(handles[handles.len() - 1] == all[i]);
            }
        }
        assert forall|j: int|
            0 <= j < handles.len() && survives(listeners, handles[j], rule) implies all.contains(
            #[trigger] handles[j],
        ) by {
            if j < front.len() {
                assert(front[j] == handles[j]);
                let i = choose|i: int| 0 <= i < rest.len() && rest[i] == front[j];
                assert(all[i] == handles[j]);
            } else {
                assert(all[all.len() - 1] == handles[j]);
            }
        }
    }
}

/// A wildcard subscriber is called for every kind of event.
pub proof fn lemma_wildcard_receives_every_kind(
    table: Map<u64, Seq<u64>>,
    kind: EventKind,
    handle: u64,
)
    requires
        filed_under(table, code_of(EventKind::All)).contains(handle),
    ensures
        recipients(table, kind).contains(handle),
{
    let wild = filed_under(table, code_of(EventKind::All));
    let i = choose|i: int| 0 <= i < wild.len() && wild[i] == handle;
    if kind != EventKind::All {
        let own = filed_under(table, code_of(kind));
        assert((own + wild)[own.len() + i] == handle);
    }
}

/// Whoever is called for an event subscribed to its kind or to the
/// wildcard: a subscriber of another kind alone is not called.
pub proof fn lemma_only_matching_kinds_receive(
    table: Map<u64, Seq<u64>>,
    kind: EventKind,
    handle: u64,
)
    requires
        recipients(table, kind).contains(handle),
    ensures
        filed_under(table, code_of(kind)).contains(handle) || filed_under(
            table,
            code_of(EventKind::All),
        ).contains(handle),
{
    if kind != EventKind::All {
        let own = filed_under(table, code_of(kind));
        let wild = filed_under(table, code_of(EventKind::All));
        let i = choose|i: int| 0 <= i < (own + wild).len() && (own + wild)[i] == handle;
        if i < own.len() {
            assert(own[i] == handle);
        } else {
            assert(wild[i - own.len()] == handle);
        }
    }
}

/// After a callback was removed by identity, no event of any kind reaches
/// it, and every other registration is still called.
pub proof fn lemma_removed_callback_is_gone(
    table: Map<u64, Seq<u64>>,
    listeners: Seq<Listener>,
    callback: u64,
    kind: EventKind,
    handle: u64,
)
    ensures
        recipients(table_without(table, listeners, Removal::Callback(callback)), kind).contains(
            handle,
        ) == (recipients(table, kind).contains(handle) && listeners[handle as int].callback
            != callback),
{
    let rule = Removal::Callback(callback);
    let after = table_without(table, listeners, rule);
    let own = filed_under(table, code_of(kind));
    let wild = filed_under(table, code_of(EventKind::All));
    let own_after = filed_under(after, code_of(kind));
    let wild_after = filed_under(after, code_of(EventKind::All));
    lemma_kept_is_sound(own, listeners, rule);
    lemma_kept_is_sound(wild, listeners, rule);
    assert(own_after == kept(own, listeners, rule));
    assert(wild_after == kept(wild, listeners, rule));
    if recipients(after, kind).contains(handle) {
        lemma_only_matching_kinds_receive(after, kind, handle);
        if own_after.contains(handle) {
            let i = choose|i: int| 0 <= i < own_after.len() && own_after[i] == handle;
            assert(own.contains(own_after[i]));
            lemma_specific_subscriber_receives(table, kind, handle);
        } else {
            let i = choose|i: int| 0 <= i < wild_after.len() && wild_after[i] == handle;
            assert(wild.contains(wild_after[i]));
            lemma_wildcard_receives_every_kind(table, kind, handle);
        }
    }
    if recipients(table, kind).contains(handle) && listeners[handle as int].callback != callback {
        lemma_only_matching_kinds_receive(table, kind, handle);
        if own.contains(handle) {
            let j = choose|j: int| 0 <= j < own.len() && own[j] == handle;
            assert(own_after.contains(own[j]));
            lemma_specific_subscriber_receives(after, kind, handle);
        } else {
            let j = choose|j: int| 0 <= j < wild.len() && wild[j] == handle;
            assert(wild_after.contains(wild[j]));
            lemma_wildcard_receives_every_kind(after, kind, handle);
        }
    }
}

/// A subscriber of a kind is called for events of that kind.
pub proof fn lemma_specific_subscriber_receives(
    table: Map<u64, Seq<u64>>,
    kind: EventKind,
    handle: u64,
)
    requires
        filed_under(table, code_of(kind)).contains(handle),
    ensures
        recipients(table, kind).contains(handle),
{
    let own = filed_under(table, code_of(kind));
    let i = choose|i: int| 0 <= i < own.len() && own[i] == handle;
    if kind != EventKind::All {
        let wild = filed_under(table, code_of(EventKind::All));
        assert((own + wild)[i] == handle);
    }
}

/// The handles of `handles` that outlive the removal.
fn keep_handles(handles: &Vec<u64>, listeners: &Vec<Listener>, rule: Removal) -> (out: Vec<u64>)
    requires
        forall|i: int| 0 <= i < handles@.len() ==> (#[trigger] handles@[i]) < listeners@.len(),
    ensures
        out@ == kept(handles@, listeners@, rule),
        forall|i: int| 0 <= i < out@.len() ==> (#[trigger] out@[i]) < listeners@.len(),
{
    let mut out: Vec<u64> = Vec::new();
    let mut i: usize = 0;
    while i < handles.len()
        invariant
            i <= handles.len(),
            forall|k: int| 0 <= k < handles@.len() ==> (#[trigger] handles@[k]) < listeners@.len(),
            out@ == kept(handles@.take(i as int), listeners@, rule),
            forall|k: int| 0 <= k < out@.len() ==> (#[trigger] out@[k]) < listeners@.len(),
        decreases handles.len() - i,
    {
        proof {
            assert(handles@.take(i as int + 1).drop_last() =~= handles@.take(i as int));
        }
        let handle: u64 = handles[i];
        let count: usize = listeners.len();
        assert(handles@[i as int] < count);
        let at: usize = handle as usize;
        let stays = match rule {
            Removal::Callback(callback) => listeners[at].callback != callback,
            Removal::Handle(removed) => handle != removed,
        };
        if stays {
            out.push(handle);
        }
        i += 1;
    }
    proof {
        assert(handles@.take(i as int) =~= handles@);
    }
    out
}

/// The subscription table and the listeners it refers to.
pub struct EventBus {
    table: AHashMap<u64, Vec<u64>>,
    listeners: Vec<Listener>,
}

impl EventBus {
    /// For each kind's code, the handles registered under it.
    pub closed spec fn table(&self) -> Map<u64, Seq<u64>> {
        table_contents(self.table)
    }

    /// Every listener ever registered; a handle is a position in here.
    pub closed spec fn listeners(&self) -> Seq<Listener> {
        self.listeners@
    }

    pub open spec fn wf(&self) -> bool {
        table_fits(self.table(), self.listeners().len())
    }

    /// The handles registered for one kind, oldest first.
    pub open spec fn subscribers(&self, kind: EventKind) -> Seq<u64> {
        filed_under(self.table(), code_of(kind))
    }

    pub fn new() -> (bus: EventBus)
        ensures
            bus.wf(),
            bus.table() == Map::<u64, Seq<u64>>::empty(),
            bus.listeners() == Seq::<Listener>::empty(),
    {
        EventBus { table: table_new(), listeners: Vec::new() }
    }

    /// The handles registered for one kind, oldest first.
    pub fn handles_of(&self, kind: EventKind) -> (handles: Vec<u64>)
        ensures
            handles@ == self.subscribers(kind),
    {
        match table_get(&self.table, kind.code()) {
            Some(found) => found,
            None => Vec::new(),
        }
    }

    /// How many registrations stand under one kind.
    pub fn listener_count(&self, kind: EventKind) -> (count: usize)
        ensures
            count == self.subscribers(kind).len(),
    {
        self.handles_of(kind).len()
    }

    /// Registers one callback for one kind or for the wildcard.
    pub fn subscribe(
        &mut self,
        kind: EventKind,
        callback: u64,
        args: Vec<u64>,
        keywords: Vec<u64>,
    ) -> (handle: u64)
        requires
            old(self).wf(),
        ensures
            final(self).wf(),
            handle == old(self).listeners().len(),
            final(self).listeners() == old(self).listeners().push(
                (Listener { callback, args, keywords }),
            ),
            final(self).table() == old(self).table().insert(
                code_of(kind),
                old(self).subscribers(kind).push(handle),
            ),
    {
        let handle: u64 = self.listeners.len() as u64;
        self.listeners.push(Listener { callback, args, keywords });
        self.file(kind, handle);
        handle
    }

    /// Files a handle behind those already registered for the kind.
    fn file(&mut self, kind: EventKind, handle: u64)
        requires
            table_fits(old(self).table(), old(self).listeners().len()),
            handle < old(self).listeners().len(),
        ensures
            final(self).wf(),
            final(self).listeners() == old(self).listeners(),
            final(self).table() == old(self).table().insert(
                code_of(kind),
                filed_under(old(self).table(), code_of(kind)).push(handle),
            ),
    {
        let code: u64 = kind.code();
        let mut handles = match table_get(&self.table, code) {
            Some(found) => found,
            None => Vec::new(),
        };
        handles.push(handle);
        let ghost filed = handles@;
        table_insert(&mut self.table, code, handles);
        proof {
            let before = old(self).table();
            let after = self.table();
            assert forall|c: u64, i: int|
                after.dom().contains(c) && 0 <= i < after[c].len() implies (#[trigger] after[c][i])
                < self.listeners().len() by {
                if c == code {
                    if i < filed.len() - 1 {
                        assert(before[c][i] < self.listeners().len());
                    }
                } else {
                    assert(before[c][i] < self.listeners().len());
                }
            }
        }
    }

    /// Registers one callback under every target, in the order given. The
    /// one handle returned stands for the registration under all of them.
    pub fn add_listener(
        &mut self,
        targets: &Vec<EventKind>,
        callback: u64,
        args: Vec<u64>,
        keywords: Vec<u64>,
    ) -> (handle: u64)
        requires
            old(self).wf(),
        ensures
            final(self).wf(),
            handle == old(self).listeners().len(),
            final(self).listeners() == old(self).listeners().push(
                (Listener { callback, args, keywords }),
            ),
            final(self).table() == table_after_add(old(self).table(), targets@, handle),
    {
        let handle: u64 = self.listeners.len() as u64;
        self.listeners.push(Listener { callback, args, keywords });
        let ghost listeners = self.listeners();
        proof {
            let t = self.table();
            assert forall|c: u64, i: int|
                t.dom().contains(c) && 0 <= i < t[c].len() implies (#[trigger] t[c][i])
                < listeners.len() by {
                assert(t[c][i] < old(self).listeners().len());
            }
        }
        let mut i: usize = 0;
        while i < targets.len()
            invariant
                i <= targets.len(),
                self.wf(),
                self.listeners() == listeners,
                handle < listeners.len(),
                self.table() == table_after_add(old(self).table(), targets@.take(i as int), handle),
            decreases targets.len() - i,
        {
            proof {
                assert(targets@.take(i as int + 1).drop_last() =~= targets@.take(i as int));
            }
            self.file(targets[i], handle);
            i += 1;
        }
        proof {
            assert(targets@.take(i as int) =~= targets@);
        }
        handle
    }

    /// Takes the registrations that the rule names out of one kind.
    fn prune(&mut self, kind_code: u64, rule: Removal)
        requires
            old(self).wf(),
        ensures
            final(self).wf(),
            final(self).listeners() == old(self).listeners(),
            final(self).table() == if old(self).table().dom().contains(kind_code) {
                old(self).table().insert(
                    kind_code,
                    kept(old(self).table()[kind_code], old(self).listeners(), rule),
                )
            } else {
                old(self).table()
            },
    {
        match table_get(&self.table, kind_code) {
            Some(handles) => {
                proof {
                    assert forall|i: int| 0 <= i < handles@.len() implies (#[trigger] handles@[i])
                        < self.listeners@.len() by {
                        assert(self.table()[kind_code][i] < self.listeners().len());
                    }
                }
                let rest = keep_handles(&handles, &self.listeners, rule);
                table_insert(&mut self.table, kind_code, rest);
                proof {
                    let before = old(self).table();
                    let after = self.table();
                    assert forall|c: u64, i: int|
                        after.dom().contains(c) && 0 <= i < after[c].len() implies (
                    #[trigger] after[c][i]) < self.listeners().len() by {
                        if c != kind_code {
                            assert(before[c][i] < self.listeners().len());
                        }
                    }
                }
            },
            None => {},
        }
    }

    /// Takes the registrations that the rule names out of every kind.
    fn prune_all(&mut self, rule: Removal)
        requires
            old(self).wf(),
        ensures
            final(self).wf(),
            final(self).listeners() == old(self).listeners(),
            final(self).table() == table_without(old(self).table(), old(self).listeners(), rule),
    {
        let ghost before = self.table();
        let ghost listeners = self.listeners();
        let mut code: u64 = 0;
        while code < KIND_COUNT
            invariant
                code <= KIND_COUNT,
                self.wf(),
                table_fits(before, listeners.len()),
                self.listeners() == listeners,
                self.table().dom() =~= before.dom(),
                forall|c: u64| #[trigger]
                    before.dom().contains(c) ==> self.table()[c] == if c < code {
                        kept(before[c], listeners, rule)
                    } else {
                        before[c]
                    },
            decreases KIND_COUNT - code,
        {
            self.prune(code, rule);
            code += 1;
        }
        proof {
            assert(self.table() =~= table_without(before, listeners, rule));
        }
    }

    /// Removes one registration, under whatever kinds it stands.
    pub fn unsubscribe(&mut self, handle: u64)
        requires
            old(self).wf(),
        ensures
            final(self).wf(),
            final(self).listeners() == old(self).listeners(),
            final(self).table() == table_without(
                old(self).table(),
                old(self).listeners(),
                Removal::Handle(handle),
            ),
    {
        self.prune_all(Removal::Handle(handle));
    }

    /// Removes every registration of one callback, under all kinds.
    pub fn remove_callback(&mut self, callback: u64)
        requires
            old(self).wf(),
        ensures
            final(self).wf(),
            final(self).listeners() == old(self).listeners(),
            final(self).table() == table_without(
                old(self).table(),
                old(self).listeners(),
                Removal::Callback(callback),
            ),
    {
        self.prune_all(Removal::Callback(callback));
    }

    /// Removes by target. With the wildcard among the targets the removal
    /// reaches every kind: the callback's registrations, or all of them
    /// where no callback is given. Otherwise it reaches the targets only:
    /// the callback's registrations under each, or each target as a whole.
    pub fn remove_listener(&mut self, targets: &Vec<EventKind>, callback: Option<u64>)
        requires
            old(self).wf(),
        ensures
            final(self).wf(),
            final(self).listeners() == old(self).listeners(),
            final(self).table() == table_after_removal(
                old(self).table(),
                old(self).listeners(),
                targets@,
                callback,
            ),
    {
        if names_wildcard(targets) {
            match callback {
                Some(id) => {
                    self.prune_all(Removal::Callback(id));
                },
                None => {
                    table_clear(&mut self.table);
                },
            }
            return ;
        }
        let ghost listeners = self.listeners();
        let mut i: usize = 0;
        while i < targets.len()
            invariant
                i <= targets.len(),
                self.wf(),
                self.listeners() == listeners,
                listeners == old(self).listeners(),
                self.table() == table_after_targets(
                    old(self).table(),
                    listeners,
                    targets@.take(i as int),
                    callback,
                ),
            decreases targets.len() - i,
        {
            proof {
                assert(targets@.take(i as int + 1).drop_last() =~= targets@.take(i as int));
            }
            let code: u64 = targets[i].code();
            match callback {
                Some(id) => {
                    self.prune(code, Removal::Callback(id));
                },
                None => {
                    table_remove(&mut self.table, code);
                },
            }
            i += 1;
        }
        proof {
            assert(targets@.take(i as int) =~= targets@);
        }
    }

    /// Removes every registration.
    pub fn remove_all_listeners(&mut self)
        ensures
            final(self).wf(),
            final(self).listeners() == old(self).listeners(),
            final(self).table() == Map::<u64, Seq<u64>>::empty(),
    {
        table_clear(&mut self.table);
    }

    /// The handles to call for an event of this kind, in calling order.
    pub fn recipients_of(&self, kind: EventKind) -> (handles: Vec<u64>)
        ensures
            handles@ == recipients(self.table(), kind),
    {
        let mut handles = self.handles_of(kind);
        if kind != EventKind::All {
            let mut wild = self.handles_of(EventKind::All);
            handles.append(&mut wild);
        }
        handles
    }

    /// The calls that publishing `event` asks for, in calling order: one for
    /// each subscriber of its kind, then one for each wildcard subscriber.
    /// Each is called with its own extra arguments, then the event.
    pub fn publish(&self, event: Event) -> (deliveries: Vec<Delivery>)
        requires
            self.wf(),
        ensures
            deliveries@.len() == recipients(self.table(), kind_of(event)).len(),
            forall|i: int|
                0 <= i < deliveries@.len() ==> delivery_matches(
                    #[trigger] deliveries@[i],
                    self.listeners(),
                    recipients(self.table(), kind_of(event))[i],
                    event,
                ),
    {
        let handles = self.recipients_of(event.kind());
        let mut deliveries: Vec<Delivery> = Vec::new();
        let mut i: usize = 0;
        while i < handles.len()
            invariant
                i <= handles.len(),
                self.wf(),
                handles@ == recipients(self.table(), kind_of(event)),
                deliveries@.len() == i,
                forall|k: int|
                    0 <= k < i ==> delivery_matches(
                        #[trigger] deliveries@[k],
                        self.listeners(),
                        handles@[k],
                        event,
                    ),
            decreases handles.len() - i,
        {
            let handle: u64 = handles[i];
            proof {
                lemma_only_matching_kinds_receive(self.table(), kind_of(event), handle);
                let own = filed_under(self.table(), code_of(kind_of(event)));
                let wild = filed_under(self.table(), code_of(EventKind::All));
                if own.contains(handle) {
                    let j = choose|j: int| 0 <= j < own.len() && own[j] == handle;
                    assert(self.table()[code_of(kind_of(event))][j] < self.listeners().len());
                } else {
                    let j = choose|j: int| 0 <= j < wild.len() && wild[j] == handle;
                    assert(self.table()[code_of(EventKind::All)][j] < self.listeners().len());
                }
            }
            let count: usize = self.listeners.len();
            assert(handle < count);
            let at: usize = handle as usize;
            let delivery = deliver(&self.listeners[at], handle, event);
            deliveries.push(delivery);
            i += 1;
        }
        deliveries
    }
}

/// The wildcard is among the targets.
pub fn names_wildcard(targets: &Vec<EventKind>) -> (found: bool)
    ensures
        found == targets@.contains(EventKind::All),
{
    let mut i: usize = 0;
    while i < targets.len()
        invariant
            i <= targets.len(),
            forall|k: int| 0 <= k < i ==> targets@[k] != EventKind::All,
        decreases targets.len() - i,
    {
        if targets[i] == EventKind::All {
            return true;
        }
        i += 1;
    }
    false
}

/// A copy of a run of tokens.
fn copy_tokens(tokens: &Vec<u64>) -> (out: Vec<u64>)
    ensures
        out@ == tokens@,
{
    tokens.clone()
}

/// The call of one listener for one event: its extra arguments, then the
/// event as the last positional argument; its keywords as they are.
pub fn deliver(listener: &Listener, handle: u64, event: Event) -> (delivery: Delivery)
    ensures
        delivery.handle == handle,
        delivery.callback == listener.callback,
        delivery.arguments@ == arguments_for(listener.args@, event),
        delivery.keywords@ == listener.keywords@,
{
    let mut arguments: Vec<Argument> = Vec::new();
    let mut i: usize = 0;
    while i < listener.args.len()
        invariant
            i <= listener.args.len(),
            arguments@ == Seq::new(i as nat, |k: int| Argument::Extra(listener.args@[k])),
        decreases listener.args.len() - i,
    {
        arguments.push(Argument::Extra(listener.args[i]));
        proof {
            assert(arguments@ =~= Seq::new(
                (i + 1) as nat,
                |k: int| Argument::Extra(listener.args@[k]),
            ));
        }
        i += 1;
    }
    arguments.push(Argument::Payload(event));
    Delivery {
        handle,
        callback: listener.callback,
        arguments,
        keywords: copy_tokens(&listener.keywords),
    }
}

} // verus!
