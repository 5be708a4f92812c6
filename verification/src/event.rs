//! The events that the processor publishes, their kinds, and the names by
//! which a subscriber asks for a kind.

use crate::balance::Balance;
use crate::utxo::{Address, UtxoEntry};
use vstd::prelude::*;

verus! {

/// What a subscription can ask for: one kind of event, or all of them.
#[derive(Clone, Copy, Debug, PartialEq, Eq, Structural)]
pub enum EventKind {
    All,
    Connect,
    Disconnect,
    UtxoAdded,
    UtxoRemoved,
    BalanceChanged,
    MaturityReached,
    DaaScoreChanged,
}

/// An event with its payload.
#[derive(Clone, Copy, Debug, PartialEq, Eq, Structural)]
pub enum Event {
    Connect,
    Disconnect,
    UtxoAdded(UtxoEntry),
    UtxoRemoved(UtxoEntry),
    BalanceChanged { address: Address, balance: Balance },
    MaturityReached(UtxoEntry),
    DaaScoreChanged(u64),
}

#[derive(Clone, Copy, Debug, PartialEq, Eq, Structural)]
pub enum EventError {
    /// The text names no kind of event.
    InvalidEventTarget,
}

/// How many kinds there are, the wildcard included.
pub const KIND_COUNT: u64 = 8;

/// The number under which the subscription table files a kind.
pub open spec fn code_of(kind: EventKind) -> u64 {
    match kind {
        EventKind::All => 0,
        EventKind::Connect => 1,
        EventKind::Disconnect => 2,
        EventKind::UtxoAdded => 3,
        EventKind::UtxoRemoved => 4,
        EventKind::BalanceChanged => 5,
        EventKind::MaturityReached => 6,
        EventKind::DaaScoreChanged => 7,
    }
}

/// The kind of an event; never the wildcard.
pub open spec fn kind_of(event: Event) -> EventKind {
    match event {
        Event::Connect => EventKind::Connect,
        Event::Disconnect => EventKind::Disconnect,
        Event::UtxoAdded(_) => EventKind::UtxoAdded,
        Event::UtxoRemoved(_) => EventKind::UtxoRemoved,
        Event::BalanceChanged { .. } => EventKind::BalanceChanged,
        Event::MaturityReached(_) => EventKind::MaturityReached,
        Event::DaaScoreChanged(_) => EventKind::DaaScoreChanged,
    }
}

/// The name of a kind, as subscribers write it and as payloads carry it.
pub open spec fn kind_name(kind: EventKind) -> Seq<char> {
    match kind {
        EventKind::All => "all"@,
        EventKind::Connect => "connect"@,
        EventKind::Disconnect => "disconnect"@,
        EventKind::UtxoAdded => "utxo-added"@,
        EventKind::UtxoRemoved => "utxo-removed"@,
        EventKind::BalanceChanged => "balance-changed"@,
        EventKind::MaturityReached => "maturity-reached"@,
        EventKind::DaaScoreChanged => "daa-score-changed"@,
    }
}

/// The kind that a text names: the wildcard for `all` and for `*`, a kind
/// for its own name, nothing for any other text.
pub open spec fn kind_named(name: Seq<char>) -> Option<EventKind> {
    if name == "all"@ || name == "*"@ {
        Some(EventKind::All)
    } else if name == "connect"@ {
        Some(EventKind::Connect)
    } else if name == "disconnect"@ {
        Some(EventKind::Disconnect)
    } else if name == "utxo-added"@ {
        Some(EventKind::UtxoAdded)
    } else if name == "utxo-removed"@ {
        Some(EventKind::UtxoRemoved)
    } else if name == "balance-changed"@ {
        Some(EventKind::BalanceChanged)
    } else if name == "maturity-reached"@ {
        Some(EventKind::MaturityReached)
    } else if name == "daa-score-changed"@ {
        Some(EventKind::DaaScoreChanged)
    } else {
        None
    }
}

/// What parsing a list of names gives: the kinds, one per name and in the
/// same order, where every name is known.
pub open spec fn all_named(names: Seq<String>, kinds: Seq<EventKind>) -> bool {
    &&& kinds.len() == names.len()
    &&& forall|i: int| 0 <= i < names.len() ==> kind_named(#[trigger] names[i]@) == Some(kinds[i])
}

pub open spec fn some_unnamed(names: Seq<String>) -> bool {
    exists|i: int| 0 <= i < names.len() && kind_named(#[trigger] names[i]@).is_none()
}

impl EventKind {
    pub fn code(self) -> (code: u64)
        ensures
            code == code_of(self),
            code < KIND_COUNT,
    {
        match self {
            EventKind::All => 0,
            EventKind::Connect => 1,
            EventKind::Disconnect => 2,
            EventKind::UtxoAdded => 3,
            EventKind::UtxoRemoved => 4,
            EventKind::BalanceChanged => 5,
            EventKind::MaturityReached => 6,
            EventKind::DaaScoreChanged => 7,
        }
    }

    pub fn name(self) -> (name: &'static str)
        ensures
            name@ == kind_name(self),
    {
        match self {
            EventKind::All => "all",
            EventKind::Connect => "connect",
            EventKind::Disconnect => "disconnect",
            EventKind::UtxoAdded => "utxo-added",
            EventKind::UtxoRemoved => "utxo-removed",
            EventKind::BalanceChanged => "balance-changed",
            EventKind::MaturityReached => "maturity-reached",
            EventKind::DaaScoreChanged => "daa-score-changed",
        }
    }
}

impl Event {
    pub fn kind(&self) -> (kind: EventKind)
        ensures
            kind == kind_of(*self),
            kind != EventKind::All,
    {
        match self {
            Event::Connect => EventKind::Connect,
            Event::Disconnect => EventKind::Disconnect,
            Event::UtxoAdded(_) => EventKind::UtxoAdded,
            Event::UtxoRemoved(_) => EventKind::UtxoRemoved,
            Event::BalanceChanged { .. } => EventKind::BalanceChanged,
            Event::MaturityReached(_) => EventKind::MaturityReached,
            Event::DaaScoreChanged(_) => EventKind::DaaScoreChanged,
        }
    }
}

/// Two texts hold the same characters.
pub fn same_text(left: &str, right: &str) -> (same: bool)
    ensures
        same == (left@ == right@),
{
    let a = left.to_owned();
    let b = right.to_owned();
    a == b
}

/// Reads the name of one kind.
pub fn parse_event_kind(name: &str) -> (result: Result<EventKind, EventError>)
    ensures
        result == match kind_named(name@) {
            Some(kind) => Ok::<EventKind, EventError>(kind),
            None => Err::<EventKind, EventError>(EventError::InvalidEventTarget),
        },
{
    if same_text(name, "all") || same_text(name, "*") {
        Ok(EventKind::All)
    } else if same_text(name, "connect") {
        Ok(EventKind::Connect)
    } else if same_text(name, "disconnect") {
        Ok(EventKind::Disconnect)
    } else if same_text(name, "utxo-added") {
        Ok(EventKind::UtxoAdded)
    } else if same_text(name, "utxo-removed") {
        Ok(EventKind::UtxoRemoved)
    } else if same_text(name, "balance-changed") {
        Ok(EventKind::BalanceChanged)
    } else if same_text(name, "maturity-reached") {
        Ok(EventKind::MaturityReached)
    } else if same_text(name, "daa-score-changed") {
        Ok(EventKind::DaaScoreChanged)
    } else {
        Err(EventError::InvalidEventTarget)
    }
}

/// Reads a list of names. One unknown name fails the whole list.
pub fn parse_event_targets(names: &Vec<String>) -> (result: Result<Vec<EventKind>, EventError>)
    ensures
        match result {
            Ok(kinds) => all_named(names@, kinds@),
            Err(error) => error == EventError::InvalidEventTarget && some_unnamed(names@),
        },
{
    let mut kinds: Vec<EventKind> = Vec::new();
    let mut i: usize = 0;
    while i < names.len()
        invariant
            i <= names.len(),
            kinds@.len() == i,
            forall|k: int| 0 <= k < i ==> kind_named(#[trigger] names@[k]@) == Some(kinds@[k]),
        decreases names.len() - i,
    {
        match parse_event_kind(names[i].as_str()) {
            Ok(kind) => {
                kinds.push(kind);
            },
            Err(error) => {
                assert(kind_named(names@[i as int]@).is_none());
                return Err(error);
            },
        }
        i += 1;
    }
    Ok(kinds)
}

} // verus!
