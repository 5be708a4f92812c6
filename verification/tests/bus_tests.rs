use utxo_processor::balance::Balance;
use utxo_processor::bus::{deliver, names_wildcard, Argument, EventBus, Listener};
use utxo_processor::diagnostic::{collect_failures, trace_text, CallOutcome};
use utxo_processor::event::{
    parse_event_kind, parse_event_targets, same_text, Event, EventError, EventKind,
};
use utxo_processor::lifecycle::{
    applies_notifications, is_active, step, LifecycleAction, LifecycleError, LifecycleInput,
    LifecycleState,
};
use utxo_processor::maturity::{
    is_mature, Depths, MaturityPolicy, NetworkId, NetworkType, TransactionClass,
};
use utxo_processor::processor::{
    apply_changes, differences_with, holds_outpoint, reconcile, Notification, PyUtxoProcessor,
};
use utxo_processor::utxo::{Address, Change, Outpoint, UtxoEntry, UtxoIndex};

fn entry(n: u128, address: u64, amount: u64, score: u64) -> UtxoEntry {
    UtxoEntry {
        outpoint: Outpoint { transaction_id_high: 1, transaction_id_low: n, index: 0 },
        address: Address { id: address },
        amount,
        block_daa_score: score,
        is_coinbase: false,
    }
}

fn active_processor() -> PyUtxoProcessor {
    let mut p = PyUtxoProcessor::ctor(NetworkId { network_type: NetworkType::Mainnet, suffix: 0 });
    assert_eq!(p.handle(LifecycleInput::Start), LifecycleAction::AwaitTransport);
    assert_eq!(p.handle(LifecycleInput::TransportReady), LifecycleAction::Subscribe);
    assert_eq!(p.handle(LifecycleInput::SyncCompleted), LifecycleAction::Nothing);
    assert_eq!(p.state, LifecycleState::Active);
    p
}

const ALL_EVENTS: [Event; 7] = [
    Event::Connect,
    Event::Disconnect,
    Event::UtxoAdded(UtxoEntry {
        outpoint: Outpoint { transaction_id_high: 0, transaction_id_low: 0, index: 0 },
        address: Address { id: 0 },
        amount: 0,
        block_daa_score: 0,
        is_coinbase: false,
    }),
    Event::UtxoRemoved(UtxoEntry {
        outpoint: Outpoint { transaction_id_high: 0, transaction_id_low: 0, index: 0 },
        address: Address { id: 0 },
        amount: 0,
        block_daa_score: 0,
        is_coinbase: false,
    }),
    Event::BalanceChanged {
        address: Address { id: 0 },
        balance: Balance { mature: 0, pending: 0, total: 0, pending_count: 0 },
    },
    Event::MaturityReached(UtxoEntry {
        outpoint: Outpoint { transaction_id_high: 0, transaction_id_low: 0, index: 0 },
        address: Address { id: 0 },
        amount: 0,
        block_daa_score: 0,
        is_coinbase: false,
    }),
    Event::DaaScoreChanged(0),
];

#[test]
fn parse_known_names() {
    assert_eq!(parse_event_kind("all"), Ok(EventKind::All));
    assert_eq!(parse_event_kind("*"), Ok(EventKind::All));
    assert_eq!(parse_event_kind("connect"), Ok(EventKind::Connect));
    assert_eq!(parse_event_kind("disconnect"), Ok(EventKind::Disconnect));
    assert_eq!(parse_event_kind("utxo-added"), Ok(EventKind::UtxoAdded));
    assert_eq!(parse_event_kind("utxo-removed"), Ok(EventKind::UtxoRemoved));
    assert_eq!(parse_event_kind("balance-changed"), Ok(EventKind::BalanceChanged));
    assert_eq!(parse_event_kind("maturity-reached"), Ok(EventKind::MaturityReached));
    assert_eq!(parse_event_kind("daa-score-changed"), Ok(EventKind::DaaScoreChanged));
}

#[test]
fn parse_rejects_unknown_names() {
    assert_eq!(parse_event_kind(""), Err(EventError::InvalidEventTarget));
    assert_eq!(parse_event_kind("ALL"), Err(EventError::InvalidEventTarget));
    assert_eq!(parse_event_kind("utxo_added"), Err(EventError::InvalidEventTarget));
    assert_eq!(parse_event_kind("utxo-added "), Err(EventError::InvalidEventTarget));
}

#[test]
fn names_round_trip() {
    let kinds = [
        EventKind::All,
        EventKind::Connect,
        EventKind::Disconnect,
        EventKind::UtxoAdded,
        EventKind::UtxoRemoved,
        EventKind::BalanceChanged,
        EventKind::MaturityReached,
        EventKind::DaaScoreChanged,
    ];
    for (i, kind) in kinds.iter().enumerate() {
        assert_eq!(parse_event_kind(kind.name()), Ok(*kind));
        assert_eq!(kind.code(), i as u64);
    }
    assert!(same_text("reorg", "reorg"));
    assert!(!same_text("reorg", "reorg "));
}

#[test]
fn parse_targets_all_or_nothing() {
    let good = vec!["utxo-added".to_string(), "all".to_string(), "utxo-added".to_string()];
    assert_eq!(
        parse_event_targets(&good),
        Ok(vec![EventKind::UtxoAdded, EventKind::All, EventKind::UtxoAdded])
    );
    let bad = vec!["utxo-added".to_string(), "nope".to_string()];
    assert_eq!(parse_event_targets(&bad), Err(EventError::InvalidEventTarget));
    assert_eq!(parse_event_targets(&Vec::new()), Ok(Vec::new()));
}

#[test]
fn utxo_added_is_dispatched_once() {
    let mut bus = EventBus::new();
    let targets = parse_event_targets(&vec!["utxo-added".to_string()]).unwrap();
    let handle = bus.add_listener(&targets, 42, vec![], vec![]);
    let mut p = active_processor();
    let own = p.add_event_listener(Some(&targets), 42, vec![], vec![]);
    assert_eq!(own, handle);
    let a = entry(1, 7, 100, 5);
    let out = p.ingest(Notification::UtxoAdded(a), Depths { coinbase: 100, user: 10 });
    let mut calls = Vec::new();
    let mut own_calls = 0;
    for event in out.events.iter() {
        calls.extend(bus.publish(*event));
        own_calls += p.publish(*event).len();
    }
    assert_eq!(own_calls, 1);
    assert_eq!(calls.len(), 1);
    assert_eq!(calls[0].handle, handle);
    assert_eq!(calls[0].callback, 42);
    assert_eq!(calls[0].arguments, vec![Argument::Payload(Event::UtxoAdded(a))]);
    match calls[0].arguments[0] {
        Argument::Payload(event) => {
            assert_eq!(event.kind().name(), "utxo-added");
            match event {
                Event::UtxoAdded(e) => {
                    assert_eq!(e.address, Address { id: 7 });
                    assert_eq!(e.amount, 100);
                }
                _ => panic!("wrong payload"),
            }
        }
        _ => panic!("the event must be the last argument"),
    }
}

#[test]
fn wildcard_receives_every_kind() {
    let mut bus = EventBus::new();
    let wild = bus.subscribe(EventKind::All, 1, vec![], vec![]);
    let added = bus.subscribe(EventKind::UtxoAdded, 2, vec![], vec![]);
    for event in ALL_EVENTS.iter() {
        let calls = bus.publish(*event);
        if event.kind() == EventKind::UtxoAdded {
            assert_eq!(calls.len(), 2);
            assert_eq!(calls[0].handle, added);
            assert_eq!(calls[1].handle, wild);
        } else {
            assert_eq!(calls.len(), 1);
            assert_eq!(calls[0].handle, wild);
        }
    }
}

#[test]
fn registration_order_is_calling_order() {
    let mut bus = EventBus::new();
    let a = bus.subscribe(EventKind::Connect, 1, vec![], vec![]);
    let w = bus.subscribe(EventKind::All, 2, vec![], vec![]);
    let b = bus.subscribe(EventKind::Connect, 3, vec![], vec![]);
    assert_eq!(bus.handles_of(EventKind::Connect), vec![a, b]);
    assert_eq!(bus.recipients_of(EventKind::Connect), vec![a, b, w]);
    assert_eq!(bus.recipients_of(EventKind::All), vec![w]);
    assert_eq!(bus.listener_count(EventKind::Connect), 2);
    assert_eq!(bus.listener_count(EventKind::Disconnect), 0);
}

#[test]
fn extra_arguments_come_before_the_event() {
    let listener = Listener { callback: 5, args: vec![10, 11], keywords: vec![20] };
    let d = deliver(&listener, 3, Event::DaaScoreChanged(9));
    assert_eq!(d.handle, 3);
    assert_eq!(d.callback, 5);
    assert_eq!(
        d.arguments,
        vec![Argument::Extra(10), Argument::Extra(11), Argument::Payload(Event::DaaScoreChanged(9))]
    );
    assert_eq!(d.keywords, vec![20]);
}

#[test]
fn removing_a_callback_removes_it_from_all_kinds() {
    let mut bus = EventBus::new();
    let targets = vec![EventKind::Connect, EventKind::UtxoAdded, EventKind::All];
    bus.add_listener(&targets, 1, vec![], vec![]);
    let other = bus.add_listener(&vec![EventKind::Connect], 2, vec![], vec![]);
    bus.remove_callback(1);
    assert_eq!(bus.recipients_of(EventKind::Connect), vec![other]);
    assert_eq!(bus.recipients_of(EventKind::UtxoAdded), Vec::<u64>::new());
    assert_eq!(bus.recipients_of(EventKind::All), Vec::<u64>::new());
}

#[test]
fn one_listener_under_several_targets() {
    let mut bus = EventBus::new();
    let h = bus.add_listener(&vec![EventKind::Connect, EventKind::Connect, EventKind::Disconnect], 1, vec![], vec![]);
    assert_eq!(bus.handles_of(EventKind::Connect), vec![h, h]);
    assert_eq!(bus.handles_of(EventKind::Disconnect), vec![h]);
    bus.unsubscribe(h);
    assert_eq!(bus.handles_of(EventKind::Connect), Vec::<u64>::new());
    assert_eq!(bus.handles_of(EventKind::Disconnect), Vec::<u64>::new());
}

#[test]
fn remove_listener_by_target() {
    let mut bus = EventBus::new();
    let a = bus.subscribe(EventKind::Connect, 1, vec![], vec![]);
    let b = bus.subscribe(EventKind::Connect, 2, vec![], vec![]);
    let c = bus.subscribe(EventKind::Disconnect, 1, vec![], vec![]);
    let d = bus.subscribe(EventKind::UtxoAdded, 1, vec![], vec![]);
    bus.remove_listener(&vec![EventKind::Connect], Some(1));
    assert_eq!(bus.handles_of(EventKind::Connect), vec![b]);
    assert_eq!(bus.handles_of(EventKind::Disconnect), vec![c]);
    bus.remove_listener(&vec![EventKind::Connect, EventKind::Disconnect], None);
    assert_eq!(bus.handles_of(EventKind::Connect), Vec::<u64>::new());
    assert_eq!(bus.handles_of(EventKind::Disconnect), Vec::<u64>::new());
    assert_eq!(bus.handles_of(EventKind::UtxoAdded), vec![d]);
    let _ = a;
}

#[test]
fn remove_listener_with_wildcard_target() {
    let mut bus = EventBus::new();
    let a = bus.subscribe(EventKind::Connect, 1, vec![], vec![]);
    let b = bus.subscribe(EventKind::Disconnect, 2, vec![], vec![]);
    bus.subscribe(EventKind::All, 1, vec![], vec![]);
    bus.remove_listener(&vec![EventKind::UtxoAdded, EventKind::All], Some(1));
    assert_eq!(bus.handles_of(EventKind::Connect), Vec::<u64>::new());
    assert_eq!(bus.handles_of(EventKind::All), Vec::<u64>::new());
    assert_eq!(bus.handles_of(EventKind::Disconnect), vec![b]);
    bus.remove_listener(&vec![EventKind::All], None);
    assert_eq!(bus.handles_of(EventKind::Disconnect), Vec::<u64>::new());
    assert!(names_wildcard(&vec![EventKind::Connect, EventKind::All]));
    assert!(!names_wildcard(&vec![EventKind::Connect]));
    let _ = a;
}

#[test]
fn remove_all_listeners_empties_the_bus() {
    let mut bus = EventBus::new();
    bus.subscribe(EventKind::Connect, 1, vec![], vec![]);
    bus.subscribe(EventKind::All, 2, vec![], vec![]);
    bus.remove_all_listeners();
    for event in ALL_EVENTS.iter() {
        assert!(bus.publish(*event).is_empty());
    }
    let h = bus.subscribe(EventKind::Connect, 3, vec![], vec![]);
    assert_eq!(h, 2);
    assert_eq!(bus.publish(Event::Connect).len(), 1);
}

#[test]
fn failed_listener_does_not_stop_delivery() {
    let mut bus = EventBus::new();
    let first = bus.subscribe(EventKind::Connect, 1, vec![], vec![]);
    let second = bus.subscribe(EventKind::Connect, 2, vec![], vec![]);
    let calls = bus.publish(Event::Connect);
    assert_eq!(calls.len(), 2);
    let mut outcomes = Vec::new();
    let mut received = Vec::new();
    for call in calls.iter() {
        if call.callback == 1 {
            let trace = trace_text(Some(vec!["Traceback\n".to_string(), "boom\n".to_string()]));
            outcomes.push(CallOutcome { handle: call.handle, failure: Some(trace) });
        } else {
            received.push(call.handle);
            outcomes.push(CallOutcome { handle: call.handle, failure: None });
        }
    }
    let failures = collect_failures(outcomes);
    assert_eq!(failures.len(), 1);
    assert_eq!(failures[0].handle, first);
    assert_eq!(failures[0].trace, "Traceback\nboom\n");
    assert_eq!(received, vec![second]);
}

#[test]
fn failures_keep_calling_order() {
    let outcomes = vec![
        CallOutcome { handle: 3, failure: Some("a".to_string()) },
        CallOutcome { handle: 1, failure: None },
        CallOutcome { handle: 2, failure: Some("b".to_string()) },
    ];
    let failures = collect_failures(outcomes);
    let seen: Vec<(u64, String)> = failures.into_iter().map(|f| (f.handle, f.trace)).collect();
    assert_eq!(seen, vec![(3, "a".to_string()), (2, "b".to_string())]);
    assert!(collect_failures(Vec::new()).is_empty());
}

#[test]
fn trace_text_falls_back() {
    assert_eq!(trace_text(None), "<Failed to retrieve traceback>");
    assert_eq!(trace_text(Some(vec![])), "");
    assert_eq!(trace_text(Some(vec!["x".to_string(), "y".to_string()])), "xy");
}

#[test]
fn start_twice_subscribes_once() {
    let mut p = PyUtxoProcessor::ctor(NetworkId { network_type: NetworkType::Mainnet, suffix: 0 });
    assert_eq!(p.handle(LifecycleInput::Start), LifecycleAction::AwaitTransport);
    assert_eq!(p.handle(LifecycleInput::Start), LifecycleAction::Nothing);
    assert_eq!(p.state, LifecycleState::Connecting);
    assert_eq!(p.handle(LifecycleInput::TransportReady), LifecycleAction::Subscribe);
    assert_eq!(p.handle(LifecycleInput::Start), LifecycleAction::Nothing);
    assert_eq!(p.state, LifecycleState::Syncing);
}

#[test]
fn stop_is_terminal_and_idempotent() {
    let mut p = active_processor();
    assert_eq!(p.handle(LifecycleInput::Stop), LifecycleAction::TearDown);
    assert_eq!(p.handle(LifecycleInput::Stop), LifecycleAction::Nothing);
    assert_eq!(p.handle(LifecycleInput::Start), LifecycleAction::Nothing);
    assert_eq!(p.state, LifecycleState::Stopped);
    let out = p.ingest(Notification::ConnectionStateChanged(true), Depths { coinbase: 0, user: 0 });
    assert!(out.events.is_empty());
    assert_eq!(out.action, LifecycleAction::Nothing);
    let idle = step(LifecycleState::Idle, LifecycleInput::Stop);
    assert_eq!((idle.state, idle.action), (LifecycleState::Stopped, LifecycleAction::Nothing));
}

#[test]
fn failed_start_returns_to_idle() {
    let t = step(LifecycleState::Connecting, LifecycleInput::TransportFailed);
    assert_eq!(t.state, LifecycleState::Idle);
    assert_eq!(t.action, LifecycleAction::Fail(LifecycleError::TransportUnavailable));
    let t = step(LifecycleState::Syncing, LifecycleInput::SubscriptionFailed);
    assert_eq!(t.state, LifecycleState::Idle);
    assert_eq!(t.action, LifecycleAction::Fail(LifecycleError::SubscriptionFailed));
    let t = step(LifecycleState::Syncing, LifecycleInput::TransportLost);
    assert_eq!(t.action, LifecycleAction::Fail(LifecycleError::TransportUnavailable));
}

#[test]
fn reconnect_cycle() {
    let mut p = active_processor();
    let a = entry(1, 7, 100, 5);
    let depths = Depths { coinbase: 100, user: 10 };
    p.ingest(Notification::UtxoAdded(a), depths);
    let out = p.ingest(Notification::ConnectionStateChanged(false), depths);
    assert_eq!(out.events, vec![Event::Disconnect]);
    assert_eq!(out.action, LifecycleAction::AwaitTransport);
    assert_eq!(p.state, LifecycleState::Reconnecting);
    assert!(!applies_notifications(p.state));
    let dropped = p.ingest(Notification::UtxoAdded(entry(2, 7, 5, 5)), depths);
    assert!(dropped.events.is_empty());
    assert_eq!(p.index.all(), vec![a]);
    let out = p.ingest(Notification::ConnectionStateChanged(true), depths);
    assert_eq!(out.events, vec![Event::Connect]);
    assert_eq!(out.action, LifecycleAction::Reconcile);
    assert_eq!(p.handle(LifecycleInput::SyncCompleted), LifecycleAction::Nothing);
    assert_eq!(p.state, LifecycleState::Active);
}

#[test]
fn is_active_needs_all_three() {
    assert!(is_active(Some(true), true, true));
    assert!(!is_active(None, true, true));
    assert!(!is_active(Some(false), true, true));
    assert!(!is_active(Some(true), false, true));
    assert!(!is_active(Some(true), true, false));
}

#[test]
fn ingest_announces_change_and_balance() {
    let mut p = active_processor();
    let depths = Depths { coinbase: 100, user: 10 };
    let a = entry(1, 7, 100, 5);
    let out = p.ingest(Notification::UtxoAdded(a), depths);
    assert_eq!(
        out.events,
        vec![
            Event::UtxoAdded(a),
            Event::BalanceChanged {
                address: Address { id: 7 },
                balance: Balance { mature: 0, pending: 100, total: 100, pending_count: 1 },
            },
        ]
    );
    let again = p.ingest(Notification::UtxoAdded(a), depths);
    assert!(again.events.is_empty());
    let tip = p.ingest(Notification::ReorgOccurred(15), depths);
    assert_eq!(tip.events, vec![Event::DaaScoreChanged(15), Event::MaturityReached(a)]);
    assert_eq!(p.tip_daa_score, 15);
    let same = p.ingest(Notification::ReorgOccurred(16), depths);
    assert_eq!(same.events, vec![Event::DaaScoreChanged(16)]);
    let gone = p.ingest(Notification::UtxoRemoved(a.outpoint), depths);
    assert_eq!(
        gone.events,
        vec![
            Event::UtxoRemoved(a),
            Event::BalanceChanged {
                address: Address { id: 7 },
                balance: Balance { mature: 0, pending: 0, total: 0, pending_count: 0 },
            },
        ]
    );
    let absent = p.ingest(Notification::UtxoRemoved(a.outpoint), depths);
    assert!(absent.events.is_empty());
}

#[test]
fn network_id_can_be_changed() {
    let mut p = PyUtxoProcessor::ctor(NetworkId { network_type: NetworkType::Mainnet, suffix: 0 });
    let other = NetworkId { network_type: NetworkType::Testnet, suffix: 10 };
    assert_eq!(
        p.get_network_id(),
        Some(NetworkId { network_type: NetworkType::Mainnet, suffix: 0 })
    );
    p.set_network_id(other);
    assert_eq!(p.get_network_id(), Some(other));
    assert_eq!(p.state, LifecycleState::Idle);
}

#[test]
fn reconcile_with_unchanged_remote_emits_nothing() {
    let mut index = UtxoIndex::new();
    let a = entry(1, 7, 100, 5);
    let b = entry(2, 8, 200, 5);
    index.insert(a).unwrap();
    index.insert(b).unwrap();
    let events = reconcile(&mut index, &vec![b, a]);
    assert!(events.is_empty());
    assert_eq!(index.all(), vec![a, b]);
}

#[test]
fn reconcile_emits_one_event_per_difference() {
    let mut index = UtxoIndex::new();
    let a = entry(1, 7, 100, 5);
    let b = entry(2, 8, 200, 5);
    let c = entry(3, 7, 300, 6);
    let d = entry(4, 9, 400, 6);
    index.insert(a).unwrap();
    index.insert(b).unwrap();
    let remote = vec![c, b, d];
    assert_eq!(
        differences_with(&index, &remote),
        vec![Change::Remove(a.outpoint), Change::Add(c), Change::Add(d)]
    );
    let events = reconcile(&mut index, &remote);
    assert_eq!(events, vec![Event::UtxoRemoved(a), Event::UtxoAdded(c), Event::UtxoAdded(d)]);
    assert_eq!(index.all(), vec![b, c, d]);
    assert!(reconcile(&mut index, &remote).is_empty());
    assert!(holds_outpoint(&remote, d.outpoint));
    assert!(!holds_outpoint(&remote, a.outpoint));
}

#[test]
fn apply_changes_skips_rejected() {
    let mut index = UtxoIndex::new();
    let a = entry(1, 7, 100, 5);
    let events = apply_changes(
        &mut index,
        &vec![Change::Remove(a.outpoint), Change::Add(a), Change::Add(a), Change::Remove(a.outpoint)],
    );
    assert_eq!(events, vec![Event::UtxoAdded(a), Event::UtxoRemoved(a)]);
    assert!(index.is_empty());
}

#[test]
fn processor_is_active_only_in_steady_state() {
    let mut p = PyUtxoProcessor::ctor(NetworkId { network_type: NetworkType::Mainnet, suffix: 0 });
    assert!(!p.get_is_active(Some(true)));
    assert_eq!(p.start(), LifecycleAction::AwaitTransport);
    assert!(!p.get_is_active(Some(true)));
    p.handle(LifecycleInput::TransportReady);
    assert!(!p.get_is_active(Some(true)));
    p.handle(LifecycleInput::SyncCompleted);
    assert!(p.get_is_active(Some(true)));
    assert!(!p.get_is_active(Some(false)));
    assert!(!p.get_is_active(None));
    assert_eq!(p.start(), LifecycleAction::Nothing);
    assert_eq!(p.stop(), LifecycleAction::TearDown);
    assert_eq!(p.stop(), LifecycleAction::Nothing);
    assert!(!p.get_is_active(Some(true)));
}

#[test]
fn stopped_processor_fires_no_event() {
    let mut p = active_processor();
    p.add_event_listener(None, 1, vec![], vec![]);
    assert_eq!(p.publish(Event::Connect).len(), 1);
    p.stop();
    assert!(p.publish(Event::Connect).is_empty());
}

#[test]
fn processor_listener_removal() {
    let mut p = PyUtxoProcessor::ctor(NetworkId { network_type: NetworkType::Mainnet, suffix: 0 });
    let a = p.add_event_listener(
        Some(&vec![EventKind::Connect, EventKind::Disconnect]),
        1,
        vec![9],
        vec![8],
    );
    let b = p.add_event_listener(Some(&vec![EventKind::Connect]), 2, vec![], vec![]);
    let calls = p.publish(Event::Connect);
    assert_eq!(calls.len(), 2);
    assert_eq!(calls[0].arguments, vec![Argument::Extra(9), Argument::Payload(Event::Connect)]);
    assert_eq!(calls[0].keywords, vec![8]);
    p.remove_event_listener(None, None);
    assert_eq!(p.callbacks.handles_of(EventKind::Connect), vec![a, b]);
    p.remove_event_listener(None, Some(1));
    assert_eq!(p.callbacks.handles_of(EventKind::Connect), vec![b]);
    assert_eq!(p.callbacks.handles_of(EventKind::Disconnect), Vec::<u64>::new());
    p.remove_event_listener(Some(&vec![EventKind::Connect]), Some(2));
    assert_eq!(p.callbacks.handles_of(EventKind::Connect), Vec::<u64>::new());
    let c = p.add_event_listener(Some(&vec![EventKind::Connect]), 3, vec![], vec![]);
    p.remove_event_listener(Some(&vec![EventKind::Connect]), None);
    assert!(p.publish(Event::Connect).is_empty());
    p.add_event_listener(None, 3, vec![], vec![]);
    assert_eq!(p.callbacks.handles_of(EventKind::All).len(), 1);
    p.remove_all_event_listeners();
    assert!(p.publish(Event::Connect).is_empty());
    let _ = c;
}

#[test]
fn maturity_setters_reach_one_class_of_one_network() {
    let mut policy = MaturityPolicy::new();
    let x = NetworkId { network_type: NetworkType::Devnet, suffix: 0 };
    let y = NetworkId { network_type: NetworkType::Simnet, suffix: 0 };
    PyUtxoProcessor::set_coinbase_transaction_maturity_daa(&mut policy, x, 10);
    PyUtxoProcessor::set_user_transaction_maturity_daa(&mut policy, x, 2);
    assert_eq!(policy.depths(x), Depths { coinbase: 10, user: 2 });
    assert_eq!(policy.required_confirmations(y, TransactionClass::Coinbase), 100);
    let mut coinbase = entry(1, 7, 100, 5);
    coinbase.is_coinbase = true;
    assert!(!is_mature(&coinbase, 10, policy.depths(x)));
    assert!(is_mature(&coinbase, 15, policy.depths(x)));
}

#[test]
fn failed_start_leaves_an_empty_index() {
    let mut p = PyUtxoProcessor::ctor(NetworkId { network_type: NetworkType::Mainnet, suffix: 0 });
    p.start();
    p.handle(LifecycleInput::TransportReady);
    p.index.insert(entry(1, 7, 100, 5)).unwrap();
    assert_eq!(
        p.handle(LifecycleInput::SubscriptionFailed),
        LifecycleAction::Fail(LifecycleError::SubscriptionFailed)
    );
    assert_eq!(p.state, LifecycleState::Idle);
    assert!(p.index.is_empty());
    assert_eq!(p.start(), LifecycleAction::AwaitTransport);
    p.handle(LifecycleInput::TransportReady);
    p.index.insert(entry(1, 7, 100, 5)).unwrap();
    let out = p.ingest(Notification::ConnectionStateChanged(false), Depths { coinbase: 1, user: 1 });
    assert_eq!(out.action, LifecycleAction::Fail(LifecycleError::TransportUnavailable));
    assert_eq!(out.events, vec![Event::Disconnect]);
    assert!(p.index.is_empty());
}
