//! Tracking of a wallet's unspent outputs: the index, the maturity policy,
//! balances, the event bus and the lifecycle of the processor.

pub mod balance;
pub mod bus;
pub mod diagnostic;
pub mod event;
pub mod lifecycle;
pub mod maturity;
pub mod processor;
pub mod utxo;
