//! A minimal primary/backup failover core: a producer emits sequenced
//! records and liveness signals; a monitor watches those signals with a
//! dead-man's-switch and decides when to promote a standby producer.
//!
//! This crate holds the decision logic only. Signal text is parsed and
//! produced here, and the monitor's state machine is a pure function from
//! state and event to next state and action. The surrounding process
//! (socket I/O, timers, threads) drives these functions from outside.
pub mod monitor;
pub mod producer;
pub mod signal;
