//! Single-decree Paxos: the rules by which an agent promises, accepts, learns
//! and proposes, each with a machine-checked contract, and a proof that
//! agents that follow these rules never learn two different values.
//!
//! - `state`: proposal numbers and their order, and the two records that an
//!   agent holds.
//! - `acceptor`: the handlers for prepare, accept and choose requests.
//! - `proposer`: the proposer as a step function from phase and event to
//!   phase and action.
//! - `rpc`: quorum sizes, backoff, and when a broadcast is complete.
//! - `config`: how an agent settles its place in the cluster.
//! - `cluster`: a cluster as a whole, moving by the rules above.
//! - `safety`: agreement, proved of every run of a cluster.

pub mod acceptor;
pub mod cluster;
pub mod config;
pub mod proposer;
pub mod rpc;
pub mod safety;
pub mod state;
