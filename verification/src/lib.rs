//! Wallet risk analysis: classify a snapshot of a wallet's unspent outputs
//! into grouped risk findings, driven by a sequential orchestrator state
//! machine.
//!
//! Three independent classifiers each read the same immutable output
//! snapshot: one flags outputs held on legacy addresses, one flags outputs
//! staked under credentials the wallet never declared as its reward
//! credentials, and one flags outputs staked under credentials missing from
//! the wallet's own used-address bookkeeping. The orchestrator sequences the
//! collaborator calls that feed them and emits one event per completed
//! stage, or a single terminal error event when a collaborator call fails.

pub mod address;
pub mod classifiers;
pub mod credentials;
pub mod orchestrator;
pub mod finding;
pub mod outputs;
pub mod report;
pub mod selection;
