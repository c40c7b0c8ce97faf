//! Rules of a toolkit for tokenized real-world assets.
//!
//! Four contracts, each a plain value whose methods are its entry points:
//!
//! * [`compliance`]: the KYC allowlist and the jurisdiction rules;
//! * [`asset_token`]: a token whose every movement needs the consent of compliance;
//! * [`registry`]: the index of all tokenized assets;
//! * [`dividend`]: distributions paid to the holders of an asset.
//!
//! A contract value holds what the contract keeps in ledger storage. What one
//! call learns from the ledger and leaves behind there (the sequence number,
//! who signed, events, lifetime extensions) is an
//! [`invocation::Invocation`]. A call that needs something from outside (a
//! signature, the answer of another contract) returns an `Abort` that names
//! it; the caller obtains it and makes the call again. A call that returns an
//! `Abort` has changed nothing.
//!
//! Beside each contract stand two modules of proofs: what every single call
//! does, told by its inputs and results, and what holds across calls.

pub mod address;
pub mod amounts;
pub mod index;
pub mod invocation;
pub mod roles;
pub mod seen;
pub mod table;
pub mod asset_token;
pub mod asset_token_behavior;
pub mod asset_token_laws;
pub mod compliance;
pub mod compliance_behavior;
pub mod compliance_laws;
pub mod dividend;
pub mod dividend_behavior;
pub mod dividend_laws;
pub mod registry;
pub mod registry_behavior;
pub mod registry_laws;
