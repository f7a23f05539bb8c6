//! A fixed-capacity registry of uniquely identified access tokens.
//!
//! The registry issues, transfers, sells and retires tokens, recycles the
//! identifiers of retired tokens, and describes the remote calls that keep an
//! external group-membership roster in line with token ownership.  Every
//! operation is a function from the current state and a snapshot of the host
//! (caller, clock, attached deposit, storage measurements, observed remote
//! results) to the next state and the effects the host has to perform.

pub mod allocator;
pub mod approval;
pub mod assoc;
pub mod codec;
pub mod contract;
pub mod error;
pub mod guard;
pub mod laws;
pub mod metadata;
pub mod ownership;
pub mod registry;
pub mod sale;
pub mod storage;
pub mod sync;
pub mod text;
