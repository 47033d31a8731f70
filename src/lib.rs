//! A deterministic simulator of a chain of contracts: contract programs are registered
//! by id and instantiated at addresses; top-level calls dispatch to them, carry out the
//! messages they return (further calls, transfers, delegation operations), call them
//! back with replies, and commit or revert every store as the call tree succeeds or
//! fails. A compact binary serializer comes with it.
pub mod bank;
pub mod bin_serde;
pub mod context;
pub mod ensemble;
pub mod protocol;
pub mod response;
pub mod revertable;
pub mod staking;
pub mod storage;
pub mod types;
