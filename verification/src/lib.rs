//! Core of a proof-of-stake blockchain shell node: a deterministic state
//! machine that bootstraps the chain from peers, maintains a mempool of
//! pending operations, and prevalidates endorsements against cached rights.

pub mod assoc;
pub mod binary_message;
pub mod bootstrap;
pub mod codec;
pub mod context;
pub mod echo;
pub mod effects;
pub mod generator;
pub mod hash;
pub mod ipc_context;
pub mod mempool;
pub mod messages;
pub mod network;
pub mod prechecker;
pub mod router;
pub mod rpc;
pub mod storage;
pub mod store;
pub mod tezedge_state;
pub mod wire;
