//! Message layer of a cross-chain token-transfer bridge: a self-describing
//! binary codec for sequenced, sender-addressed manager messages wrapped in
//! transport-prefixed endpoint messages, the canonical keccak-256 digest used
//! for attestation, and the replay-protected acceptance state machine that
//! records each externally attested message exactly once.

pub mod chain_id;
pub mod endpoint;
pub mod error;
pub mod keccak;
pub mod manager;
pub mod payload;
pub mod receive;
pub mod sibling;
pub mod store;
pub mod wire;
