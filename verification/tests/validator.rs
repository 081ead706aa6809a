use ntt_messages::chain_id::ChainId;
use ntt_messages::error::NttError;
use ntt_messages::manager::ManagerMessage;
use ntt_messages::payload::{BytesPayload, RoutedPayload, TransferPayload};
use ntt_messages::receive::{receive_message, Config, ReceiveMessage};
use ntt_messages::sibling::{Sibling, SiblingRegistry};
use ntt_messages::store::ValidatedMessageStore;

fn transfer(sequence: u64, sender_byte: u8, to_chain: u16, body: Vec<u8>) -> ManagerMessage<TransferPayload> {
    ManagerMessage {
        sequence,
        sender: [sender_byte; 32],
        payload: TransferPayload { to_chain: ChainId { id: to_chain }, body },
    }
}

fn attested(
    emitter_chain: u16,
    emitter_address: [u8; 32],
    message: ManagerMessage<TransferPayload>,
) -> ReceiveMessage<TransferPayload> {
    ReceiveMessage {
        emitter_chain: ChainId { id: emitter_chain },
        emitter_address,
        message_data: message,
    }
}

#[test]
fn digest_is_deterministic() {
    let m = transfer(11, 0x21, 2, vec![1, 2, 3]);
    let chain = ChainId { id: 2 };
    assert_eq!(m.keccak256(chain), m.keccak256(chain));
}

#[test]
fn digest_matches_hash_of_layout() {
    let m = transfer(0x01020304, 0x21, 0x0002, vec![0xAA]);
    let chain = ChainId { id: 0x00FF };
    let mut bytes: Vec<u8> = vec![0x00, 0xFF];
    bytes.extend_from_slice(&m.encode().unwrap());
    let expected = solana_program::keccak::hash(&bytes).to_bytes();
    assert_eq!(m.keccak256(chain), expected);
}

#[test]
fn digest_differs_when_any_field_differs() {
    let base = transfer(11, 0x21, 2, vec![1, 2, 3]);
    let chain = ChainId { id: 2 };
    let d = base.keccak256(chain);
    assert_ne!(d, base.keccak256(ChainId { id: 3 }));
    let mut other = transfer(12, 0x21, 2, vec![1, 2, 3]);
    assert_ne!(d, other.keccak256(chain));
    other = transfer(11, 0x22, 2, vec![1, 2, 3]);
    assert_ne!(d, other.keccak256(chain));
    other = transfer(11, 0x21, 2, vec![1, 2, 4]);
    assert_ne!(d, other.keccak256(chain));
}

#[test]
fn digest_of_plain_payload() {
    // The digest works over any payload kind; an opaque byte payload hashes
    // to the hash of the same layout.
    let m = ManagerMessage {
        sequence: 1,
        sender: [0x01; 32],
        payload: BytesPayload { bytes: vec![0x55] },
    };
    let mut bytes: Vec<u8> = vec![0x00, 0x07];
    bytes.extend_from_slice(&m.encode().unwrap());
    let expected = solana_program::keccak::hash(&bytes).to_bytes();
    assert_eq!(m.keccak256(ChainId { id: 7 }), expected);
}

#[test]
fn receive_accepts_and_stores_once() {
    let config = Config { chain_id: ChainId { id: 2 } };
    let mut registry = SiblingRegistry::new();
    registry.register(Sibling { chain: ChainId { id: 5 }, address: [0xAA; 32] });
    let mut store: ValidatedMessageStore<TransferPayload> = ValidatedMessageStore::new();

    let first = attested(5, [0xAA; 32], transfer(77, 0x01, 2, vec![1, 2]));
    assert_eq!(receive_message(&config, &registry, &mut store, first), Ok(()));
    assert!(store.contains(ChainId { id: 5 }, 77));

    // A second attestation for the same (chain, sequence) key, with a
    // different payload, is a replay: rejected, and the first record stays.
    let replay = attested(5, [0xAA; 32], transfer(77, 0x01, 2, vec![9, 9, 9]));
    assert_eq!(
        receive_message(&config, &registry, &mut store, replay),
        Err(NttError::DuplicateMessage)
    );
    let stored = store.get(ChainId { id: 5 }, 77).expect("first record is kept");
    assert_eq!(stored.from_chain, ChainId { id: 5 });
    assert_eq!(stored.message, transfer(77, 0x01, 2, vec![1, 2]));
}

#[test]
fn receive_rejects_wrong_target_chain() {
    let config = Config { chain_id: ChainId { id: 2 } };
    let mut registry = SiblingRegistry::new();
    registry.register(Sibling { chain: ChainId { id: 5 }, address: [0xAA; 32] });
    let mut store: ValidatedMessageStore<TransferPayload> = ValidatedMessageStore::new();

    let vaa = attested(5, [0xAA; 32], transfer(1, 0x01, 7, vec![]));
    assert_eq!(
        receive_message(&config, &registry, &mut store, vaa),
        Err(NttError::InvalidChainId)
    );
    assert!(!store.contains(ChainId { id: 5 }, 1));
}

#[test]
fn receive_rejects_unregistered_sibling() {
    let config = Config { chain_id: ChainId { id: 2 } };
    let registry = SiblingRegistry::new();
    let mut store: ValidatedMessageStore<TransferPayload> = ValidatedMessageStore::new();

    let vaa = attested(5, [0xAA; 32], transfer(1, 0x01, 2, vec![]));
    assert_eq!(
        receive_message(&config, &registry, &mut store, vaa),
        Err(NttError::InvalidEndpointSibling)
    );
    assert!(!store.contains(ChainId { id: 5 }, 1));
}

#[test]
fn receive_rejects_mismatched_sibling_address() {
    let config = Config { chain_id: ChainId { id: 2 } };
    let mut registry = SiblingRegistry::new();
    // The registry holds address A for chain 2's sibling slot; the message
    // arrives from address B.
    registry.register(Sibling { chain: ChainId { id: 2 }, address: [0xAA; 32] });
    let mut store: ValidatedMessageStore<TransferPayload> = ValidatedMessageStore::new();

    let vaa = attested(2, [0xBB; 32], transfer(1, 0x01, 2, vec![]));
    assert_eq!(
        receive_message(&config, &registry, &mut store, vaa),
        Err(NttError::InvalidEndpointSibling)
    );
    assert!(!store.contains(ChainId { id: 2 }, 1));
}

#[test]
fn distinct_keys_are_stored_independently() {
    let config = Config { chain_id: ChainId { id: 2 } };
    let mut registry = SiblingRegistry::new();
    registry.register(Sibling { chain: ChainId { id: 5 }, address: [0xAA; 32] });
    registry.register(Sibling { chain: ChainId { id: 6 }, address: [0xCC; 32] });
    let mut store: ValidatedMessageStore<TransferPayload> = ValidatedMessageStore::new();

    let a = attested(5, [0xAA; 32], transfer(1, 0x01, 2, vec![]));
    let b = attested(5, [0xAA; 32], transfer(2, 0x01, 2, vec![]));
    let c = attested(6, [0xCC; 32], transfer(1, 0x01, 2, vec![]));
    assert_eq!(receive_message(&config, &registry, &mut store, a), Ok(()));
    assert_eq!(receive_message(&config, &registry, &mut store, b), Ok(()));
    assert_eq!(receive_message(&config, &registry, &mut store, c), Ok(()));
    assert!(store.contains(ChainId { id: 5 }, 1));
    assert!(store.contains(ChainId { id: 5 }, 2));
    assert!(store.contains(ChainId { id: 6 }, 1));
    assert!(!store.contains(ChainId { id: 6 }, 2));
}

#[test]
fn sibling_lookup_finds_registered_address() {
    let mut registry = SiblingRegistry::new();
    assert_eq!(registry.lookup(ChainId { id: 3 }), None);
    registry.register(Sibling { chain: ChainId { id: 3 }, address: [0x11; 32] });
    registry.register(Sibling { chain: ChainId { id: 4 }, address: [0x22; 32] });
    assert_eq!(registry.lookup(ChainId { id: 3 }), Some([0x11; 32]));
    assert_eq!(registry.lookup(ChainId { id: 4 }), Some([0x22; 32]));
    assert_eq!(registry.lookup(ChainId { id: 5 }), None);
}

#[test]
fn routed_payload_reports_target_chain() {
    let p = TransferPayload { to_chain: ChainId { id: 9 }, body: vec![] };
    assert_eq!(p.target_chain(), ChainId { id: 9 });
}
