use vstd::prelude::*;

use crate::chain_id::ChainId;
use crate::error::NttError;
use crate::manager::ManagerMessage;
use crate::payload::RoutedPayload;
use crate::sibling::SiblingRegistry;
use crate::store::{record_view, ValidatedEndpointMessage, ValidatedMessageStore};
use crate::wire::bytes32_eq;

verus! {

/// The local deployment's configuration the validator checks against.
#[derive(Debug, Clone, Copy, PartialEq, Eq, Structural)]
pub struct Config {
    pub chain_id: ChainId,
}

/// An already cryptographically verified attested message, as the
/// attestation subsystem hands it over: the emitting chain, the emitting
/// program's address, and the decoded manager-message data of the endpoint
/// message it carried. Its payload names the chain the transfer is
/// addressed to.
#[derive(Debug)]
pub struct ReceiveMessage<A> {
    pub emitter_chain: ChainId,
    pub emitter_address: [u8; 32],
    pub message_data: ManagerMessage<A>,
}

impl<A> ReceiveMessage<A> {
    /// The chain the attested message was emitted on.
    pub fn emitter_chain(&self) -> (c: ChainId)
        ensures
            c == self.emitter_chain,
    {
        self.emitter_chain
    }

    /// The address of the remote program that emitted the message.
    pub fn emitter_address(&self) -> (a: [u8; 32])
        ensures
            a == self.emitter_address,
    {
        self.emitter_address
    }

    /// The decoded manager-message data the endpoint message carried.
    pub fn message(&self) -> (m: &ManagerMessage<A>)
        ensures
            *m == self.message_data,
    {
        &self.message_data
    }
}

/// The receive-message validator: checks an attested message against the
/// local chain id and the sibling registry, then attempts the single
/// create-if-absent write of a validated record at key
/// (emitter chain, sequence).
///
/// The three checks and the write are one atomic step from the caller's
/// view: every failure — wrong target chain, unregistered or mismatched
/// sibling, or an existing record at the key — leaves the store exactly as
/// it was, and rejections leave no trace. Per key the transition from
/// unseen to validated therefore happens at most once.
pub fn receive_message<A: RoutedPayload>(
    config: &Config,
    registry: &SiblingRegistry,
    store: &mut ValidatedMessageStore<A>,
    vaa: ReceiveMessage<A>,
) -> (r: Result<(), NttError>)
    requires
        registry.wf(),
        old(store).wf(),
    ensures
        final(store).wf(),
        ({
            let key = (vaa.emitter_chain.id, vaa.message_data.sequence);
            let stored = (ValidatedEndpointMessage {
                from_chain: vaa.emitter_chain,
                message: vaa.message_data,
            });
            if vaa.message_data.payload.spec_target_chain() != config.chain_id.id {
                r == Err::<(), NttError>(NttError::InvalidChainId) && final(store).contents()
                    == old(store).contents()
            } else if registry.spec_lookup(vaa.emitter_chain.id) != Some(vaa.emitter_address@) {
                r == Err::<(), NttError>(NttError::InvalidEndpointSibling)
                    && final(store).contents() == old(store).contents()
            } else if old(store).contents().contains_key(key) {
                r == Err::<(), NttError>(NttError::DuplicateMessage) && final(store).contents()
                    == old(store).contents()
            } else {
                r is Ok && final(store).contents() == old(store).contents().insert(
                    key,
                    record_view(stored),
                )
            }
        }),
{
    let target: ChainId = vaa.message_data.payload.target_chain();
    if target.id != config.chain_id.id {
        return Err(NttError::InvalidChainId);
    }
    let registered: Option<[u8; 32]> = registry.lookup(vaa.emitter_chain);
    let ok: bool = match &registered {
        None => false,
        Some(addr) => bytes32_eq(addr, &vaa.emitter_address),
    };
    if !ok {
        return Err(NttError::InvalidEndpointSibling);
    }
    let record = ValidatedEndpointMessage {
        from_chain: vaa.emitter_chain,
        message: vaa.message_data,
    };
    store.create_if_absent(record)
}

} // verus!
